//! The trail behind the pointer: which samples are joined, when sampling starts
//! anew, and the ring of stamps that fade.
//!
//! The type `P` is a point and the type `S` the shape of a stamp; the arithmetic
//! on them is the caller's.

use crate::single::at_least;
use crate::text::same_text;
use vstd::prelude::*;
use vstd::string::*;

verus! {

use crate::single::single;

/// The ring holds so many stamps.
pub const MAX_STAMPS: usize = 512;

/// One frame lays at most so many stamps.
pub const MAX_STAMPS_PER_FRAME: usize = 128;

/// Samples that are farther apart in time, in milliseconds, are not joined.
pub const MAX_SAMPLE_GAP_MS: u64 = 100;

/// After such a gap nothing is laid for so many milliseconds, so that a jump of
/// the pointer to the middle of the screen leaves no streak.
pub const RESYNC_GRACE_MS: u64 = 120;

/// A sprite is at most so many pixels wide and high.
pub const MAX_SPRITE_PX: u32 = 256;

/// The size of the drawn sprite in pixels.
pub const PROCEDURAL_SPRITE_SIZE: u32 = 256;

/// A stamp: its shape and when it was laid.
#[derive(Clone, Copy)]
pub struct TrailStamp<S> {
    pub shape: S,
    pub birth_ms: u64,
}

/// A stretch to lay stamps along: from one sample to the next, the sample
/// before both where there is one, and the time since the last call.
#[derive(Clone, Copy)]
pub struct Segment<P> {
    pub before: Option<P>,
    pub from: P,
    pub to: P,
    pub gap_ms: u64,
}

/// The trail.
pub struct CursorTrail<P, S> {
    stamps: Vec<TrailStamp<S>>,
    head: usize,
    count: usize,
    samples: Vec<P>,
    last_call_ms: u64,
    resync_until_ms: u64,
    last_fb: (u32, u32),
    sprite_tex: u32,
    sprite_key: Option<String>,
}

/// What a trail is: the stamps that are kept, the newest first, the last up to
/// three pointer samples, the times that decide on joining them, and the size
/// of the screen.
#[verifier::ext_equal]
pub struct TrailView<P, S> {
    pub live: Seq<TrailStamp<S>>,
    pub samples: Seq<P>,
    pub last_call_ms: u64,
    pub resync_until_ms: u64,
    pub last_fb: (u32, u32),
}

/// The place in the ring of the `i`-th newest stamp.
spec fn ring_index(head: int, i: int) -> int {
    (head + 511 - i) % 512
}

impl<P, S> CursorTrail<P, S> {
    pub closed spec fn view(&self) -> TrailView<P, S> {
        TrailView {
            live: Seq::new(
                self.count as nat,
                |i: int| self.stamps@[ring_index(self.head as int, i)],
            ),
            samples: self.samples@,
            last_call_ms: self.last_call_ms,
            resync_until_ms: self.resync_until_ms,
            last_fb: self.last_fb,
        }
    }

    /// The sprite texture and the path that it was made from.
    pub closed spec fn sprite(&self) -> (u32, Option<Seq<char>>) {
        (
            self.sprite_tex,
            match self.sprite_key {
                Some(k) => Some(k@),
                None => None,
            },
        )
    }

    #[verifier::type_invariant]
    spec fn inv(&self) -> bool {
        &&& self.head < 512
        &&& self.count <= 512
        &&& self.stamps@.len() <= 512
        &&& self.stamps@.len() < 512 ==> self.count <= self.head <= self.stamps@.len()
        &&& self.samples@.len() <= 3
    }
}

/// A trail without stamps and samples.
pub open spec fn cleared<P, S>(t: TrailView<P, S>) -> TrailView<P, S> {
    TrailView { live: Seq::empty(), samples: Seq::empty(), ..t }
}

/// The last three samples with a new one.
pub open spec fn with_sample<P>(s: Seq<P>, pos: P) -> Seq<P> {
    if s.len() < 3 {
        s.push(pos)
    } else {
        seq![s[1], s[2], pos]
    }
}

/// The time since the last call.
pub open spec fn gap_of(now_ms: u64, last_call_ms: u64) -> int {
    if now_ms > last_call_ms {
        now_ms - last_call_ms
    } else {
        0
    }
}

/// The trail after a sample, before stamps are laid: a new screen size drops
/// everything, a gap in time drops the samples and starts a settling time in
/// which the last sample alone is kept, and a jump drops the samples.
pub open spec fn sampled<P, S>(
    t: TrailView<P, S>,
    pos: P,
    now_ms: u64,
    fb: (u32, u32),
    jumped: bool,
) -> TrailView<P, S> {
    let gap = gap_of(now_ms, t.last_call_ms);
    let resumed = gap > MAX_SAMPLE_GAP_MS;
    let t0 = if fb != t.last_fb {
        cleared(t)
    } else {
        t
    };
    let until = if resumed {
        (now_ms + RESYNC_GRACE_MS) as u64
    } else {
        t.resync_until_ms
    };
    let kept = if resumed || (jumped && t0.samples.len() > 0) {
        Seq::empty()
    } else {
        t0.samples
    };
    TrailView {
        last_fb: fb,
        last_call_ms: now_ms,
        resync_until_ms: until,
        samples: if now_ms < until {
            seq![pos]
        } else {
            with_sample(kept, pos)
        },
        live: t0.live,
    }
}

/// The stretch that a sample leads to: none while settling, and none before
/// there are two samples.
pub open spec fn segment_of<P, S>(
    t: TrailView<P, S>,
    pos: P,
    now_ms: u64,
    fb: (u32, u32),
    jumped: bool,
) -> Option<Segment<P>> {
    let n = sampled(t, pos, now_ms, fb, jumped);
    if now_ms < n.resync_until_ms || n.samples.len() < 2 {
        None
    } else {
        let k = n.samples.len() as int;
        Some(
            Segment {
                before: if k >= 3 {
                    Some(n.samples[k - 3])
                } else {
                    None
                },
                from: n.samples[k - 2],
                to: pos,
                gap_ms: gap_of(now_ms, t.last_call_ms) as u64,
            },
        )
    }
}

/// The stamps after some were laid: the new ones in front, the latest first,
/// and of all only as many as the ring holds.
pub open spec fn laid<S>(live: Seq<TrailStamp<S>>, shapes: Seq<S>, now_ms: u64) -> Seq<
    TrailStamp<S>,
>
    decreases shapes.len(),
{
    if shapes.len() == 0 {
        live
    } else {
        let rest = laid(live, shapes.drop_last(), now_ms);
        newest_first(rest, TrailStamp { shape: shapes.last(), birth_ms: now_ms })
    }
}

/// How many stamps a frame lays on a stretch that has room for `wanted`.
pub open spec fn steps_of(wanted: nat) -> nat {
    if wanted < MAX_STAMPS_PER_FRAME {
        wanted
    } else {
        MAX_STAMPS_PER_FRAME as nat
    }
}

/// Those of the given stamps that a frame lays.
pub open spec fn frame_shapes<S>(shapes: Seq<S>) -> Seq<S> {
    shapes.take(steps_of(shapes.len()) as int)
}

/// A stamp in front of the others, the oldest going when the ring is full.
pub open spec fn newest_first<S>(live: Seq<TrailStamp<S>>, s: TrailStamp<S>) -> Seq<
    TrailStamp<S>,
> {
    let all = seq![s] + live;
    if all.len() <= MAX_STAMPS {
        all
    } else {
        all.take(MAX_STAMPS as int)
    }
}

/// A stamp that is older than the lifetime, which is at least a millisecond,
/// in single precision.
pub open spec fn expired(birth_ms: u64, now_ms: u64, lifetime_ms: i32) -> bool {
    let life = if lifetime_ms < 1 {
        1
    } else {
        lifetime_ms as nat
    };
    single(gap_of(now_ms, birth_ms) as nat) >= single(life)
}

/// The stamps that are not expired, in order.
pub open spec fn unexpired<S>(live: Seq<TrailStamp<S>>, now_ms: u64, lifetime_ms: i32) -> Seq<
    TrailStamp<S>,
>
    decreases live.len(),
{
    if live.len() == 0 {
        Seq::empty()
    } else {
        let rest = unexpired(live.drop_last(), now_ms, lifetime_ms);
        if expired(live.last().birth_ms, now_ms, lifetime_ms) {
            rest
        } else {
            rest.push(live.last())
        }
    }
}

impl<P: Copy, S: Copy> CursorTrail<P, S> {
    /// An empty trail.
    pub fn new() -> (r: CursorTrail<P, S>)
        ensures
            r@ == (TrailView::<P, S> {
                live: Seq::empty(),
                samples: Seq::empty(),
                last_call_ms: 0,
                resync_until_ms: 0,
                last_fb: (0, 0),
            }),
            r.sprite() == (0u32, None::<Seq<char>>),
    {
        let r = CursorTrail {
            stamps: Vec::new(),
            head: 0,
            count: 0,
            samples: Vec::new(),
            last_call_ms: 0,
            resync_until_ms: 0,
            last_fb: (0, 0),
            sprite_tex: 0,
            sprite_key: None,
        };
        assert(r@.live =~= Seq::<TrailStamp<S>>::empty());
        assert(r@.samples =~= Seq::<P>::empty());
        r
    }

    /// The number of stamps in the ring.
    pub fn count(&self) -> (r: usize)
        ensures
            r == self@.live.len(),
            r <= MAX_STAMPS,
    {
        proof {
            use_type_invariant(self);
        }
        self.count
    }

    /// The last pointer sample.
    pub fn last_sample(&self) -> (r: Option<P>)
        ensures
            r == if self@.samples.len() > 0 {
                Some(self@.samples.last())
            } else {
                None
            },
    {
        let n: usize = self.samples.len();
        if n > 0 {
            Some(self.samples[n - 1])
        } else {
            None
        }
    }

    /// Drops stamps and samples.
    pub fn reset(&mut self)
        ensures
            final(self)@ == cleared(old(self)@),
            final(self).sprite() == old(self).sprite(),
    {
        proof {
            use_type_invariant(&*self);
        }
        self.count = 0;
        self.head = 0;
        self.samples = Vec::new();
        assert(self@ =~= cleared(old(self)@));
    }

    /// Takes a pointer sample. `jumped` says that the sample is farther from the
    /// last one than the diagonal of the screen. The result is the stretch to
    /// lay stamps along.
    pub fn sample(&mut self, pos: P, now_ms: u64, fb: (u32, u32), jumped: bool) -> (r: Option<
        Segment<P>,
    >)
        requires
            now_ms <= u64::MAX - RESYNC_GRACE_MS,
        ensures
            final(self)@ == sampled(old(self)@, pos, now_ms, fb, jumped),
            r == segment_of(old(self)@, pos, now_ms, fb, jumped),
            final(self).sprite() == old(self).sprite(),
    {
        proof {
            use_type_invariant(&*self);
        }
        let ghost before = self@;
        if fb.0 != self.last_fb.0 || fb.1 != self.last_fb.1 {
            self.last_fb = fb;
            self.reset();
        }
        proof {
            use_type_invariant(&*self);
        }
        let gap: u64 = if now_ms > self.last_call_ms {
            now_ms - self.last_call_ms
        } else {
            0
        };
        self.last_call_ms = now_ms;
        if gap > MAX_SAMPLE_GAP_MS {
            self.samples = Vec::new();
            self.resync_until_ms = now_ms + RESYNC_GRACE_MS;
        }
        if now_ms < self.resync_until_ms {
            let mut seed: Vec<P> = Vec::new();
            seed.push(pos);
            self.samples = seed;
            assert(self@ =~= sampled(before, pos, now_ms, fb, jumped));
            return None;
        }
        let mut next: Vec<P> = Vec::new();
        let n: usize = self.samples.len();
        if n > 0 && !jumped {
            if n < 3 {
                next.push(self.samples[0]);
                if n == 2 {
                    next.push(self.samples[1]);
                }
            } else {
                next.push(self.samples[1]);
                next.push(self.samples[2]);
            }
        }
        next.push(pos);
        let ghost kept = if n > 0 && !jumped {
            self.samples@
        } else {
            Seq::empty()
        };
        assert(next@ =~= with_sample(kept, pos));
        assert(self.samples@.len() == 0 ==> self.samples@ =~= Seq::<P>::empty());
        let k: usize = next.len();
        let r = if k < 2 {
            None
        } else {
            Some(
                Segment {
                    before: if k >= 3 {
                        Some(next[k - 3])
                    } else {
                        None
                    },
                    from: next[k - 2],
                    to: pos,
                    gap_ms: gap,
                },
            )
        };
        self.samples = next;
        assert(self@ =~= sampled(before, pos, now_ms, fb, jumped));
        r
    }

    fn push_stamp(&mut self, s: TrailStamp<S>)
        ensures
            final(self)@ == (TrailView { live: newest_first(old(self)@.live, s), ..old(self)@ }),
            final(self).sprite() == old(self).sprite(),
    {
        proof {
            use_type_invariant(&*self);
        }
        let ghost live = self@.live;
        let ghost h = self.head as int;
        let ghost st = self.stamps@;
        let mut head: usize = self.head;
        let mut count: usize = self.count;
        self.count = 0;
        self.head = 0;
        let mut stamps: Vec<TrailStamp<S>> = Vec::new();
        core::mem::swap(&mut stamps, &mut self.stamps);
        if head == stamps.len() {
            stamps.push(s);
        } else {
            stamps[head] = s;
        }
        head = (head + 1) % MAX_STAMPS;
        if count < MAX_STAMPS {
            count += 1;
        }
        let ghost new_stamps = stamps@;
        proof {
            assert(new_stamps[h] == s);
            assert forall|i: int| 0 <= i < count implies #[trigger] new_stamps[ring_index(
                head as int,
                i,
            )] == newest_first(live, s)[i] by {
                if i == 0 {
                    assert(ring_index(head as int, 0) == h);
                } else {
                    assert(ring_index(head as int, i) == ring_index(h, i - 1));
                    assert(ring_index(h, i - 1) != h);
                    assert(live[i - 1] == st[ring_index(h, i - 1)]);
                }
            }
        }
        core::mem::swap(&mut stamps, &mut self.stamps);
        self.head = head;
        self.count = count;
        assert(self@.live =~= newest_first(live, s));
        assert(self@ =~= (TrailView { live: newest_first(live, s), ..old(self)@ }));
    }

    /// Lays the stamps of a frame, in order, up to as many as a frame may lay.
    pub fn lay(&mut self, shapes: &Vec<S>, now_ms: u64)
        ensures
            final(self)@ == (TrailView {
                live: laid(old(self)@.live, frame_shapes(shapes@), now_ms),
                ..old(self)@
            }),
            final(self).sprite() == old(self).sprite(),
    {
        let ghost live = self@.live;
        let steps: usize = stamp_steps(shapes.len());
        let mut i: usize = 0;
        assert(shapes@.take(0) =~= Seq::<S>::empty());
        while i < steps
            invariant
                i <= steps <= shapes@.len(),
                self@ == (TrailView {
                    live: laid(live, shapes@.take(i as int), now_ms),
                    ..old(self)@
                }),
                self.sprite() == old(self).sprite(),
            decreases steps - i,
        {
            self.push_stamp(TrailStamp { shape: shapes[i], birth_ms: now_ms });
            i += 1;
            assert(shapes@.take(i as int).drop_last() == shapes@.take(i - 1));
        }
    }

    /// The stamps to draw, the newest first: those that are not expired. A
    /// screen without extent shows none.
    pub fn visible(&self, now_ms: u64, lifetime_ms: i32, fb: (u32, u32)) -> (r: Vec<TrailStamp<S>>)
        ensures
            r@ == if fb.0 == 0 || fb.1 == 0 {
                Seq::empty()
            } else {
                unexpired(self@.live, now_ms, lifetime_ms)
            },
    {
        proof {
            use_type_invariant(self);
        }
        let mut out: Vec<TrailStamp<S>> = Vec::new();
        if fb.0 == 0 || fb.1 == 0 {
            return out;
        }
        let life: u64 = if lifetime_ms < 1 {
            1
        } else {
            lifetime_ms as u64
        };
        let ghost live = self@.live;
        let mut i: usize = 0;
        assert(live.take(0) =~= Seq::<TrailStamp<S>>::empty());
        while i < self.count
            invariant
                i <= self.count,
                live == self@.live,
                live.len() == self.count,
                self.head < 512,
                self.count <= 512,
                self.stamps@.len() <= 512,
                self.stamps@.len() < 512 ==> self.count <= self.head <= self.stamps@.len(),
                life == if lifetime_ms < 1 {
                    1
                } else {
                    lifetime_ms as u64
                },
                out@ == unexpired(live.take(i as int), now_ms, lifetime_ms),
            decreases self.count - i,
        {
            let idx: usize = (self.head + (MAX_STAMPS - 1) - i) % MAX_STAMPS;
            assert(idx == ring_index(self.head as int, i as int));
            let s = self.stamps[idx];
            assert(live[i as int] == s);
            let age: u64 = if now_ms > s.birth_ms {
                now_ms - s.birth_ms
            } else {
                0
            };
            assert(live.take(i + 1).drop_last() == live.take(i as int));
            if !at_least(age, life) {
                out.push(s);
            }
            i += 1;
        }
        assert(live.take(i as int) == live);
        out
    }

    /// Whether the sprite of a path is loaded already.
    pub fn sprite_ready(&self, path: &str) -> (r: bool)
        ensures
            r == (self.sprite().1 == Some(path@) && self.sprite().0 != 0),
    {
        match &self.sprite_key {
            Some(k) => self.sprite_tex != 0 && same_text(k.as_str(), path),
            None => false,
        }
    }

    /// Notes the texture that holds the sprite of a path.
    pub fn sprite_loaded(&mut self, tex: u32, path: &str)
        ensures
            final(self).sprite() == (tex, Some(path@)),
            final(self)@ == old(self)@,
    {
        proof {
            use_type_invariant(&*self);
        }
        let key = path.to_owned();
        self.sprite_tex = tex;
        self.sprite_key = Some(key);
    }

    /// The texture of the sprite; 0 where there is none.
    pub fn sprite_texture(&self) -> (r: u32)
        ensures
            r == self.sprite().0,
    {
        self.sprite_tex
    }
}

/// How many stamps a frame lays on a stretch that has room for `wanted`.
pub fn stamp_steps(wanted: usize) -> (r: usize)
    ensures
        r == steps_of(wanted as nat),
{
    if wanted < MAX_STAMPS_PER_FRAME {
        wanted
    } else {
        MAX_STAMPS_PER_FRAME
    }
}

/// A configured sprite is used if it is a still picture that is not empty and
/// not too large; else the drawn one is.
pub fn sprite_accepted(still: bool, width: u32, height: u32) -> (r: bool)
    ensures
        r == (still && 0 < width <= MAX_SPRITE_PX && 0 < height <= MAX_SPRITE_PX),
{
    still && width <= MAX_SPRITE_PX && height <= MAX_SPRITE_PX && width > 0 && height > 0
}

// ---------------------------------------------------------------------------
// Laws
// ---------------------------------------------------------------------------

/// However many stamps are laid, the ring keeps at most its size, and the ones
/// laid last come first.
pub proof fn law_ring_keeps_newest<S>(live: Seq<TrailStamp<S>>, shapes: Seq<S>, now_ms: u64)
    requires
        live.len() <= MAX_STAMPS,
    ensures
        laid(live, shapes, now_ms).len() == if live.len() + shapes.len() <= MAX_STAMPS {
            live.len() + shapes.len()
        } else {
            MAX_STAMPS as nat
        },
        forall|i: int|
            0 <= i < shapes.len() && i < MAX_STAMPS ==> (#[trigger] laid(
                live,
                shapes,
                now_ms,
            )[i]).shape == shapes[shapes.len() - 1 - i] && laid(live, shapes, now_ms)[i].birth_ms
                == now_ms,
        forall|i: int|
            shapes.len() <= i < laid(live, shapes, now_ms).len() ==> #[trigger] laid(
                live,
                shapes,
                now_ms,
            )[i] == live[i - shapes.len()],
    decreases shapes.len(),
{
    if shapes.len() > 0 {
        let front = shapes.drop_last();
        law_ring_keeps_newest(live, front, now_ms);
        let rest = laid(live, front, now_ms);
        let all = laid(live, shapes, now_ms);
        assert forall|i: int| 0 <= i < shapes.len() && i < MAX_STAMPS implies (#[trigger] all[i]).shape
            == shapes[shapes.len() - 1 - i] && all[i].birth_ms == now_ms by {
            if i > 0 {
                assert(all[i] == rest[i - 1]);
                assert(front[front.len() - 1 - (i - 1)] == shapes[shapes.len() - 1 - i]);
            }
        }
        assert forall|i: int| shapes.len() <= i < all.len() implies #[trigger] all[i] == live[i
            - shapes.len()] by {
            assert(all[i] == rest[i - 1]);
        }
    }
}

/// After a gap in time nothing is laid until the settling time is over,
/// wherever the pointer goes meanwhile.
pub proof fn law_no_streak_after_gap<P, S>(
    t: TrailView<P, S>,
    first: P,
    now_ms: u64,
    fb: (u32, u32),
    jumped: bool,
    later: P,
    later_ms: u64,
    later_jumped: bool,
)
    requires
        gap_of(now_ms, t.last_call_ms) > MAX_SAMPLE_GAP_MS,
        now_ms <= later_ms < now_ms + RESYNC_GRACE_MS,
        later_ms <= u64::MAX - RESYNC_GRACE_MS,
    ensures
        segment_of(t, first, now_ms, fb, jumped) is None,
        segment_of(
            sampled(t, first, now_ms, fb, jumped),
            later,
            later_ms,
            fb,
            later_jumped,
        ) is None,
{
}

/// A jump joins nothing, and a new screen size drops all stamps.
pub proof fn law_jump_and_resize<P, S>(
    t: TrailView<P, S>,
    pos: P,
    now_ms: u64,
    fb: (u32, u32),
    jumped: bool,
)
    requires
        now_ms <= u64::MAX - RESYNC_GRACE_MS,
    ensures
        segment_of(t, pos, now_ms, fb, true) is None,
        fb != t.last_fb ==> sampled(t, pos, now_ms, fb, jumped).live.len() == 0 && segment_of(
            t,
            pos,
            now_ms,
            fb,
            jumped,
        ) is None,
{
}

/// What a frame brings: a pointer sample, and stamps for the stretch that it
/// leads to, if it leads to one.
#[verifier::reject_recursive_types(P)]
#[verifier::reject_recursive_types(S)]
pub struct TrailFrame<P, S> {
    pub pos: P,
    pub now_ms: u64,
    pub fb: (u32, u32),
    pub jumped: bool,
    pub shapes: Seq<S>,
}

/// The time keeps room for the settling time.
pub open spec fn frame_ok<P, S>(f: TrailFrame<P, S>) -> bool {
    f.now_ms <= u64::MAX - RESYNC_GRACE_MS
}

/// The trail after a frame: a sample, and stamps where there is a stretch.
pub open spec fn advanced<P, S>(t: TrailView<P, S>, f: TrailFrame<P, S>) -> TrailView<P, S> {
    let s = sampled(t, f.pos, f.now_ms, f.fb, f.jumped);
    if segment_of(t, f.pos, f.now_ms, f.fb, f.jumped) is Some {
        TrailView { live: laid(s.live, frame_shapes(f.shapes), f.now_ms), ..s }
    } else {
        s
    }
}

/// The trail after frames from a new trail on.
pub open spec fn trail_after<P, S>(frames: Seq<TrailFrame<P, S>>) -> TrailView<P, S>
    decreases frames.len(),
{
    if frames.len() == 0 {
        TrailView {
            live: Seq::empty(),
            samples: Seq::empty(),
            last_call_ms: 0,
            resync_until_ms: 0,
            last_fb: (0, 0),
        }
    } else {
        advanced(trail_after(frames.drop_last()), frames.last())
    }
}

/// When the last frame came; 0 before the first.
pub open spec fn last_time<P, S>(frames: Seq<TrailFrame<P, S>>) -> u64 {
    if frames.len() == 0 {
        0
    } else {
        frames.last().now_ms
    }
}

/// The time of the latest frame that came too long after the one before it.
pub open spec fn last_wake<P, S>(frames: Seq<TrailFrame<P, S>>) -> Option<u64>
    decreases frames.len(),
{
    if frames.len() == 0 {
        None
    } else if gap_of(frames.last().now_ms, last_time(frames.drop_last())) > MAX_SAMPLE_GAP_MS {
        Some(frames.last().now_ms)
    } else {
        last_wake(frames.drop_last())
    }
}

/// After any frames a further one drops all stamps if the screen has a new size.
/// Else it leaves them as they are if it came more than 100 ms after the one
/// before it, or within 120 ms of the latest frame that did, or with a jump of
/// the pointer. Else it adds at most 128, however many it brings. There are never
/// more than 512.
pub proof fn law_stamps_of_a_frame<P, S>(frames: Seq<TrailFrame<P, S>>, f: TrailFrame<P, S>)
    requires
        forall|i: int| 0 <= i < frames.len() ==> frame_ok(#[trigger] frames[i]),
        frame_ok(f),
    ensures
        ({
            let before = trail_after(frames);
            let after = trail_after(frames.push(f));
            let settling = match last_wake(frames.push(f)) {
                Some(g) => f.now_ms < g + 120,
                None => false,
            };
            &&& after.live.len() <= 512
            &&& if f.fb != before.last_fb {
                after.live.len() == 0
            } else if f.now_ms - last_time(frames) > 100 || settling || f.jumped {
                after.live == before.live
            } else {
                before.live.len() <= after.live.len() <= before.live.len() + 128
            }
        }),
{
    let all = frames.push(f);
    assert(all.drop_last() =~= frames);
    lemma_trail_after(frames);
    lemma_trail_after(all);
    let s = sampled(trail_after(frames), f.pos, f.now_ms, f.fb, f.jumped);
    law_ring_keeps_newest(s.live, frame_shapes(f.shapes), f.now_ms);
}

/// A frame that brings as many stamps as [`stamp_steps`] allows for the count
/// that its stretch has room for lays all of them, which are at most 128, and
/// drops no other stamp than the ring has no room for.
pub proof fn law_allowed_stamps_are_laid<P, S>(
    frames: Seq<TrailFrame<P, S>>,
    f: TrailFrame<P, S>,
    wanted: nat,
)
    requires
        forall|i: int| 0 <= i < frames.len() ==> frame_ok(#[trigger] frames[i]),
        frame_ok(f),
        f.shapes.len() == steps_of(wanted),
        segment_of(trail_after(frames), f.pos, f.now_ms, f.fb, f.jumped) is Some,
    ensures
        ({
            let before = trail_after(frames).live;
            let after = trail_after(frames.push(f)).live;
            &&& after == laid(before, f.shapes, f.now_ms)
            &&& f.shapes.len() <= 128
            &&& after.len() == if before.len() + steps_of(wanted) <= 512 {
                before.len() + steps_of(wanted)
            } else {
                512
            }
        }),
{
    assert(frames.push(f).drop_last() =~= frames);
    assert(frame_shapes(f.shapes) =~= f.shapes);
    lemma_trail_after(frames);
    law_ring_keeps_newest(trail_after(frames).live, f.shapes, f.now_ms);
}

proof fn lemma_trail_after<P, S>(frames: Seq<TrailFrame<P, S>>)
    requires
        forall|i: int| 0 <= i < frames.len() ==> frame_ok(#[trigger] frames[i]),
    ensures
        trail_after(frames).last_call_ms == last_time(frames),
        trail_after(frames).live.len() <= MAX_STAMPS,
        trail_after(frames).resync_until_ms == match last_wake(frames) {
            Some(g) => g + RESYNC_GRACE_MS,
            None => 0,
        },
    decreases frames.len(),
{
    if frames.len() > 0 {
        let front = frames.drop_last();
        let f = frames.last();
        assert forall|i: int| 0 <= i < front.len() implies frame_ok(#[trigger] front[i]) by {
            assert(front[i] == frames[i]);
        }
        lemma_trail_after(front);
        let s = sampled(trail_after(front), f.pos, f.now_ms, f.fb, f.jumped);
        law_ring_keeps_newest(s.live, frame_shapes(f.shapes), f.now_ms);
    }
}

/// Stamps are laid from the last sample to the new one; the sample before the
/// last gives the bend. A lone sample leads nowhere, and of more than three the
/// oldest go.
pub proof fn law_stretches_join_samples<P, S>(t: TrailView<P, S>, pos: P, now_ms: u64)
    requires
        t.last_call_ms <= now_ms <= t.last_call_ms + 100,
        t.resync_until_ms <= now_ms,
        now_ms <= u64::MAX - RESYNC_GRACE_MS,
        t.samples.len() <= 3,
    ensures
        ({
            let s = segment_of(t, pos, now_ms, t.last_fb, false);
            let n = t.samples.len() as int;
            &&& n == 0 ==> s is None
            &&& n > 0 ==> s is Some && s->0.from == t.samples[n - 1] && s->0.to == pos
                && s->0.gap_ms == now_ms - t.last_call_ms
            &&& n == 1 ==> s->0.before is None
            &&& n > 1 ==> s->0.before == Some(t.samples[n - 2])
        }),
        ({
            let after = sampled(t, pos, now_ms, t.last_fb, false);
            let n = t.samples.len() as int;
            &&& after.samples.last() == pos
            &&& n < 3 ==> after.samples == t.samples.push(pos)
            &&& n == 3 ==> after.samples == seq![t.samples[1], t.samples[2], pos]
            &&& after.live == t.live
        }),
{
}

proof fn lemma_unexpired<S>(
    live: Seq<TrailStamp<S>>,
    now_ms: u64,
    lifetime_ms: i32,
    s: TrailStamp<S>,
)
    ensures
        unexpired(live, now_ms, lifetime_ms).contains(s) <==> live.contains(s) && !expired(
            s.birth_ms,
            now_ms,
            lifetime_ms,
        ),
        unexpired(live, now_ms, lifetime_ms).len() <= live.len(),
    decreases live.len(),
{
    if live.len() > 0 {
        let front = live.drop_last();
        lemma_unexpired(front, now_ms, lifetime_ms, s);
        let rest = unexpired(front, now_ms, lifetime_ms);
        let last = live.last();
        assert(live =~= front.push(last));
        assert(live.contains(s) <==> front.contains(s) || last == s) by {
            if front.contains(s) {
                let i = choose|i: int| 0 <= i < front.len() && front[i] == s;
                assert(live[i] == s);
            }
            assert(live[live.len() - 1] == last);
        }
        assert(rest.push(last).contains(s) <==> rest.contains(s) || last == s) by {
            if rest.contains(s) {
                let i = choose|i: int| 0 <= i < rest.len() && rest[i] == s;
                assert(rest.push(last)[i] == s);
            }
            assert(rest.push(last)[rest.len() as int] == last);
        }
    }
}

/// A stamp is shown until it is as old as the lifetime, and not from then on; a
/// lifetime below a millisecond counts as one. (Ages and lifetimes below 2^24 ms.)
pub proof fn law_stamps_fade<S>(
    live: Seq<TrailStamp<S>>,
    now_ms: u64,
    lifetime_ms: i32,
    s: TrailStamp<S>,
)
    requires
        live.contains(s),
        s.birth_ms <= now_ms < s.birth_ms + 0x100_0000,
        1 <= lifetime_ms < 0x100_0000,
    ensures
        unexpired(live, now_ms, lifetime_ms).contains(s) <==> now_ms - s.birth_ms < lifetime_ms,
        unexpired(live, now_ms, 0).contains(s) <==> now_ms == s.birth_ms,
        unexpired(live, now_ms, lifetime_ms).len() <= live.len(),
{
    lemma_unexpired(live, now_ms, lifetime_ms, s);
    lemma_unexpired(live, now_ms, 0, s);
    crate::single::law_small_numbers_are_exact(
        (now_ms - s.birth_ms) as nat,
        lifetime_ms as nat,
    );
    crate::single::law_small_numbers_are_exact(lifetime_ms as nat, 0);
    crate::single::law_small_numbers_are_exact((now_ms - s.birth_ms) as nat, 1);
    crate::single::law_small_numbers_are_exact(1, 1);
}

/// A sprite is a still picture with an extent of at most 256 pixels each way.
pub proof fn law_sprites(still: bool, width: u32, height: u32, r: bool)
    requires
        call_ensures(sprite_accepted, (still, width, height), r),
    ensures
        !still || width == 0 || height == 0 || width > 256 || height > 256 ==> !r,
        still && 0 < width <= 256 && 0 < height <= 256 ==> r,
{
}

} // verus!
