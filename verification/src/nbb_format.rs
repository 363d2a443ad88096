//! Formatting of the Ninjabrain Bot overlay's cells and of the markup in its
//! information messages.

use crate::nbb_data::NbbInfoMessage;
use crate::text::{
    ascii_digit, ascii_upper, find, find_char, from_range, hex_digit, push_int, same_text,
    to_chars,
};
use vstd::prelude::*;
use vstd::string::*;

verus! {

use crate::text::{
    decimal, decimal_nat, digits_value, find_from, hex_value, is_digit, lemma_decimal_nat,
    lemma_digits_value_grows, lemma_find_from, matches_at, upper, upper_char,
};

/// A stretch of text in one color; without a color it takes the default one.
#[derive(Clone, Debug, PartialEq)]
pub struct TextRun {
    pub text: String,
    pub color: Option<[u8; 3]>,
}

/// What a run shows.
#[verifier::ext_equal]
pub struct RunView {
    pub text: Seq<char>,
    pub color: Option<Seq<u8>>,
}

/// The channels of a color, red first.
pub open spec fn channels(c: Option<[u8; 3]>) -> Option<Seq<u8>> {
    match c {
        Some(a) => Some(a@),
        None => None,
    }
}

impl View for TextRun {
    type V = RunView;

    open spec fn view(&self) -> RunView {
        RunView { text: self.text@, color: channels(self.color) }
    }
}

pub open spec fn run_views(runs: Seq<TextRun>) -> Seq<RunView> {
    runs.map_values(|r: TextRun| r@)
}

/// The color of a certainty whose markup names none.
pub open spec fn default_certainty_color() -> Seq<char> {
    "#00CE29"@
}

// ---------------------------------------------------------------------------
// Hexadecimal colors
// ---------------------------------------------------------------------------

pub open spec fn all_hex(s: Seq<char>) -> bool {
    forall|i: int| 0 <= i < s.len() ==> hex_value(#[trigger] s[i]) is Some
}

/// The byte written by the two hexadecimal digits at `i`.
pub open spec fn hex_byte(s: Seq<char>, i: int) -> u8 {
    (hex_value(s[i])->0 * 16 + hex_value(s[i + 1])->0) as u8
}

/// The color that `#RRGGBB` denotes.
pub open spec fn hex_color(s: Seq<char>) -> Option<Seq<u8>> {
    if s.len() == 7 && s[0] == '#' && all_hex(s.subrange(1, 7)) {
        Some(seq![hex_byte(s, 1), hex_byte(s, 3), hex_byte(s, 5)])
    } else {
        None
    }
}

/// A color code as the overlay writes it: capitals, with its `#`; anything
/// that is no color code becomes the default.
pub open spec fn normal_color(s: Seq<char>) -> Seq<char> {
    let c = if s.len() > 0 && s[0] == '#' {
        s
    } else {
        seq!['#'] + s
    };
    if c.len() == 7 && all_hex(c.subrange(1, 7)) {
        upper(c)
    } else {
        default_certainty_color()
    }
}

/// The byte written by the two hexadecimal digits at `at`.
fn hex_pair(v: &Vec<char>, at: usize) -> (r: Option<u8>)
    requires
        at + 2 <= v@.len(),
    ensures
        r is Some <==> hex_value(v@[at as int]) is Some && hex_value(v@[at + 1]) is Some,
        r matches Some(b) ==> b == hex_byte(v@, at as int),
{
    let n: usize = v.len();
    match (hex_digit(v[at]), hex_digit(v[at + 1])) {
        (Some(x), Some(y)) => Some((x * 16 + y) as u8),
        _ => None,
    }
}

/// The color in `v[at..at + 7]`.
fn hex_color_at(v: &Vec<char>, at: usize) -> (r: Option<[u8; 3]>)
    requires
        at + 7 <= v@.len(),
    ensures
        channels(r) == hex_color(v@.subrange(at as int, at + 7)),
{
    let n: usize = v.len();
    let ghost s = v@.subrange(at as int, at + 7);
    let ghost t = s.subrange(1, 7);
    assert(t[0] == v@[at + 1] && t[1] == v@[at + 2] && t[2] == v@[at + 3] && t[3] == v@[at + 4]
        && t[4] == v@[at + 5] && t[5] == v@[at + 6]);
    if v[at] != '#' {
        return None;
    }
    match (hex_pair(v, at + 1), hex_pair(v, at + 3), hex_pair(v, at + 5)) {
        (Some(r), Some(g), Some(b)) => {
            let out: [u8; 3] = [r, g, b];
            assert(out@ == seq![hex_byte(s, 1), hex_byte(s, 3), hex_byte(s, 5)]);
            assert(all_hex(t));
            Some(out)
        },
        _ => None,
    }
}

/// The color that `#RRGGBB` denotes.
pub fn parse_hex_color(s: &str) -> (r: Option<[u8; 3]>)
    ensures
        channels(r) == hex_color(s@),
{
    let v = to_chars(s);
    if v.len() != 7 {
        return None;
    }
    assert(v@.subrange(0, 7) == s@);
    hex_color_at(&v, 0)
}

/// A color code with its `#`, in capitals; the default where it is none.
pub fn normalize_hex_color(color: &str) -> (r: String)
    ensures
        r@ == normal_color(color@),
{
    let v = to_chars(color);
    let mut c: Vec<char> = Vec::new();
    if v.len() == 0 || v[0] != '#' {
        c.push('#');
    }
    let ghost lead = c@;
    let mut i: usize = 0;
    while i < v.len()
        invariant
            i <= v@.len(),
            c@ == lead + v@.take(i as int),
        decreases v.len() - i,
    {
        c.push(v[i]);
        i += 1;
        assert(v@.take(i as int) == v@.take(i - 1).push(v@[i - 1]));
    }
    assert(v@.take(i as int) == v@);
    proof {
        reveal_strlit("#00CE29");
        assert(lead.len() == 0 ==> c@ == v@);
        assert(lead.len() != 0 ==> c@ == seq!['#'] + v@);
    }
    if c.len() != 7 {
        return "#00CE29".to_owned();
    }
    let mut out: String = String::new();
    let mut i: usize = 0;
    while i < 7
        invariant
            i <= 7,
            c@.len() == 7,
            c@[0] == '#',
            out@ == upper(c@.take(i as int)),
            forall|k: int| 1 <= k < i ==> hex_value(#[trigger] c@[k]) is Some,
        ensures
            i <= 7,
            i < 7 ==> !all_hex(c@.subrange(1, 7)),
            i == 7 ==> out@ == upper(c@) && all_hex(c@.subrange(1, 7)),
        decreases 7 - i,
    {
        if i > 0 && hex_digit(c[i]).is_none() {
            assert(c@.subrange(1, 7)[i - 1] == c@[i as int]);
            break;
        }
        out.push(ascii_upper(c[i]));
        i += 1;
        assert(c@.take(i as int) == c@.take(i - 1).push(c@[i - 1]));
        assert(upper(c@.take(i as int)) == upper(c@.take(i - 1)).push(upper_char(c@[i - 1])));
        assert(i == 7 ==> c@.take(i as int) == c@);
    }
    if i < 7 {
        return "#00CE29".to_owned();
    }
    out
}

// ---------------------------------------------------------------------------
// Integers in a message
// ---------------------------------------------------------------------------

/// The end of the digits that start at `i`.
pub open spec fn digits_end(t: Seq<char>, i: int) -> int
    decreases t.len() - i,
{
    if 0 <= i < t.len() && is_digit(t[i]) {
        digits_end(t, i + 1)
    } else {
        i
    }
}

/// The integer written at `i`, with its sign, and the position behind it;
/// only an integer of 64 bits counts.
pub open spec fn int_at(t: Seq<char>, i: int) -> Option<(int, int)> {
    let signed = (t[i] == '+' || t[i] == '-') && i + 1 < t.len() && is_digit(t[i + 1]);
    if signed || is_digit(t[i]) {
        let start = if signed {
            i + 1
        } else {
            i
        };
        let end = digits_end(t, start);
        let m = digits_value(t.subrange(start, end)) as int;
        let v = if t[i] == '-' {
            -m
        } else {
            m
        };
        if i64::MIN <= v <= i64::MAX {
            Some((v, end))
        } else {
            None
        }
    } else {
        None
    }
}

/// The first `count` integers in `t` from position `i` on. A position where no
/// integer of 64 bits stands is stepped over.
pub open spec fn integers_from(t: Seq<char>, i: int, count: nat) -> Seq<int>
    decreases t.len() - i,
    via integers_from_decreases
{
    if count == 0 || i < 0 || i >= t.len() {
        Seq::empty()
    } else {
        match int_at(t, i) {
            Some((v, end)) => seq![v] + integers_from(t, end, (count - 1) as nat),
            None => integers_from(t, i + 1, count),
        }
    }
}

proof fn lemma_digits_end(t: Seq<char>, i: int)
    requires
        0 <= i <= t.len(),
    ensures
        i <= digits_end(t, i) <= t.len(),
        i < t.len() && is_digit(t[i]) ==> i < digits_end(t, i),
        forall|k: int| i <= k < digits_end(t, i) ==> is_digit(#[trigger] t[k]),
    decreases t.len() - i,
{
    if i < t.len() && is_digit(t[i]) {
        lemma_digits_end(t, i + 1);
    }
}

#[via_fn]
proof fn integers_from_decreases(t: Seq<char>, i: int, count: nat) {
    if 0 <= i < t.len() {
        lemma_digits_end(t, i);
        if i + 1 < t.len() {
            lemma_digits_end(t, i + 1);
        }
    }
}

/// The integer at `i` with its sign, and the position behind it.
fn read_int(t: &Vec<char>, i: usize) -> (r: Option<(i64, usize)>)
    requires
        i < t@.len(),
    ensures
        r is Some <==> int_at(t@, i as int) is Some,
        r matches Some((v, end)) ==> {
            &&& int_at(t@, i as int) == Some((v as int, end as int))
            &&& i < end <= t@.len()
        },
{
    let c = t[i];
    let n: usize = t.len();
    let signed = (c == '+' || c == '-') && i + 1 < n && ascii_digit(t[i + 1]);
    if !signed && !ascii_digit(c) {
        return None;
    }
    let start: usize = if signed {
        i + 1
    } else {
        i
    };
    proof {
        lemma_digits_end(t@, start as int);
    }
    let ghost end = digits_end(t@, start as int);
    let ghost all = t@.subrange(start as int, end);
    let mut j: usize = start;
    let mut m: u64 = 0;
    let mut big: bool = false;
    while j < t.len() && ascii_digit(t[j])
        invariant
            start <= j <= end,
            end <= t@.len(),
            end == digits_end(t@, j as int),
            all == t@.subrange(start as int, end),
            all.len() == end - start,
            forall|k: int| 0 <= k < all.len() ==> is_digit(#[trigger] all[k]),
            !big ==> m as int == digits_value(all.take(j - start)) && m <= 0x8000_0000_0000_0000,
            big ==> digits_value(all) > 0x8000_0000_0000_0000,
        decreases t.len() - j,
    {
        proof {
            lemma_digits_end(t@, j as int);
            assert(all.take(j + 1 - start).drop_last() == all.take(j - start));
            assert(all[j - start] == t@[j as int]);
        }
        if !big {
            let d: u64 = (t[j] as u32 - 48) as u64;
            if m > 0x0ccc_cccc_cccc_cccd || m * 10 + d > 0x8000_0000_0000_0000 {
                proof {
                    assert(digits_value(all.take(j + 1 - start)) > 0x8000_0000_0000_0000);
                    lemma_digits_value_grows(all, j + 1 - start);
                }
                big = true;
            } else {
                m = m * 10 + d;
            }
        }
        j += 1;
    }
    assert(j == end);
    assert(all.take(all.len() as int) == all);
    if big {
        return None;
    }
    if c == '-' {
        if m == 0x8000_0000_0000_0000 {
            Some((i64::MIN, j))
        } else {
            Some((-(m as i64), j))
        }
    } else if m <= 0x7fff_ffff_ffff_ffff {
        Some((m as i64, j))
    } else {
        None
    }
}

pub open spec fn ints(v: Seq<i64>) -> Seq<int> {
    v.map_values(|x: i64| x as int)
}

/// The first `count` integers of a text, if it holds so many.
pub fn extract_leading_integers(text: &str, count: usize) -> (r: Option<Vec<i64>>)
    ensures
        r is Some <==> integers_from(text@, 0, count as nat).len() == count,
        r matches Some(v) ==> ints(v@) == integers_from(text@, 0, count as nat),
{
    let t = to_chars(text);
    let mut out: Vec<i64> = Vec::new();
    let mut i: usize = 0;
    while i < t.len() && out.len() < count
        invariant
            i <= t@.len(),
            t@ == text@,
            out@.len() <= count,
            integers_from(text@, 0, count as nat) == ints(out@) + integers_from(
                text@,
                i as int,
                (count - out@.len()) as nat,
            ),
        decreases t.len() - i,
    {
        let ghost before = out@;
        match read_int(&t, i) {
            Some((v, end)) => {
                out.push(v);
                i = end;
                assert(ints(out@) == ints(before).push(v as int));
                assert(ints(before) + (seq![v as int] + integers_from(
                    text@,
                    i as int,
                    (count - out@.len()) as nat,
                )) == ints(out@) + integers_from(text@, i as int, (count - out@.len()) as nat));
            },
            None => {
                i += 1;
            },
        }
    }
    assert(integers_from(text@, i as int, (count - out@.len()) as nat) == Seq::<int>::empty());
    assert(ints(out@) + Seq::<int>::empty() == ints(out@));
    if out.len() >= count {
        Some(out)
    } else {
        None
    }
}

// ---------------------------------------------------------------------------
// Spans
// ---------------------------------------------------------------------------

/// A span in a markup text: where its opening tag starts and ends, and where
/// its closing tag starts.
pub struct Span {
    pub start: int,
    pub tag_end: int,
    pub close: int,
}

/// The span whose opening tag is the first at or behind `from`, if that tag
/// ends and a closing tag follows it.
pub open spec fn span_from(m: Seq<char>, from: int) -> Option<Span> {
    match find_from(m, "<span"@, from) {
        None => None,
        Some(start) => match find_from(m, seq!['>'], start) {
            None => None,
            Some(tag_end) => match find_from(m, "</span>"@, tag_end + 1) {
                None => None,
                Some(close) => Some(Span { start, tag_end, close }),
            },
        },
    }
}

/// The color code in an opening tag: seven characters from its first `#` on.
pub open spec fn tag_code(tag: Seq<char>) -> Option<Seq<char>> {
    match find_from(tag, seq!['#'], 0) {
        Some(h) => if h + 7 <= tag.len() {
            Some(tag.subrange(h, h + 7))
        } else {
            None
        },
        None => None,
    }
}

/// The color that an opening tag names.
pub open spec fn tag_color(tag: Seq<char>) -> Option<Seq<u8>> {
    match tag_code(tag) {
        Some(code) => hex_color(code),
        None => None,
    }
}

/// The opening tag of a span.
pub open spec fn span_tag(m: Seq<char>, s: Span) -> Seq<char> {
    m.subrange(s.start, s.tag_end + 1)
}

/// The text inside a span.
pub open spec fn span_inner(m: Seq<char>, s: Span) -> Seq<char> {
    m.subrange(s.tag_end + 1, s.close)
}

/// The positions of a span are in order and inside the text.
pub proof fn lemma_span(m: Seq<char>, from: int)
    requires
        0 <= from,
    ensures
        span_from(m, from) matches Some(s) ==> from <= s.start && s.start + 5 <= s.tag_end + 1
            && s.tag_end + 1 <= s.close && s.close + 7 <= m.len(),
{
    reveal_strlit("<span");
    reveal_strlit("</span>");
    lemma_find_from(m, "<span"@, from);
    if let Some(start) = find_from(m, "<span"@, from) {
        lemma_find_from(m, seq!['>'], start);
        if let Some(tag_end) = find_from(m, seq!['>'], start) {
            lemma_find_from(m, "</span>"@, tag_end + 1);
            assert(m.subrange(tag_end, tag_end + 1)[0] == '>');
            if tag_end < start + 5 {
                assert(m.subrange(start, start + 5)[tag_end - start] == "<span"@[tag_end - start]);
            }
        }
    }
}

/// Executable counterpart of a [`Span`].
struct SpanAt {
    start: usize,
    tag_end: usize,
    close: usize,
}

/// The color code of the tag `v[start..=tag_end]`: where it stands.
fn tag_code_at(v: &Vec<char>, start: usize, tag_end: usize) -> (r: Option<usize>)
    requires
        start <= tag_end < v@.len(),
    ensures
        r is Some <==> tag_code(v@.subrange(start as int, tag_end + 1)) is Some,
        r matches Some(h) ==> start <= h && h + 7 <= tag_end + 1 && v@.subrange(h as int, h + 7)
            == tag_code(v@.subrange(start as int, tag_end + 1))->0,
{
    let ghost tag = v@.subrange(start as int, tag_end + 1);
    let n: usize = v.len();
    let mut t: Vec<char> = Vec::new();
    let mut i: usize = start;
    while i <= tag_end
        invariant
            start <= i <= tag_end + 1,
            tag_end < v.len(),
            t@ == v@.subrange(start as int, i as int),
        decreases tag_end + 1 - i,
    {
        t.push(v[i]);
        i += 1;
        assert(v@.subrange(start as int, i as int) == v@.subrange(start as int, i - 1).push(
            v@[i - 1],
        ));
    }
    assert(t@ == tag);
    match find_char(&t, '#', 0) {
        Some(h) => {
            if t.len() - h >= 7 {
                assert(v@.subrange(start + h, start + h + 7) == tag.subrange(h as int, h + 7));
                Some(start + h)
            } else {
                None
            }
        },
        None => None,
    }
}

/// The color of the tag `v[start..=tag_end]`.
fn tag_color_at(v: &Vec<char>, start: usize, tag_end: usize) -> (r: Option<[u8; 3]>)
    requires
        start <= tag_end < v@.len(),
    ensures
        channels(r) == tag_color(v@.subrange(start as int, tag_end + 1)),
{
    match tag_code_at(v, start, tag_end) {
        Some(h) => hex_color_at(v, h),
        None => None,
    }
}

/// The span whose opening tag is the first one from `from` on.
fn find_span(v: &Vec<char>, from: usize) -> (r: Option<SpanAt>)
    ensures
        r is Some <==> span_from(v@, from as int) is Some,
        r matches Some(s) ==> {
            let w = span_from(v@, from as int)->0;
            &&& s.start == w.start
            &&& s.tag_end == w.tag_end
            &&& s.close == w.close
            &&& from <= s.start <= s.tag_end < s.close
            &&& s.close + 7 <= v@.len()
        },
{
    proof {
        lemma_span(v@, from as int);
    }
    let n: usize = v.len();
    match find(v, &to_chars("<span"), from) {
        Some(start) => match find_char(v, '>', start) {
            Some(tag_end) => match find(v, &to_chars("</span>"), tag_end + 1) {
                Some(close) => Some(SpanAt { start, tag_end, close }),
                None => None,
            },
            None => None,
        },
        None => None,
    }
}

/// The color code, in its normal form, and the text of the first span of a
/// message; only where that span's tag names a color.
pub open spec fn first_color_span(t: Seq<char>) -> Option<(Seq<char>, Seq<char>)> {
    match span_from(t, 0) {
        Some(s) => if tag_color(span_tag(t, s)) is Some {
            Some((normal_color(tag_code(span_tag(t, s))->0), span_inner(t, s)))
        } else {
            None
        },
        None => None,
    }
}

pub fn extract_first_color_span(text: &str) -> (r: Option<(String, String)>)
    ensures
        r is Some <==> first_color_span(text@) is Some,
        r matches Some((color, inner)) ==> (color@, inner@) == first_color_span(text@)->0,
{
    let v = to_chars(text);
    let s = match find_span(&v, 0) {
        Some(s) => s,
        None => {
            return None;
        },
    };
    let h: usize = match tag_code_at(&v, s.start, s.tag_end) {
        Some(h) => h,
        None => {
            return None;
        },
    };
    if hex_color_at(&v, h).is_none() {
        return None;
    }
    let code = from_range(&v, h, h + 7);
    Some((normalize_hex_color(code.as_str()), from_range(&v, s.tag_end + 1, s.close)))
}

// ---------------------------------------------------------------------------
// Messages
// ---------------------------------------------------------------------------

/// What the overlay shows for a message of type `t`, as markup.
pub open spec fn translation(t: Seq<char>, message: Seq<char>) -> Seq<char> {
    let n = integers_from(message, 0, 2);
    if t == "MISMEASURE"@ {
        "Detected unusually large errors, you probably mismeasured or your standard deviation is too low."@
    } else if t == "PORTAL_LINKING"@ {
        "You might not be able to nether travel into the stronghold due to portal linking."@
    } else if t == "MC_VERSION"@ {
        "Detected wrong Minecraft version, make sure the correct version is chosen in the settings."@
    } else if t == "NEXT_THROW_DIRECTION"@ && n.len() == 2 {
        "Go left "@ + decimal(n[0]) + " blocks, or right "@ + decimal(n[1])
            + " blocks, for ~95% certainty after next measurement."@
    } else if t == "COMBINED_CERTAINTY"@ && n.len() == 2 && first_color_span(message) is Some {
        let (color, inner) = first_color_span(message)->0;
        "Nether coords ("@ + decimal(n[0]) + ", "@ + decimal(n[1]) + ") have <span style=\"color:"@
            + color + ";\">"@ + inner
            + "</span> chance to hit the stronghold (it is between the top 2 offsets)."@
    } else {
        message
    }
}

/// The fixed text of a known message type, else the message itself.
pub fn translate_markup(msg: &NbbInfoMessage) -> (r: String)
    ensures
        r@ == translation(msg.msg_type@, msg.message@),
{
    let t = msg.msg_type.as_str();
    proof {
        reveal_strlit("MISMEASURE");
        reveal_strlit("PORTAL_LINKING");
        reveal_strlit("MC_VERSION");
        reveal_strlit("NEXT_THROW_DIRECTION");
        reveal_strlit("COMBINED_CERTAINTY");
    }
    if same_text(t, "MISMEASURE") {
        return "Detected unusually large errors, you probably mismeasured or your standard deviation is too low.".to_owned();
    }
    if same_text(t, "PORTAL_LINKING") {
        return "You might not be able to nether travel into the stronghold due to portal linking.".to_owned();
    }
    if same_text(t, "MC_VERSION") {
        return "Detected wrong Minecraft version, make sure the correct version is chosen in the settings.".to_owned();
    }
    if same_text(t, "NEXT_THROW_DIRECTION") {
        if let Some(v) = extract_leading_integers(msg.message.as_str(), 2) {
            let ghost n = integers_from(msg.message@, 0, 2);
            assert(v@.len() == ints(v@).len());
            assert(n[0] == v@[0] && n[1] == v@[1]);
            let mut out: String = "Go left ".to_owned();
            push_int(&mut out, v[0]);
            out.append(" blocks, or right ");
            push_int(&mut out, v[1]);
            out.append(" blocks, for ~95% certainty after next measurement.");
            return out;
        }
        return msg.message.clone();
    }
    if same_text(t, "COMBINED_CERTAINTY") {
        let numbers = extract_leading_integers(msg.message.as_str(), 2);
        let span = extract_first_color_span(msg.message.as_str());
        if let (Some(v), Some((color, inner))) = (numbers, span) {
            let ghost n = integers_from(msg.message@, 0, 2);
            assert(v@.len() == ints(v@).len());
            assert(n[0] == v@[0] && n[1] == v@[1]);
            let mut out: String = "Nether coords (".to_owned();
            push_int(&mut out, v[0]);
            out.append(", ");
            push_int(&mut out, v[1]);
            out.append(") have <span style=\"color:");
            out.append(color.as_str());
            out.append(";\">");
            out.append(inner.as_str());
            out.append("</span> chance to hit the stronghold (it is between the top 2 offsets).");
            return out;
        }
        return msg.message.clone();
    }
    msg.message.clone()
}

/// Text in the default color.
pub open spec fn plain(text: Seq<char>) -> RunView {
    RunView { text, color: None }
}

/// The stretches of a markup text from `cursor` on, in order, some of them
/// perhaps empty: plain text between spans, and the inside of each span in its
/// color. From a span that does not end on, all is plain text.
pub open spec fn pieces(m: Seq<char>, cursor: int) -> Seq<RunView>
    decreases m.len() - cursor,
    via pieces_decreases
{
    if cursor < 0 || cursor >= m.len() {
        Seq::empty()
    } else {
        match span_from(m, cursor) {
            Some(s) => seq![
                plain(m.subrange(cursor, s.start)),
                RunView { text: span_inner(m, s), color: tag_color(span_tag(m, s)) },
            ] + pieces(m, s.close + 7),
            None => seq![plain(m.subrange(cursor, m.len() as int))],
        }
    }
}

#[via_fn]
proof fn pieces_decreases(m: Seq<char>, cursor: int) {
    if 0 <= cursor {
        lemma_span(m, cursor);
    }
}

/// `runs` with `r` behind it: nothing where `r` is empty, in one run with the
/// last where the colors agree.
pub open spec fn with_run(runs: Seq<RunView>, r: RunView) -> Seq<RunView> {
    if r.text.len() == 0 {
        runs
    } else if runs.len() > 0 && runs.last().color == r.color {
        runs.drop_last().push(RunView { text: runs.last().text + r.text, color: r.color })
    } else {
        runs.push(r)
    }
}

/// Neighbouring stretches of one color joined, empty ones dropped.
pub open spec fn joined(p: Seq<RunView>) -> Seq<RunView>
    decreases p.len(),
{
    if p.len() == 0 {
        Seq::empty()
    } else {
        with_run(joined(p.drop_last()), p.last())
    }
}

/// The runs of a markup text.
pub open spec fn markup_runs(m: Seq<char>) -> Seq<RunView> {
    joined(pieces(m, 0))
}

/// Whether two colors are the same.
fn same_color(a: &Option<[u8; 3]>, b: &Option<[u8; 3]>) -> (r: bool)
    ensures
        r == (channels(*a) == channels(*b)),
{
    match (a, b) {
        (None, None) => true,
        (Some(x), Some(y)) => {
            let r = x[0] == y[0] && x[1] == y[1] && x[2] == y[2];
            assert(r ==> x@ == y@);
            r
        },
        _ => false,
    }
}

fn push_run(runs: &mut Vec<TextRun>, text: String, color: Option<[u8; 3]>)
    ensures
        run_views(final(runs)@) == with_run(
            run_views(old(runs)@),
            RunView { text: text@, color: channels(color) },
        ),
{
    if text.as_str().is_empty() {
        return;
    }
    let ghost before = runs@;
    let n: usize = runs.len();
    if n > 0 && same_color(&runs[n - 1].color, &color) {
        let last = runs.pop();
        assert(run_views(runs@) == run_views(before).drop_last());
        match last {
            Some(r) => {
                let merged = TextRun { text: r.text.concat(text.as_str()), color };
                let ghost mid = runs@;
                runs.push(merged);
                assert(run_views(runs@) == run_views(mid).push(merged@));
            },
            None => {},
        }
        return;
    }
    let r = TextRun { text, color };
    runs.push(r);
    assert(run_views(runs@) == run_views(before).push(r@));
}

/// Joining goes from left to right.
proof fn lemma_joined_push(p: Seq<RunView>, r: RunView)
    ensures
        joined(p.push(r)) == with_run(joined(p), r),
{
    assert(p.push(r).drop_last() == p);
}

/// Reads `<span style="color:#RRGGBB;">..</span>` markup into colored runs.
pub fn parse_markup_to_runs(markup: &str) -> (r: Vec<TextRun>)
    ensures
        run_views(r@) == markup_runs(markup@),
{
    let m = to_chars(markup);
    let mut runs: Vec<TextRun> = Vec::new();
    let mut cursor: usize = 0;
    let ghost mut done: Seq<RunView> = Seq::empty();
    assert(run_views(runs@) == Seq::<RunView>::empty());
    while cursor < m.len()
        invariant_except_break
            cursor <= m@.len(),
            m@ == markup@,
            done + pieces(markup@, cursor as int) == pieces(markup@, 0),
            run_views(runs@) == joined(done),
        ensures
            run_views(runs@) == markup_runs(markup@),
        decreases m.len() - cursor,
    {
        let ghost p = pieces(markup@, cursor as int);
        match find_span(&m, cursor) {
            Some(s) => {
                let lead = from_range(&m, cursor, s.start);
                let inner = from_range(&m, s.tag_end + 1, s.close);
                let color = tag_color_at(&m, s.start, s.tag_end);
                proof {
                    lemma_joined_push(done, p[0]);
                    lemma_joined_push(done.push(p[0]), p[1]);
                }
                push_run(&mut runs, lead, None);
                push_run(&mut runs, inner, color);
                proof {
                    let rest = pieces(markup@, s.close + 7);
                    assert(done + p == done.push(p[0]).push(p[1]) + rest);
                    done = done.push(p[0]).push(p[1]);
                }
                cursor = s.close + 7;
                if cursor == m.len() {
                    assert(done + pieces(markup@, cursor as int) == done);
                    break;
                }
            },
            None => {
                let rest = from_range(&m, cursor, m.len());
                proof {
                    lemma_joined_push(done, p[0]);
                    assert(done + p == done.push(p[0]));
                }
                push_run(&mut runs, rest, None);
                break;
            },
        }
    }
    runs
}

/// A message as the colored runs that the overlay shows.
pub fn format_info_message(msg: &NbbInfoMessage) -> (r: Vec<TextRun>)
    ensures
        run_views(r@) == markup_runs(translation(msg.msg_type@, msg.message@)),
{
    parse_markup_to_runs(translate_markup(msg).as_str())
}

// ---------------------------------------------------------------------------
// Cells
// ---------------------------------------------------------------------------

/// The text of a coordinate pair.
pub open spec fn coords_text(x: int, z: int) -> Seq<char> {
    "("@ + decimal(x) + ", "@ + decimal(z) + ")"@
}

/// A coordinate pair `(x, z)` with its colors. Where both signs agree the whole
/// text has one color and the split prefix is empty; else the text up to and
/// with the comma is split off, so that each half has the color of its sign.
/// The parts are the text, its color, the split prefix and the prefix's color.
pub fn format_coords<C: Copy>(x: i64, z: i64, positive: C, negative: C) -> (r: (
    String,
    C,
    String,
    C,
))
    ensures
        r.0@ == coords_text(x as int, z as int),
        r.1 == if z < 0 {
            negative
        } else {
            positive
        },
        r.2@ == if (x < 0) == (z < 0) {
            Seq::<char>::empty()
        } else {
            "("@ + decimal(x as int) + ", "@
        },
        r.3 == if x < 0 {
            negative
        } else {
            positive
        },
{
    let mut text: String = "(".to_owned();
    push_int(&mut text, x);
    text.append(", ");
    let prefix = text.clone();
    push_int(&mut text, z);
    text.append(")");
    let x_color: C = if x < 0 {
        negative
    } else {
        positive
    };
    let z_color: C = if z < 0 {
        negative
    } else {
        positive
    };
    if (x < 0) == (z < 0) {
        (text, z_color, String::new(), x_color)
    } else {
        (text, z_color, prefix, x_color)
    }
}

/// An angle cell with the direction of the correction: the angle, then the
/// size of the correction behind an arrow. `angle` has two decimals and
/// `correction` is the correction's size with one; `positive` says that the
/// correction is above zero. The second part is the bare angle.
pub fn format_angle_with_direction(angle: &str, correction: &str, positive: bool) -> (r: (
    String,
    String,
))
    ensures
        r.0@ == angle@ + " ("@ + (if positive {
            "-> "@
        } else {
            "<- "@
        }) + correction@ + ")"@,
        r.1@ == angle@,
{
    let mut text: String = angle.to_owned();
    text.append(" (");
    if positive {
        text.append("-> ");
    } else {
        text.append("<- ");
    }
    text.append(correction);
    text.append(")");
    (text, angle.to_owned())
}

/// The suffix of a subpixel angle: the increments with their sign forced on,
/// nothing for none.
pub open spec fn increment_suffix(increments: int) -> Seq<char> {
    if increments == 0 {
        Seq::empty()
    } else if increments > 0 {
        seq!['+'] + decimal(increments)
    } else {
        decimal(increments)
    }
}

/// A subpixel angle, `angle` being its text with two decimals.
pub fn format_subpixel(angle: &str, increments: i32) -> (r: String)
    ensures
        r@ == angle@ + increment_suffix(increments as int),
{
    let mut text: String = angle.to_owned();
    if increments > 0 {
        text.push('+');
    }
    if increments != 0 {
        push_int(&mut text, increments as i64);
    }
    assert(text@ == angle@ + increment_suffix(increments as int));
    text
}

/// The rating of a blind throw in quarters of the color gradient.
pub open spec fn blind_quarters(eval: Seq<char>) -> int {
    if eval == "EXCELLENT"@ || eval == "HIGHROLL_GOOD"@ {
        4
    } else if eval == "HIGHROLL_OKAY"@ {
        3
    } else if eval == "BAD_BUT_IN_RING"@ {
        2
    } else if eval == "BAD"@ {
        1
    } else {
        0
    }
}

/// The rating of a blind throw in words.
pub open spec fn blind_words(eval: Seq<char>) -> Seq<char> {
    if eval == "EXCELLENT"@ {
        "excellent"@
    } else if eval == "HIGHROLL_GOOD"@ {
        "good for highroll"@
    } else if eval == "HIGHROLL_OKAY"@ {
        "okay for highroll"@
    } else if eval == "BAD_BUT_IN_RING"@ {
        "bad, but in ring"@
    } else if eval == "BAD"@ {
        "bad"@
    } else if eval == "NOT_IN_RING"@ {
        "not in any ring"@
    } else {
        "unknown"@
    }
}

/// A blind evaluation: its place on the color gradient, in quarters, and its
/// words.
pub fn blind_evaluation(eval: &str) -> (r: (u8, &'static str))
    ensures
        r.0 as int == blind_quarters(eval@),
        r.1@ == blind_words(eval@),
{
    proof {
        reveal_strlit("EXCELLENT");
        reveal_strlit("HIGHROLL_GOOD");
        reveal_strlit("HIGHROLL_OKAY");
        reveal_strlit("BAD_BUT_IN_RING");
        reveal_strlit("BAD");
        reveal_strlit("NOT_IN_RING");
    }
    if same_text(eval, "EXCELLENT") {
        (4, "excellent")
    } else if same_text(eval, "HIGHROLL_GOOD") {
        (4, "good for highroll")
    } else if same_text(eval, "HIGHROLL_OKAY") {
        (3, "okay for highroll")
    } else if same_text(eval, "BAD_BUT_IN_RING") {
        (2, "bad, but in ring")
    } else if same_text(eval, "BAD") {
        (1, "bad")
    } else if same_text(eval, "NOT_IN_RING") {
        (0, "not in any ring")
    } else {
        (0, "unknown")
    }
}

// ---------------------------------------------------------------------------
// Laws
// ---------------------------------------------------------------------------

/// The texts of some runs, one behind the other.
pub open spec fn all_text(p: Seq<RunView>) -> Seq<char>
    decreases p.len(),
{
    if p.len() == 0 {
        Seq::empty()
    } else {
        all_text(p.drop_last()) + p.last().text
    }
}

/// No run is empty, and neighbouring runs have different colors.
pub open spec fn well_joined(p: Seq<RunView>) -> bool {
    &&& forall|i: int| 0 <= i < p.len() ==> (#[trigger] p[i]).text.len() > 0
    &&& forall|i: int| 0 < i < p.len() ==> p[i - 1].color != (#[trigger] p[i]).color
}

proof fn lemma_joined(p: Seq<RunView>)
    ensures
        well_joined(joined(p)),
        all_text(joined(p)) == all_text(p),
    decreases p.len(),
{
    if p.len() > 0 {
        lemma_joined(p.drop_last());
        let j = joined(p.drop_last());
        let r = p.last();
        if r.text.len() > 0 {
            if j.len() > 0 && j.last().color == r.color {
                let w = with_run(j, r);
                assert(w.drop_last() == j.drop_last());
                assert(j.last().text.len() > 0);
                assert(all_text(w) == all_text(j) + r.text);
            } else {
                assert(j.push(r).drop_last() == j);
            }
        } else {
            assert(all_text(p) == all_text(p.drop_last()));
        }
    }
}

/// No run of a markup text is empty, no two neighbouring runs share a color,
/// and together they hold the text of the markup's pieces.
pub proof fn law_runs_are_joined(m: Seq<char>)
    ensures
        well_joined(markup_runs(m)),
        all_text(markup_runs(m)) == all_text(pieces(m, 0)),
{
    lemma_joined(pieces(m, 0));
}

/// A text without spans is one run in the default color, or none where it is
/// empty.
pub proof fn law_plain_markup(m: Seq<char>)
    requires
        span_from(m, 0) is None,
    ensures
        markup_runs(m) == if m.len() == 0 {
            Seq::empty()
        } else {
            seq![plain(m)]
        },
{
    if m.len() > 0 {
        let p = plain(m.subrange(0, m.len() as int));
        assert(m.subrange(0, m.len() as int) == m);
        assert(pieces(m, 0) == seq![p]);
        assert(seq![p].drop_last() == Seq::<RunView>::empty());
        assert(joined(Seq::<RunView>::empty()) == Seq::<RunView>::empty());
        assert(joined(seq![p]) == with_run(Seq::empty(), p));
        assert(with_run(Seq::empty(), p) == seq![p]);
    }
}

/// A span that does not end is shown as it is written: what follows the first
/// opening tag without an end or without a closing tag is plain text.
pub proof fn law_unclosed_span_is_plain(m: Seq<char>, cursor: int)
    requires
        0 <= cursor < m.len(),
        span_from(m, cursor) is None,
    ensures
        pieces(m, cursor) == seq![plain(m.subrange(cursor, m.len() as int))],
{
}

/// The normal form of a color code is always a color code, is its own normal
/// form, and names the same color where the code named one.
pub proof fn law_normal_color(s: Seq<char>)
    ensures
        hex_color(normal_color(s)) is Some,
        normal_color(normal_color(s)) == normal_color(s),
        hex_color(s) is Some ==> hex_color(normal_color(s)) == hex_color(s),
{
    reveal_strlit("#00CE29");
    let c = if s.len() > 0 && s[0] == '#' {
        s
    } else {
        seq!['#'] + s
    };
    let n = normal_color(s);
    assert(n.len() == 7 && n[0] == '#');
    if c.len() == 7 && all_hex(c.subrange(1, 7)) {
        assert forall|i: int| 1 <= i < 7 implies hex_value(#[trigger] n[i]) == hex_value(c[i])
            && hex_value(n[i]) is Some by {
            assert(c.subrange(1, 7)[i - 1] == c[i]);
            assert(n[i] == upper_char(c[i]));
        }
        assert(upper(n) == n);
        assert(hex_value(n[1]) is Some && hex_value(n[2]) is Some && hex_value(n[3]) is Some
            && hex_value(n[4]) is Some && hex_value(n[5]) is Some && hex_value(n[6]) is Some);
    } else {
        assert(upper(n) == n);
    }
    assert forall|i: int| 0 <= i < 6 implies hex_value(#[trigger] n.subrange(1, 7)[i]) is Some by {
        assert(n.subrange(1, 7)[i] == n[i + 1]);
    }
    assert(all_hex(n.subrange(1, 7)));
}

/// The prefix that may be split off a coordinate pair is how its text begins.
pub proof fn law_coords_prefix(x: int, z: int)
    ensures
        matches_at(coords_text(x, z), "("@ + decimal(x) + ", "@, 0),
{
    let p = "("@ + decimal(x) + ", "@;
    assert(coords_text(x, z) == p + (decimal(z) + ")"@));
    assert(coords_text(x, z).subrange(0, p.len() as int) == p);
}

/// The letter of a hexadecimal digit.
pub open spec fn hex_letter(d: int) -> char {
    if d < 10 {
        (48 + d) as char
    } else {
        (55 + d) as char
    }
}

/// A color as it is written: six hexadecimal digits behind a `#`, red first.
pub open spec fn color_text(r: u8, g: u8, b: u8) -> Seq<char> {
    seq![
        '#',
        hex_letter(r as int / 16),
        hex_letter(r as int % 16),
        hex_letter(g as int / 16),
        hex_letter(g as int % 16),
        hex_letter(b as int / 16),
        hex_letter(b as int % 16),
    ]
}

proof fn lemma_hex_letter(d: int)
    requires
        0 <= d < 16,
    ensures
        hex_value(hex_letter(d)) == Some(d),
        upper_char(hex_letter(d)) == hex_letter(d),
{
}

/// A color that is written is read again, and normalizing leaves it alone, with
/// and without its `#`; what is no color becomes the default one.
pub proof fn law_color_round_trip(r: u8, g: u8, b: u8, s: Seq<char>)
    ensures
        hex_color(color_text(r, g, b)) == Some(seq![r, g, b]),
        normal_color(color_text(r, g, b)) == color_text(r, g, b),
        normal_color(color_text(r, g, b).skip(1)) == color_text(r, g, b),
        s.len() > 7 || s.len() < 6 ==> hex_color(normal_color(s)) == Some(
            seq![0u8, 0xceu8, 0x29u8],
        ),
{
    let t = color_text(r, g, b);
    lemma_hex_letter(r as int / 16);
    lemma_hex_letter(r as int % 16);
    lemma_hex_letter(g as int / 16);
    lemma_hex_letter(g as int % 16);
    lemma_hex_letter(b as int / 16);
    lemma_hex_letter(b as int % 16);
    let six = t.subrange(1, 7);
    assert forall|i: int| 0 <= i < six.len() implies hex_value(#[trigger] six[i]) is Some by {
        assert(six[i] == t[i + 1]);
        assert(i == 0 || i == 1 || i == 2 || i == 3 || i == 4 || i == 5);
    }
    assert(r as int / 16 * 16 + r as int % 16 == r);
    assert(g as int / 16 * 16 + g as int % 16 == g);
    assert(b as int / 16 * 16 + b as int % 16 == b);
    assert(hex_color(t)->0 =~= seq![r, g, b]);
    assert(upper(t) =~= t) by {
        assert forall|i: int| 0 <= i < 7 implies upper(t)[i] == #[trigger] t[i] by {
            assert(i == 0 || i == 1 || i == 2 || i == 3 || i == 4 || i == 5 || i == 6);
        }
    }
    assert(t.skip(1)[0] == t[1]);
    assert(hex_value('#') is None);
    assert(seq!['#'] + t.skip(1) =~= t);
    if s.len() > 7 || s.len() < 6 {
        reveal_strlit("#00CE29");
        let d = default_certainty_color();
        assert(d =~= color_text(0, 0xce, 0x29));
        if s.len() == 0 || s[0] != '#' {
            assert((seq!['#'] + s).len() == s.len() + 1);
        }
        lemma_default_color();
    }
}

proof fn lemma_default_color()
    ensures
        hex_color(default_certainty_color()) == Some(seq![0u8, 0xceu8, 0x29u8]),
{
    reveal_strlit("#00CE29");
    let d = default_certainty_color();
    let six = d.subrange(1, 7);
    assert forall|i: int| 0 <= i < six.len() implies hex_value(#[trigger] six[i]) is Some by {
        assert(six[i] == d[i + 1]);
        assert(i == 0 || i == 1 || i == 2 || i == 3 || i == 4 || i == 5);
    }
    assert(hex_color(d)->0 =~= seq![0u8, 0xceu8, 0x29u8]);
}

/// A text without digits and signs.
pub open spec fn without_numbers(s: Seq<char>) -> bool {
    forall|i: int|
        0 <= i < s.len() ==> !is_digit(#[trigger] s[i]) && s[i] != '+' && s[i] != '-'
}

proof fn lemma_integers_skip(t: Seq<char>, i: int, k: int, count: nat)
    requires
        0 <= i <= k <= t.len(),
        forall|j: int| i <= j < k ==> !is_digit(#[trigger] t[j]) && t[j] != '+' && t[j] != '-',
    ensures
        integers_from(t, i, count) == integers_from(t, k, count),
    decreases k - i,
{
    if i < k {
        lemma_integers_skip(t, i + 1, k, count);
    }
}

proof fn lemma_digits_end_at(t: Seq<char>, i: int, end: int)
    requires
        0 <= i <= end <= t.len(),
        forall|j: int| i <= j < end ==> is_digit(#[trigger] t[j]),
        end == t.len() || !is_digit(t[end]),
    ensures
        digits_end(t, i) == end,
    decreases end - i,
{
    if i < end {
        lemma_digits_end_at(t, i + 1, end);
    }
}

proof fn lemma_int_at(t: Seq<char>, i: int, x: int, end: int)
    requires
        0 <= i < end <= t.len(),
        t.subrange(i, end) == decimal(x),
        i64::MIN <= x <= i64::MAX,
        end == t.len() || !is_digit(t[end]),
    ensures
        int_at(t, i) == Some((x, end)),
{
    let d = decimal(x);
    if x < 0 {
        let m = decimal_nat((-x) as nat);
        lemma_decimal_nat((-x) as nat);
        assert(d =~= seq!['-'] + m);
        assert(d[0] == t[i]);
        assert forall|j: int| i + 1 <= j < end implies is_digit(#[trigger] t[j]) by {
            assert(t[j] == d[j - i]);
            assert(d[j - i] == m[j - i - 1]);
        }
        lemma_digits_end_at(t, i + 1, end);
        assert(t.subrange(i + 1, end) =~= m) by {
            assert forall|j: int| 0 <= j < m.len() implies t.subrange(i + 1, end)[j]
                == #[trigger] m[j] by {
                assert(t.subrange(i, end)[j + 1] == d[j + 1]);
            }
        }
    } else {
        lemma_decimal_nat(x as nat);
        assert forall|j: int| i <= j < end implies is_digit(#[trigger] t[j]) by {
            assert(t[j] == d[j - i]);
        }
        lemma_digits_end_at(t, i, end);
    }
}

/// Two numbers that stand in a text, with words around them, are the ones that
/// are read, in their order.
pub proof fn law_numbers_in_a_text(a: Seq<char>, x: int, b: Seq<char>, y: int, c: Seq<char>)
    requires
        without_numbers(a),
        without_numbers(b),
        b.len() > 0,
        c.len() == 0 || !is_digit(c[0]),
        i64::MIN <= x <= i64::MAX,
        i64::MIN <= y <= i64::MAX,
    ensures
        integers_from(a + decimal(x) + b + decimal(y) + c, 0, 2) == seq![x, y],
{
    let t = a + decimal(x) + b + decimal(y) + c;
    let i1 = a.len() as int;
    let e1 = i1 + decimal(x).len();
    let i2 = e1 + b.len();
    let e2 = i2 + decimal(y).len();
    lemma_decimal_nat((if x < 0 {
        -x
    } else {
        x
    }) as nat);
    lemma_decimal_nat((if y < 0 {
        -y
    } else {
        y
    }) as nat);
    assert forall|j: int| 0 <= j < i1 implies !is_digit(#[trigger] t[j]) && t[j] != '+' && t[j]
        != '-' by {
        assert(t[j] == a[j]);
    }
    assert forall|j: int| e1 <= j < i2 implies !is_digit(#[trigger] t[j]) && t[j] != '+' && t[j]
        != '-' by {
        assert(t[j] == b[j - e1]);
    }
    lemma_integers_skip(t, 0, i1, 2);
    assert(t.subrange(i1, e1) =~= decimal(x));
    lemma_int_at(t, i1, x, e1);
    lemma_integers_skip(t, e1, i2, 1);
    assert(t.subrange(i2, e2) =~= decimal(y));
    if e2 < t.len() {
        assert(t[e2] == c[0]);
    }
    lemma_int_at(t, i2, y, e2);
    assert(integers_from(t, e2, 0) =~= Seq::<int>::empty());
    assert(integers_from(t, i2, 1) =~= seq![y]);
    assert(integers_from(t, i1, 2) =~= seq![x, y]);
}

proof fn lemma_integers_fit(t: Seq<char>, i: int, count: nat, k: int)
    ensures
        0 <= k < integers_from(t, i, count).len() ==> i64::MIN <= integers_from(t, i, count)[k]
            <= i64::MAX,
    decreases t.len() - i,
{
    if count > 0 && 0 <= i < t.len() {
        lemma_digits_end(t, i);
        if i + 1 < t.len() {
            lemma_digits_end(t, i + 1);
        }
        match int_at(t, i) {
            Some((v, end)) => {
                lemma_integers_fit(t, end, (count - 1) as nat, k - 1);
            },
            None => {
                lemma_integers_fit(t, i + 1, count, k);
            },
        }
    }
}

/// The advice on the next throw keeps the two numbers of the message: the first
/// is how far to go left, the second how far to go right. So does the message on
/// two strongholds at once. A message of a kind that has no wording of its own,
/// or without the numbers, stays as it is.
pub proof fn law_translations_keep_numbers(message: Seq<char>, kind: Seq<char>)
    ensures
        ({
            let n = integers_from(message, 0, 2);
            let next = translation("NEXT_THROW_DIRECTION"@, message);
            let both = translation("COMBINED_CERTAINTY"@, message);
            &&& n.len() == 2 ==> integers_from(next, 0, 2) == n && matches_at(
                next,
                "Go left "@ + decimal(n[0]) + " blocks, or right "@ + decimal(n[1]),
                0,
            )
            &&& n.len() != 2 ==> next == message && both == message
            &&& n.len() == 2 && first_color_span(message) is Some ==> integers_from(both, 0, 2)
                == n
        }),
        kind != "MISMEASURE"@ && kind != "PORTAL_LINKING"@ && kind != "MC_VERSION"@ && kind
            != "NEXT_THROW_DIRECTION"@ && kind != "COMBINED_CERTAINTY"@ ==> translation(
            kind,
            message,
        ) == message,
{
    lemma_message_kinds();
    let n = integers_from(message, 0, 2);
    if n.len() == 2 {
        lemma_integers_fit(message, 0, 2, 0);
        lemma_integers_fit(message, 0, 2, 1);
        reveal_strlit("Go left ");
        reveal_strlit(" blocks, or right ");
        reveal_strlit(" blocks, for ~95% certainty after next measurement.");
        reveal_strlit("Nether coords (");
        reveal_strlit(", ");
        reveal_strlit(") have <span style=\"color:");
        let end = " blocks, for ~95% certainty after next measurement."@;
        law_numbers_in_a_text("Go left "@, n[0], " blocks, or right "@, n[1], end);
        let next = translation("NEXT_THROW_DIRECTION"@, message);
        let front = "Go left "@ + decimal(n[0]) + " blocks, or right "@ + decimal(n[1]);
        assert(next =~= front + end);
        assert(next.subrange(0, front.len() as int) =~= front);
        assert(n =~= seq![n[0], n[1]]);
        if first_color_span(message) is Some {
            let (color, inner) = first_color_span(message)->0;
            let rest = ") have <span style=\"color:"@ + color + ";\">"@ + inner
                + "</span> chance to hit the stronghold (it is between the top 2 offsets)."@;
            assert(rest[0] == ')');
            law_numbers_in_a_text("Nether coords ("@, n[0], ", "@, n[1], rest);
            assert(translation("COMBINED_CERTAINTY"@, message) =~= "Nether coords ("@ + decimal(
                n[0],
            ) + ", "@ + decimal(n[1]) + rest);
        }
    }
}

proof fn lemma_message_kinds()
    ensures
        "MISMEASURE"@.len() == 10,
        "PORTAL_LINKING"@.len() == 14,
        "MC_VERSION"@.len() == 10,
        "NEXT_THROW_DIRECTION"@.len() == 20,
        "COMBINED_CERTAINTY"@.len() == 18,
{
    reveal_strlit("MISMEASURE");
    reveal_strlit("PORTAL_LINKING");
    reveal_strlit("MC_VERSION");
    reveal_strlit("NEXT_THROW_DIRECTION");
    reveal_strlit("COMBINED_CERTAINTY");
}

proof fn lemma_first_at(t: Seq<char>, needle: Seq<char>, from: int, at: int)
    requires
        0 <= from <= at,
        matches_at(t, needle, at),
        forall|j: int| from <= j < at ==> !matches_at(t, needle, j),
    ensures
        find_from(t, needle, from) == Some(at),
{
    lemma_find_from(t, needle, from);
}

/// A span takes the color that its tag names, the text in front of it and behind
/// it has none, and the tag itself is not shown.
pub proof fn law_spans_are_colored(
    m: Seq<char>,
    before: Seq<char>,
    attributes: Seq<char>,
    r: u8,
    g: u8,
    b: u8,
    more: Seq<char>,
    inner: Seq<char>,
    rest: Seq<char>,
)
    requires
        m == before + "<span"@ + attributes + color_text(r, g, b) + more + seq!['>'] + inner
            + "</span>"@ + rest,
        !attributes.contains('>') && !attributes.contains('#') && !more.contains('>'),
        forall|j: int| 0 <= j < before.len() ==> !matches_at(m, "<span"@, j),
        forall|j: int|
            before.len() + 13 + attributes.len() + more.len() <= j < before.len() + 13
                + attributes.len() + more.len() + inner.len() ==> !matches_at(m, "</span>"@, j),
    ensures
        pieces(m, 0) == seq![
            plain(before),
            RunView { text: inner, color: Some(seq![r, g, b]) },
        ] + pieces(m, m.len() - rest.len()),
{
    reveal_strlit("<span");
    reveal_strlit("</span>");
    let c = color_text(r, g, b);
    let start = before.len() as int;
    let code = start + 5 + attributes.len();
    let tag_end = code + 7 + more.len();
    let close = tag_end + 1 + inner.len();
    assert(m.subrange(start, start + 5) =~= "<span"@);
    lemma_first_at(m, "<span"@, 0, start);
    assert(m[tag_end] == '>');
    assert(m.subrange(tag_end, tag_end + 1) =~= seq!['>']);
    assert forall|j: int| start <= j < tag_end implies !matches_at(m, seq!['>'], j) by {
        if matches_at(m, seq!['>'], j) {
            assert(m.subrange(j, j + 1)[0] == '>');
            if j < start + 5 {
                assert(m[j] == "<span"@[j - start]);
            } else if j < code {
                assert(m[j] == attributes[j - start - 5]);
            } else if j < code + 7 {
                assert(m[j] == c[j - code]);
                lemma_color_letters(r, g, b, j - code);
            } else {
                assert(m[j] == more[j - code - 7]);
            }
        }
    }
    lemma_first_at(m, seq!['>'], start, tag_end);
    assert(m.subrange(close, close + 7) =~= "</span>"@);
    lemma_first_at(m, "</span>"@, tag_end + 1, close);
    let s = Span { start, tag_end, close };
    assert(span_from(m, 0) == Some(s));
    let tag = span_tag(m, s);
    let h = code - start;
    assert(tag[h] == '#');
    assert(tag.subrange(h, h + 1) =~= seq!['#']);
    assert forall|j: int| 0 <= j < h implies !matches_at(tag, seq!['#'], j) by {
        if matches_at(tag, seq!['#'], j) {
            assert(tag.subrange(j, j + 1)[0] == '#');
            if j < 5 {
                assert(tag[j] == "<span"@[j]);
            } else {
                assert(tag[j] == attributes[j - 5]);
            }
        }
    }
    lemma_first_at(tag, seq!['#'], 0, h);
    assert(tag.subrange(h, h + 7) =~= c);
    law_color_round_trip(r, g, b, c);
    assert(span_inner(m, s) =~= inner);
    assert(m.subrange(0, start) =~= before);
    assert(m.len() - rest.len() == close + 7);
}

proof fn lemma_color_letters(r: u8, g: u8, b: u8, i: int)
    requires
        0 <= i < 7,
    ensures
        color_text(r, g, b)[i] != '>',
{
}

/// The ratings of blind travel are ordered from excellent down, each with words
/// of its own.
pub proof fn law_blind_ratings()
    ensures
        blind_quarters("EXCELLENT"@) == 4,
        blind_quarters("HIGHROLL_GOOD"@) == blind_quarters("EXCELLENT"@),
        blind_quarters("HIGHROLL_OKAY"@) < blind_quarters("HIGHROLL_GOOD"@),
        blind_quarters("BAD_BUT_IN_RING"@) < blind_quarters("HIGHROLL_OKAY"@),
        blind_quarters("BAD"@) < blind_quarters("BAD_BUT_IN_RING"@),
        blind_quarters("NOT_IN_RING"@) < blind_quarters("BAD"@),
        blind_quarters("NOT_IN_RING"@) == 0,
        blind_words("EXCELLENT"@) == "excellent"@,
        blind_words("HIGHROLL_GOOD"@) == "good for highroll"@,
        blind_words("HIGHROLL_OKAY"@) == "okay for highroll"@,
        blind_words("BAD_BUT_IN_RING"@) == "bad, but in ring"@,
        blind_words("BAD"@) == "bad"@,
        blind_words("NOT_IN_RING"@) == "not in any ring"@,
{
    reveal_strlit("EXCELLENT");
    reveal_strlit("HIGHROLL_GOOD");
    reveal_strlit("HIGHROLL_OKAY");
    reveal_strlit("BAD_BUT_IN_RING");
    reveal_strlit("BAD");
    reveal_strlit("NOT_IN_RING");
    assert("EXCELLENT"@.len() == 9 && "HIGHROLL_GOOD"@.len() == 13);
    assert("HIGHROLL_OKAY"@.len() == 13 && "BAD_BUT_IN_RING"@.len() == 15);
    assert("BAD"@.len() == 3 && "NOT_IN_RING"@.len() == 11);
    assert("HIGHROLL_GOOD"@[9] != "HIGHROLL_OKAY"@[9]);
}

/// Coordinates stand in their text in order, and are read from it again.
pub proof fn law_coords_round_trip(x: int, z: int)
    requires
        i64::MIN <= x <= i64::MAX,
        i64::MIN <= z <= i64::MAX,
    ensures
        integers_from(coords_text(x, z), 0, 2) == seq![x, z],
{
    reveal_strlit("(");
    reveal_strlit(", ");
    reveal_strlit(")");
    law_numbers_in_a_text("("@, x, ", "@, z, ")"@);
}

/// Increments are read from their text again, and always have a sign.
pub proof fn law_increments_have_a_sign(n: int)
    ensures
        n == 0 ==> increment_suffix(n).len() == 0,
        n > 0 ==> increment_suffix(n) == seq!['+'] + decimal(n),
        n < 0 ==> increment_suffix(n) == seq!['-'] + decimal(-n),
{
}

/// The messages that are always the same say so whatever the bot wrote; the chance
/// of two offsets is told with the color and the text that the bot gave it.
pub proof fn law_fixed_messages(message: Seq<char>)
    ensures
        translation("MISMEASURE"@, message)
            == "Detected unusually large errors, you probably mismeasured or your standard deviation is too low."@,
        translation("PORTAL_LINKING"@, message)
            == "You might not be able to nether travel into the stronghold due to portal linking."@,
        translation("MC_VERSION"@, message)
            == "Detected wrong Minecraft version, make sure the correct version is chosen in the settings."@,
        ({
            let n = integers_from(message, 0, 2);
            let both = translation("COMBINED_CERTAINTY"@, message);
            n.len() == 2 ==> {
                &&& first_color_span(message) is None ==> both == message
                &&& first_color_span(message) matches Some((color, inner)) ==> exists|
                    a: Seq<char>,
                    b: Seq<char>,
                |
                    both == #[trigger] (a + "<span style=\"color:"@ + color + ";\">"@ + inner
                        + "</span>"@ + b)
            }
        }),
{
    lemma_message_kinds();
    reveal_strlit("MISMEASURE");
    reveal_strlit("PORTAL_LINKING");
    reveal_strlit("MC_VERSION");
    assert("MC_VERSION"@.len() == 10 && "MISMEASURE"@.len() == 10 && "PORTAL_LINKING"@.len() == 14);
    assert("MC_VERSION"@[1] == 'C' && "MISMEASURE"@[1] == 'I');
    let n = integers_from(message, 0, 2);
    if n.len() == 2 && first_color_span(message) is Some {
        let (color, inner) = first_color_span(message)->0;
        reveal_strlit(") have <span style=\"color:");
        reveal_strlit(") have ");
        reveal_strlit("<span style=\"color:");
        reveal_strlit("</span>");
        reveal_strlit("</span> chance to hit the stronghold (it is between the top 2 offsets).");
        reveal_strlit(" chance to hit the stronghold (it is between the top 2 offsets).");
        assert(") have <span style=\"color:"@ =~= ") have "@ + "<span style=\"color:"@);
        assert("</span> chance to hit the stronghold (it is between the top 2 offsets)."@
            =~= "</span>"@ + " chance to hit the stronghold (it is between the top 2 offsets)."@);
        let a = "Nether coords ("@ + decimal(n[0]) + ", "@ + decimal(n[1]) + ") have "@;
        let b = " chance to hit the stronghold (it is between the top 2 offsets)."@;
        let both = translation("COMBINED_CERTAINTY"@, message);
        assert(both =~= a + "<span style=\"color:"@ + color + ";\">"@ + inner + "</span>"@ + b);
    }
}

} // verus!
