//! Cursor pictures: the `.cur`/`.ico` container with its bitmaps, scaling, the
//! drawn crosshair, and where a named cursor is looked for.

use crate::raster::push_pixel;
use crate::single::scale;
use crate::text::{join_path, push_text, same_text, to_lower};
use vstd::prelude::*;
use vstd::string::*;

verus! {

use crate::raster::{four_bytes, image_bytes, lemma_image_bytes, row_bytes};
use crate::single::scaled;
use crate::text::{lower, path_in, texts};

/// A cursor picture: four bytes per pixel, red first.
pub struct CursorImage {
    pub rgba: Vec<u8>,
    pub w: u32,
    pub h: u32,
    /// The hotspot in pixels of the file; only a `.cur` file has one.
    pub file_hotspot: Option<(u32, u32)>,
}

// ---------------------------------------------------------------------------
// Numbers in a file, low byte first
// ---------------------------------------------------------------------------

pub open spec fn le16(b: Seq<u8>, i: int) -> int {
    b[i] + 256 * b[i + 1]
}

pub open spec fn le32(b: Seq<u8>, i: int) -> int {
    b[i] + 256 * b[i + 1] + 65536 * b[i + 2] + 16777216 * b[i + 3]
}

fn read16(b: &[u8], i: usize) -> (r: u16)
    requires
        i + 2 <= b@.len(),
    ensures
        r as int == le16(b@, i as int),
{
    let n: usize = b.len();
    b[i] as u16 + 256 * b[i + 1] as u16
}

fn read32(b: &[u8], i: usize) -> (r: u32)
    requires
        i + 4 <= b@.len(),
    ensures
        r as int == le32(b@, i as int),
{
    let n: usize = b.len();
    b[i] as u32 + 256 * b[i + 1] as u32 + 65536 * b[i + 2] as u32 + 16777216 * b[i + 3] as u32
}

/// Bit `k` of a byte, counted from the highest.
pub open spec fn high_bit(b: u8, k: int) -> bool {
    (b >> ((7 - k) as u8)) & 1u8 == 1u8
}

fn bit_set(b: u8, k: usize) -> (r: bool)
    requires
        k < 8,
    ensures
        r == high_bit(b, k as int),
{
    let n: u8 = 7 - k as u8;
    (b >> n) & 1u8 == 1u8
}

// ---------------------------------------------------------------------------
// The bitmap of an icon
// ---------------------------------------------------------------------------

/// Where the parts of an icon's bitmap stand: the palette, the color rows and
/// the rows of the one-bit mask.
#[derive(Clone, Copy)]
pub struct DibLayout {
    pub w: usize,
    pub h: usize,
    pub bpp: usize,
    pub palette_off: usize,
    pub xor_off: usize,
    pub xor_stride: usize,
    pub and_off: usize,
    pub and_stride: usize,
}

/// The number of palette entries in front of the color rows.
pub open spec fn palette_entries(bpp: int, colors: int) -> int {
    if bpp == 1 || bpp == 4 || bpp == 8 {
        if colors != 0 {
            colors
        } else if bpp == 1 {
            2
        } else if bpp == 4 {
            16
        } else {
            256
        }
    } else {
        0
    }
}

/// The bytes of a row of `bits` bits, padded to four bytes.
pub open spec fn row_stride(bits: int) -> int {
    (bits + 31) / 32 * 4
}

/// The header is one that the decoder takes: plain bits, a positive size whose
/// doubled height holds at least one row, at most 1024 in each direction, and
/// a known color depth.
pub open spec fn dib_header_ok(d: Seq<u8>) -> bool {
    &&& d.len() >= 40
    &&& le32(d, 16) == 0
    &&& le32(d, 0) >= 40
    &&& 1 <= le32(d, 4) <= 1024
    &&& 1 <= le32(d, 8) / 2 <= 1024
    &&& {
        let bpp = le16(d, 14);
        bpp == 1 || bpp == 4 || bpp == 8 || bpp == 24 || bpp == 32
    }
}

pub open spec fn dib_xor_off(d: Seq<u8>) -> int {
    le32(d, 0) + palette_entries(le16(d, 14), le32(d, 32)) * 4
}

pub open spec fn dib_and_off(d: Seq<u8>) -> int {
    dib_xor_off(d) + row_stride(le32(d, 4) * le16(d, 14)) * (le32(d, 8) / 2)
}

/// A bitmap that can be decoded: its header is fine and all rows are there.
pub open spec fn dib_ok(d: Seq<u8>) -> bool {
    dib_header_ok(d) && dib_and_off(d) + row_stride(le32(d, 4)) * (le32(d, 8) / 2) <= d.len()
}

/// `l` describes the bitmap `d`.
pub open spec fn layout_of(l: DibLayout, d: Seq<u8>) -> bool {
    &&& l.w == le32(d, 4)
    &&& l.h == le32(d, 8) / 2
    &&& l.bpp == le16(d, 14)
    &&& l.palette_off == le32(d, 0)
    &&& l.xor_off == dib_xor_off(d)
    &&& l.xor_stride == row_stride(le32(d, 4) * le16(d, 14))
    &&& l.and_off == dib_and_off(d)
    &&& l.and_stride == row_stride(le32(d, 4))
}

/// The start of a row; the rows of a bitmap stand from bottom to top.
pub open spec fn row_start(off: int, stride: int, h: int, y: int) -> int {
    off + (h - 1 - y) * stride
}

/// The mask's bit of a pixel.
pub open spec fn mask_bit(d: Seq<u8>, l: DibLayout, x: int, y: int) -> bool {
    high_bit(d[row_start(l.and_off as int, l.and_stride as int, l.h as int, y) + x / 8], x % 8)
}

/// Palette entry `i`, red first; black where the file ends before it.
pub open spec fn palette_color(d: Seq<u8>, l: DibLayout, i: int) -> Seq<u8> {
    let p = l.palette_off + i * 4;
    if p + 3 <= d.len() {
        seq![d[p + 2], d[p + 1], d[p]]
    } else {
        seq![0u8, 0, 0]
    }
}

/// Where the alpha byte of a pixel of 32 bits stands.
pub open spec fn alpha_at(l: DibLayout, x: int, y: int) -> int {
    row_start(l.xor_off as int, l.xor_stride as int, l.h as int, y) + x * 4 + 3
}

/// Some pixel of a bitmap of 32 bits has an alpha that is not zero.
pub open spec fn has_alpha(d: Seq<u8>, l: DibLayout) -> bool {
    exists|x: int, y: int|
        0 <= x < l.w && 0 <= y < l.h && d[#[trigger] alpha_at(l, x, y)] != 0
}

/// The pixel at column `x` of row `y`, counted from the top.
///
/// The mask makes a pixel transparent. With 32 bits the alpha bytes count
/// instead, unless all of them are zero. With one bit, a masked pixel whose
/// color bit is set would invert the screen and is shown white.
pub open spec fn dib_pixel(d: Seq<u8>, l: DibLayout, x: int, y: int) -> Seq<u8> {
    let row = row_start(l.xor_off as int, l.xor_stride as int, l.h as int, y);
    let masked = mask_bit(d, l, x, y);
    let cover: u8 = if masked {
        0
    } else {
        255
    };
    if l.bpp == 32 {
        let p = row + x * 4;
        let alpha = if has_alpha(d, l) {
            d[p + 3]
        } else {
            cover
        };
        seq![d[p + 2], d[p + 1], d[p], alpha]
    } else if l.bpp == 24 {
        let p = row + x * 3;
        seq![d[p + 2], d[p + 1], d[p], cover]
    } else if l.bpp == 1 {
        let set = high_bit(d[row + x / 8], x % 8);
        if masked {
            if set {
                seq![255u8, 255, 255, 255]
            } else {
                seq![0u8, 0, 0, 0]
            }
        } else {
            palette_color(
                d,
                l,
                if set {
                    1
                } else {
                    0
                },
            ).push(255)
        }
    } else {
        let i: int = if l.bpp == 8 {
            d[row + x] as int
        } else if x % 2 == 0 {
            d[row + x / 2] as int / 16
        } else {
            d[row + x / 2] as int % 16
        };
        palette_color(d, l, i).push(cover)
    }
}

pub open spec fn dib_pixels(d: Seq<u8>, l: DibLayout) -> spec_fn(int, int) -> Seq<u8> {
    |x: int, y: int| dib_pixel(d, l, x, y)
}

/// A row of the color bitmap or of the mask lies inside the file.
proof fn lemma_row(off: int, stride: int, h: int, y: int)
    requires
        0 <= y < h,
        0 <= stride,
    ensures
        off <= row_start(off, stride, h, y),
        row_start(off, stride, h, y) + stride <= off + stride * h,
{
    assert(0 <= (h - 1 - y) * stride && (h - 1 - y) * stride + stride <= stride * h)
        by (nonlinear_arith)
        requires
            0 <= y < h,
            0 <= stride,
    ;
}

/// The layout of a bitmap that can be decoded.
fn read_layout(d: &[u8]) -> (r: Option<DibLayout>)
    ensures
        r is Some <==> dib_ok(d@),
        r matches Some(l) ==> layout_of(l, d@),
{
    if d.len() < 40 {
        return None;
    }
    let header: u32 = read32(d, 0);
    let width: u32 = read32(d, 4);
    let height2: u32 = read32(d, 8);
    let bpp: u16 = read16(d, 14);
    let compression: u32 = read32(d, 16);
    let colors: u32 = read32(d, 32);
    if compression != 0 || header < 40 {
        return None;
    }
    let h: u32 = height2 / 2;
    if width == 0 || width > 1024 || h == 0 || h > 1024 {
        return None;
    }
    if bpp != 1 && bpp != 4 && bpp != 8 && bpp != 24 && bpp != 32 {
        return None;
    }
    let entries: u64 = if bpp == 1 || bpp == 4 || bpp == 8 {
        if colors != 0 {
            colors as u64
        } else if bpp == 1 {
            2
        } else if bpp == 4 {
            16
        } else {
            256
        }
    } else {
        0
    };
    let xor_off: u64 = header as u64 + entries * 4;
    assert(width * bpp <= 1024 * 32) by (nonlinear_arith)
        requires
            0 <= width <= 1024,
            0 <= bpp <= 32,
    ;
    let xor_stride: u64 = (width as u64 * bpp as u64 + 31) / 32 * 4;
    let and_stride: u64 = (width as u64 + 31) / 32 * 4;
    assert(0 <= xor_stride * h <= 8192 * 1024 && 0 <= and_stride * h <= 8192 * 1024)
        by (nonlinear_arith)
        requires
            0 <= xor_stride <= 8192,
            0 <= and_stride <= 8192,
            0 <= h <= 1024,
    ;
    let and_off: u64 = xor_off + xor_stride * h as u64;
    let end: u64 = and_off + and_stride * h as u64;
    if (d.len() as u64) < end {
        return None;
    }
    Some(
        DibLayout {
            w: width as usize,
            h: h as usize,
            bpp: bpp as usize,
            palette_off: header as usize,
            xor_off: xor_off as usize,
            xor_stride: xor_stride as usize,
            and_off: and_off as usize,
            and_stride: and_stride as usize,
        },
    )
}

/// The start of row `y`.
fn row_at(off: usize, stride: usize, h: usize, y: usize, len: usize) -> (r: usize)
    requires
        y < h,
        off + stride * h <= len,
    ensures
        r as int == row_start(off as int, stride as int, h as int, y as int),
        off <= r,
        r + stride <= off + stride * h,
{
    proof {
        lemma_row(off as int, stride as int, h as int, y as int);
    }
    assert(0 <= (h - 1 - y) * stride);
    off + (h - 1 - y) * stride
}

fn mask_at(d: &[u8], l: &DibLayout, x: usize, y: usize) -> (r: bool)
    requires
        dib_ok(d@),
        layout_of(*l, d@),
        x < l.w,
        y < l.h,
    ensures
        r == mask_bit(d@, *l, x as int, y as int),
{
    let row: usize = row_at(l.and_off, l.and_stride, l.h, y, d.len());
    bit_set(d[row + x / 8], x % 8)
}

/// The red, green and blue of palette entry `i`.
fn palette_at(d: &[u8], l: &DibLayout, i: usize) -> (r: (u8, u8, u8))
    requires
        dib_ok(d@),
        layout_of(*l, d@),
        i < 256,
    ensures
        seq![r.0, r.1, r.2] == palette_color(d@, *l, i as int),
{
    assert(0 <= l.xor_stride * l.h) by (nonlinear_arith)
        requires
            0 <= l.xor_stride,
            0 <= l.h,
    ;
    assert(0 <= l.and_stride * l.h) by (nonlinear_arith)
        requires
            0 <= l.and_stride,
            0 <= l.h,
    ;
    let n: usize = d.len();
    assert(l.palette_off <= n);
    let left: usize = n - l.palette_off;
    if left >= 3 && i * 4 <= left - 3 {
        let p: usize = l.palette_off + i * 4;
        (d[p + 2], d[p + 1], d[p])
    } else {
        (0, 0, 0)
    }
}

/// Whether some pixel of a bitmap of 32 bits has an alpha that is not zero.
fn any_alpha(d: &[u8], l: &DibLayout) -> (r: bool)
    requires
        dib_ok(d@),
        layout_of(*l, d@),
        l.bpp == 32,
    ensures
        r == has_alpha(d@, *l),
{
    let mut y: usize = 0;
    while y < l.h
        invariant
            y <= l.h,
            dib_ok(d@),
            layout_of(*l, d@),
            l.bpp == 32,
            forall|px: int, py: int|
                0 <= px < l.w && 0 <= py < y ==> d@[#[trigger] alpha_at(*l, px, py)] == 0,
        decreases l.h - y,
    {
        assert(0 <= l.and_stride * l.h) by (nonlinear_arith)
            requires
                0 <= l.and_stride,
                0 <= l.h,
        ;
        let row: usize = row_at(l.xor_off, l.xor_stride, l.h, y, d.len());
        let mut x: usize = 0;
        while x < l.w
            invariant
                x <= l.w,
                y < l.h,
                l.w <= 1024,
                l.xor_stride == l.w * 4,
                row as int == row_start(
                    l.xor_off as int,
                    l.xor_stride as int,
                    l.h as int,
                    y as int,
                ),
                row + l.xor_stride <= d.len(),
                forall|px: int, py: int|
                    0 <= px < l.w && 0 <= py < y ==> d@[#[trigger] alpha_at(*l, px, py)] == 0,
                forall|px: int|
                    0 <= px < x ==> d@[#[trigger] alpha_at(*l, px, y as int)] == 0,
            decreases l.w - x,
        {
            if d[row + x * 4 + 3] != 0 {
                assert(d@[alpha_at(*l, x as int, y as int)] != 0);
                return true;
            }
            x += 1;
        }
        y += 1;
    }
    false
}

/// One pixel of a bitmap, `use_alpha` saying whether its alpha bytes count.
fn pixel_at(d: &[u8], l: &DibLayout, use_alpha: bool, x: usize, y: usize) -> (r: (u8, u8, u8, u8))
    requires
        dib_ok(d@),
        layout_of(*l, d@),
        x < l.w,
        y < l.h,
        l.bpp == 32 ==> use_alpha == has_alpha(d@, *l),
    ensures
        seq![r.0, r.1, r.2, r.3] == dib_pixel(d@, *l, x as int, y as int),
{
    assert(0 <= l.and_stride * l.h) by (nonlinear_arith)
        requires
            0 <= l.and_stride,
            0 <= l.h,
    ;
    let row: usize = row_at(l.xor_off, l.xor_stride, l.h, y, d.len());
    assert(row + l.xor_stride <= d.len());
    let masked = mask_at(d, l, x, y);
    let cover: u8 = if masked {
        0
    } else {
        255
    };
    if l.bpp == 32 {
        assert(l.xor_stride == l.w * 4);
        let p: usize = row + x * 4;
        let alpha: u8 = if use_alpha {
            d[p + 3]
        } else {
            cover
        };
        (d[p + 2], d[p + 1], d[p], alpha)
    } else if l.bpp == 24 {
        assert(l.xor_stride >= l.w * 3);
        let p: usize = row + x * 3;
        (d[p + 2], d[p + 1], d[p], cover)
    } else if l.bpp == 1 {
        assert(x / 8 < l.xor_stride);
        let set = bit_set(d[row + x / 8], x % 8);
        if masked {
            if set {
                (255, 255, 255, 255)
            } else {
                (0, 0, 0, 0)
            }
        } else {
            let (r, g, b) = palette_at(
                d,
                l,
                if set {
                    1
                } else {
                    0
                },
            );
            assert(seq![r, g, b].push(255u8) == seq![r, g, b, 255u8]);
            (r, g, b, 255)
        }
    } else {
        let i: usize = if l.bpp == 8 {
            assert(l.xor_stride >= l.w);
            d[row + x] as usize
        } else if x % 2 == 0 {
            assert(x / 2 < l.xor_stride);
            (d[row + x / 2] / 16) as usize
        } else {
            assert(x / 2 < l.xor_stride);
            (d[row + x / 2] % 16) as usize
        };
        let (r, g, b) = palette_at(d, l, i);
        assert(seq![r, g, b].push(cover) == seq![r, g, b, cover]);
        (r, g, b, cover)
    }
}

/// What an icon's bitmap shows, with its width and height.
pub open spec fn dib_image(d: Seq<u8>, l: DibLayout) -> Seq<u8> {
    image_bytes(dib_pixels(d, l), l.w as nat, l.h as nat)
}

/// Decodes the bitmap of an icon: a header with doubled height, an optional
/// palette, the color rows and the rows of a one-bit transparency mask.
pub fn decode_ico_dib(d: &[u8]) -> (r: Option<(Vec<u8>, u32, u32)>)
    ensures
        r is Some <==> dib_ok(d@),
        r matches Some((rgba, w, h)) ==> {
            &&& w == le32(d@, 4)
            &&& h == le32(d@, 8) / 2
            &&& rgba@.len() == w * h * 4
            &&& forall|l: DibLayout| layout_of(l, d@) ==> rgba@ == #[trigger] dib_image(d@, l)
        },
{
    let l = match read_layout(d) {
        Some(l) => l,
        None => {
            return None;
        },
    };
    let use_alpha = l.bpp == 32 && any_alpha(d, &l);
    let ghost px = dib_pixels(d@, l);
    let mut rgba: Vec<u8> = Vec::new();
    let mut y: usize = 0;
    while y < l.h
        invariant
            y <= l.h,
            dib_ok(d@),
            layout_of(l, d@),
            l.bpp == 32 ==> use_alpha == has_alpha(d@, l),
            px == dib_pixels(d@, l),
            rgba@ == image_bytes(px, l.w as nat, y as nat),
        decreases l.h - y,
    {
        let mut x: usize = 0;
        while x < l.w
            invariant
                x <= l.w,
                y < l.h,
                dib_ok(d@),
                layout_of(l, d@),
                l.bpp == 32 ==> use_alpha == has_alpha(d@, l),
                px == dib_pixels(d@, l),
                rgba@ == image_bytes(px, l.w as nat, y as nat) + row_bytes(px, y as int, x as nat),
            decreases l.w - x,
        {
            let p = pixel_at(d, &l, use_alpha, x, y);
            push_pixel(&mut rgba, p.0, p.1, p.2, p.3);
            x += 1;
            assert(rgba@ == image_bytes(px, l.w as nat, y as nat) + row_bytes(
                px,
                y as int,
                x as nat,
            ));
        }
        y += 1;
    }
    proof {
        assert(four_bytes(px));
        lemma_image_bytes(px, l.w as nat, l.h as nat);
        assert forall|m: DibLayout| layout_of(m, d@) implies rgba@ == #[trigger] dib_image(
            d@,
            m,
        ) by {
            assert(m == l);
        }
    }
    Some((rgba, l.w as u32, l.h as u32))
}

// ---------------------------------------------------------------------------
// The container
// ---------------------------------------------------------------------------

/// The place of directory entry `i`.
pub open spec fn entry_off(i: int) -> int {
    6 + i * 16
}

/// A side of an entry's picture; zero stands for 256.
pub open spec fn entry_side(b: u8) -> int {
    if b == 0 {
        256
    } else {
        b as int
    }
}

pub open spec fn entry_area(b: Seq<u8>, i: int) -> int {
    entry_side(b[entry_off(i)]) * entry_side(b[entry_off(i) + 1])
}

/// The number of directory entries that are announced and wholly there.
pub open spec fn entry_count(b: Seq<u8>) -> int {
    let room = (b.len() - 6) / 16;
    if le16(b, 4) <= room {
        le16(b, 4)
    } else {
        room
    }
}

/// The entry with the largest picture among the first `n`, the first of those
/// that are equally large.
pub open spec fn largest_entry(b: Seq<u8>, n: nat) -> Option<int>
    decreases n,
{
    if n == 0 {
        None
    } else {
        match largest_entry(b, (n - 1) as nat) {
            Some(i) => if entry_area(b, n - 1) > entry_area(b, i) {
                Some(n - 1)
            } else {
                Some(i)
            },
            None => Some(n - 1),
        }
    }
}

/// The file is an icon or a cursor with at least one entry.
pub open spec fn container_ok(b: Seq<u8>) -> bool {
    &&& b.len() >= 6
    &&& le16(b, 0) == 0
    &&& le16(b, 2) == 1 || le16(b, 2) == 2
    &&& entry_count(b) > 0
}

/// The entry that is shown.
pub open spec fn chosen_entry(b: Seq<u8>) -> int {
    entry_off(largest_entry(b, entry_count(b) as nat)->0)
}

/// The data of the entry that is shown, if it lies inside the file.
pub open spec fn chosen_payload(b: Seq<u8>) -> Option<Seq<u8>> {
    let off = chosen_entry(b);
    let start = le32(b, off + 12);
    let size = le32(b, off + 8);
    if container_ok(b) && start + size <= b.len() {
        Some(b.subrange(start, start + size))
    } else {
        None
    }
}

/// The hotspot of the entry that is shown; an icon has none.
pub open spec fn chosen_hotspot(b: Seq<u8>) -> Option<(int, int)> {
    let off = chosen_entry(b);
    if le16(b, 2) == 2 {
        Some((le16(b, off + 4), le16(b, off + 6)))
    } else {
        None
    }
}

/// The payload is a PNG file.
pub open spec fn is_png(p: Seq<u8>) -> bool {
    p.len() >= 4 && p[0] == 0x89 && p[1] == 0x50 && p[2] == 0x4e && p[3] == 0x47
}

proof fn lemma_largest_entry(b: Seq<u8>, n: nat)
    ensures
        n > 0 <==> largest_entry(b, n) is Some,
        largest_entry(b, n) matches Some(i) ==> {
            &&& 0 <= i < n
            &&& forall|j: int| 0 <= j < n ==> entry_area(b, j) <= entry_area(b, i)
            &&& forall|j: int| 0 <= j < i ==> entry_area(b, j) < entry_area(b, i)
        },
    decreases n,
{
    if n > 0 {
        lemma_largest_entry(b, (n - 1) as nat);
    }
}

/// The entry that is shown is among those of the directory, none is larger,
/// and every earlier one is smaller.
pub proof fn law_largest_entry_shown(b: Seq<u8>)
    requires
        container_ok(b),
    ensures
        largest_entry(b, entry_count(b) as nat) matches Some(i) && {
            &&& 0 <= i < entry_count(b)
            &&& forall|j: int| 0 <= j < entry_count(b) ==> entry_area(b, j) <= entry_area(b, i)
            &&& forall|j: int| 0 <= j < i ==> entry_area(b, j) < entry_area(b, i)
        },
{
    lemma_largest_entry(b, entry_count(b) as nat);
}

/// The directory entry to show.
fn best_entry(b: &[u8], count: usize) -> (r: Option<usize>)
    requires
        b@.len() >= 6,
        count == le16(b@, 4),
    ensures
        r is Some <==> entry_count(b@) > 0,
        r matches Some(off) ==> off == entry_off(largest_entry(b@, entry_count(b@) as nat)->0)
            && off + 16 <= b@.len(),
{
    let room: usize = (b.len() - 6) / 16;
    let n: usize = if count <= room {
        count
    } else {
        room
    };
    let mut best: Option<usize> = None;
    let mut area: u32 = 0;
    let mut i: usize = 0;
    while i < n
        invariant
            i <= n,
            n <= 65535,
            n * 16 + 6 <= b.len(),
            n == entry_count(b@),
            best is Some <==> largest_entry(b@, i as nat) is Some,
            best matches Some(k) ==> k < n && k as int == largest_entry(b@, i as nat)->0 && area
                == entry_area(b@, k as int),
        decreases n - i,
    {
        let off: usize = 6 + i * 16;
        let w: u32 = if b[off] == 0 {
            256
        } else {
            b[off] as u32
        };
        let h: u32 = if b[off + 1] == 0 {
            256
        } else {
            b[off + 1] as u32
        };
        assert(0 <= w * h <= 65536) by (nonlinear_arith)
            requires
                0 <= w <= 256,
                0 <= h <= 256,
        ;
        let this: u32 = w * h;
        if best.is_none() || this > area {
            best = Some(i);
            area = this;
        }
        i += 1;
    }
    match best {
        Some(k) => Some(6 + k * 16),
        None => {
            proof {
                lemma_largest_entry(b@, n as nat);
            }
            None
        },
    }
}

/// What the PNG decoder makes of some bytes: the pixels, red first, with width
/// and height; nothing where they are no picture.
pub uninterp spec fn png_picture(bytes: Seq<u8>) -> Option<(Seq<u8>, u32, u32)>;

/// `image::load_from_memory_with_format` for PNG, the picture then as
/// `to_rgba8` gives it. The result depends on the bytes alone, and a picture
/// has four bytes for each of its pixels.
#[verifier::external_body]
pub(crate) fn decode_png(bytes: &[u8]) -> (r: Option<(Vec<u8>, u32, u32)>)
    ensures
        r is Some <==> png_picture(bytes@) is Some,
        r matches Some((rgba, w, h)) ==> png_picture(bytes@) == Some((rgba@, w, h)) && rgba@.len()
            == w * h * 4,
{
    let img = image::load_from_memory_with_format(bytes, image::ImageFormat::Png).ok()?.to_rgba8();
    let (w, h) = img.dimensions();
    Some((img.into_raw(), w, h))
}

/// What a file shows whose chosen payload is a PNG that decodes to `png`.
pub open spec fn shown(
    b: Seq<u8>,
    png: Option<(Seq<u8>, u32, u32)>,
    rgba: Seq<u8>,
    w: u32,
    h: u32,
) -> bool {
    &&& chosen_payload(b) matches Some(p) && (if is_png(p) {
        png == Some((rgba, w, h))
    } else {
        &&& dib_ok(p)
        &&& w == le32(p, 4)
        &&& h == le32(p, 8) / 2
        &&& forall|l: DibLayout| layout_of(l, p) ==> rgba == #[trigger] dib_image(p, l)
    })
}

/// The data of the entry that is shown, its hotspot, and whether it is a PNG.
pub fn chosen_part(b: &[u8]) -> (r: Option<(Vec<u8>, Option<(u32, u32)>, bool)>)
    ensures
        r is Some <==> chosen_payload(b@) is Some,
        r matches Some((data, hot, png)) ==> {
            &&& data@ == chosen_payload(b@)->0
            &&& hotspot_is(hot, chosen_hotspot(b@))
            &&& png == is_png(data@)
        },
{
    if b.len() < 6 {
        return None;
    }
    let reserved: u16 = read16(b, 0);
    let kind: u16 = read16(b, 2);
    let count: u16 = read16(b, 4);
    if reserved != 0 || (kind != 1 && kind != 2) {
        return None;
    }
    let off: usize = match best_entry(b, count as usize) {
        Some(off) => off,
        None => {
            return None;
        },
    };
    let hx: u16 = read16(b, off + 4);
    let hy: u16 = read16(b, off + 6);
    let size: u64 = read32(b, off + 8) as u64;
    let start: u64 = read32(b, off + 12) as u64;
    if start + size > b.len() as u64 {
        return None;
    }
    let data = copy_range(b, start as usize, (start + size) as usize);
    let png = data.len() >= 4 && data[0] == 0x89 && data[1] == 0x50 && data[2] == 0x4e && data[3]
        == 0x47;
    let hot: Option<(u32, u32)> = if kind == 2 {
        Some((hx as u32, hy as u32))
    } else {
        None
    };
    Some((data, hot, png))
}

/// A hotspot and its mathematical value.
pub open spec fn hotspot_is(a: Option<(u32, u32)>, b: Option<(int, int)>) -> bool {
    match (a, b) {
        (None, None) => true,
        (Some(x), Some(y)) => x.0 == y.0 && x.1 == y.1,
        _ => false,
    }
}

fn copy_range(b: &[u8], from: usize, to: usize) -> (r: Vec<u8>)
    requires
        from <= to <= b@.len(),
    ensures
        r@ == b@.subrange(from as int, to as int),
{
    let mut r: Vec<u8> = Vec::new();
    let mut i: usize = from;
    while i < to
        invariant
            from <= i <= to <= b@.len(),
            r@ == b@.subrange(from as int, i as int),
        decreases to - i,
    {
        r.push(b[i]);
        i += 1;
        assert(b@.subrange(from as int, i as int) == b@.subrange(from as int, i - 1).push(
            b@[i - 1],
        ));
    }
    r
}

/// The picture of a file whose shown entry decodes to `picture`.
pub fn with_hotspot(
    picture: Option<(Vec<u8>, u32, u32)>,
    file_hotspot: Option<(u32, u32)>,
) -> (r: Option<CursorImage>)
    ensures
        match picture {
            Some((rgba, w, h)) => r matches Some(img) && img.rgba == rgba && img.w == w && img.h
                == h && img.file_hotspot == file_hotspot,
            None => r is None,
        },
{
    match picture {
        Some((rgba, w, h)) => Some(CursorImage { rgba, w, h, file_hotspot }),
        None => None,
    }
}

/// Reads a `.cur` or `.ico` file: the largest picture in it, with its hotspot
/// where the file is a cursor.
pub fn parse_ico_cur(bytes: &[u8]) -> (r: Option<CursorImage>)
    ensures
        r is Some <==> (chosen_payload(bytes@) matches Some(p) && (if is_png(p) {
            png_picture(p) is Some
        } else {
            dib_ok(p)
        })),
        r matches Some(img) ==> {
            &&& shown(bytes@, png_picture(chosen_payload(bytes@)->0), img.rgba@, img.w, img.h)
            &&& img.rgba@.len() == img.w * img.h * 4
            &&& hotspot_is(img.file_hotspot, chosen_hotspot(bytes@))
        },
{
    match chosen_part(bytes) {
        Some((data, hot, png)) => {
            if png {
                with_hotspot(decode_png(data.as_slice()), hot)
            } else {
                with_hotspot(decode_ico_dib(data.as_slice()), hot)
            }
        },
        None => None,
    }
}

// ---------------------------------------------------------------------------
// Loading
// ---------------------------------------------------------------------------

/// One picture of a file that is no icon.
pub struct Frame {
    pub pixels: Vec<u8>,
    pub width: u32,
    pub height: u32,
}

/// What a picture file holds.
pub enum Picture {
    Still(Frame),
    Animated(Vec<Frame>),
}

/// A file with this extension is an icon container.
pub open spec fn icon_extension(ext: Seq<char>) -> bool {
    lower(ext) == "cur"@ || lower(ext) == "ico"@
}

/// Whether a file with this extension is an icon container.
pub fn is_icon_file(extension: &str) -> (r: bool)
    ensures
        r == icon_extension(extension@),
{
    let ext = to_lower(extension);
    same_text(ext.as_str(), "cur") || same_text(ext.as_str(), "ico")
}

/// The cursor that a picture file gives: the picture itself, or the first one
/// of an animation.
pub fn picture_cursor(picture: Option<Picture>) -> (r: Option<CursorImage>)
    ensures
        match picture {
            Some(Picture::Still(f)) => r matches Some(c) && c.rgba == f.pixels && c.w == f.width
                && c.h == f.height && c.file_hotspot is None,
            Some(Picture::Animated(v)) => if v@.len() == 0 {
                r is None
            } else {
                r matches Some(c) && c.rgba == v@[0].pixels && c.w == v@[0].width && c.h
                    == v@[0].height && c.file_hotspot is None
            },
            None => r is None,
        },
{
    match picture {
        Some(Picture::Still(f)) => Some(
            CursorImage { rgba: f.pixels, w: f.width, h: f.height, file_hotspot: None },
        ),
        Some(Picture::Animated(v)) => {
            let mut v = v;
            if v.len() == 0 {
                None
            } else {
                let f = v.swap_remove(0);
                Some(CursorImage { rgba: f.pixels, w: f.width, h: f.height, file_hotspot: None })
            }
        },
        None => None,
    }
}

// ---------------------------------------------------------------------------
// Scaling
// ---------------------------------------------------------------------------

/// How pixels are resampled.
#[derive(Clone, Copy, PartialEq, Eq, Structural)]
pub enum ScaleFilter {
    Lanczos3,
    Nearest,
}

/// Shrinking keeps sharp with Lanczos, enlarging keeps hard edges.
pub open spec fn filter_for(w: u32, h: u32, size: u32) -> ScaleFilter {
    if size < w || size < h {
        ScaleFilter::Lanczos3
    } else {
        ScaleFilter::Nearest
    }
}

/// The smallest size is one pixel.
pub open spec fn scale_size(size: u32) -> u32 {
    if size == 0 {
        1
    } else {
        size
    }
}

/// What resampling to the nearest pixel makes of a picture.
pub uninterp spec fn nearest_resized(rgba: Seq<u8>, w: u32, h: u32, size: u32) -> Seq<u8>;

/// `image::RgbaImage::from_raw` and `image::imageops::resize` to a square. The
/// buffer must hold the picture, and the new one, with the intermediate one of
/// four 32-bit channels, must be addressable. The result has four bytes for
/// each pixel; with the nearest filter it depends on the arguments alone. What
/// the bytes are under the other filter is not stated: it rests on the
/// platform's sine.
#[verifier::external_body]
fn resize_square(rgba: Vec<u8>, w: u32, h: u32, size: u32, filter: ScaleFilter) -> (r: Vec<u8>)
    requires
        w * h * 4 <= rgba@.len(),
        16 * w * size <= isize::MAX,
        4 * size * size <= isize::MAX,
    ensures
        r@.len() == size * size * 4,
        filter == ScaleFilter::Nearest ==> r@ == nearest_resized(rgba@, w, h, size),
{
    let src = image::RgbaImage::from_raw(w, h, rgba).unwrap();
    let how = match filter {
        ScaleFilter::Lanczos3 => image::imageops::FilterType::Lanczos3,
        ScaleFilter::Nearest => image::imageops::FilterType::Nearest,
    };
    image::imageops::resize(&src, size, size, how).into_raw()
}

/// A hotspot moved with its picture to the new size.
pub open spec fn scaled_hotspot(
    hot: Option<(u32, u32)>,
    w: u32,
    h: u32,
    size: u32,
) -> Option<(u32, u32)> {
    match hot {
        Some((x, y)) => Some(
            (
                scaled(x as nat, size as nat, w as nat) as u32,
                scaled(y as nat, size as nat, h as nat) as u32,
            ),
        ),
        None => None,
    }
}

/// The square picture made of resampled pixels, with its hotspot moved along.
pub fn resized_cursor(
    pixels: Vec<u8>,
    w: u32,
    h: u32,
    hot: Option<(u32, u32)>,
    size: u32,
) -> (r: CursorImage)
    ensures
        r.rgba == pixels,
        r.w == size,
        r.h == size,
        r.file_hotspot == scaled_hotspot(hot, w, h, size),
{
    let file_hotspot: Option<(u32, u32)> = match hot {
        Some((x, y)) => Some((scale(x, size, w), scale(y, size, h))),
        None => None,
    };
    CursorImage { rgba: pixels, w: size, h: size, file_hotspot }
}

/// What is resampled, and how.
pub struct ResizeJob {
    pub rgba: Vec<u8>,
    pub w: u32,
    pub h: u32,
    pub size: u32,
    pub filter: ScaleFilter,
}

/// What has to be resampled to bring a picture to `size` by `size` pixels:
/// nothing where it has that size, or where its buffer is too short.
pub fn resize_job(img: CursorImage, size: u32) -> (r: Option<ResizeJob>)
    ensures
        ({
            let s = scale_size(size);
            &&& r is Some <==> !(img.w == s && img.h == s) && img.w * img.h * 4 <= img.rgba@.len()
            &&& r matches Some(j) ==> j.rgba == img.rgba && j.w == img.w && j.h == img.h && j.size
                == s && j.filter == filter_for(img.w, img.h, s)
        }),
{
    let s: u32 = if size == 0 {
        1
    } else {
        size
    };
    if img.w == s && img.h == s {
        return None;
    }
    assert(0 <= img.w * img.h <= u32::MAX * u32::MAX) by (nonlinear_arith)
        requires
            0 <= img.w <= u32::MAX,
            0 <= img.h <= u32::MAX,
    ;
    let need: u128 = img.w as u128 * img.h as u128 * 4;
    if need > img.rgba.len() as u128 {
        return None;
    }
    let filter = if s < img.w || s < img.h {
        ScaleFilter::Lanczos3
    } else {
        ScaleFilter::Nearest
    };
    Some(ResizeJob { rgba: img.rgba, w: img.w, h: img.h, size: s, filter })
}

/// `r` is the picture brought to `size` by `size` pixels.
pub open spec fn is_scaled(img: CursorImage, size: u32, r: CursorImage) -> bool {
    let s = scale_size(size);
    if img.w == s && img.h == s {
        r == img
    } else if img.w * img.h * 4 > img.rgba@.len() {
        r.rgba@.len() == 0 && r.w == 0 && r.h == 0 && r.file_hotspot is None
    } else {
        &&& r.w == s
        &&& r.h == s
        &&& r.rgba@.len() == s * s * 4
        &&& r.file_hotspot == scaled_hotspot(img.file_hotspot, img.w, img.h, s)
        &&& filter_for(img.w, img.h, s) == ScaleFilter::Nearest ==> r.rgba@ == nearest_resized(
            img.rgba@,
            img.w,
            img.h,
            s,
        )
    }
}

/// Brings a picture to `size` by `size` pixels, by what [`resize_job`] says of
/// it. A picture of that size stays as it is; one whose buffer is too short
/// becomes an empty picture.
pub fn scale_to(img: CursorImage, size: u32) -> (r: CursorImage)
    requires
        16 * img.w * scale_size(size) <= isize::MAX,
        4 * scale_size(size) * scale_size(size) <= isize::MAX,
    ensures
        is_scaled(img, size, r),
{
    let s: u32 = if size == 0 {
        1
    } else {
        size
    };
    if img.w == s && img.h == s {
        return img;
    }
    let hot = img.file_hotspot;
    match resize_job(img, size) {
        Some(job) => {
            let pixels = resize_square(job.rgba, job.w, job.h, job.size, job.filter);
            resized_cursor(pixels, job.w, job.h, hot, job.size)
        },
        None => CursorImage { rgba: Vec::new(), w: 0, h: 0, file_hotspot: None },
    }
}

// ---------------------------------------------------------------------------
// The drawn crosshair
// ---------------------------------------------------------------------------

pub open spec fn gap_between(a: int, b: int) -> int {
    if a < b {
        b - a
    } else {
        a - b
    }
}

/// The pixel of a crosshair of `size`: white arms that leave a gap round a
/// white dot, with a dark rim.
pub open spec fn crosshair_pixel(size: int, x: int, y: int) -> Seq<u8> {
    let center = size / 2;
    let thick = if size / 16 > 1 {
        size / 16
    } else {
        1
    };
    let gap = size / 6;
    let inner = gap - 1;
    let dx = gap_between(x, center);
    let dy = gap_between(y, center);
    let arm = (dy < thick && gap < dx < center) || (dx < thick && gap < dy < center);
    let dot = dx < thick && dy < thick;
    let rim = (dy <= thick + 1 && inner < dx <= center) || (dx <= thick + 1 && inner < dy
        <= center) || (dx <= thick + 1 && dy <= thick + 1);
    if arm || dot {
        seq![255u8, 255, 255, 255]
    } else if rim {
        seq![0u8, 0, 0, 200]
    } else {
        seq![0u8, 0, 0, 0]
    }
}

pub open spec fn crosshair_pixels(size: int) -> spec_fn(int, int) -> Seq<u8> {
    |x: int, y: int| crosshair_pixel(size, x, y)
}

/// A crosshair is at least eight pixels wide.
pub open spec fn crosshair_size(size: u32) -> u32 {
    if size < 8 {
        8
    } else {
        size
    }
}

fn distance(a: u32, b: u32) -> (r: u32)
    ensures
        r as int == gap_between(a as int, b as int),
{
    if a < b {
        b - a
    } else {
        a - b
    }
}

/// `r` is the crosshair of `size`, with its hotspot in the middle.
pub open spec fn is_crosshair(size: u32, r: CursorImage) -> bool {
    &&& r.w == crosshair_size(size)
    &&& r.h == crosshair_size(size)
    &&& r.rgba@ == image_bytes(crosshair_pixels(r.w as int), r.w as nat, r.h as nat)
    &&& r.rgba@.len() == r.w * r.h * 4
    &&& r.file_hotspot == Some(((r.w / 2) as u32, (r.h / 2) as u32))
}

/// Draws the cursor that is used where a configured one cannot be loaded.
pub fn gen_crosshair(size: u32) -> (r: CursorImage)
    requires
        size <= 32767,
    ensures
        is_crosshair(size, r),
{
    let n: u32 = if size < 8 {
        8
    } else {
        size
    };
    let center: u32 = n / 2;
    let thick: u32 = if n / 16 > 1 {
        n / 16
    } else {
        1
    };
    let gap: u32 = n / 6;
    let ghost px = crosshair_pixels(n as int);
    let mut rgba: Vec<u8> = Vec::new();
    let mut y: u32 = 0;
    while y < n
        invariant
            y <= n,
            8 <= n <= 32767,
            center == n / 2,
            thick == if n / 16 > 1 {
                n / 16
            } else {
                1
            },
            gap == n / 6,
            px == crosshair_pixels(n as int),
            rgba@ == image_bytes(px, n as nat, y as nat),
        decreases n - y,
    {
        let mut x: u32 = 0;
        while x < n
            invariant
                x <= n,
                y < n,
                8 <= n <= 32767,
                center == n / 2,
                thick == if n / 16 > 1 {
                    n / 16
                } else {
                    1
                },
                gap == n / 6,
                px == crosshair_pixels(n as int),
                rgba@ == image_bytes(px, n as nat, y as nat) + row_bytes(px, y as int, x as nat),
            decreases n - x,
        {
            let dx: u32 = distance(x, center);
            let dy: u32 = distance(y, center);
            let on_h = dy < thick && dx > gap && dx < center;
            let on_v = dx < thick && dy > gap && dy < center;
            let on_dot = dx < thick && dy < thick;
            let ghost before = rgba@;
            if on_h || on_v || on_dot {
                push_pixel(&mut rgba, 255, 255, 255, 255);
            } else {
                let near_h = dy <= thick + 1 && dx > gap - 1 && dx < center + 1;
                let near_v = dx <= thick + 1 && dy > gap - 1 && dy < center + 1;
                let near_dot = dx <= thick + 1 && dy <= thick + 1;
                if near_h || near_v || near_dot {
                    push_pixel(&mut rgba, 0, 0, 0, 200);
                } else {
                    push_pixel(&mut rgba, 0, 0, 0, 0);
                }
            }
            assert(rgba@ == before + crosshair_pixel(n as int, x as int, y as int));
            x += 1;
            assert(rgba@ == image_bytes(px, n as nat, y as nat) + row_bytes(
                px,
                y as int,
                x as nat,
            ));
        }
        y += 1;
    }
    proof {
        assert(four_bytes(px));
        lemma_image_bytes(px, n as nat, n as nat);
    }
    CursorImage { rgba, w: n, h: n, file_hotspot: Some((n / 2, n / 2)) }
}

/// The picture of a cursor at `size`: the loaded one scaled, or the crosshair
/// where none could be loaded.
pub fn cursor_or_crosshair(img: Option<CursorImage>, size: u32) -> (r: CursorImage)
    requires
        img matches Some(i) ==> 16 * i.w * scale_size(size) <= isize::MAX && 4 * scale_size(size)
            * scale_size(size) <= isize::MAX,
        img is None ==> size <= 32767,
    ensures
        match img {
            Some(i) => is_scaled(i, size, r),
            None => is_crosshair(size, r),
        },
{
    match img {
        Some(i) => scale_to(i, size),
        None => gen_crosshair(size),
    }
}

/// The middle of the crosshair is white and opaque.
pub proof fn law_crosshair_center_is_opaque(size: int)
    requires
        size >= 8,
    ensures
        crosshair_pixel(size, size / 2, size / 2) == seq![255u8, 255, 255, 255],
{
}

// ---------------------------------------------------------------------------
// Finding the file
// ---------------------------------------------------------------------------

/// The extensions that are tried behind a bare name, in order.
pub open spec fn cursor_extensions() -> Seq<Seq<char>> {
    seq!["png"@, "cur"@, "ico"@, "gif"@, "jpg"@, "jpeg"@]
}

/// The paths at which a configured cursor is looked for, in order: an absolute
/// name itself, the name in the cursors folder, the name with each known
/// extension there. An empty name is looked for nowhere.
pub open spec fn cursor_paths(name: Seq<char>, dir: Seq<char>) -> Seq<Seq<char>> {
    if name.len() == 0 {
        Seq::empty()
    } else {
        let with_ext = Seq::new(
            6,
            |i: int| path_in(dir, name + "."@ + cursor_extensions()[i]),
        );
        seq![path_in(dir, name)] + with_ext
    }
}

fn push_candidate(out: &mut Vec<String>, dir: &str, name: &str, ext: &str)
    ensures
        texts(final(out)@) == texts(old(out)@).push(path_in(dir@, name@ + "."@ + ext@)),
{
    let mut file: String = name.to_owned();
    file.append(".");
    file.append(ext);
    push_text(out, join_path(dir, file.as_str()));
}

/// The paths at which a configured cursor is looked for, in order.
pub fn cursor_candidates(name: &str, dir: &str) -> (r: Vec<String>)
    ensures
        texts(r@) == cursor_paths(name@, dir@),
{
    let mut out: Vec<String> = Vec::new();
    if name.is_empty() {
        assert(texts(out@) == Seq::<Seq<char>>::empty());
        return out;
    }
    out.push(join_path(dir, name));
    assert(texts(out@) == seq![path_in(dir@, name@)]);
    push_candidate(&mut out, dir, name, "png");
    push_candidate(&mut out, dir, name, "cur");
    push_candidate(&mut out, dir, name, "ico");
    push_candidate(&mut out, dir, name, "gif");
    push_candidate(&mut out, dir, name, "jpg");
    push_candidate(&mut out, dir, name, "jpeg");
    assert(texts(out@) == cursor_paths(name@, dir@));
    out
}

/// `p` is the first of the paths at which there is a file, if there is one.
pub open spec fn resolves(
    paths: Seq<Seq<char>>,
    present: Seq<bool>,
    p: Option<Seq<char>>,
) -> bool {
    match p {
        Some(q) => exists|i: int|
            {
                &&& 0 <= i < paths.len()
                &&& i < present.len()
                &&& #[trigger] present[i]
                &&& q == paths[i]
                &&& forall|j: int| 0 <= j < i ==> !present[j]
            },
        None => forall|i: int|
            0 <= i < paths.len() && i < present.len() ==> !#[trigger] present[i],
    }
}

/// The file of a configured cursor: the first place at which it is looked for
/// where there is one. `present` says for each candidate whether a file is
/// there.
pub fn resolve_cursor_path(name: &str, dir: &str, present: &Vec<bool>) -> (r: Option<String>)
    ensures
        resolves(
            cursor_paths(name@, dir@),
            present@,
            match r {
                Some(p) => Some(p@),
                None => None,
            },
        ),
{
    let paths = cursor_candidates(name, dir);
    let mut i: usize = 0;
    while i < paths.len() && i < present.len()
        invariant
            i <= paths@.len(),
            i <= present@.len(),
            texts(paths@) == cursor_paths(name@, dir@),
            forall|j: int| 0 <= j < i ==> !#[trigger] present@[j],
        decreases paths.len() - i,
    {
        if present[i] {
            assert(texts(paths@)[i as int] == paths@[i as int]@);
            return Some(paths[i].clone());
        }
        i += 1;
    }
    assert(texts(paths@).len() == paths@.len());
    None
}

// ---------------------------------------------------------------------------
// Laws
// ---------------------------------------------------------------------------

/// Numbers in a file have their low byte first.
pub proof fn law_low_byte_first(b: Seq<u8>, i: int)
    ensures
        le16(b, i) == b[i] + 0x100 * b[i + 1],
        le32(b, i) == b[i] + 0x100 * b[i + 1] + 0x1_0000 * b[i + 2] + 0x100_0000 * b[i + 3],
{
}

/// The leftmost pixel of a byte is its highest bit.
pub proof fn law_bits_from_the_left(b: u8)
    ensures
        high_bit(b, 0) <==> b >= 128,
        high_bit(b, 1) <==> b % 128 >= 64,
        high_bit(b, 2) <==> b % 64 >= 32,
        high_bit(b, 3) <==> b % 32 >= 16,
        high_bit(b, 4) <==> b % 16 >= 8,
        high_bit(b, 5) <==> b % 8 >= 4,
        high_bit(b, 6) <==> b % 4 >= 2,
        high_bit(b, 7) <==> b % 2 == 1,
{
    assert((b >> 7u8) & 1u8 == 1u8 <==> b >= 128) by (bit_vector);
    assert((b >> 6u8) & 1u8 == 1u8 <==> b % 128 >= 64) by (bit_vector);
    assert((b >> 5u8) & 1u8 == 1u8 <==> b % 64 >= 32) by (bit_vector);
    assert((b >> 4u8) & 1u8 == 1u8 <==> b % 32 >= 16) by (bit_vector);
    assert((b >> 3u8) & 1u8 == 1u8 <==> b % 16 >= 8) by (bit_vector);
    assert((b >> 2u8) & 1u8 == 1u8 <==> b % 8 >= 4) by (bit_vector);
    assert((b >> 1u8) & 1u8 == 1u8 <==> b % 4 >= 2) by (bit_vector);
    assert((b >> 0u8) & 1u8 == 1u8 <==> b % 2 == 1) by (bit_vector);
}

/// A row is as long as its bits need, filled up to a whole number of four bytes.
pub proof fn law_rows_are_filled_up(bits: int)
    requires
        bits >= 0,
    ensures
        row_stride(bits) % 4 == 0,
        bits <= 8 * row_stride(bits) < bits + 32,
{
}

/// Where the row `y` of a bitmap of `h` rows begins, the rows being stored from
/// the lowest up behind a header of 40 bytes and `colors` colors.
pub open spec fn stored_row(colors: int, bits: int, h: int, y: int) -> int {
    40 + 4 * colors + (h - 1 - y) * row_stride(bits)
}

/// A pixel of 32 bits is blue, green, red and alpha, in the rows from the lowest
/// up. The alpha counts as soon as any pixel has one; else the mask does.
pub proof fn law_pixels_of_32_bits(d: Seq<u8>, l: DibLayout, x: int, y: int, x2: int, y2: int)
    requires
        dib_ok(d),
        layout_of(l, d),
        le32(d, 0) == 40,
        le16(d, 14) == 32,
        0 <= x < l.w,
        0 <= y < l.h,
        0 <= x2 < l.w,
        0 <= y2 < l.h,
    ensures
        ({
            let (w, h) = (le32(d, 4), le32(d, 8) / 2);
            let p = 40 + 4 * ((h - 1 - y) * w + x);
            let q = 40 + 4 * ((h - 1 - y2) * w + x2);
            let m = 40 + 4 * (w * h) + (h - 1 - y) * row_stride(w) + x / 8;
            let px = dib_pixel(d, l, x, y);
            &&& px.len() == 4
            &&& px[0] == d[p + 2] && px[1] == d[p + 1] && px[2] == d[p]
            &&& d[q + 3] != 0 ==> px[3] == d[p + 3]
            &&& px[3] != d[p + 3] ==> px[3] == if high_bit(d[m], x % 8) {
                0u8
            } else {
                255u8
            }
        }),
{
    let (w, h) = (le32(d, 4), le32(d, 8) / 2);
    assert(row_stride(w * 32) == 4 * w);
    assert((h - 1 - y) * (4 * w) == 4 * ((h - 1 - y) * w)) by (nonlinear_arith);
    assert((h - 1 - y2) * (4 * w) == 4 * ((h - 1 - y2) * w)) by (nonlinear_arith);
    assert((4 * w) * h == 4 * (w * h)) by (nonlinear_arith);
    let q = 40 + 4 * ((h - 1 - y2) * w + x2);
    assert(alpha_at(l, x2, y2) == q + 3);
}

/// A pixel of 24 bits is blue, green and red; the mask alone decides whether it
/// is seen.
pub proof fn law_pixels_of_24_bits(d: Seq<u8>, l: DibLayout, x: int, y: int)
    requires
        dib_ok(d),
        layout_of(l, d),
        le32(d, 0) == 40,
        le16(d, 14) == 24,
        0 <= x < l.w,
        0 <= y < l.h,
    ensures
        ({
            let (w, h) = (le32(d, 4), le32(d, 8) / 2);
            let p = stored_row(0, 24 * w, h, y) + 3 * x;
            let m = 40 + row_stride(24 * w) * h + (h - 1 - y) * row_stride(w) + x / 8;
            let px = dib_pixel(d, l, x, y);
            &&& px[0] == d[p + 2] && px[1] == d[p + 1] && px[2] == d[p]
            &&& px[3] == if high_bit(d[m], x % 8) {
                0u8
            } else {
                255u8
            }
        }),
{
    assert(le32(d, 4) * 24 == 24 * le32(d, 4));
}

/// A pixel of 8 or 4 bits is the number of a color, of 4 bits the left pixel in
/// the high half of the byte; the colors stand behind the header, blue first.
pub proof fn law_pixels_by_number(d: Seq<u8>, l: DibLayout, x: int, y: int)
    requires
        dib_ok(d),
        layout_of(l, d),
        le32(d, 0) == 40,
        le32(d, 32) == 0,
        le16(d, 14) == 8 || le16(d, 14) == 4,
        0 <= x < l.w,
        0 <= y < l.h,
    ensures
        ({
            let (w, h) = (le32(d, 4), le32(d, 8) / 2);
            let at8 = stored_row(256, 8 * w, h, y) + x;
            let at4 = stored_row(16, 4 * w, h, y) + x / 2;
            let n = if le16(d, 14) == 8 {
                d[at8] as int
            } else if x % 2 == 0 {
                d[at4] as int / 16
            } else {
                d[at4] as int % 16
            };
            let px = dib_pixel(d, l, x, y);
            px[0] == d[40 + 4 * n + 2] && px[1] == d[40 + 4 * n + 1] && px[2] == d[40 + 4 * n]
        }),
{
    let (w, h) = (le32(d, 4), le32(d, 8) / 2);
    assert(w * 8 == 8 * w && w * 4 == 4 * w);
    lemma_row(dib_xor_off(d), row_stride(w * le16(d, 14)), h, y);
    assert(0 <= row_stride(w * le16(d, 14)) * h) by (nonlinear_arith)
        requires
            0 <= row_stride(w * le16(d, 14)),
            0 <= h,
    ;
    assert(0 <= row_stride(w) * h) by (nonlinear_arith)
        requires
            0 <= row_stride(w),
            0 <= h,
    ;
}

/// A pixel of one bit is one of two colors where the mask lets it be seen; where
/// it does not, a set bit inverts, which is shown white, and a clear one is not
/// seen at all.
pub proof fn law_pixels_of_one_bit(d: Seq<u8>, l: DibLayout, x: int, y: int)
    requires
        dib_ok(d),
        layout_of(l, d),
        le32(d, 0) == 40,
        le32(d, 32) == 0,
        le16(d, 14) == 1,
        0 <= x < l.w,
        0 <= y < l.h,
    ensures
        ({
            let (w, h) = (le32(d, 4), le32(d, 8) / 2);
            let set = high_bit(d[stored_row(2, w, h, y) + x / 8], x % 8);
            let m = 48 + row_stride(w) * h + (h - 1 - y) * row_stride(w) + x / 8;
            let masked = high_bit(d[m], x % 8);
            let px = dib_pixel(d, l, x, y);
            &&& masked && set ==> px == seq![255u8, 255, 255, 255]
            &&& masked && !set ==> px[3] == 0
            &&& !masked ==> px[3] == 255
            &&& !masked && set ==> px[0] == d[46] && px[1] == d[45] && px[2] == d[44]
            &&& !masked && !set ==> px[0] == d[42] && px[1] == d[41] && px[2] == d[40]
        }),
{
    let (w, h) = (le32(d, 4), le32(d, 8) / 2);
    assert(0 <= row_stride(w * 1) * h) by (nonlinear_arith)
        requires
            0 <= row_stride(w * 1),
            0 <= h,
    ;
    assert(0 <= row_stride(w) * h) by (nonlinear_arith)
        requires
            0 <= row_stride(w),
            0 <= h,
    ;
}

/// Each pixel of a decoded bitmap stands in its place of the picture, rows from
/// the top.
pub proof fn law_bitmap_pixels_in_place(d: Seq<u8>, l: DibLayout, x: int, y: int, c: int)
    requires
        0 <= x < l.w,
        0 <= y < l.h,
        0 <= c < 4,
    ensures
        dib_image(d, l)[(y * l.w + x) * 4 + c] == dib_pixel(d, l, x, y)[c],
{
    assert(four_bytes(dib_pixels(d, l))) by {
        assert forall|a: int, b: int| (#[trigger] dib_pixels(d, l)(a, b)).len() == 4 by {}
    }
    lemma_image_bytes(dib_pixels(d, l), l.w as nat, l.h as nat);
    assert(crate::raster::byte_index(l.w as int, x, y, c) == (y * l.w + x) * 4 + c);
}

/// What of a cursor file is shown: the data that its largest entry points to, and
/// as the hotspot of a cursor the one that this entry names; an icon has none. A
/// side that is written as 0 is 256.
pub proof fn law_entry_is_read(b: Seq<u8>, i: int)
    requires
        container_ok(b),
        largest_entry(b, entry_count(b) as nat) == Some(i),
    ensures
        ({
            let e = 6 + 16 * i;
            let size = b[e + 8] + 0x100 * b[e + 9] + 0x1_0000 * b[e + 10] + 0x100_0000 * b[e + 11];
            let start = b[e + 12] + 0x100 * b[e + 13] + 0x1_0000 * b[e + 14] + 0x100_0000 * b[e
                + 15];
            &&& start + size <= b.len() ==> chosen_payload(b) == Some(
                b.subrange(start, start + size),
            )
            &&& start + size > b.len() ==> chosen_payload(b) is None
            &&& b[2] == 2 ==> chosen_hotspot(b) == Some(
                (b[e + 4] + 0x100 * b[e + 5], b[e + 6] + 0x100 * b[e + 7]),
            )
            &&& b[2] == 1 ==> chosen_hotspot(b) is None
            &&& b[e] > 0 && b[e + 1] > 0 ==> entry_area(b, i) == b[e] * b[e + 1]
            &&& b[e] == 0 && b[e + 1] == 0 ==> entry_area(b, i) == 65536
        }),
{
}

/// A cursor file begins with two zero bytes, then 1 for icons or 2 for cursors,
/// and the number of entries; anything else is none.
pub proof fn law_cursor_files(b: Seq<u8>)
    ensures
        b.len() >= 22 && b[0] == 0 && b[1] == 0 && (b[2] == 1 || b[2] == 2) && b[3] == 0 && b[4]
            > 0 ==> container_ok(b),
        b.len() < 22 || b[0] != 0 || b[1] != 0 || b[2] == 0 || b[2] > 2 || b[3] != 0 || (b[4] == 0
            && b[5] == 0) ==> !container_ok(b),
        b.len() >= 6 + 16 * (b[4] + 0x100 * b[5]) ==> entry_count(b) == b[4] + 0x100 * b[5],
{
}

/// The extensions of cursor files count in either case, no others do.
pub proof fn law_cursor_extensions()
    ensures
        icon_extension("cur"@) && icon_extension("CUR"@) && icon_extension("ico"@)
            && icon_extension("Ico"@),
        !icon_extension("png"@) && !icon_extension("gif"@) && !icon_extension(""@),
{
    reveal_strlit("cur");
    reveal_strlit("CUR");
    reveal_strlit("ico");
    reveal_strlit("Ico");
    reveal_strlit("png");
    reveal_strlit("gif");
    reveal_strlit("");
    assert(lower("cur"@) =~= "cur"@);
    assert(lower("CUR"@) =~= "cur"@);
    assert(lower("ico"@) =~= "ico"@);
    assert(lower("Ico"@) =~= "ico"@);
    assert(lower("png"@)[0] == 'p');
    assert(lower("gif"@)[0] == 'g');
    assert("cur"@[0] == 'c' && "ico"@[0] == 'i');
    assert(lower(""@).len() == 0);
}

/// Pixels are smoothed where the picture gets smaller in either direction, and
/// repeated where it does not.
pub proof fn law_smaller_pictures_are_smoothed(w: u32, h: u32, size: u32)
    ensures
        w > size || h > size ==> filter_for(w, h, size) is Lanczos3,
        w <= size && h <= size ==> filter_for(w, h, size) is Nearest,
        size > 0 ==> scale_size(size) == size,
        scale_size(0) == 1,
{
}

/// A scaled cursor has the size that was asked for, its hotspot moves with the
/// picture, and a cursor without one stays without.
pub proof fn law_scaled_cursors(img: CursorImage, size: u32, r: CursorImage, k: u32)
    requires
        is_scaled(img, size, r),
        size > 0,
        img.w * img.h * 4 <= img.rgba@.len(),
    ensures
        r.w == size && r.h == size,
        img.file_hotspot is None ==> r.file_hotspot is None,
        img.w == size && img.h == size ==> r == img,
        img.file_hotspot matches Some((x, y)) ==> 0 < k < 64 && 0 < img.w < 256 && img.h == img.w
            && size == k * img.w && x < 256 && y < 256 ==> r.file_hotspot == Some(
            ((x * k) as u32, (y * k) as u32),
        ),
{
    if let Some((x, y)) = img.file_hotspot {
        if 0 < k < 64 && 0 < img.w < 256 && img.h == img.w && size == k * img.w && x < 256 && y
            < 256 {
            assert(k * img.w < 0x4000 && x * (k * img.w) < 0x40_0000 && y * (k * img.w) < 0x40_0000
                && x * k < 0x4000 && y * k < 0x4000) by (nonlinear_arith)
                requires
                    0 < k < 64,
                    0 < img.w < 256,
                    0 <= x < 256,
                    0 <= y < 256,
            ;
            crate::single::law_scale_by_whole_factor(x as nat, img.w as nat, k as nat);
            crate::single::law_scale_by_whole_factor(y as nat, img.w as nat, k as nat);
            if img.w == size && img.h == size {
                assert(k == 1) by (nonlinear_arith)
                    requires
                        size == k * img.w,
                        size == img.w,
                        img.w > 0,
                ;
            }
        }
    }
}

/// The crosshair is the same to the left and to the right, above and below, and
/// along both axes; it has white arms with a gap around a white dot, and clear
/// corners.
pub proof fn law_crosshair_is_symmetric(size: int, a: int, b: int)
    requires
        8 <= size,
    ensures
        ({
            let c = size / 2;
            let px = crosshair_pixel(size, c + a, c + b);
            &&& px == crosshair_pixel(size, c - a, c + b)
            &&& px == crosshair_pixel(size, c + a, c - b)
            &&& px == crosshair_pixel(size, c + b, c + a)
        }),
        ({
            let c = size / 2;
            &&& size / 6 < a < c ==> crosshair_pixel(size, c + a, c) == seq![255u8, 255, 255, 255]
            &&& crosshair_pixel(size, 0, 0) == seq![0u8, 0, 0, 0]
            &&& size / 16 <= a < size / 6 && a > 3 && a > size / 16 + 1 && a <= size / 6 - 1
                ==> crosshair_pixel(size, c + a, c) == seq![0u8, 0, 0, 0]
        }),
{
}

/// A cursor is looked for in the directory by its name as it is, then with each
/// of the extensions, pictures of the plain kind first. No name, no place.
pub proof fn law_cursor_places(name: Seq<char>, dir: Seq<char>)
    ensures
        cursor_paths(Seq::empty(), dir).len() == 0,
        name.len() > 0 ==> {
            let v = cursor_paths(name, dir);
            &&& v.len() == 7
            &&& v[0] == path_in(dir, name)
            &&& v[1] == path_in(dir, name + "."@ + "png"@)
            &&& v[2] == path_in(dir, name + "."@ + "cur"@)
            &&& v[3] == path_in(dir, name + "."@ + "ico"@)
            &&& v[4] == path_in(dir, name + "."@ + "gif"@)
            &&& v[5] == path_in(dir, name + "."@ + "jpg"@)
            &&& v[6] == path_in(dir, name + "."@ + "jpeg"@)
        },
{
}

/// The first place where there is a file is the one that is used.
pub proof fn law_first_present_place(
    paths: Seq<Seq<char>>,
    present: Seq<bool>,
    p: Option<Seq<char>>,
    i: int,
)
    requires
        resolves(paths, present, p),
        present.len() == paths.len(),
    ensures
        0 <= i < present.len() && present[i] && (forall|j: int|
            0 <= j < i ==> !#[trigger] present[j]) ==> p == Some(paths[i]),
        (forall|j: int| 0 <= j < present.len() ==> !#[trigger] present[j]) ==> p is None,
{
}

/// A picture is a cursor as it is, an animation with its first frame.
pub proof fn law_pictures_as_cursors(picture: Option<Picture>, r: Option<CursorImage>)
    requires
        call_ensures(picture_cursor, (picture,), r),
    ensures
        picture matches Some(Picture::Still(f)) ==> r is Some && r->0.rgba@ == f.pixels@ && r->0.w
            == f.width && r->0.h == f.height,
        picture matches Some(Picture::Animated(v)) ==> v@.len() > 0 ==> r is Some && r->0.rgba@
            == v@[0].pixels@ && r->0.w == v@[0].width && r->0.h == v@[0].height,
        picture is None ==> r is None,
{
}

/// A crosshair has the size that is asked for, but at least eight pixels.
pub proof fn law_crosshair_sizes(size: u32)
    ensures
        crosshair_size(size) >= 8,
        size >= 8 ==> crosshair_size(size) == size,
        size < 8 ==> crosshair_size(size) == 8,
{
}

/// A picture whose bytes do not suffice becomes an empty one, unless it has the size
/// already.
pub proof fn law_short_pictures_become_empty(img: CursorImage, size: u32, r: CursorImage)
    requires
        is_scaled(img, size, r),
        size > 0,
        img.w != size || img.h != size,
        img.w * img.h * 4 > img.rgba@.len(),
    ensures
        r.w == 0 && r.h == 0 && r.rgba@.len() == 0 && r.file_hotspot is None,
{
}

/// The crosshair's hotspot is its middle, and it is as high as it is wide.
pub proof fn law_crosshair_points_with_its_middle(size: u32, r: CursorImage)
    requires
        is_crosshair(size, r),
    ensures
        r.w == r.h && r.rgba@.len() == 4 * (r.w * r.w),
        r.file_hotspot matches Some((x, y)) && x == y && 2 * x <= r.w <= 2 * x + 1,
{
    assert(r.w * r.h * 4 == 4 * (r.w * r.w)) by (nonlinear_arith)
        requires
            r.w == r.h,
    ;
}

/// A color of the palette is its three bytes, blue first in the file; one that the
/// file does not hold is black.
pub proof fn law_palette_colors(d: Seq<u8>, l: DibLayout, i: int)
    requires
        0 <= i,
    ensures
        l.palette_off + 4 * i + 3 <= d.len() ==> {
            let c = palette_color(d, l, i);
            c.len() == 3 && c[0] == d[l.palette_off + 4 * i + 2] && c[1] == d[l.palette_off + 4 * i
                + 1] && c[2] == d[l.palette_off + 4 * i]
        },
        l.palette_off + 4 * i + 3 > d.len() ==> palette_color(d, l, i) == seq![0u8, 0, 0],
{
}

/// A hotspot is known by both of its coordinates, and none is none.
pub proof fn law_hotspots(x: u32, y: u32, u: int, v: int)
    ensures
        hotspot_is(None, None),
        hotspot_is(Some((x, y)), Some((u, v))) <==> x == u && y == v,
        !hotspot_is(None, Some((u, v))) && !hotspot_is(Some((x, y)), None),
{
}

/// A PNG is known by its first four bytes, whatever comes behind them; what is
/// shorter is none.
pub proof fn law_png_signature(p: Seq<u8>, rest: Seq<u8>)
    ensures
        is_png(seq![137u8, 80, 78, 71] + rest),
        is_png(p) ==> p.len() >= 4 && p.take(4) == seq![137u8, 80, 78, 71],
        p.len() < 4 ==> !is_png(p),
{
    if is_png(p) {
        assert(p.take(4) =~= seq![137u8, 80, 78, 71]);
    }
}

} // verus!
