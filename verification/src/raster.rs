//! Pictures as bytes: rows from top to bottom, pixels from left to right.

use vstd::prelude::*;

verus! {

/// The bytes of the first `n` pixels of row `y`, where `px(x, y)` holds the
/// bytes of one pixel.
pub open spec fn row_bytes(px: spec_fn(int, int) -> Seq<u8>, y: int, n: nat) -> Seq<u8>
    decreases n,
{
    if n == 0 {
        Seq::empty()
    } else {
        row_bytes(px, y, (n - 1) as nat) + px(n - 1, y)
    }
}

/// The bytes of the first `n` rows of a picture that is `w` pixels wide.
pub open spec fn image_bytes(px: spec_fn(int, int) -> Seq<u8>, w: nat, n: nat) -> Seq<u8>
    decreases n,
{
    if n == 0 {
        Seq::empty()
    } else {
        image_bytes(px, w, (n - 1) as nat) + row_bytes(px, n - 1, w)
    }
}

/// Every pixel has four bytes.
pub open spec fn four_bytes(px: spec_fn(int, int) -> Seq<u8>) -> bool {
    forall|x: int, y: int| (#[trigger] px(x, y)).len() == 4
}

/// Where byte `c` of pixel `(x, y)` stands.
pub open spec fn byte_index(w: int, x: int, y: int, c: int) -> int {
    (y * w + x) * 4 + c
}

pub proof fn lemma_row_bytes(px: spec_fn(int, int) -> Seq<u8>, y: int, n: nat)
    requires
        four_bytes(px),
    ensures
        row_bytes(px, y, n).len() == 4 * n,
        forall|x: int, c: int|
            0 <= x < n && 0 <= c < 4 ==> row_bytes(px, y, n)[x * 4 + c] == #[trigger] px(x, y)[c],
    decreases n,
{
    if n > 0 {
        let m = (n - 1) as nat;
        lemma_row_bytes(px, y, m);
        assert(px(m as int, y).len() == 4);
        assert forall|x: int, c: int| 0 <= x < n && 0 <= c < 4 implies row_bytes(px, y, n)[x * 4 + c]
            == #[trigger] px(x, y)[c] by {
            if x < m {
                assert(row_bytes(px, y, m)[x * 4 + c] == px(x, y)[c]);
            }
        }
    }
}

/// The length of a picture, and where each byte of each pixel stands in it.
pub proof fn lemma_image_bytes(px: spec_fn(int, int) -> Seq<u8>, w: nat, n: nat)
    requires
        four_bytes(px),
    ensures
        image_bytes(px, w, n).len() == w * n * 4,
        forall|x: int, y: int, c: int|
            0 <= x < w && 0 <= y < n && 0 <= c < 4 ==> image_bytes(px, w, n)[#[trigger] byte_index(
                w as int,
                x,
                y,
                c,
            )] == px(x, y)[c],
    decreases n,
{
    if n > 0 {
        let m = (n - 1) as nat;
        lemma_image_bytes(px, w, m);
        lemma_row_bytes(px, m as int, w);
        assert(w * n * 4 == w * m * 4 + 4 * w) by (nonlinear_arith)
            requires
                n == m + 1,
        ;
        assert(w * m == m * w) by (nonlinear_arith);
        assert forall|x: int, y: int, c: int| 0 <= x < w && 0 <= y < n && 0 <= c < 4 implies image_bytes(
            px,
            w,
            n,
        )[#[trigger] byte_index(w as int, x, y, c)] == px(x, y)[c] by {
            let i = byte_index(w as int, x, y, c);
            assert(y * (w as int) >= 0) by (nonlinear_arith)
                requires
                    y >= 0,
                    w >= 0,
            ;
            if y < m {
                assert(y * (w as int) + w <= m * w) by (nonlinear_arith)
                    requires
                        0 <= y < m,
                        w >= 0,
                ;
                assert(i < w * m * 4);
                assert(image_bytes(px, w, m)[i] == px(x, y)[c]);
            } else {
                assert(row_bytes(px, y, w)[x * 4 + c] == px(x, y)[c]);
                assert(i == w * m * 4 + (x * 4 + c));
            }
        }
    } else {
        assert(w * n * 4 == 0) by (nonlinear_arith)
            requires
                n == 0,
        ;
    }
}

/// Appends one pixel.
pub fn push_pixel(out: &mut Vec<u8>, a: u8, b: u8, c: u8, d: u8)
    ensures
        final(out)@ == old(out)@ + seq![a, b, c, d],
{
    out.push(a);
    out.push(b);
    out.push(c);
    out.push(d);
    assert(out@ == old(out)@ + seq![a, b, c, d]);
}

/// A copy of some bytes.
pub fn copy_bytes(v: &Vec<u8>) -> (r: Vec<u8>)
    ensures
        r@ == v@,
{
    let mut r: Vec<u8> = Vec::new();
    r.extend_from_slice(v.as_slice());
    assert(r@ =~= v@);
    r
}

} // verus!
