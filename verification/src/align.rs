//! Lossy pixel alignment: snapping near-identical adjacent pixels together
//! before quantization to lengthen horizontal runs, which the LZW stage
//! compresses better.
//!
//! Each row is scanned left to right; a pixel whose RGB channels all lie
//! within the tolerance of its (already processed) left neighbor — both
//! pixels opaque — takes the neighbor's RGB, keeping its own alpha.

use vstd::prelude::*;

verus! {

/// Pixel p snapped to its left neighbor when both are non-transparent and
/// all three RGB channel distances are within tol; otherwise unchanged.
/// The left neighbor's bytes are read from the current (already processed)
/// state s.
pub open spec fn snap_at(s: Seq<u8>, p: int, tol: int) -> Seq<u8> {
    if s[4 * p + 3] != 0 && s[4 * p - 1] != 0
        && -tol <= s[4 * p] - s[4 * p - 4] <= tol
        && -tol <= s[4 * p + 1] - s[4 * p - 3] <= tol
        && -tol <= s[4 * p + 2] - s[4 * p - 2] <= tol {
        s.update(4 * p, s[4 * p - 4]).update(4 * p + 1, s[4 * p - 3]).update(4 * p + 2, s[4 * p - 2])
    } else {
        s
    }
}

/// The buffer after the first p pixels have been processed in row-major
/// order; the first pixel of each row is never snapped.
pub open spec fn aligned_upto(orig: Seq<u8>, w: int, tol: int, p: int) -> Seq<u8>
    decreases p,
{
    if p <= 0 {
        orig
    } else {
        let s = aligned_upto(orig, w, tol, p - 1);
        if (p - 1) % w != 0 {
            snap_at(s, p - 1, tol)
        } else {
            s
        }
    }
}

/// The whole buffer (w * h pixels) after lossy alignment.
pub open spec fn aligned(orig: Seq<u8>, w: int, h: int, tol: int) -> Seq<u8> {
    aligned_upto(orig, w, tol, w * h)
}

/// Alignment never changes the buffer's length.
pub proof fn lemma_aligned_len(orig: Seq<u8>, w: int, tol: int, p: int)
    requires
        0 < w,
        4 * p <= orig.len(),
    ensures
        aligned_upto(orig, w, tol, p).len() == orig.len(),
    decreases p,
{
    if p > 0 {
        lemma_aligned_len(orig, w, tol, p - 1);
    }
}

/// Pixels at or past position p are untouched after processing the first
/// p pixels.
proof fn lemma_align_untouched(orig: Seq<u8>, w: int, tol: int, p: int)
    requires
        0 < w,
        0 <= p,
        4 * p <= orig.len(),
    ensures
        forall|k: int| 4 * p <= k < orig.len()
            ==> aligned_upto(orig, w, tol, p)[k] == orig[k],
    decreases p,
{
    if p > 0 {
        lemma_align_untouched(orig, w, tol, p - 1);
        lemma_aligned_len(orig, w, tol, p - 1);
    }
}

/// Alignment is lossy only up to the tolerance: every RGB byte of the
/// aligned buffer lies within tol of the original byte, and every alpha
/// byte is untouched.
pub proof fn lemma_alignment_within_tolerance(orig: Seq<u8>, w: int, h: int, tol: int)
    requires
        orig.len() == w * h * 4,
        0 <= w,
        0 <= h,
        0 <= tol,
    ensures
        forall|k: int| 0 <= k < orig.len() ==> if k % 4 == 3 {
            aligned(orig, w, h, tol)[k] == orig[k]
        } else {
            -tol <= (#[trigger] aligned(orig, w, h, tol)[k]) - orig[k] <= tol
        },
{
    if orig.len() == 0 {
    } else {
        assert(0 < w) by (nonlinear_arith)
            requires orig.len() == w * h * 4 && orig.len() > 0 && 0 <= w && 0 <= h;
        assert(4 * (w * h) <= orig.len()) by (nonlinear_arith)
            requires orig.len() == w * h * 4;
        lemma_align_tolerance_upto(orig, w, tol, w * h);
    }
}

/// The tolerance bound, pixel by pixel: after processing the first p
/// pixels, every processed RGB byte lies within tol of the original and
/// every processed alpha byte is untouched.
proof fn lemma_align_tolerance_upto(orig: Seq<u8>, w: int, tol: int, p: int)
    requires
        0 < w,
        0 <= tol,
        0 <= p,
        4 * p <= orig.len(),
    ensures
        forall|k: int| 0 <= k < 4 * p ==> if k % 4 == 3 {
            aligned_upto(orig, w, tol, p)[k] == orig[k]
        } else {
            -tol <= (#[trigger] aligned_upto(orig, w, tol, p)[k]) - orig[k] <= tol
        },
    decreases p,
{
    if p > 0 {
        let q = p - 1;
        lemma_align_tolerance_upto(orig, w, tol, q);
        lemma_align_untouched(orig, w, tol, q);
        lemma_aligned_len(orig, w, tol, q);
        let s = aligned_upto(orig, w, tol, q);
        if q % w != 0 {
            assert((0int) % w == 0);
            assert(q >= 1);
            assert forall|k: int| 0 <= k < 4 * p implies (if k % 4 == 3 {
                aligned_upto(orig, w, tol, p)[k] == orig[k]
            } else {
                -tol <= aligned_upto(orig, w, tol, p)[k] - orig[k] <= tol
            }) by {
                crate::compose::lemma_quad(q, 0);
                crate::compose::lemma_quad(q, 1);
                crate::compose::lemma_quad(q, 2);
                crate::compose::lemma_quad(q, 3);
            }
        }
    }
}

/// Bytes of already processed pixels never change again: processing more
/// pixels leaves everything before position p1 as it was.
proof fn lemma_align_stable(orig: Seq<u8>, w: int, tol: int, p1: int, p2: int)
    requires
        0 < w,
        0 <= p1 <= p2,
        4 * p2 <= orig.len(),
    ensures
        forall|k: int| 0 <= k < 4 * p1
            ==> aligned_upto(orig, w, tol, p2)[k] == aligned_upto(orig, w, tol, p1)[k],
    decreases p2 - p1,
{
    if p2 > p1 {
        lemma_align_stable(orig, w, tol, p1, p2 - 1);
        lemma_aligned_len(orig, w, tol, p2 - 1);
    }
}

/// One pass reaches a fixed point: re-running the alignment on an already
/// aligned buffer, pixel by pixel, changes nothing.
proof fn lemma_align_idempotent_upto(orig: Seq<u8>, w: int, h: int, tol: int, p: int)
    requires
        0 < w,
        0 <= tol,
        0 <= p <= w * h,
        orig.len() == w * h * 4,
    ensures
        aligned_upto(aligned(orig, w, h, tol), w, tol, p) == aligned(orig, w, h, tol),
    decreases p,
{
    let a = aligned(orig, w, h, tol);
    assert(4 * (w * h) <= orig.len()) by (nonlinear_arith)
        requires orig.len() == w * h * 4;
    lemma_aligned_len(orig, w, tol, w * h);
    if p > 0 {
        let q = p - 1;
        lemma_align_idempotent_upto(orig, w, h, tol, q);
        let s = aligned_upto(orig, w, tol, q);
        lemma_aligned_len(orig, w, tol, q);
        lemma_aligned_len(orig, w, tol, q + 1);
        if q % w != 0 {
            assert((0int) % w == 0);
            assert(q >= 1);
            // The first pass's state around pixel q is final: bytes up to
            // and including pixel q never change after step q + 1.
            lemma_align_stable(orig, w, tol, q + 1, w * h);
            let s1 = aligned_upto(orig, w, tol, q + 1);
            assert(forall|k: int| 0 <= k < 4 * (q + 1) ==> a[k] == s1[k]);
            assert(s1 == snap_at(s, q, tol));
            if s[4 * q + 3] != 0 && s[4 * q - 1] != 0
                && -tol <= s[4 * q] - s[4 * q - 4] <= tol
                && -tol <= s[4 * q + 1] - s[4 * q - 3] <= tol
                && -tol <= s[4 * q + 2] - s[4 * q - 2] <= tol {
                // Pixel q was snapped to its left neighbor, so in the
                // aligned buffer the two agree exactly; re-snapping writes
                // the very same bytes.
                assert(a[4 * q] == s[4 * q - 4] && a[4 * q + 1] == s[4 * q - 3]
                    && a[4 * q + 2] == s[4 * q - 2] && a[4 * q + 3] == s[4 * q + 3]);
                assert(a[4 * q - 4] == s[4 * q - 4] && a[4 * q - 3] == s[4 * q - 3]
                    && a[4 * q - 2] == s[4 * q - 2] && a[4 * q - 1] == s[4 * q - 1]);
                assert(snap_at(a, q, tol) == a.update(4 * q, a[4 * q - 4]).update(
                    4 * q + 1, a[4 * q - 3]).update(4 * q + 2, a[4 * q - 2]));
                assert(a.update(4 * q, a[4 * q - 4]).update(4 * q + 1, a[4 * q - 3]).update(
                    4 * q + 2, a[4 * q - 2]) =~= a);
            } else {
                // Pixel q was left alone, so the aligned buffer repeats the
                // first pass's comparison bytes exactly and the condition
                // fails again.
                assert(s1 == s);
                assert(a[4 * q] == s[4 * q] && a[4 * q + 1] == s[4 * q + 1]
                    && a[4 * q + 2] == s[4 * q + 2] && a[4 * q + 3] == s[4 * q + 3]);
                assert(a[4 * q - 4] == s[4 * q - 4] && a[4 * q - 3] == s[4 * q - 3]
                    && a[4 * q - 2] == s[4 * q - 2] && a[4 * q - 1] == s[4 * q - 1]);
                assert(snap_at(a, q, tol) == a);
            }
        }
    }
}

/// The lossy alignment is idempotent: a second pass over an already aligned
/// buffer changes nothing.
pub proof fn lemma_alignment_idempotent(orig: Seq<u8>, w: int, h: int, tol: int)
    requires
        orig.len() == w * h * 4,
        0 <= w,
        0 <= h,
        0 <= tol,
    ensures
        aligned(aligned(orig, w, h, tol), w, h, tol) == aligned(orig, w, h, tol),
{
    if orig.len() == 0 {
        assert(w * h * 4 == orig.len());
        if w * h > 0 {
            assert(w * h * 4 > 0) by (nonlinear_arith)
                requires w * h > 0;
        }
        assert(aligned(aligned(orig, w, h, tol), w, h, tol)
            == aligned_upto(aligned(orig, w, h, tol), w, tol, w * h));
    } else {
        assert(0 < w && 0 < h) by (nonlinear_arith)
            requires orig.len() == w * h * 4 && orig.len() > 0 && 0 <= w && 0 <= h;
        assert(0 <= w * h) by (nonlinear_arith)
            requires 0 < w && 0 < h;
        lemma_align_idempotent_upto(orig, w, h, tol, w * h);
    }
}

/// Applies the lossy pixel alignment to a fresh copy of the buffer.
pub fn lossy_pixel_align(rgba: &Vec<u8>, w: u16, h: u16, tolerance: u8) -> (r: Vec<u8>)
    requires
        rgba@.len() == w as int * h as int * 4,
    ensures
        r@ == aligned(rgba@, w as int, h as int, tolerance as int),
{
    let mut out = crate::compose::copy_bytes(rgba);
    let len0 = out.len();
    let total: usize = len0 / 4;
    proof {
        vstd::arithmetic::div_mod::lemma_fundamental_div_mod_converse(
            rgba@.len() as int, 4, w as int * h as int, 0);
    }
    let tol: i32 = tolerance as i32;
    let mut p: usize = 0;
    while p < total
        invariant
            total == w as int * h as int,
            rgba@.len() == w as int * h as int * 4,
            rgba@.len() <= usize::MAX,
            out@.len() == rgba@.len(),
            tol == tolerance as int,
            p <= total,
            out@ == aligned_upto(rgba@, w as int, tolerance as int, p as int),
        decreases total - p,
    {
        proof {
            if w == 0 {
                assert(total == 0) by (nonlinear_arith)
                    requires total == w as int * h as int && w as int == 0;
            }
            assert(4 * (p as int) + 4 <= rgba@.len()) by (nonlinear_arith)
                requires p < total && total == w as int * h as int
                    && rgba@.len() == w as int * h as int * 4;
            lemma_aligned_len(rgba@, w as int, tolerance as int, p as int);
            lemma_aligned_len(rgba@, w as int, tolerance as int, p as int + 1);
        }
        if p % (w as usize) != 0 {
            proof {
                assert((0int) % (w as int) == 0);
            }
            let curr = 4 * p;
            let prev = curr - 4;
            if out[curr + 3] != 0 && out[prev + 3] != 0 {
                let dr = out[curr] as i32 - out[prev] as i32;
                let dg = out[curr + 1] as i32 - out[prev + 1] as i32;
                let db = out[curr + 2] as i32 - out[prev + 2] as i32;
                if -tol <= dr && dr <= tol && -tol <= dg && dg <= tol && -tol <= db && db <= tol {
                    let b0 = out[prev];
                    let b1 = out[prev + 1];
                    let b2 = out[prev + 2];
                    out.set(curr, b0);
                    out.set(curr + 1, b1);
                    out.set(curr + 2, b2);
                }
            }
            proof {
                assert(out@ =~= aligned_upto(rgba@, w as int, tolerance as int, p as int + 1));
            }
        } else {
            proof {
                assert(out@ =~= aligned_upto(rgba@, w as int, tolerance as int, p as int + 1));
            }
        }
        p = p + 1;
    }
    out
}

} // verus!
