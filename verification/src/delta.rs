//! Delta extractor: converts the ordered composited snapshots into
//! minimal-region delta frames.
//!
//! Frame 0 (or the only frame of a single-frame animation) always carries the
//! full canvas. Every later frame carries only the tight bounding box of the
//! pixels that changed since the previous snapshot; inside that box,
//! unchanged pixels are rewritten as fully transparent so the encoder can
//! skip them.

use vstd::prelude::*;
use vstd::arithmetic::div_mod::lemma_fundamental_div_mod;
use vstd::arithmetic::div_mod::lemma_fundamental_div_mod_converse;
use crate::compose::Disposal;
use crate::compose::DecodedFrame;
use crate::compose::lemma_quad;

verus! {

/// Minimal-region frame ready for quantization and encoding.
pub struct DeltaFrame {
    /// RGBA bytes of the sub-region (or the full canvas for frame 0).
    pub rgba: Vec<u8>,
    pub width: u16,
    pub height: u16,
    pub left: u16,
    pub top: u16,
    pub delay: u16,
    pub disposal: Disposal,
}

/// Pixel (x, y) differs between the two canvases (both w pixels wide).
pub open spec fn px_changed(prev: Seq<u8>, curr: Seq<u8>, w: int, x: int, y: int) -> bool {
    let i = (y * w + x) * 4;
    ||| prev[i] != curr[i]
    ||| prev[i + 1] != curr[i + 1]
    ||| prev[i + 2] != curr[i + 2]
    ||| prev[i + 3] != curr[i + 3]
}

/// (x, y) is a pixel position of a w-by-h canvas.
pub open spec fn pix_in(w: int, h: int, x: int, y: int) -> bool {
    0 <= x < w && 0 <= y < h
}

/// No pixel differs between the two canvases.
pub open spec fn no_change(prev: Seq<u8>, curr: Seq<u8>, w: int, h: int) -> bool {
    forall|x: int, y: int| pix_in(w, h, x, y) ==> !px_changed(prev, curr, w, x, y)
}

/// (x0, y0)-(x1, y1) is the tight bounding box of the changed pixels: every
/// changed pixel lies inside it and each of its four edges passes through a
/// changed pixel.
pub open spec fn is_bbox(prev: Seq<u8>, curr: Seq<u8>, w: int, h: int, x0: int, y0: int, x1: int, y1: int) -> bool {
    &&& 0 <= x0 <= x1 < w
    &&& 0 <= y0 <= y1 < h
    &&& forall|x: int, y: int| pix_in(w, h, x, y) && px_changed(prev, curr, w, x, y)
        ==> x0 <= x <= x1 && y0 <= y <= y1
    &&& exists|y: int| pix_in(w, h, x0, y) && px_changed(prev, curr, w, x0, y)
    &&& exists|y: int| pix_in(w, h, x1, y) && px_changed(prev, curr, w, x1, y)
    &&& exists|x: int| pix_in(w, h, x, y0) && px_changed(prev, curr, w, x, y0)
    &&& exists|x: int| pix_in(w, h, x, y1) && px_changed(prev, curr, w, x, y1)
}

/// Byte k of the delta region rooted at (x0, y0), dw pixels wide: changed
/// pixels keep their new value, unchanged pixels become fully transparent.
pub open spec fn delta_byte(prev: Seq<u8>, curr: Seq<u8>, w: int, x0: int, y0: int, dw: int, k: int) -> u8 {
    let dp = k / 4;
    let ch = k % 4;
    let sx = x0 + dp % dw;
    let sy = y0 + dp / dw;
    if px_changed(prev, curr, w, sx, sy) {
        curr[(sy * w + sx) * 4 + ch]
    } else {
        0
    }
}

/// The delta region's bytes for a dw-by-dh box rooted at (x0, y0).
pub open spec fn delta_region(prev: Seq<u8>, curr: Seq<u8>, w: int, x0: int, y0: int, dw: int, dh: int) -> Seq<u8> {
    Seq::new((dw * dh * 4) as nat, |k: int| delta_byte(prev, curr, w, x0, y0, dw, k))
}

/// The delta frame computed for a pair of consecutive snapshots: either the
/// degenerate 1-by-1 fully transparent frame (when nothing changed) or the
/// tight bounding box with unchanged pixels blanked to transparent.
pub open spec fn delta_ok(prev: Seq<u8>, curr: Seq<u8>, w: int, h: int, delay: u16, df: DeltaFrame) -> bool {
    &&& df.delay == delay
    &&& df.disposal == Disposal::Keep
    &&& if no_change(prev, curr, w, h) {
        df.width == 1 && df.height == 1 && df.left == 0 && df.top == 0
            && df.rgba@ == seq![0u8, 0u8, 0u8, 0u8]
    } else {
        exists|x0: int, y0: int, x1: int, y1: int|
            {
                &&& #[trigger] is_bbox(prev, curr, w, h, x0, y0, x1, y1)
                &&& df.left == x0
                &&& df.top == y0
                &&& df.width == x1 - x0 + 1
                &&& df.height == y1 - y0 + 1
                &&& df.rgba@ == delta_region(prev, curr, w, x0, y0, x1 - x0 + 1, y1 - y0 + 1)
            }
    }
}

/// A full-canvas delta frame, as emitted for frame 0.
pub open spec fn full_delta(canvas: Seq<u8>, w: u16, h: u16, delay: u16, df: DeltaFrame) -> bool {
    &&& df.rgba@ == canvas
    &&& df.width == w
    &&& df.height == h
    &&& df.left == 0
    &&& df.top == 0
    &&& df.delay == delay
    &&& df.disposal == Disposal::Keep
}

/// A pixel's index in row-major order is below the pixel count.
proof fn lemma_pixel_index_bound(w: int, h: int, x: int, y: int)
    requires
        0 <= x < w,
        0 <= y < h,
    ensures
        0 <= y * w + x < w * h,
{
    assert(0 <= y * w + x < w * h) by (nonlinear_arith)
        requires 0 <= x < w && 0 <= y < h;
}

/// Scans the two canvases for the tight bounding box of the changed pixels:
/// `None` when the canvases are identical, otherwise the box
/// (min x, min y, max x, max y).
pub fn diff_bbox(prev: &Vec<u8>, curr: &Vec<u8>, w: u16, h: u16) -> (r: Option<(u16, u16, u16, u16)>)
    requires
        prev@.len() == w as int * h as int * 4,
        curr@.len() == prev@.len(),
    ensures
        match r {
            None => no_change(prev@, curr@, w as int, h as int),
            Some((x0, y0, x1, y1)) => is_bbox(
                prev@, curr@, w as int, h as int, x0 as int, y0 as int, x1 as int, y1 as int,
            ),
        },
{
    let len0 = prev.len();
    let total: usize = len0 / 4;
    proof {
        lemma_fundamental_div_mod_converse(prev@.len() as int, 4, w as int * h as int, 0);
    }
    let mut found = false;
    let mut minx: usize = 0;
    let mut miny: usize = 0;
    let mut maxx: usize = 0;
    let mut maxy: usize = 0;
    let mut p: usize = 0;
    while p < total
        invariant
            total == w as int * h as int,
            prev@.len() == w as int * h as int * 4,
            prev@.len() <= usize::MAX,
            curr@.len() == prev@.len(),
            p <= total,
            found ==> minx <= maxx < w && miny <= maxy < h,
            found ==> (exists|y: int| pix_in(w as int, h as int, minx as int, y)
                && px_changed(prev@, curr@, w as int, minx as int, y)),
            found ==> (exists|y: int| pix_in(w as int, h as int, maxx as int, y)
                && px_changed(prev@, curr@, w as int, maxx as int, y)),
            found ==> (exists|x: int| pix_in(w as int, h as int, x, miny as int)
                && px_changed(prev@, curr@, w as int, x, miny as int)),
            found ==> (exists|x: int| pix_in(w as int, h as int, x, maxy as int)
                && px_changed(prev@, curr@, w as int, x, maxy as int)),
            forall|px: int, py: int| pix_in(w as int, h as int, px, py) && py * (w as int) + px < p
                && #[trigger] px_changed(prev@, curr@, w as int, px, py)
                ==> found && minx <= px <= maxx && miny <= py <= maxy,
        decreases total - p,
    {
        proof {
            if w == 0 {
                assert(total == 0) by (nonlinear_arith)
                    requires total == w as int * h as int && w as int == 0;
            }
            assert(4 * (p as int) + 4 <= prev@.len()) by (nonlinear_arith)
                requires p < total && total == w as int * h as int
                    && prev@.len() == w as int * h as int * 4;
        }
        let x: usize = p % (w as usize);
        let y: usize = p / (w as usize);
        proof {
            lemma_fundamental_div_mod(p as int, w as int);
            assert(w as int * (y as int) == y as int * (w as int)) by (nonlinear_arith);
            assert(y as int * w as int + x as int == p as int);
            assert((y as int * w as int + x as int) * 4 == 4 * (p as int));
            if (h as int) <= (y as int) {
                assert(total <= y as int * w as int) by (nonlinear_arith)
                    requires total == w as int * h as int && h as int <= y as int && 0 < w as int;
            }
        }
        let idx = p * 4;
        let changed = prev[idx] != curr[idx]
            || prev[idx + 1] != curr[idx + 1]
            || prev[idx + 2] != curr[idx + 2]
            || prev[idx + 3] != curr[idx + 3];
        if changed {
            assert(px_changed(prev@, curr@, w as int, x as int, y as int));
            if !found {
                found = true;
                minx = x;
                maxx = x;
                miny = y;
                maxy = y;
            } else {
                if x < minx {
                    minx = x;
                }
                if x > maxx {
                    maxx = x;
                }
                if y < miny {
                    miny = y;
                }
                if y > maxy {
                    maxy = y;
                }
            }
            proof {
                assert(pix_in(w as int, h as int, x as int, y as int));
                if minx == x {
                    assert(pix_in(w as int, h as int, minx as int, y as int)
                        && px_changed(prev@, curr@, w as int, minx as int, y as int));
                }
                if maxx == x {
                    assert(pix_in(w as int, h as int, maxx as int, y as int)
                        && px_changed(prev@, curr@, w as int, maxx as int, y as int));
                }
                if miny == y {
                    assert(pix_in(w as int, h as int, x as int, miny as int)
                        && px_changed(prev@, curr@, w as int, x as int, miny as int));
                }
                if maxy == y {
                    assert(pix_in(w as int, h as int, x as int, maxy as int)
                        && px_changed(prev@, curr@, w as int, x as int, maxy as int));
                }
            }
        }
        proof {
            assert forall|px: int, py: int| pix_in(w as int, h as int, px, py)
                && py * (w as int) + px < p + 1
                && #[trigger] px_changed(prev@, curr@, w as int, px, py)
                implies found && minx <= px <= maxx && miny <= py <= maxy by {
                if py * (w as int) + px == p as int {
                    lemma_fundamental_div_mod_converse(p as int, w as int, py, px);
                }
            }
        }
        p = p + 1;
    }
    proof {
        assert forall|px: int, py: int| pix_in(w as int, h as int, px, py)
            implies py * (w as int) + px < total as int by {
            lemma_pixel_index_bound(w as int, h as int, px, py);
        }
    }
    if found {
        Some((minx as u16, miny as u16, maxx as u16, maxy as u16))
    } else {
        None
    }
}

/// Builds the delta region's bytes for the bounding box rooted at (x0, y0):
/// changed pixels take their new RGBA value, unchanged ones become
/// fully transparent.
pub fn build_delta(prev: &Vec<u8>, curr: &Vec<u8>, w: u16, h: u16, x0: u16, y0: u16, dw: u16, dh: u16) -> (r: Vec<u8>)
    requires
        prev@.len() == w as int * h as int * 4,
        curr@.len() == prev@.len(),
        x0 as int + dw as int <= w as int,
        y0 as int + dh as int <= h as int,
    ensures
        r@ == delta_region(prev@, curr@, w as int, x0 as int, y0 as int, dw as int, dh as int),
{
    let len0 = prev.len();
    proof {
        assert(dw as int * dh as int <= 65535 * 65535) by (nonlinear_arith)
            requires dw as int <= 65535 && dh as int <= 65535 && 0 <= dw as int && 0 <= dh as int;
    }
    let total: usize = (dw as usize) * (dh as usize);
    proof {
        assert(4 * (total as int) <= prev@.len()) by (nonlinear_arith)
            requires total == dw as int * dh as int
                && x0 as int + dw as int <= w as int
                && y0 as int + dh as int <= h as int
                && 0 <= x0 as int && 0 <= y0 as int
                && prev@.len() == w as int * h as int * 4;
    }
    let mut out: Vec<u8> = Vec::new();
    let mut p: usize = 0;
    while p < total
        invariant
            total == dw as int * dh as int,
            prev@.len() == w as int * h as int * 4,
            prev@.len() <= usize::MAX,
            4 * (total as int) <= prev@.len(),
            curr@.len() == prev@.len(),
            x0 as int + dw as int <= w as int,
            y0 as int + dh as int <= h as int,
            p <= total,
            out@.len() == 4 * p,
            forall|k: int| 0 <= k < 4 * p ==> out@[k]
                == delta_byte(prev@, curr@, w as int, x0 as int, y0 as int, dw as int, k),
        decreases total - p,
    {
        proof {
            if dw == 0 {
                assert(total == 0) by (nonlinear_arith)
                    requires total == dw as int * dh as int && dw as int == 0;
            }
        }
        let dx: usize = p % (dw as usize);
        let dy: usize = p / (dw as usize);
        proof {
            lemma_fundamental_div_mod(p as int, dw as int);
            assert(dw as int * (dy as int) == dy as int * (dw as int)) by (nonlinear_arith);
            if (dh as int) <= (dy as int) {
                assert(total <= dy as int * dw as int) by (nonlinear_arith)
                    requires total == dw as int * dh as int && dh as int <= dy as int
                        && 0 < dw as int;
            }
        }
        let sx = (x0 as usize) + dx;
        let sy = (y0 as usize) + dy;
        proof {
            assert((sy as int * w as int + sx as int) * 4 + 3 < prev@.len())
                by (nonlinear_arith)
                requires
                    0 <= sx as int && (sx as int) < w as int
                        && 0 <= sy as int && (sy as int) < h as int
                        && prev@.len() == w as int * h as int * 4;
            assert(sy as int * w as int >= 0) by (nonlinear_arith)
                requires 0 <= sy as int && 0 <= w as int;
        }
        let src = (sy * (w as usize) + sx) * 4;
        let changed = prev[src] != curr[src]
            || prev[src + 1] != curr[src + 1]
            || prev[src + 2] != curr[src + 2]
            || prev[src + 3] != curr[src + 3];
        if changed {
            out.push(curr[src]);
            out.push(curr[src + 1]);
            out.push(curr[src + 2]);
            out.push(curr[src + 3]);
        } else {
            out.push(0);
            out.push(0);
            out.push(0);
            out.push(0);
        }
        proof {
            assert forall|k: int| 4 * (p as int) <= k < 4 * (p as int) + 4 implies
                out@[k] == delta_byte(prev@, curr@, w as int, x0 as int, y0 as int, dw as int, k) by {
                lemma_quad(p as int, k - 4 * (p as int));
            }
        }
        p = p + 1;
    }
    proof {
        assert(out@ =~= delta_region(prev@, curr@, w as int, x0 as int, y0 as int, dw as int, dh as int));
    }
    out
}

/// Converts the ordered snapshots into delta frames: full canvas for frame 0
/// (or a single-frame animation), minimal regions for every later frame.
/// This step is strictly sequential: each delta depends on the immediately
/// preceding snapshot.
pub fn extract_deltas(decoded: &Vec<DecodedFrame>, w: u16, h: u16, single: bool) -> (r: Vec<DeltaFrame>)
    requires
        forall|i: int| 0 <= i < decoded@.len()
            ==> (#[trigger] decoded@[i]).canvas@.len() == w as int * h as int * 4,
    ensures
        r@.len() == decoded@.len(),
        forall|i: int| 0 <= i < decoded@.len() ==> if i == 0 || single {
            full_delta(decoded@[i].canvas@, w, h, decoded@[i].delay, #[trigger] r@[i])
        } else {
            delta_ok(decoded@[i - 1].canvas@, decoded@[i].canvas@, w as int, h as int,
                decoded@[i].delay, r@[i])
        },
{
    let mut out: Vec<DeltaFrame> = Vec::new();
    let mut i: usize = 0;
    while i < decoded.len()
        invariant
            forall|j: int| 0 <= j < decoded@.len()
                ==> (#[trigger] decoded@[j]).canvas@.len() == w as int * h as int * 4,
            i <= decoded@.len(),
            out@.len() == i,
            forall|j: int| 0 <= j < i ==> if j == 0 || single {
                full_delta(decoded@[j].canvas@, w, h, decoded@[j].delay, #[trigger] out@[j])
            } else {
                delta_ok(decoded@[j - 1].canvas@, decoded@[j].canvas@, w as int, h as int,
                    decoded@[j].delay, out@[j])
            },
        decreases decoded@.len() - i,
    {
        let frame = &decoded[i];
        if i == 0 || single {
            out.push(DeltaFrame {
                rgba: crate::compose::copy_bytes(&frame.canvas),
                width: w,
                height: h,
                left: 0,
                top: 0,
                delay: frame.delay,
                disposal: Disposal::Keep,
            });
        } else {
            let prev = &decoded[i - 1].canvas;
            let curr = &frame.canvas;
            match diff_bbox(prev, curr, w, h) {
                None => {
                    let mut transparent: Vec<u8> = Vec::new();
                    transparent.push(0);
                    transparent.push(0);
                    transparent.push(0);
                    transparent.push(0);
                    assert(transparent@ =~= seq![0u8, 0u8, 0u8, 0u8]);
                    out.push(DeltaFrame {
                        rgba: transparent,
                        width: 1,
                        height: 1,
                        left: 0,
                        top: 0,
                        delay: frame.delay,
                        disposal: Disposal::Keep,
                    });
                }
                Some((x0, y0, x1, y1)) => {
                    let dw = x1 - x0 + 1;
                    let dh = y1 - y0 + 1;
                    let rgba = build_delta(prev, curr, w, h, x0, y0, dw, dh);
                    out.push(DeltaFrame {
                        rgba,
                        width: dw,
                        height: dh,
                        left: x0,
                        top: y0,
                        delay: frame.delay,
                        disposal: Disposal::Keep,
                    });
                }
            }
        }
        i = i + 1;
    }
    out
}

/// Two identical consecutive snapshots always yield the degenerate 1-by-1
/// fully transparent delta frame at offset (0, 0), whatever the canvas size.
pub proof fn lemma_noop_delta(prev: Seq<u8>, curr: Seq<u8>, w: int, h: int, delay: u16, df: DeltaFrame)
    requires
        prev == curr,
        delta_ok(prev, curr, w, h, delay, df),
    ensures
        df.width == 1,
        df.height == 1,
        df.left == 0,
        df.top == 0,
        df.rgba@ == seq![0u8, 0u8, 0u8, 0u8],
{
    assert(no_change(prev, curr, w, h));
}

/// When exactly one pixel (cx, cy) changed, the delta region is exactly the
/// 1-by-1 box at offset (cx, cy).
pub proof fn lemma_single_pixel_delta(prev: Seq<u8>, curr: Seq<u8>, w: int, h: int, delay: u16, df: DeltaFrame, cx: int, cy: int)
    requires
        delta_ok(prev, curr, w, h, delay, df),
        pix_in(w, h, cx, cy),
        px_changed(prev, curr, w, cx, cy),
        forall|x: int, y: int| pix_in(w, h, x, y) && !(x == cx && y == cy)
            ==> !px_changed(prev, curr, w, x, y),
    ensures
        df.left == cx,
        df.top == cy,
        df.width == 1,
        df.height == 1,
{
    assert(!no_change(prev, curr, w, h));
    let (x0, y0, x1, y1) = choose|x0: int, y0: int, x1: int, y1: int|
        {
            &&& #[trigger] is_bbox(prev, curr, w, h, x0, y0, x1, y1)
            &&& df.left == x0
            &&& df.top == y0
            &&& df.width == x1 - x0 + 1
            &&& df.height == y1 - y0 + 1
            &&& df.rgba@ == delta_region(prev, curr, w, x0, y0, x1 - x0 + 1, y1 - y0 + 1)
        };
    let wy = choose|y: int| pix_in(w, h, x0, y) && px_changed(prev, curr, w, x0, y);
    assert(x0 == cx && wy == cy);
    let wy1 = choose|y: int| pix_in(w, h, x1, y) && px_changed(prev, curr, w, x1, y);
    assert(x1 == cx);
    let wx = choose|x: int| pix_in(w, h, x, y0) && px_changed(prev, curr, w, x, y0);
    assert(y0 == cy);
    let wx1 = choose|x: int| pix_in(w, h, x, y1) && px_changed(prev, curr, w, x, y1);
    assert(y1 == cy);
}

} // verus!
