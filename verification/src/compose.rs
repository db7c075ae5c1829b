//! Canvas compositor: replays the GIF disposal state machine over the ordered
//! source frames, producing one full-canvas RGBA snapshot per frame.
//!
//! The canvas is a row-major RGBA byte buffer of `width * height * 4` bytes.
//! Byte index `k` belongs to pixel `k / 4` (channel `k % 4`), which sits at
//! column `(k / 4) % width` and row `(k / 4) / width`.

use vstd::prelude::*;
use vstd::arithmetic::div_mod::lemma_fundamental_div_mod_converse;

verus! {

/// How the canvas is prepared after a frame has been displayed, before the
/// next frame is composited.
#[derive(Clone, Copy, PartialEq, Eq, Structural, Debug)]
pub enum Disposal {
    /// No disposal specified.
    Any,
    /// Leave the canvas as it is.
    Keep,
    /// Fill the frame's region with the logical background color.
    Background,
    /// Restore the canvas to its state before this frame was composited.
    Previous,
}

/// One frame as the container yields it: a sub-region RGBA buffer plus its
/// placement, timing and disposal directive.
pub struct SourceFrame {
    pub left: u16,
    pub top: u16,
    pub width: u16,
    pub height: u16,
    pub delay: u16,
    pub disposal: Disposal,
    pub rgba: Vec<u8>,
}

/// Immutable record of one frame's fully composited appearance.
pub struct DecodedFrame {
    /// Full canvas RGBA (`width * height * 4` bytes).
    pub canvas: Vec<u8>,
    /// Display delay in 1/100 s.
    pub delay: u16,
}

/// A source frame's buffer holds exactly its region's RGBA bytes.
pub open spec fn frame_wf(f: SourceFrame) -> bool {
    f.rgba@.len() == f.width as int * f.height as int * 4
}

/// Canvas position (x, y) lies inside the frame's sub-region.
pub open spec fn in_rect(x: int, y: int, f: SourceFrame) -> bool {
    &&& f.left <= x < f.left + f.width
    &&& f.top <= y < f.top + f.height
}

/// Byte index inside the frame's buffer for canvas position (x, y), channel c.
pub open spec fn src_index(x: int, y: int, f: SourceFrame, c: int) -> int {
    ((y - f.top) * f.width + (x - f.left)) * 4 + c
}

/// Byte k of the canvas after compositing frame f: pixels of the frame with
/// non-zero alpha overwrite the canvas, fully transparent ones never do.
pub open spec fn blit_byte(c: Seq<u8>, f: SourceFrame, w: int, k: int) -> u8 {
    let p = k / 4;
    let ch = k % 4;
    let x = p % w;
    let y = p / w;
    if in_rect(x, y, f) && f.rgba@[src_index(x, y, f, 3)] != 0 {
        f.rgba@[src_index(x, y, f, ch)]
    } else {
        c[k]
    }
}

/// The canvas after compositing frame f onto canvas c (canvas width w).
pub open spec fn blit(c: Seq<u8>, f: SourceFrame, w: int) -> Seq<u8> {
    Seq::new(c.len(), |k: int| blit_byte(c, f, w, k))
}

/// Byte k of the canvas after filling frame f's region with the background
/// color bg (4 RGBA bytes).
pub open spec fn clear_byte(c: Seq<u8>, f: SourceFrame, w: int, bg: Seq<u8>, k: int) -> u8 {
    let p = k / 4;
    let ch = k % 4;
    let x = p % w;
    let y = p / w;
    if in_rect(x, y, f) {
        bg[ch]
    } else {
        c[k]
    }
}

/// The canvas after restoring frame f's region to the background color.
pub open spec fn bg_clear(c: Seq<u8>, f: SourceFrame, w: int, bg: Seq<u8>) -> Seq<u8> {
    Seq::new(c.len(), |k: int| clear_byte(c, f, w, bg, k))
}

/// An all-transparent canvas of n bytes.
pub open spec fn zero_canvas(n: nat) -> Seq<u8> {
    Seq::new(n, |k: int| 0u8)
}

/// The canvas as it stands just before frame i is composited: frames 0..i have
/// been composited and disposed of in order, starting from an all-transparent
/// canvas of n bytes (n = w * h * 4).
pub open spec fn pre_canvas(frames: Seq<SourceFrame>, i: int, w: int, n: nat, bg: Seq<u8>) -> Seq<u8>
    decreases i,
{
    if i <= 0 {
        zero_canvas(n)
    } else {
        let f = frames[i - 1];
        let before = pre_canvas(frames, i - 1, w, n, bg);
        match f.disposal {
            Disposal::Previous => before,
            Disposal::Background => bg_clear(blit(before, f, w), f, w, bg),
            _ => blit(before, f, w),
        }
    }
}

/// The full-canvas appearance recorded for frame i: frame i composited onto
/// the canvas left by frames 0..i.
pub open spec fn frame_canvas(frames: Seq<SourceFrame>, i: int, w: int, n: nat, bg: Seq<u8>) -> Seq<u8> {
    blit(pre_canvas(frames, i, w, n, bg), frames[i], w)
}

/// The canvas the disposal machine threads through the frames always keeps
/// its n bytes.
pub proof fn lemma_pre_canvas_len(frames: Seq<SourceFrame>, i: int, w: int, n: nat, bg: Seq<u8>)
    ensures
        pre_canvas(frames, i, w, n, bg).len() == n,
    decreases i,
{
    if i > 0 {
        lemma_pre_canvas_len(frames, i - 1, w, n, bg);
    }
}

/// Every recorded snapshot has the canvas's n bytes.
pub proof fn lemma_frame_canvas_len(frames: Seq<SourceFrame>, i: int, w: int, n: nat, bg: Seq<u8>)
    ensures
        frame_canvas(frames, i, w, n, bg).len() == n,
{
    lemma_pre_canvas_len(frames, i, w, n, bg);
}

/// Byte 4 * p + c belongs to pixel p, channel c.
pub(crate) proof fn lemma_quad(p: int, c: int)
    requires
        0 <= p,
        0 <= c < 4,
    ensures
        (4 * p + c) / 4 == p,
        (4 * p + c) % 4 == c,
{
    lemma_fundamental_div_mod_converse(4 * p + c, 4, p, c);
}

/// A fresh owned copy of a byte buffer.
pub fn copy_bytes(v: &Vec<u8>) -> (r: Vec<u8>)
    ensures
        r@ == v@,
{
    let mut r: Vec<u8> = Vec::new();
    let mut i: usize = 0;
    while i < v.len()
        invariant
            i <= v@.len(),
            r@ == v@.subrange(0, i as int),
        decreases v@.len() - i,
    {
        r.push(v[i]);
        assert(r@ == v@.subrange(0, i + 1 as int));
        i = i + 1;
    }
    assert(v@.subrange(0, v@.len() as int) == v@);
    r
}

/// Composites frame f onto the canvas in place: every frame pixel with
/// non-zero alpha overwrites its canvas position, fully transparent source
/// pixels leave the canvas untouched.
pub fn blit_frame(canvas: &mut Vec<u8>, f: &SourceFrame, w: u16, h: u16)
    requires
        frame_wf(*f),
        old(canvas)@.len() == w as int * h as int * 4,
    ensures
        final(canvas)@ == blit(old(canvas)@, *f, w as int),
{
    let ghost c0 = canvas@;
    let len0: usize = canvas.len();
    let total: usize = len0 / 4;
    proof {
        lemma_fundamental_div_mod_converse(c0.len() as int, 4, w as int * h as int, 0);
    }
    let mut p: usize = 0;
    while p < total
        invariant
            total == w as int * h as int,
            c0.len() == w as int * h as int * 4,
            c0.len() <= usize::MAX,
            canvas@.len() == c0.len(),
            frame_wf(*f),
            p <= total,
            forall|k: int| 0 <= k < 4 * p ==> canvas@[k] == blit_byte(c0, *f, w as int, k),
            forall|k: int| 4 * p <= k < c0.len() ==> canvas@[k] == c0[k],
        decreases total - p,
    {
        proof {
            if w == 0 {
                assert(total == 0) by (nonlinear_arith)
                    requires total == w as int * h as int && w as int == 0;
            }
            assert(4 * (p as int) + 4 <= c0.len()) by (nonlinear_arith)
                requires p < total && total == w as int * h as int && c0.len() == w as int * h as int * 4;
        }
        let x: usize = p % (w as usize);
        let y: usize = p / (w as usize);
        let inside = (f.left as usize) <= x && x < (f.left as usize) + (f.width as usize)
            && (f.top as usize) <= y && y < (f.top as usize) + (f.height as usize);
        if inside {
            let sx = x - (f.left as usize);
            let sy = y - (f.top as usize);
            let rl = f.rgba.len();
            proof {
                assert((sy as int * f.width as int + sx as int) * 4 + 3 < f.rgba@.len())
                    by (nonlinear_arith)
                    requires
                        (sx as int) < f.width as int && (sy as int) < f.height as int
                            && 0 <= sx as int && 0 <= sy as int
                            && f.rgba@.len() == f.width as int * f.height as int * 4;
                assert(sy as int * f.width as int >= 0) by (nonlinear_arith)
                    requires 0 <= sy as int && 0 <= f.width as int;
            }
            let s = (sy * (f.width as usize) + sx) * 4;
            if f.rgba[s + 3] != 0 {
                let mut c: usize = 0;
                while c < 4
                    invariant
                        c <= 4,
                        p < total,
                        total == w as int * h as int,
                        c0.len() == w as int * h as int * 4,
                        c0.len() <= usize::MAX,
                        canvas@.len() == c0.len(),
                        frame_wf(*f),
                        s == (sy as int * f.width as int + sx as int) * 4,
                        s + 4 <= f.rgba@.len(),
                        4 * p + 4 <= c0.len(),
                        sx == x - f.left as int,
                        sy == y - f.top as int,
                        x == p as int % w as int,
                        y == p as int / w as int,
                        in_rect(x as int, y as int, *f),
                        f.rgba@[src_index(x as int, y as int, *f, 3)] != 0,
                        forall|k: int| 0 <= k < 4 * p ==> canvas@[k] == blit_byte(c0, *f, w as int, k),
                        forall|k: int| 4 * p + c <= k < c0.len() ==> canvas@[k] == c0[k],
                        forall|k: int| 4 * p <= k < 4 * p + c ==> canvas@[k] == f.rgba@[s + (k - 4 * p)],
                    decreases 4 - c,
                {
                    canvas.set(4 * p + c, f.rgba[s + c]);
                    c = c + 1;
                }
                proof {
                    assert forall|k: int| 4 * (p as int) <= k < 4 * (p as int) + 4 implies
                        canvas@[k] == blit_byte(c0, *f, w as int, k) by {
                        lemma_quad(p as int, k - 4 * (p as int));
                        assert(canvas@[k] == f.rgba@[src_index(x as int, y as int, *f, k - 4 * (p as int))]);
                    }
                }
            } else {
                proof {
                    assert forall|k: int| 4 * (p as int) <= k < 4 * (p as int) + 4 implies
                        canvas@[k] == blit_byte(c0, *f, w as int, k) by {
                        lemma_quad(p as int, k - 4 * (p as int));
                    }
                }
            }
        } else {
            proof {
                assert forall|k: int| 4 * (p as int) <= k < 4 * (p as int) + 4 implies
                    canvas@[k] == blit_byte(c0, *f, w as int, k) by {
                    lemma_quad(p as int, k - 4 * (p as int));
                }
            }
        }
        p = p + 1;
    }
    proof {
        assert(canvas@ =~= blit(c0, *f, w as int));
    }
}

/// Fills frame f's region of the canvas with the 4-byte background color.
pub fn clear_frame(canvas: &mut Vec<u8>, f: &SourceFrame, w: u16, h: u16, bg: &Vec<u8>)
    requires
        old(canvas)@.len() == w as int * h as int * 4,
        bg@.len() == 4,
    ensures
        final(canvas)@ == bg_clear(old(canvas)@, *f, w as int, bg@),
{
    let ghost c0 = canvas@;
    let len0: usize = canvas.len();
    let total: usize = len0 / 4;
    proof {
        lemma_fundamental_div_mod_converse(c0.len() as int, 4, w as int * h as int, 0);
    }
    let mut p: usize = 0;
    while p < total
        invariant
            total == w as int * h as int,
            c0.len() == w as int * h as int * 4,
            c0.len() <= usize::MAX,
            canvas@.len() == c0.len(),
            bg@.len() == 4,
            p <= total,
            forall|k: int| 0 <= k < 4 * p ==> canvas@[k] == clear_byte(c0, *f, w as int, bg@, k),
            forall|k: int| 4 * p <= k < c0.len() ==> canvas@[k] == c0[k],
        decreases total - p,
    {
        proof {
            if w == 0 {
                assert(total == 0) by (nonlinear_arith)
                    requires total == w as int * h as int && w as int == 0;
            }
            assert(4 * (p as int) + 4 <= c0.len()) by (nonlinear_arith)
                requires p < total && total == w as int * h as int && c0.len() == w as int * h as int * 4;
        }
        let x: usize = p % (w as usize);
        let y: usize = p / (w as usize);
        let inside = (f.left as usize) <= x && x < (f.left as usize) + (f.width as usize)
            && (f.top as usize) <= y && y < (f.top as usize) + (f.height as usize);
        if inside {
            let mut c: usize = 0;
            while c < 4
                invariant
                    c <= 4,
                    p < total,
                    total == w as int * h as int,
                    c0.len() == w as int * h as int * 4,
                    c0.len() <= usize::MAX,
                    canvas@.len() == c0.len(),
                    bg@.len() == 4,
                    4 * p + 4 <= c0.len(),
                    x == p as int % w as int,
                    y == p as int / w as int,
                    in_rect(x as int, y as int, *f),
                    forall|k: int| 0 <= k < 4 * p ==> canvas@[k] == clear_byte(c0, *f, w as int, bg@, k),
                    forall|k: int| 4 * p + c <= k < c0.len() ==> canvas@[k] == c0[k],
                    forall|k: int| 4 * p <= k < 4 * p + c ==> canvas@[k] == bg@[k - 4 * p],
                decreases 4 - c,
            {
                canvas.set(4 * p + c, bg[c]);
                c = c + 1;
            }
            proof {
                assert forall|k: int| 4 * (p as int) <= k < 4 * (p as int) + 4 implies
                    canvas@[k] == clear_byte(c0, *f, w as int, bg@, k) by {
                    lemma_quad(p as int, k - 4 * (p as int));
                }
            }
        } else {
            proof {
                assert forall|k: int| 4 * (p as int) <= k < 4 * (p as int) + 4 implies
                    canvas@[k] == clear_byte(c0, *f, w as int, bg@, k) by {
                    lemma_quad(p as int, k - 4 * (p as int));
                }
            }
        }
        p = p + 1;
    }
    proof {
        assert(canvas@ =~= bg_clear(c0, *f, w as int, bg@));
    }
}

/// Replays the disposal state machine over the ordered source frames and
/// records one full-canvas snapshot per frame.
pub fn compose(frames: &Vec<SourceFrame>, w: u16, h: u16, bg: &Vec<u8>) -> (r: Vec<DecodedFrame>)
    requires
        forall|i: int| 0 <= i < frames@.len() ==> frame_wf(#[trigger] frames@[i]),
        w as int * h as int * 4 <= usize::MAX,
        bg@.len() == 4,
    ensures
        r@.len() == frames@.len(),
        forall|i: int| 0 <= i < frames@.len() ==> (#[trigger] r@[i]).canvas@
            == frame_canvas(frames@, i, w as int, (w as int * h as int * 4) as nat, bg@),
        forall|i: int| 0 <= i < frames@.len() ==> (#[trigger] r@[i]).delay == frames@[i].delay,
{
    let ghost n = (w as int * h as int * 4) as nat;
    let cs: usize = (w as usize) * (h as usize) * 4;
    let mut canvas: Vec<u8> = vec![0u8; cs];
    proof {
        assert(canvas@ =~= zero_canvas(n));
    }
    let mut out: Vec<DecodedFrame> = Vec::new();
    let mut i: usize = 0;
    while i < frames.len()
        invariant
            forall|j: int| 0 <= j < frames@.len() ==> frame_wf(#[trigger] frames@[j]),
            w as int * h as int * 4 <= usize::MAX,
            bg@.len() == 4,
            n == (w as int * h as int * 4) as nat,
            i <= frames@.len(),
            canvas@.len() == n,
            canvas@ == pre_canvas(frames@, i as int, w as int, n, bg@),
            out@.len() == i,
            forall|j: int| 0 <= j < i ==> (#[trigger] out@[j]).canvas@
                == frame_canvas(frames@, j, w as int, n, bg@),
            forall|j: int| 0 <= j < i ==> (#[trigger] out@[j]).delay == frames@[j].delay,
        decreases frames@.len() - i,
    {
        let f = &frames[i];
        let needs_snapshot = matches!(f.disposal, Disposal::Previous);
        let snapshot = if needs_snapshot {
            copy_bytes(&canvas)
        } else {
            Vec::new()
        };
        blit_frame(&mut canvas, f, w, h);
        out.push(DecodedFrame { canvas: copy_bytes(&canvas), delay: f.delay });
        match f.disposal {
            Disposal::Background => {
                clear_frame(&mut canvas, f, w, h, bg);
            }
            Disposal::Previous => {
                canvas = snapshot;
            }
            _ => {}
        }
        i = i + 1;
    }
    out
}

} // verus!
