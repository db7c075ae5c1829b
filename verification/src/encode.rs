//! Frame encoder: optional lossy pixel alignment, palette quantization
//! (capped at 255 colors so an index stays free for transparency), transparent
//! index selection, and LZW pre-encoding into a finished frame record.
//!
//! Quantization failures never fail the pipeline: a built-in direct
//! RGBA-to-indexed conversion stands in whenever the quantizer gives up.

use vstd::prelude::*;
use vstd::arithmetic::div_mod::lemma_fundamental_div_mod;
use vstd::arithmetic::div_mod::lemma_fundamental_div_mod_converse;
use rayon::iter::IntoParallelRefIterator;
use rayon::iter::ParallelIterator;
use crate::align::lossy_pixel_align;
use crate::compose::copy_bytes;
use crate::delta::DeltaFrame;
use crate::compose::Disposal;
use crate::quality::QualityParams;
use crate::stream::lzw_of;
use crate::stream::lzw_pre_encode;

verus! {

/// One RGBA color.
#[derive(Clone, Copy, PartialEq, Eq, Structural, Debug)]
pub struct Rgba {
    pub r: u8,
    pub g: u8,
    pub b: u8,
    pub a: u8,
}

/// Finished, LZW-ready frame: palette, placement, timing and the
/// pre-encoded bitstream.
pub struct EncodedFrame {
    pub width: u16,
    pub height: u16,
    pub left: u16,
    pub top: u16,
    pub delay: u16,
    pub disposal: Disposal,
    /// Ordered RGB triples, at most 256 of them.
    pub palette_rgb: Vec<u8>,
    /// Index of a fully transparent palette entry, if one exists.
    pub transparent: Option<u8>,
    /// Pre-encoded LZW bitstream (minimum code size byte first).
    pub lzw: Vec<u8>,
}

/// A delta frame's buffer holds exactly its region's RGBA bytes.
pub open spec fn delta_wf(df: DeltaFrame) -> bool {
    df.rgba@.len() == df.width as int * df.height as int * 4
}

/// Structural validity of an encoded frame: a whole number of RGB triples,
/// no more than 256 of them, a transparent index that points into the
/// palette, and a well-formed LZW stream.
pub open spec fn encoded_wf(e: EncodedFrame) -> bool {
    &&& e.palette_rgb@.len() % 3 == 0
    &&& e.palette_rgb@.len() <= 768
    &&& (e.transparent matches Some(t) ==> 3 * t < e.palette_rgb@.len())
    &&& e.lzw@.len() >= 1
    &&& 2 <= e.lzw@[0] <= 8
}

/// A palette's RGB bytes: three per entry, in order.
pub open spec fn flat_rgb(pal: Seq<Rgba>) -> Seq<u8> {
    Seq::new((3 * pal.len()) as nat, |k: int|
        if k % 3 == 0 {
            pal[k / 3].r
        } else if k % 3 == 1 {
            pal[k / 3].g
        } else {
            pal[k / 3].b
        })
}

/// t names the first fully transparent entry of pal, or nothing when the
/// palette has no such entry.
pub open spec fn is_first_transparent(pal: Seq<Rgba>, t: Option<u8>) -> bool {
    match t {
        Some(i) => (i as int) < pal.len() && pal[i as int].a == 0
            && (forall|j: int| 0 <= j < i as int ==> (#[trigger] pal[j]).a != 0),
        None => forall|j: int| 0 <= j < pal.len() ==> (#[trigger] pal[j]).a != 0,
    }
}

/// What the encoder guarantees for each delta frame: the region's geometry,
/// timing and disposal are carried over unchanged, the record is structurally
/// valid, and one RGBA palette with one full-region index map stand behind
/// it: the stored palette is the palette's RGB flattening, the declared
/// transparent index is its first fully transparent entry, every index
/// points into it, and the bitstream is the index map's LZW encoding.
pub open spec fn frame_encoded(df: DeltaFrame, e: EncodedFrame) -> bool {
    &&& e.width == df.width
    &&& e.height == df.height
    &&& e.left == df.left
    &&& e.top == df.top
    &&& e.delay == df.delay
    &&& e.disposal == df.disposal
    &&& encoded_wf(e)
    &&& exists|pal: Seq<Rgba>, idx: Seq<u8>|
        {
            &&& e.palette_rgb@ == #[trigger] flat_rgb(pal)
            &&& pal.len() <= 256
            &&& is_first_transparent(pal, e.transparent)
            &&& e.lzw@ == #[trigger] lzw_of(idx)
            &&& idx.len() == df.width as int * df.height as int
            &&& forall|i: int| 0 <= i < idx.len() ==> (idx[i] as int) < pal.len()
        }
}

/// Byte 3 * i + c belongs to palette entry i, channel c.
proof fn lemma_triple(i: int, c: int)
    requires
        0 <= i,
        0 <= c < 3,
    ensures
        (3 * i + c) / 3 == i,
        (3 * i + c) % 3 == c,
{
    lemma_fundamental_div_mod_converse(3 * i + c, 3, i, c);
}

/// Declares imagequant's attribute handle to the verifier; opaque.
#[verifier::external_type_specification]
#[verifier::external_body]
pub struct ExAttributes(imagequant::Attributes);

/// Declares imagequant's quantization state to the verifier; opaque.
#[verifier::external_type_specification]
#[verifier::external_body]
pub struct ExQuantizationResult(imagequant::QuantizationResult);

/// Relies on imagequant::new, Attributes::set_quality and
/// Attributes::set_max_colors: a quantizer configured for the given target
/// quality and capped at 255 colors, so one index stays free for
/// transparency. None when the quality is out of range.
#[verifier::external_body]
fn quantizer_attrs(quality: u8) -> Option<imagequant::Attributes> {
    let mut liq = imagequant::new();
    liq.set_quality(0, quality).ok()?;
    liq.set_max_colors(255).ok()?;
    Some(liq)
}

/// Relies on imagequant's QuantizationResult::set_dithering_level: sets the
/// dithering level to pct / 100. The first two calls only settle the
/// arguments' float types; whatever they do to the level, the last call sets
/// its real value.
#[verifier::external_body]
fn set_dither(res: &mut imagequant::QuantizationResult, pct: u8) -> Option<()> {
    let lvl = pct.into();
    let hundred = 100u8.into();
    let _ = (res.set_dithering_level(lvl), res.set_dithering_level(hundred));
    res.set_dithering_level(lvl / hundred).ok()
}

/// Relies on imagequant (Attributes::new_image, Attributes::quantize,
/// QuantizationResult::remapped): reduces an RGBA buffer to an ordered
/// palette of at most 255 colors and one palette index per pixel, dithering
/// at dithering_pct / 100. Returns None whenever any step fails.
#[verifier::external_body]
fn quantize_rgba(rgba: &Vec<u8>, width: usize, height: usize, quality: u8, dithering_pct: u8) -> (r:
    Option<(Vec<Rgba>, Vec<u8>)>)
    ensures
        r matches Some(pi) ==> pi.1@.len() == width as int * height as int
            && pi.0@.len() <= 255
            && (forall|i: int| 0 <= i < pi.1@.len() ==> (pi.1@[i] as int) < pi.0@.len()),
{
    let liq = quantizer_attrs(quality)?;
    let px: Vec<imagequant::RGBA> = rgba.chunks_exact(4)
        .map(|c| imagequant::RGBA::new(c[0], c[1], c[2], c[3])).collect();
    let mut img = liq.new_image(px, width, height, 0u8.into()).ok()?;
    let mut res = liq.quantize(&mut img).ok()?;
    set_dither(&mut res, dithering_pct)?;
    let (pal, idx) = res.remapped(&mut img).ok()?;
    Some((pal.iter().map(|c| Rgba { r: c.r, g: c.g, b: c.b, a: c.a }).collect(), idx))
}

/// Relies on gif::Frame::from_rgba: the built-in direct RGBA-to-indexed
/// conversion (exact palette up to 256 colors, NeuQuant beyond). It handles
/// any buffer of the declared size, the empty one included, and yields the
/// palette's RGB bytes, one index per pixel, and the transparent index it
/// chose, each index pointing into the palette.
#[verifier::external_body]
fn fallback_quantize(width: u16, height: u16, rgba: &Vec<u8>) -> (r: (Vec<u8>, Vec<u8>, Option<u8>))
    requires
        rgba@.len() == width as int * height as int * 4,
    ensures
        r.0@.len() % 3 == 0,
        r.0@.len() <= 768,
        r.1@.len() == width as int * height as int,
        (r.2 matches Some(t) ==> 3 * t < r.0@.len()),
        forall|i: int| 0 <= i < r.1@.len() ==> 3 * (r.1@[i] as int) < r.0@.len(),
{
    let mut buf = rgba.clone();
    let fr = gif::Frame::from_rgba(width, height, &mut buf);
    (fr.palette.unwrap_or_default(), fr.buffer.into_owned(), fr.transparent)
}

/// Flattens an RGBA palette into the RGB byte triples a GIF stream stores.
pub fn flatten_palette(pal: &Vec<Rgba>) -> (r: Vec<u8>)
    requires
        pal@.len() <= 256,
    ensures
        r@ == flat_rgb(pal@),
{
    let mut r: Vec<u8> = Vec::new();
    let mut i: usize = 0;
    while i < pal.len()
        invariant
            pal@.len() <= 256,
            i <= pal@.len(),
            r@.len() == 3 * i,
            forall|k: int| 0 <= k < 3 * i ==> r@[k] == flat_rgb(pal@)[k],
        decreases pal@.len() - i,
    {
        let c = pal[i];
        r.push(c.r);
        r.push(c.g);
        r.push(c.b);
        proof {
            assert forall|k: int| 3 * (i as int) <= k < 3 * (i as int) + 3 implies
                r@[k] == flat_rgb(pal@)[k] by {
                lemma_triple(i as int, k - 3 * (i as int));
            }
        }
        i = i + 1;
    }
    proof {
        assert(r@ =~= flat_rgb(pal@));
    }
    r
}

/// Finds the first fully transparent palette entry, the index the GIF frame
/// will declare as its transparent color.
pub fn find_transparent(pal: &Vec<Rgba>) -> (r: Option<u8>)
    requires
        pal@.len() <= 255,
    ensures
        is_first_transparent(pal@, r),
{
    let mut i: usize = 0;
    while i < pal.len()
        invariant
            pal@.len() <= 255,
            i <= pal@.len(),
            forall|j: int| 0 <= j < i ==> (#[trigger] pal@[j]).a != 0,
        decreases pal@.len() - i,
    {
        if pal[i].a == 0 {
            return Some(i as u8);
        }
        i = i + 1;
    }
    None
}

/// Encodes one delta frame: optional lossy alignment, palette quantization
/// with the tier's dithering, transparent index selection and LZW
/// pre-encoding. When the quantizer fails, the direct conversion fallback
/// steps in, so encoding itself never fails.
pub fn encode_single_frame(df: &DeltaFrame, quality: u32, params: &QualityParams) -> (r: EncodedFrame)
    requires
        delta_wf(*df),
    ensures
        frame_encoded(*df, r),
{
    let aligned_rgba = if params.lossy_tolerance > 0 {
        lossy_pixel_align(&df.rgba, df.width, df.height, params.lossy_tolerance)
    } else {
        copy_bytes(&df.rgba)
    };
    proof {
        if df.width as int > 0 {
            crate::align::lemma_aligned_len(
                df.rgba@, df.width as int, params.lossy_tolerance as int,
                df.width as int * df.height as int);
        } else {
            assert(df.width as int * df.height as int == 0) by (nonlinear_arith)
                requires df.width as int == 0;
            assert(df.width as int * df.height as int * 4 == 0) by (nonlinear_arith)
                requires df.width as int * df.height as int == 0;
        }
    }
    let q8 = #[verifier::truncate] (quality as u8);
    match quantize_rgba(
        &aligned_rgba,
        df.width as usize,
        df.height as usize,
        q8,
        params.dithering_pct,
    ) {
        Some((pal, idx)) => {
            let palette_rgb = flatten_palette(&pal);
            let transparent = find_transparent(&pal);
            let lzw = lzw_pre_encode(&idx);
            proof {
                assert(lzw@ == lzw_of(idx@)
                    && idx@.len() == df.width as int * df.height as int);
                assert(palette_rgb@ == flat_rgb(pal@) && pal@.len() <= 256
                    && is_first_transparent(pal@, transparent));
                assert(forall|i: int| 0 <= i < idx@.len()
                    ==> ((#[trigger] idx@[i]) as int) < pal@.len());
            }
            EncodedFrame {
                width: df.width,
                height: df.height,
                left: df.left,
                top: df.top,
                delay: df.delay,
                disposal: df.disposal,
                palette_rgb,
                transparent,
                lzw,
            }
        }
        None => {
            let (palette_rgb, idx, transparent) = fallback_quantize(df.width, df.height, &aligned_rgba);
            let lzw = lzw_pre_encode(&idx);
            // The fallback hands out the palette's RGB bytes and a transparent
            // index already known to point into them; an RGBA palette carrying
            // exactly that transparency witnesses the palette relation.
            let ghost wpal: Seq<Rgba> = Seq::new((palette_rgb@.len() / 3) as nat, |i: int| Rgba {
                r: palette_rgb@[3 * i],
                g: palette_rgb@[3 * i + 1],
                b: palette_rgb@[3 * i + 2],
                a: (if transparent matches Some(t) && i == t as int { 0u8 } else { 255u8 }),
            });
            proof {
                assert(lzw@ == lzw_of(idx@)
                    && idx@.len() == df.width as int * df.height as int);
                lemma_fundamental_div_mod(palette_rgb@.len() as int, 3);
                assert(3 * wpal.len() == palette_rgb@.len());
                assert forall|k: int| 0 <= k < palette_rgb@.len() implies
                    flat_rgb(wpal)[k] == palette_rgb@[k] by {
                    lemma_fundamental_div_mod(k, 3);
                }
                assert(palette_rgb@ =~= flat_rgb(wpal));
                if transparent is Some {
                    assert(3 * (transparent->0 as int) < 3 * wpal.len());
                }
                assert(is_first_transparent(wpal, transparent));
                assert(wpal.len() <= 256);
                assert forall|i: int| 0 <= i < idx@.len() implies
                    ((#[trigger] idx@[i]) as int) < wpal.len() by {
                    assert(3 * (idx@[i] as int) < 3 * wpal.len());
                }
            }
            EncodedFrame {
                width: df.width,
                height: df.height,
                left: df.left,
                top: df.top,
                delay: df.delay,
                disposal: df.disposal,
                palette_rgb,
                transparent,
                lzw,
            }
        }
    }
}

/// Encodes the delta frames one at a time, in order.
pub fn encode_frames_sequential(frames: &Vec<DeltaFrame>, quality: u32, params: &QualityParams) -> (r: Vec<EncodedFrame>)
    requires
        forall|i: int| 0 <= i < frames@.len() ==> delta_wf(#[trigger] frames@[i]),
    ensures
        r@.len() == frames@.len(),
        forall|i: int| 0 <= i < frames@.len() ==> frame_encoded(frames@[i], #[trigger] r@[i]),
{
    let mut out: Vec<EncodedFrame> = Vec::new();
    let mut i: usize = 0;
    while i < frames.len()
        invariant
            forall|j: int| 0 <= j < frames@.len() ==> delta_wf(#[trigger] frames@[j]),
            i <= frames@.len(),
            out@.len() == i,
            forall|j: int| 0 <= j < i ==> frame_encoded(frames@[j], #[trigger] out@[j]),
        decreases frames@.len() - i,
    {
        let e = encode_single_frame(&frames[i], quality, params);
        out.push(e);
        i = i + 1;
    }
    out
}

/// Relies on rayon's parallel iterator (par_iter().map().collect()): applies
/// the per-frame encoder to every delta frame concurrently and collects the
/// results in the input's order. The closure only calls
/// `encode_single_frame`.
#[verifier::external_body]
pub(crate) fn encode_frames_parallel(frames: &Vec<DeltaFrame>, quality: u32, params: &QualityParams) -> (r: Vec<EncodedFrame>)
    requires
        forall|i: int| 0 <= i < frames@.len() ==> delta_wf(#[trigger] frames@[i]),
    ensures
        r@.len() == frames@.len(),
        forall|i: int| 0 <= i < frames@.len() ==> frame_encoded(frames@[i], #[trigger] r@[i]),
{
    frames.par_iter().map(|df| encode_single_frame(df, quality, params)).collect()
}

} // verus!
