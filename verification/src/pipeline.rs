//! The animated-GIF recompression pipeline: decode and composite the source
//! frames, extract minimal deltas, encode each delta under quality-adaptive
//! parameters (in parallel when the memory estimate allows), and serialize a
//! new infinite-looping GIF stream.

use vstd::prelude::*;
use crate::compose::SourceFrame;
use crate::compose::compose;
use crate::compose::copy_bytes;
use crate::compose::frame_canvas;
use crate::compose::frame_wf;
use crate::compose::lemma_frame_canvas_len;
use crate::delta::DeltaFrame;
use crate::delta::delta_ok;
use crate::delta::extract_deltas;
use crate::delta::full_delta;
use crate::encode::EncodedFrame;
use crate::encode::delta_wf;
use crate::encode::encode_frames_parallel;
use crate::encode::encode_frames_sequential;
use crate::encode::frame_encoded;
use crate::quality::quality_params;
use crate::schedule::use_parallel;
use crate::stream::GifError;
use crate::stream::dec_origin;
use crate::stream::dec_parses;
use crate::stream::dec_remaining;
use crate::stream::enc_height;
use crate::stream::enc_width;
use crate::stream::enc_written;
use crate::stream::finish_encoder;
use crate::stream::gif_bg_index;
use crate::stream::gif_frames;
use crate::stream::gif_height;
use crate::stream::gif_palette;
use crate::stream::gif_parses;
use crate::stream::gif_stream;
use crate::stream::gif_width;
use crate::stream::new_encoder;
use crate::stream::open_decoder;
use crate::stream::read_next_frame;
use crate::stream::write_encoded_frame;

verus! {

/// The logical background color: the indexed entry of the global palette,
/// fully opaque, or fully transparent when the palette has no such entry.
pub open spec fn spec_background(pal: Option<Seq<u8>>, idx: int) -> Seq<u8> {
    match pal {
        Some(p) => if 3 * idx + 2 < p.len() {
            seq![p[3 * idx], p[3 * idx + 1], p[3 * idx + 2], 0xffu8]
        } else {
            seq![0u8, 0u8, 0u8, 0u8]
        },
        None => seq![0u8, 0u8, 0u8, 0u8],
    }
}

/// Derives the background fill color from the global palette and the
/// header's background-color index (0 when the header names none).
pub fn derive_background(palette: &Option<Vec<u8>>, bg_index: Option<usize>) -> (r: Vec<u8>)
    requires
        bg_index matches Some(i) ==> i <= 255,
    ensures
        r@.len() == 4,
        r@ == spec_background(
            match palette {
                Some(p) => Some(p@),
                None => None,
            },
            match bg_index {
                Some(i) => i as int,
                None => 0,
            },
        ),
{
    let idx: usize = match bg_index {
        Some(i) => i,
        None => 0,
    };
    let mut r: Vec<u8> = Vec::new();
    match palette {
        Some(p) => {
            let offset = idx * 3;
            if offset + 2 < p.len() {
                r.push(p[offset]);
                r.push(p[offset + 1]);
                r.push(p[offset + 2]);
                r.push(0xff);
            } else {
                r.push(0);
                r.push(0);
                r.push(0);
                r.push(0);
            }
        }
        None => {
            r.push(0);
            r.push(0);
            r.push(0);
            r.push(0);
        }
    }
    proof {
        assert(r@ =~= spec_background(
            match palette {
                Some(p) => Some(p@),
                None => None,
            },
            idx as int,
        ));
    }
    r
}

/// The delta frames are exactly those of the snapshot sequence: full canvas
/// for frame 0 (or a single frame), minimal regions afterwards, and each
/// encoded frame encodes its delta.
pub open spec fn frames_encode_deltas(srcs: Seq<SourceFrame>, w: u16, h: u16, bg: Seq<u8>, deltas: Seq<DeltaFrame>, encs: Seq<EncodedFrame>) -> bool {
    let n = (w as int * h as int * 4) as nat;
    &&& deltas.len() == srcs.len()
    &&& encs.len() == srcs.len()
    &&& (forall|i: int| 0 <= i < srcs.len() ==> if i == 0 || srcs.len() <= 1 {
        full_delta(frame_canvas(srcs, i, w as int, n, bg), w, h, srcs[i].delay,
            (#[trigger] deltas[i]))
    } else {
        delta_ok(frame_canvas(srcs, i - 1, w as int, n, bg),
            frame_canvas(srcs, i, w as int, n, bg), w as int, h as int, srcs[i].delay,
            deltas[i])
    })
    &&& (forall|i: int| 0 <= i < srcs.len()
        ==> frame_encoded(deltas[i], #[trigger] encs[i]))
}

/// The encoded frames stand, in order, for the source frames: each one
/// encodes the delta of consecutive disposal-correct canvas snapshots
/// (frame 0, or the only frame, carries the full canvas).
pub open spec fn pipeline_frames(srcs: Seq<SourceFrame>, w: u16, h: u16, bg: Seq<u8>, encs: Seq<EncodedFrame>) -> bool {
    exists|deltas: Seq<DeltaFrame>|
        #[trigger] frames_encode_deltas(srcs, w, h, bg, deltas, encs)
}

/// One concrete composition witness behind `compressed_output`.
pub open spec fn stream_witness(input: Seq<u8>, out: Seq<u8>, w: u16, h: u16, bg: Seq<u8>, encs: Seq<EncodedFrame>) -> bool {
    &&& bg.len() == 4
    &&& pipeline_frames(gif_frames(input), w, h, bg, encs)
    &&& out == gif_stream(w as int, h as int, encs)
}

/// The background fill the pipeline composites with: derived from the
/// header's global palette and background index.
pub open spec fn spec_gif_background(input: Seq<u8>) -> Seq<u8> {
    spec_background(
        gif_palette(input),
        match gif_bg_index(input) {
            Some(i) => i as int,
            None => 0,
        },
    )
}

/// What a successful compression returns: the serialized infinite-looping
/// stream of encoded frames standing, in order, for the frames parsed from
/// the input bytes, composited at the header's canvas size under the
/// header's background color.
pub open spec fn compressed_output(input: Seq<u8>, out: Seq<u8>) -> bool {
    exists|encs: Seq<EncodedFrame>|
        #[trigger] stream_witness(input, out, gif_width(input), gif_height(input),
            spec_gif_background(input), encs)
}

/// Order preservation: however the frames were encoded (the parallel path
/// included), the frame written at position i stands for source frame i —
/// it carries that frame's display delay, and its geometry is its delta's.
pub proof fn lemma_order_preserved(srcs: Seq<SourceFrame>, w: u16, h: u16, bg: Seq<u8>, deltas: Seq<DeltaFrame>, encs: Seq<EncodedFrame>, i: int)
    requires
        frames_encode_deltas(srcs, w, h, bg, deltas, encs),
        0 <= i < srcs.len(),
    ensures
        encs[i].delay == srcs[i].delay,
        encs[i].width == deltas[i].width,
        encs[i].height == deltas[i].height,
        encs[i].left == deltas[i].left,
        encs[i].top == deltas[i].top,
{
}

/// Recompresses a GIF byte stream at the given quality, returning the new
/// container's bytes. The call succeeds exactly on a well-formed container
/// whose canvas fits in memory; a decode failure means the input does not
/// parse; quantizer failures never fail the call, and the in-memory write
/// path cannot fail.
pub fn compress_gif(input: &Vec<u8>, quality: u32) -> (r: Result<Vec<u8>, GifError>)
    ensures
        r matches Ok(out) ==> compressed_output(input@, out@),
        r is Ok <==> gif_parses(input@) && gif_width(input@) as int * gif_height(input@) as int * 4
            <= usize::MAX as int,
        (match r {
            Err(GifError::Decode(_)) => !gif_parses(input@),
            Err(GifError::TooLarge) => gif_width(input@) as int * gif_height(input@) as int * 4
                > usize::MAX as int,
            Err(GifError::Write(_)) => false,
            Ok(_) => true,
        }),
{
    let params = quality_params(quality);

    let (mut decoder, header) = match open_decoder(copy_bytes(input)) {
        Ok(d) => d,
        Err(e) => {
            return Err(e);
        }
    };
    let (w, h) = (header.width, header.height);
    let bg = derive_background(&header.palette, header.bg_index);
    proof {
        match header.palette {
            Some(p) => assert(gif_palette(input@) == Some(p@)),
            None => assert(gif_palette(input@) is None),
        }
        assert(bg@ == spec_gif_background(input@));
    }

    proof {
        assert(w as int * h as int * 4 <= 0xffff * 0xffff * 4) by (nonlinear_arith)
            requires 0 <= w as int <= 0xffff && 0 <= h as int <= 0xffff;
    }
    let canvas_bytes: u64 = (w as u64) * (h as u64) * 4;
    if canvas_bytes > (usize::MAX as u64) {
        return Err(GifError::TooLarge);
    }

    // Phase 1: decode every frame (the decoder hands each out in order).
    let ghost srcs = gif_frames(input@);
    let mut frames: Vec<SourceFrame> = Vec::new();
    let mut reading = true;
    while reading
        invariant
            frames@.len() <= srcs.len(),
            frames@ == srcs.take(frames@.len() as int),
            forall|j: int| 0 <= j < frames@.len() ==> frame_wf(#[trigger] frames@[j]),
            reading ==> dec_remaining(decoder) == srcs.skip(frames@.len() as int),
            reading ==> dec_origin(decoder) == input@,
            reading && gif_parses(input@) ==> dec_parses(decoder),
            !reading ==> frames@.len() == srcs.len(),
            !reading ==> gif_parses(input@),
        decreases srcs.len() - frames@.len() + (if reading { 1int } else { 0int }),
    {
        match read_next_frame(&mut decoder) {
            Ok(Some(f)) => {
                proof {
                    assert(srcs.skip(frames@.len() as int).len() == srcs.len() - frames@.len());
                    assert(f == srcs.skip(frames@.len() as int)[0]);
                    assert(f == srcs[frames@.len() as int]);
                    assert(srcs.skip(frames@.len() as int).skip(1)
                        =~= srcs.skip(frames@.len() + 1 as int));
                    assert(srcs.take(frames@.len() as int).push(srcs[frames@.len() as int])
                        =~= srcs.take(frames@.len() + 1 as int));
                }
                frames.push(f);
            }
            Ok(None) => {
                proof {
                    assert(srcs.skip(frames@.len() as int).len() == srcs.len() - frames@.len());
                }
                reading = false;
            }
            Err(e) => {
                return Err(e);
            }
        }
    }
    proof {
        assert(frames@ =~= srcs);
    }

    let frame_count = frames.len();
    let single = frame_count <= 1;
    let parallel = use_parallel(w, h, frame_count);

    // Phase 2: composite the disposal-aware snapshots, then the deltas
    // (strictly sequential: each depends on the previous snapshot).
    let decoded = compose(&frames, w, h, &bg);
    let ghost n = (w as int * h as int * 4) as nat;
    proof {
        assert forall|i: int| 0 <= i < decoded@.len() implies (#[trigger] decoded@[i]).canvas@.len()
            == w as int * h as int * 4 by {
            lemma_frame_canvas_len(srcs, i, w as int, n, bg@);
        }
    }
    let deltas = extract_deltas(&decoded, w, h, single);
    proof {
        assert forall|i: int| 0 <= i < deltas@.len() implies delta_wf(#[trigger] deltas@[i]) by {
            lemma_frame_canvas_len(srcs, i, w as int, n, bg@);
            if i == 0 || single {
                assert(full_delta(decoded@[i].canvas@, w, h, decoded@[i].delay, deltas@[i]));
            } else {
                assert(delta_ok(decoded@[i - 1].canvas@, decoded@[i].canvas@, w as int, h as int,
                    decoded@[i].delay, deltas@[i]));
            }
        }
    }

    // Phase 3: quantize and LZW pre-encode each frame, in parallel when the
    // schedule allows.
    let encoded = if parallel {
        encode_frames_parallel(&deltas, quality, &params)
    } else {
        encode_frames_sequential(&deltas, quality, &params)
    };

    // Phase 4: write the stream; any failed frame write aborts the call.
    let mut enc = match new_encoder(w, h) {
        Ok(e) => e,
        Err(e) => {
            return Err(e);
        }
    };
    let mut i: usize = 0;
    while i < encoded.len()
        invariant
            i <= encoded@.len(),
            deltas@.len() == encoded@.len(),
            forall|j: int| 0 <= j < encoded@.len()
                ==> frame_encoded(deltas@[j], #[trigger] encoded@[j]),
            enc_written(enc) == encoded@.take(i as int),
            enc_width(enc) == w as int,
            enc_height(enc) == h as int,
        decreases encoded@.len() - i,
    {
        match write_encoded_frame(&mut enc, &encoded[i]) {
            Ok(()) => {
                proof {
                    assert(encoded@.take(i as int).push(encoded@[i as int])
                        =~= encoded@.take(i + 1 as int));
                }
            }
            Err(e) => {
                return Err(e);
            }
        }
        i = i + 1;
    }
    proof {
        assert(encoded@.take(encoded@.len() as int) =~= encoded@);
    }
    match finish_encoder(enc) {
        Ok(out) => {
            proof {
                assert(frames_encode_deltas(srcs, w, h, bg@, deltas@, encoded@));
                assert(pipeline_frames(srcs, w, h, bg@, encoded@));
                assert(stream_witness(input@, out@, w, h, bg@, encoded@));
                assert(compressed_output(input@, out@));
            }
            Ok(out)
        }
        Err(e) => Err(e),
    }
}

} // verus!
