//! Container codec boundary: the frame-level GIF decoder and encoder of the
//! `gif` crate, reached through trusted wrappers.
//!
//! The decoder is modelled as a sequence of frames still to be yielded
//! (`dec_remaining`), fixed at open time to `gif_frames(bytes)` — the frame
//! sequence the container parser extracts from those bytes. The encoder is
//! modelled as the sequence of frames written so far (`enc_written`) plus the
//! canvas size it was created with; finishing it yields
//! `gif_stream(width, height, written)`, the serialized container.

use vstd::prelude::*;
use vstd::string::StringExecFns;
use crate::compose::Disposal;
use crate::compose::SourceFrame;
use crate::compose::frame_wf;
use crate::encode::EncodedFrame;
use crate::encode::encoded_wf;

verus! {

/// Errors surfaced by the GIF pipeline.
#[derive(Debug)]
pub enum GifError {
    /// The container or one of its frames could not be parsed.
    Decode(String),
    /// The output stream could not be produced.
    Write(String),
    /// The canvas is too large for this machine's address space.
    TooLarge,
}

impl GifError {
    /// A short description of the error.
    pub fn message(&self) -> (r: String)
        ensures
            (match self {
                GifError::Decode(m) => r@ == m@,
                GifError::Write(m) => r@ == m@,
                GifError::TooLarge => r@ == "GIF canvas too large"@,
            }),
    {
        match self {
            GifError::Decode(m) => m.clone(),
            GifError::Write(m) => m.clone(),
            GifError::TooLarge => String::from_str("GIF canvas too large"),
        }
    }
}

/// An open frame decoder over an in-memory GIF byte stream. The wrapped
/// `gif::Decoder` cannot be declared to the verifier (its type parameter is
/// bound by `std::io::Read`), so the whole struct is opaque.
#[verifier::external_body]
pub struct FrameDecoder {
    inner: gif::Decoder<std::io::Cursor<Vec<u8>>>,
}

/// An open encoder writing a GIF stream into memory. The wrapped
/// `gif::Encoder` cannot be declared to the verifier (its type parameter is
/// bound by `std::io::Write`), so the whole struct is opaque.
#[verifier::external_body]
pub struct StreamEncoder {
    inner: gif::Encoder<Vec<u8>>,
}

/// The frame sequence that the container parser extracts from a GIF byte
/// stream (a function of the bytes alone).
pub uninterp spec fn gif_frames(bytes: Seq<u8>) -> Seq<SourceFrame>;

/// The logical screen width the container header declares (a function of
/// the bytes alone).
pub uninterp spec fn gif_width(bytes: Seq<u8>) -> u16;

/// The logical screen height the container header declares (a function of
/// the bytes alone).
pub uninterp spec fn gif_height(bytes: Seq<u8>) -> u16;

/// The background color's index into the global palette, as the header
/// declares it (a function of the bytes alone).
pub uninterp spec fn gif_bg_index(bytes: Seq<u8>) -> Option<usize>;

/// The global palette's RGB bytes, if the header carries one (a function of
/// the bytes alone).
pub uninterp spec fn gif_palette(bytes: Seq<u8>) -> Option<Seq<u8>>;

/// The byte stream is a well-formed GIF container: its header and every one
/// of its frames parse (a function of the bytes alone).
pub uninterp spec fn gif_parses(bytes: Seq<u8>) -> bool;

/// The part of this decoder's stream still to be read parses cleanly: every
/// remaining frame, and the terminator after them, will be yielded without
/// error.
pub uninterp spec fn dec_parses(d: FrameDecoder) -> bool;

/// The byte stream a decoder was opened over.
pub uninterp spec fn dec_origin(d: FrameDecoder) -> Seq<u8>;

/// The frames an open decoder has yet to yield.
pub uninterp spec fn dec_remaining(d: FrameDecoder) -> Seq<SourceFrame>;

/// The LZW bitstream (minimum code size byte first) that the `gif` crate
/// produces for an indexed pixel buffer (a function of the indices alone).
pub uninterp spec fn lzw_of(indexed: Seq<u8>) -> Seq<u8>;

/// The frames written to an open encoder so far.
pub uninterp spec fn enc_written(e: StreamEncoder) -> Seq<EncodedFrame>;

/// The canvas width an encoder was created with.
pub uninterp spec fn enc_width(e: StreamEncoder) -> int;

/// The canvas height an encoder was created with.
pub uninterp spec fn enc_height(e: StreamEncoder) -> int;

/// The serialized infinite-looping GIF container holding the given frames at
/// the given canvas size (a function of its arguments alone).
pub uninterp spec fn gif_stream(w: int, h: int, frames: Seq<EncodedFrame>) -> Seq<u8>;

/// The header facts the decoder hands out beside the frames: canvas width
/// and height, background-color index and global palette.
pub struct StreamHeader {
    pub width: u16,
    pub height: u16,
    pub bg_index: Option<usize>,
    pub palette: Option<Vec<u8>>,
}

/// Relies on gif::DecodeOptions::read_info with ColorOutput::RGBA, and on
/// gif::Decoder::width, height, bg_color and global_palette: parses the
/// container header from the bytes and yields a frame decoder (whose frames
/// come out as full-region RGBA buffers) together with the header facts.
/// The background index is one stored byte, so at most 255. A well-formed
/// container always opens, and its decoder starts in a cleanly parsing
/// state; any failure is a decode error.
#[verifier::external_body]
pub(crate) fn open_decoder(bytes: Vec<u8>) -> (r: Result<(FrameDecoder, StreamHeader), GifError>)
    ensures
        gif_parses(bytes@) ==> r is Ok,
        (r matches Err(e) ==> e is Decode),
        r matches Ok(d) ==> dec_remaining(d.0) == gif_frames(bytes@)
            && dec_origin(d.0) == bytes@
            && (gif_parses(bytes@) ==> dec_parses(d.0))
            && d.1.width == gif_width(bytes@)
            && d.1.height == gif_height(bytes@)
            && d.1.bg_index == gif_bg_index(bytes@)
            && (d.1.bg_index matches Some(i) ==> i <= 255)
            && (match d.1.palette {
                Some(p) => gif_palette(bytes@) == Some(p@),
                None => gif_palette(bytes@) is None,
            }),
{
    let mut opts = gif::DecodeOptions::new();
    opts.set_color_output(gif::ColorOutput::RGBA);
    opts.read_info(std::io::Cursor::new(bytes))
        .map(|inner| {
            let hdr = StreamHeader {
                width: inner.width(), height: inner.height(),
                bg_index: inner.bg_color(), palette: inner.global_palette().map(|p| p.to_vec()),
            };
            (FrameDecoder { inner }, hdr)
        })
        .map_err(|e| GifError::Decode(format!("failed to decode GIF: {}", e)))
}

/// Declares the `gif` crate's frame record to the verifier, so wrappers can
/// take and return it; its contents stay opaque.
#[verifier::external_type_specification]
#[verifier::external_body]
pub struct ExFrame<'a>(gif::Frame<'a>);

/// Converts one decoded `gif::Frame` record into plain values, arm for arm
/// on its disposal method.
#[verifier::external_body]
fn convert_frame(fr: &gif::Frame<'static>) -> SourceFrame {
    let disposal = match fr.dispose {
        gif::DisposalMethod::Any => Disposal::Any,
        gif::DisposalMethod::Keep => Disposal::Keep,
        gif::DisposalMethod::Background => Disposal::Background,
        gif::DisposalMethod::Previous => Disposal::Previous,
    };
    SourceFrame {
        left: fr.left, top: fr.top, width: fr.width, height: fr.height,
        delay: fr.delay, disposal, rgba: fr.buffer.to_vec(),
    }
}

/// Relies on gif::Decoder::read_next_frame: yields the next frame (with RGBA
/// output its buffer holds exactly width * height * 4 bytes), or None at the
/// clean end of the stream. On a cleanly parsing stream the read cannot
/// fail and the stream stays cleanly parsing; any failure is a decode error;
/// and a clean end means the decode of the origin bytes ran to completion,
/// so they parse as a whole.
#[verifier::external_body]
pub(crate) fn read_next_frame(d: &mut FrameDecoder) -> (r: Result<
    Option<SourceFrame>,
    GifError,
>)
    ensures
        dec_parses(*old(d)) ==> r is Ok && dec_parses(*final(d)),
        dec_origin(*final(d)) == dec_origin(*old(d)),
        (r matches Err(e) ==> e is Decode),
        r matches Ok(f_opt) ==> (match f_opt {
            Some(f) => dec_remaining(*old(d)).len() > 0 && f == dec_remaining(*old(d))[0]
                && dec_remaining(*final(d)) == dec_remaining(*old(d)).skip(1) && frame_wf(f),
            None => dec_remaining(*old(d)).len() == 0 && gif_parses(dec_origin(*old(d))),
        }),
{
    match d.inner.read_next_frame() {
        Ok(Some(fr)) => Ok(Some(convert_frame(fr))),
        Ok(None) => Ok(None),
        Err(e) => Err(GifError::Decode(format!("failed to read GIF frame: {}", e))),
    }
}

/// Relies on gif::Frame::make_lzw_pre_encoded: compresses an indexed pixel
/// buffer into the LZW bitstream (minimum code size byte first, always
/// between 2 and 8) independently of any encoder state.
#[verifier::external_body]
pub(crate) fn lzw_pre_encode(indexed: &Vec<u8>) -> (r: Vec<u8>)
    ensures
        r@ == lzw_of(indexed@),
        r@.len() >= 1,
        2 <= r@[0] <= 8,
{
    let mut fr = gif::Frame::default();
    fr.buffer = std::borrow::Cow::Owned(indexed.clone());
    fr.make_lzw_pre_encoded();
    fr.buffer.into_owned()
}

/// Relies on gif::Encoder::new and gif::Encoder::set_repeat: opens an
/// in-memory GIF stream at the given canvas size with infinite looping and
/// no global palette. Both only write into the in-memory buffer, so neither
/// can fail.
#[verifier::external_body]
pub(crate) fn new_encoder(w: u16, h: u16) -> (r: Result<StreamEncoder, GifError>)
    ensures
        r is Ok,
        r matches Ok(e) ==> enc_written(e) == Seq::<EncodedFrame>::empty()
            && enc_width(e) == w as int && enc_height(e) == h as int,
{
    let mut enc = gif::Encoder::new(Vec::new(), w, h, &[])
        .map_err(|e| GifError::Write(format!("failed to create GIF encoder: {}", e)))?;
    enc.set_repeat(gif::Repeat::Infinite)
        .map_err(|e| GifError::Write(format!("failed to set GIF looping: {}", e)))?;
    Ok(StreamEncoder { inner: enc })
}

/// Converts one encoded frame record into the `gif::Frame` shape the stream
/// encoder takes, arm for arm on its disposal method.
#[verifier::external_body]
fn frame_record(f: &EncodedFrame) -> gif::Frame<'static> {
    let mut fr = gif::Frame::default();
    fr.width = f.width; fr.height = f.height;
    fr.left = f.left; fr.top = f.top; fr.delay = f.delay;
    fr.dispose = match f.disposal {
        Disposal::Any => gif::DisposalMethod::Any,
        Disposal::Keep => gif::DisposalMethod::Keep,
        Disposal::Background => gif::DisposalMethod::Background,
        Disposal::Previous => gif::DisposalMethod::Previous,
    };
    fr.palette = Some(f.palette_rgb.clone());
    fr.transparent = f.transparent;
    fr.buffer = std::borrow::Cow::Owned(f.lzw.clone());
    fr
}

/// Relies on gif::Encoder::write_lzw_pre_encoded_frame: appends one frame
/// (palette, placement, delay, disposal, pre-encoded LZW data) to the
/// stream. For a structurally valid frame the write cannot fail: the
/// palette fits in a color table, the minimum code size byte is in range,
/// and all writes go into the in-memory buffer.
#[verifier::external_body]
pub(crate) fn write_encoded_frame(e: &mut StreamEncoder, f: &EncodedFrame) -> (r: Result<
    (),
    GifError,
>)
    requires
        encoded_wf(*f),
    ensures
        r is Ok,
        enc_written(*final(e)) == enc_written(*old(e)).push(*f),
        enc_width(*final(e)) == enc_width(*old(e)),
        enc_height(*final(e)) == enc_height(*old(e)),
{
    e.inner.write_lzw_pre_encoded_frame(&frame_record(f))
        .map_err(|e| GifError::Write(format!("failed to write GIF frame: {}", e)))
}

/// Relies on gif::Encoder::into_inner: writes the trailer into the
/// in-memory buffer (which cannot fail) and hands back the serialized
/// container bytes.
#[verifier::external_body]
pub(crate) fn finish_encoder(e: StreamEncoder) -> (r: Result<Vec<u8>, GifError>)
    ensures
        r is Ok,
        r matches Ok(out) ==> out@ == gif_stream(enc_width(e), enc_height(e), enc_written(e)),
{
    e.inner.into_inner().map_err(|e| GifError::Write(format!("failed to finish GIF stream: {}", e)))
}

} // verus!
