//! End-to-end tests of the GIF recompression pipeline: order preservation
//! under parallel encoding, the quantizer-failure fallback, decode errors and
//! the moving-square scenario.

use picslim::delta::DeltaFrame;
use picslim::compose::Disposal;
use picslim::encode::encode_single_frame;
use picslim::pipeline::compress_gif;
use picslim::quality::quality_params;
use picslim::stream::GifError;

/// Serializes full-canvas RGBA frames into a GIF byte stream.
fn make_gif(w: u16, h: u16, frames: &[Vec<u8>]) -> Vec<u8> {
    let mut out = Vec::new();
    {
        let mut enc = gif::Encoder::new(&mut out, w, h, &[]).unwrap();
        enc.set_repeat(gif::Repeat::Infinite).unwrap();
        for f in frames {
            let mut buf = f.clone();
            let frame = gif::Frame::from_rgba(w, h, &mut buf);
            enc.write_frame(&frame).unwrap();
        }
    }
    out
}

/// Decodes a GIF byte stream into its frames (geometry only matters here).
fn decode_frames(bytes: &[u8]) -> (u16, u16, Vec<gif::Frame<'static>>) {
    let mut opts = gif::DecodeOptions::new();
    opts.set_color_output(gif::ColorOutput::RGBA);
    let mut reader = opts.read_info(bytes).unwrap();
    let w = reader.width();
    let h = reader.height();
    let mut frames = Vec::new();
    while let Some(f) = reader.read_next_frame().unwrap() {
        frames.push(f.clone());
    }
    (w, h, frames)
}

fn solid(w: usize, h: usize, color: [u8; 4]) -> Vec<u8> {
    let mut v = Vec::with_capacity(w * h * 4);
    for _ in 0..w * h {
        v.extend_from_slice(&color);
    }
    v
}

#[test]
fn parallel_path_preserves_frame_order() {
    // 8x1 canvas, 5 frames; frame i colors pixels 0..=i, so the delta of
    // frame i (i >= 1) is exactly the single pixel at x = i. The input is
    // small and multi-frame, so the parallel path is taken.
    let w = 8usize;
    let colors = [
        [255u8, 0, 0, 255],
        [0u8, 255, 0, 255],
        [0u8, 0, 255, 255],
        [255u8, 255, 0, 255],
        [0u8, 255, 255, 255],
    ];
    let mut frames = Vec::new();
    for i in 0..5 {
        let mut f = solid(w, 1, [255, 255, 255, 255]);
        for x in 0..=i {
            f[x * 4..x * 4 + 4].copy_from_slice(&colors[x]);
        }
        frames.push(f);
    }
    let input = make_gif(w as u16, 1, &frames);
    let output = compress_gif(&input, 80).unwrap();

    let (ow, oh, out_frames) = decode_frames(&output);
    assert_eq!((ow, oh), (8, 1));
    assert_eq!(out_frames.len(), 5);
    // Frame 0 carries the full canvas; every later frame is the 1x1 delta
    // at exactly its own x position, in source order.
    assert_eq!(out_frames[0].left, 0);
    assert_eq!(out_frames[0].width, 8);
    for i in 1..5 {
        assert_eq!(out_frames[i].left, i as u16, "frame {} out of order", i);
        assert_eq!(out_frames[i].top, 0);
        assert_eq!(out_frames[i].width, 1);
        assert_eq!(out_frames[i].height, 1);
    }
    // Delta frames are written with the Keep disposal and the source delay.
    for f in &out_frames {
        assert_eq!(f.dispose, gif::DisposalMethod::Keep);
        assert_eq!(f.delay, 0);
    }
}

#[test]
fn fallback_survives_degenerate_frames() {
    let params = quality_params(80);

    // Zero-size region: the quantizer rejects it, the fallback still
    // produces a structurally valid frame.
    let empty = DeltaFrame {
        rgba: Vec::new(),
        width: 0,
        height: 0,
        left: 0,
        top: 0,
        delay: 1,
        disposal: Disposal::Keep,
    };
    let e = encode_single_frame(&empty, 80, &params);
    assert_eq!(e.width, 0);
    assert_eq!(e.height, 0);
    assert_eq!(e.palette_rgb.len() % 3, 0);
    assert!(e.palette_rgb.len() <= 768);
    assert!(!e.lzw.is_empty());
    assert!(2 <= e.lzw[0] && e.lzw[0] <= 8);

    // 1x1 fully transparent frame.
    let tiny = DeltaFrame {
        rgba: vec![0, 0, 0, 0],
        width: 1,
        height: 1,
        left: 0,
        top: 0,
        delay: 1,
        disposal: Disposal::Keep,
    };
    let e = encode_single_frame(&tiny, 80, &params);
    assert_eq!(e.width, 1);
    assert_eq!(e.height, 1);
    assert!(!e.lzw.is_empty());
    if let Some(t) = e.transparent {
        assert!((t as usize) * 3 < e.palette_rgb.len());
    }
}

#[test]
fn out_of_range_quality_still_encodes() {
    // The quantizer rejects a quality above 100, so the direct-conversion
    // fallback carries the frame.
    let params = quality_params(255);
    let df = DeltaFrame {
        rgba: vec![10, 20, 30, 255, 40, 50, 60, 255],
        width: 2,
        height: 1,
        left: 0,
        top: 0,
        delay: 1,
        disposal: Disposal::Keep,
    };
    let e = encode_single_frame(&df, 255, &params);
    assert_eq!(e.width, 2);
    assert!(!e.palette_rgb.is_empty());
    assert!(!e.lzw.is_empty());
}

#[test]
fn garbage_input_is_a_decode_error() {
    let garbage = vec![1u8, 2, 3, 4, 5, 6, 7, 8];
    let r = compress_gif(&garbage, 80);
    assert!(matches!(r, Err(GifError::Decode(_))));
}

#[test]
fn truncated_stream_is_a_decode_error() {
    let input = make_gif(4, 4, &[solid(4, 4, [1, 2, 3, 255])]);
    let truncated = input[..input.len() / 2].to_vec();
    let r = compress_gif(&truncated, 80);
    assert!(r.is_err());
}

#[test]
fn single_frame_gif_compresses() {
    let input = make_gif(16, 16, &[solid(16, 16, [120, 130, 140, 255])]);
    let output = compress_gif(&input, 90).unwrap();
    let (w, h, frames) = decode_frames(&output);
    assert_eq!((w, h), (16, 16));
    assert_eq!(frames.len(), 1);
    assert_eq!(frames[0].width, 16);
    assert_eq!(frames[0].height, 16);
}

#[test]
fn moving_square_scenario() {
    // 10 frames of 100x100: a white canvas with a 5x5 black square moving
    // right by 5 pixels each frame. The output must hold exactly 10 frames
    // and be smaller than the input, which re-encodes every frame at full
    // canvas size.
    let w = 100usize;
    let h = 100usize;
    let mut frames = Vec::new();
    for i in 0..10usize {
        let mut f = solid(w, h, [255, 255, 255, 255]);
        for dy in 0..5usize {
            for dx in 0..5usize {
                let x = 5 * i + dx;
                let y = 10 + dy;
                let idx = (y * w + x) * 4;
                f[idx..idx + 4].copy_from_slice(&[0, 0, 0, 255]);
            }
        }
        frames.push(f);
    }
    let input = make_gif(w as u16, h as u16, &frames);
    let output = compress_gif(&input, 80).unwrap();

    let (ow, oh, out_frames) = decode_frames(&output);
    assert_eq!((ow, oh), (100, 100));
    assert_eq!(out_frames.len(), 10);
    assert!(
        output.len() < input.len(),
        "output {} not smaller than full-frame input {}",
        output.len(),
        input.len()
    );
    // Each delta after frame 0 covers only the square's neighborhood, not
    // the whole canvas.
    for f in &out_frames[1..] {
        assert!(f.width <= 10, "delta width {} too wide", f.width);
        assert!(f.height <= 5, "delta height {} too tall", f.height);
    }
}

#[test]
fn error_message_is_reported() {
    let garbage = vec![0u8; 3];
    match compress_gif(&garbage, 50) {
        Err(e) => {
            let m = e.message();
            assert!(!m.is_empty());
        }
        Ok(_) => panic!("garbage decoded"),
    }
}
