//! Unit tests for the compositor, delta extractor, quality tiers, scheduler,
//! lossy alignment and the shared utilities.

use picslim::align::lossy_pixel_align;
use picslim::compose::compose;
use picslim::compose::DecodedFrame;
use picslim::compose::Disposal;
use picslim::compose::SourceFrame;
use picslim::delta::extract_deltas;
use picslim::quality::quality_params;
use picslim::result::failure_result;
use picslim::result::keep_compressed;
use picslim::result::success_result;
use picslim::schedule::use_parallel;
use picslim::utils::detect_format;
use picslim::utils::format_file_size;
use picslim::utils::ImageFormat;

fn px(r: u8, g: u8, b: u8, a: u8) -> Vec<u8> {
    vec![r, g, b, a]
}

fn repeat_px(p: &[u8], count: usize) -> Vec<u8> {
    let mut out = Vec::new();
    for _ in 0..count {
        out.extend_from_slice(p);
    }
    out
}

#[test]
fn disposal_methods_composite_as_expected() {
    // 2x2 canvas; three frames using Background, Previous and Keep in turn.
    let red = [255u8, 0, 0, 255];
    let green = [0u8, 255, 0, 255];
    let blue = [0u8, 0, 255, 255];
    let bg = px(9, 9, 9, 255);

    let frames = vec![
        SourceFrame {
            left: 0,
            top: 0,
            width: 2,
            height: 2,
            delay: 10,
            disposal: Disposal::Background,
            rgba: repeat_px(&red, 4),
        },
        SourceFrame {
            left: 0,
            top: 0,
            width: 1,
            height: 1,
            delay: 20,
            disposal: Disposal::Previous,
            rgba: green.to_vec(),
        },
        SourceFrame {
            left: 1,
            top: 1,
            width: 1,
            height: 1,
            delay: 30,
            disposal: Disposal::Keep,
            rgba: blue.to_vec(),
        },
    ];

    let decoded = compose(&frames, 2, 2, &bg);
    assert_eq!(decoded.len(), 3);

    // Frame 0: the red frame covers the whole canvas.
    assert_eq!(decoded[0].canvas, repeat_px(&red, 4));
    assert_eq!(decoded[0].delay, 10);

    // Frame 1: after the Background disposal the canvas is all background;
    // the green pixel lands at (0, 0).
    let mut expect1 = Vec::new();
    expect1.extend_from_slice(&green);
    expect1.extend_from_slice(&bg);
    expect1.extend_from_slice(&bg);
    expect1.extend_from_slice(&bg);
    assert_eq!(decoded[1].canvas, expect1);

    // Frame 2: the Previous disposal restored the all-background canvas, so
    // only the blue pixel at (1, 1) differs.
    let mut expect2 = Vec::new();
    expect2.extend_from_slice(&bg);
    expect2.extend_from_slice(&bg);
    expect2.extend_from_slice(&bg);
    expect2.extend_from_slice(&blue);
    assert_eq!(decoded[2].canvas, expect2);
}

#[test]
fn transparent_source_pixels_never_overwrite() {
    let red = [200u8, 0, 0, 255];
    let clear = [77u8, 88, 99, 0];
    let bg = px(0, 0, 0, 0);
    let frames = vec![
        SourceFrame {
            left: 0,
            top: 0,
            width: 2,
            height: 1,
            delay: 1,
            disposal: Disposal::Keep,
            rgba: repeat_px(&red, 2),
        },
        SourceFrame {
            left: 0,
            top: 0,
            width: 2,
            height: 1,
            delay: 1,
            disposal: Disposal::Keep,
            rgba: [clear, [1, 2, 3, 255]].concat(),
        },
    ];
    let decoded = compose(&frames, 2, 1, &bg);
    // The fully transparent pixel leaves the red canvas pixel in place.
    assert_eq!(decoded[1].canvas, [[200u8, 0, 0, 255], [1, 2, 3, 255]].concat());
}

#[test]
fn identical_frames_give_noop_delta() {
    let canvas = repeat_px(&[5, 6, 7, 255], 20); // 5x4 canvas
    let decoded = vec![
        DecodedFrame { canvas: canvas.clone(), delay: 3 },
        DecodedFrame { canvas: canvas.clone(), delay: 4 },
    ];
    let deltas = extract_deltas(&decoded, 5, 4, false);
    assert_eq!(deltas.len(), 2);
    assert_eq!(deltas[1].width, 1);
    assert_eq!(deltas[1].height, 1);
    assert_eq!(deltas[1].left, 0);
    assert_eq!(deltas[1].top, 0);
    assert_eq!(deltas[1].rgba, vec![0, 0, 0, 0]);
    assert_eq!(deltas[1].delay, 4);
}

#[test]
fn single_changed_pixel_gives_one_by_one_delta() {
    let w = 8usize;
    let h = 6usize;
    let base = repeat_px(&[10, 10, 10, 255], w * h);
    let mut changed = base.clone();
    let (x, y) = (3usize, 2usize);
    let idx = (y * w + x) * 4;
    changed[idx] = 250;
    changed[idx + 1] = 1;
    changed[idx + 2] = 2;

    let decoded = vec![
        DecodedFrame { canvas: base, delay: 1 },
        DecodedFrame { canvas: changed, delay: 2 },
    ];
    let deltas = extract_deltas(&decoded, w as u16, h as u16, false);
    assert_eq!(deltas[1].left, 3);
    assert_eq!(deltas[1].top, 2);
    assert_eq!(deltas[1].width, 1);
    assert_eq!(deltas[1].height, 1);
    assert_eq!(deltas[1].rgba, vec![250, 1, 2, 255]);
}

#[test]
fn bounding_box_spans_all_changed_pixels() {
    let w = 10usize;
    let h = 8usize;
    let base = repeat_px(&[0, 0, 0, 255], w * h);
    let mut changed = base.clone();
    for &(x, y) in &[(2usize, 1usize), (6, 5)] {
        let idx = (y * w + x) * 4;
        changed[idx] = 99;
    }
    let decoded = vec![
        DecodedFrame { canvas: base, delay: 1 },
        DecodedFrame { canvas: changed, delay: 1 },
    ];
    let deltas = extract_deltas(&decoded, w as u16, h as u16, false);
    assert_eq!(deltas[1].left, 2);
    assert_eq!(deltas[1].top, 1);
    assert_eq!(deltas[1].width, 5);
    assert_eq!(deltas[1].height, 5);
    // Unchanged pixels inside the box are rewritten as fully transparent.
    let region = &deltas[1].rgba;
    assert_eq!(region.len(), 5 * 5 * 4);
    assert_eq!(&region[0..4], &[99, 0, 0, 255]); // (2,1): changed
    assert_eq!(&region[4..8], &[0, 0, 0, 0]); // (3,1): unchanged
}

#[test]
fn first_frame_delta_is_full_canvas() {
    let canvas = repeat_px(&[1, 2, 3, 255], 6);
    let decoded = vec![DecodedFrame { canvas: canvas.clone(), delay: 7 }];
    let deltas = extract_deltas(&decoded, 3, 2, true);
    assert_eq!(deltas.len(), 1);
    assert_eq!(deltas[0].width, 3);
    assert_eq!(deltas[0].height, 2);
    assert_eq!(deltas[0].left, 0);
    assert_eq!(deltas[0].top, 0);
    assert_eq!(deltas[0].rgba, canvas);
    assert_eq!(deltas[0].delay, 7);
}

#[test]
fn quality_tier_boundaries() {
    let q90 = quality_params(90);
    let q89 = quality_params(89);
    assert_eq!(q90.dithering_pct, 65);
    assert_eq!(q90.lossy_tolerance, 0);
    assert_eq!(q89.dithering_pct, 45);
    assert_eq!(q89.lossy_tolerance, 2);
    assert_ne!((q90.dithering_pct, q90.lossy_tolerance), (q89.dithering_pct, q89.lossy_tolerance));

    let q75 = quality_params(75);
    let q74 = quality_params(74);
    assert_eq!(q75.dithering_pct, 45);
    assert_eq!(q75.lossy_tolerance, 2);
    assert_eq!(q74.dithering_pct, 25);
    assert_eq!(q74.lossy_tolerance, 4);
    assert_ne!((q75.dithering_pct, q75.lossy_tolerance), (q74.dithering_pct, q74.lossy_tolerance));
}

#[test]
fn scheduling_boundary() {
    // A single frame always goes sequential, whatever the size.
    assert!(!use_parallel(1, 1, 1));
    assert!(!use_parallel(4096, 4096, 1));

    // A small multi-frame animation goes parallel.
    assert!(use_parallel(8, 8, 2));

    // 1024 * 1024 * 4 bytes per frame: 128 frames sit exactly on the
    // 512 MiB boundary (sequential); 127 sit below it (parallel).
    assert!(!use_parallel(1024, 1024, 128));
    assert!(use_parallel(1024, 1024, 127));

    // With 1x1 frames the estimate moves in 4-byte steps around the bound.
    let limit_frames = (512usize * 1024 * 1024) / 4;
    assert!(!use_parallel(1, 1, limit_frames));
    assert!(use_parallel(1, 1, limit_frames - 1));
}

#[test]
fn lossy_alignment_snaps_similar_neighbors() {
    // Two pixels, three channels each within the tolerance: the right one
    // takes the left one's RGB and keeps its alpha.
    let rgba = vec![100, 100, 100, 255, 102, 99, 101, 200];
    let out = lossy_pixel_align(&rgba, 2, 1, 2);
    assert_eq!(out, vec![100, 100, 100, 255, 100, 100, 100, 200]);

    // One channel outside the tolerance: untouched.
    let rgba = vec![100, 100, 100, 255, 104, 100, 100, 255];
    let out = lossy_pixel_align(&rgba, 2, 1, 2);
    assert_eq!(out, rgba);

    // A transparent neighbor is never merged.
    let rgba = vec![100, 100, 100, 0, 101, 100, 100, 255];
    let out = lossy_pixel_align(&rgba, 2, 1, 4);
    assert_eq!(out, rgba);

    // Each pixel is compared against the already snapped value of its left
    // neighbor: 12 snaps to 10, but 14 is then 4 away from the snapped 10
    // and stays.
    let rgba = vec![10, 0, 0, 255, 12, 0, 0, 255, 14, 0, 0, 255];
    let out = lossy_pixel_align(&rgba, 3, 1, 2);
    assert_eq!(out, vec![10, 0, 0, 255, 10, 0, 0, 255, 14, 0, 0, 255]);

    // Row starts never snap across rows.
    let rgba = vec![10, 0, 0, 255, 11, 0, 0, 255];
    let out = lossy_pixel_align(&rgba, 1, 2, 4);
    assert_eq!(out, rgba);
}

#[test]
fn alignment_is_idempotent_and_within_tolerance() {
    // 4x2 buffer mixing snappable runs, a transparent pixel and far-apart
    // colors; a second pass changes nothing and every RGB byte moves by at
    // most the tolerance while alpha stays exact.
    let rgba = vec![
        10, 20, 30, 255, 12, 21, 29, 255, 200, 200, 200, 0, 13, 22, 31, 255,
        50, 60, 70, 255, 52, 61, 69, 255, 54, 62, 68, 255, 90, 91, 92, 255,
    ];
    let once = lossy_pixel_align(&rgba, 4, 2, 3);
    let twice = lossy_pixel_align(&once, 4, 2, 3);
    assert_eq!(once, twice);
    for (i, (&a, &b)) in once.iter().zip(rgba.iter()).enumerate() {
        if i % 4 == 3 {
            assert_eq!(a, b, "alpha changed at byte {}", i);
        } else {
            assert!((a as i32 - b as i32).abs() <= 3, "byte {} drifted", i);
        }
    }
}

#[test]
fn detect_format_variants() {
    assert_eq!(detect_format("photo.jpg"), Some(ImageFormat::Jpeg));
    assert_eq!(detect_format("photo.JPEG"), Some(ImageFormat::Jpeg));
    assert_eq!(detect_format("a/b/c.PnG"), Some(ImageFormat::Png));
    assert_eq!(detect_format("anim.gif"), Some(ImageFormat::Gif));
    assert_eq!(detect_format("archive.tar"), None);
    assert_eq!(detect_format("noext"), None);
    assert_eq!(detect_format(".gif"), None);
    assert_eq!(detect_format("dir.gif/file"), None);
    assert_eq!(detect_format("x..gif"), Some(ImageFormat::Gif));
    // Trailing separators and lone-dot components carry no file name and
    // are ignored, as path inspection ignores them.
    assert_eq!(detect_format("a/b.jpg/"), Some(ImageFormat::Jpeg));
    assert_eq!(detect_format("a/b.GIF/."), Some(ImageFormat::Gif));
    assert_eq!(detect_format("a/b.png//"), Some(ImageFormat::Png));
    assert_eq!(detect_format("a/b.jpg/./."), Some(ImageFormat::Jpeg));
    assert_eq!(detect_format("a/."), None);
    assert_eq!(detect_format("/"), None);
    assert_eq!(detect_format("."), None);
}

#[test]
fn detect_format_matches_path_extension() {
    let cases = [
        "photo.jpg", "photo.JPEG", "a/b/c.PnG", "anim.gif", "archive.tar",
        "noext", ".gif", "dir.gif/file", "x..gif", "a/b.jpg/", "a/b.GIF/.",
        "a/b.png//", "a/b.jpg/./.", "a/.", "/", ".", "b.jpg/..", "a.",
        "a.gif.", "UPPER.GIF", "deep/.hidden", "deep/.hidden.png",
    ];
    for p in cases {
        let expect = std::path::Path::new(p)
            .extension()
            .and_then(|e| e.to_str())
            .map(|e| e.to_lowercase())
            .and_then(|e| match e.as_str() {
                "jpg" | "jpeg" => Some(ImageFormat::Jpeg),
                "png" => Some(ImageFormat::Png),
                "gif" => Some(ImageFormat::Gif),
                _ => None,
            });
        assert_eq!(detect_format(p), expect, "path {:?}", p);
    }
}

#[test]
fn format_file_size_exact_values() {
    assert_eq!(format_file_size(0), "0 B");
    assert_eq!(format_file_size(1023), "1023 B");
    assert_eq!(format_file_size(1024), "1.0 KB");
    assert_eq!(format_file_size(1536), "1.5 KB");
    // 1280 * 10 / 1024 = 12.5: ties round to the even neighbor, 12.
    assert_eq!(format_file_size(1280), "1.2 KB");
    assert_eq!(format_file_size(1048575), "1024.0 KB");
    assert_eq!(format_file_size(1048576), "1.0 MB");
    assert_eq!(format_file_size(1572864), "1.5 MB");
}

#[test]
fn format_file_size_matches_float_rendering() {
    for b in 1024u64..4096 {
        let expect = format!("{:.1} KB", b as f64 / 1024.0);
        assert_eq!(format_file_size(b), expect, "bytes = {}", b);
    }
    for b in [1048576u64, 1398101, 5242880, 10485760, 123456789] {
        let expect = format!("{:.1} MB", b as f64 / (1024.0 * 1024.0));
        assert_eq!(format_file_size(b), expect, "bytes = {}", b);
    }
}

#[test]
fn compression_result_policy() {
    assert!(keep_compressed(100, 99));
    assert!(!keep_compressed(100, 100));
    assert!(!keep_compressed(100, 101));

    let ok = success_result(100, 42, "out.gif".to_string());
    assert!(ok.success);
    assert_eq!(ok.original_size, 100);
    assert_eq!(ok.compressed_size, 42);
    assert_eq!(ok.output_path, "out.gif");
    assert!(ok.error.is_none());

    let bad = failure_result(100, "out.gif".to_string(), "boom".to_string());
    assert!(!bad.success);
    assert_eq!(bad.compressed_size, 0);
    assert_eq!(bad.error.as_deref(), Some("boom"));
}
