use cuthulhu::trace::{
    attr_value, decode_and_downscale, decode_budget, finish_trace, mirror_fill_onto_stroke,
    needs_downscale, prepare_pixels, prepare_trace, preview_png, strip_empty_paths, validate,
    RgbaPixels, TraceError, TraceMode, MAX_DIM,
};
use image::RgbaImage;
use std::io::Cursor;

fn png_bytes(img: &RgbaImage) -> Vec<u8> {
    let mut buf = Cursor::new(Vec::new());
    img.write_to(&mut buf, image::ImageFormat::Png).unwrap();
    buf.into_inner()
}

fn black_square(w: u32, h: u32, sq: u32) -> RgbaImage {
    RgbaImage::from_fn(w, h, |x, y| {
        let inside = x >= (w - sq) / 2 && x < (w + sq) / 2 && y >= (h - sq) / 2 && y < (h + sq) / 2;
        if inside {
            image::Rgba([0, 0, 0, 255])
        } else {
            image::Rgba([255, 255, 255, 255])
        }
    })
}

#[test]
fn decode_rejects_garbage() {
    assert!(matches!(decode_and_downscale(b"not an image"), Err(TraceError::Decode(_))));
}

#[test]
fn decode_passes_small_images_through() {
    let bytes = png_bytes(&black_square(100, 50, 20));
    let (img, downscaled) = decode_and_downscale(&bytes).unwrap();
    assert_eq!((img.width, img.height), (100, 50));
    assert!(!downscaled);
    let expected = black_square(100, 50, 20).into_raw();
    assert_eq!(img.data, expected, "the pixels come back as they were encoded");
}

#[test]
fn decode_downscales_above_cap_preserving_aspect() {
    let bytes = png_bytes(&black_square(3000, 1000, 200));
    let (img, downscaled) = decode_and_downscale(&bytes).unwrap();
    assert!(downscaled);
    assert_eq!(img.width, 2048);
    // Fitting within the box keeps the aspect: 1000 * 2048/3000 is about 682.
    assert!((680..=684).contains(&img.height));
    assert_eq!(img.data.len(), 4 * img.width as usize * img.height as usize);
}

#[test]
fn preview_png_refuses_non_image_data() {
    assert!(matches!(preview_png(b"root:x:0:0:root:/root:/bin/sh\n"), Err(TraceError::Decode(_))));
    let ok = preview_png(&png_bytes(&black_square(64, 64, 16))).unwrap();
    assert_eq!(&ok[1..4], b"PNG");
}

#[test]
fn trace_rejects_invalid_options_before_decoding() {
    assert!(matches!(
        prepare_trace(b"irrelevant", 17, 60, true, 6, TraceMode::Binary),
        Err(TraceError::InvalidOption(_))
    ));
}

#[test]
fn a_readied_image_is_fed_with_its_decoded_size() {
    let bytes = png_bytes(&black_square(40, 30, 10));
    let t = match prepare_trace(&bytes, 4, 60, true, 6, TraceMode::Binary) {
        Ok(t) => t,
        Err(e) => panic!("{}", e.message()),
    };
    assert_eq!((t.width, t.height, t.downscaled, t.padded), (40, 30, false, false));
    assert_eq!((t.fed.width, t.fed.height), (40, 30));
}

#[test]
fn empty_result_displays_empty_sentinel() {
    assert_eq!(TraceError::EmptyResult.message(), "empty");
}

#[test]
fn every_trace_refusal_has_a_sentence() {
    assert_eq!(TraceError::InvalidOption("x".into()).message(), "invalid option: x");
    assert_eq!(TraceError::Decode("x".into()).message(), "could not read image: x");
    assert_eq!(TraceError::Trace("x".into()).message(), "trace failed: x");
    assert_eq!(TraceError::Input("the file a.png could not be read".into()).message(), "the file a.png could not be read");
}

#[test]
fn strip_empty_paths_counts_only_real_geometry() {
    let svg = "<svg>\n<path d=\"M0 0 L1 1 Z\" fill=\"#000\"/>\n<path d=\"\" fill=\"#111\"/>\n</svg>";
    let (out, n) = strip_empty_paths(svg);
    assert_eq!(n, 1);
    assert!(!out.contains("d=\"\""));
    assert!(out.contains("M0 0 L1 1 Z"));
}

fn length_ok(v: f64) -> bool {
    (3.5..=10.0).contains(&v)
}

#[test]
fn validate_rejects_out_of_range() {
    assert!(matches!(validate(17, 60, length_ok(4.0), 6), Err(TraceError::InvalidOption(m)) if m.contains("filter_speckle")));
    assert!(matches!(validate(4, 60, length_ok(4.0), 0), Err(TraceError::InvalidOption(m)) if m.contains("color_precision")));
    assert!(matches!(validate(4, 60, length_ok(11.0), 6), Err(TraceError::InvalidOption(m)) if m.contains("length_threshold")));
    assert!(matches!(validate(4, 181, length_ok(4.0), 6), Err(TraceError::InvalidOption(m)) if m.contains("corner_threshold")));
    assert!(validate(4, 60, length_ok(4.0), 6).is_ok());
}

#[test]
fn decode_rejects_a_decompression_bomb() {
    assert!(matches!(decode_budget(20000, 20000), Err(TraceError::Decode(m)) if m.contains("too large to decode")));
    assert!(decode_budget(3000, 1000).is_ok());
}

#[test]
fn an_image_larger_than_the_cap_is_downscaled() {
    assert!(needs_downscale(3000, 1000));
    assert!(!needs_downscale(100, 50));
    assert!(!needs_downscale(MAX_DIM, MAX_DIM));
}

fn image(width: u32, height: u32, px: [u8; 4]) -> RgbaPixels {
    let mut data = Vec::new();
    for _ in 0..(width * height) {
        data.extend_from_slice(&px);
    }
    RgbaPixels { width, height, data }
}

#[test]
fn a_fully_transparent_image_traces_to_nothing() {
    for mode in [TraceMode::Binary, TraceMode::Color] {
        assert!(matches!(prepare_pixels(image(4, 4, [0, 0, 0, 0]), mode), Err(TraceError::EmptyResult)));
    }
}

#[test]
fn transparency_is_empty_regardless_of_its_hidden_color() {
    let (black, _) = prepare_pixels(image(2, 2, [0, 0, 0, 0]).with_corner([9, 9, 9, 255]), TraceMode::Binary).unwrap();
    let (white, _) = prepare_pixels(image(2, 2, [255, 255, 255, 0]).with_corner([9, 9, 9, 255]), TraceMode::Binary).unwrap();
    assert_eq!(black.data, white.data, "only alpha decides what is background");
}

#[test]
fn a_transparent_background_traces_like_a_white_one() {
    let (transparent, pad) = prepare_pixels(image(2, 2, [0, 0, 0, 0]).with_corner([0, 0, 0, 255]), TraceMode::Binary).unwrap();
    let (white, _) = prepare_pixels(image(2, 2, [255, 255, 255, 255]).with_corner([0, 0, 0, 255]), TraceMode::Binary).unwrap();
    assert!(!pad);
    assert_eq!(transparent.data, white.data);
}

#[test]
fn a_transparent_background_is_keyed_out_in_color_mode() {
    let (fed, padded) = prepare_pixels(image(2, 2, [0, 0, 0, 0]).with_corner([255, 0, 0, 255]), TraceMode::Color).unwrap();
    assert!(padded, "a transparent row is added so the tracer keys the transparency out");
    assert_eq!(fed.height, 3);
    assert_eq!(fed.data.len(), 2 * 3 * 4);
    assert!(fed.data[16..].iter().all(|&b| b == 0));
    let (opaque, padded) = prepare_pixels(image(2, 2, [255, 0, 0, 255]), TraceMode::Color).unwrap();
    assert!(!padded);
    assert_eq!(opaque.height, 2);
}

trait Corner {
    fn with_corner(self, px: [u8; 4]) -> Self;
}

impl Corner for RgbaPixels {
    fn with_corner(mut self, px: [u8; 4]) -> Self {
        self.data[..4].copy_from_slice(&px);
        self
    }
}

#[test]
fn traced_paths_are_stroked_so_they_can_be_cut() {
    let line = "<path d=\"M0 0 L1 1 Z\" fill=\"#ff0000\" transform=\"translate(1,1)\"/>";
    let out = mirror_fill_onto_stroke(line);
    assert_eq!(attr_value(&out, "stroke"), Some("#ff0000".to_string()));
    assert_eq!(attr_value(&out, "fill"), Some("#ff0000".to_string()));
}

#[test]
fn mirroring_twice_is_mirroring_once() {
    for line in [
        "<path d=\"M0 0\" fill=\"#ff0000\"/>",
        "<path d=\"M0 0\" fill=\"#00ff00\" stroke=\"#000\"/>",
        "<path d=\"M0 0\"/>",
        "<path fill=\"a\" d=\"M1 1\" fill=\"b\"/>",
    ] {
        let once = mirror_fill_onto_stroke(line);
        assert_eq!(mirror_fill_onto_stroke(&once), once);
    }
    assert_eq!(
        mirror_fill_onto_stroke("<path d=\"M0 0\" fill=\"#ff0000\"/>"),
        "<path d=\"M0 0\" fill=\"#ff0000\" stroke=\"#ff0000\"/>"
    );
}

#[test]
fn geometry_free_paths_do_not_count_as_a_trace() {
    let svg = "<svg height=\"5\">\n<path d=\"\" fill=\"#111\"/>\n</svg>";
    assert!(matches!(finish_trace(svg, 4, 4, 5, true, false), Err(TraceError::EmptyResult)));
}

#[test]
fn a_padded_trace_reports_the_image_height_it_was_given() {
    let svg = "<svg width=\"4\" height=\"5\">\n<path d=\"M0 0 L1 1 Z\" fill=\"#000000\"/>\n</svg>";
    let result = finish_trace(svg, 4, 4, 5, true, false).unwrap();
    assert_eq!(result.path_count, 1);
    assert!(result.svg.contains("height=\"4\""), "{}", result.svg);
    assert!(!result.svg.contains("height=\"5\""));
    assert_eq!((result.width_px, result.height_px, result.downscaled), (4, 4, false));
}
