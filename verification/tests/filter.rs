use bubly::cli::{default_config, error_message, parse_args, ProgramError};
use bubly::compose::bubly_mix;
use bubly::mask::pixel_uses_overlay;
use bubly::raster::{rotate270, Raster};
use bubly::ratio::{default_ratio, parse_ratio, Ratio};

fn solid(width: u32, height: u32, rgba: [u8; 4]) -> Raster {
    let mut data = Vec::new();
    for _ in 0..width * height {
        data.extend_from_slice(&rgba);
    }
    Raster::new(width, height, data).unwrap()
}

fn pixel(img: &Raster, x: u32, y: u32) -> [u8; 4] {
    let i = (4 * (y * img.width + x)) as usize;
    [img.data[i], img.data[i + 1], img.data[i + 2], img.data[i + 3]]
}

#[test]
fn parse_ratio_plain_decimals() {
    assert_eq!(parse_ratio("0.1"), Some(Ratio { num: 1, den: 10 }));
    assert_eq!(parse_ratio("0.2"), Some(Ratio { num: 2, den: 10 }));
    assert_eq!(parse_ratio("0.001"), Some(Ratio { num: 1, den: 1000 }));
    assert_eq!(parse_ratio("2"), Some(Ratio { num: 2, den: 1 }));
    assert_eq!(parse_ratio("12.34"), Some(Ratio { num: 1234, den: 100 }));
    assert_eq!(parse_ratio("0000.0001"), Some(Ratio { num: 1, den: 10000 }));
    assert_eq!(parse_ratio("10000"), Some(Ratio { num: 10000, den: 1 }));
}

#[test]
fn parse_ratio_rejects_junk() {
    assert_eq!(parse_ratio(""), None);
    assert_eq!(parse_ratio("abc"), None);
    assert_eq!(parse_ratio("-1"), None);
    assert_eq!(parse_ratio("1."), None);
    assert_eq!(parse_ratio(".5"), None);
    assert_eq!(parse_ratio("1.2.3"), None);
    assert_eq!(parse_ratio("1e-3"), None);
    // in range only up to MAX_RATIO_PART, and at most four fraction digits
    assert_eq!(parse_ratio("10001"), None);
    assert_eq!(parse_ratio("0.00001"), None);
}

#[test]
fn missing_first_argument() {
    let r = parse_args(vec![]);
    match r {
        Err(ProgramError::MissingFirstPath) => {}
        _ => panic!("expected the missing-first-path error"),
    }
    assert_eq!(
        error_message(&ProgramError::MissingFirstPath),
        "plz provide first filepath as argument"
    );
    assert!(error_message(&ProgramError::MissingFirstPath).contains("first filepath"));
}

#[test]
fn missing_second_argument() {
    let r = parse_args(vec!["a.png".to_string()]);
    match r {
        Err(ProgramError::MissingSecondPath) => {}
        _ => panic!("expected the missing-second-path error"),
    }
    assert!(error_message(&ProgramError::MissingSecondPath).contains("second filepath"));
}

#[test]
fn open_error_message_names_the_failure() {
    assert!(error_message(&ProgramError::ImageOpen).contains("error opening image"));
    assert!(error_message(&ProgramError::ImageSave).contains("error saving image"));
}

#[test]
fn non_numeric_ratio_falls_back_to_default() {
    let r = parse_args(vec![
        "a.png".to_string(),
        "b.png".to_string(),
        "abc".to_string(),
    ])
    .unwrap();
    assert_eq!(r.ratio, Ratio { num: 1, den: 10 });
    assert_eq!(r.first_path, "a.png");
    assert_eq!(r.second_path, "b.png");
}

#[test]
fn explicit_ratio_is_used() {
    let r = parse_args(vec![
        "a.png".to_string(),
        "b.png".to_string(),
        "0.2".to_string(),
    ])
    .unwrap();
    assert_eq!(r.ratio, Ratio { num: 2, den: 10 });
}

#[test]
fn missing_ratio_defaults() {
    let r = parse_args(vec!["a.png".to_string(), "b.png".to_string()]).unwrap();
    assert_eq!(r.ratio, default_ratio());
}

#[test]
fn default_configuration() {
    let c = default_config();
    assert!(c.rotate_input);
    assert_eq!(c.output_path, "output.png");
}

#[test]
fn raster_length_must_match() {
    assert!(Raster::new(2, 2, vec![0u8; 16]).is_some());
    assert!(Raster::new(2, 2, vec![0u8; 15]).is_none());
    assert!(Raster::new(2, 2, vec![0u8; 17]).is_none());
}

#[test]
fn rotation_maps_pixels() {
    // 2 wide, 3 tall; pixel (x, y) tagged as (x, y) in its first channels
    let mut data = Vec::new();
    for y in 0..3u8 {
        for x in 0..2u8 {
            data.extend_from_slice(&[x, y, 0, 255]);
        }
    }
    let img = Raster::new(2, 3, data).unwrap();
    let out = rotate270(&img);
    assert_eq!(out.width, 3);
    assert_eq!(out.height, 2);
    for x in 0..3u32 {
        for y in 0..2u32 {
            // out (x, y) comes from the input's (width - 1 - y, x)
            assert_eq!(pixel(&out, x, y), [(1 - y) as u8, x as u8, 0, 255]);
        }
    }
}

#[test]
fn mask_decision_exact_values() {
    // circle diameter 20 on a 100-tall image: n/d = 200/10
    // (10, 10) is the center of its cell, on the widest row: inside
    assert!(pixel_uses_overlay(10, 10, 100, 200, 10));
    // (10, 90) falls in a row whose effective diameter is negative: outside
    assert!(!pixel_uses_overlay(10, 90, 100, 200, 10));
    // (0, 0) is a cell corner, but the top row's circles are enlarged
    // (height fraction above 1), so it is still inside
    assert!(pixel_uses_overlay(0, 0, 100, 200, 10));
    // (0, 60) is a cell corner on a row whose circles have shrunk: outside
    assert!(!pixel_uses_overlay(0, 60, 100, 200, 10));
}

#[test]
fn composite_shows_both_images() {
    let red = [255, 0, 0, 255];
    let blue = [0, 0, 255, 255];
    let base = solid(100, 100, red);
    let overlay = solid(100, 100, blue);
    let out = bubly_mix(base, overlay, Ratio { num: 2, den: 10 });
    assert_eq!(out.width, 100);
    assert_eq!(out.height, 100);
    let mut reds = 0u32;
    let mut blues = 0u32;
    for y in 0..100 {
        for x in 0..100 {
            let p = pixel(&out, x, y);
            if p == red {
                reds += 1;
            } else if p == blue {
                blues += 1;
            } else {
                panic!("unexpected color {:?}", p);
            }
        }
    }
    assert!(reds > 0, "some base pixels must remain");
    assert!(blues > 0, "some overlay pixels must show");
}

#[test]
fn tiny_ratio_keeps_base_exactly() {
    let red = [255, 0, 0, 255];
    let blue = [0, 0, 255, 255];
    let base = solid(100, 100, red);
    let overlay = solid(100, 100, blue);
    let out = bubly_mix(base, overlay, parse_ratio("0.001").unwrap());
    for y in 0..100 {
        for x in 0..100 {
            assert_eq!(pixel(&out, x, y), red);
        }
    }
}

#[test]
fn zero_ratio_keeps_base_exactly() {
    let red = [255, 0, 0, 255];
    let base = solid(20, 20, red);
    let overlay = solid(20, 20, [0, 0, 255, 255]);
    let out = bubly_mix(base, overlay, parse_ratio("0").unwrap());
    for y in 0..20 {
        for x in 0..20 {
            assert_eq!(pixel(&out, x, y), red);
        }
    }
}

#[test]
fn mask_decision_repeats_across_cells() {
    // cells are 20 pixels wide here; pixels one cell apart on the same row
    // get the same decision
    for x in 0..20u32 {
        for y in 0..20u32 {
            assert_eq!(
                pixel_uses_overlay(x, y, 100, 200, 10),
                pixel_uses_overlay(x + 20, y, 100, 200, 10)
            );
            assert_eq!(
                pixel_uses_overlay(x, y, 100, 200, 10),
                pixel_uses_overlay(x + 80, y, 100, 200, 10)
            );
        }
    }
}

#[test]
fn overlay_is_resized_to_base_dimensions() {
    let base = solid(30, 40, [10, 20, 30, 255]);
    let overlay = solid(50, 70, [200, 100, 0, 255]);
    let out = bubly_mix(base, overlay, default_ratio());
    assert_eq!(out.width, 30);
    assert_eq!(out.height, 40);
    assert_eq!(out.data.len(), 4 * 30 * 40);
}

#[test]
fn resampling_mixes_overlay_pixels() {
    // A single-pixel base whose lone cell corner lies inside the circle for
    // this ratio, and a four-color overlay: the composited pixel must be a
    // resampled mixture, not the overlay's raw top-left pixel and not the
    // base's color.
    let top_left = [255, 0, 0, 255];
    let base = solid(1, 1, [1, 2, 3, 255]);
    let mut ov_data = Vec::new();
    ov_data.extend_from_slice(&top_left);
    ov_data.extend_from_slice(&[0, 255, 0, 255]);
    ov_data.extend_from_slice(&[0, 0, 255, 255]);
    ov_data.extend_from_slice(&[255, 255, 255, 255]);
    let overlay = Raster::new(2, 2, ov_data).unwrap();
    let out = bubly_mix(base, overlay, parse_ratio("0.26").unwrap());
    let p = pixel(&out, 0, 0);
    assert_ne!(p, [1, 2, 3, 255], "the mask must select the overlay here");
    assert_ne!(p, top_left, "the overlay must have been resampled");
}
