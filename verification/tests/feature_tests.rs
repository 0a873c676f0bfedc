//! Feature extraction: mean brightness, the colour histogram, and the
//! textual histogram rendering.

use image_convert::color::ColorType;
use image_convert::image::ImageStruct;
use image_convert::render::histogram_to_writer;

#[test]
fn test_medium_brightness() {
    let gray_image = ImageStruct {
        width: 1,
        height: 2,
        color_type: ColorType::Grayscale,
        pixels: vec![255, 0],
        plte: None,
        trns: None,
    };
    let (num, den) = gray_image.medium_brightness().unwrap();
    assert_eq!(num as f32 / den as f32, 0.5);
}

#[test]
fn test_color_histogram() {
    let indexed_rgba_image = ImageStruct {
        width: 6,
        height: 2,
        color_type: ColorType::Indexed,
        pixels: vec![1, 35, 69, 1, 35, 69],
        plte: Some(vec![
            137, 42, 201, 19, 174, 83, 96, 211, 47, 224, 89, 54, 72, 120, 209, 186, 31, 143,
        ]),
        trns: Some(vec![255, 200, 150, 100, 50, 0]),
    };
    let rgb_image = ImageStruct {
        width: 6,
        height: 2,
        color_type: ColorType::Rgb,
        pixels: vec![
            137, 42, 201, 19, 174, 83, 96, 211, 47, 224, 89, 54, 72, 120, 209, 186, 31, 143,
            137, 42, 201, 19, 174, 83, 96, 211, 47, 224, 89, 54, 72, 120, 209, 186, 31, 143,
        ],
        plte: None,
        trns: None,
    };

    let histogram1 = indexed_rgba_image.color_histogram().unwrap();
    let histogram2 = rgb_image.color_histogram().unwrap();
    assert_eq!(
        vec![2, 4, 2, 2, 2, 4, 2, 2, 2, 2, 2, 4, 2, 2, 2],
        histogram1
    );
    assert_eq!(
        vec![2, 4, 2, 2, 2, 4, 2, 2, 2, 2, 2, 4, 2, 2, 2],
        histogram2
    );
}

#[test]
fn test_histogram_totals() {
    // One increment per channel per pixel: the counts sum to 3 * pixels.
    let rgba = ImageStruct {
        width: 3,
        height: 2,
        color_type: ColorType::Rgba,
        pixels: vec![
            0, 10, 20, 30, 40, 50, 60, 70, 80, 90, 100, 110, 120, 130, 140, 150, 160, 170, 180,
            190, 200, 210, 220, 230,
        ],
        plte: None,
        trns: None,
    };
    let histogram = rgba.color_histogram().unwrap();
    let total: u32 = histogram.iter().sum();
    assert_eq!(total, 3 * 6);
}

#[test]
fn test_histogram_top_boundary() {
    // The exact top value 255 (1.0 as a unit sample) routes to the last
    // bucket of its channel; 51 (0.2) lands in the second bucket.
    let rgb = ImageStruct {
        width: 1,
        height: 1,
        color_type: ColorType::Rgb,
        pixels: vec![255, 0, 51],
        plte: None,
        trns: None,
    };
    let histogram = rgb.color_histogram().unwrap();
    assert_eq!(histogram, vec![0, 0, 0, 0, 1, 1, 0, 0, 0, 0, 0, 1, 0, 0, 0]);
}

#[test]
fn test_brightness_of_grayscale_rendition() {
    // Mean brightness is unchanged by routing through the grayscale
    // rendition.
    let rgb_image = ImageStruct {
        width: 6,
        height: 2,
        color_type: ColorType::Rgb,
        pixels: vec![
            137, 42, 201, 19, 174, 83, 96, 211, 47, 224, 89, 54, 72, 120, 209, 186, 31, 143,
            137, 42, 201, 19, 174, 83, 96, 211, 47, 224, 89, 54, 72, 120, 209, 186, 31, 143,
        ],
        plte: None,
        trns: None,
    };
    let direct = rgb_image.medium_brightness().unwrap();
    let gray = rgb_image.convert_to_grayscale().unwrap();
    let routed = gray.medium_brightness().unwrap();
    assert_eq!(direct, routed);
}

#[test]
fn test_display_histogram() {
    let histogram: Vec<u32> = vec![2, 4, 2, 2, 2, 4, 2, 2, 2, 2, 2, 4, 2, 2, 2];
    let mut output: Vec<u8> = Vec::new();
    histogram_to_writer(&histogram, &mut output);
    let output_str = String::from_utf8(output).expect("No valid UTF8-Output");

    let expected_str = "\t\u{1b}[31m█ \u{1b}[0m\t\t\t\t\u{1b}[32m█ \u{1b}[0m\t\t\t\t\t\t\u{1b}[34m█ \u{1b}[0m\t\t\t\t\n\t\u{1b}[31m█ \u{1b}[0m\t\t\t\t\u{1b}[32m█ \u{1b}[0m\t\t\t\t\t\t\u{1b}[34m█ \u{1b}[0m\t\t\t\t\n\t\u{1b}[31m█ \u{1b}[0m\t\t\t\t\u{1b}[32m█ \u{1b}[0m\t\t\t\t\t\t\u{1b}[34m█ \u{1b}[0m\t\t\t\t\n\t\u{1b}[31m█ \u{1b}[0m\t\t\t\t\u{1b}[32m█ \u{1b}[0m\t\t\t\t\t\t\u{1b}[34m█ \u{1b}[0m\t\t\t\t\n\t\u{1b}[31m█ \u{1b}[0m\t\t\t\t\u{1b}[32m█ \u{1b}[0m\t\t\t\t\t\t\u{1b}[34m█ \u{1b}[0m\t\t\t\t\n\u{1b}[31m█ \u{1b}[0m\t\u{1b}[31m█ \u{1b}[0m\t\u{1b}[31m█ \u{1b}[0m\t\u{1b}[31m█ \u{1b}[0m\t\u{1b}[31m█ \u{1b}[0m\t\u{1b}[32m█ \u{1b}[0m\t\u{1b}[32m█ \u{1b}[0m\t\u{1b}[32m█ \u{1b}[0m\t\u{1b}[32m█ \u{1b}[0m\t\u{1b}[32m█ \u{1b}[0m\t\u{1b}[34m█ \u{1b}[0m\t\u{1b}[34m█ \u{1b}[0m\t\u{1b}[34m█ \u{1b}[0m\t\u{1b}[34m█ \u{1b}[0m\t\u{1b}[34m█ \u{1b}[0m\t\n\u{1b}[31m█ \u{1b}[0m\t\u{1b}[31m█ \u{1b}[0m\t\u{1b}[31m█ \u{1b}[0m\t\u{1b}[31m█ \u{1b}[0m\t\u{1b}[31m█ \u{1b}[0m\t\u{1b}[32m█ \u{1b}[0m\t\u{1b}[32m█ \u{1b}[0m\t\u{1b}[32m█ \u{1b}[0m\t\u{1b}[32m█ \u{1b}[0m\t\u{1b}[32m█ \u{1b}[0m\t\u{1b}[34m█ \u{1b}[0m\t\u{1b}[34m█ \u{1b}[0m\t\u{1b}[34m█ \u{1b}[0m\t\u{1b}[34m█ \u{1b}[0m\t\u{1b}[34m█ \u{1b}[0m\t\n\u{1b}[31m█ \u{1b}[0m\t\u{1b}[31m█ \u{1b}[0m\t\u{1b}[31m█ \u{1b}[0m\t\u{1b}[31m█ \u{1b}[0m\t\u{1b}[31m█ \u{1b}[0m\t\u{1b}[32m█ \u{1b}[0m\t\u{1b}[32m█ \u{1b}[0m\t\u{1b}[32m█ \u{1b}[0m\t\u{1b}[32m█ \u{1b}[0m\t\u{1b}[32m█ \u{1b}[0m\t\u{1b}[34m█ \u{1b}[0m\t\u{1b}[34m█ \u{1b}[0m\t\u{1b}[34m█ \u{1b}[0m\t\u{1b}[34m█ \u{1b}[0m\t\u{1b}[34m█ \u{1b}[0m\t\n\u{1b}[31m█ \u{1b}[0m\t\u{1b}[31m█ \u{1b}[0m\t\u{1b}[31m█ \u{1b}[0m\t\u{1b}[31m█ \u{1b}[0m\t\u{1b}[31m█ \u{1b}[0m\t\u{1b}[32m█ \u{1b}[0m\t\u{1b}[32m█ \u{1b}[0m\t\u{1b}[32m█ \u{1b}[0m\t\u{1b}[32m█ \u{1b}[0m\t\u{1b}[32m█ \u{1b}[0m\t\u{1b}[34m█ \u{1b}[0m\t\u{1b}[34m█ \u{1b}[0m\t\u{1b}[34m█ \u{1b}[0m\t\u{1b}[34m█ \u{1b}[0m\t\u{1b}[34m█ \u{1b}[0m\t\n\u{1b}[31m█ \u{1b}[0m\t\u{1b}[31m█ \u{1b}[0m\t\u{1b}[31m█ \u{1b}[0m\t\u{1b}[31m█ \u{1b}[0m\t\u{1b}[31m█ \u{1b}[0m\t\u{1b}[32m█ \u{1b}[0m\t\u{1b}[32m█ \u{1b}[0m\t\u{1b}[32m█ \u{1b}[0m\t\u{1b}[32m█ \u{1b}[0m\t\u{1b}[32m█ \u{1b}[0m\t\u{1b}[34m█ \u{1b}[0m\t\u{1b}[34m█ \u{1b}[0m\t\u{1b}[34m█ \u{1b}[0m\t\u{1b}[34m█ \u{1b}[0m\t\u{1b}[34m█ \u{1b}[0m\t\n\u{1b}[31m█ \u{1b}[0m\t\u{1b}[31m█ \u{1b}[0m\t\u{1b}[31m█ \u{1b}[0m\t\u{1b}[31m█ \u{1b}[0m\t\u{1b}[31m█ \u{1b}[0m\t\u{1b}[32m█ \u{1b}[0m\t\u{1b}[32m█ \u{1b}[0m\t\u{1b}[32m█ \u{1b}[0m\t\u{1b}[32m█ \u{1b}[0m\t\u{1b}[32m█ \u{1b}[0m\t\u{1b}[34m█ \u{1b}[0m\t\u{1b}[34m█ \u{1b}[0m\t\u{1b}[34m█ \u{1b}[0m\t\u{1b}[34m█ \u{1b}[0m\t\u{1b}[34m█ \u{1b}[0m\t\n  2\t  4\t  2\t  2\t  2\t  4\t  2\t  2\t  2\t  2\t  2\t  4\t  2\t  2\t  2\t\n";
    assert_eq!(output_str, expected_str);
}

#[test]
fn test_display_histogram_all_zero() {
    // All-zero counters must not divide by zero: ten empty rows, the
    // baseline row, then the counts line.
    let histogram: Vec<u32> = vec![0; 15];
    let mut output: Vec<u8> = Vec::new();
    histogram_to_writer(&histogram, &mut output);
    let output_str = String::from_utf8(output).expect("No valid UTF8-Output");
    let lines: Vec<&str> = output_str.split('\n').collect();
    assert_eq!(lines.len(), 13); // 11 chart rows + counts line + trailing empty
    assert_eq!(lines[0], "\t".repeat(15));
    assert!(lines[10].contains('\u{2588}')); // the baseline row draws every bar
    assert_eq!(lines[11], "  0\t".repeat(15));
}

#[test]
fn test_display_histogram_wide_counts() {
    // Counts of one, two and three digits are right-justified in a
    // three-character field.
    let histogram: Vec<u32> = vec![100, 10, 0];
    let mut output: Vec<u8> = Vec::new();
    histogram_to_writer(&histogram, &mut output);
    let output_str = String::from_utf8(output).expect("No valid UTF8-Output");
    let lines: Vec<&str> = output_str.split('\n').collect();
    assert_eq!(lines[11], "100\t 10\t  0\t");
}
