use palette_extract::Color;
use palette_extract::PaletteError;
use palette_extract::PaletteExtractor;
use palette_extract::color_distance_rgb;
use palette_extract::remove_similar_colors;
use palette_extract::sort_colors_by_luminance;

#[test]
fn color_accessors_round_trip() {
    let c = Color::new(12, 34, 56);
    assert_eq!(c.r(), 12);
    assert_eq!(c.g(), 34);
    assert_eq!(c.b(), 56);
}

#[test]
fn distance_to_self_is_zero() {
    let c = Color::new(200, 100, 50);
    assert_eq!(color_distance_rgb(&c, &c), 0);
}

#[test]
fn distance_is_symmetric() {
    let a = Color::new(1, 2, 3);
    let b = Color::new(200, 150, 100);
    assert_eq!(color_distance_rgb(&a, &b), color_distance_rgb(&b, &a));
}

#[test]
fn distance_exact_value() {
    // Squared distance between pure red and pure blue: 255^2 + 255^2.
    let red = Color::new(255, 0, 0);
    let blue = Color::new(0, 0, 255);
    assert_eq!(color_distance_rgb(&red, &blue), 130050);
}

#[test]
fn hex_formatting() {
    assert_eq!(Color::new(255, 0, 13).to_hex(), "#ff000d");
    assert_eq!(Color::new(0, 0, 0).to_hex(), "#000000");
    assert_eq!(Color::new(171, 205, 239).to_hex(), "#abcdef");
}

#[test]
fn rgb_string_formatting() {
    assert_eq!(Color::new(255, 0, 13).to_rgb_string(), "rgb(255, 0, 13)");
    assert_eq!(Color::new(7, 42, 100).to_rgb_string(), "rgb(7, 42, 100)");
}

#[test]
fn luminance_sort_is_darkest_first() {
    let colors = vec![
        Color::new(255, 255, 255),
        Color::new(0, 0, 0),
        Color::new(255, 0, 0),
    ];
    let sorted = sort_colors_by_luminance(colors);
    assert_eq!(sorted.len(), 3);
    assert_eq!((sorted[0].r(), sorted[0].g(), sorted[0].b()), (0, 0, 0));
    assert_eq!((sorted[1].r(), sorted[1].g(), sorted[1].b()), (255, 0, 0));
    assert_eq!((sorted[2].r(), sorted[2].g(), sorted[2].b()), (255, 255, 255));
}

#[test]
fn luminance_sort_is_monotonic() {
    let colors = vec![
        Color::new(10, 200, 30),
        Color::new(5, 5, 5),
        Color::new(90, 90, 90),
        Color::new(0, 0, 255),
        Color::new(250, 250, 0),
    ];
    let sorted = sort_colors_by_luminance(colors);
    let weight = |c: &Color| {
        2126u32 * c.r() as u32 + 7152u32 * c.g() as u32 + 722u32 * c.b() as u32
    };
    for pair in sorted.windows(2) {
        assert!(weight(&pair[0]) <= weight(&pair[1]));
    }
}

#[test]
fn dedup_drops_near_red() {
    // Distance red .. (250, 5, 5) is sqrt(75) < 20, so the second red
    // goes; blue stays.
    let colors = vec![
        Color::new(255, 0, 0),
        Color::new(250, 5, 5),
        Color::new(0, 0, 255),
    ];
    let result = remove_similar_colors(colors, 20);
    assert_eq!(result.len(), 2);
    assert_eq!((result[0].r(), result[0].g(), result[0].b()), (255, 0, 0));
    assert_eq!((result[1].r(), result[1].g(), result[1].b()), (0, 0, 255));
}

#[test]
fn dedup_is_idempotent() {
    let colors = vec![
        Color::new(255, 0, 0),
        Color::new(250, 5, 5),
        Color::new(0, 0, 255),
        Color::new(3, 3, 250),
        Color::new(128, 128, 128),
    ];
    let once = remove_similar_colors(colors.clone(), 30);
    let twice = remove_similar_colors(once.clone(), 30);
    assert_eq!(once.len(), twice.len());
    for (a, b) in once.iter().zip(twice.iter()) {
        assert_eq!((a.r(), a.g(), a.b()), (b.r(), b.g(), b.b()));
    }
}

#[test]
fn dedup_keeps_color_at_exact_threshold_distance() {
    // Distance is exactly 20: only a strictly smaller distance counts
    // as a near-duplicate.
    let colors = vec![Color::new(0, 0, 0), Color::new(20, 0, 0)];
    let result = remove_similar_colors(colors, 20);
    assert_eq!(result.len(), 2);
    let closer = vec![Color::new(0, 0, 0), Color::new(19, 0, 0)];
    let result = remove_similar_colors(closer, 20);
    assert_eq!(result.len(), 1);
}

#[test]
fn sort_keeps_equal_luminance_colors() {
    // Two different colors with one luminance weight both survive the
    // sort.
    let a = Color::new(10, 10, 10);
    let b = Color::new(10, 10, 10);
    let dark = Color::new(0, 0, 0);
    let sorted = sort_colors_by_luminance(vec![a, dark, b]);
    assert_eq!(sorted.len(), 3);
    assert_eq!((sorted[0].r(), sorted[0].g(), sorted[0].b()), (0, 0, 0));
    assert_eq!((sorted[1].r(), sorted[1].g(), sorted[1].b()), (10, 10, 10));
    assert_eq!((sorted[2].r(), sorted[2].g(), sorted[2].b()), (10, 10, 10));
}

#[test]
fn dedup_keeps_all_when_distant() {
    let colors = vec![Color::new(255, 0, 0), Color::new(0, 0, 255)];
    let result = remove_similar_colors(colors, 20);
    assert_eq!(result.len(), 2);
}

fn rgba(pixels: &[[u8; 4]]) -> Vec<u8> {
    let mut buffer = Vec::new();
    for p in pixels {
        buffer.extend_from_slice(p);
    }
    buffer
}

#[test]
fn two_color_image_splits_evenly() {
    // 2 reds and 2 blues, k = 2: two entries whose shares sum to ~100%.
    let pixels = rgba(&[
        [255, 0, 0, 255],
        [0, 0, 255, 255],
        [255, 0, 0, 255],
        [0, 0, 255, 255],
    ]);
    let extractor = PaletteExtractor::new();
    let palette = extractor.extract_palette_from_pixels(&pixels, 2).unwrap();
    assert_eq!(palette.length(), 2);
    let shares = palette.percentages();
    assert_eq!(shares.len(), 2);
    let sum: u32 = shares.iter().sum();
    assert!(sum > 9998 && sum <= 10000, "shares summed to {}", sum);
    for share in &shares {
        assert!(
            *share >= 4000 && *share <= 6000,
            "share {} not near 50%",
            share
        );
    }
}

#[test]
fn dominant_color_of_mostly_red_image() {
    // 6 reds and 2 greens: the dominant color is the truncating
    // average (191, 63, 0).
    let mut pixels = Vec::new();
    for _ in 0..6 {
        pixels.extend_from_slice(&[255, 0, 0, 255]);
    }
    for _ in 0..2 {
        pixels.extend_from_slice(&[0, 255, 0, 255]);
    }
    let extractor = PaletteExtractor::new();
    let dominant = extractor.extract_dominant_color(&pixels).unwrap();
    assert!(dominant.r() > 150);
    assert!(dominant.r() > dominant.g());
    assert!(dominant.r() > dominant.b());
    assert_eq!((dominant.r(), dominant.g(), dominant.b()), (191, 63, 0));
}

#[test]
fn buffer_length_not_divisible_by_four_is_rejected() {
    let extractor = PaletteExtractor::new();
    let result = extractor.extract_palette_from_pixels(&[1, 2, 3], 2);
    assert_eq!(result.unwrap_err(), PaletteError::InvalidBufferLength);
    assert!(!PaletteError::InvalidBufferLength.message().is_empty());
}

#[test]
fn zero_clusters_is_rejected() {
    let extractor = PaletteExtractor::new();
    let pixels = rgba(&[[255, 0, 0, 255], [0, 255, 0, 255]]);
    let result = extractor.extract_palette_from_pixels(&pixels, 0);
    assert_eq!(result.unwrap_err(), PaletteError::ZeroClusters);
    assert!(!PaletteError::ZeroClusters.message().is_empty());
}

#[test]
fn empty_buffer_is_rejected() {
    let extractor = PaletteExtractor::new();
    let result = extractor.extract_palette_from_pixels(&[], 3);
    assert_eq!(result.unwrap_err(), PaletteError::EmptyInput);
    assert!(!PaletteError::EmptyInput.message().is_empty());
}

#[test]
fn dimension_mismatch_is_rejected() {
    let extractor = PaletteExtractor::new();
    let pixels = rgba(&[[255, 0, 0, 255], [0, 255, 0, 255]]);
    let result = extractor.extract_palette_from_image_data(&pixels, 3, 1, 2);
    assert_eq!(result.unwrap_err(), PaletteError::DimensionMismatch);
    assert!(!PaletteError::DimensionMismatch.message().is_empty());
}

#[test]
fn matching_dimensions_extract_a_palette() {
    let pixels = rgba(&[
        [255, 0, 0, 255],
        [0, 0, 255, 255],
        [255, 0, 0, 255],
        [0, 0, 255, 255],
    ]);
    let extractor = PaletteExtractor::new();
    let palette = extractor
        .extract_palette_from_image_data(&pixels, 2, 2, 2)
        .unwrap();
    assert_eq!(palette.length(), 2);
}

#[test]
fn more_clusters_than_samples_gives_zero_shares() {
    // One pixel, five clusters: five entries whose shares still sum to
    // exactly 100%.
    let pixels = rgba(&[[10, 20, 30, 255]]);
    let extractor = PaletteExtractor::new();
    let palette = extractor.extract_palette_from_pixels(&pixels, 5).unwrap();
    assert_eq!(palette.length(), 5);
    let shares = palette.percentages();
    let sum: u32 = shares.iter().sum();
    assert_eq!(sum, 10000);
    assert_eq!(shares.iter().filter(|&&s| s == 10000).count(), 1);
    assert_eq!(shares.iter().filter(|&&s| s == 0).count(), 4);
}

#[test]
fn palette_result_accessors() {
    let pixels = rgba(&[[255, 0, 0, 255], [255, 0, 0, 255]]);
    let extractor = PaletteExtractor::new();
    let palette = extractor.extract_palette_from_pixels(&pixels, 1).unwrap();
    assert_eq!(palette.length(), 1);
    assert_eq!(palette.colors().len(), 1);
    assert_eq!(palette.percentages().len(), 1);
    let c = palette.get_color(0).unwrap();
    assert_eq!((c.r(), c.g(), c.b()), (255, 0, 0));
    assert_eq!(palette.get_percentage(0).unwrap(), 10000);
    assert!(palette.get_color(1).is_none());
    assert!(palette.get_percentage(1).is_none());
}

#[test]
fn tuning_setters_still_extract() {
    let pixels = rgba(&[
        [255, 0, 0, 255],
        [0, 0, 255, 255],
        [255, 0, 0, 255],
        [0, 0, 255, 255],
    ]);
    let mut extractor = PaletteExtractor::new();
    extractor.set_max_iterations(50);
    extractor.set_convergence(1);
    extractor.set_verbose(true);
    let palette = extractor.extract_palette_from_pixels(&pixels, 2).unwrap();
    assert_eq!(palette.length(), 2);
    let sum: u32 = palette.percentages().iter().sum();
    assert!(sum > 9998 && sum <= 10000);
}

#[test]
fn same_input_gives_same_palette() {
    // The fixed seed makes extraction reproducible.
    let pixels = rgba(&[
        [200, 10, 10, 255],
        [10, 200, 10, 255],
        [10, 10, 200, 255],
        [200, 200, 10, 255],
    ]);
    let extractor = PaletteExtractor::new();
    let first = extractor.extract_palette_from_pixels(&pixels, 3).unwrap();
    let second = extractor.extract_palette_from_pixels(&pixels, 3).unwrap();
    assert_eq!(first.length(), second.length());
    for i in 0..first.length() {
        let a = first.get_color(i).unwrap();
        let b = second.get_color(i).unwrap();
        assert_eq!((a.r(), a.g(), a.b()), (b.r(), b.g(), b.b()));
        assert_eq!(first.get_percentage(i), second.get_percentage(i));
    }
}
