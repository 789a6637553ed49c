use screenmatch::buffer::PixelBuffer;
use screenmatch::matcher::{find_color, match_template, MatchError};

/// The color of the reference needle at (dx, dy): a 16x16 black square with
/// a red, green and blue corner (the fourth corner stays black).
fn needle_color(dx: u32, dy: u32) -> [u8; 3] {
    if dx == 15 && dy == 0 {
        [255, 0, 0]
    } else if dx == 0 && dy == 15 {
        [0, 255, 0]
    } else if dx == 15 && dy == 15 {
        [0, 0, 255]
    } else {
        [0, 0, 0]
    }
}

fn rgba(width: u32, height: u32, fill: [u8; 3]) -> Vec<u8> {
    let mut data = Vec::new();
    for _ in 0..(width * height) {
        data.push(fill[0]);
        data.push(fill[1]);
        data.push(fill[2]);
        data.push(255);
    }
    data
}

fn set_pixel(data: &mut Vec<u8>, width: u32, x: u32, y: u32, rgb: [u8; 3]) {
    let i = ((y * width + x) * 4) as usize;
    data[i] = rgb[0];
    data[i + 1] = rgb[1];
    data[i + 2] = rgb[2];
}

fn make_needle() -> PixelBuffer {
    let mut data = rgba(16, 16, [0, 0, 0]);
    for dy in 0..16 {
        for dx in 0..16 {
            set_pixel(&mut data, 16, dx, dy, needle_color(dx, dy));
        }
    }
    PixelBuffer::new(data, 16, 16, 4).unwrap()
}

/// A white haystack with the needle pattern pasted at (ox, oy).
fn make_haystack(width: u32, height: u32, ox: u32, oy: u32) -> PixelBuffer {
    let mut data = rgba(width, height, [255, 255, 255]);
    for dy in 0..16 {
        for dx in 0..16 {
            set_pixel(&mut data, width, ox + dx, oy + dy, needle_color(dx, dy));
        }
    }
    PixelBuffer::new(data, width, height, 4).unwrap()
}

fn rms_of(ssd: u128, samples: usize) -> f64 {
    (ssd as f64 / samples as f64).sqrt()
}

#[test]
fn test_template_match_images() {
    let haystack = make_haystack(64, 64, 32, 24);
    let needle = make_needle();

    let res = match_template(&haystack, &needle).unwrap();

    assert!((res.x, res.y, rms_of(res.ssd, res.samples)) == (32, 24, 0.0f64));
}

#[test]
fn test_template_match_images_bottomright() {
    let haystack = make_haystack(70, 57, 54, 41);
    let needle = make_needle();

    let res = match_template(&haystack, &needle).unwrap();

    assert!((res.x, res.y, rms_of(res.ssd, res.samples)) == (54, 41, 0.0f64));
}

#[test]
fn test_template_match_images_fuzzy() {
    // The matched window has 4 wrong pixels: white in place of the needle's
    // black, red, green and blue corners.
    let mut haystack = make_haystack(64, 64, 32, 24);
    for (dx, dy) in [(0, 0), (15, 0), (0, 15), (15, 15)] {
        set_pixel(&mut haystack.data, 64, 32 + dx, 24 + dy, [255, 255, 255]);
    }
    let needle = make_needle();

    let res = match_template(&haystack, &needle).unwrap();

    let mut sum_squared_diffs = 0f64;
    sum_squared_diffs += (255f64 * 255f64 * 3f64) + // White - Black
        (255f64 * 255f64 * 2f64) + // White - Red
        (255f64 * 255f64 * 2f64) + // White - Green
        (255f64 * 255f64 * 2f64); // White - Blue

    let count = (16 * 16 * 4) as f64;
    let rms = (sum_squared_diffs / count).sqrt();

    assert!(res.ssd == 585225);
    assert!(res.samples == 16 * 16 * 4);
    assert!((res.x, res.y, rms_of(res.ssd, res.samples)) == (32, 24, rms));
}

#[test]
fn test_template_match_images_same() {
    let haystack = make_needle();
    let needle = make_needle();

    let res = match_template(&haystack, &needle).unwrap();

    assert!((res.x, res.y, rms_of(res.ssd, res.samples)) == (0, 0, 0.0f64));
}

#[test]
fn result_offset_stays_in_range() {
    let haystack = make_haystack(40, 30, 5, 9);
    let needle = make_needle();

    let res = match_template(&haystack, &needle).unwrap();

    assert!(res.x <= 40 - 16);
    assert!(res.y <= 30 - 16);
}

#[test]
fn repeated_match_is_identical() {
    let haystack = make_haystack(40, 30, 11, 3);
    let needle = make_needle();

    let first = match_template(&haystack, &needle).unwrap();
    let second = match_template(&haystack, &needle).unwrap();

    assert!(first.x == second.x);
    assert!(first.y == second.y);
    assert!(first.ssd == second.ssd);
    assert!(first.samples == second.samples);
}

#[test]
fn tie_breaks_to_smallest_offset() {
    // Two pixel-identical black squares; the one with the smaller x wins.
    let mut data = rgba(12, 6, [255, 255, 255]);
    for (ox, oy) in [(7u32, 3u32), (2, 1)] {
        for dy in 0..2 {
            for dx in 0..2 {
                set_pixel(&mut data, 12, ox + dx, oy + dy, [0, 0, 0]);
            }
        }
    }
    let haystack = PixelBuffer::new(data, 12, 6, 4).unwrap();
    let needle = PixelBuffer::new(rgba(2, 2, [0, 0, 0]), 2, 2, 4).unwrap();

    let res = match_template(&haystack, &needle).unwrap();

    assert!(res.ssd == 0);
    assert!((res.x, res.y) == (2, 1));
}

#[test]
fn all_equal_offsets_give_origin() {
    // Every candidate window of a uniform haystack ties at zero; the first
    // enumerated offset is reported.
    let haystack = PixelBuffer::new(rgba(8, 4, [200, 100, 50]), 8, 4, 4).unwrap();
    let needle = PixelBuffer::new(rgba(2, 2, [200, 100, 50]), 2, 2, 4).unwrap();

    let res = match_template(&haystack, &needle).unwrap();

    assert!((res.x, res.y, res.ssd) == (0, 0, 0));
}

#[test]
fn equal_size_needle_matches_at_origin() {
    let haystack = make_haystack(20, 20, 2, 3);
    let needle = make_haystack(20, 20, 2, 3);

    let res = match_template(&haystack, &needle).unwrap();

    assert!((res.x, res.y, res.ssd) == (0, 0, 0));
}

#[test]
fn needle_larger_than_haystack_fails() {
    let haystack = PixelBuffer::new(rgba(4, 4, [0, 0, 0]), 4, 4, 4).unwrap();
    let wide = PixelBuffer::new(rgba(5, 4, [0, 0, 0]), 5, 4, 4).unwrap();
    let tall = PixelBuffer::new(rgba(4, 5, [0, 0, 0]), 4, 5, 4).unwrap();
    let both = PixelBuffer::new(rgba(9, 9, [0, 0, 0]), 9, 9, 4).unwrap();

    assert!(matches!(match_template(&haystack, &wide), Err(MatchError::NeedleTooLarge)));
    assert!(matches!(match_template(&haystack, &tall), Err(MatchError::NeedleTooLarge)));
    assert!(matches!(match_template(&haystack, &both), Err(MatchError::NeedleTooLarge)));
}

#[test]
fn ssd_is_exact_sum_of_squared_differences() {
    let haystack = PixelBuffer::new(vec![10, 20, 30, 255], 1, 1, 4).unwrap();
    let needle = PixelBuffer::new(vec![13, 24, 35, 255], 1, 1, 4).unwrap();

    let res = match_template(&haystack, &needle).unwrap();

    assert!(res.ssd == 3 * 3 + 4 * 4 + 5 * 5);
    assert!(res.samples == 4);
}

#[test]
fn find_color_returns_first_match_in_row_major_order() {
    let mut data = rgba(6, 4, [255, 255, 255]);
    set_pixel(&mut data, 6, 1, 2, [7, 8, 9]);
    set_pixel(&mut data, 6, 3, 1, [7, 8, 9]);
    let haystack = PixelBuffer::new(data, 6, 4, 4).unwrap();

    let res = find_color(&haystack, 7, 8, 9, 0);

    assert!(res.found);
    assert!((res.x, res.y) == (3, 1));
}

#[test]
fn find_color_ignores_alpha() {
    let mut data = rgba(3, 1, [255, 255, 255]);
    set_pixel(&mut data, 3, 2, 0, [1, 2, 3]);
    data[(2 * 4 + 3) as usize] = 0; // transparent, still a match
    let haystack = PixelBuffer::new(data, 3, 1, 4).unwrap();

    let res = find_color(&haystack, 1, 2, 3, 0);

    assert!(res.found);
    assert!((res.x, res.y) == (2, 0));
}

#[test]
fn find_color_not_found_is_a_plain_result() {
    let haystack = PixelBuffer::new(rgba(5, 5, [10, 10, 10]), 5, 5, 4).unwrap();

    let res = find_color(&haystack, 10, 10, 11, 0);

    assert!(!res.found);
    assert!((res.x, res.y) == (0, 0));
}

#[test]
fn find_color_tolerance_is_inert() {
    // A near-miss color stays a miss whatever tolerance is passed.
    let haystack = PixelBuffer::new(rgba(4, 4, [100, 100, 100]), 4, 4, 4).unwrap();

    let res = find_color(&haystack, 101, 100, 100, 255);

    assert!(!res.found);
}
