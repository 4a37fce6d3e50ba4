use gradient_overlay::curve::alpha_for_row;
use gradient_overlay::fade::Fade;

fn fade(v: f32) -> Fade {
    Fade::from_bits(v.to_bits()).unwrap()
}

#[test]
fn alpha_of_the_rows_of_small_images() {
    let one = Fade::one();
    // one row: |0 - 0.4| * 2 = 0.8, 0.64 * 255 = 163.2
    assert_eq!(alpha_for_row(0, 1, one), 163);
    // two rows: 163.2 and |0.5 - 0.4| * 2 = 0.2, 0.04 * 255 = 10.2
    assert_eq!(alpha_for_row(0, 2, one), 163);
    assert_eq!(alpha_for_row(1, 2, one), 10);
    // five rows: the anchor is row 2
    let rows: Vec<u8> = (0..5).map(|y| alpha_for_row(y, 5, one)).collect();
    assert_eq!(rows, vec![163, 41, 0, 41, 163]);
    // ten rows: 255 * (2 * |y / 10 - 0.4|)^2, capped
    let rows: Vec<u8> = (0..10).map(|y| alpha_for_row(y, 10, one)).collect();
    assert_eq!(rows, vec![163, 92, 41, 10, 0, 10, 41, 92, 163, 255]);
}

#[test]
fn alpha_is_capped_at_the_bottom_of_tall_images() {
    let one = Fade::one();
    // 255 * (2 * |0.9 - 0.4|)^2 = 255 exactly; below that the strength passes one
    // row 89: 255 * 0.98^2 = 244.9
    assert_eq!(alpha_for_row(89, 100, one), 245);
    assert_eq!(alpha_for_row(90, 100, one), 255);
    assert_eq!(alpha_for_row(91, 100, one), 255);
    assert_eq!(alpha_for_row(99, 100, one), 255);
    assert_eq!(alpha_for_row(u32::MAX - 1, u32::MAX, one), 255);
    assert_eq!(alpha_for_row(0, u32::MAX, one), 163);
}

#[test]
fn fade_applies_below_the_threshold_row_only() {
    let none = fade(0.0);
    // ten rows: the threshold row is round(0.3 * 10) = 3
    let rows: Vec<u8> = (0..10).map(|y| alpha_for_row(y, 10, none)).collect();
    assert_eq!(rows, vec![163, 92, 41, 10, 0, 0, 0, 0, 0, 0]);
    let half = fade(0.5);
    // 5.1, 20.4, 45.9, 81.6, and 127.5, which rounds away from zero
    let rows: Vec<u8> = (0..10).map(|y| alpha_for_row(y, 10, half)).collect();
    assert_eq!(rows, vec![163, 92, 41, 10, 0, 5, 20, 46, 82, 128]);
}

#[test]
fn threshold_row_rounds_a_half_away_from_zero() {
    let none = fade(0.0);
    // five rows: 0.3 * 5 = 1.5, so rows 0 to 2 are at full strength
    let rows: Vec<u8> = (0..5).map(|y| alpha_for_row(y, 5, none)).collect();
    assert_eq!(rows, vec![163, 41, 0, 0, 0]);
    // fifteen rows: 0.3 * 15 = 4.5, so rows 0 to 5 are at full strength
    let one = Fade::one();
    for y in 0..15 {
        let expected = if y <= 5 { alpha_for_row(y, 15, one) } else { 0 };
        assert_eq!(alpha_for_row(y, 15, none), expected, "row {}", y);
    }
    assert_ne!(alpha_for_row(5, 15, none), 0);
    // four rows: 0.3 * 4 = 1.2, so rows 0 and 1
    let rows: Vec<u8> = (0..4).map(|y| alpha_for_row(y, 4, none)).collect();
    assert_eq!(rows, vec![163, 23, 0, 0]);
    // two rows: 0.3 * 2 = 0.6, so both rows
    assert_eq!(alpha_for_row(1, 2, none), 10);
}

#[test]
fn tiny_fades_round_to_nothing() {
    for v in [1e-45f32, 1e-40, 1e-38, 1e-30, 1e-10, 1e-4] {
        assert_eq!(alpha_for_row(999, 1000, fade(v)), 0, "fade {:e}", v);
    }
    // 255 * 1.44 * 0.0014 = 0.51
    assert_eq!(alpha_for_row(999_999, 1_000_000, fade(0.0014)), 1);
    // 255 * 1.44 * 0.0013 = 0.48
    assert_eq!(alpha_for_row(999_999, 1_000_000, fade(0.0013)), 0);
}

// The formula in double precision: precise enough wherever the value is not
// within a millionth of a half.
fn alpha_in_floating_point(y: u32, height: u32, fade: f32) -> Option<u8> {
    let h = height as f64;
    let threshold = (3 * height as u64 + 5) / 10;
    let factor = if y as u64 > threshold { fade as f64 } else { 1.0 };
    let distance = (y as f64 / h - 0.4).abs() * 2.0;
    let scaled = factor * distance * distance * 255.0;
    if (scaled.fract() - 0.5).abs() < 1e-6 {
        return None;
    }
    Some(scaled.round().min(255.0) as u8)
}

#[test]
fn alpha_agrees_with_the_formula_in_floating_point() {
    let fades = [1.0f32, 0.0, 0.5, 0.25, 0.1, 0.3, 0.9, 0.999, 0.12345, 0.003, 1e-5, 0.7071];
    for height in (1..400u32).chain([1000, 4096, 65_535, 1_000_003, u32::MAX]) {
        let rows: Vec<u32> = if height < 400 {
            (0..height).collect()
        } else {
            (0..1000u32).map(|i| (i as u64 * (height - 1) as u64 / 999) as u32).collect()
        };
        for v in fades {
            let f = fade(v);
            for &y in &rows {
                if let Some(expected) = alpha_in_floating_point(y, height, v) {
                    assert_eq!(alpha_for_row(y, height, f), expected, "row {} of {}, fade {}", y, height, v);
                }
            }
        }
    }
}
