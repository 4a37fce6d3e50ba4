use gradient_overlay::blend::blend_pixels;
use gradient_overlay::color::Rgb;
use gradient_overlay::fade::Fade;
use gradient_overlay::overlay::{
    create_overlay_image, select_gradient_color, GradientColorType,
};
use gradient_overlay::raster::Image;
use image::Rgba;
use kmeans_colors::get_kmeans;
use palette::cast::from_component_slice;
use palette::{IntoColor, Lab, Srgb};

fn dummy_image(width: u32, height: u32, color: Rgba<u8>) -> Image {
    let mut img = Image::new(width, height);
    for y in 0..height {
        for x in 0..width {
            img.put_pixel(x, y, color);
        }
    }
    img
}

fn calculate_dominant_color(flat: &Vec<u8>) -> Rgb {
    let lab: Vec<Lab> = from_component_slice::<Srgb<u8>>(flat)
        .iter()
        .map(|x| x.into_linear().into_color())
        .collect();
    let kmeans = get_kmeans(1, 10, 1e-5, false, &lab, 42);
    let dominant_lab = kmeans.centroids[0];
    let rgb: Srgb<f32> = dominant_lab.into_color();
    let bytes: Srgb<u8> = rgb.into_format();
    Rgb(bytes.red, bytes.green, bytes.blue)
}

fn full() -> Fade {
    Fade::from_bits(1.0f32.to_bits()).unwrap()
}

#[test]
fn test_select_gradient_color_dominant() {
    let img = dummy_image(2, 2, Rgba([10, 20, 30, 255]));
    let result =
        select_gradient_color(GradientColorType::Dominant, 2, 2, &img, calculate_dominant_color);
    assert_eq!(result, Rgb(10, 20, 30));
}

#[test]
fn test_select_gradient_color_dominant_bottom() {
    let mut img = dummy_image(2, 2, Rgba([0, 0, 0, 255]));
    img.put_pixel(0, 1, Rgba([100, 150, 200, 255]));
    img.put_pixel(1, 1, Rgba([100, 150, 200, 255]));

    let result = select_gradient_color(
        GradientColorType::DominantBottom,
        2,
        2,
        &img,
        calculate_dominant_color,
    );
    assert_eq!(result, Rgb(100, 150, 200));
}

#[test]
fn test_select_gradient_color_user_selected() {
    let result = select_gradient_color(
        GradientColorType::UserSelected(1, 2, 3),
        0,
        0,
        &dummy_image(1, 1, Rgba([0, 0, 0, 255])),
        calculate_dominant_color,
    );
    assert_eq!(result, Rgb(1, 2, 3));
}

#[test]
fn test_create_overlay_image_dimensions() {
    let width = 4;
    let height = 4;
    let base_color = Rgba([100, 100, 100, 255]);
    let dominant_color = Rgb(255, 0, 0); // Red

    let img = dummy_image(width, height, base_color);
    let result = create_overlay_image(width, height, dominant_color, img, full());

    assert_eq!(result.width(), width);
    assert_eq!(result.height(), height);
}

#[test]
fn test_create_overlay_image_blending() {
    let width = 1;
    let height = 2;
    let base_color = Rgba([0, 0, 0, 255]);
    let dominant_color = Rgb(255, 0, 0); // Red

    let img = dummy_image(width, height, base_color);
    let result = create_overlay_image(width, height, dominant_color, img, full());

    // Check that the output pixel is not the same as the base (i.e., blending occurred)
    let top_pixel = result.get_pixel(0, 0);
    let bottom_pixel = result.get_pixel(0, 1);

    assert_ne!(top_pixel, base_color);
    assert_ne!(bottom_pixel, base_color);
}

#[test]
fn test_blend_pixels_half_alpha() {
    let base = Rgba([100, 100, 100, 255]);
    let overlay = Rgba([200, 50, 0, 128]); // 50% alpha

    let result = blend_pixels(base, overlay);
    let expected = Rgba([
        ((200f32 * 0.5 + 100f32 * 0.5).round() as u8),
        ((50f32 * 0.5 + 100f32 * 0.5).round() as u8),
        ((0f32 * 0.5 + 100f32 * 0.5).round() as u8),
        255,
    ]);

    assert_eq!(result, expected);
}

#[test]
fn test_blend_pixels_full_alpha() {
    let base = Rgba([100, 100, 100, 255]);
    let overlay = Rgba([255, 0, 0, 255]); // fully opaque

    let result = blend_pixels(base, overlay);
    let expected = Rgba([255, 0, 0, 255]);

    assert_eq!(result, expected);
}

#[test]
fn test_blend_pixels_zero_alpha() {
    let base = Rgba([100, 100, 100, 255]);
    let overlay = Rgba([255, 0, 0, 0]); // fully transparent

    let result = blend_pixels(base, overlay);
    let expected = Rgba([100, 100, 100, 255]);

    assert_eq!(result, expected);
}

fn fade(v: f32) -> Fade {
    Fade::from_bits(v.to_bits()).unwrap()
}

#[test]
fn overlay_of_a_red_square_with_a_fixed_gray() {
    let img = dummy_image(2, 2, Rgba([255, 0, 0, 255]));
    let color = select_gradient_color(
        GradientColorType::UserSelected(50, 50, 50),
        2,
        2,
        &img,
        calculate_dominant_color,
    );
    assert_eq!(color, Rgb(50, 50, 50));
    let result = create_overlay_image(2, 2, color, img, full());
    assert_eq!(result.dimensions(), (2, 2));
    // row 0 has alpha 163, row 1 has alpha 10
    for x in 0..2 {
        assert_eq!(result.get_pixel(x, 0), Rgba([124, 32, 32, 255]));
        assert_eq!(result.get_pixel(x, 1), Rgba([247, 2, 2, 255]));
    }
}

#[test]
fn overlay_of_a_single_pixel() {
    let img = dummy_image(1, 1, Rgba([0, 100, 200, 7]));
    let result = create_overlay_image(1, 1, Rgb(255, 255, 255), img, fade(0.0));
    assert_eq!(result.dimensions(), (1, 1));
    // alpha 163: 255 * 163 / 255, (255 * 163 + 100 * 92) / 255, (255 * 163 + 200 * 92) / 255
    assert_eq!(result.get_pixel(0, 0), Rgba([163, 199, 235, 255]));
}

#[test]
fn overlay_blends_each_row_with_its_own_alpha() {
    let mut img = Image::new(3, 10);
    for y in 0..10 {
        for x in 0..3 {
            img.put_pixel(x, y, Rgba([(20 * x) as u8, (25 * y) as u8, 200, (x + y) as u8]));
        }
    }
    let half = fade(0.5);
    let result = create_overlay_image(3, 10, Rgb(10, 250, 90), img, half);
    assert_eq!(result.dimensions(), (3, 10));
    for y in 0..10 {
        let alpha = gradient_overlay::curve::alpha_for_row(y, 10, half);
        for x in 0..3 {
            let base = Rgba([(20 * x) as u8, (25 * y) as u8, 200, (x + y) as u8]);
            let expected = blend_pixels(base, Rgba([10, 250, 90, alpha]));
            assert_eq!(result.get_pixel(x, y), expected, "pixel ({}, {})", x, y);
            assert_eq!(result.get_pixel(x, y).0[3], 255);
        }
    }
    // the anchor row is left as it was, but for its alpha
    assert_eq!(result.get_pixel(1, 4), Rgba([20, 100, 200, 255]));
}

#[test]
fn overlay_of_the_top_left_part_of_an_image() {
    let mut img = dummy_image(4, 4, Rgba([0, 0, 0, 255]));
    img.put_pixel(1, 0, Rgba([255, 255, 255, 255]));
    let result = create_overlay_image(2, 1, Rgb(0, 0, 0), img, full());
    assert_eq!(result.dimensions(), (2, 1));
    assert_eq!(result.get_pixel(0, 0), Rgba([0, 0, 0, 255]));
    // alpha 163 of black over white: 255 * 92 / 255
    assert_eq!(result.get_pixel(1, 0), Rgba([92, 92, 92, 255]));
}

#[test]
fn overlay_without_pixels() {
    let result = create_overlay_image(0, 5, Rgb(1, 2, 3), dummy_image(1, 1, Rgba([0; 4])), full());
    assert_eq!(result.dimensions(), (0, 5));
    let result = create_overlay_image(5, 0, Rgb(1, 2, 3), dummy_image(1, 1, Rgba([0; 4])), full());
    assert_eq!(result.dimensions(), (5, 0));
}

#[test]
fn fixed_color_is_returned_for_any_image() {
    let panics = |_: &Vec<u8>| -> Rgb { panic!("a fixed color needs no samples") };
    for (w, h) in [(0, 0), (1, 1), (3, 2), (1, 7)] {
        let img = dummy_image(w, h, Rgba([9, 8, 7, 6]));
        let result = select_gradient_color(GradientColorType::UserSelected(1, 2, 3), w, h, &img, panics);
        assert_eq!(result, Rgb(1, 2, 3));
    }
}

#[test]
fn samples_are_the_color_channels_in_row_major_order() {
    let raw: Vec<u8> = (0u8..24).collect();
    let img = Image::from_raw(3, 2, raw).unwrap();
    assert_eq!(
        gradient_overlay::overlay::dominant_samples(&img),
        vec![0, 1, 2, 4, 5, 6, 8, 9, 10, 12, 13, 14, 16, 17, 18, 20, 21, 22]
    );
    assert_eq!(
        gradient_overlay::overlay::bottom_row_samples(3, 2, &img),
        vec![12, 13, 14, 16, 17, 18, 20, 21, 22]
    );
    assert_eq!(gradient_overlay::overlay::bottom_row_samples(3, 1, &img), vec![0, 1, 2, 4, 5, 6, 8, 9, 10]);
    assert_eq!(gradient_overlay::overlay::bottom_row_samples(2, 2, &img), vec![12, 13, 14, 16, 17, 18]);
    assert_eq!(gradient_overlay::overlay::bottom_row_samples(0, 2, &img), Vec::<u8>::new());
    let empty = Image::new(0, 3);
    assert_eq!(gradient_overlay::overlay::dominant_samples(&empty), Vec::<u8>::new());
}

#[test]
fn selection_hands_the_samples_to_the_extractor() {
    let raw: Vec<u8> = (0u8..24).collect();
    let img = Image::from_raw(3, 2, raw).unwrap();
    let first_and_length = |flat: &Vec<u8>| Rgb(flat[0], flat[flat.len() - 1], flat.len() as u8);
    assert_eq!(
        select_gradient_color(GradientColorType::Dominant, 3, 2, &img, first_and_length),
        Rgb(0, 22, 18)
    );
    assert_eq!(
        select_gradient_color(GradientColorType::DominantBottom, 3, 2, &img, first_and_length),
        Rgb(12, 22, 9)
    );
}

#[test]
fn bottom_row_color_depends_on_the_bottom_row_only() {
    let mut first = dummy_image(3, 3, Rgba([0, 0, 0, 255]));
    let mut second = dummy_image(3, 3, Rgba([255, 255, 255, 10]));
    for x in 0..3 {
        let p = Rgba([40 * x as u8, 200, 17, 255]);
        first.put_pixel(x, 2, p);
        second.put_pixel(x, 2, p);
    }
    second.put_pixel(1, 1, Rgba([1, 2, 3, 4]));
    assert_eq!(
        gradient_overlay::overlay::bottom_row_samples(3, 3, &first),
        gradient_overlay::overlay::bottom_row_samples(3, 3, &second)
    );
    let a = select_gradient_color(GradientColorType::DominantBottom, 3, 3, &first, calculate_dominant_color);
    let b = select_gradient_color(GradientColorType::DominantBottom, 3, 3, &second, calculate_dominant_color);
    assert_eq!(a, b);
    let whole_a = select_gradient_color(GradientColorType::Dominant, 3, 3, &first, calculate_dominant_color);
    let whole_b = select_gradient_color(GradientColorType::Dominant, 3, 3, &second, calculate_dominant_color);
    assert_ne!(whole_a, whole_b);
}

#[test]
fn generator_selects_and_overlays() {
    let img = dummy_image(2, 2, Rgba([255, 0, 0, 255]));
    let result = gradient_overlay::overlay::RealImageGenerator.generate(
        img,
        GradientColorType::UserSelected(50, 50, 50),
        full(),
        calculate_dominant_color,
    );
    assert_eq!(result.dimensions(), (2, 2));
    for y in 0..2 {
        for x in 0..2 {
            let p = result.get_pixel(x, y);
            assert_eq!(p.0[3], 255);
            assert_ne!(p, Rgba([255, 0, 0, 255]));
        }
    }
    assert_eq!(result.into_raw(), vec![124, 32, 32, 255, 124, 32, 32, 255, 247, 2, 2, 255, 247, 2, 2, 255]);

    let img = dummy_image(2, 3, Rgba([10, 20, 30, 255]));
    let result = gradient_overlay::overlay::generate_from_image(
        img,
        GradientColorType::Dominant,
        fade(0.5),
        calculate_dominant_color,
    );
    assert_eq!(result.dimensions(), (2, 3));
    for y in 0..3 {
        for x in 0..2 {
            assert_eq!(result.get_pixel(x, y), Rgba([10, 20, 30, 255]));
        }
    }
}

#[test]
fn test_calculate_dominant_color_single_color() {
    let red_pixel = vec![255, 0, 0];
    let flat: Vec<u8> = red_pixel.repeat(10);
    let img = dummy_image(10, 1, Rgba([255, 0, 0, 255]));
    assert_eq!(gradient_overlay::overlay::dominant_samples(&img), flat);
    let dominant =
        select_gradient_color(GradientColorType::Dominant, 10, 1, &img, calculate_dominant_color);
    assert_eq!(dominant, Rgb(255, 0, 0));
}
