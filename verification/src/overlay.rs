//! Choosing the color of the gradient and laying it over an image.

use vstd::prelude::*;
use image::Rgba;
use crate::blend::{blend_pixels, blended};
use crate::color::Rgb;
use crate::curve::{alpha_for_row, row_alpha};
use crate::fade::Fade;
use crate::raster::{Image, ImageView};

verus! {

/// Where the color of the gradient comes from.
#[derive(Clone, Copy, Debug, PartialEq, Eq, Structural)]
pub enum GradientColorType {
    /// The dominant color of the whole image.
    Dominant,
    /// The dominant color of the bottom row of the image.
    DominantBottom,
    /// The given red, green and blue.
    UserSelected(u8, u8, u8),
}

/// The color channels of `count` pixels of an image, from the pixel at
/// position `first` in row-major order on: red, green and blue of each, the
/// alpha left out.
pub open spec fn rgb_run(samples: Seq<u8>, first: int, count: int) -> Seq<u8> {
    Seq::new((3 * count) as nat, |i: int| samples[4 * (first + i / 3) + i % 3])
}

/// The color channels of every pixel of the image, rows from the top, each
/// row from the left.
pub open spec fn all_rgb(img: ImageView) -> Seq<u8> {
    rgb_run(img.samples, 0, (img.width * img.height) as int)
}

/// The color channels of the first `width` pixels of row `height - 1`.
pub open spec fn bottom_rgb(img: ImageView, width: int, height: int) -> Seq<u8> {
    rgb_run(img.samples, (height - 1) * img.width, width)
}

/// A run of pixels followed by the run that starts where it ends is one run.
pub proof fn lemma_rgb_run_append(samples: Seq<u8>, first: int, a: int, b: int)
    requires
        a >= 0,
        b >= 0,
    ensures
        rgb_run(samples, first, a) + rgb_run(samples, first + a, b) == rgb_run(
            samples,
            first,
            a + b,
        ),
{
    let joined = rgb_run(samples, first, a) + rgb_run(samples, first + a, b);
    let whole = rgb_run(samples, first, a + b);
    assert(joined.len() == whole.len());
    assert forall|i: int| 0 <= i < whole.len() implies joined[i] == whole[i] by {
        if i >= 3 * a {
            let j = i - 3 * a;
            assert(j / 3 == i / 3 - a);
            assert(j % 3 == i % 3);
        }
    }
    assert(joined =~= whole);
}

/// A run of pixels is made of the samples of those pixels and of no others.
pub proof fn lemma_rgb_run_local(s1: Seq<u8>, s2: Seq<u8>, first: int, count: int)
    requires
        count >= 0,
        forall|i: int| 4 * first <= i < 4 * (first + count) ==> s1[i] == s2[i],
    ensures
        rgb_run(s1, first, count) == rgb_run(s2, first, count),
{
    assert(rgb_run(s1, first, count) =~= rgb_run(s2, first, count));
}

/// Appends the color channels of the first `width` pixels of row `y` to
/// `flat`.
fn push_row_rgb(img: &Image, y: u32, width: u32, flat: &mut Vec<u8>)
    requires
        img@.wf(),
        width <= img@.width,
        y < img@.height,
        old(flat)@.len() + 3 * width <= usize::MAX,
    ensures
        final(flat)@ == old(flat)@ + rgb_run(img@.samples, y * img@.width, width as int),
{
    let ghost before = flat@;
    let ghost first = y * img@.width;
    let mut x: u32 = 0;
    while x < width
        invariant
            img@.wf(),
            x <= width <= img@.width,
            y < img@.height,
            first == y * img@.width,
            before.len() + 3 * width <= usize::MAX,
            flat@ == before + rgb_run(img@.samples, first, x as int),
        decreases width - x,
    {
        let p = img.get_pixel(x, y);
        flat.push(p.0[0]);
        flat.push(p.0[1]);
        flat.push(p.0[2]);
        proof {
            let one = seq![p.0[0], p.0[1], p.0[2]];
            assert(one =~= rgb_run(img@.samples, first + x, 1));
            lemma_rgb_run_append(img@.samples, first, x as int, 1);
            assert(flat@ =~= before + rgb_run(img@.samples, first, x as int) + one);
        }
        x = x + 1;
    }
}

/// The color channels of every pixel of the image: the samples from which
/// its dominant color is taken.
pub fn dominant_samples(img: &Image) -> (flat: Vec<u8>)
    ensures
        flat@ == all_rgb(img@),
{
    let (width, height) = img.dimensions();
    let mut flat: Vec<u8> = Vec::new();
    let mut y: u32 = 0;
    assert(rgb_run(img@.samples, 0, 0) =~= Seq::<u8>::empty());
    while y < height
        invariant
            img@.wf(),
            width == img@.width,
            height == img@.height,
            y <= height,
            4 * (img@.width * img@.height) <= isize::MAX,
            flat@ == rgb_run(img@.samples, 0, y * width),
        decreases height - y,
    {
        proof {
            assert(y * width + width <= width * height && y * width >= 0) by (nonlinear_arith)
                requires
                    0 <= y < height,
                    0 <= width,
            ;
            lemma_rgb_run_append(img@.samples, 0, y * width, width as int);
            assert((y + 1) * width == y * width + width) by (nonlinear_arith);
        }
        push_row_rgb(img, y, width, &mut flat);
        y = y + 1;
    }
    assert(y * width == img@.width * img@.height) by (nonlinear_arith)
        requires
            y == height,
            width == img@.width,
            height == img@.height,
    ;
    flat
}

/// The color channels of the first `width` pixels of row `height - 1`: the
/// samples from which the dominant color of the bottom row is taken.
pub fn bottom_row_samples(width: u32, height: u32, img: &Image) -> (flat: Vec<u8>)
    requires
        width <= img@.width,
        1 <= height <= img@.height,
    ensures
        flat@ == bottom_rgb(img@, width as int, height as int),
{
    let _ = img.dimensions();
    let mut flat: Vec<u8> = Vec::new();
    proof {
        assert(3 * width <= 4 * (img@.width * img@.height)) by (nonlinear_arith)
            requires
                0 <= width <= img@.width,
                1 <= img@.height,
        ;
    }
    push_row_rgb(img, height - 1, width, &mut flat);
    flat
}

/// The samples that the dominant color is taken from, for the two ways of
/// choosing a color that take one.
pub open spec fn gradient_samples(
    select: GradientColorType,
    width: int,
    height: int,
    img: ImageView,
) -> Seq<u8> {
    match select {
        GradientColorType::Dominant => all_rgb(img),
        GradientColorType::DominantBottom => bottom_rgb(img, width, height),
        GradientColorType::UserSelected(_, _, _) => Seq::empty(),
    }
}

/// Whether `color` is a color that `select` allows for the image: the given
/// one, or one that `dominant` may return for the samples that `select`
/// names.
pub open spec fn color_selected<F: Fn(&Vec<u8>) -> Rgb>(
    select: GradientColorType,
    width: int,
    height: int,
    img: ImageView,
    dominant: F,
    color: Rgb,
) -> bool {
    match select {
        GradientColorType::UserSelected(r, g, b) => color == Rgb(r, g, b),
        _ => exists|flat: Vec<u8>|
            flat@ == gradient_samples(select, width, height, img) && call_ensures(
                dominant,
                (&flat,),
                color,
            ),
    }
}

/// The bottom row's samples are made of the bottom row alone: two images of
/// one width whose rows `height - 1` agree in their first `width` pixels give
/// the same samples, whatever their other rows hold.
pub proof fn lemma_bottom_rgb_depends_on_last_row(
    a: ImageView,
    b: ImageView,
    width: int,
    height: int,
)
    requires
        a.wf(),
        b.wf(),
        a.width == b.width,
        0 <= width <= a.width,
        1 <= height <= a.height,
        height <= b.height,
        forall|x: int, y: int|
            0 <= x < width && y == height - 1 ==> #[trigger] a.pixel(x, y) == b.pixel(x, y),
    ensures
        bottom_rgb(a, width, height) == bottom_rgb(b, width, height),
        gradient_samples(GradientColorType::DominantBottom, width, height, a) == gradient_samples(
            GradientColorType::DominantBottom,
            width,
            height,
            b,
        ),
{
    let first = (height - 1) * a.width;
    assert forall|i: int| 4 * first <= i < 4 * (first + width) implies a.samples[i]
        == b.samples[i] by {
        let x = i / 4 - first;
        let pa = a.pixel(x, height - 1);
        let pb = b.pixel(x, height - 1);
        assert(pa == pb);
        assert(a.index(x, height - 1) == first + x);
        let c = i % 4;
        assert(pa.0[c] == a.samples[4 * (first + x) + c]);
        assert(pb.0[c] == b.samples[4 * (first + x) + c]);
    }
    lemma_rgb_run_local(a.samples, b.samples, first, width);
}

/// The color of the bottom row depends on the bottom row alone: for two
/// images of one width whose rows `height - 1` agree in their first `width`
/// pixels, `dominant` is asked about the same samples, so that a color can
/// be chosen for the one exactly if it can be chosen for the other.
pub proof fn lemma_bottom_color_depends_on_last_row<F: Fn(&Vec<u8>) -> Rgb>(
    a: ImageView,
    b: ImageView,
    width: int,
    height: int,
    dominant: F,
    color: Rgb,
)
    requires
        a.wf(),
        b.wf(),
        a.width == b.width,
        0 <= width <= a.width,
        1 <= height <= a.height,
        height <= b.height,
        forall|x: int, y: int|
            0 <= x < width && y == height - 1 ==> #[trigger] a.pixel(x, y) == b.pixel(x, y),
    ensures
        color_selected(GradientColorType::DominantBottom, width, height, a, dominant, color)
            == color_selected(GradientColorType::DominantBottom, width, height, b, dominant, color),
{
    lemma_bottom_rgb_depends_on_last_row(a, b, width, height);
}

/// Chooses the color of the gradient: the given one, or what `dominant`
/// makes of the color channels of the whole image or of the first `width`
/// pixels of row `height - 1`. `dominant` is called at most once, and not at
/// all for a given color.
pub fn select_gradient_color<F: Fn(&Vec<u8>) -> Rgb>(
    select: GradientColorType,
    width: u32,
    height: u32,
    img: &Image,
    dominant: F,
) -> (color: Rgb)
    requires
        select is DominantBottom ==> width <= img@.width && 1 <= height <= img@.height,
        !(select is UserSelected) ==> forall|flat: Vec<u8>|
            flat@ == gradient_samples(select, width as int, height as int, img@)
                ==> call_requires(dominant, (&flat,)),
    ensures
        color_selected(select, width as int, height as int, img@, dominant, color),
        select matches GradientColorType::UserSelected(r, g, b) ==> color == Rgb(r, g, b),
{
    match select {
        GradientColorType::Dominant => {
            let flat = dominant_samples(img);
            dominant(&flat)
        },
        GradientColorType::DominantBottom => {
            let flat = bottom_row_samples(width, height, img);
            dominant(&flat)
        },
        GradientColorType::UserSelected(r, g, b) => Rgb(r, g, b),
    }
}

/// The pixel that is laid over every pixel of a row: the color of the
/// gradient with the row's alpha.
pub open spec fn overlay_pixel(color: Rgb, alpha: int) -> Rgba<u8> {
    Rgba([color.0, color.1, color.2, alpha as u8])
}

/// What the pixel at `(x, y)` of `img` becomes under the overlay.
pub open spec fn overlaid_pixel(
    img: ImageView,
    x: int,
    y: int,
    height: int,
    color: Rgb,
    fade: Fade,
) -> Rgba<u8> {
    blended(img.pixel(x, y), overlay_pixel(color, row_alpha(y, height, fade)))
}

/// Whether `out` is the top left `width` by `height` pixels of `img` with
/// the gradient of `color` laid over them.
pub open spec fn is_overlay_of(
    out: ImageView,
    width: int,
    height: int,
    color: Rgb,
    img: ImageView,
    fade: Fade,
) -> bool {
    &&& out.wf()
    &&& out.width == width
    &&& out.height == height
    &&& forall|x: int, y: int|
        0 <= x < width && 0 <= y < height ==> #[trigger] out.pixel(x, y) == overlaid_pixel(
            img,
            x,
            y,
            height,
            color,
            fade,
        )
}

/// Lays the gradient of `gradient_rgb` over the top left `width` by `height`
/// pixels of `img`, into a new image of that size. Every pixel of the result
/// is opaque.
pub fn create_overlay_image(
    width: u32,
    height: u32,
    gradient_rgb: Rgb,
    img: Image,
    fade: Fade,
) -> (output: Image)
    requires
        width > 0 && height > 0 ==> width <= img@.width && height <= img@.height,
    ensures
        is_overlay_of(output@, width as int, height as int, gradient_rgb, img@, fade),
        output@.width == width,
        output@.height == height,
        forall|x: int, y: int|
            0 <= x < width && 0 <= y < height ==> (#[trigger] output@.pixel(x, y)).0[3] == 255,
{
    let _ = img.dimensions();
    proof {
        assert(4 * (width * height) <= isize::MAX) by (nonlinear_arith)
            requires
                width > 0 && height > 0 ==> width <= img@.width && height <= img@.height,
                4 * (img@.width * img@.height) <= isize::MAX,
                0 <= width,
                0 <= height,
        ;
    }
    let mut output = Image::new(width, height);
    if width == 0 || height == 0 {
        return output;
    }
    let mut y: u32 = 0;
    while y < height
        invariant
            0 < width <= img@.width,
            height <= img@.height,
            y <= height,
            img@.wf(),
            output@.wf(),
            output@.width == width,
            output@.height == height,
            forall|x2: int, y2: int|
                0 <= x2 < width && 0 <= y2 < y ==> #[trigger] output@.pixel(x2, y2)
                    == overlaid_pixel(img@, x2, y2, height as int, gradient_rgb, fade),
        decreases height - y,
    {
        let alpha = alpha_for_row(y, height, fade);
        let overlay = Rgba([gradient_rgb.0, gradient_rgb.1, gradient_rgb.2, alpha]);
        let mut x: u32 = 0;
        while x < width
            invariant
                0 < width <= img@.width,
                y < height <= img@.height,
                x <= width,
                img@.wf(),
                output@.wf(),
                output@.width == width,
                output@.height == height,
                overlay == overlay_pixel(gradient_rgb, row_alpha(y as int, height as int, fade)),
                forall|x2: int, y2: int|
                    0 <= x2 < width && 0 <= y2 < y ==> #[trigger] output@.pixel(x2, y2)
                        == overlaid_pixel(img@, x2, y2, height as int, gradient_rgb, fade),
                forall|x2: int|
                    0 <= x2 < x ==> #[trigger] output@.pixel(x2, y as int) == overlaid_pixel(
                        img@,
                        x2,
                        y as int,
                        height as int,
                        gradient_rgb,
                        fade,
                    ),
            decreases width - x,
        {
            let base = img.get_pixel(x, y);
            let mixed = blend_pixels(base, overlay);
            let ghost before = output@;
            output.put_pixel(x, y, mixed);
            proof {
                assert forall|x2: int, y2: int|
                    0 <= x2 < width && 0 <= y2 < height implies #[trigger] output@.pixel(x2, y2)
                    == (if x2 == x && y2 == y {
                    mixed
                } else {
                    before.pixel(x2, y2)
                }) by {
                    before.lemma_with_pixel(x as int, y as int, mixed, x2, y2);
                }
            }
            x = x + 1;
        }
        y = y + 1;
    }
    proof {
        assert forall|x2: int, y2: int| 0 <= x2 < width && 0 <= y2 < height implies (
        #[trigger] output@.pixel(x2, y2)).0[3] == 255 by {
            assert(output@.pixel(x2, y2) == overlaid_pixel(
                img@,
                x2,
                y2,
                height as int,
                gradient_rgb,
                fade,
            ));
        }
    }
    output
}

/// Lays a gradient over a whole image: chooses the color as
/// `gradient_variant` says and blends it over every pixel.
pub fn generate_from_image<F: Fn(&Vec<u8>) -> Rgb>(
    img: Image,
    gradient_variant: GradientColorType,
    fade: Fade,
    dominant: F,
) -> (output: Image)
    requires
        gradient_variant is DominantBottom ==> img@.height >= 1,
        !(gradient_variant is UserSelected) ==> forall|flat: Vec<u8>|
            flat@ == gradient_samples(
                gradient_variant,
                img@.width as int,
                img@.height as int,
                img@,
            ) ==> call_requires(dominant, (&flat,)),
    ensures
        output@.width == img@.width,
        output@.height == img@.height,
        exists|color: Rgb|
            color_selected(
                gradient_variant,
                img@.width as int,
                img@.height as int,
                img@,
                dominant,
                color,
            ) && is_overlay_of(
                output@,
                img@.width as int,
                img@.height as int,
                color,
                img@,
                fade,
            ),
{
    let (width, height) = img.dimensions();
    let gradient_rgb = select_gradient_color(gradient_variant, width, height, &img, dominant);
    create_overlay_image(width, height, gradient_rgb, img, fade)
}

/// The generator that does the work itself, on an image that has been
/// fetched and decoded.
pub struct RealImageGenerator;

impl RealImageGenerator {
    /// Lays a gradient over a whole image; see `generate_from_image`.
    pub fn generate<F: Fn(&Vec<u8>) -> Rgb>(
        &self,
        img: Image,
        gradient_variant: GradientColorType,
        fade: Fade,
        dominant: F,
    ) -> (output: Image)
        requires
            gradient_variant is DominantBottom ==> img@.height >= 1,
            !(gradient_variant is UserSelected) ==> forall|flat: Vec<u8>|
                flat@ == gradient_samples(
                    gradient_variant,
                    img@.width as int,
                    img@.height as int,
                    img@,
                ) ==> call_requires(dominant, (&flat,)),
        ensures
            output@.width == img@.width,
            output@.height == img@.height,
            exists|color: Rgb|
                color_selected(
                    gradient_variant,
                    img@.width as int,
                    img@.height as int,
                    img@,
                    dominant,
                    color,
                ) && is_overlay_of(
                    output@,
                    img@.width as int,
                    img@.height as int,
                    color,
                    img@,
                    fade,
                ),
    {
        generate_from_image(img, gradient_variant, fade, dominant)
    }
}

} // verus!
