//! Raster images of four bytes a pixel, kept in an `image::RgbaImage`.

use vstd::prelude::*;
use image::{Rgba, RgbaImage};

verus! {

/// `image::Rgba`, a pixel: its one field, which is public, holds the channel
/// values in the order red, green, blue, alpha.
#[verifier::external_type_specification]
pub struct ExRgba<T>(Rgba<T>);

/// An image of four bytes a pixel. It holds an `image::RgbaImage`, that is an
/// `image::ImageBuffer` of `Rgba<u8>` pixels over a `Vec<u8>`; what is known
/// of it is what the private methods `raw_*` below state of that type's
/// methods.
#[verifier::external_body]
pub struct Image {
    inner: RgbaImage,
}

/// The width that the `ImageBuffer` was made with: the number of pixels in a
/// row.
pub uninterp spec fn image_width(img: Image) -> nat;

/// The height that the `ImageBuffer` was made with: the number of rows.
pub uninterp spec fn image_height(img: Image) -> nat;

/// The samples that the `ImageBuffer` holds for its pixels: four for each
/// pixel, rows from the top, each row from the left. This is the start of
/// its container, as far as the pixels reach.
pub uninterp spec fn image_samples(img: Image) -> Seq<u8>;

/// What an image holds, as plain values.
pub struct ImageView {
    pub width: nat,
    pub height: nat,
    pub samples: Seq<u8>,
}

impl ImageView {
    /// There are four channel values for each pixel.
    pub open spec fn wf(self) -> bool {
        self.samples.len() == 4 * (self.width * self.height)
    }

    /// Whether `(x, y)` names a pixel of the image.
    pub open spec fn contains(self, x: int, y: int) -> bool {
        0 <= x < self.width && 0 <= y < self.height
    }

    /// Position of the pixel `(x, y)` in row-major order.
    pub open spec fn index(self, x: int, y: int) -> int {
        y * self.width + x
    }

    /// The pixel at position `i` in row-major order.
    pub open spec fn pixel_at(self, i: int) -> Rgba<u8> {
        Rgba(
            [
                self.samples[4 * i],
                self.samples[4 * i + 1],
                self.samples[4 * i + 2],
                self.samples[4 * i + 3],
            ],
        )
    }

    /// The pixel in column `x` of row `y`.
    pub open spec fn pixel(self, x: int, y: int) -> Rgba<u8> {
        self.pixel_at(self.index(x, y))
    }

    /// The image with the pixel at position `i` replaced by `p`.
    pub open spec fn with_pixel_at(self, i: int, p: Rgba<u8>) -> ImageView {
        ImageView {
            width: self.width,
            height: self.height,
            samples: self.samples.subrange(0, 4 * i) + p.0@ + self.samples.subrange(
                4 * i + 4,
                self.samples.len() as int,
            ),
        }
    }

    /// The image with the pixel in column `x` of row `y` replaced by `p`.
    pub open spec fn with_pixel(self, x: int, y: int, p: Rgba<u8>) -> ImageView {
        self.with_pixel_at(self.index(x, y), p)
    }

    /// Pixels inside the image have positions inside the samples, and two of
    /// them share a position only if they are the same pixel.
    pub proof fn lemma_index(self, x: int, y: int)
        requires
            self.contains(x, y),
        ensures
            0 <= self.index(x, y) < self.width * self.height,
            self.index(x, y) / (self.width as int) == y,
            self.index(x, y) % (self.width as int) == x,
    {
        let w = self.width as int;
        let h = self.height as int;
        assert(y * w + x < w * h) by (nonlinear_arith)
            requires
                0 <= x < w,
                0 <= y < h,
        ;
        assert(0 <= y * w + x) by (nonlinear_arith)
            requires
                0 <= x < w,
                0 <= y,
        ;
        vstd::arithmetic::div_mod::lemma_fundamental_div_mod_converse(y * w + x, w, y, x);
    }

    /// Replacing one pixel changes that pixel and no other.
    pub proof fn lemma_with_pixel_at(self, i: int, p: Rgba<u8>, j: int)
        requires
            self.wf(),
            0 <= i < self.width * self.height,
            0 <= j < self.width * self.height,
        ensures
            self.with_pixel_at(i, p).wf(),
            self.with_pixel_at(i, p).pixel_at(j) == (if j == i {
                p
            } else {
                self.pixel_at(j)
            }),
    {
        let after = self.with_pixel_at(i, p);
        assert(p.0@.len() == 4);
        assert(after.samples.len() == self.samples.len());
        if j == i {
            assert(after.samples[4 * j] == p.0@[0]);
            assert(after.samples[4 * j + 1] == p.0@[1]);
            assert(after.samples[4 * j + 2] == p.0@[2]);
            assert(after.samples[4 * j + 3] == p.0@[3]);
            assert(after.pixel_at(j).0 =~= p.0);
        } else {
            assert(after.samples[4 * j] == self.samples[4 * j]);
            assert(after.samples[4 * j + 1] == self.samples[4 * j + 1]);
            assert(after.samples[4 * j + 2] == self.samples[4 * j + 2]);
            assert(after.samples[4 * j + 3] == self.samples[4 * j + 3]);
        }
    }

    /// Replacing the pixel at `(x, y)` changes that pixel and no other.
    pub proof fn lemma_with_pixel(self, x: int, y: int, p: Rgba<u8>, x2: int, y2: int)
        requires
            self.wf(),
            self.contains(x, y),
            self.contains(x2, y2),
        ensures
            self.with_pixel(x, y, p).wf(),
            self.with_pixel(x, y, p).pixel(x2, y2) == (if x2 == x && y2 == y {
                p
            } else {
                self.pixel(x2, y2)
            }),
    {
        self.lemma_index(x, y);
        self.lemma_index(x2, y2);
        self.lemma_with_pixel_at(self.index(x, y), p, self.index(x2, y2));
    }
}

impl View for Image {
    type V = ImageView;

    open spec fn view(&self) -> ImageView {
        ImageView {
            width: image_width(*self),
            height: image_height(*self),
            samples: image_samples(*self),
        }
    }
}

impl Image {
    /// `ImageBuffer::dimensions`: width and height, as the buffer was made
    /// with. A buffer holds four samples for each of its pixels, and they
    /// lie in a vector, so that there are at most `isize::MAX` of them.
    #[verifier::external_body]
    fn raw_dimensions(&self) -> (d: (u32, u32))
        ensures
            d.0 == image_width(*self),
            d.1 == image_height(*self),
            image_samples(*self).len() == 4 * (d.0 * d.1),
            4 * (d.0 * d.1) <= isize::MAX,
    {
        self.inner.dimensions()
    }

    /// `ImageBuffer::get_pixel`: the four samples of the pixel at `(x, y)`.
    /// It panics outside the image, which `requires` excludes.
    #[verifier::external_body]
    fn raw_get_pixel(&self, x: u32, y: u32) -> (p: Rgba<u8>)
        requires
            x < image_width(*self),
            y < image_height(*self),
        ensures
            p.0@ == image_samples(*self).subrange(
                4 * (y * image_width(*self) + x),
                4 * (y * image_width(*self) + x) + 4,
            ),
    {
        *self.inner.get_pixel(x, y)
    }

    /// `ImageBuffer::put_pixel`: overwrites the four samples of the pixel at
    /// `(x, y)` and nothing else. It panics outside the image, which
    /// `requires` excludes.
    #[verifier::external_body]
    fn raw_put_pixel(&mut self, x: u32, y: u32, p: Rgba<u8>)
        requires
            x < image_width(*old(self)),
            y < image_height(*old(self)),
        ensures
            image_width(*final(self)) == image_width(*old(self)),
            image_height(*final(self)) == image_height(*old(self)),
            image_samples(*final(self)) == image_samples(*old(self)).subrange(
                0,
                4 * (y * image_width(*old(self)) + x),
            ) + p.0@ + image_samples(*old(self)).subrange(
                4 * (y * image_width(*old(self)) + x) + 4,
                image_samples(*old(self)).len() as int,
            ),
    {
        self.inner.put_pixel(x, y, p)
    }

    /// `ImageBuffer::new`: an image of the given size with every sample
    /// zero. It panics where the samples would not fit a vector, which
    /// `requires` excludes.
    #[verifier::external_body]
    fn raw_new(width: u32, height: u32) -> (img: Image)
        requires
            4 * (width * height) <= isize::MAX,
        ensures
            image_width(img) == width,
            image_height(img) == height,
            image_samples(img) == Seq::new((4 * (width * height)) as nat, |i: int| 0u8),
    {
        Image { inner: RgbaImage::new(width, height) }
    }

    /// `ImageBuffer::from_raw`: an image over the given samples, if there
    /// are enough of them for the size; samples beyond the last pixel are
    /// kept in the buffer and are no part of the image.
    #[verifier::external_body]
    fn raw_from_vec(width: u32, height: u32, samples: Vec<u8>) -> (made: Option<Image>)
        ensures
            match made {
                Some(img) => {
                    &&& 4 * (width * height) <= samples@.len()
                    &&& image_width(img) == width
                    &&& image_height(img) == height
                    &&& image_samples(img) == samples@.take(4 * (width * height))
                },
                None => 4 * (width * height) > samples@.len(),
            },
    {
        match RgbaImage::from_raw(width, height, samples) {
            Some(inner) => Some(Image { inner }),
            None => None,
        }
    }

    /// `ImageBuffer::into_raw`: the buffer's vector, which starts with the
    /// samples of the image.
    #[verifier::external_body]
    fn raw_into_vec(self) -> (samples: Vec<u8>)
        ensures
            samples@.len() >= image_samples(self).len(),
            samples@.take(image_samples(self).len() as int) == image_samples(self),
    {
        self.inner.into_raw()
    }

    /// An image of the given size with every sample zero.
    pub fn new(width: u32, height: u32) -> (img: Image)
        requires
            4 * (width * height) <= isize::MAX,
        ensures
            img@.wf(),
            img@.width == width,
            img@.height == height,
            forall|i: int| 0 <= i < img@.samples.len() ==> img@.samples[i] == 0,
    {
        Image::raw_new(width, height)
    }

    /// An image of the given size over the given samples, four for each
    /// pixel, rows from the top. `None` if the samples are too few; samples
    /// beyond the last pixel are no part of the image.
    pub fn from_raw(width: u32, height: u32, samples: Vec<u8>) -> (made: Option<Image>)
        ensures
            made is Some <==> 4 * (width * height) <= samples@.len(),
            made matches Some(img) ==> {
                &&& img@.wf()
                &&& img@.width == width
                &&& img@.height == height
                &&& img@.samples == samples@.take(4 * (width * height))
            },
    {
        Image::raw_from_vec(width, height, samples)
    }

    /// The samples of the image, followed by whatever the buffer was made
    /// with beyond them.
    pub fn into_raw(self) -> (samples: Vec<u8>)
        ensures
            samples@.len() >= self@.samples.len(),
            samples@.take(self@.samples.len() as int) == self@.samples,
    {
        self.raw_into_vec()
    }

    /// Width and height of the image.
    pub fn dimensions(&self) -> (d: (u32, u32))
        ensures
            d.0 == self@.width,
            d.1 == self@.height,
            self@.wf(),
            4 * (self@.width * self@.height) <= isize::MAX,
    {
        self.raw_dimensions()
    }

    /// Number of pixels in a row.
    pub fn width(&self) -> (w: u32)
        ensures
            w == self@.width,
    {
        self.raw_dimensions().0
    }

    /// Number of rows.
    pub fn height(&self) -> (h: u32)
        ensures
            h == self@.height,
    {
        self.raw_dimensions().1
    }

    /// The pixel in column `x` of row `y`.
    pub fn get_pixel(&self, x: u32, y: u32) -> (p: Rgba<u8>)
        requires
            self@.contains(x as int, y as int),
        ensures
            p == self@.pixel(x as int, y as int),
    {
        let _ = self.raw_dimensions();
        let p = self.raw_get_pixel(x, y);
        proof {
            self@.lemma_index(x as int, y as int);
            let i = self@.index(x as int, y as int);
            let run = self@.samples.subrange(4 * i, 4 * i + 4);
            assert(run[0] == self@.samples[4 * i]);
            assert(run[1] == self@.samples[4 * i + 1]);
            assert(run[2] == self@.samples[4 * i + 2]);
            assert(run[3] == self@.samples[4 * i + 3]);
            assert(p.0 =~= self@.pixel(x as int, y as int).0);
        }
        p
    }

    /// Replaces the pixel in column `x` of row `y` by `p`.
    pub fn put_pixel(&mut self, x: u32, y: u32, p: Rgba<u8>)
        requires
            old(self)@.contains(x as int, y as int),
        ensures
            final(self)@ == old(self)@.with_pixel(x as int, y as int, p),
            final(self)@.wf(),
    {
        let _ = self.raw_dimensions();
        proof {
            self@.lemma_index(x as int, y as int);
            self@.lemma_with_pixel_at(self@.index(x as int, y as int), p, 0);
        }
        self.raw_put_pixel(x, y, p);
    }
}

} // verus!
