use vstd::prelude::*;
use image::DynamicImage;
use image::GenericImageView;
use image::RgbaImage;

verus! {

/// An image of the `image` crate, in any of its pixel layouts. Its contents
/// are known here only through `image_dims` and `image_rgba8`.
#[verifier::external_type_specification]
#[verifier::external_body]
pub struct ExDynamicImage(DynamicImage);

/// Width and height of an image of the `image` crate.
pub uninterp spec fn image_dims(img: DynamicImage) -> (u32, u32);

/// The buffer of the RGBA8 copy that `DynamicImage::to_rgba8` makes of an
/// image: its pixels row by row from the top, four bytes each.
pub uninterp spec fn image_rgba8(img: DynamicImage) -> Seq<u8>;

/// The raster that an image of the `image` crate stands for: its
/// dimensions, and the pixels of its RGBA8 copy.
pub open spec fn image_raster(img: DynamicImage) -> Raster {
    Raster {
        width: image_dims(img).0 as nat,
        height: image_dims(img).1 as nat,
        data: image_rgba8(img).take(4 * image_dims(img).0 * image_dims(img).1),
    }
}

/// Calls `GenericImageView::dimensions` on a `DynamicImage`. Trusted: the
/// pair returned is what `image_dims` names.
#[verifier::external_body]
fn dynamic_dimensions(img: &DynamicImage) -> (dims: (u32, u32))
    ensures
        dims == image_dims(*img),
{
    img.dimensions()
}

/// Calls `DynamicImage::to_rgba8` and hands out the buffer of the copy with
/// `ImageBuffer::into_raw`. Trusted: the buffer is what `image_rgba8`
/// names, and it holds at least four bytes for every pixel of the image. It
/// may hold more, since an RGBA8 image is copied with its buffer as it is.
#[verifier::external_body]
fn dynamic_to_rgba8(img: &DynamicImage) -> (raw: Vec<u8>)
    ensures
        raw@ == image_rgba8(*img),
        raw@.len() >= 4 * image_dims(*img).0 * image_dims(*img).1,
{
    img.to_rgba8().into_raw()
}

/// Calls `ImageBuffer::from_raw` for an RGBA8 image and wraps the buffer
/// as `DynamicImage::ImageRgba8`. Trusted: there is an image exactly when
/// the buffer holds at least four bytes for every pixel; the image has the
/// dimensions given, and its RGBA8 copy has the buffer handed in.
#[verifier::external_body]
fn dynamic_from_rgba8(width: u32, height: u32, data: Vec<u8>) -> (img: Option<DynamicImage>)
    ensures
        img is Some <==> 4 * width * height <= data@.len(),
        img matches Some(i) ==> image_dims(i) == (width, height) && image_rgba8(i) == data@,
{
    RgbaImage::from_raw(width, height, data).map(DynamicImage::ImageRgba8)
}

/// One pixel of a raster image: four 8-bit channels.
#[derive(Clone, Copy, Debug, PartialEq, Eq, Structural)]
pub struct Rgba {
    pub r: u8,
    pub g: u8,
    pub b: u8,
    pub a: u8,
}

/// Channel `c` of a pixel, in the order R, G, B, A.
pub open spec fn channel(px: Rgba, c: int) -> u8 {
    if c == 0 {
        px.r
    } else if c == 1 {
        px.g
    } else if c == 2 {
        px.b
    } else {
        px.a
    }
}

/// The pixel whose four channels start at byte `4 * p` of `data`.
pub open spec fn pixel_at(data: Seq<u8>, p: int) -> Rgba {
    Rgba { r: data[4 * p], g: data[4 * p + 1], b: data[4 * p + 2], a: data[4 * p + 3] }
}

/// Mathematical model of a raster image: rows from top to bottom, pixels from
/// left to right, channels in the order R, G, B, A.
pub struct Raster {
    pub width: nat,
    pub height: nat,
    pub data: Seq<u8>,
}

impl Raster {
    /// The buffer holds exactly `width * height` pixels.
    pub open spec fn wf(self) -> bool {
        self.data.len() == 4 * self.width * self.height
    }

    /// The pixel in column `x` of row `y`.
    pub open spec fn pixel(self, x: int, y: int) -> Rgba {
        pixel_at(self.data, y * self.width + x)
    }
}

/// Row-major pixel indices of a `width` by `height` grid stay inside the grid.
pub proof fn lemma_pixel_index_bounds(width: int, height: int, x: int, y: int)
    requires
        0 <= x < width,
        0 <= y < height,
    ensures
        0 <= y * width + x < width * height,
        0 <= 4 * (y * width + x),
        4 * (y * width + x) + 4 <= 4 * width * height,
{
    assert(y * width + x < width * height) by (nonlinear_arith)
        requires
            0 <= x < width,
            0 <= y < height,
    ;
    assert(0 <= y * width + x) by (nonlinear_arith)
        requires
            0 <= x < width,
            0 <= y < height,
    ;
    assert(4 * (width * height) == 4 * width * height) by (nonlinear_arith);
}

/// A raster image in memory: a linear RGBA8 buffer, top row first.
pub struct RasterImage {
    width: u32,
    height: u32,
    data: Vec<u8>,
}

impl View for RasterImage {
    type V = Raster;

    closed spec fn view(&self) -> Raster {
        Raster { width: self.width as nat, height: self.height as nat, data: self.data@ }
    }
}

impl RasterImage {
    #[verifier::type_invariant]
    pub open spec fn well_formed(self) -> bool {
        &&& self@.wf()
        &&& self@.width <= u32::MAX
        &&& self@.height <= u32::MAX
    }

    /// Wraps a buffer that holds exactly `width * height` RGBA pixels.
    pub fn from_raw(width: u32, height: u32, data: Vec<u8>) -> (image: Option<RasterImage>)
        ensures
            image is Some <==> data@.len() == 4 * width * height,
            image matches Some(img) ==> img@ == (Raster {
                width: width as nat,
                height: height as nat,
                data: data@,
            }),
    {
        assert(4 * (width as int) * (height as int) <= 4 * 0xffff_ffff * 0xffff_ffff)
            by (nonlinear_arith)
            requires
                0 <= width <= 0xffff_ffff,
                0 <= height <= 0xffff_ffff,
        ;
        let need: u128 = 4u128 * (width as u128) * (height as u128);
        if data.len() as u128 == need {
            Some(RasterImage { width, height, data })
        } else {
            None
        }
    }

    pub fn width(&self) -> (width: u32)
        ensures
            width == self@.width,
    {
        self.width
    }

    pub fn height(&self) -> (height: u32)
        ensures
            height == self@.height,
    {
        self.height
    }

    pub fn dimensions(&self) -> (dims: (u32, u32))
        ensures
            dims.0 == self@.width,
            dims.1 == self@.height,
    {
        (self.width, self.height)
    }

    /// The underlying buffer.
    pub fn as_raw(&self) -> (raw: &Vec<u8>)
        ensures
            raw@ == self@.data,
    {
        &self.data
    }

    /// Gives the underlying buffer back.
    pub fn into_raw(self) -> (raw: Vec<u8>)
        ensures
            raw@ == self@.data,
    {
        self.data
    }

    /// Copies an image of the `image` crate, in any pixel layout, as RGBA8.
    pub fn from_dynamic(img: &DynamicImage) -> (raster: RasterImage)
        ensures
            raster@ == image_raster(*img),
    {
        let (width, height) = dynamic_dimensions(img);
        let mut data = dynamic_to_rgba8(img);
        assert(data.len() <= usize::MAX);
        assert(4 * (width as int) * (height as int) <= 4 * 0xffff_ffff * 0xffff_ffff)
            by (nonlinear_arith)
            requires
                0 <= width <= 0xffff_ffff,
                0 <= height <= 0xffff_ffff,
        ;
        let need: u128 = 4u128 * (width as u128) * (height as u128);
        data.truncate(need as usize);
        RasterImage { width, height, data }
    }

    /// Hands the pixels to the `image` crate as an RGBA8 image.
    pub fn into_dynamic(self) -> (img: Option<DynamicImage>)
        ensures
            img matches Some(i) && image_raster(i) == self@,
    {
        proof {
            use_type_invariant(&self);
        }
        let ghost model = self@;
        let img = dynamic_from_rgba8(self.width, self.height, self.data);
        proof {
            let i = img->Some_0;
            assert(image_raster(i).data =~= model.data);
        }
        img
    }

    /// The pixel in column `x` of row `y`.
    pub fn get_pixel(&self, x: u32, y: u32) -> (px: Rgba)
        requires
            x < self@.width,
            y < self@.height,
        ensures
            px == self@.pixel(x as int, y as int),
    {
        proof {
            use_type_invariant(self);
            lemma_pixel_index_bounds(self.width as int, self.height as int, x as int, y as int);
            assert(self.data.len() == 4 * self.width * self.height);
        }
        let i: usize = 4 * (y as usize * self.width as usize + x as usize);
        Rgba { r: self.data[i], g: self.data[i + 1], b: self.data[i + 2], a: self.data[i + 3] }
    }
}

} // verus!
