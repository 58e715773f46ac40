use vstd::prelude::*;
use crate::audio::{decode_base64, base64_decoded, base64_ok};
use crate::chunker::{Chunkable, ChunkError};

verus! {

/// Side of a square patch, in pixels.
pub const PATCH_SIZE: u32 = 224;

#[verifier::external_type_specification]
#[verifier::external_body]
pub struct ExDynamicImage(image::DynamicImage);

/// An image given decoded or as base64-encoded PNG data.
pub enum ImageInput {
    Dynamic(image::DynamicImage),
    Base64(String),
}

/// Whether PNG data decodes.
pub uninterp spec fn png_ok(b: Seq<u8>) -> bool;

/// The image that PNG data decodes to.
pub uninterp spec fn png_image(b: Seq<u8>) -> image::DynamicImage;

/// Width and height of an image.
pub uninterp spec fn image_size(img: image::DynamicImage) -> (u32, u32);

/// The part of an image inside a rectangle, cut at the image's edges.
pub uninterp spec fn cropped(img: image::DynamicImage, x: u32, y: u32, w: u32, h: u32) -> image::DynamicImage;

/// Relies on `image::load` with `ImageFormat::Png`: whether it succeeds, and
/// the image, depend on the bytes alone.
#[verifier::external_body]
fn decode_png(bytes: Vec<u8>) -> (r: Result<image::DynamicImage, ChunkError>)
    ensures
        r is Ok <==> png_ok(bytes@),
        r is Ok ==> r->Ok_0 == png_image(bytes@),
{
    match image::load(std::io::Cursor::new(bytes), image::ImageFormat::Png) {
        Ok(img) => Ok(img),
        Err(e) => Err(ChunkError::Decode(format!("{}", e))),
    }
}

/// Relies on `DynamicImage::width`.
#[verifier::external_body]
fn image_width(img: &image::DynamicImage) -> (r: u32)
    ensures
        r == image_size(*img).0,
{
    img.width()
}

/// Relies on `DynamicImage::height`.
#[verifier::external_body]
fn image_height(img: &image::DynamicImage) -> (r: u32)
    ensures
        r == image_size(*img).1,
{
    img.height()
}

/// Relies on `DynamicImage::crop_imm`: the part of the image inside the
/// rectangle, cut at the image's edges.
#[verifier::external_body]
fn crop(img: &image::DynamicImage, x: u32, y: u32, w: u32, h: u32) -> (r: image::DynamicImage)
    ensures
        r == cropped(*img, x, y, w, h),
{
    img.crop_imm(x, y, w, h)
}

/// Patch corners of the row at height `y`, from `x` rightwards, for an
/// image `w` pixels wide.
pub open spec fn row_from(x: int, y: int, w: int) -> Seq<(u32, u32)>
    decreases w + 224 - x,
{
    if x >= w || x < 0 {
        Seq::empty()
    } else {
        seq![(x as u32, y as u32)] + row_from(x + 224, y, w)
    }
}

/// Patch corners of the rows from height `y` downwards, each row left to
/// right, for an image of `w` by `h` pixels.
pub open spec fn grid_from(y: int, w: int, h: int) -> Seq<(u32, u32)>
    decreases h + 224 - y,
{
    if y >= h || y < 0 {
        Seq::empty()
    } else {
        row_from(0, y, w) + grid_from(y + 224, w, h)
    }
}

/// Top-left corners of the patches covering a `w` by `h` image: rows top
/// to bottom, each left to right, every `PATCH_SIZE` pixels.
pub fn patch_origins(w: u32, h: u32) -> (r: Vec<(u32, u32)>)
    ensures
        r@ == grid_from(0, w as int, h as int),
{
    let mut out: Vec<(u32, u32)> = Vec::new();
    let mut y: u64 = 0;
    while y < h as u64
        invariant
            grid_from(0, w as int, h as int) == out@ + grid_from(y as int, w as int, h as int),
            y <= h as u64 + 224,
        decreases h as int + 224 - y,
    {
        let ghost o0 = out@;
        let mut x: u64 = 0;
        while x < w as u64
            invariant
                y < h as u64,
                row_from(0, y as int, w as int) + grid_from(y as int + 224, w as int, h as int)
                    == out@.skip(o0.len() as int) + row_from(x as int, y as int, w as int)
                    + grid_from(y as int + 224, w as int, h as int),
                out@.take(o0.len() as int) == o0,
                o0.len() <= out@.len(),
                x <= w as u64 + 224,
            decreases w as int + 224 - x,
        {
            let ghost before = out@;
            out.push((x as u32, y as u32));
            proof {
                assert(out@.skip(o0.len() as int) =~= before.skip(o0.len() as int).push((x as u32, y as u32)));
                assert(out@.take(o0.len() as int) =~= before.take(o0.len() as int));
            }
            x = x + 224;
        }
        proof {
            assert(out@ =~= o0 + out@.skip(o0.len() as int));
        }
        y = y + 224;
    }
    assert(out@ + Seq::<(u32, u32)>::empty() =~= out@);
    out
}

/// Cuts images into square patches.
pub struct ImageChunker;

/// The patches of `img`: one `PATCH_SIZE` square cut at each corner of
/// `grid_from` for its size, rows top to bottom, each left to right.
pub open spec fn patches_of(img: image::DynamicImage) -> Seq<image::DynamicImage> {
    let corners = grid_from(0, image_size(img).0 as int, image_size(img).1 as int);
    Seq::new(corners.len(), |k: int| cropped(img, corners[k].0, corners[k].1, 224, 224))
}

impl ImageChunker {
    /// The patches of the given image or of the decoded PNG data; fails when
    /// the base64 or PNG data cannot be decoded.
    pub fn chunk_image(input: ImageInput) -> (r: Result<Vec<image::DynamicImage>, ChunkError>)
        ensures
            input matches ImageInput::Dynamic(img) ==> r is Ok && r->Ok_0@ == patches_of(img),
            input matches ImageInput::Base64(b) ==> (r is Ok <==> base64_ok(b@) && png_ok(
                base64_decoded(b@),
            )),
            input matches ImageInput::Base64(b) ==> (r is Ok ==> r->Ok_0@ == patches_of(
                png_image(base64_decoded(b@)),
            )),
    {
        let img = match input {
            ImageInput::Dynamic(img) => img,
            ImageInput::Base64(b) => {
                let bytes = decode_base64(b.as_str())?;
                decode_png(bytes)?
            },
        };
        let w = image_width(&img);
        let h = image_height(&img);
        let origins = patch_origins(w, h);
        let ghost want = patches_of(img);
        let mut patches: Vec<image::DynamicImage> = Vec::new();
        let mut i: usize = 0;
        while i < origins.len()
            invariant
                origins@ == grid_from(0, w as int, h as int),
                w == image_size(img).0,
                h == image_size(img).1,
                want == patches_of(img),
                i <= origins@.len(),
                patches@ == want.take(i as int),
            decreases origins@.len() - i,
        {
            let (x, y) = origins[i];
            patches.push(crop(&img, x, y, PATCH_SIZE, PATCH_SIZE));
            i = i + 1;
            assert(patches@ =~= want.take(i as int));
        }
        assert(patches@ =~= want);
        Ok(patches)
    }
}

impl Chunkable for ImageChunker {
    type Input = ImageInput;
    type Output = image::DynamicImage;

    fn chunk(input: ImageInput) -> (r: Result<Vec<image::DynamicImage>, ChunkError>)
        ensures
            input matches ImageInput::Dynamic(img) ==> r is Ok && r->Ok_0@ == patches_of(img),
            input matches ImageInput::Base64(b) ==> (r is Ok <==> base64_ok(b@) && png_ok(
                base64_decoded(b@),
            )),
            input matches ImageInput::Base64(b) ==> (r is Ok ==> r->Ok_0@ == patches_of(
                png_image(base64_decoded(b@)),
            )),
    {
        Self::chunk_image(input)
    }
}

} // verus!
