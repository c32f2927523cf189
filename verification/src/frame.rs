use vstd::prelude::*;
use vstd::string::{StrSliceExecFns, StringExecFns};

use crate::error::{EfficientLoftrError, ErrorView};

verus! {

/// An 8-bit grayscale image stored row-major.
#[derive(Clone, Debug)]
pub struct GrayscaleFrame {
    pub width: usize,
    pub height: usize,
    pub pixels: Vec<u8>,
}

/// Two frames can be matched when both are well-shaped and share their dimensions.
pub open spec fn frames_compatible(image0: &GrayscaleFrame, image1: &GrayscaleFrame) -> bool {
    &&& image0.width != 0
    &&& image0.height != 0
    &&& image1.width == image0.width
    &&& image1.height == image0.height
    &&& image0.pixels@.len() == image0.width * image0.height
    &&& image1.pixels@.len() == image1.width * image1.height
}

fn pixel_count_matches(frame: &GrayscaleFrame) -> (r: bool)
    ensures
        r == (frame.pixels@.len() == frame.width * frame.height),
{
    let len = frame.pixels.len();
    match frame.width.checked_mul(frame.height) {
        Some(n) => len == n,
        None => {
            assert(len <= usize::MAX);
            false
        },
    }
}

/// Checks the shape conditions that a pair of frames must meet before matching.
pub fn pair_shapes_valid(image0: &GrayscaleFrame, image1: &GrayscaleFrame) -> (r: bool)
    ensures
        r == frames_compatible(image0, image1),
{
    !(image0.width == 0 || image0.height == 0 || image1.width != image0.width
        || image1.height != image0.height || !pixel_count_matches(image0)
        || !pixel_count_matches(image1))
}

/// Refuses a pair of frames that cannot be matched.
pub fn check_pair_shapes(image0: &GrayscaleFrame, image1: &GrayscaleFrame) -> (r: Result<
    (),
    EfficientLoftrError,
>)
    ensures
        r is Ok <==> frames_compatible(image0, image1),
        r matches Err(e) ==> e@ == ErrorView::InvalidImageShape,
{
    if pair_shapes_valid(image0, image1) {
        Ok(())
    } else {
        Err(EfficientLoftrError::InvalidImageShape)
    }
}

/// What the `image` crate decodes from an encoded image and converts to 8-bit grayscale:
/// the width, the height and the row-major pixels, or the text of its error. The format is
/// the one named by the file extension, when there is one.
pub uninterp spec fn decoded_luma(bytes: Seq<u8>, extension: Option<Seq<char>>) -> Result<
    (u32, u32, Seq<u8>),
    Seq<char>,
>;

/// An optional extension taken by view.
pub open spec fn extension_view(extension: Option<&str>) -> Option<Seq<char>> {
    match extension {
        Some(e) => Some(e@),
        None => None,
    }
}

/// Decodes an encoded image with the `image` crate (`ImageFormat::from_extension`,
/// `ImageReader::with_format` or `ImageReader::new`, `decode`, `to_luma8`, `into_raw`).
///
/// Trusted: the result is what the crate computes from these arguments alone, named
/// `decoded_luma`, and the pixel buffer holds one byte per pixel: decoders fill a buffer of
/// exactly the image's size, and the conversion to grayscale builds one value per pixel.
#[verifier::external_body]
fn decode_luma8(bytes: &[u8], extension: Option<&str>) -> (r: Result<(u32, u32, Vec<u8>), String>)
    ensures
        match r {
            Ok((w, h, px)) => px@.len() == w * h && decoded_luma(bytes@, extension_view(extension)) == Ok::<
                (u32, u32, Seq<u8>),
                Seq<char>,
            >((w, h, px@)),
            Err(m) => decoded_luma(bytes@, extension_view(extension)) == Err::<
                (u32, u32, Seq<u8>),
                Seq<char>,
            >(m@),
        },
{
    let reader = match extension {
        Some(ext) => match image::ImageFormat::from_extension(ext) {
            Some(format) => image::ImageReader::with_format(std::io::Cursor::new(bytes), format),
            None => return Err(image::ImageError::Unsupported(
                image::error::ImageFormatHint::PathExtension(ext.into()).into(),
            ).to_string()),
        },
        None => image::ImageReader::new(std::io::Cursor::new(bytes)),
    };
    let gray = reader.decode().map_err(|e| e.to_string())?.to_luma8();
    Ok((gray.width(), gray.height(), gray.into_raw()))
}

/// The extension by which a decoder is chosen: none when the file has an empty one.
pub open spec fn format_hint(extension: Seq<char>) -> Option<Seq<char>> {
    if extension.len() == 0 {
        None
    } else {
        Some(extension)
    }
}

/// Decodes the contents of an image file into a grayscale frame. `extension` is the file's
/// extension (empty when it has none), which names the format as it does for a file opened
/// by path.
pub fn frame_from_encoded(bytes: &[u8], extension: &str) -> (r: Result<
    GrayscaleFrame,
    EfficientLoftrError,
>)
    ensures
        match r {
            Ok(f) => decoded_luma(bytes@, format_hint(extension@)) matches Ok((w, h, px))
                && f.width == w && f.height == h && f.pixels@ == px && f.pixels@.len() == f.width
                * f.height,
            Err(e) => decoded_luma(bytes@, format_hint(extension@)) matches Err(m) && e@
                == ErrorView::Image(m),
        },
{
    let hint = if extension.unicode_len() == 0 {
        None
    } else {
        Some(extension)
    };
    assert(extension_view(hint) == format_hint(extension@));
    match decode_luma8(bytes, hint) {
        Ok((w, h, pixels)) => Ok(GrayscaleFrame { width: w as usize, height: h as usize, pixels }),
        Err(m) => Err(EfficientLoftrError::Image(m)),
    }
}

/// A batch of frame pairs can be matched in one run when it is not empty, its two sides have
/// the same length, every pair can be matched, and all frames share the first frame's
/// dimensions.
pub open spec fn batch_compatible(images0: Seq<&GrayscaleFrame>, images1: Seq<&GrayscaleFrame>) -> bool {
    &&& images0.len() > 0
    &&& images0.len() == images1.len()
    &&& forall|k: int|
        0 <= k < images0.len() ==> {
            &&& frames_compatible(#[trigger] images0[k], images1[k])
            &&& images0[k].width == images0[0].width
            &&& images0[k].height == images0[0].height
        }
}

/// Refuses a batch of frame pairs that cannot be matched in one run.
pub fn check_batch_shapes(images0: &[&GrayscaleFrame], images1: &[&GrayscaleFrame]) -> (r: Result<
    (),
    EfficientLoftrError,
>)
    ensures
        r is Ok <==> batch_compatible(images0@, images1@),
        r matches Err(e) ==> e@ == ErrorView::InvalidImageShape,
{
    if images0.len() == 0 || images0.len() != images1.len() {
        return Err(EfficientLoftrError::InvalidImageShape);
    }
    let n = images0.len();
    for k in 0..n
        invariant
            n == images0@.len(),
            n == images1@.len(),
            n > 0,
            forall|j: int|
                0 <= j < k ==> {
                    &&& frames_compatible(#[trigger] images0@[j], images1@[j])
                    &&& images0@[j].width == images0@[0].width
                    &&& images0@[j].height == images0@[0].height
                },
    {
        if !pair_shapes_valid(images0[k], images1[k]) || images0[k].width != images0[0].width
            || images0[k].height != images0[0].height {
            return Err(EfficientLoftrError::InvalidImageShape);
        }
    }
    Ok(())
}

/// What the `image` crate decodes from an encoded image and converts to 8-bit RGB: the
/// width, the height and the row-major `r, g, b` bytes, or the text of its error.
pub uninterp spec fn decoded_rgb(bytes: Seq<u8>, extension: Option<Seq<char>>) -> Result<
    (u32, u32, Seq<u8>),
    Seq<char>,
>;

/// Decodes an encoded image with the `image` crate (`ImageFormat::from_extension`,
/// `ImageReader::with_format` or `ImageReader::new`, `decode`, `to_rgb8`, `into_raw`).
///
/// Trusted: the result is what the crate computes from these arguments alone, named
/// `decoded_rgb`, and the pixel buffer holds three bytes per pixel, as with `decode_luma8`.
#[verifier::external_body]
fn decode_rgb8(bytes: &[u8], extension: Option<&str>) -> (r: Result<(u32, u32, Vec<u8>), String>)
    ensures
        match r {
            Ok((w, h, px)) => px@.len() == w * h * 3 && decoded_rgb(bytes@, extension_view(extension)) == Ok::<
                (u32, u32, Seq<u8>),
                Seq<char>,
            >((w, h, px@)),
            Err(m) => decoded_rgb(bytes@, extension_view(extension)) == Err::<
                (u32, u32, Seq<u8>),
                Seq<char>,
            >(m@),
        },
{
    let reader = match extension {
        Some(ext) => match image::ImageFormat::from_extension(ext) {
            Some(format) => image::ImageReader::with_format(std::io::Cursor::new(bytes), format),
            None => return Err(image::ImageError::Unsupported(
                image::error::ImageFormatHint::PathExtension(ext.into()).into(),
            ).to_string()),
        },
        None => image::ImageReader::new(std::io::Cursor::new(bytes)),
    };
    let rgb = reader.decode().map_err(|e| e.to_string())?.to_rgb8();
    Ok((rgb.width(), rgb.height(), rgb.into_raw()))
}

/// What `image::imageops::resize` with the triangle filter makes of a grayscale image: the
/// row-major bytes of the resized image.
pub uninterp spec fn resized_luma(
    width: u32,
    height: u32,
    pixels: Seq<u8>,
    new_width: u32,
    new_height: u32,
) -> Seq<u8>;

/// What `image::imageops::resize` with the triangle filter makes of an RGB image: the
/// row-major `r, g, b` bytes of the resized image.
pub uninterp spec fn resized_rgb(
    width: u32,
    height: u32,
    pixels: Seq<u8>,
    new_width: u32,
    new_height: u32,
) -> Seq<u8>;

/// Resizes a grayscale image with `image::imageops::resize` and `FilterType::Triangle`.
///
/// Trusted: the result is what the crate computes from these arguments alone, named
/// `resized_luma`, in a buffer built for the new size. `GrayImage::from_raw` accepts the
/// input because the precondition gives it exactly `width * height` bytes.
#[verifier::external_body]
fn resize_luma_triangle(width: u32, height: u32, pixels: &[u8], new_width: u32, new_height: u32) -> (r: Vec<u8>)
    requires
        pixels@.len() == width * height,
    ensures
        r@ == resized_luma(width, height, pixels@, new_width, new_height),
        r@.len() == new_width * new_height,
{
    let image = image::GrayImage::from_raw(width, height, pixels.to_vec()).unwrap();
    image::imageops::resize(&image, new_width, new_height, image::imageops::FilterType::Triangle).into_raw()
}

/// Resizes an RGB image with `image::imageops::resize` and `FilterType::Triangle`.
///
/// Trusted: the result is what the crate computes from these arguments alone, named
/// `resized_rgb`, in a buffer built for the new size. `RgbImage::from_raw` accepts the input
/// because the precondition gives it exactly `width * height * 3` bytes.
#[verifier::external_body]
fn resize_rgb_triangle(width: u32, height: u32, pixels: &[u8], new_width: u32, new_height: u32) -> (r: Vec<u8>)
    requires
        pixels@.len() == width * height * 3,
    ensures
        r@ == resized_rgb(width, height, pixels@, new_width, new_height),
        r@.len() == new_width * new_height * 3,
{
    let image = image::RgbImage::from_raw(width, height, pixels.to_vec()).unwrap();
    image::imageops::resize(&image, new_width, new_height, image::imageops::FilterType::Triangle).into_raw()
}

/// What resizing yields for an image with `channels` bytes per pixel (1 or 3).
pub open spec fn resized(
    channels: u8,
    width: u32,
    height: u32,
    pixels: Seq<u8>,
    new_width: u32,
    new_height: u32,
) -> Seq<u8> {
    if channels == 1 {
        resized_luma(width, height, pixels, new_width, new_height)
    } else {
        resized_rgb(width, height, pixels, new_width, new_height)
    }
}

/// An image resized for display: its new width, height and row-major bytes.
pub struct ResizedImage {
    pub width: u32,
    pub height: u32,
    pub pixels: Vec<u8>,
}

/// What loading an image for display yields: the decoded image resized to the requested size,
/// or the decoder's error.
pub open spec fn loaded_resized(
    channels: u8,
    decoded: Result<(u32, u32, Seq<u8>), Seq<char>>,
    new_width: u32,
    new_height: u32,
) -> Result<Seq<u8>, ErrorView> {
    match decoded {
        Err(m) => Err(ErrorView::Image(m)),
        Ok((w, h, px)) => Ok(resized(channels, w, h, px, new_width, new_height)),
    }
}

fn resize_decoded(
    channels: u8,
    width: u32,
    height: u32,
    pixels: Vec<u8>,
    new_width: u32,
    new_height: u32,
) -> (img: ResizedImage)
    requires
        channels == 1 || channels == 3,
        pixels@.len() == width * height * channels,
    ensures
        img.pixels@ == resized(channels, width, height, pixels@, new_width, new_height),
        img.pixels@.len() == new_width * new_height * channels,
        img.width == new_width,
        img.height == new_height,
{
    let resized_pixels = if channels == 1 {
        resize_luma_triangle(width, height, pixels.as_slice(), new_width, new_height)
    } else {
        resize_rgb_triangle(width, height, pixels.as_slice(), new_width, new_height)
    };
    ResizedImage { width: new_width, height: new_height, pixels: resized_pixels }
}

/// Decodes an image file's contents to RGB and resizes it for display.
pub fn load_rgb_resized(bytes: &[u8], extension: &str, new_width: u32, new_height: u32) -> (r: Result<
    ResizedImage,
    EfficientLoftrError,
>)
    ensures
        match r {
            Ok(img) => loaded_resized(
                3,
                decoded_rgb(bytes@, format_hint(extension@)),
                new_width,
                new_height,
            ) == Ok::<Seq<u8>, ErrorView>(img.pixels@) && img.width == new_width && img.height
                == new_height && img.pixels@.len() == new_width * new_height * 3,
            Err(e) => loaded_resized(
                3,
                decoded_rgb(bytes@, format_hint(extension@)),
                new_width,
                new_height,
            ) == Err::<Seq<u8>, ErrorView>(e@),
        },
{
    let hint = if extension.unicode_len() == 0 {
        None
    } else {
        Some(extension)
    };
    assert(extension_view(hint) == format_hint(extension@));
    match decode_rgb8(bytes, hint) {
        Ok((w, h, pixels)) => Ok(resize_decoded(3, w, h, pixels, new_width, new_height)),
        Err(m) => Err(EfficientLoftrError::Image(m)),
    }
}

/// Decodes an image file's contents to grayscale and resizes it for the model.
pub fn load_grayscale_resized(bytes: &[u8], extension: &str, new_width: u32, new_height: u32) -> (r: Result<
    ResizedImage,
    EfficientLoftrError,
>)
    ensures
        match r {
            Ok(img) => loaded_resized(
                1,
                decoded_luma(bytes@, format_hint(extension@)),
                new_width,
                new_height,
            ) == Ok::<Seq<u8>, ErrorView>(img.pixels@) && img.width == new_width && img.height
                == new_height && img.pixels@.len() == new_width * new_height,
            Err(e) => loaded_resized(
                1,
                decoded_luma(bytes@, format_hint(extension@)),
                new_width,
                new_height,
            ) == Err::<Seq<u8>, ErrorView>(e@),
        },
{
    let hint = if extension.unicode_len() == 0 {
        None
    } else {
        Some(extension)
    };
    assert(extension_view(hint) == format_hint(extension@));
    match decode_luma8(bytes, hint) {
        Ok((w, h, pixels)) => Ok(resize_decoded(1, w, h, pixels, new_width, new_height)),
        Err(m) => Err(EfficientLoftrError::Image(m)),
    }
}

} // verus!
