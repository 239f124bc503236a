//! Decoded raster images.
//!
//! An `Image` is a row-major, channel-interleaved byte raster with 1 to 4
//! channels (grayscale, RGB, RGBA).  Container decoding (PNG/JPEG/...) is the
//! opaque collaborator's job; it is reached through one trusted wrapper and
//! its result is re-validated by verified code before an `Image` is built.

use vstd::prelude::*;
use crate::DetectError;
use crate::tensor::DIM_LIMIT;

verus! {

/// A decoded image owned by one request.
#[derive(Clone, Debug, PartialEq, Eq)]
pub struct Image {
    pub width: usize,
    pub height: usize,
    /// 1 = grayscale, 2 = grayscale+alpha, 3 = RGB, 4 = RGBA; interleaved.
    pub channels: usize,
    /// Row-major samples: `data[(y * width + x) * channels + c]`.
    pub data: Vec<u8>,
}

/// The mathematical content of an image: its extents, channel count, and
/// sample sequence.
pub struct RasterView {
    pub width: int,
    pub height: int,
    pub channels: int,
    pub data: Seq<u8>,
}

impl RasterView {
    /// Positive bounded extents, a known channel layout, and a buffer of
    /// exactly `width * height * channels` samples.
    pub open spec fn wf(self) -> bool {
        &&& 1 <= self.width <= DIM_LIMIT
        &&& 1 <= self.height <= DIM_LIMIT
        &&& 1 <= self.channels <= 4
        &&& self.data.len() == self.width * self.height * self.channels
    }

    /// The sample at pixel `(x, y)`, channel `c`.
    pub open spec fn sample(self, x: int, y: int, c: int) -> u8 {
        self.data[(y * self.width + x) * self.channels + c]
    }
}

impl View for Image {
    type V = RasterView;

    open spec fn view(&self) -> RasterView {
        RasterView {
            width: self.width as int,
            height: self.height as int,
            channels: self.channels as int,
            data: self.data@,
        }
    }
}

impl Image {
    /// The image's layout invariant, stated on its view.
    pub open spec fn wf(self) -> bool {
        self@.wf()
    }

    /// Builds an image from plain values, validating the layout: extents must
    /// be positive and bounded, the channel count between 1 and 4, and the
    /// buffer length exactly `width * height * channels`.
    pub fn new(width: usize, height: usize, channels: usize, data: Vec<u8>) -> (r: Result<
        Image,
        DetectError,
    >)
        ensures
            r is Ok <==> (1 <= width <= DIM_LIMIT && 1 <= height <= DIM_LIMIT && 1 <= channels <= 4
                && data@.len() == width * height * channels),
            r is Ok ==> r->Ok_0 == (Image { width, height, channels, data }),
            r is Ok ==> r->Ok_0.wf(),
            r is Err ==> r->Err_0 == DetectError::UnsupportedImageFormat,
    {
        if width < 1 || width > DIM_LIMIT || height < 1 || height > DIM_LIMIT {
            return Err(DetectError::UnsupportedImageFormat);
        }
        if channels < 1 || channels > 4 {
            return Err(DetectError::UnsupportedImageFormat);
        }
        proof {
            assert(1 <= width * height <= 0x4000000 && width * height * channels
                <= 0x10000000) by (nonlinear_arith)
                requires
                    1 <= width <= 0x2000,
                    1 <= height <= 0x2000,
                    1 <= channels <= 4,
            ;
        }
        let expect: usize = width * height * channels;
        if data.len() != expect {
            return Err(DetectError::UnsupportedImageFormat);
        }
        Ok(Image { width, height, channels, data })
    }

    /// Reads the sample at pixel `(x, y)`, channel `c`.
    pub fn sample_at(&self, x: usize, y: usize, c: usize) -> (r: u8)
        requires
            self.wf(),
            x < self.width,
            y < self.height,
            c < self.channels,
        ensures
            r == self@.sample(x as int, y as int, c as int),
    {
        proof {
            assert(y * self.width + x < 0x4000000 && (y * self.width + x) * self.channels
                < 0x10000000 && (y * self.width + x) * self.channels + c < self.width * self.height
                * self.channels) by (nonlinear_arith)
                requires
                    1 <= self.width <= 0x2000,
                    1 <= self.height <= 0x2000,
                    1 <= self.channels <= 4,
                    x < self.width,
                    y < self.height,
                    c < self.channels,
            ;
            assert(self.width * self.height * self.channels <= 0x10000000) by (nonlinear_arith)
                requires
                    1 <= self.width <= 0x2000,
                    1 <= self.height <= 0x2000,
                    1 <= self.channels <= 4,
            ;
        }
        let idx: usize = (y * self.width + x) * self.channels + c;
        self.data[idx]
    }
}

/// The image decoder's result on the given container bytes: `None` when the
/// format is not recognised or the body is malformed, otherwise the decoded
/// raster's width, height, and row-major RGBA samples.  Decoding depends on
/// the bytes alone, so this is a well-defined function of them.
pub uninterp spec fn rgba_of(bytes: Seq<u8>) -> Option<(int, int, Seq<u8>)>;

/// Relies on `image::load_from_memory` to recognise and decode the container
/// format, and on `DynamicImage::into_rgba8` / `ImageBuffer::into_raw` to
/// hand back the pixels as a row-major RGBA byte buffer of exactly
/// `4 * width * height` bytes.  The call is deterministic in the bytes, and
/// its outcome is named `rgba_of`: it succeeds exactly when that is `Some`,
/// and then returns the named extents and samples.
#[verifier::external_body]
fn decode_rgba_bytes(bytes: &Vec<u8>) -> (r: Result<(usize, usize, Vec<u8>), DetectError>)
    ensures
        r is Ok <==> rgba_of(bytes@) is Some,
        r is Ok ==> {
            let t = rgba_of(bytes@)->Some_0;
            &&& r->Ok_0.0 as int == t.0
            &&& r->Ok_0.1 as int == t.1
            &&& r->Ok_0.2@ == t.2
            &&& t.2.len() == 4 * t.0 * t.1
        },
        r is Err ==> r->Err_0 == DetectError::UnsupportedImageFormat,
{
    match image::load_from_memory(bytes) {
        Ok(img) => {
            let rgba = img.into_rgba8();
            let (w, h) = (rgba.width() as usize, rgba.height() as usize);
            Ok((w, h, rgba.into_raw()))
        }
        Err(_) => Err(DetectError::UnsupportedImageFormat),
    }
}

/// Decodes client-supplied image bytes into an RGBA `Image`.
///
/// Succeeds exactly when the decoder recognises the bytes (`rgba_of` is
/// `Some`) and the decoded extents are positive and within `DIM_LIMIT`; the
/// image is then built from the decoded width, height and samples.  Every
/// failure — an unrecognised format, a degenerate raster, one larger than
/// the service accepts — is `UnsupportedImageFormat`.
pub fn decode_image(bytes: &Vec<u8>) -> (r: Result<Image, DetectError>)
    ensures
        r is Ok <==> (rgba_of(bytes@) is Some && {
            let t = rgba_of(bytes@)->Some_0;
            1 <= t.0 <= DIM_LIMIT && 1 <= t.1 <= DIM_LIMIT
        }),
        r is Ok ==> {
            let t = rgba_of(bytes@)->Some_0;
            &&& r->Ok_0@ == (RasterView { width: t.0, height: t.1, channels: 4, data: t.2 })
            &&& r->Ok_0.wf()
        },
        r is Err ==> r->Err_0 == DetectError::UnsupportedImageFormat,
{
    match decode_rgba_bytes(bytes) {
        Ok((w, h, data)) => {
            proof {
                assert(4 * (w as int) * (h as int) == w * h * 4) by (nonlinear_arith);
            }
            Image::new(w, h, 4, data)
        }
        Err(_) => Err(DetectError::UnsupportedImageFormat),
    }
}

} // verus!
