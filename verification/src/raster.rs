//! The in-memory raster a transform run works on, and the trusted calls
//! into the codec collaborators.
//!
//! A `Raster` pairs the decoded image with its pixel dimensions held as
//! plain values, so verified code can reason about sizes while the pixel
//! data itself stays opaque. Every mutation goes through a wrapper that
//! re-reads the dimensions from the image it produced.

use vstd::prelude::*;
use crate::resize::ResizeMethod;
use crate::format::ImageKind;
use rgb::FromSlice;

verus! {

#[verifier::external_type_specification]
#[verifier::external_body]
pub struct ExDynamicImage(image::DynamicImage);

/// A decoded image with its dimensions mirrored as plain values.
pub struct Raster {
    pub img: image::DynamicImage,
    pub width: u32,
    pub height: u32,
}

impl Raster {
    /// Relies on image::DynamicImage::width and height: wrap a decoded
    /// image together with the dimensions it reports.
    #[verifier::external_body]
    pub fn from_image(img: image::DynamicImage) -> (r: Raster)
    {
        let width = img.width();
        let height = img.height();
        Raster { img, width, height }
    }

    /// Relies on image::DynamicImage::rotate90: the result is the image
    /// turned a quarter clockwise, so its dimensions are swapped.
    #[verifier::external_body]
    pub(crate) fn rotate90(&mut self)
        ensures
            final(self).width == old(self).height,
            final(self).height == old(self).width,
    {
        let i = self.img.rotate90();
        self.width = i.width();
        self.height = i.height();
        self.img = i;
    }

    /// Relies on image::DynamicImage::rotate180: a half turn keeps the
    /// dimensions.
    #[verifier::external_body]
    pub(crate) fn rotate180(&mut self)
        ensures
            final(self).width == old(self).width,
            final(self).height == old(self).height,
    {
        let i = self.img.rotate180();
        self.width = i.width();
        self.height = i.height();
        self.img = i;
    }

    /// Relies on image::DynamicImage::rotate270: three quarter turns swap
    /// the dimensions.
    #[verifier::external_body]
    pub(crate) fn rotate270(&mut self)
        ensures
            final(self).width == old(self).height,
            final(self).height == old(self).width,
    {
        let i = self.img.rotate270();
        self.width = i.width();
        self.height = i.height();
        self.img = i;
    }

    /// Relies on image::DynamicImage::resize_exact: the result has exactly
    /// the requested dimensions, whatever the aspect ratio.
    #[verifier::external_body]
    pub(crate) fn resize_exact(&mut self, w: u32, h: u32, method: &ResizeMethod)
        ensures
            final(self).width == w,
            final(self).height == h,
    {
        let filter = match method {
            ResizeMethod::Lanczos3 => image::imageops::FilterType::Lanczos3,
            ResizeMethod::Nearest => image::imageops::FilterType::Nearest,
            ResizeMethod::CatmullRom => image::imageops::FilterType::CatmullRom,
            ResizeMethod::Triangle => image::imageops::FilterType::Triangle,
            ResizeMethod::Gaussian => image::imageops::FilterType::Gaussian,
        };
        let i = self.img.resize_exact(w, h, filter);
        self.width = i.width();
        self.height = i.height();
        self.img = i;
    }

    /// Relies on image::DynamicImage::resize_to_fill: the image is scaled
    /// to cover the box, then cropped to exactly the requested size. A
    /// zero-sized source is excluded: the crate's arithmetic does not
    /// accept it.
    #[verifier::external_body]
    pub(crate) fn resize_to_fill(&mut self, w: u32, h: u32, method: &ResizeMethod)
        requires
            old(self).width > 0,
            old(self).height > 0,
        ensures
            final(self).width == w,
            final(self).height == h,
    {
        let filter = match method {
            ResizeMethod::Lanczos3 => image::imageops::FilterType::Lanczos3,
            ResizeMethod::Nearest => image::imageops::FilterType::Nearest,
            ResizeMethod::CatmullRom => image::imageops::FilterType::CatmullRom,
            ResizeMethod::Triangle => image::imageops::FilterType::Triangle,
            ResizeMethod::Gaussian => image::imageops::FilterType::Gaussian,
        };
        let i = self.img.resize_to_fill(w, h, filter);
        self.width = i.width();
        self.height = i.height();
        self.img = i;
    }

    /// Relies on image::DynamicImage::thumbnail: the result fits within
    /// the box, except that either dimension is at least one pixel.
    #[verifier::external_body]
    pub(crate) fn thumbnail(&mut self, w: u32, h: u32)
        ensures
            final(self).width <= (if w > 1 { w } else { 1 }),
            final(self).height <= (if h > 1 { h } else { 1 }),
    {
        let i = self.img.thumbnail(w, h);
        self.width = i.width();
        self.height = i.height();
        self.img = i;
    }

    /// Relies on image::DynamicImage::write_to: encode to the chosen
    /// quality-less format in memory; the crate reports failures as
    /// values, never panics.
    #[verifier::external_body]
    pub(crate) fn encode_classic(&self, kind: &ImageKind) -> (r: Result<Vec<u8>, String>)
        requires
            *kind is Png || *kind is Jpeg || *kind is Tiff,
    {
        let format = match kind {
            ImageKind::Jpeg => image::ImageFormat::Jpeg,
            ImageKind::Tiff => image::ImageFormat::Tiff,
            _ => image::ImageFormat::Png,
        };
        let mut buf: std::io::Cursor<Vec<u8>> = std::io::Cursor::new(Vec::new());
        match self.img.write_to(&mut buf, format) {
            Ok(()) => Ok(buf.into_inner()),
            Err(e) => Err(e.to_string()),
        }
    }

    /// Relies on webp::Encoder::from_image and encode_simple: encode with
    /// the given quality; an unsupported layout or configuration comes
    /// back as an error value.
    #[verifier::external_body]
    pub(crate) fn encode_webp(&self, quality: u8) -> (r: Result<Vec<u8>, String>)
    {
        match webp::Encoder::from_image(&self.img) {
            Ok(enc) => match enc.encode_simple(false, quality.into()) {
                Ok(mem) => Ok(mem.to_vec()),
                Err(e) => Err(format!("{:?}", e)),
            },
            Err(e) => Err(e.to_string()),
        }
    }

    /// Relies on ravif::Encoder::encode_rgba: encode the RGBA pixels with
    /// the given quality and speed. The encoder accepts quality 1 to 100
    /// and speed 1 to 10 only, and panics outside them.
    #[verifier::external_body]
    pub(crate) fn encode_avif(&self, quality: u8, speed: u8) -> (r: Result<Vec<u8>, String>)
        requires
            1 <= quality <= 100,
            1 <= speed <= 10,
    {
        let w = self.img.width() as usize;
        let h = self.img.height() as usize;
        let raw = self.img.to_rgba8().into_raw();
        ravif::Encoder::new()
            .with_speed(speed)
            .with_quality(quality.into())
            .encode_rgba(ravif::Img::new(raw.as_rgba(), w, h))
            .map(|encoded| encoded.avif_file)
            .map_err(|e| e.to_string())
    }
}

} // verus!
