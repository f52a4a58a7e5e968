//! The resize step of the pipeline: mode, interpolation method and the
//! target box.

use vstd::prelude::*;
use crate::raster::Raster;
use crate::text::str_eq;

verus! {

/// The resize mode. Exact forces both output dimensions, taking them
/// from the configured height alone; Fill covers the box then crops;
/// Thumbnail fits within the box.
#[derive(Debug, Clone, Copy, PartialEq, Eq, Structural, Default)]
pub enum ResizeType {
    #[default]
    Exact,
    Fill,
    Thumbnail,
}

/// The interpolation filter handed to the scaler.
#[derive(Debug, Clone, Copy, PartialEq, Eq, Structural, Default)]
pub enum ResizeMethod {
    #[default]
    Lanczos3,
    Nearest,
    CatmullRom,
    Triangle,
    Gaussian,
}

/// The resize mode a user's choice string selects; anything unknown
/// disables resizing.
pub open spec fn resize_type_of(s: Seq<char>) -> Option<ResizeType> {
    if s == "exact"@ {
        Some(ResizeType::Exact)
    } else if s == "fill"@ {
        Some(ResizeType::Fill)
    } else if s == "thumbnail"@ {
        Some(ResizeType::Thumbnail)
    } else {
        None
    }
}

/// The method a user's choice string selects; anything unknown falls
/// back to Lanczos3.
pub open spec fn resize_method_of(s: Seq<char>) -> ResizeMethod {
    if s == "nearest"@ {
        ResizeMethod::Nearest
    } else if s == "catmullrom"@ {
        ResizeMethod::CatmullRom
    } else if s == "triangle"@ {
        ResizeMethod::Triangle
    } else if s == "gaussian"@ {
        ResizeMethod::Gaussian
    } else {
        ResizeMethod::Lanczos3
    }
}

/// The resize configuration: disabled while `resize_type` is absent.
#[derive(Debug, Clone, Copy, PartialEq)]
pub struct Resize {
    pub resize_type: Option<ResizeType>,
    pub method: ResizeMethod,
    pub width: u32,
    pub height: u32,
}

impl Default for Resize {
    /// Disabled, Lanczos3, an empty box.
    fn default() -> (r: Self)
        ensures
            r.resize_type is None,
            r.method == ResizeMethod::Lanczos3,
            r.width == 0,
            r.height == 0,
    {
        Resize { resize_type: None, method: ResizeMethod::Lanczos3, width: 0, height: 0 }
    }
}

impl Resize {
    /// Choose the mode from a user string.
    pub fn set_resize_type(&mut self, value: String)
        ensures
            final(self).resize_type == resize_type_of(value@),
            final(self).method == old(self).method,
            final(self).width == old(self).width,
            final(self).height == old(self).height,
    {
        self.resize_type = if str_eq(value.as_str(), "exact") {
            Some(ResizeType::Exact)
        } else if str_eq(value.as_str(), "fill") {
            Some(ResizeType::Fill)
        } else if str_eq(value.as_str(), "thumbnail") {
            Some(ResizeType::Thumbnail)
        } else {
            None
        };
    }

    /// Choose the interpolation method from a user string.
    pub fn set_method(&mut self, value: String)
        ensures
            final(self).method == resize_method_of(value@),
            final(self).resize_type == old(self).resize_type,
            final(self).width == old(self).width,
            final(self).height == old(self).height,
    {
        self.method = if str_eq(value.as_str(), "nearest") {
            ResizeMethod::Nearest
        } else if str_eq(value.as_str(), "catmullrom") {
            ResizeMethod::CatmullRom
        } else if str_eq(value.as_str(), "triangle") {
            ResizeMethod::Triangle
        } else if str_eq(value.as_str(), "gaussian") {
            ResizeMethod::Gaussian
        } else {
            ResizeMethod::Lanczos3
        };
    }

    /// Apply the configured resize to the raster. Disabled means no-op.
    /// Exact forces both dimensions from the configured height; Fill
    /// covers then crops to exactly the box (a raster with an empty
    /// dimension is left alone, the scaler does not take one); Thumbnail
    /// scales down to fit within the box and never upscales: the box is
    /// clamped to the source dimensions first.
    pub fn apply(&self, r: &mut Raster)
        ensures
            match self.resize_type {
                None => *final(r) == *old(r),
                Some(ResizeType::Exact) => final(r).width == self.height && final(r).height
                    == self.height,
                Some(ResizeType::Fill) => if old(r).width > 0 && old(r).height > 0 {
                    final(r).width == self.width && final(r).height == self.height
                } else {
                    *final(r) == *old(r)
                },
                Some(ResizeType::Thumbnail) => final(r).width <= (if self.width > 1 {
                    self.width
                } else {
                    1
                }) && final(r).height <= (if self.height > 1 {
                    self.height
                } else {
                    1
                }) && final(r).width <= (if old(r).width > 1 {
                    old(r).width
                } else {
                    1
                }) && final(r).height <= (if old(r).height > 1 {
                    old(r).height
                } else {
                    1
                }),
            },
    {
        match &self.resize_type {
            None => {},
            Some(ResizeType::Exact) => r.resize_exact(self.height, self.height, &self.method),
            Some(ResizeType::Fill) => {
                if r.width > 0 && r.height > 0 {
                    r.resize_to_fill(self.width, self.height, &self.method);
                }
            },
            Some(ResizeType::Thumbnail) => {
                let bw: u32 = if self.width < r.width {
                    self.width
                } else {
                    r.width
                };
                let bh: u32 = if self.height < r.height {
                    self.height
                } else {
                    r.height
                };
                r.thumbnail(bw, bh);
            },
        }
    }
}

} // verus!
