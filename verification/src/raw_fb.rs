//! Plain value types of the native framebuffer interface: pixel
//! formats, buffering modes, presentation transforms and rectangles.
//! The native window and buffer objects themselves live outside this
//! library, with the code that talks to the display.

use vstd::prelude::*;

verus! {

/// How a frame is flipped or rotated at presentation.
#[derive(Debug, Copy, Clone, PartialEq, Eq, Structural, Hash)]
pub enum Transform {
    /// Presented as it is.
    Identity,
    /// Mirrored horizontally.
    FlipH,
    /// Mirrored vertically.
    FlipV,
    /// Rotated a quarter turn.
    Rot90,
    /// Rotated a half turn.
    Rot180,
    /// Rotated three quarter turns.
    Rot270,
}

impl Transform {
    /// The wire value of the transform.
    pub open spec fn spec_code(self) -> u32 {
        match self {
            Transform::Identity => 0,
            Transform::FlipH => 1,
            Transform::FlipV => 2,
            Transform::Rot90 => 4,
            Transform::Rot180 => 3,
            Transform::Rot270 => 7,
        }
    }

    /// The wire value of the transform.
    pub fn code(self) -> (c: u32)
        ensures
            c == self.spec_code(),
    {
        match self {
            Transform::Identity => 0,
            Transform::FlipH => 1,
            Transform::FlipV => 2,
            Transform::Rot90 => 4,
            Transform::Rot180 => 3,
            Transform::Rot270 => 7,
        }
    }
}

/// A crop rectangle in buffer-queue coordinates.
#[derive(Default, Debug, Copy, Clone, PartialEq, Eq, Structural, Hash)]
pub struct BqRect {
    /// Left edge.
    pub left: i32,
    /// Top edge.
    pub top: i32,
    /// Right edge.
    pub right: i32,
    /// Bottom edge.
    pub bottom: i32,
}

/// The kind tag of a graphics memory mapping.
#[derive(Default, Debug, Copy, Clone, PartialEq, Eq, Structural, Hash)]
pub struct NvKind(pub i32);

/// The pixel format a framebuffer is allocated with.
#[derive(Debug, Copy, Clone, PartialEq, Eq, Structural, Hash)]
pub enum PixelFormat {
    /// Four bytes per pixel: red, green, blue, alpha.
    Rgba8888,
    /// Four bytes per pixel, the fourth ignored.
    Rgbx8888,
    /// Two bytes per pixel, packed 5-6-5.
    Rgb565,
    /// Four bytes per pixel: blue, green, red, alpha.
    Bgra8888,
    /// Two bytes per pixel, four bits a channel.
    Rgba4444,
}

impl PixelFormat {
    /// How many bytes one pixel of this format takes.
    pub open spec fn spec_bytes_per_pixel(self) -> u8 {
        match self {
            PixelFormat::Rgba8888 => 4,
            PixelFormat::Rgbx8888 => 4,
            PixelFormat::Rgb565 => 2,
            PixelFormat::Bgra8888 => 4,
            PixelFormat::Rgba4444 => 2,
        }
    }

    /// How many bytes one pixel of this format takes.
    pub fn bytes_per_pixel(self) -> (b: u8)
        ensures
            b == self.spec_bytes_per_pixel(),
    {
        match self {
            PixelFormat::Rgba8888 => 4,
            PixelFormat::Rgbx8888 => 4,
            PixelFormat::Rgb565 => 2,
            PixelFormat::Bgra8888 => 4,
            PixelFormat::Rgba4444 => 2,
        }
    }

    /// The wire value of the format.
    pub open spec fn spec_code(self) -> u32 {
        match self {
            PixelFormat::Rgba8888 => 1,
            PixelFormat::Rgbx8888 => 2,
            PixelFormat::Rgb565 => 4,
            PixelFormat::Bgra8888 => 5,
            PixelFormat::Rgba4444 => 7,
        }
    }

    /// The wire value of the format.
    pub fn code(self) -> (c: u32)
        ensures
            c == self.spec_code(),
    {
        match self {
            PixelFormat::Rgba8888 => 1,
            PixelFormat::Rgbx8888 => 2,
            PixelFormat::Rgb565 => 4,
            PixelFormat::Bgra8888 => 5,
            PixelFormat::Rgba4444 => 7,
        }
    }
}

/// How many buffers the swap chain cycles through.
#[derive(Debug, Copy, Clone, PartialEq, Eq, Structural, Hash)]
pub enum Buffering {
    /// One buffer, no swapping.
    Single,
    /// Two buffers, drawn and presented in turns.
    Double,
    /// Three buffers.
    Triple,
}

impl Buffering {
    /// The number of buffers, which is also the wire value.
    pub open spec fn spec_code(self) -> u32 {
        match self {
            Buffering::Single => 1,
            Buffering::Double => 2,
            Buffering::Triple => 3,
        }
    }

    /// The number of buffers, which is also the wire value.
    pub fn code(self) -> (c: u32)
        ensures
            c == self.spec_code(),
    {
        match self {
            Buffering::Single => 1,
            Buffering::Double => 2,
            Buffering::Triple => 3,
        }
    }
}

} // verus!
