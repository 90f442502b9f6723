use vstd::prelude::*;

verus! {

/// A rational number, as FFmpeg stores time bases and frame rates.
#[derive(Debug, Clone, Copy, PartialEq, Eq, Structural)]
pub struct Rational {
    pub numerator: i32,
    pub denominator: i32,
}

impl From<(i32, i32)> for Rational {
    fn from(pair: (i32, i32)) -> (r: Self) {
        Rational { numerator: pair.0, denominator: pair.1 }
    }
}

impl vstd::std_specs::convert::FromSpecImpl<(i32, i32)> for Rational {
    open spec fn obeys_from_spec() -> bool {
        true
    }

    open spec fn from_spec(pair: (i32, i32)) -> Self {
        Rational { numerator: pair.0, denominator: pair.1 }
    }
}

/// A pixel format, as FFmpeg names them. The formats that this library reasons about have
/// variants of their own; any other format is carried by its FFmpeg number together with its
/// number of components.
#[derive(Debug, Clone, Copy, PartialEq, Eq, Structural)]
pub enum PixelFormat {
    /// No format (FFmpeg's `AV_PIX_FMT_NONE`): let the encoder choose.
    Unspecified,
    RGB24,
    RGBA,
    YUV420P,
    YUV444P,
    Other { id: i32, components: u8 },
}

impl PixelFormat {
    /// The number of components of the format (FFmpeg's `nb_components` of its descriptor);
    /// `Unspecified` has no descriptor.
    pub open spec fn spec_components(self) -> Option<u8> {
        match self {
            PixelFormat::Unspecified => None,
            PixelFormat::RGB24 => Some(3),
            PixelFormat::RGBA => Some(4),
            PixelFormat::YUV420P => Some(3),
            PixelFormat::YUV444P => Some(3),
            PixelFormat::Other { components, .. } => Some(components),
        }
    }

    /// Returns the number of components of the format, or `None` for `Unspecified`.
    pub fn components(self) -> (r: Option<u8>)
        ensures
            r == self.spec_components(),
    {
        match self {
            PixelFormat::Unspecified => None,
            PixelFormat::RGB24 => Some(3),
            PixelFormat::RGBA => Some(4),
            PixelFormat::YUV420P => Some(3),
            PixelFormat::YUV444P => Some(3),
            PixelFormat::Other { components, .. } => Some(components),
        }
    }
}

/// Reads a C `int` dimension as unsigned: negative values become 0.
pub fn c_int_to_u32(x: i32) -> (r: u32)
    ensures
        r == (if x < 0 { 0 } else { x as int }),
{
    if x < 0 {
        0
    } else {
        x as u32
    }
}

/// Stores an unsigned dimension in a C `int`: values above `i32::MAX` become `i32::MAX`.
pub fn u32_to_c_int(x: u32) -> (r: i32)
    ensures
        r == (if x > i32::MAX { i32::MAX as int } else { x as int }),
{
    if x > i32::MAX as u32 {
        i32::MAX
    } else {
        x as i32
    }
}

} // verus!
