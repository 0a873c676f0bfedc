use vstd::prelude::*;

verus! {

/// The channel arrangement of the pixel samples of an image record.
///
/// `Indexed` stores one palette index per pixel (packed sub-byte before
/// depalettization); the other layouts store direct colour samples.
#[derive(Clone, Copy, PartialEq, Eq, Structural, Debug)]
pub enum ColorType {
    Grayscale,
    Rgb,
    Indexed,
    GrayscaleAlpha,
    Rgba,
}

/// Samples per pixel of each layout. `Indexed` counts one sample (the
/// palette index) per pixel, as it stands after unpacking.
pub open spec fn spec_channels(c: ColorType) -> nat {
    match c {
        ColorType::Grayscale => 1,
        ColorType::GrayscaleAlpha => 2,
        ColorType::Rgb => 3,
        ColorType::Rgba => 4,
        ColorType::Indexed => 1,
    }
}

} // verus!
