use vstd::prelude::*;

use crate::color::ColorType;
use crate::color::spec_channels;

verus! {

/// One decoded raster image: dimensions, channel layout tag, the flat sample
/// buffer, and (for indexed layouts) the optional palette and transparency
/// table. The record owns all of its buffers; conversions return fresh,
/// independently owned records.
#[derive(Debug)]
pub struct ImageStruct {
    pub width: u32,
    pub height: u32,
    pub color_type: ColorType,
    pub pixels: Vec<u8>,
    pub plte: Option<Vec<u8>>,
    pub trns: Option<Vec<u8>>,
}

impl ImageStruct {
    /// Number of pixels of the image.
    pub open spec fn pixel_count(self) -> nat {
        (self.width * self.height) as nat
    }

    /// For direct-colour layouts the sample buffer holds exactly one sample
    /// per channel per pixel. (The packed length rule of indexed layouts is
    /// stated by `indexed_wf`.)
    pub open spec fn samples_wf(self) -> bool {
        self.color_type != ColorType::Indexed
            ==> self.pixels@.len() == self.pixel_count() * spec_channels(self.color_type)
    }

    /// Deep copy of every field; no ownership is shared with the original.
    pub fn clone(&self) -> (r: Self)
        ensures
            r.width == self.width,
            r.height == self.height,
            r.color_type == self.color_type,
            r.pixels@ == self.pixels@,
            option_view(r.plte) == option_view(self.plte),
            option_view(r.trns) == option_view(self.trns),
    {
        Self {
            width: self.width,
            height: self.height,
            color_type: self.color_type,
            pixels: clone_bytes(&self.pixels),
            plte: clone_opt_bytes(&self.plte),
            trns: clone_opt_bytes(&self.trns),
        }
    }

    /// Bulk conversion of the sample buffer to the 8-bit integer encoding.
    /// On an integer-encoded record every sample converts to itself, so the
    /// result is a deep copy.
    pub fn pixels_to_u8(&self) -> (r: Self)
        ensures
            r.width == self.width,
            r.height == self.height,
            r.color_type == self.color_type,
            r.pixels@ == self.pixels@,
            option_view(r.plte) == option_view(self.plte),
            option_view(r.trns) == option_view(self.trns),
    {
        self.clone()
    }
}

/// The contents of an optional byte buffer, for stating that two such fields
/// hold the same bytes.
pub open spec fn option_view(o: Option<Vec<u8>>) -> Option<Seq<u8>> {
    match o {
        Some(v) => Some(v@),
        None => None,
    }
}

fn clone_bytes(v: &Vec<u8>) -> (r: Vec<u8>)
    ensures
        r@ == v@,
{
    let mut r: Vec<u8> = Vec::new();
    let mut i: usize = 0;
    while i < v.len()
        invariant
            i <= v@.len(),
            r@ == v@.subrange(0, i as int),
        decreases v@.len() - i,
    {
        r.push(v[i]);
        i = i + 1;
        proof {
            assert(r@ == v@.subrange(0, i as int));
        }
    }
    proof {
        assert(r@ == v@);
    }
    r
}

fn clone_opt_bytes(o: &Option<Vec<u8>>) -> (r: Option<Vec<u8>>)
    ensures
        option_view(r) == option_view(*o),
{
    match o {
        Some(v) => Some(clone_bytes(v)),
        None => None,
    }
}

} // verus!
