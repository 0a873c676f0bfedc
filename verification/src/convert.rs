use vstd::prelude::*;

use vstd::arithmetic::div_mod::lemma_div_multiples_vanish;
use vstd::arithmetic::div_mod::lemma_fundamental_div_mod;
use vstd::arithmetic::div_mod::lemma_mod_pos_bound;
use vstd::arithmetic::div_mod::lemma_multiply_divide_lt;
use vstd::arithmetic::mul::lemma_mul_upper_bound;

use crate::color::ColorType;
use crate::error::Error;
use crate::image::ImageStruct;

verus! {

/// Luma of an RGB triple: the fixed weighted sum
/// `floor(0.3 R + 0.59 G + 0.11 B)`, truncated to the byte domain.
pub open spec fn spec_luma(r: u8, g: u8, b: u8) -> u8 {
    ((30 * (r as int) + 59 * (g as int) + 11 * (b as int)) / 100) as u8
}

/// The luma of a uniform grey triple is the grey value itself.
pub proof fn lemma_luma_gray(g: u8)
    ensures
        spec_luma(g, g, g) == g,
{
    assert(30 * (g as int) + 59 * (g as int) + 11 * (g as int) == 100 * (g as int));
    lemma_div_multiples_vanish(g as int, 100);
}

impl ImageStruct {
    /// Channel `k` (0 red, 1 green, 2 blue) of pixel `p` of this record's
    /// RGB rendition: RGB samples pass through, RGBA drops the alpha,
    /// grayscale values are replicated over the three channels, and indexed
    /// records read the palette triple of the pixel's packed index.
    pub open spec fn spec_rgb_sample(self, p: nat, k: nat) -> u8
        recommends
            p < self.pixel_count(),
            k < 3,
    {
        match self.color_type {
            ColorType::Rgb => self.pixels@[(3 * p + k) as int],
            ColorType::Rgba => self.pixels@[(4 * p + k) as int],
            ColorType::GrayscaleAlpha => self.pixels@[(2 * p) as int],
            ColorType::Grayscale => self.pixels@[p as int],
            ColorType::Indexed => self.spec_depal_sample(p, k),
        }
    }

    /// `out` is the RGB rendition of `self`: same dimensions, layout RGB,
    /// no palette or transparency, one sample triple per pixel.
    pub open spec fn rgb_form_of(self, out: ImageStruct) -> bool {
        &&& out.width == self.width
        &&& out.height == self.height
        &&& out.color_type == ColorType::Rgb
        &&& out.plte is None
        &&& out.trns is None
        &&& out.pixels@.len() == 3 * self.pixel_count()
        &&& forall|p: nat, k: nat|
            p < self.pixel_count() && k < 3 ==> out.pixels@[(3 * p + k) as int]
                == #[trigger] self.spec_rgb_sample(p, k)
    }

    /// The error that a conversion to a direct-colour rendition reports:
    /// only indexed records can fail, with depalettization's error.
    pub open spec fn conv_error(self) -> Option<Error> {
        if self.color_type == ColorType::Indexed {
            self.depal_error()
        } else {
            None
        }
    }

    /// Whether the grayscale rendition of this record keeps an alpha
    /// channel: it does exactly when the input carries one (for indexed
    /// records, when a transparency table is present).
    pub open spec fn spec_has_alpha(self) -> bool {
        match self.color_type {
            ColorType::Rgba => true,
            ColorType::GrayscaleAlpha => true,
            ColorType::Indexed => self.trns is Some,
            _ => false,
        }
    }

    /// Samples per pixel of the grayscale rendition.
    pub open spec fn spec_gray_channels(self) -> nat {
        if self.spec_has_alpha() {
            2
        } else {
            1
        }
    }

    /// Layout of the grayscale rendition.
    pub open spec fn spec_gray_color_type(self) -> ColorType {
        if self.spec_has_alpha() {
            ColorType::GrayscaleAlpha
        } else {
            ColorType::Grayscale
        }
    }

    /// The luma of pixel `p`: the fixed weighted sum over p's RGB rendition.
    pub open spec fn spec_gray_luma(self, p: nat) -> u8 {
        spec_luma(
            self.spec_rgb_sample(p, 0),
            self.spec_rgb_sample(p, 1),
            self.spec_rgb_sample(p, 2),
        )
    }

    /// The alpha sample of pixel `p`, carried over unchanged.
    pub open spec fn spec_alpha_sample(self, p: nat) -> u8
        recommends
            self.spec_has_alpha(),
    {
        match self.color_type {
            ColorType::Rgba => self.pixels@[(4 * p + 3) as int],
            ColorType::GrayscaleAlpha => self.pixels@[(2 * p + 1) as int],
            ColorType::Indexed => self.spec_depal_sample(p, 3),
            _ => 0,
        }
    }

    /// `out` is the grayscale rendition of `self`: same dimensions, layout
    /// Grayscale (or GrayscaleAlpha when the input carries alpha), no
    /// palette or transparency, the luma per pixel, and the original alpha
    /// sample kept beside it when present.
    pub open spec fn gray_form_of(self, out: ImageStruct) -> bool {
        &&& out.width == self.width
        &&& out.height == self.height
        &&& out.color_type == self.spec_gray_color_type()
        &&& out.plte is None
        &&& out.trns is None
        &&& out.pixels@.len() == self.pixel_count() * self.spec_gray_channels()
        &&& forall|p: nat|
            p < self.pixel_count() ==> out.pixels@[(p * self.spec_gray_channels()) as int]
                == #[trigger] self.spec_gray_luma(p)
        &&& self.spec_has_alpha() ==> forall|p: nat|
            p < self.pixel_count() ==> out.pixels@[(p * 2 + 1) as int]
                == #[trigger] self.spec_alpha_sample(p)
    }

    /// Converts any layout to RGB: RGB copies, RGBA drops alpha, grayscale
    /// replicates, and indexed records are depalettized first (and reduced
    /// to RGB when depalettization yielded RGBA).
    pub fn to_rgb(&self) -> (r: Result<ImageStruct, Error>)
        requires
            self.wf(),
            self.size_ok(),
        ensures
            match r {
                Ok(out) => self.conv_error() is None && self.rgb_form_of(out),
                Err(e) => self.conv_error() == Some(e),
            },
    {
        match self.color_type {
            ColorType::Indexed => {
                let depal = match self.convert_from_indexed() {
                    Ok(d) => d,
                    Err(e) => {
                        return Err(e);
                    },
                };
                if self.trns.is_some() {
                    let pixels = rgb_samples_from(&depal);
                    proof {
                        assert forall|p: nat, k: nat| p < self.pixel_count() && k < 3 implies
                            pixels@[(3 * p + k) as int] == self.spec_rgb_sample(p, k) by {
                            assert(depal.spec_rgb_sample(p, k) == self.spec_depal_sample(p, k));
                        }
                    }
                    Ok(
                        ImageStruct {
                            width: self.width,
                            height: self.height,
                            color_type: ColorType::Rgb,
                            pixels,
                            plte: None,
                            trns: None,
                        },
                    )
                } else {
                    proof {
                        assert forall|p: nat, k: nat| p < self.pixel_count() && k < 3 implies
                            depal.pixels@[(3 * p + k) as int] == self.spec_rgb_sample(p, k) by {
                            assert(depal.pixels@[(p * 3 + k) as int]
                                == self.spec_depal_sample(p, k));
                        }
                    }
                    Ok(depal)
                }
            },
            _ => {
                let pixels = rgb_samples_from(self);
                Ok(
                    ImageStruct {
                        width: self.width,
                        height: self.height,
                        color_type: ColorType::Rgb,
                        pixels,
                        plte: None,
                        trns: None,
                    },
                )
            },
        }
    }

    /// Converts any layout to its grayscale rendition, keeping the alpha
    /// channel when the input carries one; indexed records are depalettized
    /// first. Grayscale inputs pass through unchanged.
    pub fn convert_to_grayscale(&self) -> (r: Result<ImageStruct, Error>)
        requires
            self.wf(),
            self.size_ok(),
        ensures
            match r {
                Ok(out) => self.conv_error() is None && self.gray_form_of(out),
                Err(e) => self.conv_error() == Some(e),
            },
    {
        match self.color_type {
            ColorType::Grayscale | ColorType::GrayscaleAlpha => {
                let copy = self.pixels_to_u8();
                proof {
                    assert forall|p: nat| p < self.pixel_count() implies copy.pixels@[(p
                        * self.spec_gray_channels()) as int] == self.spec_gray_luma(p) by {
                        let g = self.spec_rgb_sample(p, 0);
                        lemma_luma_gray(g);
                        if self.spec_has_alpha() {
                            assert(self.spec_gray_channels() == 2);
                            assert(p * 2 + 1 < self.pixel_count() * 2);
                            assert(copy.pixels@[(p * 2) as int] == self.pixels@[(2 * p) as int]);
                        } else {
                            assert(self.spec_gray_channels() == 1);
                            assert(copy.pixels@[(p * 1) as int] == self.pixels@[p as int]);
                        }
                    }
                }
                Ok(
                    ImageStruct {
                        width: copy.width,
                        height: copy.height,
                        color_type: copy.color_type,
                        pixels: copy.pixels,
                        plte: None,
                        trns: None,
                    },
                )
            },
            ColorType::Indexed => {
                let depal = match self.convert_from_indexed() {
                    Ok(d) => d,
                    Err(e) => {
                        return Err(e);
                    },
                };
                let pixels = gray_samples_from(&depal);
                proof {
                    assert forall|p: nat| p < self.pixel_count() implies pixels@[(p
                        * self.spec_gray_channels()) as int] == self.spec_gray_luma(p) by {
                        assert(depal.spec_rgb_sample(p, 0) == self.spec_depal_sample(p, 0));
                        assert(depal.spec_rgb_sample(p, 1) == self.spec_depal_sample(p, 1));
                        assert(depal.spec_rgb_sample(p, 2) == self.spec_depal_sample(p, 2));
                        assert(depal.spec_gray_luma(p) == self.spec_gray_luma(p));
                    }
                    if self.spec_has_alpha() {
                        assert forall|p: nat| p < self.pixel_count() implies pixels@[(p * 2
                            + 1) as int] == self.spec_alpha_sample(p) by {
                            assert(depal.spec_alpha_sample(p) == self.spec_depal_sample(p, 3));
                        }
                    }
                }
                Ok(
                    ImageStruct {
                        width: self.width,
                        height: self.height,
                        color_type: if self.trns.is_some() {
                            ColorType::GrayscaleAlpha
                        } else {
                            ColorType::Grayscale
                        },
                        pixels,
                        plte: None,
                        trns: None,
                    },
                )
            },
            _ => {
                let pixels = gray_samples_from(self);
                Ok(
                    ImageStruct {
                        width: self.width,
                        height: self.height,
                        color_type: if self.color_type == ColorType::Rgba {
                            ColorType::GrayscaleAlpha
                        } else {
                            ColorType::Grayscale
                        },
                        pixels,
                        plte: None,
                        trns: None,
                    },
                )
            },
        }
    }

    /// Both derived renditions at once, as the visual pipeline writes them
    /// out: the RGB rendition and the (integer-encoded) grayscale rendition.
    pub fn test_all(&self) -> (r: Result<(ImageStruct, ImageStruct), Error>)
        requires
            self.wf(),
            self.size_ok(),
        ensures
            match r {
                Ok(pair) => self.conv_error() is None && self.rgb_form_of(pair.0)
                    && self.gray_form_of(pair.1),
                Err(e) => self.conv_error() == Some(e),
            },
    {
        let rgb = match self.to_rgb() {
            Ok(i) => i,
            Err(e) => {
                return Err(e);
            },
        };
        let gray = match self.convert_to_grayscale() {
            Ok(i) => i,
            Err(e) => {
                return Err(e);
            },
        };
        let gray_bytes = gray.pixels_to_u8();
        Ok((rgb, gray_bytes))
    }
}

/// Converting a record that is already RGB returns an equal record: every
/// `out` of the RGB-rendition form of a well-formed RGB record without
/// palette or transparency equals the record itself, field for field.
pub proof fn lemma_to_rgb_idempotent(i: ImageStruct, out: ImageStruct)
    requires
        i.wf(),
        i.color_type == ColorType::Rgb,
        i.plte is None,
        i.trns is None,
        i.rgb_form_of(out),
    ensures
        out.width == i.width,
        out.height == i.height,
        out.color_type == i.color_type,
        out.pixels@ == i.pixels@,
        out.plte == i.plte,
        out.trns == i.trns,
{
    assert forall|j: int| 0 <= j < i.pixels@.len() implies out.pixels@[j] == i.pixels@[j] by {
        lemma_fundamental_div_mod(j, 3);
        lemma_mod_pos_bound(j, 3);
        lemma_multiply_divide_lt(j, 3, i.pixel_count() as int);
        let p = (j / 3) as nat;
        let k = (j % 3) as nat;
        assert(out.pixels@[(3 * p + k) as int] == i.spec_rgb_sample(p, k));
    }
    assert(out.pixels@ =~= i.pixels@);
}

/// Builds the flat RGB sample buffer of a direct-colour record: one triple
/// per pixel, read off the record's RGB rendition.
#[verifier::loop_isolation(false)]
fn rgb_samples_from(src: &ImageStruct) -> (out: Vec<u8>)
    requires
        src.color_type != ColorType::Indexed,
        src.samples_wf(),
        src.pixel_count() * 3 <= usize::MAX,
    ensures
        out@.len() == 3 * src.pixel_count(),
        forall|p: nat, k: nat|
            p < src.pixel_count() && k < 3 ==> out@[(3 * p + k) as int]
                == #[trigger] src.spec_rgb_sample(p, k),
{
    proof {
        lemma_mul_upper_bound(
            src.width as int,
            u32::MAX as int,
            src.height as int,
            u32::MAX as int,
        );
    }
    let count64: u64 = (src.width as u64) * (src.height as u64);
    let count: usize = count64 as usize;
    let plen: usize = src.pixels.len();
    let mut out: Vec<u8> = Vec::new();
    let mut p: usize = 0;
    while p < count
        invariant
            p <= count,
            out@.len() == 3 * p,
            forall|p2: nat, k: nat|
                p2 < p && k < 3 ==> out@[(3 * p2 + k) as int]
                    == #[trigger] src.spec_rgb_sample(p2, k),
        decreases count - p,
    {
        let trio: (u8, u8, u8) = match src.color_type {
            ColorType::Rgb => (src.pixels[3 * p], src.pixels[3 * p + 1], src.pixels[3 * p + 2]),
            ColorType::Rgba => (src.pixels[4 * p], src.pixels[4 * p + 1], src.pixels[4 * p + 2]),
            ColorType::GrayscaleAlpha => {
                let g = src.pixels[2 * p];
                (g, g, g)
            },
            ColorType::Grayscale => {
                let g = src.pixels[p];
                (g, g, g)
            },
            ColorType::Indexed => {
                proof {
                    assert(false);
                }
                (0, 0, 0)
            },
        };
        let ghost prev = out@;
        out.push(trio.0);
        out.push(trio.1);
        out.push(trio.2);
        proof {
            let pn = p as nat;
            assert(out@ =~= prev + seq![trio.0, trio.1, trio.2]);
            assert(trio.0 == src.spec_rgb_sample(pn, 0));
            assert(trio.1 == src.spec_rgb_sample(pn, 1));
            assert(trio.2 == src.spec_rgb_sample(pn, 2));
            assert forall|p2: nat, k: nat| p2 < pn + 1 && k < 3 implies out@[(3 * p2 + k) as int]
                == src.spec_rgb_sample(p2, k) by {
                if p2 < pn {
                    assert(out@[(3 * p2 + k) as int] == prev[(3 * p2 + k) as int]);
                } else {
                    assert(p2 == pn);
                }
            }
        }
        p = p + 1;
    }
    out
}

/// Builds the flat grayscale sample buffer of an RGB or RGBA record: the
/// luma per pixel, with the original alpha kept beside it for RGBA.
#[verifier::loop_isolation(false)]
fn gray_samples_from(src: &ImageStruct) -> (out: Vec<u8>)
    requires
        src.color_type == ColorType::Rgb || src.color_type == ColorType::Rgba,
        src.samples_wf(),
        src.pixel_count() * 2 <= usize::MAX,
    ensures
        out@.len() == src.pixel_count() * src.spec_gray_channels(),
        forall|p: nat|
            p < src.pixel_count() ==> out@[(p * src.spec_gray_channels()) as int]
                == #[trigger] src.spec_gray_luma(p),
        src.spec_has_alpha() ==> forall|p: nat|
            p < src.pixel_count() ==> out@[(p * 2 + 1) as int]
                == #[trigger] src.spec_alpha_sample(p),
{
    proof {
        lemma_mul_upper_bound(
            src.width as int,
            u32::MAX as int,
            src.height as int,
            u32::MAX as int,
        );
    }
    let count64: u64 = (src.width as u64) * (src.height as u64);
    let count: usize = count64 as usize;
    let plen: usize = src.pixels.len();
    let gc: usize = if src.color_type == ColorType::Rgba {
        2
    } else {
        1
    };
    let mut out: Vec<u8> = Vec::new();
    let mut p: usize = 0;
    while p < count
        invariant
            p <= count,
            out@.len() == p * src.spec_gray_channels(),
            forall|p2: nat|
                p2 < p ==> out@[(p2 * src.spec_gray_channels()) as int]
                    == #[trigger] src.spec_gray_luma(p2),
            src.spec_has_alpha() ==> forall|p2: nat|
                p2 < p ==> out@[(p2 * 2 + 1) as int] == #[trigger] src.spec_alpha_sample(p2),
        decreases count - p,
    {
        let base: usize = if gc == 2 {
            4 * p
        } else {
            3 * p
        };
        let r: u8 = src.pixels[base];
        let g: u8 = src.pixels[base + 1];
        let b: u8 = src.pixels[base + 2];
        let l: u8 = ((30 * (r as u32) + 59 * (g as u32) + 11 * (b as u32)) / 100) as u8;
        proof {
            assert(l == spec_luma(r, g, b));
            assert(l == src.spec_gray_luma(p as nat));
        }
        let ghost prev = out@;
        out.push(l);
        if gc == 2 {
            let a: u8 = src.pixels[base + 3];
            out.push(a);
            proof {
                assert(out@ =~= prev + seq![l, a]);
                assert(a == src.spec_alpha_sample(p as nat));
            }
        } else {
            proof {
                assert(out@ =~= prev + seq![l]);
            }
        }
        proof {
            let pn = p as nat;
            let gcn = src.spec_gray_channels();
            assert(out@.len() == (pn + 1) * gcn);
            assert forall|p2: nat| p2 < pn + 1 implies out@[(p2 * gcn) as int]
                == src.spec_gray_luma(p2) by {
                if p2 < pn {
                    assert(out@[(p2 * gcn) as int] == prev[(p2 * gcn) as int]);
                } else {
                    assert(p2 == pn);
                }
            }
            if src.spec_has_alpha() {
                assert forall|p2: nat| p2 < pn + 1 implies out@[(p2 * 2 + 1) as int]
                    == src.spec_alpha_sample(p2) by {
                    if p2 < pn {
                        assert(out@[(p2 * 2 + 1) as int] == prev[(p2 * 2 + 1) as int]);
                    } else {
                        assert(p2 == pn);
                    }
                }
            }
        }
        p = p + 1;
    }
    out
}

} // verus!
