use vstd::prelude::*;

use vstd::arithmetic::div_mod::lemma_basic_div;
use vstd::arithmetic::div_mod::lemma_fundamental_div_mod;
use vstd::arithmetic::div_mod::lemma_fundamental_div_mod_converse;
use vstd::arithmetic::div_mod::lemma_mod_pos_bound;
use vstd::arithmetic::div_mod::lemma_multiply_divide_lt;
use vstd::arithmetic::mul::lemma_mul_inequality;
use vstd::arithmetic::mul::lemma_mul_upper_bound;

use crate::color::ColorType;
use crate::error::Error;
use crate::image::ImageStruct;

verus! {

/// Number of packed palette indices held in one byte of indexed sample data,
/// derived from the palette's colour count: 1-2 colours pack 8 pixels per
/// byte, 3-4 pack 4, 5-16 pack 2, and 17-256 pack 1.
pub open spec fn spec_pixels_per_byte(colors: nat) -> nat {
    if colors <= 2 {
        8
    } else if colors <= 4 {
        4
    } else if colors <= 16 {
        2
    } else {
        1
    }
}

/// Bytes that one row of packed indices occupies: rows are byte-aligned, so
/// a row of `width` pixels fills the ceiling of `width / ppb` bytes.
pub open spec fn spec_bytes_per_row(width: nat, ppb: nat) -> nat
    recommends
        0 < ppb,
{
    ((width + ppb - 1) / ppb as int) as nat
}

/// The palette index packed in `byte` at sub-byte slot `slot` when each byte
/// holds `ppb` indices; slots are filled from the most significant bits down.
pub open spec fn spec_palette_index(byte: u8, slot: nat, ppb: nat) -> u8
    recommends
        slot < ppb,
        ppb == 1 || ppb == 2 || ppb == 4 || ppb == 8,
{
    if ppb == 8 {
        (byte >> ((7 - slot) as u8)) & 1u8
    } else if ppb == 4 {
        (byte >> ((2 * (3 - slot)) as u8)) & 3u8
    } else if ppb == 2 {
        (byte >> ((4 - 4 * slot) as u8)) & 15u8
    } else {
        byte
    }
}

/// The palette index of pixel `p` (row-major). Rows are byte-aligned: pixel
/// (r, c) lives in byte `r * bytes_per_row + c / ppb` at slot `c % ppb`, so
/// the unused trailing slots of a row's last byte are skipped.
pub open spec fn spec_index_of_pixel(pixels: Seq<u8>, width: nat, ppb: nat, p: nat) -> u8
    recommends
        0 < width,
        0 < ppb,
{
    let r = p / width;
    let c = p % width;
    let bpr = spec_bytes_per_row(width, ppb);
    spec_palette_index(pixels[(r * bpr + c / ppb) as int], c % ppb, ppb)
}

impl ImageStruct {
    /// The palette bytes (empty when no palette is present).
    pub open spec fn spec_palette(self) -> Seq<u8> {
        match self.plte {
            Some(v) => v@,
            None => Seq::empty(),
        }
    }

    /// The transparency-table bytes (empty when none is present).
    pub open spec fn spec_trns(self) -> Seq<u8> {
        match self.trns {
            Some(v) => v@,
            None => Seq::empty(),
        }
    }

    /// Colour count of the palette: each colour occupies three palette bytes.
    pub open spec fn spec_colors(self) -> nat {
        self.spec_palette().len() / 3
    }

    /// Packed indices per byte of this record's indexed sample data.
    pub open spec fn spec_ppb(self) -> nat {
        spec_pixels_per_byte(self.spec_colors())
    }

    /// The error that depalettization reports, if any, in the order the
    /// structural checks are made: the layout must be `Indexed`, a palette
    /// must be present with 1 to 256 colours, and a transparency table, when
    /// present, must hold exactly one entry per palette colour.
    pub open spec fn depal_error(self) -> Option<Error> {
        if self.color_type != ColorType::Indexed {
            Some(Error::InvalidLayout)
        } else if self.plte is None {
            Some(Error::MissingPalette)
        } else if self.spec_colors() < 1 || self.spec_colors() > 256 {
            Some(Error::PaletteSizeInvalid)
        } else if self.trns is Some && self.spec_trns().len() * 3 != self.spec_palette().len() {
            Some(Error::TransparencyMismatch)
        } else {
            None
        }
    }

    /// What the unpacking needs of an indexed record so that every access
    /// stays in bounds: the palette holds whole colour triples, the packed
    /// buffer covers every byte-aligned row, and every referenced index
    /// names a palette colour.
    pub open spec fn indexed_wf(self) -> bool {
        self.depal_error() is None ==> {
            &&& self.spec_palette().len() % 3 == 0
            &&& self.pixels@.len() >= self.height * spec_bytes_per_row(
                self.width as nat,
                self.spec_ppb(),
            )
            &&& forall|p: nat|
                p < self.pixel_count() ==> spec_index_of_pixel(
                    self.pixels@,
                    self.width as nat,
                    self.spec_ppb(),
                    p,
                ) < self.spec_colors()
        }
    }

    /// Well-formedness of a record: the sample buffer is consistent with the
    /// dimensions, the layout and (for indexed data) the palette.
    pub open spec fn wf(self) -> bool {
        self.samples_wf() && self.indexed_wf()
    }

    /// Room for a four-channel direct-colour buffer; a machine limit (sample
    /// counts must fit in `usize`), not a rule of the conversion itself.
    pub open spec fn size_ok(self) -> bool {
        self.pixel_count() * 4 <= usize::MAX
    }

    /// Channels of the depalettized output: 4 (RGBA) when a transparency
    /// table is present, else 3 (RGB).
    pub open spec fn spec_depal_channels(self) -> nat {
        if self.trns is Some {
            4
        } else {
            3
        }
    }

    /// Layout of the depalettized output.
    pub open spec fn spec_depal_color_type(self) -> ColorType {
        if self.trns is Some {
            ColorType::Rgba
        } else {
            ColorType::Rgb
        }
    }

    /// Channel `k` (0 red, 1 green, 2 blue, 3 alpha) of pixel `p` after
    /// depalettization: the palette triple of p's packed index, and for
    /// channel 3 the index's transparency entry.
    pub open spec fn spec_depal_sample(self, p: nat, k: nat) -> u8
        recommends
            k < self.spec_depal_channels(),
    {
        let idx = spec_index_of_pixel(self.pixels@, self.width as nat, self.spec_ppb(), p) as int;
        if k < 3 {
            self.spec_palette()[3 * idx + k]
        } else {
            self.spec_trns()[idx]
        }
    }

    /// `out` is the depalettization of `self`: same dimensions, direct-colour
    /// layout, no palette or transparency left, and every pixel's channels
    /// looked up from the palette (and transparency table) at its packed
    /// index.
    pub open spec fn depal_form_of(self, out: ImageStruct) -> bool {
        &&& out.width == self.width
        &&& out.height == self.height
        &&& out.color_type == self.spec_depal_color_type()
        &&& out.plte is None
        &&& out.trns is None
        &&& out.pixels@.len() == self.pixel_count() * self.spec_depal_channels()
        &&& forall|p: nat, k: nat|
            p < self.pixel_count() && k < self.spec_depal_channels()
                ==> out.pixels@[(p * self.spec_depal_channels() + k) as int]
                == #[trigger] self.spec_depal_sample(p, k)
    }

    /// Unpacks the sub-byte-packed indexed sample data into direct-colour
    /// samples using the palette, appending each index's transparency entry
    /// as an alpha channel when a transparency table is present. Rejects
    /// records whose layout is not `Indexed`, whose palette is absent or has
    /// a colour count outside 1..=256, or whose transparency table does not
    /// match the palette one entry per colour.
    #[verifier::loop_isolation(false)]
    pub fn convert_from_indexed(&self) -> (r: Result<ImageStruct, Error>)
        requires
            self.wf(),
            self.size_ok(),
        ensures
            match r {
                Ok(out) => self.depal_error() is None && self.depal_form_of(out),
                Err(e) => self.depal_error() == Some(e),
            },
    {
        if self.color_type != ColorType::Indexed {
            return Err(Error::InvalidLayout);
        }
        let palette: &Vec<u8> = match &self.plte {
            Some(p) => p,
            None => {
                return Err(Error::MissingPalette);
            },
        };
        let colors: usize = palette.len() / 3;
        if colors < 1 || colors > 256 {
            return Err(Error::PaletteSizeInvalid);
        }
        match &self.trns {
            Some(t) => {
                if t.len() > 256 || t.len() * 3 != palette.len() {
                    proof {
                        if t@.len() > 256 {
                            lemma_fundamental_div_mod(palette@.len() as int, 3);
                        }
                    }
                    return Err(Error::TransparencyMismatch);
                }
            },
            None => {},
        }
        proof {
            assert(palette@ == self.spec_palette());
            assert(colors == self.spec_colors());
            assert(self.depal_error() is None);
            lemma_fundamental_div_mod(palette@.len() as int, 3);
            assert(palette@.len() == 3 * colors);
        }
        let ch: usize = if self.trns.is_some() {
            4
        } else {
            3
        };
        let ppb: usize = if colors <= 2 {
            8
        } else if colors <= 4 {
            4
        } else if colors <= 16 {
            2
        } else {
            1
        };
        let width: usize = self.width as usize;
        let bpr: usize = if width == 0 {
            0
        } else {
            (width - 1) / ppb + 1
        };
        proof {
            assert(ppb == self.spec_ppb());
            if width >= 1 {
                lemma_row_bytes(width as int, ppb as int);
            } else {
                lemma_basic_div((ppb - 1) as int, ppb as int);
            }
            assert(bpr == spec_bytes_per_row(self.width as nat, self.spec_ppb()));
            assert(width <= bpr * ppb);
        }
        proof {
            lemma_mul_upper_bound(
                self.width as int,
                u32::MAX as int,
                self.height as int,
                u32::MAX as int,
            );
        }
        let count64: u64 = (self.width as u64) * (self.height as u64);
        let count: usize = count64 as usize;
        proof {
            assert(count == self.pixel_count());
        }
        let mut out: Vec<u8> = Vec::new();
        let mut p: usize = 0;
        while p < count
            invariant
                p <= count,
                out@.len() == p * self.spec_depal_channels(),
                forall|p2: nat, k: nat|
                    p2 < p && k < self.spec_depal_channels()
                        ==> out@[(p2 * self.spec_depal_channels() + k) as int]
                        == #[trigger] self.spec_depal_sample(p2, k),
            decreases count - p,
        {
            proof {
                if width == 0 {
                    assert(self.width * self.height == 0) by (nonlinear_arith)
                        requires
                            self.width == 0,
                    ;
                    assert(count == 0);
                }
                assert(width > 0);
            }
            let color_index: usize = read_packed_index(
                &self.pixels,
                width,
                ppb,
                bpr,
                self.height,
                p,
            );
            proof {
                assert(spec_index_of_pixel(
                    self.pixels@,
                    self.width as nat,
                    self.spec_ppb(),
                    p as nat,
                ) < self.spec_colors());
                assert(3 * color_index + 3 <= palette@.len());
            }
            let alpha: u8 = match &self.trns {
                Some(t) => {
                    proof {
                        assert(t@.len() == colors);
                    }
                    t[color_index]
                },
                None => 0,
            };
            let ghost prev = out@;
            let s0: u8 = palette[3 * color_index];
            let s1: u8 = palette[3 * color_index + 1];
            let s2: u8 = palette[3 * color_index + 2];
            out.push(s0);
            out.push(s1);
            out.push(s2);
            if ch == 4 {
                out.push(alpha);
            }
            proof {
                let chn = self.spec_depal_channels();
                let pn = p as nat;
                if chn == 4 {
                    assert(out@ =~= prev + seq![s0, s1, s2, alpha]);
                    assert(alpha == self.spec_depal_sample(pn, 3));
                } else {
                    assert(out@ =~= prev + seq![s0, s1, s2]);
                }
                assert(s0 == self.spec_depal_sample(pn, 0));
                assert(s1 == self.spec_depal_sample(pn, 1));
                assert(s2 == self.spec_depal_sample(pn, 2));
                assert((pn + 1) * chn == pn * chn + chn) by (nonlinear_arith);
                assert(out@.len() == (pn + 1) * chn);
                assert forall|p2: nat, k: nat| p2 < pn + 1 && k < chn implies out@[(p2 * chn
                    + k) as int] == self.spec_depal_sample(p2, k) by {
                    if p2 < pn {
                        assert(p2 * chn + k < pn * chn) by (nonlinear_arith)
                            requires
                                p2 < pn,
                                k < chn,
                        ;
                        assert(out@[(p2 * chn + k) as int] == prev[(p2 * chn + k) as int]);
                        assert(prev[(p2 * chn + k) as int] == self.spec_depal_sample(p2, k));
                    } else {
                        assert(p2 == pn);
                        assert(out@[(pn * chn + k) as int] == self.spec_depal_sample(pn, k));
                    }
                }
            }
            p = p + 1;
        }
        proof {
            assert(out@.len() == self.pixel_count() * self.spec_depal_channels());
        }
        let ct: ColorType = if self.trns.is_some() {
            ColorType::Rgba
        } else {
            ColorType::Rgb
        };
        Ok(
            ImageStruct {
                width: self.width,
                height: self.height,
                color_type: ct,
                pixels: out,
                plte: None,
                trns: None,
            },
        )
    }

    /// Runtime check of the record's well-formedness (`wf`) and of the
    /// machine size limit (`size_ok`): unverified callers establish the
    /// conversions' preconditions with it.
    #[verifier::loop_isolation(false)]
    pub fn is_well_formed(&self) -> (r: bool)
        ensures
            r == (self.wf() && self.size_ok()),
    {
        proof {
            lemma_mul_upper_bound(
                self.width as int,
                u32::MAX as int,
                self.height as int,
                u32::MAX as int,
            );
            lemma_fundamental_div_mod(usize::MAX as int, 4);
        }
        let pc64: u64 = (self.width as u64) * (self.height as u64);
        let limit: u64 = (usize::MAX as u64) / 4;
        if pc64 > limit {
            return false;
        }
        if self.color_type != ColorType::Indexed {
            let channels: u64 = match self.color_type {
                ColorType::Grayscale => 1,
                ColorType::GrayscaleAlpha => 2,
                ColorType::Rgb => 3,
                ColorType::Rgba => 4,
                ColorType::Indexed => 1,
            };
            let ok = (self.pixels.len() as u64) == pc64 * channels;
            return ok;
        }
        let palette: &Vec<u8> = match &self.plte {
            Some(p) => p,
            None => {
                return true;
            },
        };
        let colors: usize = palette.len() / 3;
        if colors < 1 || colors > 256 {
            return true;
        }
        match &self.trns {
            Some(t) => {
                if t.len() > 256 || t.len() * 3 != palette.len() {
                    proof {
                        if t@.len() > 256 {
                            lemma_fundamental_div_mod(palette@.len() as int, 3);
                        }
                    }
                    return true;
                }
            },
            None => {},
        }
        proof {
            assert(self.depal_error() is None);
        }
        if palette.len() % 3 != 0 {
            return false;
        }
        let ppb: usize = if colors <= 2 {
            8
        } else if colors <= 4 {
            4
        } else if colors <= 16 {
            2
        } else {
            1
        };
        let width: usize = self.width as usize;
        let bpr: usize = if width == 0 {
            0
        } else {
            (width - 1) / ppb + 1
        };
        proof {
            assert(ppb == self.spec_ppb());
            if width >= 1 {
                lemma_row_bytes(width as int, ppb as int);
            } else {
                lemma_basic_div((ppb - 1) as int, ppb as int);
            }
            assert(bpr == spec_bytes_per_row(self.width as nat, self.spec_ppb()));
            assert(width <= bpr * ppb);
            lemma_mul_upper_bound(
                self.height as int,
                u32::MAX as int,
                bpr as int,
                u32::MAX as int,
            );
        }
        if (self.pixels.len() as u64) < (self.height as u64) * (bpr as u64) {
            return false;
        }
        let count: usize = pc64 as usize;
        let mut p: usize = 0;
        while p < count
            invariant
                p <= count,
                forall|p2: nat|
                    p2 < p ==> spec_index_of_pixel(
                        self.pixels@,
                        self.width as nat,
                        self.spec_ppb(),
                        p2,
                    ) < self.spec_colors(),
            decreases count - p,
        {
            proof {
                if width == 0 {
                    assert(self.width * self.height == 0) by (nonlinear_arith)
                        requires
                            self.width == 0,
                    ;
                    assert(count == 0);
                }
                assert(width > 0);
            }
            let color_index: usize = read_packed_index(
                &self.pixels,
                width,
                ppb,
                bpr,
                self.height,
                p,
            );
            if color_index >= colors {
                return false;
            }
            p = p + 1;
        }
        true
    }
}

/// Row padding is skipped exactly once per row boundary: every pixel reads
/// a byte inside its own row's byte range, and the first pixel of each row
/// reads slot 0 of the row's first byte — the unused trailing slots of the
/// previous row's last byte are never decoded.
pub proof fn lemma_row_padding_skipped(width: nat, ppb: nat, p: nat)
    requires
        0 < width,
        0 < ppb,
    ensures
        ({
            let r = p / width;
            let c = p % width;
            let bpr = spec_bytes_per_row(width, ppb);
            &&& r * bpr <= r * bpr + c / ppb < r * bpr + bpr
            &&& (c == 0 ==> c / ppb == 0 && c % ppb == 0)
        }),
{
    let c = p % width;
    let bpr = spec_bytes_per_row(width, ppb);
    lemma_mod_pos_bound(p as int, width as int);
    lemma_row_bytes(width as int, ppb as int);
    assert(c / ppb < bpr) by {
        assert(c < bpr * ppb);
        assert(ppb * bpr == bpr * ppb) by (nonlinear_arith);
        lemma_multiply_divide_lt(c as int, ppb as int, bpr as int);
    }
    if c == 0 {
        lemma_basic_div(0, ppb as int);
    }
}

/// Reads the packed palette index of pixel `p` out of the byte-aligned
/// rows of `pixels`: the byte at `row * bpr + column / ppb`, at sub-byte
/// slot `column % ppb`.
fn read_packed_index(pixels: &Vec<u8>, width: usize, ppb: usize, bpr: usize, height: u32, p: usize) -> (idx: usize)
    requires
        0 < width,
        ppb == 1 || ppb == 2 || ppb == 4 || ppb == 8,
        bpr == spec_bytes_per_row(width as nat, ppb as nat),
        width <= bpr * ppb,
        p < width * height,
        pixels@.len() >= height * bpr,
    ensures
        idx == spec_index_of_pixel(pixels@, width as nat, ppb as nat, p as nat),
        idx <= 255,
{
    let plen: usize = pixels.len();
    let r_row: usize = p / width;
    let c_col: usize = p % width;
    proof {
        lemma_multiply_divide_lt(p as int, width as int, height as int);
        assert(r_row < height);
        assert(c_col / ppb < bpr) by {
            assert(c_col < bpr * ppb);
            assert(ppb * bpr == bpr * ppb) by (nonlinear_arith);
            lemma_multiply_divide_lt(c_col as int, ppb as int, bpr as int);
        }
        assert(r_row * bpr + bpr <= height * bpr) by {
            lemma_mul_inequality((r_row + 1) as int, height as int, bpr as int);
            assert(((r_row + 1) as int) * (bpr as int) == r_row * bpr + bpr) by (nonlinear_arith);
        }
        assert(pixels@.len() == plen);
        assert(r_row * bpr + c_col / ppb < pixels@.len());
    }
    let byte_pos: usize = r_row * bpr + c_col / ppb;
    let byte: u8 = pixels[byte_pos];
    let slot: usize = c_col % ppb;
    if ppb == 8 {
        ((byte >> ((7 - slot) as u8)) & 1) as usize
    } else if ppb == 4 {
        ((byte >> ((2 * (3 - slot)) as u8)) & 3) as usize
    } else if ppb == 2 {
        ((byte >> ((4 - 4 * slot) as u8)) & 15) as usize
    } else {
        byte as usize
    }
}

/// Row bytes arithmetic: for a positive width, `(w - 1) / ppb + 1` is the
/// ceiling of `w / ppb`, and that many bytes hold at least `w` slots.
proof fn lemma_row_bytes(w: int, ppb: int)
    requires
        1 <= w,
        1 <= ppb,
    ensures
        (w - 1) / ppb + 1 == (w + ppb - 1) / ppb,
        w <= ((w + ppb - 1) / ppb) * ppb,
{
    let q = (w - 1) / ppb;
    let r0 = (w - 1) % ppb;
    lemma_fundamental_div_mod(w - 1, ppb);
    lemma_mod_pos_bound(w - 1, ppb);
    assert((q + 1) * ppb == ppb * q + ppb) by (nonlinear_arith);
    lemma_fundamental_div_mod_converse(w + ppb - 1, ppb, q + 1, r0);
}

} // verus!
