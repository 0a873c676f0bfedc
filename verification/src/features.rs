use vstd::prelude::*;

use vstd::arithmetic::div_mod::lemma_div_is_ordered;

use crate::color::ColorType;
use crate::convert::lemma_luma_gray;
use crate::error::Error;
use crate::image::ImageStruct;

verus! {

/// One increment of a histogram bucket.
pub open spec fn spec_hist_bump(h: Seq<nat>, j: int) -> Seq<nat>
    recommends
        0 <= j < h.len(),
{
    h.update(j, (h[j] + 1) as nat)
}

/// Sum of the fifteen bucket counters of a histogram.
pub open spec fn spec_hist_total(h: Seq<nat>) -> int
    recommends
        h.len() == 15,
{
    h[0] + h[1] + h[2] + h[3] + h[4] + h[5] + h[6] + h[7] + h[8] + h[9] + h[10] + h[11]
        + h[12] + h[13] + h[14] + 0int
}

/// The bucket of a byte-encoded channel value: the unit interval is split
/// into five equal buckets over the value scaled to [0,1] (`floor(v*5)` for
/// `v = byte/255`), and the exact top value routes to the last bucket
/// instead of an out-of-range fifth one.
pub open spec fn spec_bucket(v: u8) -> nat {
    if v == 255 {
        4
    } else {
        (5 * (v as nat)) / 255
    }
}

/// Every channel value falls in one of the five buckets.
pub proof fn lemma_bucket_range(v: u8)
    ensures
        spec_bucket(v) <= 4,
{
    if v != 255 {
        lemma_div_is_ordered(5 * (v as int), 1274, 255);
    }
}

impl ImageStruct {
    /// Sum of the lumas of the first `n` pixels of the record's RGB
    /// rendition.
    pub open spec fn spec_luma_sum(self, n: nat) -> int
        decreases n,
    {
        if n == 0 {
            0
        } else {
            self.spec_luma_sum((n - 1) as nat) + self.spec_gray_luma((n - 1) as nat)
        }
    }

    /// Histogram of the first `n` pixels of the record's RGB rendition:
    /// fifteen counters (0-4 red, 5-9 green, 10-14 blue), each pixel
    /// incrementing exactly one bucket per channel.
    pub open spec fn spec_histogram(self, n: nat) -> Seq<nat>
        decreases n,
    {
        if n == 0 {
            Seq::new(15, |j: int| 0nat)
        } else {
            let h = self.spec_histogram((n - 1) as nat);
            let p = (n - 1) as nat;
            let jr = spec_bucket(self.spec_rgb_sample(p, 0)) as int;
            let jg = 5 + spec_bucket(self.spec_rgb_sample(p, 1)) as int;
            let jb = 10 + spec_bucket(self.spec_rgb_sample(p, 2)) as int;
            spec_hist_bump(spec_hist_bump(spec_hist_bump(h, jr), jg), jb)
        }
    }
}

/// Records whose per-pixel lumas agree have equal luma sums.
pub proof fn lemma_luma_sum_congruent(a: ImageStruct, b: ImageStruct, n: nat)
    requires
        forall|p: nat| p < n ==> #[trigger] a.spec_gray_luma(p) == b.spec_gray_luma(p),
    ensures
        a.spec_luma_sum(n) == b.spec_luma_sum(n),
    decreases n,
{
    if n > 0 {
        lemma_luma_sum_congruent(a, b, (n - 1) as nat);
        assert(a.spec_gray_luma((n - 1) as nat) == b.spec_gray_luma((n - 1) as nat));
    }
}

/// Mean brightness is invariant under grayscale conversion: any record of
/// the grayscale-rendition form of `i` has the same pixel count and the
/// same luma sum as `i` itself, hence the same mean brightness ratio.
pub proof fn lemma_brightness_of_grayscale(i: ImageStruct, g: ImageStruct)
    requires
        i.gray_form_of(g),
    ensures
        g.pixel_count() == i.pixel_count(),
        g.spec_luma_sum(i.pixel_count()) == i.spec_luma_sum(i.pixel_count()),
{
    assert forall|p: nat| p < i.pixel_count() implies #[trigger] g.spec_gray_luma(p)
        == i.spec_gray_luma(p) by {
        let x = i.spec_gray_luma(p);
        if i.spec_has_alpha() {
            assert(g.pixels@[(p * 2) as int] == x);
            assert(p * 2 + 1 < i.pixel_count() * 2);
            assert(g.spec_rgb_sample(p, 0) == g.pixels@[(2 * p) as int]);
        } else {
            assert(g.pixels@[(p * 1) as int] == x);
            assert(g.spec_rgb_sample(p, 0) == g.pixels@[p as int]);
        }
        lemma_luma_gray(x);
    }
    lemma_luma_sum_congruent(g, i, i.pixel_count());
}

/// The histogram is a sequence of fifteen counters, each at most `n`.
pub proof fn lemma_histogram_bounds(i: ImageStruct, n: nat)
    ensures
        i.spec_histogram(n).len() == 15,
        forall|j: int| 0 <= j < 15 ==> #[trigger] i.spec_histogram(n)[j] <= n,
    decreases n,
{
    if n > 0 {
        lemma_histogram_bounds(i, (n - 1) as nat);
        let p = (n - 1) as nat;
        lemma_bucket_range(i.spec_rgb_sample(p, 0));
        lemma_bucket_range(i.spec_rgb_sample(p, 1));
        lemma_bucket_range(i.spec_rgb_sample(p, 2));
    }
}

/// The bucket counts always sum to three per pixel: each pixel increments
/// exactly one bucket per channel.
pub proof fn lemma_histogram_total(i: ImageStruct, n: nat)
    ensures
        spec_hist_total(i.spec_histogram(n)) == 3 * n,
    decreases n,
{
    if n > 0 {
        lemma_histogram_total(i, (n - 1) as nat);
        lemma_histogram_bounds(i, (n - 1) as nat);
        let p = (n - 1) as nat;
        lemma_bucket_range(i.spec_rgb_sample(p, 0));
        lemma_bucket_range(i.spec_rgb_sample(p, 1));
        lemma_bucket_range(i.spec_rgb_sample(p, 2));
    }
}

/// Records whose RGB renditions agree pixel for pixel have equal
/// histograms; in particular an indexed record and the direct-colour
/// record it depalettizes to.
pub proof fn lemma_histogram_congruent(a: ImageStruct, b: ImageStruct, n: nat)
    requires
        forall|p: nat, k: nat|
            p < n && k < 3 ==> #[trigger] a.spec_rgb_sample(p, k) == b.spec_rgb_sample(p, k),
    ensures
        a.spec_histogram(n) == b.spec_histogram(n),
    decreases n,
{
    if n > 0 {
        lemma_histogram_congruent(a, b, (n - 1) as nat);
        let p = (n - 1) as nat;
        assert(a.spec_rgb_sample(p, 0) == b.spec_rgb_sample(p, 0));
        assert(a.spec_rgb_sample(p, 1) == b.spec_rgb_sample(p, 1));
        assert(a.spec_rgb_sample(p, 2) == b.spec_rgb_sample(p, 2));
    }
}

impl ImageStruct {
    /// Mean brightness of the image as an exact ratio: the grayscale
    /// rendition's sample sum over 255 times the pixel count, a value in
    /// [0,1]. Non-grayscale records route through the fixed two-hop
    /// pipeline (to RGB, then to grayscale) before averaging.
    pub fn medium_brightness(&self) -> (r: Result<(u128, u128), Error>)
        requires
            self.wf(),
            self.size_ok(),
        ensures
            match r {
                Ok(ratio) => self.conv_error() is None && ratio.0 == self.spec_luma_sum(
                    self.pixel_count(),
                ) && ratio.1 == 255 * self.pixel_count() && ratio.0 <= ratio.1,
                Err(e) => self.conv_error() == Some(e),
            },
    {
        match self.color_type {
            ColorType::Grayscale => Ok(brightness_of_gray(self)),
            _ => {
                let rgb = match self.to_rgb() {
                    Ok(i) => i,
                    Err(e) => {
                        return Err(e);
                    },
                };
                let gray = match rgb.convert_to_grayscale() {
                    Ok(i) => i,
                    Err(e) => {
                        return Err(e);
                    },
                };
                proof {
                    assert forall|p: nat| p < self.pixel_count() implies #[trigger] rgb
                        .spec_gray_luma(p) == self.spec_gray_luma(p) by {
                        assert(rgb.pixels@[(3 * p + 0) as int] == self.spec_rgb_sample(p, 0));
                        assert(rgb.pixels@[(3 * p + 1) as int] == self.spec_rgb_sample(p, 1));
                        assert(rgb.pixels@[(3 * p + 2) as int] == self.spec_rgb_sample(p, 2));
                        assert(rgb.spec_rgb_sample(p, 0) == rgb.pixels@[(3 * p + 0) as int]);
                        assert(rgb.spec_rgb_sample(p, 1) == rgb.pixels@[(3 * p + 1) as int]);
                        assert(rgb.spec_rgb_sample(p, 2) == rgb.pixels@[(3 * p + 2) as int]);
                    }
                    lemma_brightness_of_grayscale(rgb, gray);
                    lemma_luma_sum_congruent(rgb, *self, self.pixel_count());
                }
                let ratio = brightness_of_gray(&gray);
                Ok(ratio)
            },
        }
    }

    /// Colour histogram of the image over its RGB rendition: fifteen
    /// counters, five equal-width buckets per channel (red 0-4, green 5-9,
    /// blue 10-14); each pixel increments exactly one bucket per channel.
    /// Non-RGB records route through the RGB rendition first.
    pub fn color_histogram(&self) -> (r: Result<Vec<u32>, Error>)
        requires
            self.wf(),
            self.size_ok(),
            self.pixel_count() <= u32::MAX,
        ensures
            match r {
                Ok(h) => self.conv_error() is None && h@.len() == 15 && forall|j: int|
                    0 <= j < 15 ==> h@[j] == self.spec_histogram(self.pixel_count())[j],
                Err(e) => self.conv_error() == Some(e),
            },
    {
        match self.color_type {
            ColorType::Rgb => Ok(histogram_of_rgb(self)),
            _ => {
                let rgb = match self.to_rgb() {
                    Ok(i) => i,
                    Err(e) => {
                        return Err(e);
                    },
                };
                let h = histogram_of_rgb(&rgb);
                proof {
                    assert forall|p: nat, k: nat| p < self.pixel_count() && k < 3 implies
                        #[trigger] rgb.spec_rgb_sample(p, k) == self.spec_rgb_sample(p, k) by {
                        assert(rgb.pixels@[(3 * p + k) as int] == self.spec_rgb_sample(p, k));
                    }
                    lemma_histogram_congruent(rgb, *self, self.pixel_count());
                }
                Ok(h)
            },
        }
    }
}

/// Sums the samples of a grayscale record and pairs the sum with 255 times
/// the pixel count, the exact mean-brightness ratio.
#[verifier::loop_isolation(false)]
fn brightness_of_gray(img: &ImageStruct) -> (ratio: (u128, u128))
    requires
        img.color_type == ColorType::Grayscale,
        img.samples_wf(),
    ensures
        ratio.0 == img.spec_luma_sum(img.pixel_count()),
        ratio.1 == 255 * img.pixel_count(),
        ratio.0 <= ratio.1,
{
    let count: usize = img.pixels.len();
    let mut sum: u128 = 0;
    let mut p: usize = 0;
    while p < count
        invariant
            p <= count,
            sum == img.spec_luma_sum(p as nat),
            sum <= 255 * p,
        decreases count - p,
    {
        let g = img.pixels[p];
        proof {
            lemma_luma_gray(g);
            assert(img.spec_gray_luma(p as nat) == g);
        }
        sum = sum + (g as u128);
        p = p + 1;
    }
    let den: u128 = 255 * (count as u128);
    (sum, den)
}

/// Builds the fifteen-bucket histogram of an RGB record by one pass over
/// its pixels.
#[verifier::loop_isolation(false)]
fn histogram_of_rgb(img: &ImageStruct) -> (h: Vec<u32>)
    requires
        img.color_type == ColorType::Rgb,
        img.samples_wf(),
        img.pixel_count() <= u32::MAX,
    ensures
        h@.len() == 15,
        forall|j: int| 0 <= j < 15 ==> h@[j] == img.spec_histogram(img.pixel_count())[j],
{
    let mut h: Vec<u32> = Vec::new();
    while h.len() < 15
        invariant
            h@.len() <= 15,
            forall|j: int| 0 <= j < h@.len() ==> h@[j] == 0,
        decreases 15 - h@.len(),
    {
        h.push(0);
    }
    proof {
        assert forall|j: int| 0 <= j < 15 implies h@[j] == img.spec_histogram(0)[j] by {
        }
    }
    let plen: usize = img.pixels.len();
    let count: usize = plen / 3;
    proof {
        assert(count == img.pixel_count());
    }
    let mut p: usize = 0;
    while p < count
        invariant
            p <= count,
            h@.len() == 15,
            forall|j: int| 0 <= j < 15 ==> h@[j] == img.spec_histogram(p as nat)[j],
        decreases count - p,
    {
        proof {
            lemma_histogram_bounds(*img, p as nat);
        }
        let r: u8 = img.pixels[3 * p];
        let g: u8 = img.pixels[3 * p + 1];
        let b: u8 = img.pixels[3 * p + 2];
        let jr: usize = if r == 255 {
            4
        } else {
            5 * (r as usize) / 255
        };
        let jg: usize = 5 + (if g == 255 {
            4
        } else {
            5 * (g as usize) / 255
        });
        let jb: usize = 10 + (if b == 255 {
            4
        } else {
            5 * (b as usize) / 255
        });
        proof {
            lemma_bucket_range(r);
            lemma_bucket_range(g);
            lemma_bucket_range(b);
            assert(jr == spec_bucket(img.spec_rgb_sample(p as nat, 0)));
            assert(jg == 5 + spec_bucket(img.spec_rgb_sample(p as nat, 1)));
            assert(jb == 10 + spec_bucket(img.spec_rgb_sample(p as nat, 2)));
        }
        let cr = h[jr];
        h.set(jr, cr + 1);
        let cg = h[jg];
        h.set(jg, cg + 1);
        let cb = h[jb];
        h.set(jb, cb + 1);
        proof {
            assert forall|j: int| 0 <= j < 15 implies h@[j] == img.spec_histogram((p
                + 1) as nat)[j] by {
            }
        }
        p = p + 1;
    }
    h
}

} // verus!
