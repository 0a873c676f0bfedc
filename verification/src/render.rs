use vstd::prelude::*;

verus! {

/// The largest counter among the first `j` buckets (0 when there are none).
pub open spec fn spec_max_count(h: Seq<u32>, j: nat) -> u32
    decreases j,
{
    if j == 0 {
        0
    } else {
        let m = spec_max_count(h, (j - 1) as nat);
        if h[j - 1] > m {
            h[j - 1]
        } else {
            m
        }
    }
}

/// Height of a bucket's bar out of ten rows: `bucket / max * 10`, rounded
/// half away from zero. A histogram whose counters are all zero draws
/// nothing above the baseline rather than dividing by zero.
pub open spec fn spec_bar_height(bin: u32, max: u32) -> int {
    if max == 0 {
        0
    } else {
        (20 * bin + max) / (2 * max)
    }
}

/// The colour escape code of a bucket: red for buckets 0-4, green for 5-9,
/// blue beyond.
pub open spec fn spec_color_code(index: int) -> Seq<u8> {
    if index <= 4 {
        seq![27u8, 91u8, 51u8, 49u8, 109u8]
    } else if index <= 9 {
        seq![27u8, 91u8, 51u8, 50u8, 109u8]
    } else {
        seq![27u8, 91u8, 51u8, 52u8, 109u8]
    }
}

/// One chart cell: a coloured block glyph, a space, the reset code and a
/// tab where the bar reaches this row, else a bare tab.
pub open spec fn spec_cell(bin: u32, index: int, row: int, max: u32) -> Seq<u8> {
    if spec_bar_height(bin, max) >= row {
        spec_color_code(index) + seq![226u8, 150u8, 136u8, 32u8, 27u8, 91u8, 48u8, 109u8, 9u8]
    } else {
        seq![9u8]
    }
}

/// The first `j` cells of one chart row.
pub open spec fn spec_cells(h: Seq<u32>, row: int, max: u32, j: nat) -> Seq<u8>
    decreases j,
{
    if j == 0 {
        Seq::empty()
    } else {
        spec_cells(h, row, max, (j - 1) as nat) + spec_cell(h[j - 1], j - 1, row, max)
    }
}

/// One chart row: a cell per bucket, then a newline.
pub open spec fn spec_chart_row(h: Seq<u32>, row: int, max: u32) -> Seq<u8> {
    spec_cells(h, row, max, h.len()) + seq![10u8]
}

/// The first `k` chart rows, drawn from row 10 down towards the baseline.
pub open spec fn spec_chart_rows(h: Seq<u32>, max: u32, k: nat) -> Seq<u8>
    decreases k,
{
    if k == 0 {
        Seq::empty()
    } else {
        spec_chart_rows(h, max, (k - 1) as nat) + spec_chart_row(h, 11 - k, max)
    }
}

/// The decimal digits of `n`, most significant first.
pub open spec fn spec_dec(n: nat) -> Seq<u8>
    decreases n,
{
    if n < 10 {
        seq![(48 + n) as u8]
    } else {
        spec_dec(n / 10) + seq![(48 + n % 10) as u8]
    }
}

/// One bucket's raw count, right-justified in a three-character field and
/// followed by a tab.
pub open spec fn spec_count_field(n: u32) -> Seq<u8> {
    if n < 10 {
        seq![32u8, 32u8] + spec_dec(n as nat) + seq![9u8]
    } else if n < 100 {
        seq![32u8] + spec_dec(n as nat) + seq![9u8]
    } else {
        spec_dec(n as nat) + seq![9u8]
    }
}

/// The count fields of the first `j` buckets.
pub open spec fn spec_counts(h: Seq<u32>, j: nat) -> Seq<u8>
    decreases j,
{
    if j == 0 {
        Seq::empty()
    } else {
        spec_counts(h, (j - 1) as nat) + spec_count_field(h[j - 1])
    }
}

/// The full rendering of a histogram: eleven chart rows (ten above the
/// baseline plus the baseline itself), then the raw counts line.
pub open spec fn spec_render(h: Seq<u32>) -> Seq<u8> {
    spec_chart_rows(h, spec_max_count(h, h.len()), 11) + spec_counts(h, h.len()) + seq![10u8]
}

/// Appends one coloured bar cell to `out`: the colour code of bucket
/// `index`, the block glyph, a space, the reset code and a tab.
fn push_bar_cell(out: &mut Vec<u8>, index: usize)
    ensures
        final(out)@ == old(out)@ + spec_color_code(index as int) + seq![
            226u8,
            150u8,
            136u8,
            32u8,
            27u8,
            91u8,
            48u8,
            109u8,
            9u8,
        ],
{
    out.push(27);
    out.push(91);
    out.push(51);
    if index <= 4 {
        out.push(49);
    } else if index <= 9 {
        out.push(50);
    } else {
        out.push(52);
    }
    out.push(109);
    out.push(226);
    out.push(150);
    out.push(136);
    out.push(32);
    out.push(27);
    out.push(91);
    out.push(48);
    out.push(109);
    out.push(9);
    proof {
        assert(out@ =~= old(out)@ + spec_color_code(index as int) + seq![
            226u8,
            150u8,
            136u8,
            32u8,
            27u8,
            91u8,
            48u8,
            109u8,
            9u8,
        ]);
    }
}

/// Appends the decimal digits of `n` to `out`.
fn push_decimal(out: &mut Vec<u8>, n: u32)
    ensures
        final(out)@ == old(out)@ + spec_dec(n as nat),
    decreases n,
{
    if n < 10 {
        out.push(48 + n as u8);
        proof {
            assert(out@ =~= old(out)@ + spec_dec(n as nat));
        }
    } else {
        push_decimal(out, n / 10);
        out.push(48 + (n % 10) as u8);
        proof {
            assert(out@ =~= old(out)@ + spec_dec(n as nat));
        }
    }
}

/// Renders a histogram as a fixed-height vertical bar chart followed by a
/// line of raw counts, appending the text (as UTF-8 bytes) to `writer`:
/// bars are coloured by channel group, each bar's height is its count over
/// the largest count, scaled to ten rows and rounded.
#[verifier::loop_isolation(false)]
pub fn histogram_to_writer(histogram: &Vec<u32>, writer: &mut Vec<u8>)
    ensures
        final(writer)@ == old(writer)@ + spec_render(histogram@),
{
    let n: usize = histogram.len();
    let mut max_count: u32 = 0;
    let mut i: usize = 0;
    while i < n
        invariant
            i <= n,
            max_count == spec_max_count(histogram@, i as nat),
        decreases n - i,
    {
        if histogram[i] > max_count {
            max_count = histogram[i];
        }
        i = i + 1;
    }
    let mut k: usize = 0;
    while k < 11
        invariant
            k <= 11,
            writer@ == old(writer)@ + spec_chart_rows(histogram@, max_count, k as nat),
        decreases 11 - k,
    {
        let row: u32 = 10 - k as u32;
        let ghost row_start = writer@;
        let mut j: usize = 0;
        while j < n
            invariant
                j <= n,
                writer@ == row_start + spec_cells(histogram@, row as int, max_count, j as nat),
            decreases n - j,
        {
            let ghost cells_start = writer@;
            let bin: u32 = histogram[j];
            let height: u64 = if max_count == 0 {
                0
            } else {
                (20u64 * (bin as u64) + (max_count as u64)) / (2 * (max_count as u64))
            };
            proof {
                assert(height == spec_bar_height(bin, max_count));
            }
            if height >= row as u64 {
                push_bar_cell(writer, j);
                proof {
                    assert(writer@ =~= cells_start + spec_cell(bin, j as int, row as int,
                        max_count));
                }
            } else {
                writer.push(9);
                proof {
                    assert(writer@ =~= cells_start + spec_cell(bin, j as int, row as int,
                        max_count));
                }
            }
            proof {
                assert(writer@ =~= row_start + spec_cells(
                    histogram@,
                    row as int,
                    max_count,
                    (j + 1) as nat,
                ));
            }
            j = j + 1;
        }
        writer.push(10);
        proof {
            assert(writer@ =~= old(writer)@ + spec_chart_rows(
                histogram@,
                max_count,
                (k + 1) as nat,
            ));
        }
        k = k + 1;
    }
    let ghost counts_start = writer@;
    let mut j: usize = 0;
    while j < n
        invariant
            j <= n,
            writer@ == counts_start + spec_counts(histogram@, j as nat),
        decreases n - j,
    {
        let bin: u32 = histogram[j];
        if bin < 10 {
            writer.push(32);
            writer.push(32);
        } else if bin < 100 {
            writer.push(32);
        }
        push_decimal(writer, bin);
        writer.push(9);
        proof {
            assert(writer@ =~= counts_start + spec_counts(histogram@, (j + 1) as nat));
        }
        j = j + 1;
    }
    writer.push(10);
    proof {
        assert(writer@ =~= old(writer)@ + spec_render(histogram@));
    }
}

} // verus!
