//! How much two frames differ, measured over a grid of square blocks.
use crate::model::Frame;
use vstd::prelude::*;

verus! {

/// Why two frames could not be compared.
#[derive(Clone, Copy, Debug, PartialEq, Eq, Structural)]
pub enum MetricError {
    /// The frames do not have the same width and height.
    DimensionsChanged,
    /// The block size is zero.
    ZeroBlockSize,
    /// `width * height * 4` does not fit in `usize`.
    DimensionsOverflow,
    /// A pixel buffer does not hold exactly `width * height * 4` bytes.
    InvalidBufferLength,
    /// The frame has no pixel.
    EmptyFrame,
}

/// A measure of the visible change between two frames, in basis points
/// (0 = no change, 10 000 = everything changed).
pub trait FrameDifferenceMetric {
    /// What `difference` reports for two frames.
    spec fn difference_spec(&self, previous: Frame, current: Frame) -> Result<u32, MetricError>;

    /// Compares two frames. A metric may keep internal state, but what it reports
    /// for any pair of frames does not change from one call to the next.
    fn difference(&mut self, previous: &Frame, current: &Frame) -> (r: Result<u32, MetricError>)
        ensures
            r == old(self).difference_spec(*previous, *current),
            forall|p: Frame, c: Frame|
                #[trigger] final(self).difference_spec(p, c) == old(self).difference_spec(p, c),
    ;
}

/// Counts the share of `block_size`-square blocks whose mean RGB change exceeds
/// `mean_channel_delta_threshold`.
#[derive(Clone, Debug)]
pub struct BlockDifferenceMetric {
    pub block_size: u32,
    pub mean_channel_delta_threshold: u8,
}

impl Default for BlockDifferenceMetric {
    fn default() -> (m: BlockDifferenceMetric)
        ensures
            m.block_size == 16,
            m.mean_channel_delta_threshold == 5,
    {
        BlockDifferenceMetric { block_size: 16, mean_channel_delta_threshold: 5 }
    }
}

/// Channel `channel` of pixel `(x, y)` in a row-major RGBA buffer `width` pixels wide.
pub open spec fn channel_value(rgba: Seq<u8>, width: int, x: int, y: int, channel: int) -> int {
    rgba[(y * width + x) * 4 + channel] as int
}

/// Sum of one channel over the pixels `x0..x1` of row `y`.
pub open spec fn row_channel_sum(rgba: Seq<u8>, width: int, y: int, x0: int, x1: int, channel: int) -> int
    decreases x1 - x0,
{
    if x1 <= x0 {
        0
    } else {
        row_channel_sum(rgba, width, y, x0, x1 - 1, channel) + channel_value(rgba, width, x1 - 1, y, channel)
    }
}

/// Sum of one channel over the rectangle `x0..x1` by `y0..y1`.
pub open spec fn rect_channel_sum(
    rgba: Seq<u8>,
    width: int,
    x0: int,
    x1: int,
    y0: int,
    y1: int,
    channel: int,
) -> int
    decreases y1 - y0,
{
    if y1 <= y0 {
        0
    } else {
        rect_channel_sum(rgba, width, x0, x1, y0, y1 - 1, channel) + row_channel_sum(
            rgba,
            width,
            y1 - 1,
            x0,
            x1,
            channel,
        )
    }
}

/// End of the block that starts at `start`, clipped to `limit`.
pub open spec fn block_end(start: int, block: int, limit: int) -> int {
    if start + block < limit {
        start + block
    } else {
        limit
    }
}

pub open spec fn abs_diff(a: int, b: int) -> int {
    if a >= b {
        a - b
    } else {
        b - a
    }
}

/// Mean change of one channel per pixel over a block, rounded down.
pub open spec fn channel_delta(
    previous: Seq<u8>,
    current: Seq<u8>,
    width: int,
    x0: int,
    x1: int,
    y0: int,
    y1: int,
    channel: int,
) -> int {
    abs_diff(
        rect_channel_sum(previous, width, x0, x1, y0, y1, channel),
        rect_channel_sum(current, width, x0, x1, y0, y1, channel),
    ) / ((x1 - x0) * (y1 - y0))
}

/// Mean of the three per-channel changes of a block, rounded down.
pub open spec fn block_mean_delta(
    previous: Seq<u8>,
    current: Seq<u8>,
    width: int,
    x0: int,
    x1: int,
    y0: int,
    y1: int,
) -> int {
    (channel_delta(previous, current, width, x0, x1, y0, y1, 0) + channel_delta(
        previous,
        current,
        width,
        x0,
        x1,
        y0,
        y1,
        1,
    ) + channel_delta(previous, current, width, x0, x1, y0, y1, 2)) / 3
}

/// Blocks of the band `y0..y1`, from column `x0` on, whose mean change exceeds `threshold`.
pub open spec fn row_changed(
    previous: Seq<u8>,
    current: Seq<u8>,
    width: int,
    block: int,
    threshold: int,
    y0: int,
    y1: int,
    x0: int,
) -> int
    decreases width - x0,
{
    if x0 >= width || block <= 0 {
        0
    } else {
        let x1 = block_end(x0, block, width);
        (if block_mean_delta(previous, current, width, x0, x1, y0, y1) > threshold {
            1int
        } else {
            0int
        }) + row_changed(previous, current, width, block, threshold, y0, y1, x1)
    }
}

/// Number of blocks in a band, from column `x0` on.
pub open spec fn row_blocks(width: int, block: int, x0: int) -> int
    decreases width - x0,
{
    if x0 >= width || block <= 0 {
        0
    } else {
        1 + row_blocks(width, block, block_end(x0, block, width))
    }
}

/// Changed blocks of all bands from row `y0` on.
pub open spec fn grid_changed(
    previous: Seq<u8>,
    current: Seq<u8>,
    width: int,
    height: int,
    block: int,
    threshold: int,
    y0: int,
) -> int
    decreases height - y0,
{
    if y0 >= height || block <= 0 {
        0
    } else {
        let y1 = block_end(y0, block, height);
        row_changed(previous, current, width, block, threshold, y0, y1, 0) + grid_changed(
            previous,
            current,
            width,
            height,
            block,
            threshold,
            y1,
        )
    }
}

/// Blocks of all bands from row `y0` on.
pub open spec fn grid_blocks(width: int, height: int, block: int, y0: int) -> int
    decreases height - y0,
{
    if y0 >= height || block <= 0 {
        0
    } else {
        row_blocks(width, block, 0) + grid_blocks(width, height, block, block_end(y0, block, height))
    }
}

/// What `BlockDifferenceMetric::difference` reports.
pub open spec fn block_difference(
    block_size: u32,
    threshold: u8,
    previous: Frame,
    current: Frame,
) -> Result<u32, MetricError> {
    let w = previous.width as int;
    let h = previous.height as int;
    if previous.width != current.width || previous.height != current.height {
        Err(MetricError::DimensionsChanged)
    } else if block_size == 0 {
        Err(MetricError::ZeroBlockSize)
    } else if w * h * 4 > usize::MAX {
        Err(MetricError::DimensionsOverflow)
    } else if previous.rgba@.len() != w * h * 4 || current.rgba@.len() != w * h * 4 {
        Err(MetricError::InvalidBufferLength)
    } else if w == 0 || h == 0 {
        Err(MetricError::EmptyFrame)
    } else {
        Ok(
            (grid_changed(previous.rgba@, current.rgba@, w, h, block_size as int, threshold as int, 0)
                * 10_000 / grid_blocks(w, h, block_size as int, 0)) as u32,
        )
    }
}


/// 255 times 2^32: an upper bound on one channel's sum over one row of a frame.
pub open spec fn row_sum_cap() -> int {
    0xff_0000_0000
}

proof fn lemma_row_sum_bounds(rgba: Seq<u8>, width: int, y: int, x0: int, x1: int, channel: int)
    requires
        x0 <= x1,
    ensures
        0 <= row_channel_sum(rgba, width, y, x0, x1, channel) <= 255 * (x1 - x0),
    decreases x1 - x0,
{
    if x1 > x0 {
        lemma_row_sum_bounds(rgba, width, y, x0, x1 - 1, channel);
    }
}

proof fn lemma_rect_sum_bounds(
    rgba: Seq<u8>,
    width: int,
    x0: int,
    x1: int,
    y0: int,
    y1: int,
    channel: int,
)
    requires
        x0 <= x1,
        x1 - x0 <= 0x1_0000_0000,
        y0 <= y1,
    ensures
        0 <= rect_channel_sum(rgba, width, x0, x1, y0, y1, channel) <= (y1 - y0) * row_sum_cap(),
    decreases y1 - y0,
{
    if y1 > y0 {
        lemma_rect_sum_bounds(rgba, width, x0, x1, y0, y1 - 1, channel);
        lemma_row_sum_bounds(rgba, width, y1 - 1, x0, x1, channel);
    }
}

proof fn lemma_pixel_index(x: int, y: int, width: int, height: int)
    requires
        0 <= x < width,
        0 <= y < height,
    ensures
        0 <= y * width,
        y * width + x < width * height,
{
    assert(0 <= y * width) by (nonlinear_arith)
        requires
            0 <= y,
            0 <= width,
    ;
    assert(y * width + x < width * height) by (nonlinear_arith)
        requires
            0 <= x < width,
            0 <= y < height,
    ;
}

proof fn lemma_row_blocks_bounds(width: int, block: int, x0: int)
    requires
        block > 0,
    ensures
        0 <= row_blocks(width, block, x0),
        x0 < width ==> 1 <= row_blocks(width, block, x0) <= width - x0,
    decreases width - x0,
{
    if x0 < width {
        lemma_row_blocks_bounds(width, block, block_end(x0, block, width));
    }
}

proof fn lemma_row_changed_bounds(
    previous: Seq<u8>,
    current: Seq<u8>,
    width: int,
    block: int,
    threshold: int,
    y0: int,
    y1: int,
    x0: int,
)
    requires
        block > 0,
    ensures
        0 <= row_changed(previous, current, width, block, threshold, y0, y1, x0) <= row_blocks(
            width,
            block,
            x0,
        ),
    decreases width - x0,
{
    if x0 < width {
        lemma_row_changed_bounds(
            previous,
            current,
            width,
            block,
            threshold,
            y0,
            y1,
            block_end(x0, block, width),
        );
    }
}

proof fn lemma_grid_blocks_bounds(width: int, height: int, block: int, y0: int)
    requires
        block > 0,
        0 <= width <= 0x1_0000_0000,
    ensures
        0 <= grid_blocks(width, height, block, y0),
        y0 < height ==> grid_blocks(width, height, block, y0) <= (height - y0) * 0x1_0000_0000,
        y0 < height && 0 < width ==> 1 <= grid_blocks(width, height, block, y0),
    decreases height - y0,
{
    lemma_row_blocks_bounds(width, block, 0);
    if y0 < height {
        lemma_grid_blocks_bounds(width, height, block, block_end(y0, block, height));
    }
}

proof fn lemma_grid_changed_bounds(
    previous: Seq<u8>,
    current: Seq<u8>,
    width: int,
    height: int,
    block: int,
    threshold: int,
    y0: int,
)
    requires
        block > 0,
    ensures
        0 <= grid_changed(previous, current, width, height, block, threshold, y0) <= grid_blocks(
            width,
            height,
            block,
            y0,
        ),
    decreases height - y0,
{
    if y0 < height {
        let y1 = block_end(y0, block, height);
        lemma_row_changed_bounds(previous, current, width, block, threshold, y0, y1, 0);
        lemma_grid_changed_bounds(previous, current, width, height, block, threshold, y1);
    }
}

/// The three RGB channel sums of one block of `rgba`.
fn block_sums(
    rgba: &Vec<u8>,
    width: usize,
    height: usize,
    x0: usize,
    x1: usize,
    y0: usize,
    y1: usize,
) -> (r: (u128, u128, u128))
    requires
        rgba@.len() == width * height * 4,
        width * height * 4 <= usize::MAX,
        width <= u32::MAX,
        height <= u32::MAX,
        x0 < x1 <= width,
        y0 < y1 <= height,
    ensures
        r.0 == rect_channel_sum(rgba@, width as int, x0 as int, x1 as int, y0 as int, y1 as int, 0),
        r.1 == rect_channel_sum(rgba@, width as int, x0 as int, x1 as int, y0 as int, y1 as int, 1),
        r.2 == rect_channel_sum(rgba@, width as int, x0 as int, x1 as int, y0 as int, y1 as int, 2),
{
    let ghost w = width as int;
    let mut s0: u128 = 0;
    let mut s1: u128 = 0;
    let mut s2: u128 = 0;
    let mut y = y0;
    while y < y1
        invariant
            rgba@.len() == width * height * 4,
            width * height * 4 <= usize::MAX,
            width <= u32::MAX,
            height <= u32::MAX,
            x0 < x1 <= width,
            y0 <= y <= y1,
            y1 <= height,
            w == width as int,
            s0 == rect_channel_sum(rgba@, w, x0 as int, x1 as int, y0 as int, y as int, 0),
            s1 == rect_channel_sum(rgba@, w, x0 as int, x1 as int, y0 as int, y as int, 1),
            s2 == rect_channel_sum(rgba@, w, x0 as int, x1 as int, y0 as int, y as int, 2),
        decreases y1 - y,
    {
        proof {
            lemma_rect_sum_bounds(rgba@, w, x0 as int, x1 as int, y0 as int, y as int, 0);
            lemma_rect_sum_bounds(rgba@, w, x0 as int, x1 as int, y0 as int, y as int, 1);
            lemma_rect_sum_bounds(rgba@, w, x0 as int, x1 as int, y0 as int, y as int, 2);
        }
        let mut x = x0;
        while x < x1
            invariant
                rgba@.len() == width * height * 4,
                width * height * 4 <= usize::MAX,
                width <= u32::MAX,
                height <= u32::MAX,
                x0 <= x <= x1,
                x1 <= width,
                y0 <= y < y1,
                y1 <= height,
                w == width as int,
                s0 <= (y - y0) * row_sum_cap() + 255 * (x - x0),
                s1 <= (y - y0) * row_sum_cap() + 255 * (x - x0),
                s2 <= (y - y0) * row_sum_cap() + 255 * (x - x0),
                s0 == rect_channel_sum(rgba@, w, x0 as int, x1 as int, y0 as int, y as int, 0)
                    + row_channel_sum(rgba@, w, y as int, x0 as int, x as int, 0),
                s1 == rect_channel_sum(rgba@, w, x0 as int, x1 as int, y0 as int, y as int, 1)
                    + row_channel_sum(rgba@, w, y as int, x0 as int, x as int, 1),
                s2 == rect_channel_sum(rgba@, w, x0 as int, x1 as int, y0 as int, y as int, 2)
                    + row_channel_sum(rgba@, w, y as int, x0 as int, x as int, 2),
            decreases x1 - x,
        {
            proof {
                lemma_pixel_index(x as int, y as int, width as int, height as int);
            }
            let i = (y * width + x) * 4;
            s0 = s0 + rgba[i] as u128;
            s1 = s1 + rgba[i + 1] as u128;
            s2 = s2 + rgba[i + 2] as u128;
            x = x + 1;
        }
        y = y + 1;
    }
    (s0, s1, s2)
}

/// Whether the mean RGB change of one block exceeds `threshold`.
fn block_changed(
    previous: &Vec<u8>,
    current: &Vec<u8>,
    width: usize,
    height: usize,
    x0: usize,
    x1: usize,
    y0: usize,
    y1: usize,
    threshold: u8,
) -> (changed: bool)
    requires
        previous@.len() == width * height * 4,
        current@.len() == width * height * 4,
        width * height * 4 <= usize::MAX,
        width <= u32::MAX,
        height <= u32::MAX,
        x0 < x1 <= width,
        y0 < y1 <= height,
    ensures
        changed == (block_mean_delta(
            previous@,
            current@,
            width as int,
            x0 as int,
            x1 as int,
            y0 as int,
            y1 as int,
        ) > threshold as int),
{
    let (p0, p1, p2) = block_sums(previous, width, height, x0, x1, y0, y1);
    let (c0, c1, c2) = block_sums(current, width, height, x0, x1, y0, y1);
    proof {
        let (w, a, b, c, d) = (width as int, x0 as int, x1 as int, y0 as int, y1 as int);
        lemma_rect_sum_bounds(previous@, w, a, b, c, d, 0);
        lemma_rect_sum_bounds(previous@, w, a, b, c, d, 1);
        lemma_rect_sum_bounds(previous@, w, a, b, c, d, 2);
        lemma_rect_sum_bounds(current@, w, a, b, c, d, 0);
        lemma_rect_sum_bounds(current@, w, a, b, c, d, 1);
        lemma_rect_sum_bounds(current@, w, a, b, c, d, 2);
    }
    let bw = (x1 - x0) as u128;
    let bh = (y1 - y0) as u128;
    assert(0 < bw * bh <= 0x1_0000_0000 * 0x1_0000_0000) by (nonlinear_arith)
        requires
            0 < bw <= 0x1_0000_0000,
            0 < bh <= 0x1_0000_0000,
    ;
    let pixels = bw * bh;
    let d0 = if p0 >= c0 { p0 - c0 } else { c0 - p0 };
    let d1 = if p1 >= c1 { p1 - c1 } else { c1 - p1 };
    let d2 = if p2 >= c2 { p2 - c2 } else { c2 - p2 };
    assert(d0 / pixels <= d0 && d1 / pixels <= d1 && d2 / pixels <= d2) by (nonlinear_arith)
        requires
            pixels > 0,
    ;
    let mean = (d0 / pixels + d1 / pixels + d2 / pixels) / 3;
    mean > threshold as u128
}

/// Changed and total blocks of the band `y0..y1`.
fn band_counts(
    previous: &Vec<u8>,
    current: &Vec<u8>,
    width: usize,
    height: usize,
    block: usize,
    threshold: u8,
    y0: usize,
    y1: usize,
) -> (r: (u128, u128))
    requires
        previous@.len() == width * height * 4,
        current@.len() == width * height * 4,
        width * height * 4 <= usize::MAX,
        width <= u32::MAX,
        height <= u32::MAX,
        block > 0,
        y0 < y1 <= height,
    ensures
        r.0 == row_changed(
            previous@,
            current@,
            width as int,
            block as int,
            threshold as int,
            y0 as int,
            y1 as int,
            0,
        ),
        r.1 == row_blocks(width as int, block as int, 0),
{
    let ghost w = width as int;
    let ghost b = block as int;
    let ghost t = threshold as int;
    let mut changed: u128 = 0;
    let mut blocks: u128 = 0;
    let mut x0: usize = 0;
    proof {
        lemma_row_blocks_bounds(w, b, 0);
        lemma_row_changed_bounds(previous@, current@, w, b, t, y0 as int, y1 as int, 0);
    }
    while x0 < width
        invariant
            previous@.len() == width * height * 4,
            current@.len() == width * height * 4,
            width * height * 4 <= usize::MAX,
            width <= u32::MAX,
            height <= u32::MAX,
            block > 0,
            y0 < y1 <= height,
            x0 <= width,
            w == width as int,
            b == block as int,
            t == threshold as int,
            row_changed(previous@, current@, w, b, t, y0 as int, y1 as int, 0) <= row_blocks(w, b, 0),
            row_blocks(w, b, 0) <= w,
            changed + row_changed(previous@, current@, w, b, t, y0 as int, y1 as int, x0 as int)
                == row_changed(previous@, current@, w, b, t, y0 as int, y1 as int, 0),
            blocks + row_blocks(w, b, x0 as int) == row_blocks(w, b, 0),
        decreases width - x0,
    {
        let x1 = if block < width - x0 {
            x0 + block
        } else {
            width
        };
        proof {
            lemma_row_blocks_bounds(w, b, x1 as int);
            lemma_row_changed_bounds(previous@, current@, w, b, t, y0 as int, y1 as int, x1 as int);
        }
        if block_changed(previous, current, width, height, x0, x1, y0, y1, threshold) {
            changed = changed + 1;
        }
        blocks = blocks + 1;
        x0 = x1;
    }
    (changed, blocks)
}

/// Changed and total blocks of the whole frame.
fn grid_counts(
    previous: &Vec<u8>,
    current: &Vec<u8>,
    width: usize,
    height: usize,
    block: usize,
    threshold: u8,
) -> (r: (u128, u128))
    requires
        previous@.len() == width * height * 4,
        current@.len() == width * height * 4,
        width * height * 4 <= usize::MAX,
        width <= u32::MAX,
        height <= u32::MAX,
        block > 0,
    ensures
        r.0 == grid_changed(
            previous@,
            current@,
            width as int,
            height as int,
            block as int,
            threshold as int,
            0,
        ),
        r.1 == grid_blocks(width as int, height as int, block as int, 0),
{
    let ghost w = width as int;
    let ghost h = height as int;
    let ghost b = block as int;
    let ghost t = threshold as int;
    let mut changed: u128 = 0;
    let mut blocks: u128 = 0;
    let mut y0: usize = 0;
    proof {
        lemma_grid_blocks_bounds(w, h, b, 0);
        lemma_grid_changed_bounds(previous@, current@, w, h, b, t, 0);
    }
    while y0 < height
        invariant
            previous@.len() == width * height * 4,
            current@.len() == width * height * 4,
            width * height * 4 <= usize::MAX,
            width <= u32::MAX,
            height <= u32::MAX,
            block > 0,
            y0 <= height,
            w == width as int,
            h == height as int,
            b == block as int,
            t == threshold as int,
            grid_changed(previous@, current@, w, h, b, t, 0) <= grid_blocks(w, h, b, 0),
            grid_blocks(w, h, b, 0) <= 0x1_0000_0000 * 0x1_0000_0000,
            changed + grid_changed(previous@, current@, w, h, b, t, y0 as int) == grid_changed(
                previous@,
                current@,
                w,
                h,
                b,
                t,
                0,
            ),
            blocks + grid_blocks(w, h, b, y0 as int) == grid_blocks(w, h, b, 0),
        decreases height - y0,
    {
        let y1 = if block < height - y0 {
            y0 + block
        } else {
            height
        };
        proof {
            lemma_grid_blocks_bounds(w, h, b, y1 as int);
            lemma_grid_changed_bounds(previous@, current@, w, h, b, t, y1 as int);
            lemma_row_changed_bounds(previous@, current@, w, b, t, y0 as int, y1 as int, 0);
            lemma_row_blocks_bounds(w, b, 0);
        }
        let (band_changed, band_blocks) = band_counts(
            previous,
            current,
            width,
            height,
            block,
            threshold,
            y0,
            y1,
        );
        changed = changed + band_changed;
        blocks = blocks + band_blocks;
        y0 = y1;
    }
    (changed, blocks)
}

proof fn lemma_row_changed_identical(
    rgba: Seq<u8>,
    width: int,
    block: int,
    threshold: int,
    y0: int,
    y1: int,
    x0: int,
)
    requires
        threshold >= 0,
        y0 < y1,
    ensures
        row_changed(rgba, rgba, width, block, threshold, y0, y1, x0) == 0,
    decreases width - x0,
{
    if x0 < width && block > 0 {
        let x1 = block_end(x0, block, width);
        let pixels = (x1 - x0) * (y1 - y0);
        assert(pixels > 0) by (nonlinear_arith)
            requires
                x1 > x0,
                y1 > y0,
                pixels == (x1 - x0) * (y1 - y0),
        ;
        assert(0int / pixels == 0) by (nonlinear_arith)
            requires
                pixels > 0,
        ;
        lemma_row_changed_identical(rgba, width, block, threshold, y0, y1, block_end(x0, block, width));
    }
}

proof fn lemma_grid_changed_identical(
    rgba: Seq<u8>,
    width: int,
    height: int,
    block: int,
    threshold: int,
    y0: int,
)
    requires
        threshold >= 0,
    ensures
        grid_changed(rgba, rgba, width, height, block, threshold, y0) == 0,
    decreases height - y0,
{
    if y0 < height && block > 0 {
        let y1 = block_end(y0, block, height);
        lemma_row_changed_identical(rgba, width, block, threshold, y0, y1, 0);
        lemma_grid_changed_identical(rgba, width, height, block, threshold, y1);
    }
}

proof fn lemma_row_changed_symmetric(
    a: Seq<u8>,
    b: Seq<u8>,
    width: int,
    block: int,
    threshold: int,
    y0: int,
    y1: int,
    x0: int,
)
    ensures
        row_changed(a, b, width, block, threshold, y0, y1, x0) == row_changed(
            b,
            a,
            width,
            block,
            threshold,
            y0,
            y1,
            x0,
        ),
    decreases width - x0,
{
    if x0 < width && block > 0 {
        lemma_row_changed_symmetric(a, b, width, block, threshold, y0, y1, block_end(x0, block, width));
    }
}

proof fn lemma_grid_changed_symmetric(
    a: Seq<u8>,
    b: Seq<u8>,
    width: int,
    height: int,
    block: int,
    threshold: int,
    y0: int,
)
    ensures
        grid_changed(a, b, width, height, block, threshold, y0) == grid_changed(
            b,
            a,
            width,
            height,
            block,
            threshold,
            y0,
        ),
    decreases height - y0,
{
    if y0 < height && block > 0 {
        let y1 = block_end(y0, block, height);
        lemma_row_changed_symmetric(a, b, width, block, threshold, y0, y1, 0);
        lemma_grid_changed_symmetric(a, b, width, height, block, threshold, y1);
    }
}

/// A frame compared with itself shows no change: whenever the comparison succeeds,
/// the score is zero.
pub proof fn lemma_identical_frames_score_zero(block_size: u32, threshold: u8, frame: Frame)
    ensures
        block_difference(block_size, threshold, frame, frame) is Ok ==> block_difference(
            block_size,
            threshold,
            frame,
            frame,
        ) == Ok::<u32, MetricError>(0),
{
    if block_difference(block_size, threshold, frame, frame) is Ok {
        let (w, h, b) = (frame.width as int, frame.height as int, block_size as int);
        lemma_grid_changed_identical(frame.rgba@, w, h, b, threshold as int, 0);
        lemma_grid_blocks_bounds(w, h, b, 0);
        let total = grid_blocks(w, h, b, 0);
        assert(0int * 10_000 / total == 0) by (nonlinear_arith)
            requires
                total > 0,
        ;
    }
}

/// The comparison does not depend on which frame comes first: the same score, or the
/// same error, either way.
pub proof fn lemma_difference_is_symmetric(
    block_size: u32,
    threshold: u8,
    previous: Frame,
    current: Frame,
)
    ensures
        block_difference(block_size, threshold, previous, current) == block_difference(
            block_size,
            threshold,
            current,
            previous,
        ),
{
    lemma_grid_changed_symmetric(
        previous.rgba@,
        current.rgba@,
        previous.width as int,
        previous.height as int,
        block_size as int,
        threshold as int,
        0,
    );
}

/// A score never exceeds 10 000 basis points, the score of a frame in which every
/// block changed.
pub proof fn lemma_score_at_most_full_change(
    block_size: u32,
    threshold: u8,
    previous: Frame,
    current: Frame,
)
    ensures
        block_difference(block_size, threshold, previous, current) matches Ok(score) ==> score
            <= 10_000,
{
    let w = previous.width as int;
    let h = previous.height as int;
    if block_difference(block_size, threshold, previous, current) is Ok {
        let b = block_size as int;
        lemma_grid_blocks_bounds(w, h, b, 0);
        lemma_grid_changed_bounds(previous.rgba@, current.rgba@, w, h, b, threshold as int, 0);
        let changed = grid_changed(previous.rgba@, current.rgba@, w, h, b, threshold as int, 0);
        let total = grid_blocks(w, h, b, 0);
        assert(changed * 10_000 / total <= 10_000) by (nonlinear_arith)
            requires
                0 <= changed <= total,
                total > 0,
        ;
    }
}


/// Two frames of the same, non-empty size, each with a buffer of four bytes per pixel,
/// compared in blocks of a positive size.
pub open spec fn comparable(block_size: u32, previous: Frame, current: Frame) -> bool {
    let pixels = previous.width * previous.height;
    &&& previous.width == current.width
    &&& previous.height == current.height
    &&& block_size > 0
    &&& pixels > 0
    &&& pixels * 4 <= usize::MAX
    &&& previous.rgba@.len() == pixels * 4
    &&& current.rgba@.len() == pixels * 4
}

/// Channel `channel` of pixel number `pixel` of a row-major RGBA buffer.
pub open spec fn sample(rgba: Seq<u8>, pixel: int, channel: int) -> int {
    rgba[4 * pixel + channel] as int
}

/// `current` is `previous` with `delta` added to colour channel `c` of every pixel and
/// the other two colour channels unchanged (alpha is free).
pub open spec fn shifted_in_one_channel(
    previous: Seq<u8>,
    current: Seq<u8>,
    pixels: int,
    c: int,
    delta: int,
) -> bool {
    &&& 0 <= c < 3
    &&& forall|p: int|
        0 <= p < pixels ==> #[trigger] sample(current, p, c) == sample(previous, p, c) + delta
    &&& forall|p: int, k: int|
        0 <= p < pixels && 0 <= k < 3 && k != c ==> #[trigger] sample(current, p, k) == sample(
            previous,
            p,
            k,
        )
}

proof fn lemma_row_shift(
    previous: Seq<u8>,
    current: Seq<u8>,
    width: int,
    height: int,
    y: int,
    x0: int,
    x1: int,
    c: int,
    delta: int,
    k: int,
)
    requires
        shifted_in_one_channel(previous, current, width * height, c, delta),
        0 <= y < height,
        0 <= x0 <= x1 <= width,
        0 <= k < 3,
    ensures
        row_channel_sum(current, width, y, x0, x1, k) == row_channel_sum(
            previous,
            width,
            y,
            x0,
            x1,
            k,
        ) + (if k == c {
            delta * (x1 - x0)
        } else {
            0
        }),
    decreases x1 - x0,
{
    if x1 > x0 {
        lemma_row_shift(previous, current, width, height, y, x0, x1 - 1, c, delta, k);
        lemma_pixel_index(x1 - 1, y, width, height);
        let p = y * width + (x1 - 1);
        assert(sample(current, p, k) == channel_value(current, width, x1 - 1, y, k));
        assert(sample(previous, p, k) == channel_value(previous, width, x1 - 1, y, k));
        if k == c {
            assert(sample(current, p, c) == sample(previous, p, c) + delta);
            assert(delta * (x1 - 1 - x0) + delta == delta * (x1 - x0)) by (nonlinear_arith);
        } else {
            assert(sample(current, p, k) == sample(previous, p, k));
        }
    } else {
        assert(delta * (x1 - x0) == 0) by (nonlinear_arith)
            requires
                x1 == x0,
        ;
    }
}

proof fn lemma_rect_shift(
    previous: Seq<u8>,
    current: Seq<u8>,
    width: int,
    height: int,
    x0: int,
    x1: int,
    y0: int,
    y1: int,
    c: int,
    delta: int,
    k: int,
)
    requires
        shifted_in_one_channel(previous, current, width * height, c, delta),
        0 <= x0 <= x1 <= width,
        0 <= y0 <= y1 <= height,
        0 <= k < 3,
    ensures
        rect_channel_sum(current, width, x0, x1, y0, y1, k) == rect_channel_sum(
            previous,
            width,
            x0,
            x1,
            y0,
            y1,
            k,
        ) + (if k == c {
            delta * ((x1 - x0) * (y1 - y0))
        } else {
            0
        }),
    decreases y1 - y0,
{
    if y1 > y0 {
        lemma_rect_shift(previous, current, width, height, x0, x1, y0, y1 - 1, c, delta, k);
        lemma_row_shift(previous, current, width, height, y1 - 1, x0, x1, c, delta, k);
        assert(delta * ((x1 - x0) * (y1 - 1 - y0)) + delta * (x1 - x0) == delta * ((x1 - x0) * (
        y1 - y0))) by (nonlinear_arith);
    } else {
        assert(delta * ((x1 - x0) * (y1 - y0)) == 0) by (nonlinear_arith)
            requires
                y1 == y0,
        ;
    }
}

proof fn lemma_block_shift(
    previous: Seq<u8>,
    current: Seq<u8>,
    width: int,
    height: int,
    x0: int,
    x1: int,
    y0: int,
    y1: int,
    c: int,
    delta: int,
)
    requires
        shifted_in_one_channel(previous, current, width * height, c, delta),
        delta >= 0,
        0 <= x0 < x1 <= width,
        0 <= y0 < y1 <= height,
    ensures
        block_mean_delta(previous, current, width, x0, x1, y0, y1) == delta / 3,
{
    let pixels = (x1 - x0) * (y1 - y0);
    assert(pixels > 0) by (nonlinear_arith)
        requires
            x1 > x0,
            y1 > y0,
            pixels == (x1 - x0) * (y1 - y0),
    ;
    assert((delta * pixels) / pixels == delta) by (nonlinear_arith)
        requires
            pixels > 0,
    ;
    assert(0int / pixels == 0) by (nonlinear_arith)
        requires
            pixels > 0,
    ;
    assert(delta * pixels >= 0) by (nonlinear_arith)
        requires
            pixels > 0,
            delta >= 0,
    ;
    lemma_rect_shift(previous, current, width, height, x0, x1, y0, y1, c, delta, 0);
    lemma_rect_shift(previous, current, width, height, x0, x1, y0, y1, c, delta, 1);
    lemma_rect_shift(previous, current, width, height, x0, x1, y0, y1, c, delta, 2);
}

proof fn lemma_row_changed_shift(
    previous: Seq<u8>,
    current: Seq<u8>,
    width: int,
    height: int,
    block: int,
    threshold: int,
    y0: int,
    y1: int,
    x0: int,
    c: int,
    delta: int,
)
    requires
        shifted_in_one_channel(previous, current, width * height, c, delta),
        delta >= 0,
        block > 0,
        0 <= x0,
        0 <= y0 < y1 <= height,
    ensures
        row_changed(previous, current, width, block, threshold, y0, y1, x0) == (if delta / 3
            > threshold {
            row_blocks(width, block, x0)
        } else {
            0
        }),
    decreases width - x0,
{
    if x0 < width {
        let x1 = block_end(x0, block, width);
        lemma_block_shift(previous, current, width, height, x0, x1, y0, y1, c, delta);
        lemma_row_changed_shift(
            previous,
            current,
            width,
            height,
            block,
            threshold,
            y0,
            y1,
            x1,
            c,
            delta,
        );
    }
}

proof fn lemma_grid_changed_shift(
    previous: Seq<u8>,
    current: Seq<u8>,
    width: int,
    height: int,
    block: int,
    threshold: int,
    y0: int,
    c: int,
    delta: int,
)
    requires
        shifted_in_one_channel(previous, current, width * height, c, delta),
        delta >= 0,
        block > 0,
        0 <= y0,
    ensures
        grid_changed(previous, current, width, height, block, threshold, y0) == (if delta / 3
            > threshold {
            grid_blocks(width, height, block, y0)
        } else {
            0
        }),
    decreases height - y0,
{
    if y0 < height {
        let y1 = block_end(y0, block, height);
        lemma_row_changed_shift(
            previous,
            current,
            width,
            height,
            block,
            threshold,
            y0,
            y1,
            0,
            c,
            delta,
        );
        lemma_grid_changed_shift(previous, current, width, height, block, threshold, y1, c, delta);
    }
}

/// Frames that differ by the same amount `delta` in one colour channel (red, green
/// or blue) of every pixel, and agree on the other two colours, change by `delta / 3`
/// in every block: the score is 10 000 when that exceeds the threshold, else 0.
/// Every colour channel counts alike and alpha does not count: a block that turns
/// from black to pure blue (or red, or green) has changed at the default threshold,
/// and frames that differ only in alpha score 0.
pub proof fn lemma_one_channel_shift_score(
    block_size: u32,
    threshold: u8,
    previous: Frame,
    current: Frame,
    c: int,
    delta: int,
)
    requires
        shifted_in_one_channel(
            previous.rgba@,
            current.rgba@,
            previous.width * previous.height,
            c,
            delta,
        ),
        delta >= 0,
    ensures
        block_difference(block_size, threshold, previous, current) is Ok ==> block_difference(
            block_size,
            threshold,
            previous,
            current,
        ) == Ok::<u32, MetricError>(
            if delta / 3 > threshold {
                10_000
            } else {
                0
            },
        ),
        comparable(block_size, previous, current) ==> block_difference(
            block_size,
            threshold,
            previous,
            current,
        ) is Ok,
{
    if block_difference(block_size, threshold, previous, current) is Ok {
        let (w, h, b) = (previous.width as int, previous.height as int, block_size as int);
        lemma_grid_changed_shift(
            previous.rgba@,
            current.rgba@,
            w,
            h,
            b,
            threshold as int,
            0,
            c,
            delta,
        );
        lemma_grid_blocks_bounds(w, h, b, 0);
        let total = grid_blocks(w, h, b, 0);
        assert(total * 10_000 / total == 10_000) by (nonlinear_arith)
            requires
                total > 0,
        ;
        assert(0int * 10_000 / total == 0) by (nonlinear_arith)
            requires
                total > 0,
        ;
    }
}

/// A frame whose every pixel turns from 0 to 255 in one colour channel, the others
/// unchanged, has changed completely at any threshold below 85 and not at all from 85
/// on.
pub proof fn lemma_full_swing_in_one_colour(
    block_size: u32,
    threshold: u8,
    previous: Frame,
    current: Frame,
    c: int,
)
    requires
        0 <= c < 3,
        forall|p: int|
            0 <= p < previous.width * previous.height ==> #[trigger] sample(previous.rgba@, p, c)
                == 0 && sample(current.rgba@, p, c) == 255,
        forall|p: int, k: int|
            0 <= p < previous.width * previous.height && 0 <= k < 3 && k != c ==> #[trigger] sample(
                current.rgba@,
                p,
                k,
            ) == sample(previous.rgba@, p, k),
    ensures
        block_difference(block_size, threshold, previous, current) is Ok ==> block_difference(
            block_size,
            threshold,
            previous,
            current,
        ) == Ok::<u32, MetricError>(
            if threshold < 85 {
                10_000
            } else {
                0
            },
        ),
        comparable(block_size, previous, current) ==> block_difference(
            block_size,
            threshold,
            previous,
            current,
        ) is Ok,
{
    let n = previous.width * previous.height;
    assert forall|p: int| 0 <= p < n implies #[trigger] sample(current.rgba@, p, c) == sample(
        previous.rgba@,
        p,
        c,
    ) + 255 by {
        assert(sample(previous.rgba@, p, c) == 0);
    }
    lemma_one_channel_shift_score(block_size, threshold, previous, current, c, 255);
}

/// Colour channel `k` (0 red, 1 green, 2 blue) of a rearrangement that takes red from
/// channel `o0`, green from `o1` and blue from `o2`.
pub open spec fn colour_order(o0: int, o1: int, o2: int, k: int) -> int {
    if k == 0 {
        o0
    } else if k == 1 {
        o1
    } else {
        o2
    }
}

/// `o0`, `o1`, `o2` name red, green and blue, each once.
pub open spec fn is_colour_order(o0: int, o1: int, o2: int) -> bool {
    &&& 0 <= o0 < 3
    &&& 0 <= o1 < 3
    &&& 0 <= o2 < 3
    &&& o0 != o1
    &&& o1 != o2
    &&& o0 != o2
}

/// Every pixel of `rearranged` holds in colour channel `k` what the same pixel of
/// `original` holds in channel `colour_order(o0, o1, o2, k)` (alpha is free).
pub open spec fn colours_rearranged(
    original: Seq<u8>,
    rearranged: Seq<u8>,
    pixels: int,
    o0: int,
    o1: int,
    o2: int,
) -> bool {
    forall|p: int, k: int|
        0 <= p < pixels && 0 <= k < 3 ==> #[trigger] sample(rearranged, p, k) == sample(
            original,
            p,
            colour_order(o0, o1, o2, k),
        )
}

proof fn lemma_row_rearranged(
    original: Seq<u8>,
    rearranged: Seq<u8>,
    width: int,
    height: int,
    y: int,
    x0: int,
    x1: int,
    o0: int,
    o1: int,
    o2: int,
    k: int,
)
    requires
        colours_rearranged(original, rearranged, width * height, o0, o1, o2),
        0 <= y < height,
        0 <= x0 <= x1 <= width,
        0 <= k < 3,
    ensures
        row_channel_sum(rearranged, width, y, x0, x1, k) == row_channel_sum(
            original,
            width,
            y,
            x0,
            x1,
            colour_order(o0, o1, o2, k),
        ),
    decreases x1 - x0,
{
    if x1 > x0 {
        lemma_row_rearranged(original, rearranged, width, height, y, x0, x1 - 1, o0, o1, o2, k);
        lemma_pixel_index(x1 - 1, y, width, height);
        let p = y * width + (x1 - 1);
        let j = colour_order(o0, o1, o2, k);
        assert(sample(rearranged, p, k) == channel_value(rearranged, width, x1 - 1, y, k));
        assert(sample(original, p, j) == channel_value(original, width, x1 - 1, y, j));
    }
}

proof fn lemma_rect_rearranged(
    original: Seq<u8>,
    rearranged: Seq<u8>,
    width: int,
    height: int,
    x0: int,
    x1: int,
    y0: int,
    y1: int,
    o0: int,
    o1: int,
    o2: int,
    k: int,
)
    requires
        colours_rearranged(original, rearranged, width * height, o0, o1, o2),
        0 <= x0 <= x1 <= width,
        0 <= y0 <= y1 <= height,
        0 <= k < 3,
    ensures
        rect_channel_sum(rearranged, width, x0, x1, y0, y1, k) == rect_channel_sum(
            original,
            width,
            x0,
            x1,
            y0,
            y1,
            colour_order(o0, o1, o2, k),
        ),
    decreases y1 - y0,
{
    if y1 > y0 {
        lemma_rect_rearranged(original, rearranged, width, height, x0, x1, y0, y1 - 1, o0, o1, o2, k);
        lemma_row_rearranged(original, rearranged, width, height, y1 - 1, x0, x1, o0, o1, o2, k);
    }
}

proof fn lemma_block_rearranged(
    previous: Seq<u8>,
    current: Seq<u8>,
    previous2: Seq<u8>,
    current2: Seq<u8>,
    width: int,
    height: int,
    x0: int,
    x1: int,
    y0: int,
    y1: int,
    o0: int,
    o1: int,
    o2: int,
)
    requires
        is_colour_order(o0, o1, o2),
        colours_rearranged(previous, previous2, width * height, o0, o1, o2),
        colours_rearranged(current, current2, width * height, o0, o1, o2),
        0 <= x0 <= x1 <= width,
        0 <= y0 <= y1 <= height,
    ensures
        block_mean_delta(previous2, current2, width, x0, x1, y0, y1) == block_mean_delta(
            previous,
            current,
            width,
            x0,
            x1,
            y0,
            y1,
        ),
{
    lemma_rect_rearranged(previous, previous2, width, height, x0, x1, y0, y1, o0, o1, o2, 0);
    lemma_rect_rearranged(previous, previous2, width, height, x0, x1, y0, y1, o0, o1, o2, 1);
    lemma_rect_rearranged(previous, previous2, width, height, x0, x1, y0, y1, o0, o1, o2, 2);
    lemma_rect_rearranged(current, current2, width, height, x0, x1, y0, y1, o0, o1, o2, 0);
    lemma_rect_rearranged(current, current2, width, height, x0, x1, y0, y1, o0, o1, o2, 1);
    lemma_rect_rearranged(current, current2, width, height, x0, x1, y0, y1, o0, o1, o2, 2);
    let d = |k: int| channel_delta(previous, current, width, x0, x1, y0, y1, k);
    assert(channel_delta(previous2, current2, width, x0, x1, y0, y1, 0) == d(o0));
    assert(channel_delta(previous2, current2, width, x0, x1, y0, y1, 1) == d(o1));
    assert(channel_delta(previous2, current2, width, x0, x1, y0, y1, 2) == d(o2));
    assert(d(o0) + d(o1) + d(o2) == d(0) + d(1) + d(2));
}

proof fn lemma_row_changed_rearranged(
    previous: Seq<u8>,
    current: Seq<u8>,
    previous2: Seq<u8>,
    current2: Seq<u8>,
    width: int,
    height: int,
    block: int,
    threshold: int,
    y0: int,
    y1: int,
    x0: int,
    o0: int,
    o1: int,
    o2: int,
)
    requires
        is_colour_order(o0, o1, o2),
        colours_rearranged(previous, previous2, width * height, o0, o1, o2),
        colours_rearranged(current, current2, width * height, o0, o1, o2),
        block > 0,
        0 <= x0,
        0 <= y0 <= y1 <= height,
    ensures
        row_changed(previous2, current2, width, block, threshold, y0, y1, x0) == row_changed(
            previous,
            current,
            width,
            block,
            threshold,
            y0,
            y1,
            x0,
        ),
    decreases width - x0,
{
    if x0 < width {
        let x1 = block_end(x0, block, width);
        lemma_block_rearranged(
            previous,
            current,
            previous2,
            current2,
            width,
            height,
            x0,
            x1,
            y0,
            y1,
            o0,
            o1,
            o2,
        );
        lemma_row_changed_rearranged(
            previous,
            current,
            previous2,
            current2,
            width,
            height,
            block,
            threshold,
            y0,
            y1,
            x1,
            o0,
            o1,
            o2,
        );
    }
}

proof fn lemma_grid_changed_rearranged(
    previous: Seq<u8>,
    current: Seq<u8>,
    previous2: Seq<u8>,
    current2: Seq<u8>,
    width: int,
    height: int,
    block: int,
    threshold: int,
    y0: int,
    o0: int,
    o1: int,
    o2: int,
)
    requires
        is_colour_order(o0, o1, o2),
        colours_rearranged(previous, previous2, width * height, o0, o1, o2),
        colours_rearranged(current, current2, width * height, o0, o1, o2),
        block > 0,
        0 <= y0,
    ensures
        grid_changed(previous2, current2, width, height, block, threshold, y0) == grid_changed(
            previous,
            current,
            width,
            height,
            block,
            threshold,
            y0,
        ),
    decreases height - y0,
{
    if y0 < height {
        let y1 = block_end(y0, block, height);
        lemma_row_changed_rearranged(
            previous,
            current,
            previous2,
            current2,
            width,
            height,
            block,
            threshold,
            y0,
            y1,
            0,
            o0,
            o1,
            o2,
        );
        lemma_grid_changed_rearranged(
            previous,
            current,
            previous2,
            current2,
            width,
            height,
            block,
            threshold,
            y1,
            o0,
            o1,
            o2,
        );
    }
}

/// Red, green and blue count alike: rearranging the colour channels of both frames
/// in the same way (alpha may change too) leaves the comparison as it was, the same
/// score or the same error.
pub proof fn lemma_colour_order_does_not_matter(
    block_size: u32,
    threshold: u8,
    previous: Frame,
    current: Frame,
    previous2: Frame,
    current2: Frame,
    o0: int,
    o1: int,
    o2: int,
)
    requires
        is_colour_order(o0, o1, o2),
        previous2.width == previous.width,
        previous2.height == previous.height,
        current2.width == current.width,
        current2.height == current.height,
        previous2.rgba@.len() == previous.rgba@.len(),
        current2.rgba@.len() == current.rgba@.len(),
        colours_rearranged(
            previous.rgba@,
            previous2.rgba@,
            previous.width * previous.height,
            o0,
            o1,
            o2,
        ),
        colours_rearranged(current.rgba@, current2.rgba@, current.width * current.height, o0, o1, o2),
    ensures
        block_difference(block_size, threshold, previous2, current2) == block_difference(
            block_size,
            threshold,
            previous,
            current,
        ),
{
    if previous.width == current.width && previous.height == current.height && block_size > 0 {
        lemma_grid_changed_rearranged(
            previous.rgba@,
            current.rgba@,
            previous2.rgba@,
            current2.rgba@,
            previous.width as int,
            previous.height as int,
            block_size as int,
            threshold as int,
            0,
            o0,
            o1,
            o2,
        );
    }
}

impl FrameDifferenceMetric for BlockDifferenceMetric {
    open spec fn difference_spec(&self, previous: Frame, current: Frame) -> Result<u32, MetricError> {
        block_difference(self.block_size, self.mean_channel_delta_threshold, previous, current)
    }

    fn difference(&mut self, previous: &Frame, current: &Frame) -> (r: Result<u32, MetricError>)
        ensures
            *final(self) == *old(self),
    {
        if previous.width != current.width || previous.height != current.height {
            return Err(MetricError::DimensionsChanged);
        }
        if self.block_size == 0 {
            return Err(MetricError::ZeroBlockSize);
        }
        let width = previous.width as usize;
        let height = previous.height as usize;
        let expected_len = match width.checked_mul(height) {
            Some(pixels) => match pixels.checked_mul(4) {
                Some(len) => len,
                None => return Err(MetricError::DimensionsOverflow),
            },
            None => return Err(MetricError::DimensionsOverflow),
        };
        if previous.rgba.len() != expected_len || current.rgba.len() != expected_len {
            return Err(MetricError::InvalidBufferLength);
        }
        if width == 0 || height == 0 {
            return Err(MetricError::EmptyFrame);
        }
        let (changed, total) = grid_counts(
            &previous.rgba,
            &current.rgba,
            width,
            height,
            self.block_size as usize,
            self.mean_channel_delta_threshold,
        );
        proof {
            let (w, h, b) = (width as int, height as int, self.block_size as int);
            lemma_grid_blocks_bounds(w, h, b, 0);
            lemma_grid_changed_bounds(
                previous.rgba@,
                current.rgba@,
                w,
                h,
                b,
                self.mean_channel_delta_threshold as int,
                0,
            );
        }
        assert((changed as int) * 10_000 / (total as int) <= 10_000) by (nonlinear_arith)
            requires
                changed <= total,
                total > 0,
        ;
        Ok(((changed * 10_000) / total) as u32)
    }
}

} // verus!
