//! The renderer: its parameters, the colouring of one band of rows, and the
//! merge of band results into the image.
//!
//! Escape counts come from floating-point iteration and are handed in as
//! [`Sample`]s; everything from there to the bytes of the image is computed
//! here.

use crate::bands::{band_start, lemma_band_bounds, partition, Band};
use crate::palette::{map_color, spec_map_color, PaintMode, Tone};
use vstd::prelude::*;

verus! {

/// Why a render was refused.
#[derive(Clone, Copy, Debug, PartialEq, Eq, Structural)]
pub enum RenderError {
    /// The width, the height, the sample count or the iteration cap is zero.
    InvalidParameters,
}

/// What one pixel hands to its palette: the aggregated iteration count, and
/// the tone evaluated for that count.
#[derive(Clone, Copy, Debug, PartialEq, Eq, Structural)]
pub struct Sample {
    pub iterations: u32,
    pub tone: Tone,
}

/// The pixels of one band: four bytes per pixel, row by row from the band's
/// first row, together with the row of the image that the band starts at.
#[derive(Debug)]
pub struct BandResult {
    pub start_row: u32,
    pub pixels: Vec<u8>,
}

/// The integer parameters of a render.
#[derive(Clone, Copy, Debug, PartialEq, Eq, Structural)]
pub struct Mandelbrot {
    pub width: u32,
    pub height: u32,
    pub max_iterations: u32,
    pub samples: u32,
    pub paint_mode: PaintMode,
}

/// Number of points evaluated per pixel: one without supersampling, else a
/// square grid of `samples` by `samples`.
pub open spec fn sub_samples(samples: u32) -> int {
    if samples <= 1 {
        1
    } else {
        samples * samples
    }
}

/// Sum of a sequence of counts.
pub open spec fn total(counts: Seq<u32>) -> int
    decreases counts.len(),
{
    if counts.len() == 0 {
        0
    } else {
        total(counts.drop_last()) + counts.last()
    }
}

/// The bytes of a run of pixels: four per sample, in the order of the
/// samples, each sample coloured by the palette.
pub open spec fn paint(max_iterations: u32, paint_mode: PaintMode, samples: Seq<Sample>) -> Seq<
    u8,
> {
    Seq::new(
        4 * samples.len(),
        |k: int|
            spec_map_color(samples[k / 4].iterations, max_iterations, paint_mode, samples[k / 4].tone)[k
                % 4],
    )
}

/// `base` with `patch` written over it from position `offset` on.
pub open spec fn overlay(base: Seq<u8>, offset: int, patch: Seq<u8>) -> Seq<u8> {
    Seq::new(
        base.len(),
        |k: int|
            if offset <= k < offset + patch.len() {
                patch[k - offset]
            } else {
                base[k]
            },
    )
}

impl Band {
    /// Where pixel `(x, y)` of the image starts in the bytes of this band,
    /// for an image `width` pixels wide.
    pub open spec fn local_offset(self, width: int, x: int, y: int) -> int {
        ((y - self.start_row) * width + x) * 4
    }
}

impl Mandelbrot {
    /// Parameters are valid when none of them is zero.
    pub open spec fn valid(&self) -> bool {
        &&& self.width > 0
        &&& self.height > 0
        &&& self.samples >= 1
        &&& self.max_iterations >= 1
    }

    /// The image that a full set of samples, one per pixel and row by row,
    /// renders to.
    pub open spec fn image(&self, samples: Seq<Sample>) -> Seq<u8> {
        paint(self.max_iterations, self.paint_mode, samples)
    }

    /// The colour of one sample.
    pub open spec fn color_of(&self, sample: Sample) -> Seq<u8> {
        spec_map_color(sample.iterations, self.max_iterations, self.paint_mode, sample.tone)
    }

    /// A renderer with the given parameters. They are taken as they are:
    /// `validate` tells whether they can be rendered.
    pub fn new(
        width: u32,
        height: u32,
        max_iterations: u32,
        samples: u32,
        paint_mode: PaintMode,
    ) -> (renderer: Mandelbrot)
        ensures
            renderer == (Mandelbrot { width, height, max_iterations, samples, paint_mode }),
    {
        Mandelbrot { width, height, max_iterations, samples, paint_mode }
    }

    /// Sets the iteration cap and leaves the rest as it is.
    pub fn set_max_iterations(&mut self, max_iterations: u32)
        ensures
            *final(self) == (Mandelbrot { max_iterations, ..*old(self) }),
    {
        self.max_iterations = max_iterations;
    }

    /// Sets the sample count and leaves the rest as it is.
    pub fn set_samples(&mut self, samples: u32)
        ensures
            *final(self) == (Mandelbrot { samples, ..*old(self) }),
    {
        self.samples = samples;
    }

    /// Sets the palette and leaves the rest as it is.
    pub fn set_paint_mode(&mut self, paint_mode: PaintMode)
        ensures
            *final(self) == (Mandelbrot { paint_mode, ..*old(self) }),
    {
        self.paint_mode = paint_mode;
    }

    /// Sets the width and leaves the rest as it is.
    pub fn set_width(&mut self, width: u32)
        ensures
            *final(self) == (Mandelbrot { width, ..*old(self) }),
    {
        self.width = width;
    }

    /// Sets the height and leaves the rest as it is.
    pub fn set_height(&mut self, height: u32)
        ensures
            *final(self) == (Mandelbrot { height, ..*old(self) }),
    {
        self.height = height;
    }

    /// Accepts the parameters when none of them is zero. Nothing is clamped:
    /// a zero is an error.
    pub fn validate(&self) -> (outcome: Result<(), RenderError>)
        ensures
            self.valid() ==> outcome == Ok::<(), RenderError>(()),
            !self.valid() ==> outcome == Err::<(), RenderError>(RenderError::InvalidParameters),
    {
        if self.width == 0 || self.height == 0 || self.samples == 0 || self.max_iterations == 0 {
            Err(RenderError::InvalidParameters)
        } else {
            Ok(())
        }
    }

    /// The iteration value of one pixel from the escape counts of its
    /// sub-samples: their sum divided by their number, rounded down.
    ///
    /// Without supersampling (`samples` of one or less) there is one count,
    /// and it is the result; with it there are `samples * samples`.
    pub fn calculate_pixel(&self, counts: &Vec<u32>) -> (iterations: u32)
        requires
            counts.len() == sub_samples(self.samples),
        ensures
            iterations == total(counts@) / sub_samples(self.samples),
            self.samples <= 1 ==> iterations == counts[0],
    {
        assert(sub_samples(self.samples) >= 1) by (nonlinear_arith);
        let mut sum: u128 = 0;
        let mut taken: usize = 0;
        while taken < counts.len()
            invariant
                taken <= counts.len(),
                sum == total(counts@.subrange(0, taken as int)),
                sum <= taken * 0xffff_ffff,
            decreases counts.len() - taken,
        {
            proof {
                let longer = counts@.subrange(0, taken + 1);
                assert(longer.drop_last() =~= counts@.subrange(0, taken as int));
            }
            sum = sum + counts[taken] as u128;
            taken = taken + 1;
        }
        proof {
            assert(counts@.subrange(0, taken as int) =~= counts@);
            vstd::arithmetic::div_mod::lemma_multiply_divide_le(
                sum as int,
                counts.len() as int,
                0xffff_ffff,
            );
            if self.samples <= 1 {
                assert(total(counts@.drop_last()) == 0);
            }
        }
        (sum / (counts.len() as u128)) as u32
    }

    /// Colours one band.
    ///
    /// `samples` holds one sample per pixel of the band, row by row from the
    /// band's first row. The four bytes of pixel `(x, y)` land at offset
    /// `((y - start_row) * width + x) * 4` of the result, which belongs to
    /// this band alone and is exactly as long as the band needs.
    pub fn render_band(&self, band: Band, samples: &Vec<Sample>) -> (result: BandResult)
        requires
            band.start_row <= band.end_row,
            samples.len() == band.rows() * self.width,
            4 * samples.len() <= usize::MAX,
        ensures
            result.start_row == band.start_row,
            result.pixels.len() == band.rows() * self.width * 4,
            result.pixels@ == self.image(samples@),
            forall|x: int, y: int, c: int|
                band.start_row <= y < band.end_row && 0 <= x < self.width && 0 <= c < 4
                    ==> #[trigger] result.pixels@[band.local_offset(self.width as int, x, y) + c]
                    == self.color_of(samples[(y - band.start_row) * self.width + x])[c],
    {
        let width: usize = self.width as usize;
        let mut sub_data: Vec<u8> = vec![0u8; samples.len() * 4];
        let mut y: u32 = band.start_row;
        while y < band.end_row
            invariant
                band.start_row <= y <= band.end_row,
                samples.len() == band.rows() * self.width,
                4 * samples.len() <= usize::MAX,
                sub_data.len() == 4 * samples.len(),
                width == self.width,
                forall|j: int|
                    0 <= j < 4 * ((y - band.start_row) * width) ==> sub_data@[j] == self.image(
                        samples@,
                    )[j],
            decreases band.end_row - y,
        {
            let local_y: usize = (y - band.start_row) as usize;
            let mut x: u32 = 0;
            while x < self.width
                invariant
                    band.start_row <= y < band.end_row,
                    local_y == y - band.start_row,
                    x <= self.width,
                    samples.len() == band.rows() * self.width,
                    4 * samples.len() <= usize::MAX,
                    sub_data.len() == 4 * samples.len(),
                    width == self.width,
                    forall|j: int|
                        0 <= j < 4 * (local_y * width + x) ==> sub_data@[j] == self.image(
                            samples@,
                        )[j],
                decreases self.width - x,
            {
                proof {
                    lemma_cell_in_band(local_y as int, x as int, band.rows(), width as int);
                }
                let k: usize = local_y * width + x as usize;
                let sample: Sample = samples[k];
                let color: [u8; 4] = map_color(
                    sample.iterations,
                    self.max_iterations,
                    self.paint_mode,
                    sample.tone,
                );
                let index: usize = k * 4;
                sub_data[index] = color[0];
                sub_data[index + 1] = color[1];
                sub_data[index + 2] = color[2];
                sub_data[index + 3] = color[3];
                x = x + 1;
            }
            proof {
                lemma_cell_in_band(local_y as int, 0, band.rows(), width as int);
            }
            y = y + 1;
        }
        assert(sub_data@ =~= self.image(samples@));
        assert forall|x: int, y: int, c: int|
            band.start_row <= y < band.end_row && 0 <= x < self.width && 0 <= c < 4 implies #[trigger] sub_data@[band.local_offset(
            self.width as int,
            x,
            y,
        ) + c] == self.color_of(samples[(y - band.start_row) * self.width + x])[c] by {
            lemma_cell_in_band(y - band.start_row, x, band.rows(), self.width as int);
        }
        BandResult { start_row: band.start_row, pixels: sub_data }
    }

    /// Renders the image: splits it into `chunks` bands, colours each band
    /// on its own and merges the results.
    ///
    /// `samples` holds one sample per pixel, row by row from the top. Invalid
    /// parameters are refused before anything is computed. The image does not
    /// depend on `chunks`.
    pub fn render_parallel(&self, chunks: usize, samples: &Vec<Sample>) -> (outcome: Result<
        Vec<u8>,
        RenderError,
    >)
        requires
            chunks >= 1,
            self.valid() ==> samples.len() == self.width * self.height && 4 * samples.len()
                <= usize::MAX,
        ensures
            self.valid() ==> match outcome {
                Ok(pixels) => pixels@ == self.image(samples@) && pixels.len() == self.width
                    * self.height * 4,
                Err(_) => false,
            },
            !self.valid() ==> outcome == Err::<Vec<u8>, RenderError>(
                RenderError::InvalidParameters,
            ),
    {
        if self.validate().is_err() {
            return Err(RenderError::InvalidParameters);
        }
        let bands: Vec<Band> = partition(self.height, chunks);
        let width: usize = self.width as usize;
        let mut final_data: Vec<u8> = vec![0u8; samples.len() * 4];
        let mut chunk: usize = 0;
        let ghost mut filled: int = 0;
        proof {
            lemma_band_bounds(self.height as int, chunks as int, 0);
            lemma_rows_in_image(0, 0, self.height as int, width as int);
        }
        while chunk < chunks
            invariant
                chunks >= 1,
                chunk <= chunks,
                bands.len() == chunks,
                forall|i: int|
                    0 <= i < chunks ==> (#[trigger] bands[i]).is_band(
                        self.height as int,
                        chunks as int,
                        i,
                    ),
                samples.len() == self.width * self.height,
                4 * samples.len() <= usize::MAX,
                final_data.len() == 4 * samples.len(),
                width == self.width,
                filled == 4 * (rows_merged(self.height as int, chunks as int, chunk as int)
                    * width),
                0 <= filled <= final_data.len(),
                forall|j: int| 0 <= j < filled ==> final_data@[j] == self.image(samples@)[j],
            decreases chunks - chunk,
        {
            let band: Band = bands[chunk];
            proof {
                lemma_band_bounds(self.height as int, chunks as int, chunk as int);
                assert(band.is_band(self.height as int, chunks as int, chunk as int));
                assert(band.end_row == rows_merged(
                    self.height as int,
                    chunks as int,
                    chunk + 1,
                ));
                lemma_rows_in_image(
                    band.start_row as int,
                    band.end_row as int,
                    self.height as int,
                    width as int,
                );
            }
            let from: usize = band.start_row as usize * width;
            let to: usize = band.end_row as usize * width;
            let band_samples: Vec<Sample> = slice_of(samples, from, to);
            let result: BandResult = self.render_band(band, &band_samples);
            let ghost before = final_data@;
            merge_band(&mut final_data, self.width, &result);
            proof {
                lemma_paint_subrange(
                    self.max_iterations,
                    self.paint_mode,
                    samples@,
                    from as int,
                    to as int,
                );
                lemma_merge_step(
                    self.image(samples@),
                    before,
                    final_data@,
                    4 * from,
                    4 * to,
                    result.pixels@,
                );
                filled = 4 * to;
            }
            chunk = chunk + 1;
        }
        proof {
            lemma_rows_in_image(0, self.height as int, self.height as int, width as int);
        }
        assert(final_data@ =~= self.image(samples@));
        Ok(final_data)
    }
}

/// Rows of the image that are in place once the first `merged` bands have
/// been merged from the top down.
spec fn rows_merged(height: int, chunk_count: int, merged: int) -> int {
    if merged >= chunk_count {
        height
    } else {
        band_start(height, chunk_count, merged)
    }
}

/// Writes the pixels of one band into the image at the band's place: from
/// byte `start_row * width * 4` on. Nothing else in the image changes.
pub fn merge_band(final_data: &mut Vec<u8>, width: u32, band: &BandResult)
    requires
        band.start_row * width * 4 + band.pixels.len() <= old(final_data).len(),
    ensures
        final(final_data)@ == overlay(
            old(final_data)@,
            band.start_row * width * 4,
            band.pixels@,
        ),
{
    let ghost before = final_data@;
    assert(0 <= band.start_row * width) by (nonlinear_arith);
    let start_index: usize = band.start_row as usize * width as usize * 4;
    let mut k: usize = 0;
    while k < band.pixels.len()
        invariant
            k <= band.pixels.len(),
            final_data.len() == before.len(),
            start_index + band.pixels.len() <= final_data.len(),
            final_data@ == overlay(before, start_index as int, band.pixels@.subrange(0, k as int)),
        decreases band.pixels.len() - k,
    {
        final_data[start_index + k] = band.pixels[k];
        k = k + 1;
        assert(final_data@ =~= overlay(
            before,
            start_index as int,
            band.pixels@.subrange(0, k as int),
        ));
    }
    assert(band.pixels@.subrange(0, k as int) =~= band.pixels@);
}

/// A copy of `samples[from..to]`.
fn slice_of(samples: &Vec<Sample>, from: usize, to: usize) -> (part: Vec<Sample>)
    requires
        from <= to <= samples.len(),
    ensures
        part@ == samples@.subrange(from as int, to as int),
{
    let mut part: Vec<Sample> = Vec::new();
    let mut k: usize = from;
    while k < to
        invariant
            from <= k <= to <= samples.len(),
            part@ == samples@.subrange(from as int, k as int),
        decreases to - k,
    {
        part.push(samples[k]);
        k = k + 1;
        assert(part@ =~= samples@.subrange(from as int, k as int));
    }
    part
}

/// A sum of counts that all lie between `low` and `high` lies between that
/// many times `low` and that many times `high`.
pub proof fn lemma_total_within(counts: Seq<u32>, low: int, high: int)
    requires
        forall|i: int| 0 <= i < counts.len() ==> low <= #[trigger] counts[i] <= high,
    ensures
        counts.len() * low <= total(counts) <= counts.len() * high,
    decreases counts.len(),
{
    if counts.len() > 0 {
        lemma_total_within(counts.drop_last(), low, high);
        let shorter: int = counts.len() - 1;
        assert(counts.len() * low == shorter * low + low && counts.len() * high == shorter * high
            + high) by (nonlinear_arith)
            requires
                shorter == counts.len() - 1,
        ;
    }
}

/// The mean of counts that all lie between `low` and `high` lies there too.
/// So a pixel whose sub-samples all stay below the iteration cap stays below
/// it, and one whose sub-samples all reach the cap reaches it.
pub proof fn lemma_mean_within(counts: Seq<u32>, low: int, high: int)
    requires
        counts.len() > 0,
        0 <= low,
        forall|i: int| 0 <= i < counts.len() ==> low <= #[trigger] counts[i] <= high,
    ensures
        low <= total(counts) / (counts.len() as int) <= high,
{
    let len: int = counts.len() as int;
    lemma_total_within(counts, low, high);
    vstd::arithmetic::div_mod::lemma_multiply_divide_le(total(counts), len, high);
    vstd::arithmetic::div_mod::lemma_div_is_ordered(len * low, total(counts), len);
    vstd::arithmetic::div_mod::lemma_div_multiples_vanish(low, len);
}

/// Painting a run of consecutive samples gives the matching run of the bytes
/// of the whole.
pub proof fn lemma_paint_subrange(
    max_iterations: u32,
    paint_mode: PaintMode,
    samples: Seq<Sample>,
    from: int,
    to: int,
)
    requires
        0 <= from <= to <= samples.len(),
    ensures
        paint(max_iterations, paint_mode, samples.subrange(from, to)) == paint(
            max_iterations,
            paint_mode,
            samples,
        ).subrange(4 * from, 4 * to),
{
    assert(paint(max_iterations, paint_mode, samples.subrange(from, to)) =~= paint(
        max_iterations,
        paint_mode,
        samples,
    ).subrange(4 * from, 4 * to));
}

/// Merging the next stretch of the image onto a buffer whose bytes before
/// that stretch are in place leaves the bytes through its end in place.
proof fn lemma_merge_step(
    image: Seq<u8>,
    before: Seq<u8>,
    after: Seq<u8>,
    lo: int,
    hi: int,
    patch: Seq<u8>,
)
    requires
        0 <= lo <= hi <= image.len(),
        before.len() == image.len(),
        forall|j: int| 0 <= j < lo ==> before[j] == image[j],
        patch == image.subrange(lo, hi),
        after == overlay(before, lo, patch),
    ensures
        after.len() == image.len(),
        forall|j: int| 0 <= j < hi ==> after[j] == image[j],
{
}

/// Pixel `x` of row `row` of a band lies inside the band, and a row further
/// down starts `width` samples later.
proof fn lemma_cell_in_band(row: int, x: int, rows: int, width: int)
    by (nonlinear_arith)
    requires
        0 <= row < rows,
        0 <= x <= width,
    ensures
        0 <= row * width,
        x < width ==> row * width + x < rows * width,
        (row + 1) * width == row * width + width,
        (row + 1) * width <= rows * width,
{
}

/// Rows `start..end` of an image lie inside its samples.
proof fn lemma_rows_in_image(start: int, end: int, height: int, width: int)
    by (nonlinear_arith)
    requires
        0 <= start <= end <= height,
        0 <= width,
    ensures
        0 <= start * width <= end * width <= height * width,
        height * width == width * height,
        (end - start) * width == end * width - start * width,
{
}

} // verus!
