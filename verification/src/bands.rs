//! Horizontal bands: the units of work an image is split into.

use vstd::prelude::*;

verus! {

/// A run of consecutive image rows, `start_row` included and `end_row` not.
#[derive(Clone, Copy, Debug, PartialEq, Eq, Structural)]
pub struct Band {
    pub start_row: u32,
    pub end_row: u32,
}

/// Rows per band: the height shared out evenly, and never less than one row.
pub open spec fn chunk_rows(height: int, chunk_count: int) -> int {
    if height / chunk_count >= 1 {
        height / chunk_count
    } else {
        1
    }
}

/// The smaller of a row number and the image height.
pub open spec fn clip(row: int, height: int) -> int {
    if row <= height {
        row
    } else {
        height
    }
}

/// First row of band `index`: `index` even shares down from the top, and
/// never past the bottom of the image.
pub open spec fn band_start(height: int, chunk_count: int, index: int) -> int {
    clip(index * chunk_rows(height, chunk_count), height)
}

/// Row after the last row of band `index`. The last band runs to the bottom
/// of the image and so takes up whatever the even share leaves over.
pub open spec fn band_end(height: int, chunk_count: int, index: int) -> int {
    if index == chunk_count - 1 {
        height
    } else {
        clip((index + 1) * chunk_rows(height, chunk_count), height)
    }
}

impl Band {
    /// Number of rows in the band.
    pub open spec fn rows(self) -> int {
        self.end_row - self.start_row
    }

    /// The band is band `index` of an image of `height` rows split into
    /// `chunk_count` bands.
    pub open spec fn is_band(self, height: int, chunk_count: int, index: int) -> bool {
        &&& self.start_row == band_start(height, chunk_count, index)
        &&& self.end_row == band_end(height, chunk_count, index)
    }
}

/// The band that holds `row`: bands are `chunk_rows` tall, and the last one
/// also holds every row below it.
pub open spec fn band_index_of(height: int, chunk_count: int, row: int) -> int {
    let by_size: int = row / chunk_rows(height, chunk_count);
    if by_size < chunk_count - 1 {
        by_size
    } else {
        chunk_count - 1
    }
}

/// Rows per band for an image of `height` rows split into `chunk_count` bands.
pub fn rows_per_band(height: u32, chunk_count: usize) -> (rows: u32)
    requires
        chunk_count >= 1,
    ensures
        rows == chunk_rows(height as int, chunk_count as int),
        rows >= 1,
{
    let share: u64 = (height as u64) / (chunk_count as u64);
    proof {
        vstd::arithmetic::div_mod::lemma_div_nonincreasing(height as int, chunk_count as int);
        vstd::arithmetic::div_mod::lemma_div_pos_is_pos(height as int, chunk_count as int);
    }
    if share >= 1 {
        share as u32
    } else {
        1
    }
}

/// Band `index` of an image of `height` rows split into `chunk_count` bands.
///
/// Every band but the last is `rows_per_band` tall; the last runs to the
/// bottom of the image. Where there are more bands than rows, the bands past
/// the bottom are empty and sit at row `height`.
pub fn band_at(height: u32, chunk_count: usize, index: usize) -> (band: Band)
    requires
        chunk_count >= 1,
        index < chunk_count,
    ensures
        band.is_band(height as int, chunk_count as int, index as int),
        band.start_row <= band.end_row <= height,
{
    let rows: u32 = rows_per_band(height, chunk_count);
    let start_row: u32 = clipped_row(height, rows, index);
    let end_row: u32 = if index == chunk_count - 1 {
        height
    } else {
        clipped_row(height, rows, index + 1)
    };
    proof {
        lemma_band_bounds(height as int, chunk_count as int, index as int);
    }
    Band { start_row, end_row }
}

/// `steps * rows`, or `height` where that lies past the bottom of the image.
fn clipped_row(height: u32, rows: u32, steps: usize) -> (row: u32)
    requires
        rows >= 1,
    ensures
        row == clip(steps * rows, height as int),
{
    if steps >= height as usize {
        assert(steps * rows >= height) by (nonlinear_arith)
            requires
                steps >= height,
                rows >= 1,
        ;
        height
    } else {
        assert(steps * rows <= 0xffff_ffff * 0xffff_ffff) by (nonlinear_arith)
            requires
                0 <= steps <= 0xffff_ffff,
                0 <= rows <= 0xffff_ffff,
        ;
        let reach: u64 = (steps as u64) * (rows as u64);
        if reach <= height as u64 {
            reach as u32
        } else {
            height
        }
    }
}

/// All bands of an image of `height` rows split into `chunk_count` bands,
/// from the top of the image down. Together they hold every row of the image
/// exactly once: the first starts at row 0, each next one starts where the
/// one before it ends, and the last ends at row `height`.
pub fn partition(height: u32, chunk_count: usize) -> (bands: Vec<Band>)
    requires
        chunk_count >= 1,
    ensures
        bands.len() == chunk_count,
        forall|i: int|
            0 <= i < chunk_count ==> (#[trigger] bands[i]).is_band(
                height as int,
                chunk_count as int,
                i,
            ),
        bands[0].start_row == 0,
        bands[chunk_count - 1].end_row == height,
        forall|i: int|
            0 <= i < chunk_count ==> (#[trigger] bands[i]).start_row <= bands[i].end_row
                <= height,
        forall|i: int, j: int|
            0 <= i && j == i + 1 && j < chunk_count ==> (#[trigger] bands[i]).end_row
                == (#[trigger] bands[j]).start_row,
{
    let mut bands: Vec<Band> = Vec::new();
    let mut index: usize = 0;
    while index < chunk_count
        invariant
            chunk_count >= 1,
            index <= chunk_count,
            bands.len() == index,
            forall|i: int|
                0 <= i < index ==> (#[trigger] bands[i]).is_band(
                    height as int,
                    chunk_count as int,
                    i,
                ),
        decreases chunk_count - index,
    {
        bands.push(band_at(height, chunk_count, index));
        index = index + 1;
    }
    proof {
        lemma_band_bounds(height as int, chunk_count as int, 0);
        lemma_band_bounds(height as int, chunk_count as int, chunk_count - 1);
        assert forall|i: int| 0 <= i < chunk_count implies (#[trigger] bands[i]).start_row
            <= bands[i].end_row <= height by {
            lemma_band_bounds(height as int, chunk_count as int, i);
        }
        assert forall|i: int, j: int|
            0 <= i && j == i + 1 && j < chunk_count implies (#[trigger] bands[i]).end_row == (
        #[trigger] bands[j]).start_row by {
            lemma_band_bounds(height as int, chunk_count as int, i);
        }
    }
    bands
}

/// Band `index` lies inside the image and starts where the band before it
/// ends: the first at row 0, each later one at the end of its predecessor,
/// and the last ends at row `height`.
pub proof fn lemma_band_bounds(height: int, chunk_count: int, index: int)
    requires
        height >= 0,
        0 <= index < chunk_count,
    ensures
        0 <= band_start(height, chunk_count, index) <= band_end(height, chunk_count, index)
            <= height,
        index == 0 ==> band_start(height, chunk_count, index) == 0,
        index + 1 < chunk_count ==> band_end(height, chunk_count, index) == band_start(
            height,
            chunk_count,
            index + 1,
        ),
        index + 1 == chunk_count ==> band_end(height, chunk_count, index) == height,
{
    lemma_steps_grow(index, chunk_rows(height, chunk_count));
}

/// Band `index` holds `row`.
pub open spec fn row_in_band(height: int, chunk_count: int, index: int, row: int) -> bool {
    band_start(height, chunk_count, index) <= row < band_end(height, chunk_count, index)
}

/// A row of the image lies in the band that `band_index_of` names, and in no
/// other.
pub proof fn lemma_row_in_one_band(height: int, chunk_count: int, row: int, index: int)
    requires
        chunk_count >= 1,
        0 <= row < height,
        0 <= index < chunk_count,
    ensures
        0 <= band_index_of(height, chunk_count, row) < chunk_count,
        row_in_band(height, chunk_count, index, row) <==> index == band_index_of(
            height,
            chunk_count,
            row,
        ),
{
    let rows: int = chunk_rows(height, chunk_count);
    let by_size: int = row / rows;
    lemma_row_between_steps(row, rows);
    lemma_steps_grow(index, rows);
    if index < by_size {
        lemma_steps_ordered(index + 1, by_size, rows);
    } else if index > by_size {
        lemma_steps_ordered(by_size + 1, index, rows);
    }
}

/// The bands tile the image: the first starts at row 0, each starts where
/// the one before it ends, the last ends at row `height`, none reaches past
/// the image, and every row of the image lies in exactly one band.
pub proof fn lemma_bands_tile(height: int, chunk_count: int)
    requires
        height >= 0,
        chunk_count >= 1,
    ensures
        band_start(height, chunk_count, 0) == 0,
        band_end(height, chunk_count, chunk_count - 1) == height,
        forall|i: int|
            0 <= i < chunk_count ==> 0 <= #[trigger] band_start(height, chunk_count, i)
                <= band_end(height, chunk_count, i) <= height,
        forall|i: int, j: int|
            0 <= i && j == i + 1 && j < chunk_count ==> #[trigger] band_end(
                height,
                chunk_count,
                i,
            ) == #[trigger] band_start(height, chunk_count, j),
        forall|row: int|
            0 <= row < height ==> 0 <= #[trigger] band_index_of(height, chunk_count, row)
                < chunk_count && row_in_band(
                height,
                chunk_count,
                band_index_of(height, chunk_count, row),
                row,
            ),
        forall|row: int, i: int|
            0 <= row < height && 0 <= i < chunk_count && #[trigger] row_in_band(
                height,
                chunk_count,
                i,
                row,
            ) ==> i == band_index_of(height, chunk_count, row),
{
    lemma_band_bounds(height, chunk_count, 0);
    lemma_band_bounds(height, chunk_count, chunk_count - 1);
    assert forall|i: int| 0 <= i < chunk_count implies 0 <= #[trigger] band_start(
        height,
        chunk_count,
        i,
    ) <= band_end(height, chunk_count, i) <= height by {
        lemma_band_bounds(height, chunk_count, i);
    }
    assert forall|i: int, j: int| 0 <= i && j == i + 1 && j < chunk_count implies #[trigger] band_end(
        height,
        chunk_count,
        i,
    ) == #[trigger] band_start(height, chunk_count, j) by {
        lemma_band_bounds(height, chunk_count, i);
    }
    assert forall|row: int| 0 <= row < height implies 0 <= #[trigger] band_index_of(
        height,
        chunk_count,
        row,
    ) < chunk_count && row_in_band(
        height,
        chunk_count,
        band_index_of(height, chunk_count, row),
        row,
    ) by {
        lemma_row_in_one_band(height, chunk_count, row, 0);
        lemma_row_in_one_band(
            height,
            chunk_count,
            row,
            band_index_of(height, chunk_count, row),
        );
    }
    assert forall|row: int, i: int|
        0 <= row < height && 0 <= i < chunk_count && #[trigger] row_in_band(
            height,
            chunk_count,
            i,
            row,
        ) implies i == band_index_of(height, chunk_count, row) by {
        lemma_row_in_one_band(height, chunk_count, row, i);
    }
}

/// Going one band further down moves the boundary by `rows`.
proof fn lemma_steps_grow(steps: int, rows: int)
    by (nonlinear_arith)
    requires
        steps >= 0,
        rows >= 1,
    ensures
        0 <= steps * rows,
        (steps + 1) * rows == steps * rows + rows,
{
}

/// Boundaries come in the order of their bands.
proof fn lemma_steps_ordered(low: int, high: int, rows: int)
    by (nonlinear_arith)
    requires
        low <= high,
        rows >= 1,
    ensures
        low * rows <= high * rows,
{
}

/// A row lies between the boundary at `row / rows` and the next one.
proof fn lemma_row_between_steps(row: int, rows: int)
    requires
        row >= 0,
        rows >= 1,
    ensures
        0 <= row / rows,
        (row / rows) * rows <= row < (row / rows + 1) * rows,
{
    vstd::arithmetic::div_mod::lemma_fundamental_div_mod(row, rows);
    vstd::arithmetic::div_mod::lemma_mod_bound(row, rows);
    vstd::arithmetic::div_mod::lemma_div_pos_is_pos(row, rows);
    vstd::arithmetic::mul::lemma_mul_is_commutative(rows, row / rows);
    lemma_steps_grow(row / rows, rows);
}

} // verus!
