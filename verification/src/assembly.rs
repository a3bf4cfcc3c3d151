//! How band results assemble into the image.
//!
//! Bands may be rendered in any number and their results may arrive in any
//! order, even more than once: each is written to its own place, and once
//! every band has arrived the buffer is the image.

use crate::bands::{
    band_end, band_index_of, band_start, lemma_band_bounds, lemma_row_in_one_band, row_in_band,
};
use crate::renderer::{lemma_paint_subrange, overlay, paint, Mandelbrot, Sample};
use vstd::prelude::*;

verus! {

/// A buffer of `len` zero bytes: what the merge starts from.
pub open spec fn blank(len: nat) -> Seq<u8> {
    Seq::new(len, |k: int| 0u8)
}

impl Mandelbrot {
    /// Where the bytes of band `index` start in the image.
    pub open spec fn band_offset(&self, chunk_count: int, index: int) -> int {
        band_start(self.height as int, chunk_count, index) * self.width * 4
    }

    /// The samples of band `index` out of those of the whole image.
    pub open spec fn band_samples(
        &self,
        samples: Seq<Sample>,
        chunk_count: int,
        index: int,
    ) -> Seq<Sample> {
        samples.subrange(
            band_start(self.height as int, chunk_count, index) * self.width,
            band_end(self.height as int, chunk_count, index) * self.width,
        )
    }

    /// What band `index` renders to.
    pub open spec fn band_pixels(
        &self,
        samples: Seq<Sample>,
        chunk_count: int,
        index: int,
    ) -> Seq<u8> {
        paint(
            self.max_iterations,
            self.paint_mode,
            self.band_samples(samples, chunk_count, index),
        )
    }

    /// The buffer once the results of the bands listed in `arrivals` have
    /// been merged, in that order, into a blank buffer.
    pub open spec fn merged(
        &self,
        samples: Seq<Sample>,
        chunk_count: int,
        arrivals: Seq<int>,
    ) -> Seq<u8>
        decreases arrivals.len(),
    {
        if arrivals.len() == 0 {
            blank(4 * samples.len())
        } else {
            overlay(
                self.merged(samples, chunk_count, arrivals.drop_last()),
                self.band_offset(chunk_count, arrivals.last()),
                self.band_pixels(samples, chunk_count, arrivals.last()),
            )
        }
    }

    /// Byte `k` of the image belongs to band `index`.
    pub open spec fn byte_in_band(&self, chunk_count: int, index: int, k: int) -> bool {
        band_start(self.height as int, chunk_count, index) * self.width * 4 <= k < band_end(
            self.height as int,
            chunk_count,
            index,
        ) * self.width * 4
    }

    /// Byte `k` belongs to a band that is listed in `arrivals`.
    pub open spec fn arrived(&self, chunk_count: int, arrivals: Seq<int>, k: int) -> bool {
        exists|j: int|
            0 <= j < arrivals.len() && self.byte_in_band(chunk_count, #[trigger] arrivals[j], k)
    }

    /// The result of a band is the band's stretch of the image.
    pub proof fn lemma_band_pixels_in_image(
        &self,
        samples: Seq<Sample>,
        chunk_count: int,
        index: int,
    )
        requires
            samples.len() == self.width * self.height,
            0 <= index < chunk_count,
        ensures
            0 <= self.band_offset(chunk_count, index),
            self.band_offset(chunk_count, index) + self.band_pixels(
                samples,
                chunk_count,
                index,
            ).len() == band_end(self.height as int, chunk_count, index) * self.width * 4,
            band_end(self.height as int, chunk_count, index) * self.width * 4 <= 4
                * samples.len(),
            self.band_pixels(samples, chunk_count, index) == self.image(samples).subrange(
                self.band_offset(chunk_count, index),
                band_end(self.height as int, chunk_count, index) * self.width * 4,
            ),
    {
        let start: int = band_start(self.height as int, chunk_count, index);
        let end: int = band_end(self.height as int, chunk_count, index);
        lemma_band_bounds(self.height as int, chunk_count, index);
        lemma_rows_scale(start, end, self.height as int, self.width as int);
        lemma_paint_subrange(
            self.max_iterations,
            self.paint_mode,
            samples,
            start * self.width,
            end * self.width,
        );
    }

    /// After any run of arrivals the buffer holds the image wherever a band
    /// has arrived, and zero everywhere else.
    pub proof fn lemma_merged_content(
        &self,
        samples: Seq<Sample>,
        chunk_count: int,
        arrivals: Seq<int>,
    )
        requires
            samples.len() == self.width * self.height,
            forall|j: int| 0 <= j < arrivals.len() ==> 0 <= #[trigger] arrivals[j] < chunk_count,
        ensures
            self.merged(samples, chunk_count, arrivals).len() == 4 * samples.len(),
            forall|k: int|
                0 <= k < 4 * samples.len() ==> #[trigger] self.merged(
                    samples,
                    chunk_count,
                    arrivals,
                )[k] == if self.arrived(chunk_count, arrivals, k) {
                    self.image(samples)[k]
                } else {
                    0u8
                },
        decreases arrivals.len(),
    {
        if arrivals.len() > 0 {
            let earlier = arrivals.drop_last();
            let index: int = arrivals.last();
            self.lemma_merged_content(samples, chunk_count, earlier);
            self.lemma_band_pixels_in_image(samples, chunk_count, index);
            let now = self.merged(samples, chunk_count, arrivals);
            assert forall|k: int| 0 <= k < 4 * samples.len() implies #[trigger] now[k] == if self.arrived(
                chunk_count,
                arrivals,
                k,
            ) {
                self.image(samples)[k]
            } else {
                0u8
            } by {
                if self.byte_in_band(chunk_count, index, k) {
                    assert(self.byte_in_band(chunk_count, arrivals[arrivals.len() - 1], k));
                } else if self.arrived(chunk_count, earlier, k) {
                    let j: int = choose|j: int|
                        0 <= j < earlier.len() && self.byte_in_band(
                            chunk_count,
                            #[trigger] earlier[j],
                            k,
                        );
                    assert(self.byte_in_band(chunk_count, arrivals[j], k));
                } else if self.arrived(chunk_count, arrivals, k) {
                    let j: int = choose|j: int|
                        0 <= j < arrivals.len() && self.byte_in_band(
                            chunk_count,
                            #[trigger] arrivals[j],
                            k,
                        );
                    assert(self.byte_in_band(chunk_count, earlier[j], k));
                }
            }
        }
    }

    /// Every byte of the image belongs to some band.
    pub proof fn lemma_every_byte_in_a_band(&self, chunk_count: int, k: int) -> (index: int)
        requires
            chunk_count >= 1,
            0 <= k < 4 * (self.width * self.height),
        ensures
            0 <= index < chunk_count,
            self.byte_in_band(chunk_count, index, k),
    {
        let stride: int = 4 * self.width;
        assert(stride > 0 && stride * self.height == 4 * (self.width * self.height))
            by (nonlinear_arith)
            requires
                stride == 4 * self.width,
                0 <= k < 4 * (self.width * self.height),
        ;
        let row: int = k / stride;
        vstd::arithmetic::div_mod::lemma_multiply_divide_lt(k, stride, self.height as int);
        vstd::arithmetic::div_mod::lemma_fundamental_div_mod(k, stride);
        vstd::arithmetic::div_mod::lemma_mod_bound(k, stride);
        vstd::arithmetic::div_mod::lemma_div_pos_is_pos(k, stride);
        let index: int = band_index_of(self.height as int, chunk_count, row);
        lemma_row_in_one_band(self.height as int, chunk_count, row, index);
        assert(row_in_band(self.height as int, chunk_count, index, row));
        let start: int = band_start(self.height as int, chunk_count, index);
        let end: int = band_end(self.height as int, chunk_count, index);
        assert(start * self.width * 4 <= k < end * self.width * 4) by (nonlinear_arith)
            requires
                start <= row < end,
                stride == 4 * self.width,
                k == stride * row + k % stride,
                0 <= k % stride < stride,
        ;
        index
    }

    /// Arrival order does not matter: once every band has arrived, in
    /// whatever order and however often, the merged buffer is the image.
    pub proof fn lemma_arrival_order_irrelevant(
        &self,
        samples: Seq<Sample>,
        chunk_count: int,
        arrivals: Seq<int>,
    )
        requires
            samples.len() == self.width * self.height,
            chunk_count >= 1,
            forall|j: int| 0 <= j < arrivals.len() ==> 0 <= #[trigger] arrivals[j] < chunk_count,
            forall|i: int| 0 <= i < chunk_count ==> arrivals.contains(i),
        ensures
            self.merged(samples, chunk_count, arrivals) == self.image(samples),
    {
        self.lemma_merged_content(samples, chunk_count, arrivals);
        let all = self.merged(samples, chunk_count, arrivals);
        assert forall|k: int| 0 <= k < 4 * samples.len() implies all[k] == self.image(samples)[k] by {
            let index: int = self.lemma_every_byte_in_a_band(chunk_count, k);
            assert(arrivals.contains(index));
            let j: int = choose|j: int| 0 <= j < arrivals.len() && arrivals[j] == index;
            assert(self.byte_in_band(chunk_count, arrivals[j], k));
        }
        assert(all =~= self.image(samples));
    }

    /// The number of bands does not matter: two renders of the same samples
    /// give the same bytes, however many bands each was split into and in
    /// whatever order the results of each arrived.
    pub proof fn lemma_chunking_irrelevant(
        &self,
        samples: Seq<Sample>,
        chunk_count: int,
        arrivals: Seq<int>,
        other_count: int,
        other_arrivals: Seq<int>,
    )
        requires
            samples.len() == self.width * self.height,
            chunk_count >= 1,
            other_count >= 1,
            forall|j: int| 0 <= j < arrivals.len() ==> 0 <= #[trigger] arrivals[j] < chunk_count,
            forall|i: int| 0 <= i < chunk_count ==> arrivals.contains(i),
            forall|j: int|
                0 <= j < other_arrivals.len() ==> 0 <= #[trigger] other_arrivals[j] < other_count,
            forall|i: int| 0 <= i < other_count ==> other_arrivals.contains(i),
        ensures
            self.merged(samples, chunk_count, arrivals) == self.merged(
                samples,
                other_count,
                other_arrivals,
            ),
    {
        self.lemma_arrival_order_irrelevant(samples, chunk_count, arrivals);
        self.lemma_arrival_order_irrelevant(samples, other_count, other_arrivals);
    }
}

/// Rows `start..end` of an image, counted in samples.
proof fn lemma_rows_scale(start: int, end: int, height: int, width: int)
    by (nonlinear_arith)
    requires
        0 <= start <= end <= height,
        0 <= width,
    ensures
        0 <= start * width <= end * width <= width * height,
        start * width * 4 == 4 * (start * width),
        end * width * 4 == 4 * (end * width),
{
}

} // verus!
