//! Recurrence-time rasters of a double pendulum: the integer side of the
//! pipeline, that is the pixel grid, column shards and their merge, the
//! plain-text PPM form, and the step-by-step recurrence search with its
//! palette.

mod decimal;
mod ppm;
mod recurrence;

use vstd::prelude::*;

verus! {

pub use crate::decimal::{decimal, push_decimal};
pub use crate::ppm::{
    black_grid, column_text, compute_shard, grid_shape, grid_text,
    lemma_sharded_render_is_sequential, merged, pixel_text, ppm_header, ppm_text, shard_width,
    Rgb, NEWLINE, PPM, SPACE, THREAD_COUNT,
};
pub use crate::recurrence::{
    first_return, is_least_return, lemma_first_return_is_least, lemma_search_is_bounded,
    never_returned, palette, recurrence_color, search_color, sentinel, RecurrenceSearch,
    MIN_RETURN_STEP,
};

} // verus!
