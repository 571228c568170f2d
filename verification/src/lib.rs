//! Reconstruction core of a VarDCT image decoder.
//!
//! The crate models the parsed-but-still-compressed side of a frame —
//! quantized coefficient grids, frame headers, slot bookkeeping — and the
//! integer-domain part of the reconstruction pipeline: merging the
//! high-frequency coefficient passes, planning every coded block's place in
//! the frame, and assembling the blocks in raster order.  The floating-point
//! transform kernel that consumes the assembled blocks lives outside the
//! verified core.

use vstd::prelude::*;

mod coeff;
mod error;
mod frame;
mod grid;
mod header;
mod lane;
mod session;
mod vardct;

verus! {

pub use crate::coeff::{
    all_wf, block_shape_in, compatible, find_block, merge_block, merge_seq, unique_positions,
    BlockView, CoeffData, CoeffDataView, DctSelect, HfBlock, HfCoeffSet, PassView,
};
pub use crate::error::Error;
pub use crate::frame::{
    find_lf_group, lf_groups_ok, lf_serves, lookup_lf_group, shapes_sub, DequantMatrix, Frame,
    HfGlobal, LfChanCorr, LfGlobal, LfGroup, LfGroupView, PassGroup, Quantizer,
};
pub use crate::grid::{coeff_add, CoeffGrid, GridView, MAX_GRID_DIM};
pub use crate::coeff::lemma_merge_batching;
pub use crate::header::{Encoding, FrameHeader, FrameType, MAX_DIMENSION};
pub use crate::lane::{
    lane_scratch_len, lemma_transpose_involutive, transpose_lane, transposed, use_dct8x8_path,
    use_vector_path, LANE_SIZE,
};
pub use crate::session::{
    first_normal_frame, last_lf_writer, last_reference_writer, next_frame_bookmark,
    spec_writes_lf, spec_writes_reference, RenderContext, EMPTY_SLOT,
};
pub use crate::vardct::{
    lemma_merge_seq_disjoint, merged_group, merged_prefix, planned_upto, raster_le,
    render_vardct, render_vardct_with_lf, sorted_raster, spec_planned_block, spec_planned_group,
    spec_render_ok, CoefficientBuffer, PlannedBlock, PlannedView,
};

} // verus!
