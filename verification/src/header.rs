//! Frame headers and the integer geometry derived from them.

use vstd::prelude::*;

verus! {

/// Largest frame dimension the core accepts, in pixels.  Keeping both axes
/// under `2^20` lets every position and key computation stay well inside
/// `u32` / `u64` range.
pub const MAX_DIMENSION: u32 = 0x10_0000;

/// What kind of frame a header declares.
#[derive(Clone, Copy, Debug, PartialEq, Eq, Structural)]
pub enum FrameType {
    /// An ordinary displayable frame.
    Regular,
    /// A frame carrying only low-frequency data for a later frame.
    LfFrame,
    /// A frame stored only to be referenced, never displayed by itself.
    ReferenceOnly,
    /// A displayable frame that skips progressive refinement.
    SkipProgressive,
}

impl FrameType {
    /// A normal frame is one that can be displayed.
    pub open spec fn spec_is_normal(self) -> bool {
        self is Regular || self is SkipProgressive
    }

    pub fn is_normal_frame(&self) -> (r: bool)
        ensures
            r == self.spec_is_normal(),
    {
        matches!(self, FrameType::Regular | FrameType::SkipProgressive)
    }
}

/// How a frame's sample data is coded.
#[derive(Clone, Copy, Debug, PartialEq, Eq, Structural)]
pub enum Encoding {
    VarDct,
    Modular,
}

/// The header attributes the reconstruction core reads.
///
/// Every field is a plain value; parsing the bitstream into this shape is a
/// collaborator's job.
#[derive(Clone, Copy, Debug)]
pub struct FrameHeader {
    pub frame_type: FrameType,
    pub encoding: Encoding,
    /// Declares this frame the last one of the image.
    pub is_last: bool,
    /// Display duration; zero marks a frame that only feeds later frames.
    pub duration: u32,
    /// Save-as-reference slot (0..4); slot 0 doubles as "no explicit slot".
    pub save_as_reference: u32,
    /// LF hierarchy level, 0 for none, else 1..=4.
    pub lf_level: u32,
    /// The frame carries no LF section of its own and reuses the data of a
    /// previously decoded LF frame, found in LF slot `lf_level`.
    pub use_lf_frame: bool,
    /// Per-channel chroma subsampling factors; any nonzero factor disables
    /// chroma-from-luma correction.
    pub jpeg_upsampling: [u32; 3],
    /// Frame width in pixels.
    pub width: u32,
    /// Frame height in pixels.
    pub height: u32,
    /// Spatial group dimension in pixels.
    pub group_dim: u32,
    /// Extra quantization scale applied to the X chroma channel.
    pub x_qm_scale: u32,
    /// Extra quantization scale applied to the B chroma channel.
    pub b_qm_scale: u32,
}

impl FrameHeader {
    /// Structural validity of a header.
    pub open spec fn wf(self) -> bool {
        &&& 1 <= self.width <= MAX_DIMENSION
        &&& 1 <= self.height <= MAX_DIMENSION
        &&& (self.group_dim == 128 || self.group_dim == 256 || self.group_dim == 512
            || self.group_dim == 1024)
        &&& self.save_as_reference < 4
        &&& self.lf_level <= 4
        &&& (self.use_lf_frame ==> self.lf_level < 4)
    }

    /// True when any channel is chroma-subsampled; chroma-from-luma
    /// correction does not apply then.
    pub open spec fn spec_subsampled(self) -> bool {
        self.jpeg_upsampling[0] != 0 || self.jpeg_upsampling[1] != 0
            || self.jpeg_upsampling[2] != 0
    }

    pub fn subsampled(&self) -> (r: bool)
        ensures
            r == self.spec_subsampled(),
    {
        self.jpeg_upsampling[0] != 0 || self.jpeg_upsampling[1] != 0
            || self.jpeg_upsampling[2] != 0
    }

    /// Number of spatial groups in one row of the frame.
    pub open spec fn spec_groups_per_row(self) -> int {
        (self.width + self.group_dim - 1) as int / self.group_dim as int
    }

    /// Number of spatial group rows in the frame.
    pub open spec fn spec_group_rows(self) -> int {
        (self.height + self.group_dim - 1) as int / self.group_dim as int
    }

    /// Number of spatial groups in the frame.
    pub open spec fn spec_num_groups(self) -> int {
        self.spec_groups_per_row() * self.spec_group_rows()
    }

    /// Number of LF groups in one row; an LF group spans 8x8 spatial groups.
    pub open spec fn spec_lf_groups_per_row(self) -> int {
        (self.width + 8 * self.group_dim - 1) as int / (8 * self.group_dim) as int
    }

    /// The LF group enclosing a given spatial group.
    pub open spec fn spec_lf_group_idx(self, group_idx: int) -> int {
        let group_row = group_idx / self.spec_groups_per_row();
        let group_col = group_idx % self.spec_groups_per_row();
        (group_row / 8) * self.spec_lf_groups_per_row() + group_col / 8
    }

    pub fn groups_per_row(&self) -> (r: u32)
        requires
            self.wf(),
        ensures
            r == self.spec_groups_per_row(),
            1 <= r <= MAX_DIMENSION,
    {
        proof {
            lemma_ceil_div_bounds(self.width as int, self.group_dim as int, MAX_DIMENSION as int);
        }
        (self.width + self.group_dim - 1) / self.group_dim
    }

    pub fn group_rows(&self) -> (r: u32)
        requires
            self.wf(),
        ensures
            r == self.spec_group_rows(),
            1 <= r <= MAX_DIMENSION,
    {
        proof {
            lemma_ceil_div_bounds(self.height as int, self.group_dim as int, MAX_DIMENSION as int);
        }
        (self.height + self.group_dim - 1) / self.group_dim
    }

    pub fn num_groups(&self) -> (r: u64)
        requires
            self.wf(),
        ensures
            r == self.spec_num_groups(),
            1 <= r <= MAX_DIMENSION as u64 * MAX_DIMENSION as u64,
    {
        let per_row = self.groups_per_row() as u64;
        let rows = self.group_rows() as u64;
        proof {
            lemma_mul_le(per_row as int, rows as int, MAX_DIMENSION as int, MAX_DIMENSION as int);
            assert(per_row * rows >= 1) by (nonlinear_arith)
                requires
                    per_row >= 1,
                    rows >= 1,
            ;
        }
        per_row * rows
    }

    pub fn lf_groups_per_row(&self) -> (r: u32)
        requires
            self.wf(),
        ensures
            r == self.spec_lf_groups_per_row(),
            1 <= r <= MAX_DIMENSION,
    {
        proof {
            lemma_ceil_div_bounds(
                self.width as int,
                8 * self.group_dim as int,
                MAX_DIMENSION as int,
            );
        }
        (self.width + 8 * self.group_dim - 1) / (8 * self.group_dim)
    }

    /// Maps a spatial group index to the index of its enclosing LF group.
    pub fn lf_group_idx_from_group_idx(&self, group_idx: u64) -> (r: u64)
        requires
            self.wf(),
            group_idx < self.spec_num_groups(),
        ensures
            r == self.spec_lf_group_idx(group_idx as int),
            r < MAX_DIMENSION as u64 * MAX_DIMENSION as u64,
    {
        let per_row = self.groups_per_row() as u64;
        let group_row = group_idx / per_row;
        let group_col = group_idx % per_row;
        proof {
            lemma_ceil_div_bounds(self.height as int, self.group_dim as int, MAX_DIMENSION as int);
            lemma_div_in_range(group_idx as int, per_row as int, self.spec_group_rows());
            assert(group_col < per_row) by (nonlinear_arith)
                requires
                    group_col == group_idx as int % per_row as int,
                    0 < per_row,
            ;
        }
        let lf_per_row = self.lf_groups_per_row() as u64;
        proof {
            lemma_div_in_range(group_row as int, 8, 0x20000);
            lemma_mul_le(
                (group_row / 8) as int,
                lf_per_row as int,
                0x20000,
                MAX_DIMENSION as int,
            );
            assert(group_col / 8 <= group_col) by (nonlinear_arith)
                requires
                    0 <= group_col,
            ;
            assert((group_row as int / 8) * (lf_per_row as int) <= 0x20000 * (MAX_DIMENSION as int));
            assert((group_row as int / 8) * (lf_per_row as int) + group_col as int / 8
                < MAX_DIMENSION as int * MAX_DIMENSION as int);
        }
        (group_row / 8) * lf_per_row + group_col / 8
    }
}

/// Bounded factors give a bounded product.
pub proof fn lemma_mul_le(a: int, b: int, x: int, y: int)
    requires
        0 <= a <= x,
        0 <= b <= y,
    ensures
        0 <= a * b <= x * y,
{
    assert(0 <= a * b <= x * y) by (nonlinear_arith)
        requires
            0 <= a <= x,
            0 <= b <= y,
    ;
}

/// For `0 <= x < q * r` with positive `q`, the quotient `x / q` is below `r`.
pub proof fn lemma_div_in_range(x: int, q: int, r: int)
    requires
        0 < q,
        0 <= x < q * r,
    ensures
        0 <= x / q < r,
{
    assert(0 <= x / q < r) by (nonlinear_arith)
        requires
            0 < q,
            0 <= x < q * r,
    ;
}

/// `1 <= w <= m` and `1 <= d` bound the rounded-up quotient by `1..=m`.
pub proof fn lemma_ceil_div_bounds(w: int, d: int, m: int)
    requires
        1 <= w <= m,
        1 <= d,
    ensures
        1 <= (w + d - 1) / d <= m,
{
    assert(1 <= (w + d - 1) / d) by (nonlinear_arith)
        requires
            1 <= w,
            1 <= d,
    ;
    assert((w + d - 1) / d <= m) by (nonlinear_arith)
        requires
            1 <= w <= m,
            1 <= d,
    ;
}

} // verus!
