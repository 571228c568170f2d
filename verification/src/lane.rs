//! Lane-level helpers of the transform kernel's vectorized fast path.
//!
//! The transform's arithmetic is floating-point and lives outside the
//! verified core.  What is verified here is the part that is pure data
//! movement or a pure decision: the 4x4 lane transpose used when switching
//! between the column and row passes (samples travel as opaque 32-bit
//! words), the fallback policy, the 8x8 fast-path test, and the scratch
//! sizing rule.

use vstd::prelude::*;

verus! {

/// Number of samples packed into one vector lane.
pub const LANE_SIZE: usize = 4;

/// `r` is the transpose of the 4x4 block of sample words `a`.
pub open spec fn transposed(a: [[u32; 4]; 4], r: [[u32; 4]; 4]) -> bool {
    forall|i: int, j: int| 0 <= i < 4 && 0 <= j < 4 ==> r[i][j] == a[j][i]
}

/// Transpose a 4x4 block of lanes: four lanes of four sample words each,
/// one sample per sequence, become four lanes of one sample each.
pub fn transpose_lane(lanes: &[[u32; 4]; 4]) -> (r: [[u32; 4]; 4])
    ensures
        transposed(*lanes, r),
{
    [
        [lanes[0][0], lanes[1][0], lanes[2][0], lanes[3][0]],
        [lanes[0][1], lanes[1][1], lanes[2][1], lanes[3][1]],
        [lanes[0][2], lanes[1][2], lanes[2][2], lanes[3][2]],
        [lanes[0][3], lanes[1][3], lanes[2][3], lanes[3][3]],
    ]
}

/// Transposing twice gives back every sample: the column pass's transpose
/// and the row pass's transpose cancel.
pub proof fn lemma_transpose_involutive(a: [[u32; 4]; 4], b: [[u32; 4]; 4], c: [[u32; 4]; 4])
    requires
        transposed(a, b),
        transposed(b, c),
    ensures
        forall|i: int, j: int| 0 <= i < 4 && 0 <= j < 4 ==> c[i][j] == a[i][j],
{
    assert forall|i: int, j: int| 0 <= i < 4 && 0 <= j < 4 implies c[i][j] == a[i][j] by {
        assert(c[i][j] == b[j][i]);
        assert(b[j][i] == a[i][j]);
    }
}

/// The vectorized 2-D transform may run only when both block dimensions
/// are multiples of the lane width and the storage is lane-aligned;
/// otherwise the kernel must take the exact scalar fallback.
pub fn use_vector_path(width: usize, height: usize, aligned: bool) -> (r: bool)
    ensures
        r == (aligned && width % 4 == 0 && height % 4 == 0),
{
    aligned && width % 4 == 0 && height % 4 == 0
}

/// The dedicated 8x8 butterfly network replaces the general lane-level
/// recursion exactly for a block 8 samples tall and two lanes (8 samples)
/// wide.
pub fn use_dct8x8_path(lane_width: usize, height: usize) -> (r: bool)
    ensures
        r == (lane_width == 2 && height == 8),
{
    lane_width == 2 && height == 8
}

/// Scratch needed by the two lane passes over a `lane_width` by `height`
/// block of lanes: twice the larger of the lane-sample height and the
/// sample width.
pub fn lane_scratch_len(lane_width: usize, height: usize) -> (r: usize)
    requires
        lane_width <= 0x1000,
        height <= 0x1000,
    ensures
        r == 2 * (if height > 4 * lane_width {
            height as int
        } else {
            4 * lane_width
        }),
{
    let m = if height > 4 * lane_width {
        height
    } else {
        4 * lane_width
    };
    2 * m
}

} // verus!
