use jxl_render::{
    lane_scratch_len, transpose_lane, use_dct8x8_path, use_vector_path, CoeffGrid, DctSelect,
    FrameHeader, FrameType, Encoding,
};

fn geometry_header(width: u32, height: u32, group_dim: u32) -> FrameHeader {
    FrameHeader {
        frame_type: FrameType::Regular,
        encoding: Encoding::VarDct,
        is_last: true,
        duration: 0,
        save_as_reference: 0,
        lf_level: 0,
        use_lf_frame: false,
        jpeg_upsampling: [0, 0, 0],
        width,
        height,
        group_dim,
        x_qm_scale: 2,
        b_qm_scale: 2,
    }
}

#[test]
fn transpose_moves_each_sample_across_the_diagonal() {
    let m = [
        [11, 12, 13, 14],
        [21, 22, 23, 24],
        [31, 32, 33, 34],
        [41, 42, 43, 44],
    ];
    let t = transpose_lane(&m);
    assert_eq!(t[0], [11, 21, 31, 41]);
    assert_eq!(t[1], [12, 22, 32, 42]);
    assert_eq!(t[2], [13, 23, 33, 43]);
    assert_eq!(t[3], [14, 24, 34, 44]);
}

#[test]
fn transposing_twice_is_the_identity() {
    let m = [
        [0xdead_0001, 2, 3, 4],
        [5, 6, 7, 8],
        [9, 10, 11, 12],
        [13, 14, 15, 0xbeef_0002],
    ];
    assert_eq!(transpose_lane(&transpose_lane(&m)), m);
}

#[test]
fn vector_path_needs_multiples_of_four_and_alignment() {
    assert!(use_vector_path(8, 8, true));
    assert!(use_vector_path(4, 16, true));
    // Any dimension not divisible by four forces the scalar fallback.
    assert!(!use_vector_path(6, 8, true));
    assert!(!use_vector_path(8, 6, true));
    assert!(!use_vector_path(5, 3, true));
    // So does unaligned storage.
    assert!(!use_vector_path(8, 8, false));
}

#[test]
fn dedicated_8x8_path_matches_only_8x8_blocks() {
    assert!(use_dct8x8_path(2, 8));
    assert!(!use_dct8x8_path(2, 16));
    assert!(!use_dct8x8_path(4, 8));
    assert!(!use_dct8x8_path(1, 8));
}

#[test]
fn lane_scratch_is_twice_the_larger_extent() {
    assert_eq!(lane_scratch_len(2, 8), 16);
    assert_eq!(lane_scratch_len(8, 8), 64);
    assert_eq!(lane_scratch_len(1, 32), 64);
}

#[test]
fn group_geometry_rounds_up() {
    let h = geometry_header(129, 257, 128);
    assert_eq!(h.groups_per_row(), 2);
    assert_eq!(h.group_rows(), 3);
    assert_eq!(h.num_groups(), 6);
    assert_eq!(h.lf_groups_per_row(), 1);
    let exact = geometry_header(256, 128, 128);
    assert_eq!(exact.groups_per_row(), 2);
    assert_eq!(exact.group_rows(), 1);
}

#[test]
fn lf_group_index_coarsens_by_eight_groups() {
    // A 2048-pixel-wide frame with 128-pixel groups has 16 groups per row
    // and 2 LF groups per row.
    let h = geometry_header(2048, 2048, 128);
    assert_eq!(h.lf_groups_per_row(), 2);
    assert_eq!(h.lf_group_idx_from_group_idx(0), 0);
    assert_eq!(h.lf_group_idx_from_group_idx(7), 0);
    assert_eq!(h.lf_group_idx_from_group_idx(8), 1);
    // Row 8 of groups starts the second row of LF groups.
    assert_eq!(h.lf_group_idx_from_group_idx(8 * 16), 2);
    assert_eq!(h.lf_group_idx_from_group_idx(8 * 16 + 9), 3);
}

#[test]
fn subsampling_flag_checks_all_three_channels() {
    let mut h = geometry_header(128, 128, 128);
    assert!(!h.subsampled());
    h.jpeg_upsampling = [0, 0, 1];
    assert!(h.subsampled());
    h.jpeg_upsampling = [2, 0, 0];
    assert!(h.subsampled());
}

#[test]
fn dct_select_sizes_cover_the_supported_shapes() {
    assert_eq!(DctSelect::Dct8.dct_select_size(), (1, 1));
    assert_eq!(DctSelect::Dct16.dct_select_size(), (2, 2));
    assert_eq!(DctSelect::Dct32.dct_select_size(), (4, 4));
    assert_eq!(DctSelect::Dct8x16.dct_select_size(), (1, 2));
    assert_eq!(DctSelect::Dct16x8.dct_select_size(), (2, 1));
    assert_eq!(DctSelect::Dct8x32.dct_select_size(), (1, 4));
    assert_eq!(DctSelect::Dct32x8.dct_select_size(), (4, 1));
    assert_eq!(DctSelect::Dct16x32.dct_select_size(), (2, 4));
    assert_eq!(DctSelect::Dct32x16.dct_select_size(), (4, 2));
}

#[test]
fn grids_store_row_major_samples() {
    let g = CoeffGrid::from_data(3, 2, vec![1, 2, 3, 4, 5, 6]);
    assert_eq!(g.width(), 3);
    assert_eq!(g.height(), 2);
    assert_eq!(g.get(0, 0), 1);
    assert_eq!(g.get(2, 0), 3);
    assert_eq!(g.get(0, 1), 4);
    assert_eq!(g.get(2, 1), 6);
}

#[test]
fn grid_merge_adds_elementwise_with_wrapping() {
    let a = CoeffGrid::from_data(2, 1, vec![i32::MAX, 10]);
    let b = CoeffGrid::from_data(2, 1, vec![2, -30]);
    let c = a.combined_with(&b);
    assert_eq!(c.get(0, 0), i32::MIN + 1);
    assert_eq!(c.get(1, 0), -20);
}
