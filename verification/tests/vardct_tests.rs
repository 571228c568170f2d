use jxl_render::{
    CoeffData, CoeffGrid, DctSelect, Encoding, Error, Frame, FrameHeader, FrameType, HfBlock,
    HfCoeffSet, HfGlobal, LfChanCorr, LfGlobal, LfGroup, PassGroup, Quantizer, RenderContext,
};

fn vardct_header() -> FrameHeader {
    FrameHeader {
        frame_type: FrameType::Regular,
        encoding: Encoding::VarDct,
        is_last: true,
        duration: 0,
        save_as_reference: 0,
        lf_level: 0,
        use_lf_frame: false,
        jpeg_upsampling: [0, 0, 0],
        width: 128,
        height: 128,
        group_dim: 128,
        x_qm_scale: 2,
        b_qm_scale: 2,
    }
}

fn lf_global() -> LfGlobal {
    LfGlobal {
        lf_dequant_y_word: 0,
        lf_dequant_x_word: 0,
        lf_dequant_b_word: 0,
        quantizer: Quantizer { global_scale: 1, quant_lf: 1 },
        chan_corr: LfChanCorr {
            colour_factor: 84,
            base_x_word: 0,
            base_b_word: 0,
            x_factor_lf: 128,
            b_factor_lf: 128,
        },
    }
}

/// One LF group of a 128-pixel frame: 16x16 one-sample-per-block maps.
fn lf_group(idx: u64, d: u32, cfl_x_at_origin: i32, cfl_b_at_origin: i32) -> LfGroup {
    let mut x_from_y = CoeffGrid::new(d, d);
    let mut b_from_y = CoeffGrid::new(d, d);
    x_from_y.set(0, 0, cfl_x_at_origin);
    b_from_y.set(0, 0, cfl_b_at_origin);
    LfGroup {
        idx,
        cy: CoeffGrid::new(d, d),
        cx: CoeffGrid::new(d, d),
        cb: CoeffGrid::new(d, d),
        x_from_y,
        b_from_y,
    }
}

fn dc_block(bx: u32, by: u32, dc: i32) -> HfBlock {
    let mut cy = CoeffGrid::new(8, 8);
    cy.set(0, 0, dc);
    HfBlock {
        bx,
        by,
        data: CoeffData {
            dct_select: DctSelect::Dct8,
            cy,
            cx: CoeffGrid::new(8, 8),
            cb: CoeffGrid::new(8, 8),
        },
    }
}

fn one_block_frame(dc: i32) -> Frame {
    Frame {
        header: vardct_header(),
        lf_global: Some(lf_global()),
        hf_global: Some(HfGlobal { matrices: Vec::new() }),
        lf_groups: vec![lf_group(0, 128, 7, -3)],
        passes: vec![PassGroup {
            pass_idx: 0,
            group_idx: 0,
            coeff: HfCoeffSet { blocks: vec![dc_block(0, 0, dc)] },
        }],
    }
}

#[test]
fn single_dc_block_is_planned_at_origin() {
    let mut ctx = RenderContext::new(128, 128, true);
    ctx.preserve_frame(one_block_frame(13));
    let buf = ctx.render().unwrap();
    assert!(!buf.subsampled);
    assert_eq!(buf.blocks.len(), 1);
    let b = &buf.blocks[0];
    assert_eq!((b.x, b.y), (0, 0));
    assert_eq!(b.dct_select, DctSelect::Dct8);
    assert_eq!(b.lf_group_idx, 0);
    assert_eq!((b.lf_left, b.lf_top), (0, 0));
    // The DC coefficient survives merging and planning unchanged.
    assert_eq!(b.cy.get(0, 0), 13);
    assert_eq!(b.cy.get(1, 0), 0);
    assert_eq!(b.cy.get(7, 7), 0);
    // Chroma-from-luma factors come from the LF group's maps at the
    // block's coarse position.
    assert_eq!(b.cfl_x, 7);
    assert_eq!(b.cfl_b, -3);
}

#[test]
fn subsampled_frame_sets_the_flag_that_disables_cfl() {
    // When any channel is subsampled, the buffer tells the numeric stage
    // to leave chroma untouched by chroma-from-luma correction.
    let mut frame = one_block_frame(5);
    frame.header.jpeg_upsampling = [0, 1, 0];
    let mut ctx = RenderContext::new(128, 128, true);
    ctx.preserve_frame(frame);
    let buf = ctx.render().unwrap();
    assert!(buf.subsampled);
    // The coefficients themselves are identical to the unsubsampled run.
    let mut ctx2 = RenderContext::new(128, 128, true);
    ctx2.preserve_frame(one_block_frame(5));
    let buf2 = ctx2.render().unwrap();
    assert!(!buf2.subsampled);
    assert_eq!(buf.blocks.len(), buf2.blocks.len());
    assert_eq!(buf.blocks[0].cy.get(0, 0), buf2.blocks[0].cy.get(0, 0));
}

#[test]
fn later_pass_refines_by_elementwise_addition() {
    let mut frame = one_block_frame(10);
    let mut refine = dc_block(0, 0, 4);
    refine.data.cy.set(1, 0, 6);
    frame.passes.push(PassGroup {
        pass_idx: 1,
        group_idx: 0,
        coeff: HfCoeffSet { blocks: vec![refine] },
    });
    let mut ctx = RenderContext::new(128, 128, true);
    ctx.preserve_frame(frame);
    let buf = ctx.render().unwrap();
    assert_eq!(buf.blocks.len(), 1);
    assert_eq!(buf.blocks[0].cy.get(0, 0), 14);
    assert_eq!(buf.blocks[0].cy.get(1, 0), 6);
}

#[test]
fn pass_merge_wraps_on_overflow() {
    let mut frame = one_block_frame(i32::MAX);
    frame.passes.push(PassGroup {
        pass_idx: 1,
        group_idx: 0,
        coeff: HfCoeffSet { blocks: vec![dc_block(0, 0, 1)] },
    });
    let mut ctx = RenderContext::new(128, 128, true);
    ctx.preserve_frame(frame);
    let buf = ctx.render().unwrap();
    assert_eq!(buf.blocks[0].cy.get(0, 0), i32::MIN);
}

#[test]
fn block_seen_in_only_one_pass_is_used_as_is() {
    let mut frame = one_block_frame(10);
    // The second pass refines only the first block; a block present only
    // in the first pass is carried over unchanged.
    if let Some(p) = frame.passes.get_mut(0) {
        p.coeff.blocks.push(dc_block(2, 0, 21));
    }
    frame.passes.push(PassGroup {
        pass_idx: 1,
        group_idx: 0,
        coeff: HfCoeffSet { blocks: vec![dc_block(0, 0, 1)] },
    });
    let mut ctx = RenderContext::new(128, 128, true);
    ctx.preserve_frame(frame);
    let buf = ctx.render().unwrap();
    assert_eq!(buf.blocks.len(), 2);
    assert_eq!(buf.blocks[0].cy.get(0, 0), 11);
    assert_eq!(buf.blocks[1].x, 16);
    assert_eq!(buf.blocks[1].cy.get(0, 0), 21);
}

#[test]
fn blocks_come_out_in_raster_order() {
    let mut frame = one_block_frame(1);
    // First listed block sits one block row down; the second sits one
    // block column right.  Raster order puts the upper one first.
    frame.passes = vec![PassGroup {
        pass_idx: 0,
        group_idx: 0,
        coeff: HfCoeffSet { blocks: vec![dc_block(0, 1, 2), dc_block(1, 0, 3)] },
    }];
    let mut ctx = RenderContext::new(128, 128, true);
    ctx.preserve_frame(frame);
    let buf = ctx.render().unwrap();
    assert_eq!(buf.blocks.len(), 2);
    assert_eq!((buf.blocks[0].x, buf.blocks[0].y), (8, 0));
    assert_eq!(buf.blocks[0].cy.get(0, 0), 3);
    assert_eq!((buf.blocks[1].x, buf.blocks[1].y), (0, 8));
    assert_eq!(buf.blocks[1].cy.get(0, 0), 2);
}

#[test]
fn second_group_is_offset_by_the_group_dimension() {
    let mut frame = one_block_frame(1);
    frame.header.width = 129; // two spatial groups in a row
    frame.passes.push(PassGroup {
        pass_idx: 0,
        group_idx: 1,
        coeff: HfCoeffSet { blocks: vec![dc_block(0, 0, 9)] },
    });
    let mut ctx = RenderContext::new(129, 128, true);
    ctx.preserve_frame(frame);
    let buf = ctx.render().unwrap();
    assert_eq!(buf.blocks.len(), 2);
    assert_eq!((buf.blocks[0].x, buf.blocks[0].y), (0, 0));
    assert_eq!((buf.blocks[1].x, buf.blocks[1].y), (128, 0));
    // Both groups share LF group 0, and the second group's block offsets
    // inside it account for the group's position.
    assert_eq!(buf.blocks[1].lf_group_idx, 0);
    assert_eq!(buf.blocks[1].lf_left, 128);
    assert_eq!(buf.blocks[1].cfl_x, 0);
}

#[test]
fn lf_frame_reuse_takes_factors_from_the_referenced_frame() {
    let mut ctx = RenderContext::new(128, 128, true);
    // An LF frame at level 1 fills LF slot 0 with factor maps of its own.
    let mut lf_frame_header = vardct_header();
    lf_frame_header.frame_type = FrameType::LfFrame;
    lf_frame_header.lf_level = 1;
    lf_frame_header.is_last = false;
    ctx.preserve_frame(Frame {
        header: lf_frame_header,
        lf_global: Some(lf_global()),
        hf_global: Some(HfGlobal { matrices: Vec::new() }),
        lf_groups: vec![lf_group(0, 128, 9, 4)],
        passes: Vec::new(),
    });
    // The displayable frame reuses that LF data instead of carrying any.
    let mut frame = one_block_frame(2);
    frame.header.use_lf_frame = true;
    frame.lf_groups = Vec::new();
    ctx.preserve_frame(frame);
    let buf = ctx.render().unwrap();
    assert_eq!(buf.blocks.len(), 1);
    assert_eq!(buf.blocks[0].cfl_x, 9);
    assert_eq!(buf.blocks[0].cfl_b, 4);
}

#[test]
fn missing_hf_section_reports_incomplete_frame() {
    let mut frame = one_block_frame(1);
    frame.hf_global = None;
    let mut ctx = RenderContext::new(128, 128, true);
    ctx.preserve_frame(frame);
    assert_eq!(ctx.render().unwrap_err(), Error::IncompleteFrame);
}
