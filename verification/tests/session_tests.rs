use jxl_render::{
    Encoding, Error, Frame, FrameHeader, FrameType, RenderContext, next_frame_bookmark,
    EMPTY_SLOT,
};

fn base_header() -> FrameHeader {
    FrameHeader {
        frame_type: FrameType::Regular,
        encoding: Encoding::VarDct,
        is_last: false,
        duration: 1,
        save_as_reference: 0,
        lf_level: 0,
        use_lf_frame: false,
        jpeg_upsampling: [0, 0, 0],
        width: 128,
        height: 128,
        group_dim: 128,
        x_qm_scale: 2,
        b_qm_scale: 2,
    }
}

fn bare_frame(header: FrameHeader) -> Frame {
    Frame {
        header,
        lf_global: None,
        hf_global: None,
        lf_groups: Vec::new(),
        passes: Vec::new(),
    }
}

#[test]
fn new_session_is_empty() {
    let ctx = RenderContext::new(640, 480, true);
    assert_eq!(ctx.width(), 640);
    assert_eq!(ctx.height(), 480);
    assert!(ctx.xyb_encoded());
    assert_eq!(ctx.frame_count(), 0);
    for s in 0..4 {
        assert_eq!(ctx.lf_slot(s), EMPTY_SLOT);
        assert_eq!(ctx.reference_slot(s), EMPTY_SLOT);
    }
}

#[test]
fn slots_hold_last_writer() {
    // A sequence of frames with varying LF levels and reference slots:
    // afterwards each slot holds the index of the last frame that wrote
    // that specific slot, whatever came in between.
    let mut ctx = RenderContext::new(128, 128, false);

    let mut h0 = base_header();
    h0.lf_level = 2; // writes LF slot 1
    let mut h1 = base_header();
    h1.save_as_reference = 3; // writes reference slot 3
    let mut h2 = base_header();
    h2.duration = 0; // zero duration: writes reference slot 0
    h2.lf_level = 2; // writes LF slot 1 again
    let mut h3 = base_header();
    h3.frame_type = FrameType::LfFrame; // LF frames never write a reference slot
    h3.save_as_reference = 1;
    h3.lf_level = 1; // writes LF slot 0
    let mut h4 = base_header();
    h4.is_last = true; // the last frame never writes a reference slot
    h4.save_as_reference = 2;

    ctx.load_frames(vec![
        bare_frame(h0),
        bare_frame(h1),
        bare_frame(h2),
        bare_frame(h3),
        bare_frame(h4),
    ]);

    assert_eq!(ctx.frame_count(), 5);
    assert_eq!(ctx.reference_slot(0), 2);
    assert_eq!(ctx.reference_slot(1), EMPTY_SLOT);
    assert_eq!(ctx.reference_slot(2), EMPTY_SLOT);
    assert_eq!(ctx.reference_slot(3), 1);
    assert_eq!(ctx.lf_slot(0), 3);
    assert_eq!(ctx.lf_slot(1), 2);
    assert_eq!(ctx.lf_slot(2), EMPTY_SLOT);
    assert_eq!(ctx.lf_slot(3), EMPTY_SLOT);
}

#[test]
fn preserve_updates_both_kinds_of_slot_at_once() {
    // The reference-slot and LF-slot updates are independent; one frame may
    // perform both.
    let mut ctx = RenderContext::new(128, 128, false);
    let mut h = base_header();
    h.duration = 0;
    h.save_as_reference = 1;
    h.lf_level = 3;
    ctx.preserve_frame(bare_frame(h));
    assert_eq!(ctx.reference_slot(1), 0);
    assert_eq!(ctx.lf_slot(2), 0);
}

#[test]
fn render_without_any_frame_reports_no_displayable_frame() {
    let ctx = RenderContext::new(128, 128, false);
    assert_eq!(ctx.render().unwrap_err(), Error::NoDisplayableFrame);
}

#[test]
fn render_without_displayable_frame_reports_no_displayable_frame() {
    // Only non-displayable frames decoded: rendering reports the typed
    // error instead of aborting.
    let mut ctx = RenderContext::new(128, 128, false);
    let mut h = base_header();
    h.frame_type = FrameType::LfFrame;
    h.lf_level = 1;
    ctx.preserve_frame(bare_frame(h));
    let mut h2 = base_header();
    h2.frame_type = FrameType::ReferenceOnly;
    h2.duration = 0;
    ctx.preserve_frame(bare_frame(h2));
    assert_eq!(ctx.render().unwrap_err(), Error::NoDisplayableFrame);
}

#[test]
fn modular_encoding_reports_unsupported() {
    let mut ctx = RenderContext::new(128, 128, false);
    let mut h = base_header();
    h.encoding = Encoding::Modular;
    ctx.preserve_frame(bare_frame(h));
    assert_eq!(ctx.render().unwrap_err(), Error::UnsupportedEncoding);
}

#[test]
fn missing_lf_section_reports_incomplete_frame() {
    let mut ctx = RenderContext::new(128, 128, false);
    ctx.preserve_frame(bare_frame(base_header()));
    assert_eq!(ctx.render().unwrap_err(), Error::IncompleteFrame);
}

#[test]
fn lf_reuse_with_empty_slot_reports_incomplete_frame() {
    let mut ctx = RenderContext::new(128, 128, false);
    let mut h = base_header();
    h.use_lf_frame = true;
    h.lf_level = 0; // reads LF slot 0, which nothing filled
    ctx.preserve_frame(bare_frame(h));
    assert_eq!(ctx.render().unwrap_err(), Error::IncompleteFrame);
}

#[test]
fn skip_progressive_frames_are_displayable() {
    let mut ctx = RenderContext::new(128, 128, false);
    let mut h = base_header();
    h.frame_type = FrameType::SkipProgressive;
    h.encoding = Encoding::Modular;
    ctx.preserve_frame(bare_frame(h));
    // Dispatch reaches the encoding switch, so the frame was selected.
    assert_eq!(ctx.render().unwrap_err(), Error::UnsupportedEncoding);
}

#[test]
fn bookmark_advance_is_bookmark_plus_bits() {
    assert_eq!(next_frame_bookmark(100, 25), 300);
    assert_eq!(next_frame_bookmark(0, 0), 0);
    assert_eq!(next_frame_bookmark(7, 1), 15);
}
