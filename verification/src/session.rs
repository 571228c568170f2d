//! The per-image decode session: frame storage and slot bookkeeping.

use vstd::prelude::*;

use crate::error::Error;
use crate::frame::{lf_serves, Frame};
use crate::header::FrameHeader;
use crate::vardct::{render_vardct, render_vardct_with_lf, spec_render_ok, CoefficientBuffer};

verus! {

/// Marks an LF or reference slot that no frame has written yet.
pub const EMPTY_SLOT: usize = usize::MAX;

/// Bit position of the next frame in the stream: the current frame's
/// table-of-contents bookmark plus its total encoded byte size, scaled to
/// bits.  The loading loop skips there before parsing the next frame, so
/// frames are strictly sequential.
pub fn next_frame_bookmark(bookmark: u64, total_byte_size: u64) -> (r: u64)
    requires
        bookmark + total_byte_size * 8 <= u64::MAX,
    ensures
        r == bookmark + total_byte_size * 8,
{
    bookmark + total_byte_size * 8
}

/// A frame writes a reference slot when it is not the image's last frame,
/// either lingers (zero duration) or names a slot explicitly, and is not an
/// LF frame.
pub open spec fn spec_writes_reference(h: FrameHeader) -> bool {
    &&& !h.is_last
    &&& (h.duration == 0 || h.save_as_reference != 0)
    &&& !(h.frame_type is LfFrame)
}

/// A frame writes an LF slot when it declares a nonzero LF level; the slot
/// written is `lf_level - 1`.
pub open spec fn spec_writes_lf(h: FrameHeader) -> bool {
    h.lf_level != 0
}

/// Index of the last frame in `fs` that writes reference slot `slot`, or
/// `-1`.
pub open spec fn last_reference_writer(fs: Seq<Frame>, slot: int) -> int
    decreases fs.len(),
{
    if fs.len() == 0 {
        -1
    } else if spec_writes_reference(fs.last().header) && fs.last().header.save_as_reference == slot {
        fs.len() - 1
    } else {
        last_reference_writer(fs.drop_last(), slot)
    }
}

/// Index of the last frame in `fs` that writes LF slot `slot`, or `-1`.
pub open spec fn last_lf_writer(fs: Seq<Frame>, slot: int) -> int
    decreases fs.len(),
{
    if fs.len() == 0 {
        -1
    } else if spec_writes_lf(fs.last().header) && fs.last().header.lf_level - 1 == slot {
        fs.len() - 1
    } else {
        last_lf_writer(fs.drop_last(), slot)
    }
}

/// Index of the first displayable frame in `fs`, or `-1`.
pub open spec fn first_normal_frame(fs: Seq<Frame>) -> int
    decreases fs.len(),
{
    if fs.len() == 0 {
        -1
    } else if fs[0].header.frame_type.spec_is_normal() {
        0
    } else {
        let r = first_normal_frame(fs.drop_first());
        if r == -1 {
            -1
        } else {
            r + 1
        }
    }
}

/// A decode session for one image: the decoded frames in order, and the
/// most-recent-writer bookkeeping for the four LF slots and the four
/// save-as-reference slots.
///
/// Slots hold only indices into `frames` (or [`EMPTY_SLOT`]); a newer write
/// silently supersedes an older one, and nothing is ever deleted.
#[derive(Debug)]
pub struct RenderContext {
    image_width: u32,
    image_height: u32,
    xyb_encoded: bool,
    frames: Vec<Frame>,
    lf_frame: Vec<usize>,
    reference: Vec<usize>,
}

impl RenderContext {
    pub closed spec fn spec_frames(self) -> Seq<Frame> {
        self.frames@
    }

    pub closed spec fn spec_lf_slots(self) -> Seq<usize> {
        self.lf_frame@
    }

    pub closed spec fn spec_reference_slots(self) -> Seq<usize> {
        self.reference@
    }

    pub closed spec fn spec_width(self) -> u32 {
        self.image_width
    }

    pub closed spec fn spec_height(self) -> u32 {
        self.image_height
    }

    pub closed spec fn spec_xyb_encoded(self) -> bool {
        self.xyb_encoded
    }

    /// Internal invariant: four slots of each kind; every non-empty slot is
    /// an index of a stored frame.
    pub closed spec fn wf(self) -> bool {
        &&& self.lf_frame@.len() == 4
        &&& self.reference@.len() == 4
        &&& forall|s: int|
            0 <= s < 4 ==> (#[trigger] self.lf_frame@[s] == EMPTY_SLOT
                || self.lf_frame@[s] < self.frames@.len())
        &&& forall|s: int|
            0 <= s < 4 ==> (#[trigger] self.reference@[s] == EMPTY_SLOT
                || self.reference@[s] < self.frames@.len())
    }

    /// A fresh session for an image of the given dimensions.
    pub fn new(image_width: u32, image_height: u32, xyb_encoded: bool) -> (r: RenderContext)
        ensures
            r.wf(),
            r.spec_frames().len() == 0,
            r.spec_width() == image_width,
            r.spec_height() == image_height,
            r.spec_xyb_encoded() == xyb_encoded,
            forall|s: int| 0 <= s < 4 ==> #[trigger] r.spec_lf_slots()[s] == EMPTY_SLOT,
            forall|s: int| 0 <= s < 4 ==> #[trigger] r.spec_reference_slots()[s] == EMPTY_SLOT,
    {
        let mut lf_frame: Vec<usize> = Vec::new();
        let mut reference: Vec<usize> = Vec::new();
        let mut k: usize = 0;
        while k < 4
            invariant
                k <= 4,
                lf_frame@.len() == k,
                reference@.len() == k,
                forall|s: int| 0 <= s < k ==> #[trigger] lf_frame@[s] == EMPTY_SLOT,
                forall|s: int| 0 <= s < k ==> #[trigger] reference@[s] == EMPTY_SLOT,
            decreases 4 - k,
        {
            lf_frame.push(EMPTY_SLOT);
            reference.push(EMPTY_SLOT);
            k = k + 1;
        }
        RenderContext {
            image_width,
            image_height,
            xyb_encoded,
            frames: Vec::new(),
            lf_frame,
            reference,
        }
    }

    pub fn width(&self) -> (r: u32)
        ensures
            r == self.spec_width(),
    {
        self.image_width
    }

    pub fn height(&self) -> (r: u32)
        ensures
            r == self.spec_height(),
    {
        self.image_height
    }

    pub fn xyb_encoded(&self) -> (r: bool)
        ensures
            r == self.spec_xyb_encoded(),
    {
        self.xyb_encoded
    }

    pub fn frame_count(&self) -> (r: usize)
        ensures
            r == self.spec_frames().len(),
    {
        self.frames.len()
    }

    /// The LF slot array, `EMPTY_SLOT` for a slot never written.
    pub fn lf_slot(&self, s: usize) -> (r: usize)
        requires
            self.wf(),
            s < 4,
        ensures
            r == self.spec_lf_slots()[s as int],
    {
        self.lf_frame[s]
    }

    /// The reference slot array, `EMPTY_SLOT` for a slot never written.
    pub fn reference_slot(&self, s: usize) -> (r: usize)
        requires
            self.wf(),
            s < 4,
        ensures
            r == self.spec_reference_slots()[s as int],
    {
        self.reference[s]
    }

    /// Store one decoded frame and update the slots it writes.
    ///
    /// The reference-slot and LF-slot updates are independent; a single
    /// frame may perform both.
    pub fn preserve_frame(&mut self, frame: Frame)
        requires
            old(self).wf(),
            frame.header.wf(),
        ensures
            final(self).wf(),
            final(self).spec_frames() == old(self).spec_frames().push(frame),
            final(self).spec_width() == old(self).spec_width(),
            final(self).spec_height() == old(self).spec_height(),
            final(self).spec_xyb_encoded() == old(self).spec_xyb_encoded(),
            final(self).spec_reference_slots() == if spec_writes_reference(frame.header) {
                old(self).spec_reference_slots().update(
                    frame.header.save_as_reference as int,
                    old(self).spec_frames().len() as usize,
                )
            } else {
                old(self).spec_reference_slots()
            },
            final(self).spec_lf_slots() == if spec_writes_lf(frame.header) {
                old(self).spec_lf_slots().update(
                    frame.header.lf_level - 1,
                    old(self).spec_frames().len() as usize,
                )
            } else {
                old(self).spec_lf_slots()
            },
    {
        let idx = self.frames.len();
        let header = frame.header;
        if !header.is_last && (header.duration == 0 || header.save_as_reference != 0)
            && !matches!(header.frame_type, crate::header::FrameType::LfFrame) {
            let slot = header.save_as_reference as usize;
            self.reference.set(slot, idx);
        }
        if header.lf_level != 0 {
            let slot = (header.lf_level - 1) as usize;
            self.lf_frame.set(slot, idx);
        }
        self.frames.push(frame);
    }

    /// Store a whole sequence of decoded frames in order.
    ///
    /// Afterwards each slot holds the index of the last appended frame that
    /// wrote that specific slot, whatever other frames came in between, and
    /// a slot no appended frame wrote is untouched.
    pub fn load_frames(&mut self, frames: Vec<Frame>)
        requires
            old(self).wf(),
            forall|i: int|
                0 <= i < frames@.len() ==> (#[trigger] frames@[i].header).wf(),
        ensures
            final(self).wf(),
            final(self).spec_frames() == old(self).spec_frames() + frames@,
            final(self).spec_width() == old(self).spec_width(),
            final(self).spec_height() == old(self).spec_height(),
            final(self).spec_xyb_encoded() == old(self).spec_xyb_encoded(),
            forall|s: int|
                0 <= s < 4 ==> #[trigger] final(self).spec_reference_slots()[s] == {
                    let w = last_reference_writer(frames@, s);
                    if w == -1 {
                        old(self).spec_reference_slots()[s]
                    } else {
                        (old(self).spec_frames().len() + w) as usize
                    }
                },
            forall|s: int|
                0 <= s < 4 ==> #[trigger] final(self).spec_lf_slots()[s] == {
                    let w = last_lf_writer(frames@, s);
                    if w == -1 {
                        old(self).spec_lf_slots()[s]
                    } else {
                        (old(self).spec_frames().len() + w) as usize
                    }
                },
    {
        let ghost all = frames@;
        let ghost base = old(self).spec_frames().len() as int;
        let mut rest = frames;
        while rest.len() > 0
            invariant
                self.wf(),
                all == self.spec_frames().subrange(base, self.spec_frames().len() as int)
                    + rest@,
                self.spec_frames().len() == base + all.len() - rest@.len(),
                self.spec_frames().subrange(0, base) == old(self).spec_frames(),
                base == old(self).spec_frames().len(),
                forall|i: int| 0 <= i < rest@.len() ==> (#[trigger] rest@[i].header).wf(),
                self.spec_width() == old(self).spec_width(),
                self.spec_height() == old(self).spec_height(),
                self.spec_xyb_encoded() == old(self).spec_xyb_encoded(),
                forall|s: int|
                    0 <= s < 4 ==> #[trigger] self.spec_reference_slots()[s] == {
                        let w = last_reference_writer(
                            all.take(all.len() - rest@.len()),
                            s,
                        );
                        if w == -1 {
                            old(self).spec_reference_slots()[s]
                        } else {
                            (base + w) as usize
                        }
                    },
                forall|s: int|
                    0 <= s < 4 ==> #[trigger] self.spec_lf_slots()[s] == {
                        let w = last_lf_writer(all.take(all.len() - rest@.len()), s);
                        if w == -1 {
                            old(self).spec_lf_slots()[s]
                        } else {
                            (base + w) as usize
                        }
                    },
            decreases rest@.len(),
    {
            let ghost done_before = all.take(all.len() - rest@.len());
            let f = rest.remove(0);
            let ghost fg = f;
            self.preserve_frame(f);
            proof {
                let done_after = all.take(all.len() - rest@.len());
                assert(done_after =~= done_before.push(fg));
                lemma_last_writer_push(done_before, fg);
                assert(self.spec_frames().subrange(base, self.spec_frames().len() as int)
                    =~= done_after);
                assert(self.spec_frames().subrange(0, base)
                    =~= old(self).spec_frames());
            }
        }
        proof {
            assert(all.take(all.len() - rest@.len()) =~= all);
            assert(self.spec_frames() =~= old(self).spec_frames() + all);
        }
    }
}

impl RenderContext {
    /// Every stored frame is structurally valid.
    pub open spec fn frames_wf(self) -> bool {
        forall|i: int|
            0 <= i < self.spec_frames().len() ==> (#[trigger] self.spec_frames()[i]).wf()
    }

    /// When the frame at `t` reuses another frame's LF data and its LF slot
    /// is filled, the slot's frame really serves it: same group geometry,
    /// and LF groups covering every spatial group `t` touches.
    pub open spec fn lf_reuse_ready_at(self, t: int) -> bool {
        0 <= t < self.spec_frames().len() ==> {
            let target = self.spec_frames()[t];
            target.header.use_lf_frame ==> {
                let s = self.spec_lf_slots()[target.header.lf_level as int];
                s != EMPTY_SLOT ==> {
                    let src = self.spec_frames()[s as int];
                    &&& src.header.group_dim == target.header.group_dim
                    &&& lf_serves(target, src.lf_view())
                }
            }
        }
    }

    /// What `render` and `render_frame` promise of their result for the
    /// frame at index `t`.
    pub open spec fn spec_render_frame_post(
        self,
        t: int,
        r: Result<CoefficientBuffer, Error>,
    ) -> bool {
        let target = self.spec_frames()[t];
        &&& (target.header.encoding is Modular ==> r == Err::<CoefficientBuffer, Error>(
            Error::UnsupportedEncoding,
        ))
        &&& (target.header.encoding is VarDct && !target.header.use_lf_frame ==> {
            &&& ((target.lf_global is None || target.hf_global is None) <==> r == Err::<
                CoefficientBuffer,
                Error,
            >(Error::IncompleteFrame))
            &&& (target.lf_global is Some && target.hf_global is Some ==> (r matches Ok(buf)
                && spec_render_ok(target, target.lf_view(), buf.subsampled, buf.blocks_view())))
        })
        &&& (target.header.encoding is VarDct && target.header.use_lf_frame ==> {
            let s = self.spec_lf_slots()[target.header.lf_level as int];
            &&& (s == EMPTY_SLOT ==> r == Err::<CoefficientBuffer, Error>(
                Error::IncompleteFrame,
            ))
            &&& (s != EMPTY_SLOT ==> {
                let src = self.spec_frames()[s as int];
                &&& ((target.lf_global is None || target.hf_global is None) <==> r == Err::<
                    CoefficientBuffer,
                    Error,
                >(Error::IncompleteFrame))
                &&& (target.lf_global is Some && target.hf_global is Some ==> (r matches Ok(
                    buf,
                ) && spec_render_ok(target, src.lf_view(), buf.subsampled, buf.blocks_view())))
            })
        })
    }

    /// Reconstruct the frame at index `t`, dispatching on its encoding.
    ///
    /// The Modular coding path is not implemented: it reports
    /// [`Error::UnsupportedEncoding`] rather than failing silently.  A frame
    /// that reuses LF data whose slot was never filled reports
    /// [`Error::IncompleteFrame`].
    pub fn render_frame(&self, t: usize) -> (r: Result<CoefficientBuffer, Error>)
        requires
            self.wf(),
            self.frames_wf(),
            t < self.spec_frames().len(),
            self.lf_reuse_ready_at(t as int),
        ensures
            self.spec_render_frame_post(t as int, r),
    {
        let target = &self.frames[t];
        match target.header.encoding {
            crate::header::Encoding::Modular => Err(Error::UnsupportedEncoding),
            crate::header::Encoding::VarDct => {
                if target.header.use_lf_frame {
                    let slot = target.header.lf_level as usize;
                    let s = self.lf_frame[slot];
                    if s == EMPTY_SLOT {
                        Err(Error::IncompleteFrame)
                    } else {
                        let src = &self.frames[s];
                        render_vardct_with_lf(target, src)
                    }
                } else {
                    render_vardct(target)
                }
            },
        }
    }

    /// Reconstruct the first displayable frame of the image.
    ///
    /// When no displayable frame has been decoded this reports
    /// [`Error::NoDisplayableFrame`]; it never aborts.
    pub fn render(&self) -> (r: Result<CoefficientBuffer, Error>)
        requires
            self.wf(),
            self.frames_wf(),
            self.lf_reuse_ready_at(first_normal_frame(self.spec_frames())),
        ensures
            first_normal_frame(self.spec_frames()) == -1 <==> r == Err::<
                CoefficientBuffer,
                Error,
            >(Error::NoDisplayableFrame),
            first_normal_frame(self.spec_frames()) >= 0 ==> self.spec_render_frame_post(
                first_normal_frame(self.spec_frames()),
                r,
            ),
    {
        let ghost fs = self.spec_frames();
        let n = self.frames.len();
        let mut k: usize = 0;
        while k < n
            invariant
                k <= n,
                n == fs.len(),
                fs == self.spec_frames(),
                self.wf(),
                self.frames_wf(),
                self.lf_reuse_ready_at(first_normal_frame(fs)),
                forall|j: int| 0 <= j < k ==> !(#[trigger] fs[j]).header.frame_type.spec_is_normal(),
            decreases n - k,
        {
            if self.frames[k].header.frame_type.is_normal_frame() {
                proof {
                    lemma_first_normal_at(fs, k as int);
                }
                return self.render_frame(k);
            }
            k = k + 1;
        }
        proof {
            lemma_first_normal_none(fs);
        }
        Err(Error::NoDisplayableFrame)
    }
}

proof fn lemma_first_normal_at(fs: Seq<Frame>, i: int)
    requires
        0 <= i < fs.len(),
        fs[i].header.frame_type.spec_is_normal(),
        forall|j: int| 0 <= j < i ==> !(#[trigger] fs[j]).header.frame_type.spec_is_normal(),
    ensures
        first_normal_frame(fs) == i,
    decreases i,
{
    if i == 0 {
    } else {
        let t = fs.drop_first();
        assert(t[i - 1] == fs[i]);
        assert forall|j: int| 0 <= j < i - 1 implies !(#[trigger] t[j]).header.frame_type.spec_is_normal() by {
            assert(t[j] == fs[j + 1]);
        }
        lemma_first_normal_at(t, i - 1);
    }
}

proof fn lemma_first_normal_none(fs: Seq<Frame>)
    requires
        forall|j: int| 0 <= j < fs.len() ==> !(#[trigger] fs[j]).header.frame_type.spec_is_normal(),
    ensures
        first_normal_frame(fs) == -1,
    decreases fs.len(),
{
    if fs.len() == 0 {
    } else {
        let t = fs.drop_first();
        assert forall|j: int| 0 <= j < t.len() implies !(#[trigger] t[j]).header.frame_type.spec_is_normal() by {
            assert(t[j] == fs[j + 1]);
        }
        lemma_first_normal_none(t);
    }
}

/// Appending one frame moves the last-writer index to that frame exactly
/// for the slots it writes.
proof fn lemma_last_writer_push(fs: Seq<Frame>, f: Frame)
    ensures
        forall|s: int|
            #[trigger] last_reference_writer(fs.push(f), s)
                == if spec_writes_reference(f.header) && f.header.save_as_reference == s {
                    fs.len() as int
                } else {
                    last_reference_writer(fs, s)
                },
        forall|s: int|
            #[trigger] last_lf_writer(fs.push(f), s)
                == if spec_writes_lf(f.header) && f.header.lf_level - 1 == s {
                    fs.len() as int
                } else {
                    last_lf_writer(fs, s)
                },
{
    assert forall|s: int| true implies #[trigger] last_reference_writer(fs.push(f), s)
        == if spec_writes_reference(f.header) && f.header.save_as_reference == s {
            fs.len() as int
        } else {
            last_reference_writer(fs, s)
        } by {
        assert(fs.push(f).last() == f);
        assert(fs.push(f).drop_last() =~= fs);
    }
    assert forall|s: int| true implies #[trigger] last_lf_writer(fs.push(f), s)
        == if spec_writes_lf(f.header) && f.header.lf_level - 1 == s {
            fs.len() as int
        } else {
            last_lf_writer(fs, s)
        } by {
        assert(fs.push(f).last() == f);
        assert(fs.push(f).drop_last() =~= fs);
    }
}

} // verus!
