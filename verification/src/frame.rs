//! A decoded frame: header plus payload sections, all as plain values.
//!
//! Parsing the bitstream into this shape is a collaborator's job; the core
//! only consumes it.  Parameters that are numerically real-valued (LF
//! dequantization factors, base correlation offsets, dequantization weights)
//! are carried as opaque 32-bit sample words; the integer pipeline never
//! reads into them, and the numeric stage downstream owns their
//! interpretation.

use vstd::prelude::*;

use crate::coeff::{
    all_wf, unique_positions, BlockView, DctSelect, HfCoeffSet, PassView,
};
use crate::grid::{CoeffGrid, GridView};
use crate::header::FrameHeader;

verus! {

/// Global quantizer parameters of a frame.
#[derive(Clone, Copy, Debug)]
pub struct Quantizer {
    pub global_scale: u32,
    pub quant_lf: u32,
}

/// Global channel-correlation parameters used by chroma-from-luma
/// correction.  The two base offsets are real-valued and carried as opaque
/// 32-bit sample words.
#[derive(Clone, Copy, Debug)]
pub struct LfChanCorr {
    pub colour_factor: u32,
    pub base_x_word: u32,
    pub base_b_word: u32,
    pub x_factor_lf: u32,
    pub b_factor_lf: u32,
}

/// The frame's global LF section: dequantization factors (opaque sample
/// words, one per channel), the quantizer, and the channel-correlation
/// parameters.
#[derive(Clone, Copy, Debug)]
pub struct LfGlobal {
    pub lf_dequant_y_word: u32,
    pub lf_dequant_x_word: u32,
    pub lf_dequant_b_word: u32,
    pub quantizer: Quantizer,
    pub chan_corr: LfChanCorr,
}

/// One per-transform-size dequantization weight matrix, one weight word per
/// sample and channel.
#[derive(Debug)]
pub struct DequantMatrix {
    pub dct_select: DctSelect,
    pub w_y: Vec<u32>,
    pub w_x: Vec<u32>,
    pub w_b: Vec<u32>,
}

/// The frame's global HF section: the dequantization weight matrices.
#[derive(Debug)]
pub struct HfGlobal {
    pub matrices: Vec<DequantMatrix>,
}

/// Mathematical image of an [`LfGroup`].
pub struct LfGroupView {
    pub idx: int,
    pub cy: GridView,
    pub cx: GridView,
    pub cb: GridView,
    pub x_from_y: GridView,
    pub b_from_y: GridView,
}

/// One LF group: quantized LF coefficients for the three channels and the
/// per-block chroma-from-luma factor maps, each one sample per 8x8-pixel
/// block of the LF group's area.
#[derive(Debug)]
pub struct LfGroup {
    pub idx: u64,
    pub cy: CoeffGrid,
    pub cx: CoeffGrid,
    pub cb: CoeffGrid,
    pub x_from_y: CoeffGrid,
    pub b_from_y: CoeffGrid,
}

impl View for LfGroup {
    type V = LfGroupView;

    open spec fn view(&self) -> LfGroupView {
        LfGroupView {
            idx: self.idx as int,
            cy: self.cy@,
            cx: self.cx@,
            cb: self.cb@,
            x_from_y: self.x_from_y@,
            b_from_y: self.b_from_y@,
        }
    }
}

/// The HF coefficients one encoding pass contributes to one spatial group.
#[derive(Debug)]
pub struct PassGroup {
    pub pass_idx: u32,
    pub group_idx: u64,
    pub coeff: HfCoeffSet,
}

impl View for PassGroup {
    type V = PassView;

    open spec fn view(&self) -> PassView {
        PassView { pass_idx: self.pass_idx as int, group_idx: self.group_idx as int, blocks: self.coeff@ }
    }
}

/// A fully parsed frame.
#[derive(Debug)]
pub struct Frame {
    pub header: FrameHeader,
    pub lf_global: Option<LfGlobal>,
    pub hf_global: Option<HfGlobal>,
    pub lf_groups: Vec<LfGroup>,
    pub passes: Vec<PassGroup>,
}

/// First index in `s` holding the LF group `idx`, or `-1`.
pub open spec fn find_lf_group(s: Seq<LfGroupView>, idx: int) -> int
    decreases s.len(),
{
    if s.len() == 0 {
        -1
    } else if s[0].idx == idx {
        0
    } else {
        let r = find_lf_group(s.drop_first(), idx);
        if r == -1 {
            -1
        } else {
            r + 1
        }
    }
}

/// Every shape (position and transform size) of `b` also occurs in `a`:
/// `b` refines blocks that `a` already declares.
pub open spec fn shapes_sub(b: Seq<BlockView>, a: Seq<BlockView>) -> bool {
    forall|j: int| 0 <= j < b.len() ==> crate::coeff::block_shape_in(#[trigger] b[j], a)
}

/// A collection of LF groups is usable for a frame of group dimension `d`:
/// indices are unique and every grid is a well-formed `d` by `d` map, one
/// sample per 8x8-pixel block of the LF group's area.
pub open spec fn lf_groups_ok(lfv: Seq<LfGroupView>, d: int) -> bool {
    &&& forall|i: int, j: int| 0 <= i < j < lfv.len() ==> lfv[i].idx != lfv[j].idx
    &&& forall|i: int|
        0 <= i < lfv.len() ==> {
            let g = #[trigger] lfv[i];
            &&& g.cy.wf() && g.cx.wf() && g.cb.wf()
            &&& g.x_from_y.wf() && g.b_from_y.wf()
            &&& g.cy.width == d && g.cy.height == d
            &&& g.cx.width == d && g.cx.height == d
            &&& g.cb.width == d && g.cb.height == d
            &&& g.x_from_y.width == d && g.x_from_y.height == d
            &&& g.b_from_y.width == d && g.b_from_y.height == d
        }
}

/// The LF groups `lfv` cover every spatial group that `frame`'s pass data
/// touches.
pub open spec fn lf_serves(frame: Frame, lfv: Seq<LfGroupView>) -> bool {
    forall|i: int|
        0 <= i < frame.passes@.len() ==> find_lf_group(
            lfv,
            frame.header.spec_lf_group_idx((#[trigger] frame.passes@[i]@).group_idx),
        ) >= 0
}

impl Frame {
    /// Mathematical image of this frame's own LF groups.
    pub open spec fn lf_view(self) -> Seq<LfGroupView> {
        self.lf_groups@.map_values(|g: LfGroup| g@)
    }

    /// A coded block stays inside its spatial group.
    pub open spec fn block_in_bounds(self, b: BlockView) -> bool {
        &&& 0 <= b.bx && 0 <= b.by
        &&& 8 * (b.bx + b.data.dct_select.spec_width_blocks()) <= self.header.group_dim
        &&& 8 * (b.by + b.data.dct_select.spec_height_blocks()) <= self.header.group_dim
    }

    /// Validity of the pass data: entries are strictly ordered by
    /// `(pass, group)`, every entry names a real group whose LF group is
    /// present, every contributed set is well-formed and in bounds, and a
    /// later pass only refines block shapes an earlier pass declared.
    pub open spec fn passes_wf(self) -> bool {
        let ps = self.passes@;
        &&& forall|i: int, j: int|
            0 <= i < j < ps.len() ==> {
                let a = #[trigger] ps[i]@;
                let b = #[trigger] ps[j]@;
                a.pass_idx < b.pass_idx || (a.pass_idx == b.pass_idx && a.group_idx < b.group_idx)
            }
        &&& forall|i: int|
            0 <= i < ps.len() ==> {
                let p = #[trigger] ps[i]@;
                &&& 0 <= p.group_idx < self.header.spec_num_groups()
                &&& all_wf(p.blocks)
                &&& unique_positions(p.blocks)
                &&& forall|t: int|
                    0 <= t < p.blocks.len() ==> self.block_in_bounds(#[trigger] p.blocks[t])
            }
        &&& forall|i: int, j: int|
            0 <= i < j < ps.len() && (#[trigger] ps[i]@).group_idx == (#[trigger] ps[j]@).group_idx
                ==> shapes_sub(ps[j]@.blocks, ps[i]@.blocks)
    }

    /// Structural validity of a frame.  A frame that reuses another frame's
    /// LF data need not carry LF groups covering its own pass data.
    pub open spec fn wf(self) -> bool {
        &&& self.header.wf()
        &&& lf_groups_ok(self.lf_view(), self.header.group_dim as int)
        &&& self.passes_wf()
        &&& (!self.header.use_lf_frame ==> lf_serves(self, self.lf_view()))
    }
}

/// Index of the LF group `idx` among `groups`, if present.
pub fn lookup_lf_group(groups: &Vec<LfGroup>, idx: u64) -> (r: Option<usize>)
    ensures
        match r {
            Some(i) => i < groups@.len() && i == find_lf_group(
                groups@.map_values(|g: LfGroup| g@),
                idx as int,
            ),
            None => find_lf_group(groups@.map_values(|g: LfGroup| g@), idx as int) == -1,
        },
{
    let ghost s = groups@.map_values(|g: LfGroup| g@);
    let n = groups.len();
    let mut k: usize = 0;
    while k < n
        invariant
            k <= n,
            n == groups@.len(),
            s == groups@.map_values(|g: LfGroup| g@),
            forall|j: int| 0 <= j < k ==> s[j].idx != idx as int,
        decreases n - k,
    {
        if groups[k].idx == idx {
            proof {
                lemma_find_lf_group_at(s, idx as int, k as int);
            }
            return Some(k);
        }
        k = k + 1;
    }
    proof {
        lemma_find_lf_group_none(s, idx as int);
    }
    None
}

proof fn lemma_find_lf_group_at(s: Seq<LfGroupView>, idx: int, i: int)
    requires
        0 <= i < s.len(),
        s[i].idx == idx,
        forall|j: int| 0 <= j < i ==> s[j].idx != idx,
    ensures
        find_lf_group(s, idx) == i,
    decreases i,
{
    if i == 0 {
    } else {
        let t = s.drop_first();
        assert(t[i - 1] == s[i]);
        assert forall|j: int| 0 <= j < i - 1 implies t[j].idx != idx by {
            assert(t[j] == s[j + 1]);
        }
        lemma_find_lf_group_at(t, idx, i - 1);
    }
}

proof fn lemma_find_lf_group_none(s: Seq<LfGroupView>, idx: int)
    requires
        forall|j: int| 0 <= j < s.len() ==> s[j].idx != idx,
    ensures
        find_lf_group(s, idx) == -1,
    decreases s.len(),
{
    if s.len() == 0 {
    } else {
        let t = s.drop_first();
        assert forall|j: int| 0 <= j < t.len() implies t[j].idx != idx by {
            assert(t[j] == s[j + 1]);
        }
        lemma_find_lf_group_none(t, idx);
    }
}

} // verus!
