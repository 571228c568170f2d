//! The VarDCT reconstruction pipeline, integer side: merging the encoding
//! passes' HF contributions, planning every coded block's place in the
//! frame, resolving its chroma-from-luma factors, and assembling the blocks
//! in raster order.
//!
//! The numeric tail of the pipeline (dequantization, correction arithmetic,
//! LLF seeding values, the inverse transform) consumes the assembled buffer
//! downstream; everything it needs that is integer-valued is resolved here.

use vstd::multiset::Multiset;
use vstd::prelude::*;

use crate::coeff::{
    all_wf, block_shape_in, compatible, find_block, merge_block, merge_seq, unique_positions,
    BlockView, DctSelect, HfCoeffSet, PassView,
};
use crate::error::Error;
use crate::frame::{
    find_lf_group, lf_groups_ok, lf_serves, lookup_lf_group, shapes_sub, Frame, LfGroup,
    LfGroupView, PassGroup,
};
use crate::grid::{CoeffGrid, GridView};
use crate::header::MAX_DIMENSION;

verus! {

/// Mathematical image of a [`PlannedBlock`].
pub struct PlannedView {
    /// Absolute raster position of the block in the frame, in pixels.
    pub x: int,
    pub y: int,
    pub dct_select: DctSelect,
    /// Merged quantized HF coefficients, channel order luma, chroma-x,
    /// chroma-b.
    pub cy: GridView,
    pub cx: GridView,
    pub cb: GridView,
    /// The enclosing LF group and the block's pixel offset inside it.
    pub lf_group_idx: int,
    pub lf_left: int,
    pub lf_top: int,
    /// Per-block chroma-from-luma factors, looked up at the block's coarse
    /// position in the enclosing LF group's factor maps.
    pub cfl_x: i32,
    pub cfl_b: i32,
}

/// One coded block, fully placed: where it sits in the frame, which
/// transform it uses, its merged quantized coefficients, and the integer
/// inputs of the numeric stage.
#[derive(Debug)]
pub struct PlannedBlock {
    pub x: u32,
    pub y: u32,
    pub dct_select: DctSelect,
    pub cy: CoeffGrid,
    pub cx: CoeffGrid,
    pub cb: CoeffGrid,
    pub lf_group_idx: u64,
    pub lf_left: u32,
    pub lf_top: u32,
    pub cfl_x: i32,
    pub cfl_b: i32,
}

impl View for PlannedBlock {
    type V = PlannedView;

    open spec fn view(&self) -> PlannedView {
        PlannedView {
            x: self.x as int,
            y: self.y as int,
            dct_select: self.dct_select,
            cy: self.cy@,
            cx: self.cx@,
            cb: self.cb@,
            lf_group_idx: self.lf_group_idx as int,
            lf_left: self.lf_left as int,
            lf_top: self.lf_top as int,
            cfl_x: self.cfl_x,
            cfl_b: self.cfl_b,
        }
    }
}

/// Raster order on planned blocks: by row, then by column.
pub open spec fn raster_le(a: PlannedView, b: PlannedView) -> bool {
    a.y < b.y || (a.y == b.y && a.x <= b.x)
}

/// The sequence is in raster order.
pub open spec fn sorted_raster(s: Seq<PlannedView>) -> bool {
    forall|i: int, j: int| 0 <= i < j < s.len() ==> raster_le(#[trigger] s[i], #[trigger] s[j])
}

/// The merged coefficient set of spatial group `g` after the first `e` pass
/// entries, combined in entry order (ascending pass order for a well-formed
/// frame).
pub open spec fn merged_prefix(ps: Seq<PassView>, g: int, e: int) -> Seq<BlockView>
    decreases e,
{
    if e <= 0 {
        Seq::empty()
    } else {
        let r = merged_prefix(ps, g, e - 1);
        if ps[e - 1].group_idx == g {
            merge_seq(r, ps[e - 1].blocks)
        } else {
            r
        }
    }
}

/// The final merged coefficient set of spatial group `g`.
pub open spec fn merged_group(ps: Seq<PassView>, g: int) -> Seq<BlockView> {
    merged_prefix(ps, g, ps.len() as int)
}

/// Two block sequences agree position-for-position on block positions and
/// transform shapes.
pub open spec fn shape_eq(a: Seq<BlockView>, b: Seq<BlockView>) -> bool {
    &&& a.len() == b.len()
    &&& forall|i: int|
        0 <= i < a.len() ==> (#[trigger] a[i]).bx == b[i].bx && a[i].by == b[i].by
            && a[i].data.dct_select == b[i].data.dct_select
}

/// First entry among the first `e` that contributes to group `g`, or `-1`.
pub open spec fn first_entry_for(ps: Seq<PassView>, g: int, e: int) -> int
    decreases e,
{
    if e <= 0 {
        -1
    } else {
        let r = first_entry_for(ps, g, e - 1);
        if r >= 0 {
            r
        } else if ps[e - 1].group_idx == g {
            e - 1
        } else {
            -1
        }
    }
}

/// Where a merged block of group `g` is placed, and with which integer
/// inputs, given the frame and the LF groups serving it.
pub open spec fn spec_planned_block(
    frame: Frame,
    lfv: Seq<LfGroupView>,
    g: int,
    b: BlockView,
) -> PlannedView {
    let d = frame.header.group_dim as int;
    let per_row = frame.header.spec_groups_per_row();
    let group_row = g / per_row;
    let group_col = g % per_row;
    let lf_idx = frame.header.spec_lf_group_idx(g);
    let lf_left = (group_col % 8) * d + 8 * b.bx;
    let lf_top = (group_row % 8) * d + 8 * b.by;
    let lfg = lfv[find_lf_group(lfv, lf_idx)];
    PlannedView {
        x: group_col * d + 8 * b.bx,
        y: group_row * d + 8 * b.by,
        dct_select: b.data.dct_select,
        cy: b.data.cy,
        cx: b.data.cx,
        cb: b.data.cb,
        lf_group_idx: lf_idx,
        lf_left: lf_left,
        lf_top: lf_top,
        cfl_x: lfg.x_from_y.at(lf_left / 8, lf_top / 8),
        cfl_b: lfg.b_from_y.at(lf_left / 8, lf_top / 8),
    }
}

/// All planned blocks of group `g`, in merged-set order.
pub open spec fn spec_planned_group(frame: Frame, lfv: Seq<LfGroupView>, g: int) -> Seq<
    PlannedView,
> {
    merged_group(frame.passes@.map_values(|p: crate::frame::PassGroup| p@), g).map_values(
        |b: BlockView| spec_planned_block(frame, lfv, g, b),
    )
}

/// All planned blocks of the first `n` groups, group by group.
pub open spec fn planned_upto(frame: Frame, lfv: Seq<LfGroupView>, n: int) -> Seq<PlannedView>
    decreases n,
{
    if n <= 0 {
        Seq::empty()
    } else {
        planned_upto(frame, lfv, n - 1) + spec_planned_group(frame, lfv, n - 1)
    }
}

/// A planned block's grids are sized to its transform shape.
pub open spec fn planned_wf(p: PlannedView) -> bool {
    &&& p.cy.wf() && p.cx.wf() && p.cb.wf()
    &&& p.cy.width == 8 * p.dct_select.spec_width_blocks()
    &&& p.cy.height == 8 * p.dct_select.spec_height_blocks()
    &&& p.cx.width == p.cy.width && p.cx.height == p.cy.height
    &&& p.cb.width == p.cy.width && p.cb.height == p.cy.height
}

/// What the pipeline promises of a successfully assembled buffer for
/// `frame`, served by the LF groups `lfv`: the right subsampling flag,
/// exactly the planned blocks of all spatial groups, raster order, and
/// well-formed per-block grids.
pub open spec fn spec_render_ok(
    frame: Frame,
    lfv: Seq<LfGroupView>,
    subsampled: bool,
    bv: Seq<PlannedView>,
) -> bool {
    &&& subsampled == frame.header.spec_subsampled()
    &&& sorted_raster(bv)
    &&& bv.to_multiset() == planned_upto(frame, lfv, frame.header.spec_num_groups()).to_multiset()
    &&& forall|i: int| 0 <= i < bv.len() ==> planned_wf(#[trigger] bv[i])
}

/// The assembled output of the pipeline's integer side: every coded block
/// of the frame, merged across passes, placed and ordered, with the flag
/// that tells the numeric stage whether chroma-from-luma correction
/// applies.
///
/// When `subsampled` is true the correction is disabled: the numeric stage
/// must leave the chroma channels unchanged by it, so the buffer's
/// coefficients are already final up to dequantization and the transform.
#[derive(Debug)]
pub struct CoefficientBuffer {
    pub subsampled: bool,
    pub blocks: Vec<PlannedBlock>,
}

impl CoefficientBuffer {
    pub open spec fn blocks_view(self) -> Seq<PlannedView> {
        self.blocks@.map_values(|p: PlannedBlock| p@)
    }
}

proof fn lemma_find_block_no_match(s: Seq<BlockView>, bx: int, by: int)
    requires
        find_block(s, bx, by) == -1,
    ensures
        forall|j: int| 0 <= j < s.len() ==> !((#[trigger] s[j]).bx == bx && s[j].by == by),
    decreases s.len(),
{
    if s.len() == 0 {
    } else {
        assert(!(s[0].bx == bx && s[0].by == by));
        crate::coeff::lemma_find_block_props(s.drop_first(), bx, by);
        lemma_find_block_no_match(s.drop_first(), bx, by);
        assert forall|j: int| 0 <= j < s.len() implies !((#[trigger] s[j]).bx == bx && s[j].by
            == by) by {
            if j > 0 {
                assert(s.drop_first()[j - 1] == s[j]);
            }
        }
    }
}

proof fn lemma_find_block_found(s: Seq<BlockView>, bx: int, by: int, i: int)
    requires
        0 <= i < s.len(),
        s[i].bx == bx && s[i].by == by,
    ensures
        find_block(s, bx, by) >= 0,
{
    crate::coeff::lemma_find_block_props(s, bx, by);
    if find_block(s, bx, by) == -1 {
        lemma_find_block_no_match(s, bx, by);
    }
}

/// A contribution whose block positions are all new is taken as-is:
/// merging it appends its blocks unchanged.  In particular a spatial group
/// seen in only one pass keeps exactly that pass's blocks.
pub proof fn lemma_merge_seq_disjoint(a: Seq<BlockView>, b: Seq<BlockView>)
    requires
        unique_positions(b),
        forall|j: int| 0 <= j < b.len() ==> find_block(a, (#[trigger] b[j]).bx, b[j].by) == -1,
    ensures
        merge_seq(a, b) == a + b,
    decreases b.len(),
{
    if b.len() == 0 {
        assert(merge_seq(a, b) == a);
        assert(a + b =~= a);
    } else {
        let x = b[0];
        let a1 = merge_block(a, x);
        assert(a1 == a.push(x));
        let b1 = b.drop_first();
        assert(unique_positions(b1)) by {
            assert forall|i: int, j: int| 0 <= i < j < b1.len() implies !((#[trigger] b1[i]).bx
                == (#[trigger] b1[j]).bx && b1[i].by == b1[j].by) by {
                assert(b1[i] == b[i + 1] && b1[j] == b[j + 1]);
            }
        }
        assert forall|j: int| 0 <= j < b1.len() implies find_block(
            a1,
            (#[trigger] b1[j]).bx,
            b1[j].by,
        ) == -1 by {
            assert(b1[j] == b[j + 1]);
            lemma_find_block_no_match(a, b[j + 1].bx, b[j + 1].by);
            assert(!(x.bx == b[j + 1].bx && x.by == b[j + 1].by));
            assert forall|t: int| 0 <= t < a1.len() implies !((#[trigger] a1[t]).bx == b1[j].bx
                && a1[t].by == b1[j].by) by {
                if t < a.len() {
                    assert(a1[t] == a[t]);
                } else {
                    assert(a1[t] == x);
                }
            }
            lemma_find_block_none_gen(a1, b1[j].bx, b1[j].by);
        }
        lemma_merge_seq_disjoint(a1, b1);
        assert(a1 + b1 =~= a + b);
    }
}

/// `find_block` is `-1` when nothing matches.
proof fn lemma_find_block_none_gen(s: Seq<BlockView>, bx: int, by: int)
    requires
        forall|j: int| 0 <= j < s.len() ==> !((#[trigger] s[j]).bx == bx && s[j].by == by),
    ensures
        find_block(s, bx, by) == -1,
    decreases s.len(),
{
    if s.len() == 0 {
    } else {
        let t = s.drop_first();
        assert forall|j: int| 0 <= j < t.len() implies !((#[trigger] t[j]).bx == bx && t[j].by
            == by) by {
            assert(t[j] == s[j + 1]);
        }
        lemma_find_block_none_gen(t, bx, by);
    }
}

/// Shape agreement carries shape membership across.
proof fn lemma_shape_in_transfer(t: BlockView, x: Seq<BlockView>, y: Seq<BlockView>)
    requires
        shape_eq(x, y),
        block_shape_in(t, y),
    ensures
        block_shape_in(t, x),
{
    let j = choose|j: int|
        0 <= j < y.len() && y[j].bx == t.bx && y[j].by == t.by && y[j].data.dct_select
            == t.data.dct_select;
    assert(0 <= j < x.len() && x[j].bx == t.bx && x[j].by == t.by && x[j].data.dct_select
        == t.data.dct_select);
}

/// Refining only declared shapes never appends, and keeps every position
/// and transform shape where it is.
proof fn lemma_merge_shape_preserved(a: Seq<BlockView>, b: Seq<BlockView>)
    requires
        shapes_sub(b, a),
    ensures
        shape_eq(merge_seq(a, b), a),
    decreases b.len(),
{
    if b.len() == 0 {
        assert(shape_eq(merge_seq(a, b), a));
    } else {
        let x = b[0];
        assert(block_shape_in(x, a));
        let w = choose|j: int|
            0 <= j < a.len() && a[j].bx == x.bx && a[j].by == x.by && a[j].data.dct_select
                == x.data.dct_select;
        lemma_find_block_found(a, x.bx, x.by, w);
        crate::coeff::lemma_find_block_props(a, x.bx, x.by);
        let a1 = merge_block(a, x);
        assert(shape_eq(a1, a));
        let b1 = b.drop_first();
        assert forall|j: int| 0 <= j < b1.len() implies block_shape_in(#[trigger] b1[j], a1) by {
            assert(b1[j] == b[j + 1]);
            lemma_shape_in_transfer(b[j + 1], a1, a);
        }
        lemma_merge_shape_preserved(a1, b1);
        assert(shape_eq(merge_seq(a1, b1), a1));
        assert(shape_eq(merge_seq(a, b), a));
    }
}

/// Shape containment plus unique positions on the accumulator give the
/// transform-shape agreement that merging requires.
proof fn lemma_compat_from_sub(a: Seq<BlockView>, b: Seq<BlockView>)
    requires
        shapes_sub(b, a),
        unique_positions(a),
    ensures
        compatible(a, b),
{
    assert forall|i: int, j: int|
        0 <= i < a.len() && 0 <= j < b.len() && a[i].bx == b[j].bx && a[i].by == b[j].by
        implies a[i].data.dct_select == b[j].data.dct_select by {
        assert(block_shape_in(b[j], a));
        let w = choose|w: int|
            0 <= w < a.len() && a[w].bx == b[j].bx && a[w].by == b[j].by && a[w].data.dct_select
                == b[j].data.dct_select;
        if w != i {
            if w < i {
                assert(!(a[w].bx == a[i].bx && a[w].by == a[i].by));
            } else {
                assert(!(a[i].bx == a[w].bx && a[i].by == a[w].by));
            }
        }
    }
}

/// The first entry for a group, when there is one, is an in-range entry of
/// that group.
proof fn lemma_first_entry_props(ps: Seq<PassView>, g: int, e: int)
    requires
        first_entry_for(ps, g, e) >= 0,
        e <= ps.len(),
    ensures
        0 <= first_entry_for(ps, g, e) < e,
        ps[first_entry_for(ps, g, e)].group_idx == g,
    decreases e,
{
    if e > 0 && first_entry_for(ps, g, e - 1) >= 0 {
        lemma_first_entry_props(ps, g, e - 1);
    }
}

/// Shape agreement keeps positions unique.
proof fn lemma_unique_from_shape_eq(x: Seq<BlockView>, y: Seq<BlockView>)
    requires
        shape_eq(x, y),
        unique_positions(y),
    ensures
        unique_positions(x),
{
    assert forall|i: int, j: int| 0 <= i < j < x.len() implies !((#[trigger] x[i]).bx
        == (#[trigger] x[j]).bx && x[i].by == x[j].by) by {
        assert(!(y[i].bx == y[j].bx && y[i].by == y[j].by));
    }
}

/// Shape agreement is transitive.
proof fn lemma_shape_eq_trans(x: Seq<BlockView>, y: Seq<BlockView>, z: Seq<BlockView>)
    requires
        shape_eq(x, y),
        shape_eq(y, z),
    ensures
        shape_eq(x, z),
{
    assert forall|i: int| 0 <= i < x.len() implies (#[trigger] x[i]).bx == z[i].bx && x[i].by
        == z[i].by && x[i].data.dct_select == z[i].data.dct_select by {
        assert(x[i].bx == y[i].bx);
        assert(y[i].bx == z[i].bx);
    }
}

/// Merge every pass's contribution for spatial group `g`, in entry order —
/// ascending pass order for a well-formed frame.
fn merge_group_passes(frame: &Frame, g: u64) -> (r: HfCoeffSet)
    requires
        frame.passes_wf(),
    ensures
        ({
            let psv = frame.passes@.map_values(|p: PassGroup| p@);
            let fe = first_entry_for(psv, g as int, psv.len() as int);
            &&& r@ == merged_group(psv, g as int)
            &&& all_wf(r@)
            &&& unique_positions(r@)
            &&& (fe == -1 ==> r@ == Seq::<BlockView>::empty())
            &&& (fe >= 0 ==> shape_eq(r@, psv[fe].blocks))
        }),
{
    let ghost psv = frame.passes@.map_values(|p: PassGroup| p@);
    let mut acc = HfCoeffSet::new();
    let n = frame.passes.len();
    let mut e: usize = 0;
    while e < n
        invariant
            e <= n,
            n == frame.passes@.len(),
            psv == frame.passes@.map_values(|p: PassGroup| p@),
            frame.passes_wf(),
            acc@ == merged_prefix(psv, g as int, e as int),
            all_wf(acc@),
            unique_positions(acc@),
            first_entry_for(psv, g as int, e as int) == -1 ==> acc@
                == Seq::<BlockView>::empty(),
            first_entry_for(psv, g as int, e as int) >= 0 ==> shape_eq(
                acc@,
                psv[first_entry_for(psv, g as int, e as int)].blocks,
            ),
        decreases n - e,
    {
        let ghost fe = first_entry_for(psv, g as int, e as int);
        let ghost pre = acc@;
        let ghost entry = psv[e as int].blocks;
        proof {
            assert(psv[e as int] == frame.passes@[e as int]@);
            assert(frame.passes@[e as int].coeff@ == entry);
        }
        if frame.passes[e].group_idx == g {
            proof {
                assert(all_wf(entry) && unique_positions(entry));
                if fe == -1 {
                    assert(compatible(pre, entry));
                    assert forall|j: int| 0 <= j < entry.len() implies find_block(
                        pre,
                        (#[trigger] entry[j]).bx,
                        entry[j].by,
                    ) == -1 by {
                        assert(pre.len() == 0);
                    }
                } else {
                    lemma_first_entry_props(psv, g as int, e as int);
                    assert(psv[fe] == frame.passes@[fe]@);
                    assert(shapes_sub(entry, psv[fe].blocks));
                    assert forall|j: int| 0 <= j < entry.len() implies block_shape_in(
                        #[trigger] entry[j],
                        pre,
                    ) by {
                        lemma_shape_in_transfer(entry[j], pre, psv[fe].blocks);
                    }
                    lemma_compat_from_sub(pre, entry);
                }
            }
            acc.merge_from(&frame.passes[e].coeff);
            proof {
                if fe == -1 {
                    lemma_merge_seq_disjoint(pre, entry);
                    assert(acc@ =~= entry);
                    assert(shape_eq(acc@, entry));
                    lemma_unique_from_shape_eq(acc@, entry);
                } else {
                    lemma_merge_shape_preserved(pre, entry);
                    lemma_unique_from_shape_eq(acc@, pre);
                    lemma_shape_eq_trans(acc@, pre, psv[fe].blocks);
                }
            }
        }
        e = e + 1;
        proof {
            assert(acc@ == merged_prefix(psv, g as int, e as int));
        }
    }
    proof {
        assert(merged_prefix(psv, g as int, n as int) == merged_group(psv, g as int));
    }
    acc
}

/// Bounded quotient: `x < 8 * d` gives `x / 8 < d`.
proof fn lemma_div8_bound(x: int, d: int)
    requires
        0 <= x < 8 * d,
    ensures
        0 <= x / 8 < d,
{
    assert(0 <= x / 8 < d) by (nonlinear_arith)
        requires
            0 <= x < 8 * d,
    ;
}

/// Place every merged block of spatial group `g`: absolute position,
/// offsets inside the enclosing LF group, and the chroma-from-luma factors
/// looked up at the block's coarse position.
fn plan_group(frame: &Frame, lf_groups: &Vec<LfGroup>, g: u64, acc: &HfCoeffSet) -> (r: Vec<
    PlannedBlock,
>)
    requires
        frame.header.wf(),
        g < frame.header.spec_num_groups(),
        lf_groups_ok(
            lf_groups@.map_values(|lg: LfGroup| lg@),
            frame.header.group_dim as int,
        ),
        all_wf(acc@),
        forall|t: int| 0 <= t < acc@.len() ==> frame.block_in_bounds(#[trigger] acc@[t]),
        acc@.len() > 0 ==> find_lf_group(
            lf_groups@.map_values(|lg: LfGroup| lg@),
            frame.header.spec_lf_group_idx(g as int),
        ) >= 0,
    ensures
        ({
            let lfv = lf_groups@.map_values(|lg: LfGroup| lg@);
            r@.map_values(|p: PlannedBlock| p@) == acc@.map_values(
                |b: BlockView| spec_planned_block(*frame, lfv, g as int, b),
            )
        }),
        forall|t: int| 0 <= t < r@.len() ==> planned_wf((#[trigger] r@[t])@),
{
    let ghost lfv = lf_groups@.map_values(|lg: LfGroup| lg@);
    let mut out: Vec<PlannedBlock> = Vec::new();
    let m = acc.blocks.len();
    if m == 0 {
        proof {
            assert(out@.map_values(|p: PlannedBlock| p@) =~= acc@.map_values(
                |b: BlockView| spec_planned_block(*frame, lfv, g as int, b),
            ));
        }
        return out;
    }
    let d = frame.header.group_dim;
    let per_row = frame.header.groups_per_row() as u64;
    let rows = frame.header.group_rows() as u64;
    proof {
        crate::header::lemma_div_in_range(g as int, per_row as int, rows as int);
        assert(((g as int) % (per_row as int)) < per_row as int) by (nonlinear_arith)
            requires
                0 < per_row as int,
        ;
    }
    let group_row = g / per_row;
    let group_col = g % per_row;
    let lf_idx = frame.header.lf_group_idx_from_group_idx(g);
    let lfi = match lookup_lf_group(lf_groups, lf_idx) {
        Some(i) => i,
        None => {
            proof {
                assert(acc@.len() > 0);
                assert(false);
            }
            0
        },
    };
    let base_x = (group_col as u32) * d;
    let base_y = (group_row as u32) * d;
    let base_lf_left = ((group_col % 8) as u32) * d;
    let base_lf_top = ((group_row % 8) as u32) * d;
    proof {
        crate::header::lemma_mul_le(group_col as int, d as int, MAX_DIMENSION as int, 1024);
        crate::header::lemma_mul_le(group_row as int, d as int, MAX_DIMENSION as int, 1024);
        assert(group_col as int % 8 < 8 && group_row as int % 8 < 8) by (nonlinear_arith);
        assert(group_col as int % 8 >= 0 && group_row as int % 8 >= 0) by (nonlinear_arith);
    }
    let mut t: usize = 0;
    while t < m
        invariant
            t <= m,
            m == acc@.len(),
            out@.len() == t,
            lfv == lf_groups@.map_values(|lg: LfGroup| lg@),
            frame.header.wf(),
            g < frame.header.spec_num_groups(),
            lf_groups_ok(lfv, frame.header.group_dim as int),
            all_wf(acc@),
            forall|i: int| 0 <= i < acc@.len() ==> frame.block_in_bounds(#[trigger] acc@[i]),
            lfi < lfv.len(),
            lfi == find_lf_group(lfv, frame.header.spec_lf_group_idx(g as int)),
            d == frame.header.group_dim,
            per_row == frame.header.spec_groups_per_row(),
            group_row == g as int / per_row as int,
            group_col == g as int % per_row as int,
            group_col < per_row <= MAX_DIMENSION,
            group_row < rows <= MAX_DIMENSION,
            lf_idx == frame.header.spec_lf_group_idx(g as int),
            base_x == group_col * d,
            base_y == group_row * d,
            base_lf_left == (group_col as int % 8) * d,
            base_lf_top == (group_row as int % 8) * d,
            base_x <= MAX_DIMENSION as int * 1024,
            base_y <= MAX_DIMENSION as int * 1024,
            base_lf_left <= 7 * d,
            base_lf_top <= 7 * d,
            forall|i: int|
                0 <= i < t ==> (#[trigger] out@[i])@ == spec_planned_block(
                    *frame,
                    lfv,
                    g as int,
                    acc@[i],
                ),
            forall|i: int| 0 <= i < t ==> planned_wf((#[trigger] out@[i])@),
        decreases m - t,
    {
        let b = &acc.blocks[t];
        let ghost bv = acc@[t as int];
        proof {
            assert(bv == b@);
            assert(frame.block_in_bounds(bv));
            assert(bv.data.wf());
            assert(8 * bv.bx <= d - 8 && 8 * bv.by <= d - 8);
        }
        let px = 8 * b.bx;
        let py = 8 * b.by;
        let x = base_x + px;
        let y = base_y + py;
        let lf_left = base_lf_left + px;
        let lf_top = base_lf_top + py;
        proof {
            assert(lf_left < 8 * d && lf_top < 8 * d);
            lemma_div8_bound(lf_left as int, d as int);
            lemma_div8_bound(lf_top as int, d as int);
            assert(lfv[lfi as int] == lf_groups@[lfi as int]@);
        }
        let lfg = &lf_groups[lfi];
        let cfl_x = lfg.x_from_y.get(lf_left / 8, lf_top / 8);
        let cfl_b = lfg.b_from_y.get(lf_left / 8, lf_top / 8);
        let p = PlannedBlock {
            x,
            y,
            dct_select: b.data.dct_select,
            cy: b.data.cy.duplicate(),
            cx: b.data.cx.duplicate(),
            cb: b.data.cb.duplicate(),
            lf_group_idx: lf_idx,
            lf_left,
            lf_top,
            cfl_x,
            cfl_b,
        };
        proof {
            assert(p@ == spec_planned_block(*frame, lfv, g as int, bv));
            assert(planned_wf(p@));
        }
        out.push(p);
        t = t + 1;
    }
    proof {
        assert(out@.map_values(|p: PlannedBlock| p@) =~= acc@.map_values(
            |b: BlockView| spec_planned_block(*frame, lfv, g as int, b),
        ));
    }
    out
}

/// Merge and place every coded block of every spatial group, group by
/// group.  The result is the whole frame's assembly, not yet ordered.
fn plan_frame(frame: &Frame, lf_groups: &Vec<LfGroup>) -> (r: Vec<PlannedBlock>)
    requires
        frame.header.wf(),
        frame.passes_wf(),
        lf_groups_ok(
            lf_groups@.map_values(|lg: LfGroup| lg@),
            frame.header.group_dim as int,
        ),
        lf_serves(*frame, lf_groups@.map_values(|lg: LfGroup| lg@)),
    ensures
        ({
            let lfv = lf_groups@.map_values(|lg: LfGroup| lg@);
            r@.map_values(|p: PlannedBlock| p@) == planned_upto(
                *frame,
                lfv,
                frame.header.spec_num_groups(),
            )
        }),
        forall|i: int| 0 <= i < r@.len() ==> planned_wf((#[trigger] r@[i])@),
{
    let ghost lfv = lf_groups@.map_values(|lg: LfGroup| lg@);
    let ghost psv = frame.passes@.map_values(|p: PassGroup| p@);
    let ng = frame.header.num_groups();
    let mut out: Vec<PlannedBlock> = Vec::new();
    let mut g: u64 = 0;
    while g < ng
        invariant
            g <= ng,
            ng == frame.header.spec_num_groups(),
            lfv == lf_groups@.map_values(|lg: LfGroup| lg@),
            psv == frame.passes@.map_values(|p: PassGroup| p@),
            frame.header.wf(),
            frame.passes_wf(),
            lf_groups_ok(lfv, frame.header.group_dim as int),
            lf_serves(*frame, lfv),
            out@.map_values(|p: PlannedBlock| p@) == planned_upto(*frame, lfv, g as int),
            forall|i: int| 0 <= i < out@.len() ==> planned_wf((#[trigger] out@[i])@),
        decreases ng - g,
    {
        let acc = merge_group_passes(frame, g);
        let ghost fe = first_entry_for(psv, g as int, psv.len() as int);
        proof {
            if fe >= 0 {
                lemma_first_entry_props(psv, g as int, psv.len() as int);
                assert(psv[fe] == frame.passes@[fe]@);
                assert forall|t: int| 0 <= t < acc@.len() implies frame.block_in_bounds(
                    #[trigger] acc@[t],
                ) by {
                    assert(frame.block_in_bounds(psv[fe].blocks[t]));
                    assert(acc@[t].bx == psv[fe].blocks[t].bx);
                }
                assert(find_lf_group(
                    lfv,
                    frame.header.spec_lf_group_idx(psv[fe].group_idx),
                ) >= 0);
            } else {
                assert(acc@.len() == 0);
            }
        }
        let mut planned = plan_group(frame, lf_groups, g, &acc);
        let ghost out_pre = out@;
        let ghost planned_v = planned@;
        out.append(&mut planned);
        g = g + 1;
        proof {
            let f = |p: PlannedBlock| p@;
            let gg = g as int - 1;
            assert(out@ == out_pre + planned_v);
            assert(acc@ == merged_group(psv, gg));
            assert(planned_v.map_values(f) == acc@.map_values(
                |b: BlockView| spec_planned_block(*frame, lfv, gg, b),
            ));
            assert(spec_planned_group(*frame, lfv, gg) == merged_group(psv, gg).map_values(
                |b: BlockView| spec_planned_block(*frame, lfv, gg, b),
            ));
            assert(out@.map_values(f) =~= out_pre.map_values(f) + planned_v.map_values(f));
            assert(planned_upto(*frame, lfv, g as int) == planned_upto(*frame, lfv, gg)
                + spec_planned_group(*frame, lfv, gg));
            assert(out@.map_values(f) == planned_upto(*frame, lfv, g as int));
            assert forall|i: int| 0 <= i < out@.len() implies planned_wf(
                (#[trigger] out@[i])@,
            ) by {
                if i < out_pre.len() {
                    assert(out@[i] == out_pre[i]);
                } else {
                    assert(out@[i] == planned_v[i - out_pre.len()]);
                    assert(planned_wf(planned_v[i - out_pre.len()]@));
                }
            }
        }
    }
    out
}

/// Sort the assembled blocks into raster order, keeping exactly the same
/// blocks.
fn sort_raster(v: Vec<PlannedBlock>) -> (r: Vec<PlannedBlock>)
    ensures
        sorted_raster(r@.map_values(|p: PlannedBlock| p@)),
        r@.map_values(|p: PlannedBlock| p@).to_multiset() == v@.map_values(
            |p: PlannedBlock| p@,
        ).to_multiset(),
{
    broadcast use vstd::seq_lib::group_to_multiset_ensures;

    let ghost orig = v@;
    let mut rest = v;
    let mut out: Vec<PlannedBlock> = Vec::new();
    while rest.len() > 0
        invariant
            sorted_raster(out@.map_values(|p: PlannedBlock| p@)),
            forall|i: int, j: int|
                0 <= i < out@.len() && 0 <= j < rest@.len() ==> raster_le(
                    (#[trigger] out@[i])@,
                    (#[trigger] rest@[j])@,
                ),
            out@.map_values(|p: PlannedBlock| p@).to_multiset().add(rest@.map_values(|p: PlannedBlock| p@).to_multiset())
                =~= orig.map_values(|p: PlannedBlock| p@).to_multiset(),
        decreases rest@.len(),
    {
        let mut mi: usize = 0;
        let mut k: usize = 1;
        while k < rest.len()
            invariant
                mi < k <= rest@.len(),
                rest@.len() > 0,
                forall|j: int| 0 <= j < k ==> raster_le((#[trigger] rest@[mi as int])@, (#[trigger] rest@[j])@),
            decreases rest@.len() - k,
        {
            if rest[k].y < rest[mi].y || (rest[k].y == rest[mi].y && rest[k].x < rest[mi].x) {
                mi = k;
            }
            k = k + 1;
        }
        let ghost rest_pre = rest@;
        let ghost out_pre = out@;
        let b = rest.remove(mi);
        let ghost bv = b@;
        out.push(b);
        proof {
            broadcast use vstd::seq_lib::group_to_multiset_ensures;

            assert(rest@ == rest_pre.remove(mi as int));
            assert(out@ == out_pre.push(b));
            assert(out@.map_values(|p: PlannedBlock| p@) =~= out_pre.map_values(|p: PlannedBlock| p@).push(bv));
            assert(rest_pre.map_values(|p: PlannedBlock| p@).remove(mi as int) =~= rest@.map_values(|p: PlannedBlock| p@));
            assert(rest_pre.map_values(|p: PlannedBlock| p@)[mi as int] == bv);
            assert(rest_pre.map_values(|p: PlannedBlock| p@).remove(mi as int).to_multiset()
                =~= rest_pre.map_values(|p: PlannedBlock| p@).to_multiset().remove(bv));
            assert(out_pre.map_values(|p: PlannedBlock| p@).push(bv).to_multiset()
                =~= out_pre.map_values(|p: PlannedBlock| p@).to_multiset().insert(bv));
            assert(out@.map_values(|p: PlannedBlock| p@).to_multiset().add(rest@.map_values(|p: PlannedBlock| p@).to_multiset())
                =~= orig.map_values(|p: PlannedBlock| p@).to_multiset());
            assert(sorted_raster(out@.map_values(|p: PlannedBlock| p@))) by {
                let s = out@.map_values(|p: PlannedBlock| p@);
                assert forall|i: int, j: int| 0 <= i < j < s.len() implies raster_le(
                    #[trigger] s[i],
                    #[trigger] s[j],
                ) by {
                    if j < out_pre.len() {
                        assert(s[i] == out_pre.map_values(|p: PlannedBlock| p@)[i]);
                        assert(s[j] == out_pre.map_values(|p: PlannedBlock| p@)[j]);
                    } else {
                        assert(s[j] == bv);
                        assert(s[i] == out_pre[i]@);
                        assert(raster_le(out_pre[i]@, rest_pre[mi as int]@));
                    }
                }
            }
            assert forall|i: int, j: int|
                0 <= i < out@.len() && 0 <= j < rest@.len() implies raster_le(
                (#[trigger] out@[i])@,
                (#[trigger] rest@[j])@,
            ) by {
                let rj = if j < mi as int {
                    j
                } else {
                    j + 1
                };
                assert(rest@[j] == rest_pre[rj]);
                if i < out_pre.len() {
                    assert(out@[i] == out_pre[i]);
                } else {
                    assert(out@[i]@ == bv);
                    assert(raster_le(rest_pre[mi as int]@, rest_pre[rj]@));
                }
            }
        }
    }
    proof {
        broadcast use vstd::seq_lib::group_to_multiset_ensures;

        assert(rest@.map_values(|p: PlannedBlock| p@) =~= Seq::<PlannedView>::empty());
        assert(rest@.map_values(|p: PlannedBlock| p@).to_multiset() =~= Multiset::<PlannedView>::empty());
        assert(out@.map_values(|p: PlannedBlock| p@).to_multiset() =~= orig.map_values(|p: PlannedBlock| p@).to_multiset());
    }
    out
}

/// Elements carried over by a multiset-preserving reordering keep a
/// property that all source elements had.
proof fn lemma_wf_across_reorder(s: Seq<PlannedView>, t: Seq<PlannedView>)
    requires
        s.to_multiset() == t.to_multiset(),
        forall|j: int| 0 <= j < t.len() ==> planned_wf(#[trigger] t[j]),
    ensures
        forall|i: int| 0 <= i < s.len() ==> planned_wf(#[trigger] s[i]),
{
    broadcast use vstd::seq_lib::group_to_multiset_ensures;

    assert forall|i: int| 0 <= i < s.len() implies planned_wf(#[trigger] s[i]) by {
        assert(s.contains(s[i]));
        assert(s.to_multiset().count(s[i]) > 0);
        assert(t.to_multiset().count(s[i]) > 0);
        assert(t.contains(s[i]));
        let j = choose|j: int| 0 <= j < t.len() && t[j] == s[i];
    }
}

/// Assemble the dequantization-ready coefficient buffer of one frame from
/// its own LF data.
///
/// Fails with [`Error::IncompleteFrame`] exactly when the frame's global LF
/// or global HF section is absent; otherwise the returned buffer holds
/// exactly the planned blocks of every spatial group, in raster order.
pub fn render_vardct(frame: &Frame) -> (r: Result<CoefficientBuffer, Error>)
    requires
        frame.wf(),
        !frame.header.use_lf_frame,
    ensures
        (frame.lf_global is None || frame.hf_global is None) <==> r == Err::<
            CoefficientBuffer,
            Error,
        >(Error::IncompleteFrame),
        (frame.lf_global is Some && frame.hf_global is Some) ==> (r matches Ok(buf)
            && spec_render_ok(*frame, frame.lf_view(), buf.subsampled, buf.blocks_view())),
{
    render_vardct_using(frame, &frame.lf_groups)
}

/// The same pipeline with the LF groups of a previously decoded LF frame
/// substituted for the frame's own: the LF-frame-reuse branch.
pub fn render_vardct_with_lf(frame: &Frame, lf_source: &Frame) -> (r: Result<
    CoefficientBuffer,
    Error,
>)
    requires
        frame.wf(),
        lf_source.wf(),
        lf_source.header.group_dim == frame.header.group_dim,
        lf_serves(*frame, lf_source.lf_view()),
    ensures
        (frame.lf_global is None || frame.hf_global is None) <==> r == Err::<
            CoefficientBuffer,
            Error,
        >(Error::IncompleteFrame),
        (frame.lf_global is Some && frame.hf_global is Some) ==> (r matches Ok(buf)
            && spec_render_ok(*frame, lf_source.lf_view(), buf.subsampled, buf.blocks_view())),
{
    render_vardct_using(frame, &lf_source.lf_groups)
}

/// Shared body of the two rendering entry points.
fn render_vardct_using(frame: &Frame, lf_groups: &Vec<LfGroup>) -> (r: Result<
    CoefficientBuffer,
    Error,
>)
    requires
        frame.wf(),
        lf_groups_ok(
            lf_groups@.map_values(|lg: LfGroup| lg@),
            frame.header.group_dim as int,
        ),
        lf_serves(*frame, lf_groups@.map_values(|lg: LfGroup| lg@)),
    ensures
        (frame.lf_global is None || frame.hf_global is None) <==> r == Err::<
            CoefficientBuffer,
            Error,
        >(Error::IncompleteFrame),
        (frame.lf_global is Some && frame.hf_global is Some) ==> (r matches Ok(buf)
            && spec_render_ok(
            *frame,
            lf_groups@.map_values(|lg: LfGroup| lg@),
            buf.subsampled,
            buf.blocks_view(),
        )),
{
    if frame.lf_global.is_none() {
        return Err(Error::IncompleteFrame);
    }
    if frame.hf_global.is_none() {
        return Err(Error::IncompleteFrame);
    }
    let assembled = plan_frame(frame, lf_groups);
    let ghost assembled_v = assembled@.map_values(|p: PlannedBlock| p@);
    let blocks = sort_raster(assembled);
    proof {
        lemma_wf_across_reorder(blocks@.map_values(|p: PlannedBlock| p@), assembled_v);
    }
    let subsampled = frame.header.subsampled();
    Ok(CoefficientBuffer { subsampled, blocks })
}

} // verus!
