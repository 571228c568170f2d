//! Coded blocks of HF coefficients and the rule that merges the
//! contributions of several encoding passes into one block.
//!
//! The merge rule: a later pass refines an earlier one by element-wise
//! wrapping addition of the quantized samples; a block seen in only one pass
//! is used as-is.  Wrapping addition is associative and commutative, so
//! batching the passes in any grouping gives the same final set, as long as
//! every pass is applied.

use vstd::prelude::*;

use crate::grid::{CoeffGrid, GridView};

verus! {

/// Transform-size selector: which of the fixed set of supported block
/// shapes a coded block uses.  `DctAxB` is `A` samples wide and `B` tall.
#[derive(Clone, Copy, Debug, PartialEq, Eq, Structural)]
pub enum DctSelect {
    Dct8,
    Dct16,
    Dct32,
    Dct8x16,
    Dct16x8,
    Dct8x32,
    Dct32x8,
    Dct16x32,
    Dct32x16,
}

impl DctSelect {
    /// Block width in 8-sample units.
    pub open spec fn spec_width_blocks(self) -> int {
        match self {
            DctSelect::Dct8 => 1,
            DctSelect::Dct16 => 2,
            DctSelect::Dct32 => 4,
            DctSelect::Dct8x16 => 1,
            DctSelect::Dct16x8 => 2,
            DctSelect::Dct8x32 => 1,
            DctSelect::Dct32x8 => 4,
            DctSelect::Dct16x32 => 2,
            DctSelect::Dct32x16 => 4,
        }
    }

    /// Block height in 8-sample units.
    pub open spec fn spec_height_blocks(self) -> int {
        match self {
            DctSelect::Dct8 => 1,
            DctSelect::Dct16 => 2,
            DctSelect::Dct32 => 4,
            DctSelect::Dct8x16 => 2,
            DctSelect::Dct16x8 => 1,
            DctSelect::Dct8x32 => 4,
            DctSelect::Dct32x8 => 1,
            DctSelect::Dct16x32 => 4,
            DctSelect::Dct32x16 => 2,
        }
    }

    /// Block size in 8-sample units, `(width, height)`.
    pub fn dct_select_size(&self) -> (r: (u32, u32))
        ensures
            r.0 == self.spec_width_blocks(),
            r.1 == self.spec_height_blocks(),
    {
        match self {
            DctSelect::Dct8 => (1, 1),
            DctSelect::Dct16 => (2, 2),
            DctSelect::Dct32 => (4, 4),
            DctSelect::Dct8x16 => (1, 2),
            DctSelect::Dct16x8 => (2, 1),
            DctSelect::Dct8x32 => (1, 4),
            DctSelect::Dct32x8 => (4, 1),
            DctSelect::Dct16x32 => (2, 4),
            DctSelect::Dct32x16 => (4, 2),
        }
    }
}

/// Mathematical image of a [`CoeffData`].
pub struct CoeffDataView {
    pub dct_select: DctSelect,
    pub cy: GridView,
    pub cx: GridView,
    pub cb: GridView,
}

impl CoeffDataView {
    /// The three channel grids are sized to the block's transform shape.
    pub open spec fn wf(self) -> bool {
        &&& self.cy.wf()
        &&& self.cx.wf()
        &&& self.cb.wf()
        &&& self.cy.width == 8 * self.dct_select.spec_width_blocks()
        &&& self.cy.height == 8 * self.dct_select.spec_height_blocks()
        &&& self.cx.width == self.cy.width && self.cx.height == self.cy.height
        &&& self.cb.width == self.cy.width && self.cb.height == self.cy.height
    }

    /// Refinement of this block's samples by a later pass's contribution.
    pub open spec fn combined(self, other: CoeffDataView) -> CoeffDataView {
        CoeffDataView {
            dct_select: self.dct_select,
            cy: self.cy.combined(other.cy),
            cx: self.cx.combined(other.cx),
            cb: self.cb.combined(other.cb),
        }
    }
}

/// The three per-channel quantized coefficient grids of one coded block.
/// Channel order is luma first (`cy`), then the two chroma-like channels
/// (`cx`, `cb`).
#[derive(Debug)]
pub struct CoeffData {
    pub dct_select: DctSelect,
    pub cy: CoeffGrid,
    pub cx: CoeffGrid,
    pub cb: CoeffGrid,
}

impl View for CoeffData {
    type V = CoeffDataView;

    open spec fn view(&self) -> CoeffDataView {
        CoeffDataView {
            dct_select: self.dct_select,
            cy: self.cy@,
            cx: self.cx@,
            cb: self.cb@,
        }
    }
}

impl CoeffData {
    /// An identical copy.
    pub fn duplicate(&self) -> (r: CoeffData)
        ensures
            r@ == self@,
    {
        CoeffData {
            dct_select: self.dct_select,
            cy: self.cy.duplicate(),
            cx: self.cx.duplicate(),
            cb: self.cb.duplicate(),
        }
    }

    /// Element-wise wrapping sum with a same-shaped contribution.
    pub fn combined_with(&self, other: &CoeffData) -> (r: CoeffData)
        requires
            self@.wf(),
            other@.wf(),
            other@.dct_select == self@.dct_select,
        ensures
            r@ == self@.combined(other@),
            r@.wf(),
    {
        let r = CoeffData {
            dct_select: self.dct_select,
            cy: self.cy.combined_with(&other.cy),
            cx: self.cx.combined_with(&other.cx),
            cb: self.cb.combined_with(&other.cb),
        };
        r
    }
}

/// Mathematical image of an [`HfBlock`]: a coded block at a position inside
/// its spatial group, in 8-sample units.
pub struct BlockView {
    pub bx: int,
    pub by: int,
    pub data: CoeffDataView,
}

/// One coded block of a spatial group: its position inside the group (in
/// 8-sample units) and its coefficient data.
#[derive(Debug)]
pub struct HfBlock {
    pub bx: u32,
    pub by: u32,
    pub data: CoeffData,
}

impl View for HfBlock {
    type V = BlockView;

    open spec fn view(&self) -> BlockView {
        BlockView { bx: self.bx as int, by: self.by as int, data: self.data@ }
    }
}

/// Mathematical image of one encoding pass's contribution to one spatial
/// group.
pub struct PassView {
    pub pass_idx: int,
    pub group_idx: int,
    pub blocks: Seq<BlockView>,
}

/// Some block of `s` has `t`'s position and transform shape.
pub open spec fn block_shape_in(t: BlockView, s: Seq<BlockView>) -> bool {
    exists|j: int|
        0 <= j < s.len() && s[j].bx == t.bx && s[j].by == t.by
            && s[j].data.dct_select == t.data.dct_select
}

/// First index in `s` holding a block at `(bx, by)`, or `-1`.
pub open spec fn find_block(s: Seq<BlockView>, bx: int, by: int) -> int
    decreases s.len(),
{
    if s.len() == 0 {
        -1
    } else if s[0].bx == bx && s[0].by == by {
        0
    } else {
        let r = find_block(s.drop_first(), bx, by);
        if r == -1 {
            -1
        } else {
            r + 1
        }
    }
}

/// Merging one later-pass block into an accumulated set: refine the block at
/// the same position if there is one, otherwise append the block unchanged.
pub open spec fn merge_block(s: Seq<BlockView>, b: BlockView) -> Seq<BlockView> {
    let i = find_block(s, b.bx, b.by);
    if i == -1 {
        s.push(b)
    } else {
        s.update(i, BlockView { bx: b.bx, by: b.by, data: s[i].data.combined(b.data) })
    }
}

/// Merging a whole later pass into an accumulated set, block by block in
/// order.
pub open spec fn merge_seq(a: Seq<BlockView>, b: Seq<BlockView>) -> Seq<BlockView>
    decreases b.len(),
{
    if b.len() == 0 {
        a
    } else {
        merge_seq(merge_block(a, b[0]), b.drop_first())
    }
}

/// No two blocks of `s` share a position.
pub open spec fn unique_positions(s: Seq<BlockView>) -> bool {
    forall|i: int, j: int|
        0 <= i < j < s.len() ==> !(s[i].bx == s[j].bx && s[i].by == s[j].by)
}

/// Every block of `s` is well-formed.
pub open spec fn all_wf(s: Seq<BlockView>) -> bool {
    forall|i: int| 0 <= i < s.len() ==> #[trigger] s[i].data.wf()
}

/// Blocks at the same position in the two sets agree on their transform
/// shape, so that their samples can be summed.
pub open spec fn compatible(a: Seq<BlockView>, b: Seq<BlockView>) -> bool {
    forall|i: int, j: int|
        0 <= i < a.len() && 0 <= j < b.len() && a[i].bx == b[j].bx && a[i].by == b[j].by
            ==> a[i].data.dct_select == b[j].data.dct_select
}

/// The coded blocks of one spatial group, as contributed by one encoding
/// pass or accumulated over several.
#[derive(Debug)]
pub struct HfCoeffSet {
    pub blocks: Vec<HfBlock>,
}

impl View for HfCoeffSet {
    type V = Seq<BlockView>;

    open spec fn view(&self) -> Seq<BlockView> {
        self.blocks@.map_values(|b: HfBlock| b@)
    }
}

proof fn lemma_find_block_at(s: Seq<BlockView>, bx: int, by: int, i: int)
    requires
        0 <= i < s.len(),
        s[i].bx == bx && s[i].by == by,
        forall|j: int| 0 <= j < i ==> !(s[j].bx == bx && s[j].by == by),
    ensures
        find_block(s, bx, by) == i,
    decreases i,
{
    if i == 0 {
    } else {
        assert(!(s[0].bx == bx && s[0].by == by));
        let t = s.drop_first();
        assert(t[i - 1] == s[i]);
        assert forall|j: int| 0 <= j < i - 1 implies !(t[j].bx == bx && t[j].by == by) by {
            assert(t[j] == s[j + 1]);
        }
        lemma_find_block_at(t, bx, by, i - 1);
    }
}

proof fn lemma_find_block_none(s: Seq<BlockView>, bx: int, by: int)
    requires
        forall|j: int| 0 <= j < s.len() ==> !(s[j].bx == bx && s[j].by == by),
    ensures
        find_block(s, bx, by) == -1,
    decreases s.len(),
{
    if s.len() == 0 {
    } else {
        let t = s.drop_first();
        assert forall|j: int| 0 <= j < t.len() implies !(t[j].bx == bx && t[j].by == by) by {
            assert(t[j] == s[j + 1]);
        }
        lemma_find_block_none(t, bx, by);
    }
}

/// Bounds and membership facts of `find_block`.
pub proof fn lemma_find_block_props(s: Seq<BlockView>, bx: int, by: int)
    ensures
        -1 <= find_block(s, bx, by) < s.len(),
        find_block(s, bx, by) >= 0 ==> {
            let i = find_block(s, bx, by);
            s[i].bx == bx && s[i].by == by
        },
    decreases s.len(),
{
    if s.len() == 0 {
    } else if s[0].bx == bx && s[0].by == by {
    } else {
        lemma_find_block_props(s.drop_first(), bx, by);
    }
}

/// Merging passes one block at a time commutes with appending a block to the
/// later pass, which is what a loop over the later pass's blocks does.
proof fn lemma_merge_seq_push(a: Seq<BlockView>, b: Seq<BlockView>, x: BlockView)
    ensures
        merge_seq(a, b.push(x)) == merge_block(merge_seq(a, b), x),
    decreases b.len(),
{
    if b.len() == 0 {
        assert(b.push(x)[0] == x);
        assert(b.push(x).drop_first() =~= Seq::<BlockView>::empty());
        assert(merge_seq(a, b.push(x)) == merge_seq(merge_block(a, x), Seq::<BlockView>::empty()));
        assert(merge_seq(a, b) == a);
    } else {
        assert(b.push(x)[0] == b[0]);
        assert(b.push(x).drop_first() =~= b.drop_first().push(x));
        lemma_merge_seq_push(merge_block(a, b[0]), b.drop_first(), x);
    }
}

/// Merging the passes may be batched in any grouping: folding a
/// concatenation of two pass lists into an accumulated set is the same as
/// folding the first list and then the second.  Together with
/// [`merge_seq`]'s one-block-at-a-time definition this says that combining
/// passes `1..k` in ascending order gives one well-defined result however
/// the merging is staged, and a group seen in only one pass is used as-is.
pub proof fn lemma_merge_batching(a: Seq<BlockView>, b: Seq<BlockView>, c: Seq<BlockView>)
    ensures
        merge_seq(a, b + c) == merge_seq(merge_seq(a, b), c),
    decreases b.len(),
{
    if b.len() == 0 {
        assert(b + c =~= c);
        assert(merge_seq(a, b) == a);
    } else {
        assert((b + c)[0] == b[0]);
        assert((b + c).drop_first() =~= b.drop_first() + c);
        lemma_merge_batching(merge_block(a, b[0]), b.drop_first(), c);
    }
}

impl HfCoeffSet {
    /// An empty set, the starting point for accumulating passes.
    pub fn new() -> (r: HfCoeffSet)
        ensures
            r@ =~= Seq::<BlockView>::empty(),
    {
        HfCoeffSet { blocks: Vec::new() }
    }

    /// An identical copy.
    pub fn duplicate(&self) -> (r: HfCoeffSet)
        ensures
            r@ =~= self@,
    {
        let mut blocks: Vec<HfBlock> = Vec::new();
        let n = self.blocks.len();
        let mut k: usize = 0;
        while k < n
            invariant
                blocks@.len() == k,
                k <= n,
                n == self.blocks@.len(),
                forall|i: int| 0 <= i < k ==> #[trigger] blocks@[i]@ == self.blocks@[i]@,
            decreases n - k,
        {
            let b = &self.blocks[k];
            blocks.push(HfBlock { bx: b.bx, by: b.by, data: b.data.duplicate() });
            k = k + 1;
        }
        let r = HfCoeffSet { blocks };
        proof {
            assert(r@ =~= self@);
        }
        r
    }

    /// Index of the block at `(bx, by)`, if any.
    pub fn find(&self, bx: u32, by: u32) -> (r: Option<usize>)
        ensures
            match r {
                Some(i) => i < self.blocks@.len() && i == find_block(self@, bx as int, by as int),
                None => find_block(self@, bx as int, by as int) == -1,
            },
    {
        let n = self.blocks.len();
        let mut k: usize = 0;
        while k < n
            invariant
                k <= n,
                n == self.blocks@.len(),
                forall|j: int|
                    0 <= j < k ==> !(self@[j].bx == bx as int && self@[j].by == by as int),
            decreases n - k,
        {
            if self.blocks[k].bx == bx && self.blocks[k].by == by {
                proof {
                    lemma_find_block_at(self@, bx as int, by as int, k as int);
                }
                return Some(k);
            }
            k = k + 1;
        }
        proof {
            lemma_find_block_none(self@, bx as int, by as int);
        }
        None
    }

    /// Merge a later pass's contribution for the same spatial group into
    /// this accumulated set, in block order.
    pub fn merge_from(&mut self, other: &HfCoeffSet)
        requires
            all_wf(old(self)@),
            all_wf(other@),
            unique_positions(other@),
            compatible(old(self)@, other@),
        ensures
            final(self)@ == merge_seq(old(self)@, other@),
            all_wf(final(self)@),
    {
        let n = other.blocks.len();
        let mut k: usize = 0;
        while k < n
            invariant
                k <= n,
                n == other.blocks@.len(),
                all_wf(other@),
                unique_positions(other@),
                all_wf(self@),
                compatible(self@, other@.skip(k as int)),
                self@ == merge_seq(old(self)@, other@.take(k as int)),
            decreases n - k,
        {
            let ob = &other.blocks[k];
            let ghost pre = self@;
            let ghost obv = ob@;
            proof {
                assert(other@[k as int] == obv);
                lemma_find_block_props(pre, obv.bx, obv.by);
            }
            match self.find(ob.bx, ob.by) {
                Some(i) => {
                    let bxv = self.blocks[i].bx;
                    let byv = self.blocks[i].by;
                    proof {
                        assert(pre[i as int].data.wf());
                        assert(obv.data.wf());
                        assert(other@.skip(k as int)[0] == obv);
                        assert(pre[i as int].data.dct_select == obv.data.dct_select);
                    }
                    let nd = self.blocks[i].data.combined_with(&ob.data);
                    let nb = HfBlock { bx: bxv, by: byv, data: nd };
                    self.blocks.set(i, nb);
                    proof {
                        assert(self@ =~= merge_block(pre, obv));
                    }
                },
                None => {
                    self.blocks.push(ob.duplicate_block());
                    proof {
                        assert(self@ =~= merge_block(pre, obv));
                    }
                },
            }
            k = k + 1;
            proof {
                assert(other@.take(k as int) =~= other@.take(k as int - 1).push(obv));
                lemma_merge_seq_push(old(self)@, other@.take(k as int - 1), obv);
                assert(self@ == merge_seq(old(self)@, other@.take(k as int)));
                assert(all_wf(self@)) by {
                    assert forall|i: int| 0 <= i < self@.len() implies #[trigger] self@[i].data.wf()
                    by {
                        if i < pre.len() {
                        } else {
                        }
                    }
                }
                assert(compatible(self@, other@.skip(k as int))) by {
                    assert forall|i: int, j: int|
                        0 <= i < self@.len() && 0 <= j < other@.skip(k as int).len()
                            && self@[i].bx == other@.skip(k as int)[j].bx
                            && self@[i].by == other@.skip(k as int)[j].by
                        implies self@[i].data.dct_select
                            == other@.skip(k as int)[j].data.dct_select by {
                        assert(other@.skip(k as int)[j] == other@[k + j]);
                        if i < pre.len() {
                            assert(other@.skip(k as int - 1)[j + 1] == other@[k + j]);
                        } else {
                            assert(self@[i] == obv || self@[i].data.dct_select == obv.data.dct_select);
                        }
                    }
                }
            }
        }
        proof {
            assert(other@.take(n as int) =~= other@);
        }
    }
}

impl HfBlock {
    /// An identical copy.
    pub fn duplicate_block(&self) -> (r: HfBlock)
        ensures
            r@ == self@,
    {
        HfBlock { bx: self.bx, by: self.by, data: self.data.duplicate() }
    }
}

} // verus!
