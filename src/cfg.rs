//! Control-flow graph: predecessor and successor sets of each block, the entry
//! block, exit blocks, and post-order traversal.
use vstd::prelude::*;

use cranelift_entity::EntityRef;

use crate::function::Function;
use crate::inst::{inst_dests, inst_is_return};

verus! {

/// An opaque reference to a basic block of a function.
#[derive(Debug, Clone, Copy, PartialEq, Eq, Structural, PartialOrd, Ord, Hash)]
pub struct BlockId(pub u32);

/// `s` is strictly increasing by block number, hence free of duplicates.
pub open spec fn sorted(s: Seq<BlockId>) -> bool {
    forall|i: int, j: int| 0 <= i < j < s.len() ==> (#[trigger] s[i]).0 < (#[trigger] s[j]).0
}

/// Inserts `x` into the sorted list `v`, keeping it sorted.
fn insert_sorted(v: &mut Vec<BlockId>, x: BlockId)
    requires
        sorted(old(v)@),
    ensures
        sorted(final(v)@),
        forall|y: BlockId| final(v)@.contains(y) <==> (old(v)@.contains(y) || y == x),
{
    let mut k: usize = 0;
    while k < v.len() && v[k].0 < x.0
        invariant
            v@ == old(v)@,
            k <= v@.len(),
            forall|i: int| 0 <= i < k ==> (#[trigger] v@[i]).0 < x.0,
        decreases v@.len() - k,
    {
        k = k + 1;
    }
    if k < v.len() && v[k].0 == x.0 {
        assert(v@[k as int] == x);
        return;
    }
    let ghost before = v@;
    assert(before == old(v)@);
    v.insert(k, x);
    proof {
        assert forall|y: BlockId| v@.contains(y) <==> (before.contains(y) || y == x) by {
            if v@.contains(y) {
                let i = choose|i: int| 0 <= i < v@.len() && v@[i] == y;
                if i < k {
                    assert(before[i] == y);
                } else if i > k {
                    assert(before[i - 1] == y);
                }
            }
            if before.contains(y) {
                let i = choose|i: int| 0 <= i < before.len() && before[i] == y;
                if i < k {
                    assert(v@[i] == y);
                } else {
                    assert(v@[i + 1] == y);
                }
            }
            if y == x {
                assert(v@[k as int] == x);
            }
        }
        assert forall|i: int, j: int| 0 <= i < j < v@.len() implies (#[trigger] v@[i]).0 < (#[trigger] v@[j]).0 by {
            if j == k {
                assert(v@[i] == before[i]);
            } else if i == k {
                assert(v@[j] == before[j - 1]);
                assert(before[k as int].0 >= x.0);
                if j - 1 > k {
                    assert(before[k as int].0 < before[j - 1].0);
                }
            } else if i < k && j < k {
                assert(v@[i] == before[i] && v@[j] == before[j]);
            } else if i < k {
                assert(v@[i] == before[i] && v@[j] == before[j - 1]);
            } else {
                assert(v@[i] == before[i - 1] && v@[j] == before[j - 1]);
            }
        }
    }
}

/// Removes `x` from the sorted list `v`, keeping it sorted.
fn remove_sorted(v: &mut Vec<BlockId>, x: BlockId)
    requires
        sorted(old(v)@),
    ensures
        sorted(final(v)@),
        forall|y: BlockId| final(v)@.contains(y) <==> (old(v)@.contains(y) && y != x),
{
    let mut k: usize = 0;
    while k < v.len()
        invariant
            v@ == old(v)@,
            sorted(v@),
            k <= v@.len(),
            forall|i: int| 0 <= i < k ==> #[trigger] v@[i] != x,
        decreases v@.len() - k,
    {
        if v[k] == x {
            let ghost before = v@;
            v.remove(k);
            proof {
                assert forall|y: BlockId| v@.contains(y) <==> (before.contains(y) && y != x) by {
                    if v@.contains(y) {
                        let i = choose|i: int| 0 <= i < v@.len() && v@[i] == y;
                        if i < k {
                            assert(before[i] == y);
                        } else {
                            assert(before[i + 1] == y);
                            assert(before[k as int].0 < before[i + 1].0);
                            assert(y != x);
                        }
                    }
                    if before.contains(y) && y != x {
                        let i = choose|i: int| 0 <= i < before.len() && before[i] == y;
                        if i < k {
                            assert(v@[i] == y);
                        } else {
                            assert(v@[i - 1] == y);
                        }
                    }
                }
                assert forall|i: int, j: int| 0 <= i < j < v@.len() implies (#[trigger] v@[i]).0 < (#[trigger] v@[j]).0 by {
                    if j < k {
                        assert(v@[i] == before[i] && v@[j] == before[j]);
                    } else if i < k {
                        assert(v@[i] == before[i] && v@[j] == before[j + 1]);
                    } else {
                        assert(v@[i] == before[i + 1] && v@[j] == before[j + 1]);
                    }
                }
            }
            return;
        }
        k = k + 1;
    }
}

/// A short list of blocks, held in a `smallvec::SmallVec`.
#[verifier::external_body]
#[derive(Debug)]
pub struct BlockList {
    v: smallvec::SmallVec<[BlockId; 8]>,
}

/// The blocks of a list, in order.
pub uninterp spec fn block_list_items(l: BlockList) -> Seq<BlockId>;

/// Relies on `smallvec::SmallVec::new`: a new vector is empty.
#[verifier::external_body]
fn block_list_new() -> (r: BlockList)
    ensures
        block_list_items(r) == Seq::<BlockId>::empty(),
{
    BlockList { v: smallvec::SmallVec::new() }
}

/// Relies on `smallvec::SmallVec::from_slice`: the vector holds the
/// slice's elements, in order.
#[verifier::external_body]
fn block_list_from_slice(s: &[BlockId]) -> (r: BlockList)
    ensures
        block_list_items(r) == s@,
{
    BlockList { v: smallvec::SmallVec::from_slice(s) }
}

/// Relies on `smallvec::SmallVec::push`: the value is appended.
#[verifier::external_body]
fn block_list_push(l: &mut BlockList, b: BlockId)
    ensures
        block_list_items(*final(l)) == block_list_items(*old(l)).push(b),
{
    l.v.push(b)
}

/// Relies on `smallvec::SmallVec::as_slice`: the elements, in order.
#[verifier::external_body]
fn block_list_as_slice(l: &BlockList) -> (r: &[BlockId])
    ensures
        r@ == block_list_items(*l),
{
    l.v.as_slice()
}

/// The predecessors and successors of one block, each a sorted list.
#[derive(Debug)]
struct BlockNode {
    preds: Vec<BlockId>,
    succs: Vec<BlockId>,
}

impl BlockNode {
    fn new() -> (r: BlockNode)
        ensures
            r.preds@.len() == 0,
            r.succs@.len() == 0,
    {
        BlockNode { preds: Vec::new(), succs: Vec::new() }
    }
}

/// The control-flow graph of a function.
#[derive(Debug)]
pub struct ControlFlowGraph {
    entry: Option<BlockId>,
    blocks: Vec<BlockNode>,
    exits: BlockList,
}

impl ControlFlowGraph {
    /// Number of block slots; every block that has an edge is below it.
    pub closed spec fn num_slots(&self) -> nat {
        self.blocks@.len()
    }

    /// The successors of `b`, in increasing order.
    pub closed spec fn succ_seq(&self, b: BlockId) -> Seq<BlockId> {
        if (b.0 as int) < self.blocks@.len() {
            self.blocks@[b.0 as int].succs@
        } else {
            Seq::empty()
        }
    }

    /// The predecessors of `b`, in increasing order.
    pub closed spec fn pred_seq(&self, b: BlockId) -> Seq<BlockId> {
        if (b.0 as int) < self.blocks@.len() {
            self.blocks@[b.0 as int].preds@
        } else {
            Seq::empty()
        }
    }

    pub open spec fn has_edge(&self, u: BlockId, v: BlockId) -> bool {
        self.succ_seq(u).contains(v)
    }

    pub open spec fn entry_spec(&self) -> Option<BlockId> {
        self.entry_view()
    }

    pub closed spec fn entry_view(&self) -> Option<BlockId> {
        self.entry
    }

    /// The exit blocks, in the order they were recorded.
    pub closed spec fn exits_view(&self) -> Seq<BlockId> {
        block_list_items(self.exits)
    }

    pub fn exits(&self) -> (r: &[BlockId])
        ensures
            r@ == self.exits_view(),
    {
        block_list_as_slice(&self.exits)
    }

    /// Edge lists are sorted, predecessor and successor lists agree, and
    /// every block with an edge has a slot.
    pub open spec fn wf(&self) -> bool {
        &&& forall|b: BlockId| sorted(#[trigger] self.succ_seq(b))
        &&& forall|b: BlockId| sorted(#[trigger] self.pred_seq(b))
        &&& forall|u: BlockId, v: BlockId|
            #[trigger] self.succ_seq(u).contains(v) <==> #[trigger] self.pred_seq(v).contains(u)
        &&& forall|u: BlockId, v: BlockId| #[trigger] self.succ_seq(u).contains(v)
            ==> (u.0 as int) < self.num_slots() && (v.0 as int) < self.num_slots()
    }

    pub fn new() -> (r: ControlFlowGraph)
        ensures
            r.wf(),
            r.entry_spec() is None,
            r.exits_view().len() == 0,
            forall|u: BlockId, v: BlockId| !r.has_edge(u, v),
    {
        let r = ControlFlowGraph { entry: None, blocks: Vec::new(), exits: block_list_new() };
        assert forall|b: BlockId| sorted(#[trigger] r.succ_seq(b)) by {}
        assert forall|b: BlockId| sorted(#[trigger] r.pred_seq(b)) by {}
        r
    }

    pub fn entry(&self) -> (r: Option<BlockId>)
        ensures
            r == self.entry_spec(),
    {
        self.entry
    }

    /// The successors of `block`, in increasing order.
    pub fn succs_of(&self, block: BlockId) -> (r: Vec<BlockId>)
        ensures
            r@ == self.succ_seq(block),
    {
        if (block.0 as usize) < self.blocks.len() {
            self.blocks[block.0 as usize].succs.clone()
        } else {
            Vec::new()
        }
    }

    /// The predecessors of `block`, in increasing order.
    pub fn preds_of(&self, block: BlockId) -> (r: Vec<BlockId>)
        ensures
            r@ == self.pred_seq(block),
    {
        if (block.0 as usize) < self.blocks.len() {
            self.blocks[block.0 as usize].preds.clone()
        } else {
            Vec::new()
        }
    }

    pub fn succ_num_of(&self, block: BlockId) -> (r: usize)
        ensures
            r == self.succ_seq(block).len(),
    {
        if (block.0 as usize) < self.blocks.len() {
            self.blocks[block.0 as usize].succs.len()
        } else {
            0
        }
    }

    pub fn pred_num_of(&self, block: BlockId) -> (r: usize)
        ensures
            r == self.pred_seq(block).len(),
    {
        if (block.0 as usize) < self.blocks.len() {
            self.blocks[block.0 as usize].preds.len()
        } else {
            0
        }
    }

    /// Grows the slots so that `b` has one.
    fn ensure_slot(&mut self, b: BlockId)
        requires
            old(self).wf(),
        ensures
            final(self).wf(),
            (b.0 as int) < final(self).num_slots(),
            final(self).num_slots() >= old(self).num_slots(),
            final(self).entry == old(self).entry,
            final(self).exits_view() == old(self).exits_view(),
            forall|x: BlockId| #[trigger] final(self).succ_seq(x) == old(self).succ_seq(x),
            forall|x: BlockId| #[trigger] final(self).pred_seq(x) == old(self).pred_seq(x),
    {
        while self.blocks.len() <= b.0 as usize
            invariant
                self.wf(),
                self.num_slots() >= old(self).num_slots(),
                self.entry == old(self).entry,
                self.exits == old(self).exits,
                forall|x: BlockId| #[trigger] self.succ_seq(x) == old(self).succ_seq(x),
                forall|x: BlockId| #[trigger] self.pred_seq(x) == old(self).pred_seq(x),
            decreases b.0 as int + 1 - self.blocks@.len(),
        {
            let ghost before = *self;
            self.blocks.push(BlockNode::new());
            proof {
                assert forall|x: BlockId| #[trigger] self.succ_seq(x) == before.succ_seq(x) by {
                    if (x.0 as int) < before.blocks@.len() {
                        assert(self.blocks@[x.0 as int] == before.blocks@[x.0 as int]);
                    } else if (x.0 as int) < self.blocks@.len() {
                        assert(self.succ_seq(x) =~= Seq::<BlockId>::empty());
                    }
                }
                assert forall|x: BlockId| #[trigger] self.pred_seq(x) == before.pred_seq(x) by {
                    if (x.0 as int) < before.blocks@.len() {
                        assert(self.blocks@[x.0 as int] == before.blocks@[x.0 as int]);
                    } else if (x.0 as int) < self.blocks@.len() {
                        assert(self.pred_seq(x) =~= Seq::<BlockId>::empty());
                    }
                }
            }
        }
    }

    /// Adds the edge `from -> to`.
    pub fn add_edge(&mut self, from: BlockId, to: BlockId)
        requires
            old(self).wf(),
        ensures
            final(self).wf(),
            final(self).entry_spec() == old(self).entry_spec(),
            final(self).exits_view() == old(self).exits_view(),
            forall|u: BlockId, v: BlockId|
                #[trigger] final(self).has_edge(u, v) <==> (old(self).has_edge(u, v) || (u == from && v == to)),
    {
        self.ensure_slot(from);
        self.ensure_slot(to);
        let ghost mid = *self;
        proof {
            assert(sorted(mid.pred_seq(to)) && sorted(mid.succ_seq(to)));
            assert(sorted(mid.pred_seq(from)) && sorted(mid.succ_seq(from)));
        }
        insert_sorted(&mut self.blocks[to.0 as usize].preds, from);
        let ghost mid2 = *self;
        proof {
            assert(self.blocks@[from.0 as int].succs@ == mid.blocks@[from.0 as int].succs@);
        }
        insert_sorted(&mut self.blocks[from.0 as usize].succs, to);
        proof {
            assert(self.blocks@.len() == mid.blocks@.len());
            assert(self.blocks@[to.0 as int].preds@ == mid2.blocks@[to.0 as int].preds@);
            assert forall|x: BlockId| x != from implies #[trigger] self.succ_seq(x) == mid.succ_seq(x) by {
                if (x.0 as int) < mid.blocks@.len() {
                    assert(self.blocks@[x.0 as int].succs@ == mid.blocks@[x.0 as int].succs@);
                }
            }
            assert forall|x: BlockId| x != to implies #[trigger] self.pred_seq(x) == mid.pred_seq(x) by {
                if (x.0 as int) < mid.blocks@.len() {
                    assert(self.blocks@[x.0 as int].preds@ == mid.blocks@[x.0 as int].preds@);
                }
            }
            assert forall|b: BlockId| sorted(#[trigger] self.succ_seq(b)) by {
                assert(sorted(mid.succ_seq(b)));
            }
            assert forall|b: BlockId| sorted(#[trigger] self.pred_seq(b)) by {
                assert(sorted(mid.pred_seq(b)));
            }
            assert forall|u: BlockId, v: BlockId|
                #[trigger] self.succ_seq(u).contains(v) <==> #[trigger] self.pred_seq(v).contains(u) by {
                assert(mid.succ_seq(u).contains(v) <==> mid.pred_seq(v).contains(u));
            }
            assert forall|u: BlockId, v: BlockId| #[trigger] self.succ_seq(u).contains(v)
                implies (u.0 as int) < self.num_slots() && (v.0 as int) < self.num_slots() by {
                if !(u == from && v == to) {
                    assert(mid.succ_seq(u).contains(v));
                }
            }
            assert forall|u: BlockId, v: BlockId|
                #[trigger] self.has_edge(u, v) <==> #[trigger] mid.has_edge(u, v) || (u == from && v == to) by {
            }
        }
    }

    /// Removes the edge `from -> to`, if present.
    pub fn remove_edge(&mut self, from: BlockId, to: BlockId)
        requires
            old(self).wf(),
        ensures
            final(self).wf(),
            final(self).entry_spec() == old(self).entry_spec(),
            final(self).exits_view() == old(self).exits_view(),
            forall|u: BlockId, v: BlockId|
                #[trigger] final(self).has_edge(u, v) <==> (old(self).has_edge(u, v) && !(u == from && v == to)),
    {
        self.ensure_slot(from);
        self.ensure_slot(to);
        let ghost mid = *self;
        proof {
            assert(sorted(mid.pred_seq(to)) && sorted(mid.succ_seq(to)));
            assert(sorted(mid.pred_seq(from)) && sorted(mid.succ_seq(from)));
        }
        remove_sorted(&mut self.blocks[to.0 as usize].preds, from);
        let ghost mid2 = *self;
        proof {
            assert(self.blocks@[from.0 as int].succs@ == mid.blocks@[from.0 as int].succs@);
        }
        remove_sorted(&mut self.blocks[from.0 as usize].succs, to);
        proof {
            assert(self.blocks@.len() == mid.blocks@.len());
            assert(self.blocks@[to.0 as int].preds@ == mid2.blocks@[to.0 as int].preds@);
            assert forall|x: BlockId| x != from implies #[trigger] self.succ_seq(x) == mid.succ_seq(x) by {
                if (x.0 as int) < mid.blocks@.len() {
                    assert(self.blocks@[x.0 as int].succs@ == mid.blocks@[x.0 as int].succs@);
                }
            }
            assert forall|x: BlockId| x != to implies #[trigger] self.pred_seq(x) == mid.pred_seq(x) by {
                if (x.0 as int) < mid.blocks@.len() {
                    assert(self.blocks@[x.0 as int].preds@ == mid.blocks@[x.0 as int].preds@);
                }
            }
            assert forall|b: BlockId| sorted(#[trigger] self.succ_seq(b)) by {
                assert(sorted(mid.succ_seq(b)));
            }
            assert forall|b: BlockId| sorted(#[trigger] self.pred_seq(b)) by {
                assert(sorted(mid.pred_seq(b)));
            }
            assert forall|u: BlockId, v: BlockId|
                #[trigger] self.succ_seq(u).contains(v) <==> #[trigger] self.pred_seq(v).contains(u) by {
                assert(mid.succ_seq(u).contains(v) <==> mid.pred_seq(v).contains(u));
            }
            assert forall|u: BlockId, v: BlockId| #[trigger] self.succ_seq(u).contains(v)
                implies (u.0 as int) < self.num_slots() && (v.0 as int) < self.num_slots() by {
                assert(mid.succ_seq(u).contains(v));
            }
            assert forall|u: BlockId, v: BlockId|
                #[trigger] self.has_edge(u, v) <==> #[trigger] mid.has_edge(u, v) && !(u == from && v == to) by {
            }
        }
    }

    /// Swaps predecessors and successors of every block, and installs a new
    /// entry and new exits: the reverse graph.
    pub fn reverse_edges(&mut self, new_entry: BlockId, new_exits: &[BlockId])
        requires
            old(self).wf(),
        ensures
            final(self).wf(),
            forall|b: BlockId| #[trigger] final(self).succ_seq(b) == old(self).pred_seq(b),
            forall|b: BlockId| #[trigger] final(self).pred_seq(b) == old(self).succ_seq(b),
            final(self).entry_spec() == Some(new_entry),
            final(self).exits_view() == new_exits@,
    {
        let ghost start = *self;
        let mut i: usize = 0;
        while i < self.blocks.len()
            invariant
                i <= self.blocks@.len(),
                self.blocks@.len() == start.blocks@.len(),
                forall|k: int| 0 <= k < i ==> (#[trigger] self.blocks@[k]).succs@ == start.blocks@[k].preds@
                    && self.blocks@[k].preds@ == start.blocks@[k].succs@,
                forall|k: int| i <= k < self.blocks@.len() ==> #[trigger] self.blocks@[k] == start.blocks@[k],
            decreases self.blocks@.len() - i,
        {
            let node = &mut self.blocks[i];
            std::mem::swap(&mut node.preds, &mut node.succs);
            i = i + 1;
        }
        self.entry = Some(new_entry);
        self.exits = block_list_from_slice(new_exits);
        proof {
            assert forall|b: BlockId| #[trigger] self.succ_seq(b) == start.pred_seq(b) && self.pred_seq(b) == start.succ_seq(b) by {
                if (b.0 as int) < self.blocks@.len() {
                    assert(self.blocks@[b.0 as int].succs@ == start.blocks@[b.0 as int].preds@);
                }
            }
            assert forall|b: BlockId| #[trigger] self.pred_seq(b) == start.succ_seq(b) by {
                assert(self.succ_seq(b) == start.pred_seq(b));
            }
            assert forall|b: BlockId| sorted(#[trigger] self.succ_seq(b)) by {
                assert(sorted(start.pred_seq(b)));
            }
            assert forall|b: BlockId| sorted(#[trigger] self.pred_seq(b)) by {
                assert(sorted(start.succ_seq(b)));
            }
            assert forall|u: BlockId, v: BlockId|
                #[trigger] self.succ_seq(u).contains(v) <==> #[trigger] self.pred_seq(v).contains(u) by {
                assert(start.succ_seq(v).contains(u) <==> start.pred_seq(u).contains(v));
            }
            assert forall|u: BlockId, v: BlockId| #[trigger] self.succ_seq(u).contains(v)
                implies (u.0 as int) < self.num_slots() && (v.0 as int) < self.num_slots() by {
                assert(start.succ_seq(v).contains(u));
            }
        }
    }

    /// Removes every edge, the entry and the exits.
    pub fn clear(&mut self)
        ensures
            final(self).wf(),
            final(self).entry_spec() is None,
            final(self).exits_view().len() == 0,
            forall|u: BlockId, v: BlockId| !#[trigger] final(self).has_edge(u, v),
    {
        *self = ControlFlowGraph::new();
    }

    /// Records `block` as an exit.
    fn push_exit(&mut self, block: BlockId)
        requires
            old(self).wf(),
        ensures
            final(self).wf(),
            final(self).entry_spec() == old(self).entry_spec(),
            final(self).exits_view() == old(self).exits_view().push(block),
            forall|u: BlockId, v: BlockId| #[trigger] final(self).has_edge(u, v) == old(self).has_edge(u, v),
            forall|b: BlockId| #[trigger] final(self).succ_seq(b) == old(self).succ_seq(b),
    {
        let ghost start = *self;
        block_list_push(&mut self.exits, block);
        proof {
            assert forall|b: BlockId| #[trigger] self.succ_seq(b) == start.succ_seq(b) && self.pred_seq(b) == start.pred_seq(b) by {}
            assert forall|b: BlockId| #[trigger] self.pred_seq(b) == start.pred_seq(b) by {}
        }
    }

    /// Sets the entry block.
    fn set_entry(&mut self, entry: Option<BlockId>)
        requires
            old(self).wf(),
        ensures
            final(self).wf(),
            final(self).entry_spec() == entry,
            final(self).exits_view() == old(self).exits_view(),
            forall|u: BlockId, v: BlockId| #[trigger] final(self).has_edge(u, v) == old(self).has_edge(u, v),
    {
        let ghost start = *self;
        self.entry = entry;
        proof {
            assert forall|b: BlockId| #[trigger] self.succ_seq(b) == start.succ_seq(b) && self.pred_seq(b) == start.pred_seq(b) by {}
            assert forall|b: BlockId| #[trigger] self.pred_seq(b) == start.pred_seq(b) by {}
        }
    }

    /// `p` is a non-empty walk along edges.
    pub open spec fn is_path(&self, p: Seq<BlockId>) -> bool {
        &&& p.len() >= 1
        &&& forall|i: int| 0 <= i < p.len() - 1 ==> self.has_edge(#[trigger] p[i], p[i + 1])
    }

    /// `b` can be reached from the entry block along edges.
    pub open spec fn reachable(&self, b: BlockId) -> bool {
        &&& self.entry_spec() is Some
        &&& exists|p: Seq<BlockId>| #[trigger] self.is_path(p) && p[0] == self.entry_spec()->Some_0 && p.last() == b
    }

    /// The blocks reachable from the entry, in post-order.
    pub fn post_order(&self) -> (r: Vec<BlockId>)
        requires
            self.wf(),
            self.entry_spec() matches Some(e) ==> e.0 < usize::MAX,
        ensures
            forall|i: int, j: int| 0 <= i < j < r@.len() ==> r@[i] != r@[j],
            forall|b: BlockId| #[trigger] r@.contains(b) <==> self.reachable(b),
            self.entry_spec() matches Some(e) ==> r@.len() > 0 && r@.last() == e,
    {
        let mut it = CfgPostOrder::new(self);
        let mut out: Vec<BlockId> = Vec::new();
        loop
            invariant
                it.inv(),
                it.cfg() == self,
                out@ == it.yielded(),
            decreases it.remaining(),
        {
            match it.next() {
                Some(b) => out.push(b),
                None => {
                    return out;
                },
            }
        }
    }
}

/// Each reachable step extends a reachable block by one edge.
proof fn lemma_reach_step(cfg: &ControlFlowGraph, u: BlockId, v: BlockId)
    requires
        cfg.reachable(u),
        cfg.has_edge(u, v),
    ensures
        cfg.reachable(v),
{
    let p = choose|p: Seq<BlockId>| #[trigger] cfg.is_path(p) && p[0] == cfg.entry_spec()->Some_0 && p.last() == u;
    let q = p.push(v);
    assert forall|i: int| 0 <= i < q.len() - 1 implies cfg.has_edge(#[trigger] q[i], q[i + 1]) by {
        if i < p.len() - 1 {
            assert(q[i] == p[i] && q[i + 1] == p[i + 1]);
        } else {
            assert(q[i] == u);
        }
    }
    assert(cfg.is_path(q));
}

/// A set of blocks that holds the entry and is closed under edges holds
/// every reachable block.
proof fn lemma_closed_holds_reachable(cfg: &ControlFlowGraph, s: spec_fn(BlockId) -> bool, b: BlockId)
    requires
        cfg.entry_spec() matches Some(e) && s(e),
        forall|u: BlockId, v: BlockId| s(u) && #[trigger] cfg.has_edge(u, v) ==> s(v),
        cfg.reachable(b),
    ensures
        s(b),
{
    let p = choose|p: Seq<BlockId>| #[trigger] cfg.is_path(p) && p[0] == cfg.entry_spec()->Some_0 && p.last() == b;
    lemma_closed_along_path(cfg, s, p, p.len() - 1);
}

proof fn lemma_closed_along_path(cfg: &ControlFlowGraph, s: spec_fn(BlockId) -> bool, p: Seq<BlockId>, i: int)
    requires
        cfg.is_path(p),
        s(p[0]),
        0 <= i < p.len(),
        forall|u: BlockId, v: BlockId| s(u) && #[trigger] cfg.has_edge(u, v) ==> s(v),
    ensures
        s(p[i]),
    decreases i,
{
    if i > 0 {
        lemma_closed_along_path(cfg, s, p, i - 1);
        assert(cfg.has_edge(p[i - 1], p[i]));
    }
}

/// Traversal state of one block: unvisited, visited, or finished.
#[derive(Debug, Clone, Copy)]
pub struct NodeState(pub u8);

impl NodeState {
    pub fn is_unvisited(self) -> (r: bool)
        ensures
            r == (self.0 == 0),
    {
        self.0 == 0
    }

    pub fn has_finished(self) -> (r: bool)
        ensures
            r == (self.0 == 2),
    {
        self.0 == 2
    }

    pub fn set_visited(&mut self)
        ensures
            final(self).0 == 1,
    {
        self.0 = 1;
    }

    pub fn set_finished(&mut self)
        ensures
            final(self).0 == 2,
    {
        self.0 = 2;
    }
}

/// Number of entries of `s` whose state is below `k`.
pub open spec fn count_below(s: Seq<NodeState>, k: u8) -> nat
    decreases s.len(),
{
    if s.len() == 0 {
        0
    } else {
        count_below(s.drop_last(), k) + if s.last().0 < k { 1nat } else { 0nat }
    }
}

/// Raising the state of one entry never raises the count, and lowers it by
/// one when the entry crosses `k`.
proof fn lemma_count_below_update(s: Seq<NodeState>, i: int, x: NodeState, k: u8)
    requires
        0 <= i < s.len(),
        x.0 >= s[i].0,
    ensures
        count_below(s.update(i, x), k) <= count_below(s, k),
        s[i].0 < k <= x.0 ==> count_below(s.update(i, x), k) + 1 == count_below(s, k),
    decreases s.len(),
{
    let t = s.update(i, x);
    if i == s.len() - 1 {
        assert(t.drop_last() =~= s.drop_last());
    } else {
        assert(t.drop_last() =~= s.drop_last().update(i, x));
        lemma_count_below_update(s.drop_last(), i, x, k);
    }
}

impl EntityRef for BlockId {
    fn new(index: usize) -> BlockId {
        BlockId(index as u32)
    }

    fn index(self) -> usize {
        self.0 as usize
    }
}

/// Traversal states of blocks, held in a `cranelift_entity::SecondaryMap`.
#[verifier::external_body]
pub struct StateMap {
    map: cranelift_entity::SecondaryMap<BlockId, NodeState>,
}

/// The stored states of a state map, in key order.
pub uninterp spec fn state_map_entries(m: StateMap) -> Seq<NodeState>;

/// The state a state map gives to keys it does not store.
pub uninterp spec fn state_map_default(m: StateMap) -> NodeState;

/// Relies on `cranelift_entity::SecondaryMap::with_default`: a new map
/// stores nothing and has the given default.
#[verifier::external_body]
fn state_map_new() -> (r: StateMap)
    ensures
        state_map_entries(r) == Seq::<NodeState>::empty(),
        state_map_default(r) == NodeState(0),
{
    StateMap { map: cranelift_entity::SecondaryMap::with_default(NodeState(0)) }
}

/// Relies on `cranelift_entity::SecondaryMap::resize`: the map stores `n`
/// states, new ones being the default.
#[verifier::external_body]
fn state_map_resize(m: &mut StateMap, n: usize)
    requires
        state_map_entries(*old(m)).len() <= n,
    ensures
        state_map_default(*final(m)) == state_map_default(*old(m)),
        state_map_entries(*final(m)).len() == n,
        forall|i: int| 0 <= i < state_map_entries(*old(m)).len()
            ==> #[trigger] state_map_entries(*final(m))[i] == state_map_entries(*old(m))[i],
        forall|i: int| state_map_entries(*old(m)).len() <= i < n
            ==> #[trigger] state_map_entries(*final(m))[i] == state_map_default(*old(m)),
{
    m.map.resize(n)
}

/// Relies on indexing a `cranelift_entity::SecondaryMap`: the stored state
/// of `k`, or the default when none is stored.
#[verifier::external_body]
fn state_map_get(m: &StateMap, k: BlockId) -> (r: NodeState)
    ensures
        r == (if (k.0 as int) < state_map_entries(*m).len() {
            state_map_entries(*m)[k.0 as int]
        } else {
            state_map_default(*m)
        }),
{
    m.map[k]
}

/// Relies on mutably indexing a `cranelift_entity::SecondaryMap`: the state
/// of `k`, which is stored, becomes `v`.
#[verifier::external_body]
fn state_map_set(m: &mut StateMap, k: BlockId, v: NodeState)
    requires
        (k.0 as int) < state_map_entries(*old(m)).len(),
    ensures
        state_map_entries(*final(m)) == state_map_entries(*old(m)).update(k.0 as int, v),
        state_map_default(*final(m)) == state_map_default(*old(m)),
{
    m.map[k] = v;
}

/// A depth-first post-order walk from the entry block.
pub struct CfgPostOrder<'a> {
    cfg: &'a ControlFlowGraph,
    node_state: StateMap,
    stack: Vec<BlockId>,
    yielded: Ghost<Seq<BlockId>>,
}

impl<'a> CfgPostOrder<'a> {
    pub closed spec fn cfg(&self) -> &'a ControlFlowGraph {
        self.cfg
    }

    /// The blocks handed out so far, in order.
    pub closed spec fn yielded(&self) -> Seq<BlockId> {
        self.yielded@
    }

    /// A measure that each handed-out block lowers.
    pub closed spec fn remaining(&self) -> nat {
        count_below(state_map_entries(self.node_state), 2)
    }

    /// The walk has handed out every block it will.
    pub closed spec fn exhausted(&self) -> bool {
        self.stack@.len() == 0
    }

    pub closed spec fn state(&self, b: BlockId) -> u8 {
        if (b.0 as int) < state_map_entries(self.node_state).len() {
            state_map_entries(self.node_state)[b.0 as int].0
        } else {
            0
        }
    }

    pub closed spec fn inv(&self) -> bool {
        let cfg = self.cfg;
        &&& cfg.wf()
        &&& state_map_entries(self.node_state).len() >= cfg.num_slots()
        &&& state_map_entries(self.node_state).len() <= usize::MAX
        &&& forall|b: BlockId| #[trigger] self.state(b) <= 2
        &&& forall|i: int| 0 <= i < self.stack@.len() ==> {
            &&& (#[trigger] self.stack@[i]).0 < state_map_entries(self.node_state).len()
            &&& cfg.reachable(self.stack@[i])
        }
        &&& forall|b: BlockId| #[trigger] self.state(b) != 0 ==> cfg.reachable(b) && (b.0 as int) < state_map_entries(self.node_state).len()
        &&& forall|u: BlockId, v: BlockId| self.state(u) != 0 && #[trigger] cfg.has_edge(u, v)
            ==> self.state(v) != 0 || self.stack@.contains(v)
        &&& forall|b: BlockId| #[trigger] self.state(b) == 1 ==> self.stack@.contains(b)
        &&& forall|i: int, j: int| 0 <= i < j < self.yielded@.len() ==> self.yielded@[i] != self.yielded@[j]
        &&& forall|b: BlockId| #[trigger] self.yielded@.contains(b) <==> self.state(b) == 2
        &&& match cfg.entry_spec() {
            Some(e) => self.state(e) != 0 || self.stack@.contains(e),
            None => self.stack@.len() == 0 && forall|b: BlockId| #[trigger] self.state(b) == 0,
        }
        &&& self.entry_at_bottom()
    }

    /// The entry block sits at the bottom of the stack and nowhere else until
    /// it is handed out, which is the walk's last step.
    pub closed spec fn entry_at_bottom(&self) -> bool {
        match self.cfg.entry_spec() {
            Some(e) => {
                &&& self.stack@.len() > 0 ==> self.stack@[0] == e && self.state(e) != 2
                &&& forall|i: int| 0 < i < self.stack@.len() ==> #[trigger] self.stack@[i] != e
                &&& self.stack@.len() > 1 ==> self.state(e) != 0
                &&& self.state(e) == 2 ==> self.stack@.len() == 0 && self.yielded@.len() > 0
                    && self.yielded@.last() == e
            },
            None => true,
        }
    }

    fn new(cfg: &'a ControlFlowGraph) -> (r: CfgPostOrder<'a>)
        requires
            cfg.wf(),
            cfg.entry_spec() matches Some(e) ==> e.0 < usize::MAX,
        ensures
            r.inv(),
            r.cfg() == cfg,
            r.yielded().len() == 0,
    {
        let mut len = cfg.blocks.len();
        let mut stack: Vec<BlockId> = Vec::new();
        match cfg.entry() {
            Some(e) => {
                if len <= e.0 as usize {
                    len = e.0 as usize + 1;
                }
                stack.push(e);
                proof {
                    let p = seq![e];
                    assert(cfg.is_path(p));
                }
            },
            None => {},
        }
        let mut node_state = state_map_new();
        state_map_resize(&mut node_state, len);
        let r = CfgPostOrder { cfg, node_state, stack, yielded: Ghost(Seq::empty()) };
        proof {
            assert forall|b: BlockId| #[trigger] r.state(b) == 0 by {
                if (b.0 as int) < state_map_entries(r.node_state).len() {
                    assert(state_map_entries(r.node_state)[b.0 as int].0 == 0);
                }
            }
            if let Some(e) = cfg.entry_spec() {
                assert(r.stack@[0] == e);
            }
        }
        r
    }

    /// Marks the block on top of the stack visited and pushes its unvisited
    /// successors.
    #[verifier::rlimit(40)]
    fn visit_top(&mut self, block: BlockId, len: usize)
        requires
            old(self).inv(),
            len == old(self).stack@.len(),
            len > 0,
            old(self).stack@[len - 1] == block,
            old(self).state(block) == 0,
        ensures
            final(self).inv(),
            final(self).cfg == old(self).cfg,
            final(self).yielded() == old(self).yielded(),
            final(self).remaining() <= old(self).remaining(),
            count_below(state_map_entries(final(self).node_state), 1) < count_below(state_map_entries(old(self).node_state), 1),
    {
        let cfg = self.cfg;
        let bi = block.0 as usize;
        proof {
            assert(cfg.reachable(block));
        }
        let ghost before = *self;
        proof {
            assert(self.state(block) == 0);
            lemma_count_below_update(state_map_entries(self.node_state), bi as int, NodeState(1), 1);
            lemma_count_below_update(state_map_entries(self.node_state), bi as int, NodeState(1), 2);
        }
        state_map_set(&mut self.node_state, block, NodeState(1));
        proof {
            assert forall|b: BlockId| #[trigger] self.state(b) == (if b == block { 1 } else { before.state(b) }) by {}
        }
        proof {
            if let Some(e) = cfg.entry_spec() {
                assert(before.entry_at_bottom());
                if e != block {
                    assert(before.stack@[0] == e);
                    assert(before.stack@.len() > 1);
                }
                assert(self.state(e) == (if e == block { 1 } else { before.state(e) }));
            }
        }
        let succs = cfg.succs_of(block);
        let mut i: usize = 0;
        while i < succs.len()
            invariant
                self.cfg == cfg,
                before.inv(),
                before.cfg == cfg,
                cfg.reachable(block),
                bi == block.0,
                (bi as int) < state_map_entries(before.node_state).len(),
                succs@ == cfg.succ_seq(block),
                i <= succs@.len(),
                state_map_entries(self.node_state) == state_map_entries(before.node_state).update(bi as int, NodeState(1)),
                self.yielded == before.yielded,
                before.stack@.len() <= self.stack@.len(),
                forall|k: int| 0 <= k < before.stack@.len() ==> self.stack@[k] == before.stack@[k],
                forall|k: int| 0 <= k < self.stack@.len() ==> {
                    &&& (#[trigger] self.stack@[k]).0 < state_map_entries(self.node_state).len()
                    &&& cfg.reachable(self.stack@[k])
                },
                forall|k: int| 0 <= k < i ==> self.state(#[trigger] succs@[k]) != 0 || self.stack@.contains(succs@[k]),
                self.stack@.len() <= before.stack@.len() + i,
                cfg.entry_spec() matches Some(e) ==> self.state(e) != 0
                    && forall|k: int| before.stack@.len() <= k < self.stack@.len() ==> #[trigger] self.stack@[k] != e,
            decreases succs@.len() - i,
        {
            let v = succs[i];
            let ghost st0 = self.stack@;
            proof {
                assert(cfg.succ_seq(block).contains(v)) by {
                    assert(succs@[i as int] == v);
                }
                assert(cfg.has_edge(block, v));
                assert(cfg.wf());
                assert((v.0 as int) < cfg.num_slots());
                lemma_reach_step(cfg, block, v);
            }
            if state_map_get(&self.node_state, v).is_unvisited() {
                let ghost st1 = self.stack@;
                self.stack.push(v);
                proof {
                    assert(self.state(v) == 0);
                    assert forall|k: int| 0 <= k < st1.len() implies #[trigger] self.stack@[k] == st1[k] by {}
                }
            }
            proof {
                assert forall|w: BlockId| #[trigger] st0.contains(w) implies self.stack@.contains(w) by {
                    let m = choose|m: int| 0 <= m < st0.len() && st0[m] == w;
                    assert(self.stack@[m] == w);
                }
                assert forall|k: int| 0 <= k < i + 1 implies self.state(#[trigger] succs@[k]) != 0 || self.stack@.contains(succs@[k]) by {
                    if k < i {
                        if self.state(succs@[k]) == 0 {
                            assert(st0.contains(succs@[k]));
                        }
                    } else {
                        assert(succs@[k] == v);
                        if self.state(v) == 0 {
                            assert(self.stack@[self.stack@.len() - 1] == v);
                        }
                    }
                }
            }
            i = i + 1;
        }
        proof {
            assert forall|b: BlockId| #[trigger] self.state(b) <= 2 by {
                assert(self.state(b) == (if b == block { 1 } else { before.state(b) }));
            }
            assert(self.stack@.contains(block)) by {
                assert(self.stack@[len - 1] == block);
            }
            assert forall|b: BlockId| #[trigger] self.state(b) != 0 implies cfg.reachable(b) && (b.0 as int) < state_map_entries(self.node_state).len() by {
                assert(self.state(b) == (if b == block { 1 } else { before.state(b) }));
            }
            assert forall|u: BlockId, v: BlockId| self.state(u) != 0 && #[trigger] cfg.has_edge(u, v)
                implies self.state(v) != 0 || self.stack@.contains(v) by {
                assert(self.state(u) == (if u == block { 1 } else { before.state(u) }));
                assert(self.state(v) == (if v == block { 1 } else { before.state(v) }));
                if u == block {
                    let k = choose|k: int| 0 <= k < succs@.len() && succs@[k] == v;
                    assert(self.state(succs@[k]) != 0 || self.stack@.contains(succs@[k]));
                } else if before.stack@.contains(v) && self.state(v) == 0 {
                    let m = choose|m: int| 0 <= m < before.stack@.len() && before.stack@[m] == v;
                    assert(self.stack@[m] == v);
                }
            }
            assert forall|b: BlockId| #[trigger] self.state(b) == 1 implies self.stack@.contains(b) by {
                assert(self.state(b) == (if b == block { 1 } else { before.state(b) }));
                if b != block {
                    let m = choose|m: int| 0 <= m < before.stack@.len() && before.stack@[m] == b;
                    assert(self.stack@[m] == b);
                }
            }
            assert forall|b: BlockId| #[trigger] self.yielded@.contains(b) <==> self.state(b) == 2 by {
                assert(self.state(b) == (if b == block { 1 } else { before.state(b) }));
            }
            if let Some(e) = cfg.entry_spec() {
                assert(self.state(e) == (if e == block { 1 } else { before.state(e) }));
                if before.stack@.contains(e) && self.state(e) == 0 {
                    let m = choose|m: int| 0 <= m < before.stack@.len() && before.stack@[m] == e;
                    assert(self.stack@[m] == e);
                }
            }
        }
        proof {
            if let Some(e) = cfg.entry_spec() {
                assert(before.entry_at_bottom());
                assert(self.state(e) == (if e == block { 1 } else { before.state(e) }));
                assert(self.stack@[0] == e);
                assert forall|i: int| 0 < i < self.stack@.len() implies #[trigger] self.stack@[i] != e by {
                    if i < before.stack@.len() {
                        assert(self.stack@[i] == before.stack@[i]);
                    }
                }
            }
            assert(self.entry_at_bottom());
        }
    }

    /// Pops the block on top of the stack, which has been visited, and hands
    /// it out unless it has finished already.
    #[verifier::rlimit(40)]
    fn pop_top(&mut self, block: BlockId, len: usize) -> (r: Option<BlockId>)
        requires
            old(self).inv(),
            len == old(self).stack@.len(),
            len > 0,
            old(self).stack@[len - 1] == block,
            old(self).state(block) != 0,
        ensures
            final(self).inv(),
            final(self).cfg == old(self).cfg,
            final(self).stack@.len() < old(self).stack@.len(),
            count_below(state_map_entries(final(self).node_state), 1) <= count_below(state_map_entries(old(self).node_state), 1),
            match r {
                Some(b) => {
                    &&& b == block
                    &&& !old(self).yielded().contains(b)
                    &&& final(self).yielded() == old(self).yielded().push(b)
                    &&& final(self).remaining() < old(self).remaining()
                },
                None => {
                    &&& final(self).yielded() == old(self).yielded()
                    &&& final(self).remaining() == old(self).remaining()
                },
            },
    {
        let cfg = self.cfg;
        let bi = block.0 as usize;
        proof {
            assert(self.state(block) <= 2);
            assert((bi as int) < state_map_entries(self.node_state).len());
        }
        let ghost before = *self;
        self.stack.pop();
        proof {
            assert(self.stack@ =~= before.stack@.drop_last());
            assert forall|b: BlockId| b != block && #[trigger] before.stack@.contains(b) implies self.stack@.contains(b) by {
                let m = choose|m: int| 0 <= m < before.stack@.len() && before.stack@[m] == b;
                assert(m != len - 1);
                assert(self.stack@[m] == b);
            }
        }
        if !state_map_get(&self.node_state, block).has_finished() {
            proof {
                assert(self.state(block) <= 2);
                assert(self.state(block) == state_map_entries(self.node_state)[bi as int].0);
                lemma_count_below_update(state_map_entries(self.node_state), bi as int, NodeState(2), 1);
                lemma_count_below_update(state_map_entries(self.node_state), bi as int, NodeState(2), 2);
                assert(!self.yielded@.contains(block));
            }
            state_map_set(&mut self.node_state, block, NodeState(2));
            self.yielded = Ghost(self.yielded@.push(block));
            proof {
                assert forall|b: BlockId| #[trigger] self.state(b) == (if b == block { 2 } else { before.state(b) }) by {}
                assert forall|b: BlockId| #[trigger] self.state(b) <= 2 by {
                    assert(self.state(b) == (if b == block { 2 } else { before.state(b) }));
                }
                assert forall|i: int| 0 <= i < self.stack@.len() implies {
                    &&& (#[trigger] self.stack@[i]).0 < state_map_entries(self.node_state).len()
                    &&& cfg.reachable(self.stack@[i])
                } by {
                    assert(self.stack@[i] == before.stack@[i]);
                }
                assert forall|b: BlockId| #[trigger] self.state(b) != 0 implies cfg.reachable(b) && (b.0 as int) < state_map_entries(self.node_state).len() by {
                    assert(self.state(b) == (if b == block { 2 } else { before.state(b) }));
                }
                assert forall|u: BlockId, v: BlockId| self.state(u) != 0 && #[trigger] cfg.has_edge(u, v)
                    implies self.state(v) != 0 || self.stack@.contains(v) by {
                    assert(self.state(u) == (if u == block { 2 } else { before.state(u) }));
                    assert(self.state(v) == (if v == block { 2 } else { before.state(v) }));
                }
                assert forall|b: BlockId| #[trigger] self.state(b) == 1 implies self.stack@.contains(b) by {
                    assert(self.state(b) == (if b == block { 2 } else { before.state(b) }));
                }
                assert forall|b: BlockId| #[trigger] self.yielded@.contains(b) <==> self.state(b) == 2 by {
                    assert(self.state(b) == (if b == block { 2 } else { before.state(b) }));
                    if b != block && self.yielded@.contains(b) {
                        let m = choose|m: int| 0 <= m < self.yielded@.len() && self.yielded@[m] == b;
                        assert(before.yielded@[m] == b);
                    }
                    if b != block && before.yielded@.contains(b) {
                        let m = choose|m: int| 0 <= m < before.yielded@.len() && before.yielded@[m] == b;
                        assert(self.yielded@[m] == b);
                    }
                    if b == block {
                        assert(self.yielded@[self.yielded@.len() - 1] == b);
                    }
                }
                assert forall|i: int, j: int| 0 <= i < j < self.yielded@.len() implies self.yielded@[i] != self.yielded@[j] by {
                    if j == self.yielded@.len() - 1 {
                        assert(before.yielded@.contains(self.yielded@[i]));
                    }
                }
                if let Some(e) = cfg.entry_spec() {
                    assert(self.state(e) == (if e == block { 2 } else { before.state(e) }));
                }
            }
            return Some(block);
        }
        proof {
            assert forall|i: int| 0 <= i < self.stack@.len() implies {
                &&& (#[trigger] self.stack@[i]).0 < state_map_entries(self.node_state).len()
                &&& cfg.reachable(self.stack@[i])
            } by {
                assert(self.stack@[i] == before.stack@[i]);
            }
        }
        proof {
            assert(self.state(block) == 2);
            assert(state_map_entries(self.node_state) == state_map_entries(before.node_state));
            assert forall|u: BlockId, v: BlockId| self.state(u) != 0 && #[trigger] cfg.has_edge(u, v)
                implies self.state(v) != 0 || self.stack@.contains(v) by {
                assert(before.state(v) != 0 || before.stack@.contains(v));
            }
            assert forall|b: BlockId| #[trigger] self.state(b) == 1 implies self.stack@.contains(b) by {
                assert(before.state(b) == 1);
                assert(before.stack@.contains(b));
            }
            if let Some(e) = cfg.entry_spec() {
                assert(before.state(e) != 0 || before.stack@.contains(e));
            }
            assert forall|b: BlockId| #[trigger] self.yielded@.contains(b) <==> self.state(b) == 2 by {
                assert(before.yielded@.contains(b) <==> before.state(b) == 2);
            }
            assert forall|b: BlockId| #[trigger] self.state(b) != 0 implies cfg.reachable(b) && (b.0 as int) < state_map_entries(self.node_state).len() by {
                assert(before.state(b) != 0);
            }
            assert forall|b: BlockId| #[trigger] self.state(b) <= 2 by {
                assert(before.state(b) <= 2);
            }
        }
        None
    }

    /// The next block in post-order, or `None` once every block reachable
    /// from the entry has been handed out.
    pub fn next(&mut self) -> (r: Option<BlockId>)
        requires
            old(self).inv(),
        ensures
            final(self).inv(),
            final(self).cfg() == old(self).cfg(),
            match r {
                Some(b) => {
                    &&& final(self).yielded() == old(self).yielded().push(b)
                    &&& final(self).remaining() < old(self).remaining()
                    &&& old(self).cfg().reachable(b)
                    &&& !old(self).yielded().contains(b)
                },
                None => {
                    &&& final(self).yielded() == old(self).yielded()
                    &&& final(self).exhausted()
                    &&& forall|b: BlockId| #[trigger] old(self).cfg().reachable(b) ==> final(self).yielded().contains(b)
                },
            },
            old(self).exhausted() ==> r is None,
    {
        let cfg = self.cfg;
        loop
            invariant
                self.inv(),
                self.cfg == cfg,
                self.cfg() == old(self).cfg(),
                self.yielded() == old(self).yielded(),
                self.remaining() <= old(self).remaining(),
                old(self).exhausted() ==> self.stack@.len() == 0,
            ensures
                self.inv(),
                self.cfg == cfg,
                self.cfg() == old(self).cfg(),
                self.yielded() == old(self).yielded(),
                self.stack@.len() == 0,
            decreases count_below(state_map_entries(self.node_state), 1), self.stack@.len(),
        {
            let len = self.stack.len();
            if len == 0 {
                break;
            }
            let block = self.stack[len - 1];
            proof {
                assert(self.stack@[len - 1] == block);
                assert(cfg.reachable(block));
            }
            let bi = block.0 as usize;
            if state_map_get(&self.node_state, block).is_unvisited() {
                proof {
                    assert(self.stack@[len - 1] == block);
                }
                self.visit_top(block, len);
            } else {
                match self.pop_top(block, len) {
                    Some(b) => {
                        return Some(b);
                    },
                    None => {},
                }
            }
        }
        proof {
            assert forall|b: BlockId| #[trigger] cfg.reachable(b) implies self.yielded().contains(b) by {
                let s = |x: BlockId| self.state(x) != 0;
                let e = cfg.entry_spec()->Some_0;
                assert(!self.stack@.contains(e));
                assert(s(e));
                assert forall|u: BlockId, v: BlockId| s(u) && #[trigger] cfg.has_edge(u, v) implies s(v) by {
                    assert(!self.stack@.contains(v));
                }
                lemma_closed_holds_reachable(cfg, s, b);
                assert(self.state(b) != 1) by {
                    if self.state(b) == 1 {
                        assert(self.stack@.contains(b));
                    }
                }
            }
        }
        None
    }
}

/// Predecessor and successor lists of a well-formed graph describe the same
/// edges.
pub proof fn lemma_edges_symmetric(cfg: &ControlFlowGraph, u: BlockId, v: BlockId)
    requires
        cfg.wf(),
    ensures
        cfg.succ_seq(u).contains(v) <==> cfg.pred_seq(v).contains(u),
{
}

/// Reversing the edges twice gives back the edge lists it started from.
pub proof fn lemma_reverse_twice(c0: ControlFlowGraph, c1: ControlFlowGraph, c2: ControlFlowGraph)
    requires
        forall|b: BlockId| #[trigger] c1.succ_seq(b) == c0.pred_seq(b),
        forall|b: BlockId| #[trigger] c1.pred_seq(b) == c0.succ_seq(b),
        forall|b: BlockId| #[trigger] c2.succ_seq(b) == c1.pred_seq(b),
        forall|b: BlockId| #[trigger] c2.pred_seq(b) == c1.succ_seq(b),
    ensures
        forall|b: BlockId| #[trigger] c2.succ_seq(b) == c0.succ_seq(b),
        forall|b: BlockId| #[trigger] c2.pred_seq(b) == c0.pred_seq(b),
        forall|u: BlockId, v: BlockId| #[trigger] c2.has_edge(u, v) == c0.has_edge(u, v),
{
    assert forall|b: BlockId| #[trigger] c2.succ_seq(b) == c0.succ_seq(b) by {
        assert(c1.pred_seq(b) == c0.succ_seq(b));
    }
    assert forall|b: BlockId| #[trigger] c2.pred_seq(b) == c0.pred_seq(b) by {
        assert(c1.succ_seq(b) == c0.pred_seq(b));
    }
    assert forall|u: BlockId, v: BlockId| #[trigger] c2.has_edge(u, v) == c0.has_edge(u, v) by {
        assert(c2.succ_seq(u) == c0.succ_seq(u));
    }
}

proof fn lemma_prefix_contains(s: Seq<BlockId>, k: int, b: BlockId)
    requires
        0 <= k < s.len(),
    ensures
        s.subrange(0, k + 1).contains(b) <==> (s.subrange(0, k).contains(b) || b == s[k]),
{
    let p = s.subrange(0, k + 1);
    let q = s.subrange(0, k);
    if p.contains(b) {
        let j = choose|j: int| 0 <= j < p.len() && #[trigger] p[j] == b;
        if j < k {
            assert(q[j] == b);
        }
    }
    if q.contains(b) {
        let j = choose|j: int| 0 <= j < q.len() && #[trigger] q[j] == b;
        assert(p[j] == b);
    }
    if b == s[k] {
        assert(p[k] == b);
    }
}

/// `func` has an edge from `u` to `v`: `u` is laid out and its last
/// instruction may pass control to `v`.
pub open spec fn func_edge(func: &Function, u: BlockId, v: BlockId) -> bool {
    &&& func.layout.order().contains(u)
    &&& func.layout.last_of(u) matches Some(i) && inst_dests(func.dfg.insts()[i.0 as int]).contains(v)
}

/// `b` is laid out in `func` and ends in a return.
pub open spec fn func_exit(func: &Function, b: BlockId) -> bool {
    &&& func.layout.order().contains(b)
    &&& func.layout.last_of(b) matches Some(i) && inst_is_return(func.dfg.insts()[i.0 as int])
}

/// `b` ends in a return instruction in `func`.
pub open spec fn ends_in_return(func: &Function, b: BlockId) -> bool {
    func.layout.last_of(b) matches Some(i) && inst_is_return(func.dfg.insts()[i.0 as int])
}

/// The blocks of `s` that end in a return, in the order of `s`.
pub open spec fn exit_list(func: &Function, s: Seq<BlockId>) -> Seq<BlockId>
    decreases s.len(),
{
    if s.len() == 0 {
        Seq::empty()
    } else {
        exit_list(func, s.drop_last()) + if ends_in_return(func, s.last()) {
            seq![s.last()]
        } else {
            Seq::<BlockId>::empty()
        }
    }
}

/// The exit list of a duplicate-free block sequence holds only blocks of that
/// sequence, each once.
proof fn lemma_exit_list_distinct(func: &Function, s: Seq<BlockId>)
    requires
        forall|i: int, j: int| 0 <= i < j < s.len() ==> s[i] != s[j],
    ensures
        forall|b: BlockId| #[trigger] exit_list(func, s).contains(b) ==> s.contains(b),
        forall|i: int, j: int| 0 <= i < j < exit_list(func, s).len() ==> exit_list(func, s)[i] != exit_list(func, s)[j],
    decreases s.len(),
{
    if s.len() > 0 {
        let t = s.drop_last();
        lemma_exit_list_distinct(func, t);
        let e = exit_list(func, t);
        let x = exit_list(func, s);
        assert forall|b: BlockId| #[trigger] x.contains(b) implies s.contains(b) by {
            let k = choose|k: int| 0 <= k < x.len() && x[k] == b;
            if k < e.len() {
                assert(e[k] == b);
                assert(e.contains(b));
                let m = choose|m: int| 0 <= m < t.len() && t[m] == b;
                assert(s[m] == b);
            } else {
                assert(b == s.last());
                assert(s[s.len() - 1] == b);
            }
        }
        assert forall|i: int, j: int| 0 <= i < j < x.len() implies x[i] != x[j] by {
            if j >= e.len() {
                assert(x[j] == s.last());
                assert(x[i] == e[i]);
                assert(e.contains(e[i]));
                if e[i] == s.last() {
                    let m = choose|m: int| 0 <= m < t.len() && t[m] == e[i];
                    assert(s[m] == s[s.len() - 1]);
                }
            } else {
                assert(x[i] == e[i] && x[j] == e[j]);
            }
        }
    }
}

impl ControlFlowGraph {
    /// Recomputes the graph of `func`: its entry is the first block, an edge
    /// leads from each block to each destination of its last instruction,
    /// and the blocks that end in a return are the exits.
    pub fn compute(&mut self, func: &Function)
        requires
            func.wf(),
        ensures
            final(self).wf(),
            final(self).entry_spec() == (if func.layout.order().len() > 0 {
                Some(func.layout.order()[0])
            } else {
                None
            }),
            forall|u: BlockId, v: BlockId| #[trigger] final(self).has_edge(u, v) <==> func_edge(func, u, v),
            forall|b: BlockId| #[trigger] final(self).exits_view().contains(b) <==> func_exit(func, b),
            final(self).exits_view() == exit_list(func, func.layout.order()),
            forall|i: int, j: int| 0 <= i < j < final(self).exits_view().len()
                ==> final(self).exits_view()[i] != final(self).exits_view()[j],
    {
        self.clear();
        let entry = func.layout.entry_block();
        self.set_entry(entry);
        let blocks = func.layout.iter_block();
        let mut k: usize = 0;
        while k < blocks.len()
            invariant
                func.wf(),
                blocks@ == func.layout.order(),
                k <= blocks@.len(),
                self.wf(),
                self.entry_spec() == entry,
                forall|u: BlockId, v: BlockId| #[trigger] self.has_edge(u, v)
                    <==> (blocks@.subrange(0, k as int).contains(u) && func_edge(func, u, v)),
                forall|b: BlockId| #[trigger] self.exits_view().contains(b)
                    <==> (blocks@.subrange(0, k as int).contains(b) && func_exit(func, b)),
                self.exits_view() == exit_list(func, blocks@.subrange(0, k as int)),
            decreases blocks@.len() - k,
        {
            let block = blocks[k];
            proof {
                assert(blocks@.subrange(0, k as int + 1).drop_last() =~= blocks@.subrange(0, k as int));
                assert(blocks@.subrange(0, k as int + 1).last() == block);
                assert(func.layout.order().contains(block)) by {
                    assert(func.layout.order()[k as int] == block);
                }
                assert(!blocks@.subrange(0, k as int).contains(block)) by {
                    if blocks@.subrange(0, k as int).contains(block) {
                        let j = choose|j: int| 0 <= j < k && blocks@.subrange(0, k as int)[j] == block;
                        assert(blocks@[j] == blocks@[k as int]);
                    }
                }
                assert forall|b: BlockId| #[trigger] blocks@.subrange(0, k as int + 1).contains(b)
                    <==> (blocks@.subrange(0, k as int).contains(b) || b == block) by {
                    lemma_prefix_contains(blocks@, k as int, b);
                }
            }
            match func.layout.last_insn_of(block) {
                Some(last) => {
                    proof {
                        assert(func.layout.insts_of(block)[func.layout.insts_of(block).len() - 1] == last);
                        assert(func.layout.block_of(last) == Some(block));
                    }
                    let is_ret = func.dfg.is_return(last);
                    if is_ret {
                        let ghost before = self.exits_view();
                        self.push_exit(block);
                        proof {
                            assert forall|b: BlockId| #[trigger] self.exits_view().contains(b) <==> (before.contains(b) || b == block) by {
                                if self.exits_view().contains(b) {
                                    let j = choose|j: int| 0 <= j < self.exits_view().len() && self.exits_view()[j] == b;
                                    if j < before.len() {
                                        assert(before[j] == b);
                                    }
                                }
                                if before.contains(b) {
                                    let j = choose|j: int| 0 <= j < before.len() && before[j] == b;
                                    assert(self.exits_view()[j] == b);
                                }
                                if b == block {
                                    assert(self.exits_view()[before.len() as int] == b);
                                }
                            }
                        }
                    }
                    let info = func.dfg.analyze_branch(last);
                    let dests = info.dests;
                    let ghost base = *self;
                    let mut j: usize = 0;
                    while j < dests.len()
                        invariant
                            func.wf(),
                            self.wf(),
                            dests@ == inst_dests(func.dfg.insts()[last.0 as int]),
                            j <= dests@.len(),
                            self.entry_spec() == entry,
                            self.exits_view() == base.exits_view(),
                            forall|u: BlockId, v: BlockId| #[trigger] self.has_edge(u, v)
                                <==> (base.has_edge(u, v) || (u == block && dests@.subrange(0, j as int).contains(v))),
                        decreases dests@.len() - j,
                    {
                        let ghost before = *self;
                        self.add_edge(block, dests[j]);
                        proof {
                            assert forall|u: BlockId, v: BlockId| #[trigger] self.has_edge(u, v)
                                <==> (base.has_edge(u, v) || (u == block && dests@.subrange(0, j as int + 1).contains(v))) by {
                                assert(self.has_edge(u, v) <==> (before.has_edge(u, v) || (u == block && v == dests@[j as int])));
                                lemma_prefix_contains(dests@, j as int, v);
                            }
                        }
                        j = j + 1;
                    }
                    proof {
                        assert(dests@.subrange(0, dests@.len() as int) =~= dests@);
                        assert forall|u: BlockId, v: BlockId| #[trigger] self.has_edge(u, v)
                            <==> (blocks@.subrange(0, k as int + 1).contains(u) && func_edge(func, u, v)) by {
                            assert(blocks@.subrange(0, k as int + 1).contains(u) <==> (blocks@.subrange(0, k as int).contains(u) || u == block));
                        }
                        assert forall|b: BlockId| #[trigger] self.exits_view().contains(b)
                            <==> (blocks@.subrange(0, k as int + 1).contains(b) && func_exit(func, b)) by {
                            assert(blocks@.subrange(0, k as int + 1).contains(b) <==> (blocks@.subrange(0, k as int).contains(b) || b == block));
                        }
                    }
                },
                None => {
                    proof {
                        assert forall|u: BlockId, v: BlockId| #[trigger] self.has_edge(u, v)
                            <==> (blocks@.subrange(0, k as int + 1).contains(u) && func_edge(func, u, v)) by {
                            assert(blocks@.subrange(0, k as int + 1).contains(u) <==> (blocks@.subrange(0, k as int).contains(u) || u == block));
                        }
                        assert forall|b: BlockId| #[trigger] self.exits_view().contains(b)
                            <==> (blocks@.subrange(0, k as int + 1).contains(b) && func_exit(func, b)) by {
                            assert(blocks@.subrange(0, k as int + 1).contains(b) <==> (blocks@.subrange(0, k as int).contains(b) || b == block));
                        }
                    }
                },
            }
            k = k + 1;
        }
        proof {
            assert(blocks@.subrange(0, blocks@.len() as int) =~= blocks@);
            lemma_exit_list_distinct(func, func.layout.order());
        }
    }
}

/// Every edge of a computed graph leads to a destination of the last
/// instruction of its source, and predecessor lists agree with successor
/// lists.
pub proof fn lemma_computed_edges(cfg: &ControlFlowGraph, func: &Function, u: BlockId, v: BlockId)
    requires
        cfg.wf(),
        forall|a: BlockId, b: BlockId| #[trigger] cfg.has_edge(a, b) <==> func_edge(func, a, b),
        cfg.has_edge(u, v),
    ensures
        func.layout.last_of(u) matches Some(i) && inst_dests(func.dfg.insts()[i.0 as int]).contains(v),
        cfg.pred_seq(v).contains(u),
{
}

} // verus!
