//! Functions: signature, data-flow graph of SSA values and instructions, and
//! the layout that orders blocks and instructions.
use vstd::prelude::*;

use crate::cfg::BlockId;
use crate::global_variable::Linkage;
use crate::inst::{
    inst_dests, inst_is_return, inst_is_terminator, inst_result_ty, BranchInfo, InstData, Insn, Value,
};
use crate::types::Type;

verus! {

/// Where a value is defined: an argument position, or the result of an
/// instruction.
#[derive(Debug, Clone, Copy, PartialEq, Eq, Structural, Hash)]
pub enum ValueDef {
    Arg { ty: Type, idx: usize },
    Result(Insn),
}

/// The SSA values and instructions of one function.
#[derive(Debug)]
pub struct DataFlowGraph {
    insts: Vec<InstData>,
    inst_results: Vec<Option<Value>>,
    values: Vec<ValueDef>,
    value_tys: Vec<Type>,
    num_blocks: u32,
}

impl DataFlowGraph {
    pub closed spec fn insts(&self) -> Seq<InstData> {
        self.insts@
    }

    pub closed spec fn results(&self) -> Seq<Option<Value>> {
        self.inst_results@
    }

    pub closed spec fn defs(&self) -> Seq<ValueDef> {
        self.values@
    }

    pub closed spec fn tys(&self) -> Seq<Type> {
        self.value_tys@
    }

    pub closed spec fn block_count(&self) -> nat {
        self.num_blocks as nat
    }

    pub open spec fn valid_value(&self, v: Value) -> bool {
        (v.0 as int) < self.defs().len()
    }

    pub open spec fn valid_insn(&self, i: Insn) -> bool {
        (i.0 as int) < self.insts().len()
    }

    /// Some value is already defined as argument `idx`.
    pub open spec fn has_arg(&self, idx: usize) -> bool {
        exists|w: int| 0 <= w < self.defs().len() && (#[trigger] self.defs()[w]) is Arg && self.defs()[w]->Arg_idx == idx
    }

    /// Result bindings and value definitions mirror each other, an
    /// instruction has a result exactly when its opcode defines one, and no
    /// two values are the same argument.
    pub open spec fn wf(&self) -> bool {
        &&& self.insts().len() == self.results().len()
        &&& self.defs().len() == self.tys().len()
        &&& self.insts().len() <= u32::MAX
        &&& self.defs().len() <= u32::MAX
        &&& forall|v: int| 0 <= v < self.defs().len() ==> match #[trigger] self.defs()[v] {
            ValueDef::Result(i) => (i.0 as int) < self.insts().len() && self.results()[i.0 as int] == Some(Value(v as u32)),
            ValueDef::Arg { ty, .. } => self.tys()[v] == ty,
        }
        &&& forall|i: int| 0 <= i < self.insts().len() ==> match #[trigger] self.results()[i] {
            Some(v) => (v.0 as int) < self.defs().len() && self.defs()[v.0 as int] == ValueDef::Result(Insn(i as u32))
                && inst_result_ty(self.insts()[i]) == Some(self.tys()[v.0 as int]),
            None => inst_result_ty(self.insts()[i]) is None,
        }
        &&& forall|v: int, w: int| 0 <= v < self.defs().len() && 0 <= w < self.defs().len() && v != w
            && #[trigger] self.defs()[v] is Arg && #[trigger] self.defs()[w] is Arg
            ==> self.defs()[v]->Arg_idx != self.defs()[w]->Arg_idx
    }

    pub fn new() -> (r: DataFlowGraph)
        ensures
            r.wf(),
            r.insts().len() == 0,
            r.defs().len() == 0,
            r.block_count() == 0,
    {
        DataFlowGraph {
            insts: Vec::new(),
            inst_results: Vec::new(),
            values: Vec::new(),
            value_tys: Vec::new(),
            num_blocks: 0,
        }
    }

    /// A fresh block.
    pub fn make_block(&mut self) -> (r: BlockId)
        requires
            old(self).block_count() < u32::MAX,
        ensures
            r.0 as nat == old(self).block_count(),
            final(self).block_count() == old(self).block_count() + 1,
            final(self).insts() == old(self).insts(),
            final(self).results() == old(self).results(),
            final(self).defs() == old(self).defs(),
            final(self).tys() == old(self).tys(),
    {
        let b = BlockId(self.num_blocks);
        self.num_blocks = self.num_blocks + 1;
        b
    }

    /// The definition of argument `idx` of type `ty`.
    pub fn make_arg_value(&self, ty: Type, idx: usize) -> (r: ValueDef)
        ensures
            r == (ValueDef::Arg { ty, idx }),
    {
        ValueDef::Arg { ty, idx }
    }

    /// Mints the value of an argument definition.
    pub fn make_value(&mut self, def: ValueDef) -> (r: Value)
        requires
            old(self).wf(),
            def is Arg,
            !old(self).has_arg(def->Arg_idx),
            old(self).defs().len() < u32::MAX,
        ensures
            final(self).wf(),
            r.0 as int == old(self).defs().len(),
            final(self).defs() == old(self).defs().push(def),
            final(self).tys() == old(self).tys().push(def->Arg_ty),
            final(self).insts() == old(self).insts(),
            final(self).results() == old(self).results(),
            final(self).block_count() == old(self).block_count(),
    {
        let n = self.values.len();
        let ty = match def {
            ValueDef::Arg { ty, .. } => ty,
            ValueDef::Result(_) => Type::Void,
        };
        self.values.push(def);
        self.value_tys.push(ty);
        proof {
            let d = self.defs();
            assert forall|v: int, w: int| 0 <= v < d.len() && 0 <= w < d.len() && v != w
                && #[trigger] d[v] is Arg && #[trigger] d[w] is Arg implies d[v]->Arg_idx != d[w]->Arg_idx by {
                if v == n as int {
                    assert(old(self).defs()[w] == d[w]);
                } else if w == n as int {
                    assert(old(self).defs()[v] == d[v]);
                } else {
                    assert(old(self).defs()[v] == d[v] && old(self).defs()[w] == d[w]);
                }
            }
            assert forall|i: int| 0 <= i < self.insts().len() implies match #[trigger] self.results()[i] {
                Some(v) => (v.0 as int) < self.defs().len() && self.defs()[v.0 as int] == ValueDef::Result(Insn(i as u32))
                    && inst_result_ty(self.insts()[i]) == Some(self.tys()[v.0 as int]),
                None => inst_result_ty(self.insts()[i]) is None,
            } by {
                assert(old(self).results()[i] == self.results()[i]);
            }
        }
        Value(n as u32)
    }

    /// Stores an instruction; when its opcode defines a value, mints that
    /// value and binds it as the instruction's result.
    pub fn make_inst(&mut self, inst: InstData) -> (r: Insn)
        requires
            old(self).wf(),
            old(self).insts().len() < u32::MAX,
            old(self).defs().len() < u32::MAX,
        ensures
            final(self).wf(),
            r.0 as int == old(self).insts().len(),
            final(self).insts() == old(self).insts().push(inst),
            final(self).block_count() == old(self).block_count(),
            match inst_result_ty(inst) {
                Some(t) => {
                    &&& final(self).defs() == old(self).defs().push(ValueDef::Result(r))
                    &&& final(self).tys() == old(self).tys().push(t)
                    &&& final(self).results() == old(self).results().push(Some(Value(old(self).defs().len() as u32)))
                },
                None => {
                    &&& final(self).defs() == old(self).defs()
                    &&& final(self).tys() == old(self).tys()
                    &&& final(self).results() == old(self).results().push(None)
                },
            },
    {
        let n = self.insts.len();
        let insn = Insn(n as u32);
        let rty = inst.result_ty();
        self.insts.push(inst);
        match rty {
            Some(t) => {
                let v = Value(self.values.len() as u32);
                self.values.push(ValueDef::Result(insn));
                self.value_tys.push(t);
                self.inst_results.push(Some(v));
            },
            None => {
                self.inst_results.push(None);
            },
        }
        proof {
            let d = self.defs();
            let od = old(self).defs();
            assert forall|v: int| 0 <= v < d.len() implies match #[trigger] d[v] {
                ValueDef::Result(i) => (i.0 as int) < self.insts().len() && self.results()[i.0 as int] == Some(Value(v as u32)),
                ValueDef::Arg { ty, .. } => self.tys()[v] == ty,
            } by {
                if v < od.len() {
                    assert(d[v] == od[v]);
                    assert(self.tys()[v] == old(self).tys()[v]);
                    if let ValueDef::Result(i) = od[v] {
                        assert(self.results()[i.0 as int] == old(self).results()[i.0 as int]);
                    }
                }
            }
            assert forall|i: int| 0 <= i < self.insts().len() implies match #[trigger] self.results()[i] {
                Some(v) => (v.0 as int) < self.defs().len() && self.defs()[v.0 as int] == ValueDef::Result(Insn(i as u32))
                    && inst_result_ty(self.insts()[i]) == Some(self.tys()[v.0 as int]),
                None => inst_result_ty(self.insts()[i]) is None,
            } by {
                if i < n as int {
                    assert(old(self).results()[i] == self.results()[i]);
                    assert(old(self).insts()[i] == self.insts()[i]);
                    if let Some(v) = old(self).results()[i] {
                        assert(d[v.0 as int] == od[v.0 as int]);
                        assert(self.tys()[v.0 as int] == old(self).tys()[v.0 as int]);
                    }
                }
            }
            assert forall|v: int, w: int| 0 <= v < d.len() && 0 <= w < d.len() && v != w
                && #[trigger] d[v] is Arg && #[trigger] d[w] is Arg implies d[v]->Arg_idx != d[w]->Arg_idx by {
                if v < od.len() && w < od.len() {
                    assert(od[v] == d[v] && od[w] == d[w]);
                }
            }
        }
        insn
    }

    pub fn inst(&self, insn: Insn) -> (r: &InstData)
        requires
            self.valid_insn(insn),
        ensures
            *r == self.insts()[insn.0 as int],
    {
        &self.insts[insn.0 as usize]
    }

    /// The value `insn` defines, if any.
    pub fn inst_result(&self, insn: Insn) -> (r: Option<Value>)
        requires
            self.wf(),
            self.valid_insn(insn),
        ensures
            r == self.results()[insn.0 as int],
    {
        self.inst_results[insn.0 as usize]
    }

    pub fn value_def(&self, v: Value) -> (r: ValueDef)
        requires
            self.valid_value(v),
        ensures
            r == self.defs()[v.0 as int],
    {
        self.values[v.0 as usize]
    }

    pub fn value_ty(&self, v: Value) -> (r: Type)
        requires
            self.wf(),
            self.valid_value(v),
        ensures
            r == self.tys()[v.0 as int],
    {
        self.value_tys[v.0 as usize]
    }

    pub fn is_terminator(&self, insn: Insn) -> (r: bool)
        requires
            self.valid_insn(insn),
        ensures
            r == inst_is_terminator(self.insts()[insn.0 as int]),
    {
        self.insts[insn.0 as usize].terminator()
    }

    pub fn is_return(&self, insn: Insn) -> (r: bool)
        requires
            self.valid_insn(insn),
        ensures
            r == inst_is_return(self.insts()[insn.0 as int]),
    {
        self.insts[insn.0 as usize].is_return()
    }

    /// A terminator that may pass control to another block.
    pub fn is_branch(&self, insn: Insn) -> (r: bool)
        requires
            self.valid_insn(insn),
        ensures
            r == (inst_is_terminator(self.insts()[insn.0 as int]) && !inst_is_return(self.insts()[insn.0 as int])
                && !(self.insts()[insn.0 as int] is Unreachable)),
    {
        let i = &self.insts[insn.0 as usize];
        i.terminator() && !i.is_return() && !matches!(i, InstData::Unreachable)
    }

    pub fn analyze_branch(&self, insn: Insn) -> (r: BranchInfo)
        requires
            self.valid_insn(insn),
        ensures
            r.dests@ == inst_dests(self.insts()[insn.0 as int]),
    {
        self.insts[insn.0 as usize].branch_info()
    }
}

/// Every value of a well-formed graph has exactly one defining site: an
/// argument position that no other value holds, or an instruction whose
/// result it is and no other value's.
pub proof fn lemma_single_definition(dfg: &DataFlowGraph, v: Value, w: Value)
    requires
        dfg.wf(),
        dfg.valid_value(v),
        dfg.valid_value(w),
        v != w,
    ensures
        dfg.defs()[v.0 as int] != dfg.defs()[w.0 as int],
        dfg.defs()[v.0 as int] matches ValueDef::Result(i) ==> dfg.results()[i.0 as int] == Some(v),
{
    let d = dfg.defs();
    if let ValueDef::Result(i) = d[v.0 as int] {
        assert(dfg.results()[i.0 as int] == Some(Value(v.0)));
        if d[w.0 as int] == d[v.0 as int] {
            assert(dfg.results()[i.0 as int] == Some(Value(w.0)));
        }
    } else {
        if d[w.0 as int] == d[v.0 as int] {
            assert(d[v.0 as int]->Arg_idx != d[w.0 as int]->Arg_idx);
        }
    }
}

/// The order of blocks in a function and of instructions in each block.
#[derive(Debug)]
pub struct Layout {
    blocks: Vec<BlockId>,
    block_insts: Vec<Vec<Insn>>,
    insn_block: Vec<Option<BlockId>>,
}

impl Layout {
    /// The laid-out blocks, in program order.
    pub closed spec fn order(&self) -> Seq<BlockId> {
        self.blocks@
    }

    /// The instructions of `b`, in program order.
    pub closed spec fn insts_of(&self, b: BlockId) -> Seq<Insn> {
        if (b.0 as int) < self.block_insts@.len() {
            self.block_insts@[b.0 as int]@
        } else {
            Seq::empty()
        }
    }

    /// The block `i` is laid out in, if any.
    pub closed spec fn block_of(&self, i: Insn) -> Option<BlockId> {
        if (i.0 as int) < self.insn_block@.len() {
            self.insn_block@[i.0 as int]
        } else {
            None
        }
    }

    /// Blocks appear once; an instruction appears at most once, in a laid-out
    /// block, and `block_of` names exactly the block holding it.
    pub open spec fn wf(&self) -> bool {
        &&& forall|i: int, j: int| 0 <= i < j < self.order().len() ==> self.order()[i] != self.order()[j]
        &&& forall|b: BlockId| #[trigger] self.insts_of(b).len() > 0 ==> self.order().contains(b)
        &&& forall|b: BlockId, k: int| 0 <= k < self.insts_of(b).len() ==> self.block_of(#[trigger] self.insts_of(b)[k]) == Some(b)
        &&& forall|b: BlockId, k: int, l: int| 0 <= k < l < self.insts_of(b).len() ==> #[trigger] self.insts_of(b)[k] != #[trigger] self.insts_of(b)[l]
        &&& forall|i: Insn| #[trigger] self.block_of(i) matches Some(b) ==> self.insts_of(b).contains(i)
    }

    pub fn new() -> (r: Layout)
        ensures
            r.wf(),
            r.order().len() == 0,
            forall|b: BlockId| #[trigger] r.insts_of(b).len() == 0,
            forall|i: Insn| #[trigger] r.block_of(i) is None,
    {
        Layout { blocks: Vec::new(), block_insts: Vec::new(), insn_block: Vec::new() }
    }

    /// The first block, if any.
    pub fn entry_block(&self) -> (r: Option<BlockId>)
        ensures
            r == (if self.order().len() > 0 { Some(self.order()[0]) } else { None }),
    {
        if self.blocks.len() > 0 {
            Some(self.blocks[0])
        } else {
            None
        }
    }

    /// The blocks, in program order.
    pub fn iter_block(&self) -> (r: Vec<BlockId>)
        ensures
            r@ == self.order(),
    {
        self.blocks.clone()
    }

    pub fn is_block_inserted(&self, block: BlockId) -> (r: bool)
        ensures
            r == self.order().contains(block),
    {
        let mut i: usize = 0;
        while i < self.blocks.len()
            invariant
                i <= self.order().len(),
                forall|k: int| 0 <= k < i ==> self.order()[k] != block,
            decreases self.order().len() - i,
        {
            if self.blocks[i] == block {
                assert(self.order()[i as int] == block);
                return true;
            }
            i = i + 1;
        }
        false
    }

    /// The instructions of `block`, in program order.
    pub fn iter_inst(&self, block: BlockId) -> (r: Vec<Insn>)
        ensures
            r@ == self.insts_of(block),
    {
        if (block.0 as usize) < self.block_insts.len() {
            self.block_insts[block.0 as usize].clone()
        } else {
            Vec::new()
        }
    }

    pub fn first_insn_of(&self, block: BlockId) -> (r: Option<Insn>)
        ensures
            r == (if self.insts_of(block).len() > 0 { Some(self.insts_of(block)[0]) } else { None }),
    {
        if (block.0 as usize) < self.block_insts.len() && self.block_insts[block.0 as usize].len() > 0 {
            Some(self.block_insts[block.0 as usize][0])
        } else {
            None
        }
    }

    pub fn last_insn_of(&self, block: BlockId) -> (r: Option<Insn>)
        ensures
            r == (if self.insts_of(block).len() > 0 { Some(self.insts_of(block).last()) } else { None }),
    {
        if (block.0 as usize) < self.block_insts.len() {
            let n = self.block_insts[block.0 as usize].len();
            if n > 0 {
                return Some(self.block_insts[block.0 as usize][n - 1]);
            }
        }
        None
    }

    /// The block holding `insn`, which must be laid out.
    pub fn insn_block(&self, insn: Insn) -> (r: BlockId)
        requires
            self.block_of(insn) is Some,
        ensures
            Some(r) == self.block_of(insn),
    {
        self.insn_block[insn.0 as usize].unwrap()
    }

    /// Appends `block`, which is not laid out yet, after the last block.
    pub fn append_block(&mut self, block: BlockId)
        requires
            old(self).wf(),
            !old(self).order().contains(block),
        ensures
            final(self).wf(),
            final(self).order() == old(self).order().push(block),
            forall|b: BlockId| #[trigger] final(self).insts_of(b) == old(self).insts_of(b),
            forall|i: Insn| #[trigger] final(self).block_of(i) == old(self).block_of(i),
    {
        let ghost start = *self;
        while self.block_insts.len() <= block.0 as usize
            invariant
                self.blocks == start.blocks,
                self.insn_block == start.insn_block,
                forall|b: BlockId| #[trigger] self.insts_of(b) == start.insts_of(b),
            decreases block.0 as int + 1 - self.block_insts@.len(),
        {
            let ghost before = *self;
            self.block_insts.push(Vec::new());
            proof {
                assert forall|b: BlockId| #[trigger] self.insts_of(b) == start.insts_of(b) by {
                    assert(before.insts_of(b) == start.insts_of(b));
                    if (b.0 as int) < before.block_insts@.len() {
                        assert(self.block_insts@[b.0 as int] == before.block_insts@[b.0 as int]);
                    } else if (b.0 as int) < self.block_insts@.len() {
                        assert(self.insts_of(b) =~= Seq::<Insn>::empty());
                    }
                }
            }
        }
        let ghost mid = *self;
        self.blocks.push(block);
        proof {
            assert(self.block_insts == mid.block_insts);
            assert(self.insn_block == mid.insn_block);
            assert forall|b: BlockId| #[trigger] self.insts_of(b) == start.insts_of(b) by {
                assert(mid.insts_of(b) == start.insts_of(b));
            }
            assert forall|i: Insn| #[trigger] self.block_of(i) == start.block_of(i) by {
                assert(mid.block_of(i) == start.block_of(i));
            }
            assert forall|i: int, j: int| 0 <= i < j < self.order().len() implies self.order()[i] != self.order()[j] by {
                if j == self.order().len() - 1 {
                    assert(start.order()[i] == self.order()[i]);
                }
            }
            assert forall|b: BlockId| #[trigger] self.insts_of(b).len() > 0 implies self.order().contains(b) by {
                assert(start.insts_of(b).len() > 0);
                let k = choose|k: int| 0 <= k < start.order().len() && start.order()[k] == b;
                assert(self.order()[k] == b);
            }
            assert forall|b: BlockId, k: int| 0 <= k < self.insts_of(b).len() implies self.block_of(#[trigger] self.insts_of(b)[k]) == Some(b) by {
                assert(start.insts_of(b) == self.insts_of(b));
            }
            assert forall|b: BlockId, k: int, l: int| 0 <= k < l < self.insts_of(b).len() implies #[trigger] self.insts_of(b)[k] != #[trigger] self.insts_of(b)[l] by {
                assert(start.insts_of(b) == self.insts_of(b));
            }
            assert forall|i: Insn| #[trigger] self.block_of(i) is Some implies self.insts_of(self.block_of(i)->Some_0).contains(i) by {
                assert(start.block_of(i) == self.block_of(i));
                let b = self.block_of(i)->Some_0;
                assert(start.insts_of(b) == self.insts_of(b));
            }
        }
    }

    /// Appends `insn`, which is not laid out yet, at the end of `block`,
    /// which is.
    pub fn append_insn(&mut self, insn: Insn, block: BlockId)
        requires
            old(self).wf(),
            old(self).order().contains(block),
            old(self).block_of(insn) is None,
        ensures
            final(self).wf(),
            final(self).order() == old(self).order(),
            final(self).insts_of(block) == old(self).insts_of(block).push(insn),
            forall|b: BlockId| b != block ==> #[trigger] final(self).insts_of(b) == old(self).insts_of(b),
            final(self).block_of(insn) == Some(block),
            forall|i: Insn| i != insn ==> #[trigger] final(self).block_of(i) == old(self).block_of(i),
    {
        let ghost start = *self;
        while self.insn_block.len() <= insn.0 as usize
            invariant
                self.blocks == start.blocks,
                self.block_insts == start.block_insts,
                forall|i: Insn| #[trigger] self.block_of(i) == start.block_of(i),
            decreases insn.0 as int + 1 - self.insn_block@.len(),
        {
            let ghost before = *self;
            self.insn_block.push(None);
            proof {
                assert forall|i: Insn| #[trigger] self.block_of(i) == start.block_of(i) by {
                    assert(before.block_of(i) == start.block_of(i));
                    if (i.0 as int) < before.insn_block@.len() {
                        assert(self.insn_block@[i.0 as int] == before.insn_block@[i.0 as int]);
                    }
                }
            }
        }
        let ghost after1 = *self;
        while self.block_insts.len() <= block.0 as usize
            invariant
                self.blocks == start.blocks,
                self.insn_block == after1.insn_block,
                forall|i: Insn| #[trigger] after1.block_of(i) == start.block_of(i),
                self.insn_block@.len() > insn.0 as int,
                forall|i: Insn| #[trigger] self.block_of(i) == start.block_of(i),
                forall|b: BlockId| #[trigger] self.insts_of(b) == start.insts_of(b),
            decreases block.0 as int + 1 - self.block_insts@.len(),
        {
            let ghost before = *self;
            self.block_insts.push(Vec::new());
            proof {
                assert forall|i: Insn| #[trigger] self.block_of(i) == start.block_of(i) by {
                    assert(after1.block_of(i) == start.block_of(i));
                }
                assert forall|b: BlockId| #[trigger] self.insts_of(b) == start.insts_of(b) by {
                    assert(before.insts_of(b) == start.insts_of(b));
                    if (b.0 as int) < before.block_insts@.len() {
                        assert(self.block_insts@[b.0 as int] == before.block_insts@[b.0 as int]);
                    } else if (b.0 as int) < self.block_insts@.len() {
                        assert(self.insts_of(b) =~= Seq::<Insn>::empty());
                    }
                }
            }
        }
        let ghost mid = *self;
        self.block_insts[block.0 as usize].push(insn);
        self.insn_block.set(insn.0 as usize, Some(block));
        proof {
            assert forall|b: BlockId| b != block implies #[trigger] self.insts_of(b) == start.insts_of(b) by {
                assert(mid.insts_of(b) == start.insts_of(b));
                if (b.0 as int) < self.block_insts@.len() {
                    assert(self.block_insts@[b.0 as int] == mid.block_insts@[b.0 as int]);
                }
            }
            assert(self.insts_of(block) == start.insts_of(block).push(insn)) by {
                assert(mid.insts_of(block) == start.insts_of(block));
            }
            assert forall|i: Insn| i != insn implies #[trigger] self.block_of(i) == start.block_of(i) by {
                assert(mid.block_of(i) == start.block_of(i));
            }
            assert(!start.insts_of(block).contains(insn)) by {
                if start.insts_of(block).contains(insn) {
                    let k = choose|k: int| 0 <= k < start.insts_of(block).len() && start.insts_of(block)[k] == insn;
                    assert(start.block_of(start.insts_of(block)[k]) == Some(block));
                }
            }
            assert forall|b: BlockId| #[trigger] self.insts_of(b).len() > 0 implies self.order().contains(b) by {
                if b != block {
                    assert(start.insts_of(b).len() > 0);
                }
            }
            assert forall|b: BlockId, k: int| 0 <= k < self.insts_of(b).len() implies self.block_of(#[trigger] self.insts_of(b)[k]) == Some(b) by {
                if b == block && k == self.insts_of(b).len() - 1 {
                } else {
                    let j = self.insts_of(b)[k];
                    assert(start.insts_of(b)[k] == j);
                    assert(start.block_of(j) == Some(b));
                    assert(j != insn);
                }
            }
            assert forall|b: BlockId, k: int, l: int| 0 <= k < l < self.insts_of(b).len() implies #[trigger] self.insts_of(b)[k] != #[trigger] self.insts_of(b)[l] by {
                if b == block && l == self.insts_of(b).len() - 1 {
                    assert(start.insts_of(b)[k] == self.insts_of(b)[k]);
                    assert(start.insts_of(block).contains(start.insts_of(b)[k]));
                } else {
                    assert(start.insts_of(b)[k] == self.insts_of(b)[k]);
                    assert(start.insts_of(b)[l] == self.insts_of(b)[l]);
                }
            }
            assert forall|i: Insn| #[trigger] self.block_of(i) is Some implies self.insts_of(self.block_of(i)->Some_0).contains(i) by {
                if i == insn {
                    assert(self.insts_of(block)[self.insts_of(block).len() - 1] == insn);
                } else {
                    let b = self.block_of(i)->Some_0;
                    assert(start.block_of(i) == Some(b));
                    assert(start.insts_of(b).contains(i));
                    let k = choose|k: int| 0 <= k < start.insts_of(b).len() && start.insts_of(b)[k] == i;
                    assert(self.insts_of(b)[k] == i);
                }
            }
        }
    }
}

impl Layout {
    /// The last instruction of `b`, if any.
    pub open spec fn last_of(&self, b: BlockId) -> Option<Insn> {
        if self.insts_of(b).len() > 0 {
            Some(self.insts_of(b).last())
        } else {
            None
        }
    }
}

/// A short list of values, held in a `smallvec::SmallVec`.
#[verifier::external_body]
#[derive(Debug)]
pub struct ValueList {
    v: smallvec::SmallVec<[Value; 8]>,
}

/// The values of a list, in order.
pub uninterp spec fn value_list_items(l: ValueList) -> Seq<Value>;

/// Relies on `smallvec::SmallVec::new`: a new vector is empty.
#[verifier::external_body]
fn value_list_new() -> (r: ValueList)
    ensures
        value_list_items(r) == Seq::<Value>::empty(),
{
    ValueList { v: smallvec::SmallVec::new() }
}

/// Relies on `smallvec::SmallVec::push`: the value is appended.
#[verifier::external_body]
fn value_list_push(l: &mut ValueList, x: Value)
    ensures
        value_list_items(*final(l)) == value_list_items(*old(l)).push(x),
{
    l.v.push(x)
}

/// Relies on `smallvec::SmallVec::as_slice`: the elements, in order.
#[verifier::external_body]
fn value_list_as_slice(l: &ValueList) -> (r: &[Value])
    ensures
        r@ == value_list_items(*l),
{
    l.v.as_slice()
}

/// A function's name, linkage, argument types and return types.
#[derive(Debug)]
pub struct Signature {
    pub name: String,
    pub linkage: Linkage,
    pub args: TypeList,
    pub rets: TypeList,
}

/// A short list of types, held in a `smallvec::SmallVec`.
#[verifier::external_body]
#[derive(Debug)]
pub struct TypeList {
    v: smallvec::SmallVec<[Type; 8]>,
}

/// The types of a list, in order.
pub uninterp spec fn type_list_items(l: TypeList) -> Seq<Type>;

/// Relies on `smallvec::SmallVec::from_slice`: the vector holds the
/// slice's elements, in order.
#[verifier::external_body]
fn type_list_from_slice(s: &[Type]) -> (r: TypeList)
    ensures
        type_list_items(r) == s@,
{
    TypeList { v: smallvec::SmallVec::from_slice(s) }
}

/// Relies on `smallvec::SmallVec::push`: the value is appended.
#[verifier::external_body]
fn type_list_push(l: &mut TypeList, t: Type)
    ensures
        type_list_items(*final(l)) == type_list_items(*old(l)).push(t),
{
    l.v.push(t)
}

/// Relies on `smallvec::SmallVec::as_slice`: the elements, in order.
#[verifier::external_body]
fn type_list_as_slice(l: &TypeList) -> (r: &[Type])
    ensures
        r@ == type_list_items(*l),
{
    l.v.as_slice()
}

impl Signature {
    /// The argument types, in order.
    pub open spec fn arg_types(&self) -> Seq<Type> {
        type_list_items(self.args)
    }

    /// The return types, in order.
    pub open spec fn ret_types(&self) -> Seq<Type> {
        type_list_items(self.rets)
    }

    pub fn new(name: &str, linkage: Linkage, args: &[Type], rets: &[Type]) -> (r: Signature)
        ensures
            r.name@ == name@,
            r.linkage == linkage,
            r.arg_types() == args@,
            r.ret_types() == rets@,
    {
        Signature { name: name.to_owned(), linkage, args: type_list_from_slice(args), rets: type_list_from_slice(rets) }
    }

    pub fn append_arg(&mut self, arg: Type)
        ensures
            final(self).arg_types() == old(self).arg_types().push(arg),
            final(self).ret_types() == old(self).ret_types(),
            final(self).name == old(self).name,
            final(self).linkage == old(self).linkage,
    {
        type_list_push(&mut self.args, arg);
    }

    pub fn append_return(&mut self, ret: Type)
        ensures
            final(self).ret_types() == old(self).ret_types().push(ret),
            final(self).arg_types() == old(self).arg_types(),
            final(self).name == old(self).name,
            final(self).linkage == old(self).linkage,
    {
        type_list_push(&mut self.rets, ret);
    }

    pub fn name(&self) -> (r: &str)
        ensures
            r@ == self.name@,
    {
        self.name.as_str()
    }

    pub fn linkage(&self) -> (r: Linkage)
        ensures
            r == self.linkage,
    {
        self.linkage
    }

    pub fn args(&self) -> (r: &[Type])
        ensures
            r@ == self.arg_types(),
    {
        type_list_as_slice(&self.args)
    }

    pub fn return_types(&self) -> (r: &[Type])
        ensures
            r@ == self.ret_types(),
    {
        type_list_as_slice(&self.rets)
    }
}

/// A function: its signature, argument values, data-flow graph and layout.
#[derive(Debug)]
pub struct Function {
    pub name: String,
    pub sig: Signature,
    pub arg_values: ValueList,
    pub dfg: DataFlowGraph,
    pub layout: Layout,
}

impl Function {
    /// The argument values, in argument order.
    pub open spec fn arg_value_seq(&self) -> Seq<Value> {
        value_list_items(self.arg_values)
    }

    /// The argument values, in argument order.
    pub fn arg_values(&self) -> (r: &[Value])
        ensures
            r@ == self.arg_value_seq(),
    {
        value_list_as_slice(&self.arg_values)
    }

    /// The function's invariant: its graph and layout are well formed, laid
    /// out blocks and instructions were issued by the graph, each argument
    /// value is defined as its argument, and within a block only the last
    /// instruction may be a terminator.
    pub open spec fn wf(&self) -> bool {
        &&& self.dfg.wf()
        &&& self.layout.wf()
        &&& forall|k: int| 0 <= k < self.layout.order().len() ==> (#[trigger] self.layout.order()[k]).0 < self.dfg.block_count()
        &&& forall|i: Insn| #[trigger] self.layout.block_of(i) is Some ==> self.dfg.valid_insn(i)
        &&& self.arg_value_seq().len() == self.sig.arg_types().len()
        &&& forall|k: int| 0 <= k < self.arg_value_seq().len() ==> {
            &&& self.dfg.valid_value(#[trigger] self.arg_value_seq()[k])
            &&& self.dfg.defs()[self.arg_value_seq()[k].0 as int] == (ValueDef::Arg { ty: self.sig.arg_types()[k], idx: k as usize })
        }
        &&& forall|b: BlockId, k: int| 0 <= k < self.layout.insts_of(b).len() - 1
            ==> !inst_is_terminator(self.dfg.insts()[(#[trigger] self.layout.insts_of(b)[k]).0 as int])
    }

    /// Every non-empty block ends in a terminator.
    pub open spec fn blocks_terminated(&self) -> bool {
        forall|b: BlockId| #[trigger] self.layout.insts_of(b).len() > 0
            ==> inst_is_terminator(self.dfg.insts()[self.layout.insts_of(b).last().0 as int])
    }

    /// A function with the given signature, whose arguments are materialised
    /// as values and which has no blocks yet.
    pub fn new(sig: Signature) -> (r: Function)
        requires
            sig.arg_types().len() < u32::MAX,
        ensures
            r.wf(),
            r.name@ == sig.name@,
            r.sig.arg_types() == sig.arg_types(),
            r.sig.ret_types() == sig.ret_types(),
            r.sig.linkage == sig.linkage,
            r.sig.name@ == sig.name@,
            r.layout.order().len() == 0,
            r.dfg.insts().len() == 0,
            r.dfg.defs().len() == sig.arg_types().len(),
            forall|k: int| 0 <= k < r.arg_value_seq().len() ==> (#[trigger] r.arg_value_seq()[k]).0 == k,
            r.dfg.block_count() == 0,
    {
        let mut dfg = DataFlowGraph::new();
        let mut arg_values = value_list_new();
        let arg_tys = type_list_as_slice(&sig.args);
        let n = arg_tys.len();
        let mut idx: usize = 0;
        while idx < n
            invariant
                n == sig.arg_types().len(),
                arg_tys@ == sig.arg_types(),
                n < u32::MAX,
                idx <= n,
                dfg.wf(),
                dfg.insts().len() == 0,
                dfg.block_count() == 0,
                dfg.defs().len() == idx,
                value_list_items(arg_values).len() == idx,
                forall|k: int| 0 <= k < idx ==> (#[trigger] value_list_items(arg_values)[k]).0 == k,
                forall|k: int| 0 <= k < idx ==> #[trigger] dfg.defs()[k] == (ValueDef::Arg { ty: sig.arg_types()[k], idx: k as usize }),
            decreases n - idx,
        {
            let def = dfg.make_arg_value(arg_tys[idx], idx);
            proof {
                assert(!dfg.has_arg(idx)) by {
                    if dfg.has_arg(idx) {
                        let w = choose|w: int| 0 <= w < dfg.defs().len() && (#[trigger] dfg.defs()[w]) is Arg && dfg.defs()[w]->Arg_idx == idx;
                        assert(dfg.defs()[w] == (ValueDef::Arg { ty: sig.arg_types()[w], idx: w as usize }));
                    }
                }
            }
            let v = dfg.make_value(def);
            value_list_push(&mut arg_values, v);
            idx = idx + 1;
        }
        let name = sig.name.clone();
        let layout = Layout::new();
        let f = Function { name, sig, arg_values, dfg, layout };
        proof {
            assert forall|k: int| 0 <= k < f.arg_value_seq().len() implies {
                &&& f.dfg.valid_value(#[trigger] f.arg_value_seq()[k])
                &&& f.dfg.defs()[f.arg_value_seq()[k].0 as int] == (ValueDef::Arg { ty: f.sig.arg_types()[k], idx: k as usize })
            } by {
                assert(f.arg_value_seq()[k].0 == k);
            }
        }
        f
    }

    /// Creates a block and appends it to the layout.
    pub fn append_block(&mut self) -> (r: BlockId)
        requires
            old(self).wf(),
            old(self).dfg.block_count() < u32::MAX,
        ensures
            final(self).wf(),
            final(self).layout.order() == old(self).layout.order().push(r),
            forall|b: BlockId| #[trigger] final(self).layout.insts_of(b) == old(self).layout.insts_of(b),
            final(self).dfg.insts() == old(self).dfg.insts(),
            final(self).dfg.defs() == old(self).dfg.defs(),
            final(self).dfg.block_count() == old(self).dfg.block_count() + 1,
            final(self).sig == old(self).sig,
    {
        let b = self.dfg.make_block();
        proof {
            if self.layout.order().contains(b) {
                let k = choose|k: int| 0 <= k < self.layout.order().len() && self.layout.order()[k] == b;
                assert(self.layout.order()[k].0 < old(self).dfg.block_count());
            }
        }
        self.layout.append_block(b);
        proof {
            assert forall|k: int| 0 <= k < self.layout.order().len() implies (#[trigger] self.layout.order()[k]).0 < self.dfg.block_count() by {
                if k < old(self).layout.order().len() {
                    assert(self.layout.order()[k] == old(self).layout.order()[k]);
                }
            }
            assert forall|i: Insn| #[trigger] self.layout.block_of(i) is Some implies self.dfg.valid_insn(i) by {
                assert(old(self).layout.block_of(i) is Some);
            }
            assert forall|b2: BlockId, k: int| 0 <= k < self.layout.insts_of(b2).len() - 1
                implies !inst_is_terminator(self.dfg.insts()[(#[trigger] self.layout.insts_of(b2)[k]).0 as int]) by {
                assert(old(self).layout.insts_of(b2) == self.layout.insts_of(b2));
            }
            assert forall|k: int| 0 <= k < self.arg_value_seq().len() implies {
                &&& self.dfg.valid_value(#[trigger] self.arg_value_seq()[k])
                &&& self.dfg.defs()[self.arg_value_seq()[k].0 as int] == (ValueDef::Arg { ty: self.sig.arg_types()[k], idx: k as usize })
            } by {
                assert(old(self).dfg.valid_value(old(self).arg_value_seq()[k]));
            }
        }
        b
    }

    /// Stores `inst` and appends it to `block`, which must be laid out and
    /// must not end in a terminator yet.
    pub fn append_inst(&mut self, inst: InstData, block: BlockId) -> (r: Insn)
        requires
            old(self).wf(),
            old(self).layout.order().contains(block),
            old(self).layout.last_of(block) matches Some(l) ==> !inst_is_terminator(old(self).dfg.insts()[l.0 as int]),
            old(self).dfg.insts().len() < u32::MAX,
            old(self).dfg.defs().len() < u32::MAX,
        ensures
            final(self).wf(),
            final(self).dfg.insts() == old(self).dfg.insts().push(inst),
            r.0 as int == old(self).dfg.insts().len(),
            final(self).layout.order() == old(self).layout.order(),
            final(self).layout.insts_of(block) == old(self).layout.insts_of(block).push(r),
            forall|b: BlockId| b != block ==> #[trigger] final(self).layout.insts_of(b) == old(self).layout.insts_of(b),
            final(self).dfg.block_count() == old(self).dfg.block_count(),
            final(self).sig == old(self).sig,
    {
        let insn = self.dfg.make_inst(inst);
        proof {
            if self.layout.block_of(insn) is Some {
                assert(old(self).dfg.valid_insn(insn));
            }
        }
        self.layout.append_insn(insn, block);
        proof {
            let od = old(self).dfg;
            assert forall|i: Insn| #[trigger] self.layout.block_of(i) is Some implies self.dfg.valid_insn(i) by {
                if i != insn {
                    assert(old(self).layout.block_of(i) is Some);
                }
            }
            assert forall|k: int| 0 <= k < self.arg_value_seq().len() implies {
                &&& self.dfg.valid_value(#[trigger] self.arg_value_seq()[k])
                &&& self.dfg.defs()[self.arg_value_seq()[k].0 as int] == (ValueDef::Arg { ty: self.sig.arg_types()[k], idx: k as usize })
            } by {
                assert(od.valid_value(old(self).arg_value_seq()[k]));
                assert(od.defs()[old(self).arg_value_seq()[k].0 as int] == self.dfg.defs()[self.arg_value_seq()[k].0 as int]);
            }
            assert forall|b: BlockId, k: int| 0 <= k < self.layout.insts_of(b).len() - 1
                implies !inst_is_terminator(self.dfg.insts()[(#[trigger] self.layout.insts_of(b)[k]).0 as int]) by {
                let ob = old(self).layout.insts_of(b);
                if b == block && k == ob.len() - 1 {
                    assert(self.layout.insts_of(b)[k] == ob.last());
                    assert(old(self).layout.block_of(ob.last()) == Some(b));
                    assert(od.valid_insn(ob.last()));
                    assert(self.dfg.insts()[ob.last().0 as int] == od.insts()[ob.last().0 as int]);
                } else {
                    assert(self.layout.insts_of(b)[k] == ob[k]);
                    assert(old(self).layout.block_of(ob[k]) == Some(b));
                    assert(od.valid_insn(ob[k]));
                    assert(self.dfg.insts()[ob[k].0 as int] == od.insts()[ob[k].0 as int]);
                }
            }
        }
        insn
    }
}

/// Within a block of a well-formed function only the last instruction can
/// be a terminator; when every block is terminated, a non-empty block ends
/// in one.
pub proof fn lemma_terminator_last(f: &Function, b: BlockId, k: int)
    requires
        f.wf(),
        0 <= k < f.layout.insts_of(b).len(),
    ensures
        k < f.layout.insts_of(b).len() - 1 ==> !inst_is_terminator(f.dfg.insts()[f.layout.insts_of(b)[k].0 as int]),
        f.blocks_terminated() && k == f.layout.insts_of(b).len() - 1
            ==> inst_is_terminator(f.dfg.insts()[f.layout.insts_of(b)[k].0 as int]),
{
}

} // verus!
