//! Instructions: one tagged variant per opcode, the capability set every
//! instruction offers, and per-target instruction-set witnesses.
use vstd::prelude::*;

use crate::cfg::BlockId;
use crate::module::FuncRef;
use crate::types::Type;

verus! {

/// An SSA value of a function.
#[derive(Debug, Clone, Copy, PartialEq, Eq, Structural, PartialOrd, Ord, Hash)]
pub struct Value(pub u32);

/// An opaque reference to an instruction of a function.
#[derive(Debug, Clone, Copy, PartialEq, Eq, Structural, PartialOrd, Ord, Hash)]
pub struct Insn(pub u32);

#[derive(Debug, Clone, Copy, PartialEq, Eq, Structural, Hash)]
pub enum BinaryOp {
    Add,
    Sub,
    Mul,
    Sdiv,
    Udiv,
    And,
    Or,
    Xor,
    Shl,
    Shr,
}

#[derive(Debug, Clone, Copy, PartialEq, Eq, Structural, Hash)]
pub enum UnaryOp {
    Not,
    Neg,
}

#[derive(Debug, Clone, Copy, PartialEq, Eq, Structural, Hash)]
pub enum CmpOp {
    Eq,
    Ne,
    Lt,
    Gt,
    Slt,
    Sgt,
    Le,
    Ge,
}

#[derive(Debug, Clone, Copy, PartialEq, Eq, Structural, Hash)]
pub enum CastOp {
    Sext,
    Zext,
    Trunc,
    Bitcast,
}

/// The opcode class of an instruction.
#[derive(Debug, Clone, Copy, PartialEq, Eq, Structural, Hash)]
pub enum InstKind {
    Binary,
    Unary,
    Cmp,
    Cast,
    Load,
    Store,
    Gep,
    Call,
    Jump,
    Br,
    BrTable,
    Return,
    Unreachable,
}

/// An instruction.
#[derive(Debug, Clone, PartialEq, Eq, Hash)]
pub enum InstData {
    Binary { op: BinaryOp, lhs: Value, rhs: Value, ty: Type },
    Unary { op: UnaryOp, arg: Value, ty: Type },
    Cmp { op: CmpOp, lhs: Value, rhs: Value },
    Cast { op: CastOp, arg: Value, ty: Type },
    Load { addr: Value, ty: Type },
    Store { addr: Value, value: Value },
    Gep { values: Vec<Value>, ty: Type },
    Call { callee: FuncRef, args: Vec<Value>, ret_ty: Option<Type> },
    Jump { dest: BlockId },
    Br { cond: Value, nz_dest: BlockId, z_dest: BlockId },
    BrTable { scrutinee: Value, default: Option<BlockId>, table: Vec<(Value, BlockId)> },
    Return { arg: Option<Value> },
    Unreachable,
}

/// The destinations of a terminator.
#[derive(Debug, Clone)]
pub struct BranchInfo {
    pub dests: Vec<BlockId>,
}

impl BranchInfo {
    pub fn dests(&self) -> (r: &Vec<BlockId>)
        ensures
            r@ == self.dests@,
    {
        &self.dests
    }
}

/// The values of a jump table, in order.
pub open spec fn table_values(t: Seq<(Value, BlockId)>) -> Seq<Value> {
    t.map_values(|e: (Value, BlockId)| e.0)
}

/// The destinations of a jump table, in order.
pub open spec fn table_dests(t: Seq<(Value, BlockId)>) -> Seq<BlockId> {
    t.map_values(|e: (Value, BlockId)| e.1)
}

pub open spec fn opt_values(v: Option<Value>) -> Seq<Value> {
    match v {
        Some(x) => seq![x],
        None => Seq::empty(),
    }
}

/// The value operands of `i`, in order.
pub open spec fn inst_values(i: InstData) -> Seq<Value> {
    match i {
        InstData::Binary { lhs, rhs, .. } => seq![lhs, rhs],
        InstData::Unary { arg, .. } => seq![arg],
        InstData::Cmp { lhs, rhs, .. } => seq![lhs, rhs],
        InstData::Cast { arg, .. } => seq![arg],
        InstData::Load { addr, .. } => seq![addr],
        InstData::Store { addr, value } => seq![addr, value],
        InstData::Gep { values, .. } => values@,
        InstData::Call { args, .. } => args@,
        InstData::Jump { .. } => Seq::empty(),
        InstData::Br { cond, .. } => seq![cond],
        InstData::BrTable { scrutinee, table, .. } => seq![scrutinee] + table_values(table@),
        InstData::Return { arg } => opt_values(arg),
        InstData::Unreachable => Seq::empty(),
    }
}

pub open spec fn inst_is_terminator(i: InstData) -> bool {
    match i {
        InstData::Jump { .. } | InstData::Br { .. } | InstData::BrTable { .. } | InstData::Return { .. }
        | InstData::Unreachable => true,
        _ => false,
    }
}

pub open spec fn inst_is_return(i: InstData) -> bool {
    i is Return
}

/// The blocks a terminator may pass control to; empty for any other
/// instruction and for returns.
pub open spec fn inst_dests(i: InstData) -> Seq<BlockId> {
    match i {
        InstData::Jump { dest } => seq![dest],
        InstData::Br { nz_dest, z_dest, .. } => seq![nz_dest, z_dest],
        InstData::BrTable { default, table, .. } => (match default {
            Some(d) => seq![d],
            None => Seq::empty(),
        }) + table_dests(table@),
        _ => Seq::empty(),
    }
}

/// The type of the value `i` defines, if it defines one.
pub open spec fn inst_result_ty(i: InstData) -> Option<Type> {
    match i {
        InstData::Binary { ty, .. } => Some(ty),
        InstData::Unary { ty, .. } => Some(ty),
        InstData::Cmp { .. } => Some(Type::I1),
        InstData::Cast { ty, .. } => Some(ty),
        InstData::Load { ty, .. } => Some(ty),
        InstData::Gep { ty, .. } => Some(ty),
        InstData::Call { ret_ty, .. } => ret_ty,
        _ => None,
    }
}

pub open spec fn inst_kind(i: InstData) -> InstKind {
    match i {
        InstData::Binary { .. } => InstKind::Binary,
        InstData::Unary { .. } => InstKind::Unary,
        InstData::Cmp { .. } => InstKind::Cmp,
        InstData::Cast { .. } => InstKind::Cast,
        InstData::Load { .. } => InstKind::Load,
        InstData::Store { .. } => InstKind::Store,
        InstData::Gep { .. } => InstKind::Gep,
        InstData::Call { .. } => InstKind::Call,
        InstData::Jump { .. } => InstKind::Jump,
        InstData::Br { .. } => InstKind::Br,
        InstData::BrTable { .. } => InstKind::BrTable,
        InstData::Return { .. } => InstKind::Return,
        InstData::Unreachable => InstKind::Unreachable,
    }
}

/// Stores, calls and terminators have side effects.
pub open spec fn inst_has_side_effect(i: InstData) -> bool {
    i is Store || i is Call || inst_is_terminator(i)
}

fn copy_values(v: &Vec<Value>, out: &mut Vec<Value>)
    ensures
        final(out)@ == old(out)@ + v@,
{
    let ghost start = out@;
    let mut i: usize = 0;
    while i < v.len()
        invariant
            i <= v@.len(),
            out@ == start + v@.subrange(0, i as int),
        decreases v@.len() - i,
    {
        out.push(v[i]);
        i = i + 1;
        assert(out@ =~= start + v@.subrange(0, i as int));
    }
    assert(v@.subrange(0, v@.len() as int) =~= v@);
}

/// The capability set of an instruction.
pub trait Inst {
    spec fn operands(&self) -> Seq<Value>;

    spec fn terminates(&self) -> bool;

    spec fn branch_dests(&self) -> Seq<BlockId>;

    spec fn side_effect(&self) -> bool;

    spec fn tag(&self) -> Seq<char>;

    /// Every operand value, in order.
    fn visit_values(&self) -> (r: Vec<Value>)
        ensures
            r@ == self.operands();

    /// Replaces every operand equal to `from` with `to`.
    fn replace_value(&mut self, from: Value, to: Value)
        ensures
            substituted(old(self).operands(), final(self).operands(), from, to);

    /// Conservatively true for stores, calls and terminators.
    fn has_side_effect(&self) -> (r: bool)
        ensures
            r == self.side_effect();

    /// The opcode's textual tag.
    fn as_text(&self) -> (r: &'static str)
        ensures
            r@ == self.tag();

    fn is_terminator(&self) -> (r: bool)
        ensures
            r == self.terminates();

    /// The destinations of a terminator; empty for other instructions.
    fn analyze_branch(&self) -> (r: BranchInfo)
        ensures
            r.dests@ == self.branch_dests(),
            !self.terminates() ==> r.dests@.len() == 0;
}

fn subst(v: Value, from: Value, to: Value) -> (r: Value)
    ensures
        r == if v == from { to } else { v },
{
    if v == from {
        to
    } else {
        v
    }
}

/// `r` is `s` with every `from` replaced by `to`.
pub open spec fn substituted(s: Seq<Value>, r: Seq<Value>, from: Value, to: Value) -> bool {
    &&& r.len() == s.len()
    &&& forall|k: int| 0 <= k < s.len() ==> #[trigger] r[k] == if s[k] == from {
        to
    } else {
        s[k]
    }
}

fn replaced(vs: &Vec<Value>, from: Value, to: Value) -> (r: Vec<Value>)
    ensures
        substituted(vs@, r@, from, to),
{
    let mut out: Vec<Value> = Vec::new();
    let mut i: usize = 0;
    while i < vs.len()
        invariant
            i <= vs@.len(),
            substituted(vs@.subrange(0, i as int), out@, from, to),
        decreases vs@.len() - i,
    {
        out.push(subst(vs[i], from, to));
        i = i + 1;
    }
    assert(vs@.subrange(0, vs@.len() as int) =~= vs@);
    out
}

fn replaced_table(vs: &Vec<(Value, BlockId)>, from: Value, to: Value) -> (r: Vec<(Value, BlockId)>)
    ensures
        substituted(table_values(vs@), table_values(r@), from, to),
        table_dests(r@) == table_dests(vs@),
{
    let mut out: Vec<(Value, BlockId)> = Vec::new();
    let mut i: usize = 0;
    while i < vs.len()
        invariant
            i <= vs@.len(),
            out@.len() == i,
            forall|k: int| 0 <= k < i ==> (#[trigger] out@[k]).1 == vs@[k].1 && out@[k].0 == if vs@[k].0 == from {
                to
            } else {
                vs@[k].0
            },
        decreases vs@.len() - i,
    {
        let e = vs[i];
        out.push((subst(e.0, from, to), e.1));
        i = i + 1;
    }
    assert(table_dests(out@) =~= table_dests(vs@));
    assert(substituted(table_values(vs@), table_values(out@), from, to));
    out
}

/// The textual tag of an instruction's opcode.
pub open spec fn opcode_text(i: InstData) -> Seq<char> {
    match i {
        InstData::Binary { op, .. } => match op {
            BinaryOp::Add => seq!['a', 'd', 'd'],
            BinaryOp::Sub => seq!['s', 'u', 'b'],
            BinaryOp::Mul => seq!['m', 'u', 'l'],
            BinaryOp::Sdiv => seq!['s', 'd', 'i', 'v'],
            BinaryOp::Udiv => seq!['u', 'd', 'i', 'v'],
            BinaryOp::And => seq!['a', 'n', 'd'],
            BinaryOp::Or => seq!['o', 'r'],
            BinaryOp::Xor => seq!['x', 'o', 'r'],
            BinaryOp::Shl => seq!['s', 'h', 'l'],
            BinaryOp::Shr => seq!['s', 'h', 'r'],
        },
        InstData::Unary { op, .. } => match op {
            UnaryOp::Not => seq!['n', 'o', 't'],
            UnaryOp::Neg => seq!['n', 'e', 'g'],
        },
        InstData::Cmp { op, .. } => match op {
            CmpOp::Eq => seq!['e', 'q'],
            CmpOp::Ne => seq!['n', 'e'],
            CmpOp::Lt => seq!['l', 't'],
            CmpOp::Gt => seq!['g', 't'],
            CmpOp::Slt => seq!['s', 'l', 't'],
            CmpOp::Sgt => seq!['s', 'g', 't'],
            CmpOp::Le => seq!['l', 'e'],
            CmpOp::Ge => seq!['g', 'e'],
        },
        InstData::Cast { op, .. } => match op {
            CastOp::Sext => seq!['s', 'e', 'x', 't'],
            CastOp::Zext => seq!['z', 'e', 'x', 't'],
            CastOp::Trunc => seq!['t', 'r', 'u', 'n', 'c'],
            CastOp::Bitcast => seq!['b', 'i', 't', 'c', 'a', 's', 't'],
        },
        InstData::Load { .. } => seq!['m', 'l', 'o', 'a', 'd'],
        InstData::Store { .. } => seq!['m', 's', 't', 'o', 'r', 'e'],
        InstData::Gep { .. } => seq!['g', 'e', 'p'],
        InstData::Call { .. } => seq!['c', 'a', 'l', 'l'],
        InstData::Jump { .. } => seq!['j', 'u', 'm', 'p'],
        InstData::Br { .. } => seq!['b', 'r'],
        InstData::BrTable { .. } => seq!['b', 'r', '_', 't', 'a', 'b', 'l', 'e'],
        InstData::Return { .. } => seq!['r', 'e', 't', 'u', 'r', 'n'],
        InstData::Unreachable => seq!['u', 'n', 'r', 'e', 'a', 'c', 'h', 'a', 'b', 'l', 'e'],
    }
}

impl InstData {
    pub fn kind(&self) -> (r: InstKind)
        ensures
            r == inst_kind(*self),
    {
        match self {
            InstData::Binary { .. } => InstKind::Binary,
            InstData::Unary { .. } => InstKind::Unary,
            InstData::Cmp { .. } => InstKind::Cmp,
            InstData::Cast { .. } => InstKind::Cast,
            InstData::Load { .. } => InstKind::Load,
            InstData::Store { .. } => InstKind::Store,
            InstData::Gep { .. } => InstKind::Gep,
            InstData::Call { .. } => InstKind::Call,
            InstData::Jump { .. } => InstKind::Jump,
            InstData::Br { .. } => InstKind::Br,
            InstData::BrTable { .. } => InstKind::BrTable,
            InstData::Return { .. } => InstKind::Return,
            InstData::Unreachable => InstKind::Unreachable,
        }
    }

    pub fn is_return(&self) -> (r: bool)
        ensures
            r == inst_is_return(*self),
    {
        match self {
            InstData::Return { .. } => true,
            _ => false,
        }
    }

    /// The type of the value this instruction defines, if it defines one.
    pub fn result_ty(&self) -> (r: Option<Type>)
        ensures
            r == inst_result_ty(*self),
    {
        match self {
            InstData::Binary { ty, .. } => Some(*ty),
            InstData::Unary { ty, .. } => Some(*ty),
            InstData::Cmp { .. } => Some(Type::I1),
            InstData::Cast { ty, .. } => Some(*ty),
            InstData::Load { ty, .. } => Some(*ty),
            InstData::Gep { ty, .. } => Some(*ty),
            InstData::Call { ret_ty, .. } => *ret_ty,
            _ => None,
        }
    }
}

impl InstData {
    /// Every operand value, in order.
    pub fn values(&self) -> (r: Vec<Value>)
        ensures
            r@ == inst_values(*self),
    {
        let mut out: Vec<Value> = Vec::new();
        match self {
            InstData::Binary { lhs, rhs, .. } => {
                out.push(*lhs);
                out.push(*rhs);
            },
            InstData::Cmp { lhs, rhs, .. } => {
                out.push(*lhs);
                out.push(*rhs);
            },
            InstData::Unary { arg, .. } => {
                out.push(*arg);
            },
            InstData::Cast { arg, .. } => {
                out.push(*arg);
            },
            InstData::Load { addr, .. } => {
                out.push(*addr);
            },
            InstData::Store { addr, value } => {
                out.push(*addr);
                out.push(*value);
            },
            InstData::Gep { values, .. } => {
                copy_values(values, &mut out);
            },
            InstData::Call { args, .. } => {
                copy_values(args, &mut out);
            },
            InstData::Jump { .. } => {},
            InstData::Unreachable => {},
            InstData::Br { cond, .. } => {
                out.push(*cond);
            },
            InstData::BrTable { scrutinee, table, .. } => {
                out.push(*scrutinee);
                let ghost start = out@;
                let mut i: usize = 0;
                while i < table.len()
                    invariant
                        i <= table@.len(),
                        out@ == start + table_values(table@.subrange(0, i as int)),
                    decreases table@.len() - i,
                {
                    out.push(table[i].0);
                    i = i + 1;
                    assert(out@ =~= start + table_values(table@.subrange(0, i as int)));
                }
                assert(table@.subrange(0, table@.len() as int) =~= table@);
            },
            InstData::Return { arg } => {
                if let Some(a) = arg {
                    out.push(*a);
                }
            },
        }
        assert(out@ =~= inst_values(*self));
        out
    }

    /// This instruction with every operand equal to `from` replaced by `to`.
    pub fn with_value_replaced(&self, from: Value, to: Value) -> (r: InstData)
        ensures
            substituted(inst_values(*self), inst_values(r), from, to),
            inst_kind(r) == inst_kind(*self),
            inst_dests(r) == inst_dests(*self),
            inst_result_ty(r) == inst_result_ty(*self),
    {
        let r = match self {
            InstData::Binary { op, lhs, rhs, ty } => InstData::Binary {
                op: *op,
                lhs: subst(*lhs, from, to),
                rhs: subst(*rhs, from, to),
                ty: *ty,
            },
            InstData::Unary { op, arg, ty } => InstData::Unary { op: *op, arg: subst(*arg, from, to), ty: *ty },
            InstData::Cmp { op, lhs, rhs } => InstData::Cmp {
                op: *op,
                lhs: subst(*lhs, from, to),
                rhs: subst(*rhs, from, to),
            },
            InstData::Cast { op, arg, ty } => InstData::Cast { op: *op, arg: subst(*arg, from, to), ty: *ty },
            InstData::Load { addr, ty } => InstData::Load { addr: subst(*addr, from, to), ty: *ty },
            InstData::Store { addr, value } => InstData::Store {
                addr: subst(*addr, from, to),
                value: subst(*value, from, to),
            },
            InstData::Gep { values, ty } => InstData::Gep { values: replaced(values, from, to), ty: *ty },
            InstData::Call { callee, args, ret_ty } => InstData::Call {
                callee: *callee,
                args: replaced(args, from, to),
                ret_ty: *ret_ty,
            },
            InstData::Jump { dest } => InstData::Jump { dest: *dest },
            InstData::Br { cond, nz_dest, z_dest } => InstData::Br {
                cond: subst(*cond, from, to),
                nz_dest: *nz_dest,
                z_dest: *z_dest,
            },
            InstData::BrTable { scrutinee, default, table } => {
                let t = replaced_table(table, from, to);
                InstData::BrTable { scrutinee: subst(*scrutinee, from, to), default: *default, table: t }
            },
            InstData::Return { arg } => InstData::Return {
                arg: match arg {
                    Some(a) => Some(subst(*a, from, to)),
                    None => None,
                },
            },
            InstData::Unreachable => InstData::Unreachable,
        };
        proof {
            if self is BrTable {
                let table = self->BrTable_table;
                let rv = inst_values(r);
                let sv = inst_values(*self);
                assert forall|k: int| 0 <= k < sv.len() implies #[trigger] rv[k] == if sv[k] == from { to } else { sv[k] } by {
                    if k > 0 {
                        assert(rv[k] == table_values(r->BrTable_table@)[k - 1]);
                        assert(sv[k] == table_values(table@)[k - 1]);
                    }
                }
            }
        }
        r
    }

    pub fn side_effect(&self) -> (r: bool)
        ensures
            r == inst_has_side_effect(*self),
    {
        match self {
            InstData::Store { .. } | InstData::Call { .. } | InstData::Jump { .. } | InstData::Br { .. }
            | InstData::BrTable { .. } | InstData::Return { .. } | InstData::Unreachable => true,
            _ => false,
        }
    }

    /// The opcode's textual tag.
    pub fn text(&self) -> (r: &'static str)
        ensures
            r@ == opcode_text(*self),
    {
        match self {
            InstData::Binary { op, .. } => match op {
                BinaryOp::Add => {
                    proof { reveal_strlit("add"); }
                    "add"
                },
                BinaryOp::Sub => {
                    proof { reveal_strlit("sub"); }
                    "sub"
                },
                BinaryOp::Mul => {
                    proof { reveal_strlit("mul"); }
                    "mul"
                },
                BinaryOp::Sdiv => {
                    proof { reveal_strlit("sdiv"); }
                    "sdiv"
                },
                BinaryOp::Udiv => {
                    proof { reveal_strlit("udiv"); }
                    "udiv"
                },
                BinaryOp::And => {
                    proof { reveal_strlit("and"); }
                    "and"
                },
                BinaryOp::Or => {
                    proof { reveal_strlit("or"); }
                    "or"
                },
                BinaryOp::Xor => {
                    proof { reveal_strlit("xor"); }
                    "xor"
                },
                BinaryOp::Shl => {
                    proof { reveal_strlit("shl"); }
                    "shl"
                },
                BinaryOp::Shr => {
                    proof { reveal_strlit("shr"); }
                    "shr"
                },
            },
            InstData::Unary { op, .. } => match op {
                UnaryOp::Not => {
                    proof { reveal_strlit("not"); }
                    "not"
                },
                UnaryOp::Neg => {
                    proof { reveal_strlit("neg"); }
                    "neg"
                },
            },
            InstData::Cmp { op, .. } => match op {
                CmpOp::Eq => {
                    proof { reveal_strlit("eq"); }
                    "eq"
                },
                CmpOp::Ne => {
                    proof { reveal_strlit("ne"); }
                    "ne"
                },
                CmpOp::Lt => {
                    proof { reveal_strlit("lt"); }
                    "lt"
                },
                CmpOp::Gt => {
                    proof { reveal_strlit("gt"); }
                    "gt"
                },
                CmpOp::Slt => {
                    proof { reveal_strlit("slt"); }
                    "slt"
                },
                CmpOp::Sgt => {
                    proof { reveal_strlit("sgt"); }
                    "sgt"
                },
                CmpOp::Le => {
                    proof { reveal_strlit("le"); }
                    "le"
                },
                CmpOp::Ge => {
                    proof { reveal_strlit("ge"); }
                    "ge"
                },
            },
            InstData::Cast { op, .. } => match op {
                CastOp::Sext => {
                    proof { reveal_strlit("sext"); }
                    "sext"
                },
                CastOp::Zext => {
                    proof { reveal_strlit("zext"); }
                    "zext"
                },
                CastOp::Trunc => {
                    proof { reveal_strlit("trunc"); }
                    "trunc"
                },
                CastOp::Bitcast => {
                    proof { reveal_strlit("bitcast"); }
                    "bitcast"
                },
            },
            InstData::Load { .. } => {
                proof { reveal_strlit("mload"); }
                "mload"
            },
            InstData::Store { .. } => {
                proof { reveal_strlit("mstore"); }
                "mstore"
            },
            InstData::Gep { .. } => {
                proof { reveal_strlit("gep"); }
                "gep"
            },
            InstData::Call { .. } => {
                proof { reveal_strlit("call"); }
                "call"
            },
            InstData::Jump { .. } => {
                proof { reveal_strlit("jump"); }
                "jump"
            },
            InstData::Br { .. } => {
                proof { reveal_strlit("br"); }
                "br"
            },
            InstData::BrTable { .. } => {
                proof { reveal_strlit("br_table"); }
                "br_table"
            },
            InstData::Return { .. } => {
                proof { reveal_strlit("return"); }
                "return"
            },
            InstData::Unreachable => {
                proof { reveal_strlit("unreachable"); }
                "unreachable"
            },
        }
    }

    pub fn terminator(&self) -> (r: bool)
        ensures
            r == inst_is_terminator(*self),
    {
        match self {
            InstData::Jump { .. } | InstData::Br { .. } | InstData::BrTable { .. } | InstData::Return { .. }
            | InstData::Unreachable => true,
            _ => false,
        }
    }

    /// The destinations of a terminator; empty for other instructions.
    pub fn branch_info(&self) -> (r: BranchInfo)
        ensures
            r.dests@ == inst_dests(*self),
    {
        let mut dests: Vec<BlockId> = Vec::new();
        match self {
            InstData::Jump { dest } => {
                dests.push(*dest);
            },
            InstData::Br { nz_dest, z_dest, .. } => {
                dests.push(*nz_dest);
                dests.push(*z_dest);
            },
            InstData::BrTable { default, table, .. } => {
                if let Some(d) = default {
                    dests.push(*d);
                }
                let ghost start = dests@;
                let mut i: usize = 0;
                while i < table.len()
                    invariant
                        i <= table@.len(),
                        dests@ == start + table_dests(table@.subrange(0, i as int)),
                    decreases table@.len() - i,
                {
                    dests.push(table[i].1);
                    i = i + 1;
                    assert(dests@ =~= start + table_dests(table@.subrange(0, i as int)));
                }
                assert(table@.subrange(0, table@.len() as int) =~= table@);
            },
            _ => {},
        }
        assert(dests@ =~= inst_dests(*self));
        BranchInfo { dests }
    }
}

impl Inst for InstData {
    open spec fn operands(&self) -> Seq<Value> {
        inst_values(*self)
    }

    open spec fn terminates(&self) -> bool {
        inst_is_terminator(*self)
    }

    open spec fn branch_dests(&self) -> Seq<BlockId> {
        inst_dests(*self)
    }

    open spec fn side_effect(&self) -> bool {
        inst_has_side_effect(*self)
    }

    open spec fn tag(&self) -> Seq<char> {
        opcode_text(*self)
    }

    fn visit_values(&self) -> Vec<Value> {
        self.values()
    }

    fn replace_value(&mut self, from: Value, to: Value) {
        *self = self.with_value_replaced(from, to);
    }

    fn has_side_effect(&self) -> bool {
        self.side_effect()
    }

    fn as_text(&self) -> &'static str {
        self.text()
    }

    fn is_terminator(&self) -> bool {
        self.terminator()
    }

    fn analyze_branch(&self) -> BranchInfo {
        self.branch_info()
    }
}

/// The opcodes a target supports: a witness that emitting an instruction of
/// a given kind is legal there.
pub trait HasInst {
    spec fn supports(&self, k: InstKind) -> bool;

    /// Whether this instruction set contains the opcode of `inst`.
    fn is(&self, inst: &InstData) -> (r: bool)
        ensures
            r == self.supports(inst_kind(*inst));
}

/// An instruction set given by the list of opcode kinds it contains.
pub struct InstSet {
    pub kinds: Vec<InstKind>,
}

impl HasInst for InstSet {
    open spec fn supports(&self, k: InstKind) -> bool {
        self.kinds@.contains(k)
    }

    fn is(&self, inst: &InstData) -> bool {
        let k = inst.kind();
        let mut i: usize = 0;
        while i < self.kinds.len()
            invariant
                i <= self.kinds@.len(),
                k == inst_kind(*inst),
                forall|j: int| 0 <= j < i ==> self.kinds@[j] != k,
            decreases self.kinds@.len() - i,
        {
            if self.kinds[i] == k {
                assert(self.kinds@[i as int] == k);
                return true;
            }
            i = i + 1;
        }
        false
    }
}

/// Views an instruction as one opcode class, gated on the target's witness.
pub trait InstCast: Sized {
    spec fn cast_of(inst: InstData) -> Option<Self>;

    /// The instruction as `Self`, if it is of that class and the target
    /// supports it.
    fn downcast<S: HasInst>(iset: &S, inst: &InstData) -> (r: Option<Self>)
        ensures
            r == (if iset.supports(inst_kind(*inst)) {
                Self::cast_of(*inst)
            } else {
                None
            });

    /// Applies `f` to the instruction viewed as `Self`, if the downcast
    /// succeeds.
    fn map<S: HasInst, R, F: FnOnce(Self) -> R>(iset: &S, inst: &InstData, f: F) -> (r: Option<R>)
        requires
            forall|x: Self| #[trigger] f.requires((x,)),
        ensures
            match (if iset.supports(inst_kind(*inst)) {
                Self::cast_of(*inst)
            } else {
                None
            }) {
                Some(x) => r matches Some(y) && f.ensures((x,), y),
                None => r is None,
            },
    {
        match Self::downcast(iset, inst) {
            Some(x) => Some(f(x)),
            None => None,
        }
    }
}

/// The destination of an unconditional jump.
#[derive(Debug, Clone, Copy, PartialEq, Eq, Structural)]
pub struct Jump {
    pub dest: BlockId,
}

impl InstCast for Jump {
    open spec fn cast_of(inst: InstData) -> Option<Jump> {
        match inst {
            InstData::Jump { dest } => Some(Jump { dest }),
            _ => None,
        }
    }

    fn downcast<S: HasInst>(iset: &S, inst: &InstData) -> Option<Jump> {
        if !iset.is(inst) {
            return None;
        }
        match inst {
            InstData::Jump { dest } => Some(Jump { dest: *dest }),
            _ => None,
        }
    }
}

} // verus!
