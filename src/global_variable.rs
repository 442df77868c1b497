//! Global variables: symbols with a type, a linkage and constant initialisers,
//! interned per module.
use vstd::prelude::*;
use vstd::string::*;

use cranelift_entity::EntityRef;

use crate::text::{int_text, write_i128};
use crate::types::{type_text, Type, TypeStore};

verus! {

broadcast use vstd::std_specs::vec::axiom_vec_decreases_to_view;

/// Visibility of a function or a global variable.
#[derive(Debug, Clone, Copy, PartialEq, Eq, Structural, Hash)]
pub enum Linkage {
    Public,
    Private,
    External,
}

pub open spec fn linkage_text(l: Linkage) -> Seq<char> {
    match l {
        Linkage::Public => seq!['p', 'u', 'b', 'l', 'i', 'c'],
        Linkage::Private => seq!['p', 'r', 'i', 'v', 'a', 't', 'e'],
        Linkage::External => seq!['e', 'x', 't', 'e', 'r', 'n', 'a', 'l'],
    }
}

impl Linkage {
    pub fn as_text(&self) -> (r: &'static str)
        ensures
            r@ == linkage_text(*self),
    {
        match self {
            Linkage::Public => {
                proof { reveal_strlit("public"); }
                "public"
            },
            Linkage::Private => {
                proof { reveal_strlit("private"); }
                "private"
            },
            Linkage::External => {
                proof { reveal_strlit("external"); }
                "external"
            },
        }
    }
}

/// An integer immediate of a fixed width.
#[derive(Debug, Clone, Copy, PartialEq, Eq, Structural, Hash)]
pub enum Immediate {
    I1(bool),
    I8(i8),
    I16(i16),
    I32(i32),
    I64(i64),
    I128(i128),
}

/// The integer an immediate stands for; `i1` is `0` or `1`.
pub open spec fn imm_value(i: Immediate) -> int {
    match i {
        Immediate::I1(b) => if b { 1 } else { 0 },
        Immediate::I8(v) => v as int,
        Immediate::I16(v) => v as int,
        Immediate::I32(v) => v as int,
        Immediate::I64(v) => v as int,
        Immediate::I128(v) => v as int,
    }
}

impl Immediate {
    pub fn ty(&self) -> (r: Type)
        ensures
            r == (match *self {
                Immediate::I1(_) => Type::I1,
                Immediate::I8(_) => Type::I8,
                Immediate::I16(_) => Type::I16,
                Immediate::I32(_) => Type::I32,
                Immediate::I64(_) => Type::I64,
                Immediate::I128(_) => Type::I128,
            }),
    {
        match self {
            Immediate::I1(_) => Type::I1,
            Immediate::I8(_) => Type::I8,
            Immediate::I16(_) => Type::I16,
            Immediate::I32(_) => Type::I32,
            Immediate::I64(_) => Type::I64,
            Immediate::I128(_) => Type::I128,
        }
    }

    pub fn as_i128(&self) -> (r: i128)
        ensures
            r as int == imm_value(*self),
    {
        match self {
            Immediate::I1(b) => if *b { 1 } else { 0 },
            Immediate::I8(v) => *v as i128,
            Immediate::I16(v) => *v as i128,
            Immediate::I32(v) => *v as i128,
            Immediate::I64(v) => *v as i128,
            Immediate::I128(v) => *v,
        }
    }
}

/// A constant initialiser.
#[derive(Debug, PartialEq, Eq, Hash)]
pub enum ConstantValue {
    Immediate(Immediate),
    Array(Vec<ConstantValue>),
    Struct(Vec<ConstantValue>),
}

/// The textual form of a constant: an immediate in decimal, an array as
/// `[a, b]`, a struct as `{a, b}`.
pub open spec fn const_text(c: ConstantValue) -> Seq<char>
    decreases c, 0nat,
{
    match c {
        ConstantValue::Immediate(i) => int_text(imm_value(i)),
        ConstantValue::Array(v) => seq!['['] + elems_text(v@, v@.len()) + seq![']'],
        ConstantValue::Struct(v) => seq!['{'] + elems_text(v@, v@.len()) + seq!['}'],
    }
}

/// The first `n` constants of `s`, separated by `, `.
pub open spec fn elems_text(s: Seq<ConstantValue>, n: nat) -> Seq<char>
    decreases s, n,
{
    if n == 0 || n > s.len() {
        Seq::empty()
    } else if n == 1 {
        const_text(s[0])
    } else {
        elems_text(s, (n - 1) as nat) + seq![',', ' '] + const_text(s[n - 1])
    }
}

impl ConstantValue {
    pub fn make_imm(data: Immediate) -> (r: ConstantValue)
        ensures
            r == ConstantValue::Immediate(data),
    {
        ConstantValue::Immediate(data)
    }

    pub fn make_array(data: Vec<ConstantValue>) -> (r: ConstantValue)
        ensures
            r == ConstantValue::Array(data),
    {
        ConstantValue::Array(data)
    }

    pub fn make_struct(data: Vec<ConstantValue>) -> (r: ConstantValue)
        ensures
            r == ConstantValue::Struct(data),
    {
        ConstantValue::Struct(data)
    }

    /// Appends the textual form of this constant to `out`.
    pub fn write_text(&self, out: &mut String)
        ensures
            final(out)@ == old(out)@ + const_text(*self),
        decreases *self,
    {
        match self {
            ConstantValue::Immediate(i) => {
                write_i128(out, i.as_i128());
            },
            ConstantValue::Array(v) => {
                proof { reveal_strlit("["); reveal_strlit("]"); }
                out.append("[");
                write_elems(v, out);
                out.append("]");
                assert(out@ =~= old(out)@ + const_text(*self));
            },
            ConstantValue::Struct(v) => {
                proof { reveal_strlit("{"); reveal_strlit("}"); }
                out.append("{");
                write_elems(v, out);
                out.append("}");
                assert(out@ =~= old(out)@ + const_text(*self));
            },
        }
    }

    pub fn to_string(&self) -> (r: String)
        ensures
            r@ == const_text(*self),
    {
        let mut out = String::new();
        self.write_text(&mut out);
        assert(out@ =~= const_text(*self));
        out
    }
}

fn write_elems(v: &Vec<ConstantValue>, out: &mut String)
    ensures
        final(out)@ == old(out)@ + elems_text(v@, v@.len()),
    decreases v, 0nat,
{
    let mut i: usize = 0;
    proof { reveal_strlit(", "); }
    while i < v.len()
        invariant
            i <= v@.len(),
            out@ == old(out)@ + elems_text(v@, i as nat),
        decreases v@.len() - i,
    {
        let ghost before = out@;
        if i > 0 {
            proof { reveal_strlit(", "); }
            out.append(", ");
        }
        proof {
            assert(decreases_to!(*v => v@));
        }
        v[i].write_text(out);
        proof {
            let s = v@;
            let n = (i + 1) as nat;
            assert(before == old(out)@ + elems_text(s, i as nat));
            if i == 0 {
                assert(elems_text(s, n) == const_text(s[0]));
            } else {
                assert(elems_text(s, n) == elems_text(s, (n - 1) as nat) + seq![',', ' '] + const_text(s[n - 1]));
            }
            assert(out@ =~= old(out)@ + elems_text(v@, n));
        }
        i = i + 1;
    }
}

/// An opaque reference to a [`GlobalVariableData`] in a [`GlobalVariableStore`].
#[derive(Debug, Clone, Copy, PartialEq, Eq, Structural, PartialOrd, Ord, Hash)]
pub struct GlobalVariable(pub u32);

/// A global variable's declaration.
#[derive(Debug, PartialEq, Eq, Hash)]
pub struct GlobalVariableData {
    pub symbol: String,
    pub ty: Type,
    pub linkage: Linkage,
    pub is_const: bool,
    pub data: Option<ConstantValue>,
}

/// The textual form of a global variable: its type, `const` if constant, its
/// linkage and its initialiser if any, separated by spaces.
pub open spec fn gv_text(cs: Seq<crate::types::CompoundTypeDataView>, d: GlobalVariableData) -> Seq<char> {
    type_text(cs, d.ty) + (if d.is_const {
        seq![' ', 'c', 'o', 'n', 's', 't']
    } else {
        Seq::empty()
    }) + seq![' '] + linkage_text(d.linkage) + (match d.data {
        Some(c) => seq![' '] + const_text(c),
        None => Seq::empty(),
    })
}

impl GlobalVariableData {
    pub fn new(
        symbol: String,
        ty: Type,
        linkage: Linkage,
        is_const: bool,
        data: Option<ConstantValue>,
    ) -> (r: GlobalVariableData)
        ensures
            r.symbol == symbol,
            r.ty == ty,
            r.linkage == linkage,
            r.is_const == is_const,
            r.data == data,
    {
        GlobalVariableData { symbol, ty, linkage, is_const, data }
    }

    /// A constant global variable initialised with `data`.
    pub fn constant(symbol: String, ty: Type, linkage: Linkage, data: ConstantValue) -> (r: GlobalVariableData)
        ensures
            r.symbol == symbol,
            r.ty == ty,
            r.linkage == linkage,
            r.is_const,
            r.data == Some(data),
    {
        GlobalVariableData { symbol, ty, linkage, is_const: true, data: Some(data) }
    }

    /// The textual form of this global variable, resolving its type in `types`.
    pub fn to_string(&self, types: &TypeStore) -> (r: String)
        requires
            types.wf(),
            types.valid_type(self.ty),
        ensures
            r@ == gv_text(types.compounds(), *self),
    {
        let mut out = String::new();
        types.write_type(self.ty, &mut out);
        proof { reveal_strlit(" const"); reveal_strlit(" "); }
        if self.is_const {
            out.append(" const");
        }
        out.append(" ");
        out.append(self.linkage.as_text());
        match &self.data {
            Some(c) => {
                out.append(" ");
                c.write_text(&mut out);
            },
            None => {},
        }
        assert(out@ =~= gv_text(types.compounds(), *self));
        out
    }
}

#[verifier::external_type_specification]
#[verifier::external_body]
pub struct ExFxBuildHasher(rustc_hash::FxBuildHasher);

/// A symbol table keyed by symbol text.
pub type SymbolTable = std::collections::HashMap<String, GlobalVariable, rustc_hash::FxBuildHasher>;

/// The contents of a symbol table: each symbol with its global variable.
pub uninterp spec fn symbol_map(m: SymbolTable) -> Map<Seq<char>, GlobalVariable>;

/// Relies on `rustc_hash::FxHashMap::default`: a new map is empty.
#[verifier::external_body]
fn symbols_new() -> (r: SymbolTable)
    ensures
        symbol_map(r).dom() == Set::<Seq<char>>::empty(),
{
    rustc_hash::FxHashMap::default()
}

/// Relies on `HashMap::insert` (with `rustc_hash`'s hasher): afterwards `key`
/// maps to `value` and every other key is unchanged.
#[verifier::external_body]
fn symbols_insert(m: &mut SymbolTable, key: String, value: GlobalVariable)
    ensures
        symbol_map(*final(m)) == symbol_map(*old(m)).insert(key@, value),
{
    m.insert(key, value);
}

/// Relies on `HashMap::get` (with `rustc_hash`'s hasher): the value of
/// `key`, if the map holds it.
#[verifier::external_body]
fn symbols_get(m: &SymbolTable, key: &str) -> (r: Option<GlobalVariable>)
    ensures
        r == (if symbol_map(*m).contains_key(key@) {
            Some(symbol_map(*m)[key@])
        } else {
            None
        }),
{
    m.get(key).copied()
}

impl EntityRef for GlobalVariable {
    fn new(index: usize) -> GlobalVariable {
        GlobalVariable(index as u32)
    }

    fn index(self) -> usize {
        self.0 as usize
    }
}

/// An arena of global variables keyed by handle, held in a
/// `cranelift_entity::PrimaryMap`.
#[verifier::external_body]
pub struct GvArena {
    map: cranelift_entity::PrimaryMap<GlobalVariable, GlobalVariableData>,
}

/// The contents of an arena of global variables, in key order.
pub uninterp spec fn gv_arena_entries(m: GvArena) -> Seq<GlobalVariableData>;

/// Relies on `cranelift_entity::PrimaryMap::new`: a new map is empty.
#[verifier::external_body]
fn gv_arena_new() -> (r: GvArena)
    ensures
        gv_arena_entries(r) == Seq::<GlobalVariableData>::empty(),
{
    GvArena { map: cranelift_entity::PrimaryMap::new() }
}

/// Relies on `cranelift_entity::PrimaryMap::push`: the value is appended and
/// its key is made from the previous length.
#[verifier::external_body]
fn gv_arena_push(m: &mut GvArena, v: GlobalVariableData) -> (r: GlobalVariable)
    requires
        gv_arena_entries(*old(m)).len() < u32::MAX,
    ensures
        gv_arena_entries(*final(m)) == gv_arena_entries(*old(m)).push(v),
        r.0 as int == gv_arena_entries(*old(m)).len(),
{
    m.map.push(v)
}

/// Relies on indexing a `cranelift_entity::PrimaryMap`: the value under key
/// `k`, which must be in bounds.
#[verifier::external_body]
fn gv_arena_index(m: &GvArena, k: GlobalVariable) -> (r: &GlobalVariableData)
    requires
        (k.0 as int) < gv_arena_entries(*m).len(),
    ensures
        *r == gv_arena_entries(*m)[k.0 as int],
{
    &m.map[k]
}

/// Relies on `cranelift_entity::PrimaryMap::len`: the number of values.
#[verifier::external_body]
fn gv_arena_len(m: &GvArena) -> (r: usize)
    ensures
        r == gv_arena_entries(*m).len(),
{
    m.map.len()
}

/// Interns global variables by symbol.
pub struct GlobalVariableStore {
    gv_data: GvArena,
    symbols: SymbolTable,
}

impl GlobalVariableStore {
    /// The declared global variables, indexed by handle.
    pub closed spec fn entries(&self) -> Seq<GlobalVariableData> {
        gv_arena_entries(self.gv_data)
    }

    /// Some global variable is declared under `symbol`.
    pub open spec fn has_symbol(&self, symbol: Seq<char>) -> bool {
        exists|i: int| 0 <= i < self.entries().len() && #[trigger] self.entries()[i].symbol@ == symbol
    }

    pub open spec fn valid_gv(&self, gv: GlobalVariable) -> bool {
        (gv.0 as int) < self.entries().len()
    }

    /// The symbol table: each declared symbol with its global variable.
    pub closed spec fn symbol_table(&self) -> Map<Seq<char>, GlobalVariable> {
        symbol_map(self.symbols)
    }

    /// Symbols are pairwise distinct, handles fit in 32 bits, and the symbol
    /// table maps exactly the declared symbols to their handles.
    pub open spec fn wf(&self) -> bool {
        &&& self.entries().len() <= u32::MAX
        &&& forall|i: int, j: int|
            0 <= i < self.entries().len() && 0 <= j < self.entries().len() && i != j
                ==> #[trigger] self.entries()[i].symbol@ != #[trigger] self.entries()[j].symbol@
        &&& forall|s: Seq<char>| #[trigger] self.symbol_table().contains_key(s) <==> self.has_symbol(s)
        &&& forall|s: Seq<char>| #[trigger] self.symbol_table().contains_key(s) ==> {
            &&& self.valid_gv(self.symbol_table()[s])
            &&& self.entries()[self.symbol_table()[s].0 as int].symbol@ == s
        }
    }

    pub fn new() -> (r: GlobalVariableStore)
        ensures
            r.wf(),
            r.entries().len() == 0,
    {
        let r = GlobalVariableStore { gv_data: gv_arena_new(), symbols: symbols_new() };
        assert(r.entries() =~= Seq::<GlobalVariableData>::empty());
        r
    }

    /// Declares a global variable; its symbol must not be declared yet.
    pub fn make_gv(&mut self, gv_data: GlobalVariableData) -> (r: GlobalVariable)
        requires
            old(self).wf(),
            !old(self).has_symbol(gv_data.symbol@),
            old(self).entries().len() < u32::MAX,
        ensures
            final(self).wf(),
            r.0 as int == old(self).entries().len(),
            final(self).entries() == old(self).entries().push(gv_data),
    {
        let n = gv_arena_len(&self.gv_data);
        let key = gv_data.symbol.clone();
        let ghost sym = gv_data.symbol@;
        let gv = gv_arena_push(&mut self.gv_data, gv_data);
        symbols_insert(&mut self.symbols, key, gv);
        proof {
            assert(self.entries()[n as int].symbol@ == sym);
            assert forall|s: Seq<char>| #[trigger] self.symbol_table().contains_key(s) <==> self.has_symbol(s) by {
                if s == sym {
                    assert(self.entries()[n as int].symbol@ == s);
                } else {
                    assert(old(self).symbol_table().contains_key(s) <==> old(self).has_symbol(s));
                    if self.has_symbol(s) {
                        let i = choose|i: int| 0 <= i < self.entries().len() && #[trigger] self.entries()[i].symbol@ == s;
                        assert(i != n as int);
                        assert(old(self).entries()[i].symbol@ == s);
                    }
                    if old(self).has_symbol(s) {
                        let i = choose|i: int| 0 <= i < old(self).entries().len() && #[trigger] old(self).entries()[i].symbol@ == s;
                        assert(self.entries()[i].symbol@ == s);
                    }
                }
            }
            assert forall|s: Seq<char>| #[trigger] self.symbol_table().contains_key(s) implies {
                &&& self.valid_gv(self.symbol_table()[s])
                &&& self.entries()[self.symbol_table()[s].0 as int].symbol@ == s
            } by {
                if s != sym {
                    assert(old(self).symbol_table().contains_key(s));
                    let g = old(self).symbol_table()[s];
                    assert(old(self).entries()[g.0 as int] == self.entries()[g.0 as int]);
                }
            }
            assert forall|i: int, j: int|
                0 <= i < self.entries().len() && 0 <= j < self.entries().len() && i != j
                implies #[trigger] self.entries()[i].symbol@ != #[trigger] self.entries()[j].symbol@ by {
                if i == n as int {
                    assert(old(self).entries()[j] == self.entries()[j]);
                } else if j == n as int {
                    assert(old(self).entries()[i] == self.entries()[i]);
                }
            }
        }
        gv
    }

    pub fn gv_data(&self, gv: GlobalVariable) -> (r: &GlobalVariableData)
        requires
            self.valid_gv(gv),
        ensures
            *r == self.entries()[gv.0 as int],
    {
        gv_arena_index(&self.gv_data, gv)
    }

    /// The global variable declared under `symbol`, if any.
    pub fn gv_by_symbol(&self, symbol: &str) -> (r: Option<GlobalVariable>)
        requires
            self.wf(),
        ensures
            match r {
                Some(gv) => self.valid_gv(gv) && self.entries()[gv.0 as int].symbol@ == symbol@,
                None => !self.has_symbol(symbol@),
            },
    {
        symbols_get(&self.symbols, symbol)
    }

    pub fn init_data(&self, gv: GlobalVariable) -> (r: Option<&ConstantValue>)
        requires
            self.valid_gv(gv),
        ensures
            match self.entries()[gv.0 as int].data {
                Some(c) => r matches Some(d) && *d == c,
                None => r is None,
            },
    {
        match &gv_arena_index(&self.gv_data, gv).data {
            Some(c) => Some(c),
            None => None,
        }
    }

    pub fn is_const(&self, gv: GlobalVariable) -> (r: bool)
        requires
            self.valid_gv(gv),
        ensures
            r == self.entries()[gv.0 as int].is_const,
    {
        gv_arena_index(&self.gv_data, gv).is_const
    }

    pub fn ty(&self, gv: GlobalVariable) -> (r: Type)
        requires
            self.valid_gv(gv),
        ensures
            r == self.entries()[gv.0 as int].ty,
    {
        gv_arena_index(&self.gv_data, gv).ty
    }

    /// All global variables, in declaration order.
    pub fn all_gv_data(&self) -> (r: Vec<&GlobalVariableData>)
        requires
            self.wf(),
        ensures
            r@.len() == self.entries().len(),
            forall|k: int| 0 <= k < r@.len() ==> *(#[trigger] r@[k]) == self.entries()[k],
    {
        let mut out: Vec<&GlobalVariableData> = Vec::new();
        let n = gv_arena_len(&self.gv_data);
        let mut i: usize = 0;
        while i < n
            invariant
                n == self.entries().len(),
                n <= u32::MAX,
                i <= self.entries().len(),
                out@.len() == i,
                forall|k: int| 0 <= k < i ==> *(#[trigger] out@[k]) == self.entries()[k],
            decreases self.entries().len() - i,
        {
            out.push(gv_arena_index(&self.gv_data, GlobalVariable(i as u32)));
            i = i + 1;
        }
        out
    }
}

impl Default for GlobalVariableStore {
    fn default() -> (r: GlobalVariableStore)
        ensures
            r.wf(),
            r.entries().len() == 0,
    {
        GlobalVariableStore::new()
    }
}

/// After a symbol has been declared, declaring it again is refused: the
/// store holds the symbol, so a second `make_gv` does not meet its
/// precondition.
pub proof fn lemma_duplicate_symbol_refused(
    before: GlobalVariableStore,
    after: GlobalVariableStore,
    gv_data: GlobalVariableData,
)
    requires
        after.entries() == before.entries().push(gv_data),
    ensures
        after.has_symbol(gv_data.symbol@),
{
    assert(after.entries()[before.entries().len() as int] == gv_data);
}

} // verus!
