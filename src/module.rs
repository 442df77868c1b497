//! Modules: the functions of a program, the context they share, and the
//! builder that declares functions by unique name.
use vstd::prelude::*;

use cranelift_entity::EntityRef;

use crate::function::{lemma_single_definition, lemma_terminator_last, Function, Signature};
use crate::cfg::BlockId;
use crate::inst::{inst_is_terminator, Value};
use crate::global_variable::{gv_text, GlobalVariable, GlobalVariableStore, Linkage};
use crate::inst::InstSet;
use crate::types::TypeStore;

verus! {

/// An opaque reference to a function of a module.
#[derive(Debug, Clone, Copy, PartialEq, Eq, Structural, PartialOrd, Ord, Hash)]
pub struct FuncRef(pub u32);

impl EntityRef for FuncRef {
    fn new(index: usize) -> FuncRef {
        FuncRef(index as u32)
    }

    fn index(self) -> usize {
        self.0 as usize
    }
}

/// An arena of functions keyed by reference, held in a
/// `cranelift_entity::PrimaryMap`.
#[verifier::external_body]
pub struct FuncArena {
    map: cranelift_entity::PrimaryMap<FuncRef, Function>,
}

/// The contents of a function arena, in key order.
pub uninterp spec fn func_arena_entries(m: FuncArena) -> Seq<Function>;

/// Relies on `cranelift_entity::PrimaryMap::new`: a new map is empty.
#[verifier::external_body]
fn func_arena_new() -> (r: FuncArena)
    ensures
        func_arena_entries(r) == Seq::<Function>::empty(),
{
    FuncArena { map: cranelift_entity::PrimaryMap::new() }
}

/// Relies on `cranelift_entity::PrimaryMap::push`: the value is appended and
/// its key is made from the previous length.
#[verifier::external_body]
fn func_arena_push(m: &mut FuncArena, v: Function) -> (r: FuncRef)
    requires
        func_arena_entries(*old(m)).len() < u32::MAX,
    ensures
        func_arena_entries(*final(m)) == func_arena_entries(*old(m)).push(v),
        r.0 as int == func_arena_entries(*old(m)).len(),
{
    m.map.push(v)
}

/// Relies on indexing a `cranelift_entity::PrimaryMap`: the value under key
/// `k`, which must be in bounds.
#[verifier::external_body]
fn func_arena_index(m: &FuncArena, k: FuncRef) -> (r: &Function)
    requires
        (k.0 as int) < func_arena_entries(*m).len(),
    ensures
        *r == func_arena_entries(*m)[k.0 as int],
{
    &m.map[k]
}

/// Relies on mutably indexing a `cranelift_entity::PrimaryMap`: the value
/// under key `k`, which must be in bounds; what is written through it
/// replaces that value only.
#[verifier::external_body]
fn func_arena_index_mut(m: &mut FuncArena, k: FuncRef) -> (r: &mut Function)
    requires
        (k.0 as int) < func_arena_entries(*old(m)).len(),
    ensures
        *r == func_arena_entries(*old(m))[k.0 as int],
        func_arena_entries(*final(m)) == func_arena_entries(*old(m)).update(k.0 as int, *final(r)),
{
    &mut m.map[k]
}

/// Relies on `cranelift_entity::PrimaryMap::len`: the number of values.
#[verifier::external_body]
fn func_arena_len(m: &FuncArena) -> (r: usize)
    ensures
        r == func_arena_entries(*m).len(),
{
    m.map.len()
}

/// Byte order of a target.
#[derive(Debug, Clone, Copy, PartialEq, Eq, Structural, Hash)]
pub enum Endian {
    Be,
    Le,
}

/// What every function of a module shares: the target's instruction set and
/// byte order, the type store and the global-variable store.
pub struct ModuleCtx {
    pub inst_set: InstSet,
    pub endian: Endian,
    pub ty_store: TypeStore,
    pub gv_store: GlobalVariableStore,
}

impl ModuleCtx {
    pub open spec fn wf(&self) -> bool {
        self.ty_store.wf() && self.gv_store.wf()
    }

    /// A context with empty stores.
    pub fn new(inst_set: InstSet, endian: Endian) -> (r: ModuleCtx)
        ensures
            r.wf(),
            r.endian == endian,
            r.inst_set == inst_set,
            r.ty_store.compounds().len() == 0,
            r.ty_store.struct_names().len() == 0,
            r.gv_store.entries().len() == 0,
    {
        ModuleCtx { inst_set, endian, ty_store: TypeStore::new(), gv_store: GlobalVariableStore::new() }
    }

    pub fn endian(&self) -> (r: Endian)
        ensures
            r == self.endian,
    {
        self.endian
    }

    /// Runs `f` on the type store.
    pub fn with_ty_store<R, F: FnOnce(&TypeStore) -> R>(&self, f: F) -> (r: R)
        requires
            f.requires((&self.ty_store,)),
        ensures
            f.ensures((&self.ty_store,), r),
    {
        f(&self.ty_store)
    }

    /// Runs `f` on the global-variable store.
    pub fn with_gv_store<R, F: FnOnce(&GlobalVariableStore) -> R>(&self, f: F) -> (r: R)
        requires
            f.requires((&self.gv_store,)),
        ensures
            f.ensures((&self.gv_store,), r),
    {
        f(&self.gv_store)
    }

    /// The textual form of global variable `gv`, e.g. `i32 const public 1618`.
    pub fn display_gv(&self, gv: GlobalVariable) -> (r: String)
        requires
            self.wf(),
            self.gv_store.valid_gv(gv),
            self.ty_store.valid_type(self.gv_store.entries()[gv.0 as int].ty),
        ensures
            r@ == gv_text(self.ty_store.compounds(), self.gv_store.entries()[gv.0 as int]),
    {
        self.gv_store.gv_data(gv).to_string(&self.ty_store)
    }

    /// Exclusive access to the type store.
    pub fn ty_store_mut(&mut self) -> (r: &mut TypeStore)
        ensures
            *r == old(self).ty_store,
            final(self).ty_store == *final(r),
            final(self).gv_store == old(self).gv_store,
            final(self).endian == old(self).endian,
    {
        &mut self.ty_store
    }

    /// Exclusive access to the global-variable store.
    pub fn gv_store_mut(&mut self) -> (r: &mut GlobalVariableStore)
        ensures
            *r == old(self).gv_store,
            final(self).gv_store == *final(r),
            final(self).ty_store == old(self).ty_store,
            final(self).endian == old(self).endian,
    {
        &mut self.gv_store
    }
}

/// A program: its functions, addressed by [`FuncRef`], and their context.
pub struct Module {
    pub funcs: FuncArena,
    pub ctx: ModuleCtx,
}

impl Module {
    /// The functions, indexed by reference.
    pub open spec fn functions(&self) -> Seq<Function> {
        func_arena_entries(self.funcs)
    }

    pub fn new(ctx: ModuleCtx) -> (r: Module)
        ensures
            r.functions().len() == 0,
            r.ctx == ctx,
    {
        Module { funcs: func_arena_new(), ctx }
    }

    /// The function `func_ref` refers to.
    pub fn func(&self, func_ref: FuncRef) -> (r: &Function)
        requires
            (func_ref.0 as int) < self.functions().len(),
        ensures
            *r == self.functions()[func_ref.0 as int],
    {
        func_arena_index(&self.funcs, func_ref)
    }

    /// The references of all functions, in declaration order.
    pub fn iter_functions(&self) -> (r: Vec<FuncRef>)
        requires
            self.functions().len() <= u32::MAX,
        ensures
            r@.len() == self.functions().len(),
            forall|k: int| 0 <= k < r@.len() ==> (#[trigger] r@[k]).0 == k,
    {
        let n = func_arena_len(&self.funcs);
        let mut out: Vec<FuncRef> = Vec::new();
        let mut i: usize = 0;
        while i < n
            invariant
                n == self.functions().len(),
                n <= u32::MAX,
                i <= n,
                out@.len() == i,
                forall|k: int| 0 <= k < i ==> (#[trigger] out@[k]).0 == k,
            decreases n - i,
        {
            out.push(FuncRef(i as u32));
            i = i + 1;
        }
        out
    }

    /// Whether the function has external linkage.
    pub fn is_external(&self, func_ref: FuncRef) -> (r: bool)
        requires
            (func_ref.0 as int) < self.functions().len(),
        ensures
            r == (self.functions()[func_ref.0 as int].sig.linkage == Linkage::External),
    {
        func_arena_index(&self.funcs, func_ref).sig.linkage == Linkage::External
    }
}

#[verifier::external_type_specification]
#[verifier::external_body]
#[verifier::reject_recursive_types(H)]
pub struct ExBuildHasherDefault<H>(std::hash::BuildHasherDefault<H>);

#[verifier::external_type_specification]
#[verifier::external_body]
pub struct ExFxHasher(fxhash::FxHasher);

/// A table of declared function names.
pub type NameTable = std::collections::HashMap<String, FuncRef, std::hash::BuildHasherDefault<fxhash::FxHasher>>;

/// The contents of a name table: each name with its function.
pub uninterp spec fn name_map(m: NameTable) -> Map<Seq<char>, FuncRef>;

/// Relies on `fxhash::FxHashMap::default`: a new map is empty.
#[verifier::external_body]
fn names_new() -> (r: NameTable)
    ensures
        name_map(r).dom() == Set::<Seq<char>>::empty(),
{
    fxhash::FxHashMap::default()
}

/// Relies on `HashMap::insert` (with `fxhash`'s hasher): afterwards `key`
/// maps to `value` and every other key is unchanged.
#[verifier::external_body]
fn names_insert(m: &mut NameTable, key: String, value: FuncRef)
    ensures
        name_map(*final(m)) == name_map(*old(m)).insert(key@, value),
{
    m.insert(key, value);
}

/// Relies on `HashMap::get` (with `fxhash`'s hasher): the value of `key`, if
/// the map holds it.
#[verifier::external_body]
fn names_get(m: &NameTable, key: &str) -> (r: Option<FuncRef>)
    ensures
        r == (if name_map(*m).contains_key(key@) {
            Some(name_map(*m)[key@])
        } else {
            None
        }),
{
    m.get(key).copied()
}

/// Declares functions by unique name and builds a [`Module`].
pub struct ModuleBuilder {
    ctx: ModuleCtx,
    funcs: FuncArena,
    declared_funcs: NameTable,
}

impl ModuleBuilder {
    /// The declared functions, indexed by reference.
    pub closed spec fn functions(&self) -> Seq<Function> {
        func_arena_entries(self.funcs)
    }

    pub closed spec fn context(&self) -> ModuleCtx {
        self.ctx
    }

    /// The declared names with their functions.
    pub closed spec fn declared(&self) -> Map<Seq<char>, FuncRef> {
        name_map(self.declared_funcs)
    }

    pub open spec fn is_declared(&self, name: Seq<char>) -> bool {
        self.declared().contains_key(name)
    }

    /// Each function is declared under its own name, and every declared name
    /// leads to the function of that name.
    pub open spec fn wf(&self) -> bool {
        &&& self.functions().len() <= u32::MAX
        &&& forall|k: int| 0 <= k < self.functions().len()
            ==> #[trigger] self.declared().contains_key(self.functions()[k].sig.name@)
                && self.declared()[self.functions()[k].sig.name@] == FuncRef(k as u32)
        &&& forall|k: int| 0 <= k < self.functions().len() ==> (#[trigger] self.functions()[k]).wf()
        &&& forall|s: Seq<char>| #[trigger] self.declared().contains_key(s) ==> {
            &&& (self.declared()[s].0 as int) < self.functions().len()
            &&& self.functions()[self.declared()[s].0 as int].sig.name@ == s
        }
    }

    pub fn new(ctx: ModuleCtx) -> (r: ModuleBuilder)
        ensures
            r.wf(),
            r.context() == ctx,
            r.functions().len() == 0,
    {
        let r = ModuleBuilder { ctx, funcs: func_arena_new(), declared_funcs: names_new() };
        r
    }

    /// Declares a function; its name must not be declared yet.
    pub fn declare_function(&mut self, sig: Signature) -> (r: FuncRef)
        requires
            old(self).wf(),
            !old(self).is_declared(sig.name@),
            old(self).functions().len() < u32::MAX,
            sig.arg_types().len() < u32::MAX,
        ensures
            final(self).wf(),
            r.0 as int == old(self).functions().len(),
            final(self).functions().len() == old(self).functions().len() + 1,
            forall|k: int| 0 <= k < old(self).functions().len() ==> #[trigger] final(self).functions()[k] == old(self).functions()[k],
            final(self).functions()[r.0 as int].wf(),
            final(self).functions()[r.0 as int].sig.name@ == sig.name@,
            final(self).functions()[r.0 as int].sig.arg_types() == sig.arg_types(),
            final(self).functions()[r.0 as int].sig.ret_types() == sig.ret_types(),
            final(self).functions()[r.0 as int].sig.linkage == sig.linkage,
            final(self).functions()[r.0 as int].layout.order().len() == 0,
            final(self).declared() == old(self).declared().insert(sig.name@, r),
            final(self).context() == old(self).context(),
    {
        let n = func_arena_len(&self.funcs);
        let name = sig.name.clone();
        let ghost sname = sig.name@;
        let func = Function::new(sig);
        let r = func_arena_push(&mut self.funcs, func);
        names_insert(&mut self.declared_funcs, name, r);
        proof {
            assert forall|k: int| 0 <= k < self.functions().len()
                implies #[trigger] self.declared().contains_key(self.functions()[k].sig.name@)
                    && self.declared()[self.functions()[k].sig.name@] == FuncRef(k as u32) by {
                if k < n as int {
                    assert(old(self).functions()[k] == self.functions()[k]);
                    assert(old(self).declared().contains_key(old(self).functions()[k].sig.name@));
                    if self.functions()[k].sig.name@ == sname {
                        assert(old(self).is_declared(sname));
                    }
                }
            }
            assert forall|s: Seq<char>| #[trigger] self.declared().contains_key(s) implies {
                &&& (self.declared()[s].0 as int) < self.functions().len()
                &&& self.functions()[self.declared()[s].0 as int].sig.name@ == s
            } by {
                if s != sname {
                    assert(old(self).declared().contains_key(s));
                    let g = old(self).declared()[s];
                    assert(old(self).functions()[g.0 as int] == self.functions()[g.0 as int]);
                }
            }
        }
        r
    }

    /// The function declared under `name`, if any.
    pub fn get_func_ref(&self, name: &str) -> (r: Option<FuncRef>)
        requires
            self.wf(),
        ensures
            match r {
                Some(f) => (f.0 as int) < self.functions().len() && self.functions()[f.0 as int].sig.name@ == name@,
                None => !self.is_declared(name@),
            },
    {
        names_get(&self.declared_funcs, name)
    }

    /// Exclusive access to a declared function, for building its body.
    pub fn func_builder(&mut self, func: FuncRef) -> (r: &mut Function)
        requires
            old(self).wf(),
            (func.0 as int) < old(self).functions().len(),
        ensures
            *r == old(self).functions()[func.0 as int],
            r.wf(),
            final(self).functions() == old(self).functions().update(func.0 as int, *final(r)),
            final(self).declared() == old(self).declared(),
            final(self).context() == old(self).context(),
    {
        func_arena_index_mut(&mut self.funcs, func)
    }

    /// The module holding the declared functions.
    pub fn build(self) -> (r: Module)
        requires
            self.wf(),
        ensures
            r.functions() == self.functions(),
            forall|k: int| 0 <= k < r.functions().len() ==> (#[trigger] r.functions()[k]).wf(),
            r.ctx == self.context(),
    {
        Module { funcs: self.funcs, ctx: self.ctx }
    }
}

/// After a name has been declared, declaring it again is refused: the
/// builder holds the name, so a second `declare_function` does not meet its
/// precondition.
pub proof fn lemma_duplicate_function_refused(
    before: ModuleBuilder,
    after: ModuleBuilder,
    name: Seq<char>,
    r: FuncRef,
)
    requires
        after.declared() == before.declared().insert(name, r),
    ensures
        after.is_declared(name),
{
}

/// In every function of a module built from a well-formed builder, only the
/// last instruction of a block can be a terminator, and distinct values have
/// distinct defining sites.
pub proof fn lemma_built_function_invariants(m: &Module, k: int, b: BlockId, j: int, v: Value, w: Value)
    requires
        forall|i: int| 0 <= i < m.functions().len() ==> (#[trigger] m.functions()[i]).wf(),
        0 <= k < m.functions().len(),
    ensures
        0 <= j < m.functions()[k].layout.insts_of(b).len() - 1 ==> !inst_is_terminator(
            m.functions()[k].dfg.insts()[m.functions()[k].layout.insts_of(b)[j].0 as int],
        ),
        m.functions()[k].dfg.valid_value(v) && m.functions()[k].dfg.valid_value(w) && v != w
            ==> m.functions()[k].dfg.defs()[v.0 as int] != m.functions()[k].dfg.defs()[w.0 as int],
{
    let f = m.functions()[k];
    assert(f.wf());
    if 0 <= j < f.layout.insts_of(b).len() - 1 {
        lemma_terminator_last(&f, b, j);
    }
    if f.dfg.valid_value(v) && f.dfg.valid_value(w) && v != w {
        lemma_single_definition(&f.dfg, v, w);
    }
}

} // verus!
