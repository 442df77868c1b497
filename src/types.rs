//! IR types: primitive integer types, `void`, and interned compound types.
use vstd::prelude::*;
use vstd::string::*;

use cranelift_entity::EntityRef;

use crate::text::{nat_text, write_u128};

verus! {

/// An opaque reference to a [`CompoundTypeData`] interned in a [`TypeStore`].
#[derive(Debug, Clone, Copy, PartialEq, Eq, Structural, Hash, PartialOrd, Ord)]
pub struct CompoundType(pub u32);

/// An IR type.
#[derive(Debug, Clone, Copy, PartialEq, Eq, Structural, Hash)]
pub enum Type {
    I1,
    I8,
    I16,
    I32,
    I64,
    I128,
    I256,
    Compound(CompoundType),
    Void,
}

impl Default for Type {
    fn default() -> (r: Type)
        ensures
            r == Type::Void,
    {
        Type::Void
    }
}

/// Width in bits of an integer type; `0` for any other type.
pub open spec fn bitwidth(t: Type) -> nat {
    match t {
        Type::I1 => 1,
        Type::I8 => 8,
        Type::I16 => 16,
        Type::I32 => 32,
        Type::I64 => 64,
        Type::I128 => 128,
        Type::I256 => 256,
        _ => 0,
    }
}

pub open spec fn is_integral_spec(t: Type) -> bool {
    bitwidth(t) > 0
}

/// The partial order on types: integers ordered by width, equal types equal,
/// everything else unordered.
pub open spec fn type_cmp(a: Type, b: Type) -> Option<core::cmp::Ordering> {
    if a == b {
        Some(core::cmp::Ordering::Equal)
    } else if !is_integral_spec(a) || !is_integral_spec(b) {
        None
    } else if bitwidth(a) < bitwidth(b) {
        Some(core::cmp::Ordering::Less)
    } else {
        Some(core::cmp::Ordering::Greater)
    }
}

impl Type {
    pub fn is_integral(&self) -> (r: bool)
        ensures
            r == is_integral_spec(*self),
    {
        match self {
            Type::I1 | Type::I8 | Type::I16 | Type::I32 | Type::I64 | Type::I128 | Type::I256 => true,
            _ => false,
        }
    }

    /// Width in bits of an integer type; `0` for any other type.
    pub fn bitwidth(&self) -> (r: u16)
        ensures
            r as nat == bitwidth(*self),
    {
        match self {
            Type::I1 => 1,
            Type::I8 => 8,
            Type::I16 => 16,
            Type::I32 => 32,
            Type::I64 => 64,
            Type::I128 => 128,
            Type::I256 => 256,
            _ => 0,
        }
    }
}

impl PartialOrd for Type {
    fn partial_cmp(&self, rhs: &Type) -> (r: Option<core::cmp::Ordering>)
        ensures
            r == type_cmp(*self, *rhs),
    {
        if *self == *rhs {
            return Some(core::cmp::Ordering::Equal);
        }
        if !self.is_integral() || !rhs.is_integral() {
            return None;
        }
        if self.bitwidth() < rhs.bitwidth() {
            Some(core::cmp::Ordering::Less)
        } else {
            Some(core::cmp::Ordering::Greater)
        }
    }
}

impl vstd::std_specs::cmp::PartialOrdSpecImpl for Type {
    open spec fn obeys_partial_cmp_spec() -> bool {
        true
    }

    open spec fn partial_cmp_spec(&self, other: &Type) -> Option<core::cmp::Ordering> {
        type_cmp(*self, *other)
    }
}

/// Two integer types are ordered exactly as their widths are.
pub proof fn lemma_integer_order_is_width_order(a: Type, b: Type)
    requires
        is_integral_spec(a),
        is_integral_spec(b),
    ensures
        (type_cmp(a, b) == Some(core::cmp::Ordering::Less)) <==> bitwidth(a) < bitwidth(b),
        (type_cmp(a, b) == Some(core::cmp::Ordering::Greater)) <==> bitwidth(a) > bitwidth(b),
        (type_cmp(a, b) == Some(core::cmp::Ordering::Equal)) <==> bitwidth(a) == bitwidth(b),
{
}

/// The index of a type used as a map key: `0` for `void`, the width of an
/// integer type, and `256 + k` for compound type `k`.
pub open spec fn type_index(t: Type) -> int {
    match t {
        Type::Void => 0,
        Type::Compound(c) => 256 + c.0,
        _ => bitwidth(t) as int,
    }
}

impl Type {
    /// The type whose key index is `i`, if there is one.
    pub fn from_index(i: usize) -> (r: Option<Type>)
        ensures
            match r {
                Some(t) => type_index(t) == i,
                None => forall|t: Type| type_index(t) != i,
            },
    {
        if i == 0 {
            Some(Type::Void)
        } else if i == 1 {
            Some(Type::I1)
        } else if i == 8 {
            Some(Type::I8)
        } else if i == 16 {
            Some(Type::I16)
        } else if i == 32 {
            Some(Type::I32)
        } else if i == 64 {
            Some(Type::I64)
        } else if i == 128 {
            Some(Type::I128)
        } else if i == 256 {
            Some(Type::I256)
        } else if i > 256 && i - 256 <= u32::MAX as usize {
            Some(Type::Compound(CompoundType((i - 256) as u32)))
        } else {
            None
        }
    }

    /// The key index of this type; it exceeds `usize` only for compound
    /// handles near `u32::MAX` on targets with 32-bit `usize`.
    pub fn key_index(&self) -> (r: Option<usize>)
        ensures
            match r {
                Some(k) => k == type_index(*self),
                None => type_index(*self) > usize::MAX,
            },
    {
        match self {
            Type::Void => Some(0),
            Type::Compound(c) => {
                let k = c.0 as usize;
                if k <= usize::MAX - 256 {
                    Some(k + 256)
                } else {
                    None
                }
            },
            _ => Some(self.bitwidth() as usize),
        }
    }
}

impl EntityRef for Type {
    /// The type with key index `i`; an index that no type has gives `void`.
    fn new(i: usize) -> Type {
        match Type::from_index(i) {
            Some(t) => t,
            None => Type::Void,
        }
    }

    /// The key index of the type, saturated at `usize::MAX`.
    fn index(self) -> usize {
        match self.key_index() {
            Some(k) => k,
            None => usize::MAX,
        }
    }
}

/// The definition of a struct type.
#[derive(Debug, Clone, Eq)]
pub struct StructData {
    pub name: String,
    pub fields: Vec<Type>,
    pub packed: bool,
}

/// The mathematical content of a [`StructData`].
pub struct StructDataView {
    pub name: Seq<char>,
    pub fields: Seq<Type>,
    pub packed: bool,
}

impl View for StructData {
    type V = StructDataView;

    open spec fn view(&self) -> StructDataView {
        StructDataView { name: self.name@, fields: self.fields@, packed: self.packed }
    }
}

fn types_eq(a: &Vec<Type>, b: &Vec<Type>) -> (r: bool)
    ensures
        r == (a@ == b@),
{
    if a.len() != b.len() {
        return false;
    }
    let mut i: usize = 0;
    while i < a.len()
        invariant
            a@.len() == b@.len(),
            i <= a@.len(),
            forall|k: int| 0 <= k < i ==> a@[k] == b@[k],
        decreases a@.len() - i,
    {
        if a[i] != b[i] {
            return false;
        }
        i = i + 1;
    }
    assert(a@ =~= b@);
    true
}

impl PartialEq for StructData {
    fn eq(&self, other: &StructData) -> (r: bool)
        ensures
            r == (self@ == other@),
    {
        self.name == other.name && self.packed == other.packed && types_eq(&self.fields, &other.fields)
    }
}

impl vstd::std_specs::cmp::PartialEqSpecImpl for StructData {
    open spec fn obeys_eq_spec() -> bool {
        true
    }

    open spec fn eq_spec(&self, other: &StructData) -> bool {
        self@ == other@
    }
}

/// The data of a compound type.
#[derive(Debug, Clone, Eq)]
pub enum CompoundTypeData {
    Array { elem: Type, len: usize },
    Ptr(Type),
    Struct(StructData),
}

/// The mathematical content of a [`CompoundTypeData`]; two compound types are
/// structurally equal exactly when their views are equal.
pub enum CompoundTypeDataView {
    Array { elem: Type, len: nat },
    Ptr(Type),
    Struct(StructDataView),
}

impl View for CompoundTypeData {
    type V = CompoundTypeDataView;

    open spec fn view(&self) -> CompoundTypeDataView {
        match self {
            CompoundTypeData::Array { elem, len } => CompoundTypeDataView::Array {
                elem: *elem,
                len: *len as nat,
            },
            CompoundTypeData::Ptr(t) => CompoundTypeDataView::Ptr(*t),
            CompoundTypeData::Struct(s) => CompoundTypeDataView::Struct(s@),
        }
    }
}

impl PartialEq for CompoundTypeData {
    fn eq(&self, other: &CompoundTypeData) -> (r: bool)
        ensures
            r == (self@ == other@),
    {
        match (self, other) {
            (
                CompoundTypeData::Array { elem: e1, len: l1 },
                CompoundTypeData::Array { elem: e2, len: l2 },
            ) => *e1 == *e2 && *l1 == *l2,
            (CompoundTypeData::Ptr(t1), CompoundTypeData::Ptr(t2)) => *t1 == *t2,
            (CompoundTypeData::Struct(s1), CompoundTypeData::Struct(s2)) => s1.eq(s2),
            _ => false,
        }
    }
}

impl vstd::std_specs::cmp::PartialEqSpecImpl for CompoundTypeData {
    open spec fn obeys_eq_spec() -> bool {
        true
    }

    open spec fn eq_spec(&self, other: &CompoundTypeData) -> bool {
        self@ == other@
    }
}

impl CompoundTypeData {
    pub fn is_array(&self) -> (r: bool)
        ensures
            r == (self@ is Array),
    {
        match self {
            CompoundTypeData::Array { .. } => true,
            _ => false,
        }
    }

    pub fn is_ptr(&self) -> (r: bool)
        ensures
            r == (self@ is Ptr),
    {
        match self {
            CompoundTypeData::Ptr(_) => true,
            _ => false,
        }
    }
}


#[verifier::external_type_specification]
#[verifier::external_body]
#[verifier::reject_recursive_types(K)]
#[verifier::reject_recursive_types(V)]
#[verifier::reject_recursive_types(S)]
pub struct ExIndexMap<K, V, S>(indexmap::IndexMap<K, V, S>);

/// The entries of a name-keyed map of struct types, in insertion order.
pub uninterp spec fn struct_map_entries(m: indexmap::IndexMap<String, CompoundType>) -> Seq<(Seq<char>, CompoundType)>;

/// Relies on `indexmap::IndexMap::new`: a new map has no entries.
#[verifier::external_body]
fn struct_map_new() -> (r: indexmap::IndexMap<String, CompoundType>)
    ensures
        struct_map_entries(r) == Seq::<(Seq<char>, CompoundType)>::empty(),
{
    indexmap::IndexMap::new()
}

/// Relies on `indexmap::IndexMap::insert`: a key that is not in the map is
/// inserted last in order.
#[verifier::external_body]
fn struct_map_insert(m: &mut indexmap::IndexMap<String, CompoundType>, key: String, value: CompoundType)
    requires
        forall|k: int| 0 <= k < struct_map_entries(*old(m)).len() ==> (#[trigger] struct_map_entries(*old(m))[k]).0 != key@,
    ensures
        struct_map_entries(*final(m)) == struct_map_entries(*old(m)).push((key@, value)),
{
    m.insert(key, value);
}

/// Relies on `indexmap::IndexMap::get`: the value of the entry whose key
/// equals `key`, if there is one.
#[verifier::external_body]
fn struct_map_get(m: &indexmap::IndexMap<String, CompoundType>, key: &str) -> (r: Option<CompoundType>)
    ensures
        match r {
            Some(c) => exists|k: int| 0 <= k < struct_map_entries(*m).len() && #[trigger] struct_map_entries(*m)[k] == (key@, c),
            None => forall|k: int| 0 <= k < struct_map_entries(*m).len() ==> (#[trigger] struct_map_entries(*m)[k]).0 != key@,
        },
{
    m.get(key).copied()
}

/// Relies on `indexmap::IndexMap::len`: the number of entries.
#[verifier::external_body]
fn struct_map_len(m: &indexmap::IndexMap<String, CompoundType>) -> (r: usize)
    ensures
        r == struct_map_entries(*m).len(),
{
    m.len()
}

/// Relies on `indexmap::IndexMap::get_index`: the value of the entry at
/// position `index` in insertion order, if there is one.
#[verifier::external_body]
fn struct_map_value_at(m: &indexmap::IndexMap<String, CompoundType>, index: usize) -> (r: Option<CompoundType>)
    ensures
        r == (if index < struct_map_entries(*m).len() {
            Some(struct_map_entries(*m)[index as int].1)
        } else {
            None
        }),
{
    m.get_index(index).map(|(_, v)| *v)
}

impl EntityRef for CompoundType {
    fn new(index: usize) -> CompoundType {
        CompoundType(index as u32)
    }

    fn index(self) -> usize {
        self.0 as usize
    }
}

/// An arena of compound type data keyed by handle, held in a
/// `cranelift_entity::PrimaryMap`.
#[verifier::external_body]
pub struct CompoundArena {
    map: cranelift_entity::PrimaryMap<CompoundType, CompoundTypeData>,
}

/// The contents of a compound arena, in key order.
pub uninterp spec fn compound_arena_entries(m: CompoundArena) -> Seq<CompoundTypeData>;

/// Relies on `cranelift_entity::PrimaryMap::new`: a new map is empty.
#[verifier::external_body]
fn compound_arena_new() -> (r: CompoundArena)
    ensures
        compound_arena_entries(r) == Seq::<CompoundTypeData>::empty(),
{
    CompoundArena { map: cranelift_entity::PrimaryMap::new() }
}

/// Relies on `cranelift_entity::PrimaryMap::push`: the value is appended and
/// its key is made from the previous length.
#[verifier::external_body]
fn compound_arena_push(m: &mut CompoundArena, v: CompoundTypeData) -> (r: CompoundType)
    requires
        compound_arena_entries(*old(m)).len() < u32::MAX,
    ensures
        compound_arena_entries(*final(m)) == compound_arena_entries(*old(m)).push(v),
        r.0 as int == compound_arena_entries(*old(m)).len(),
{
    m.map.push(v)
}

/// Relies on indexing a `cranelift_entity::PrimaryMap`: the value under key
/// `k`, which must be in bounds.
#[verifier::external_body]
fn compound_arena_index(m: &CompoundArena, k: CompoundType) -> (r: &CompoundTypeData)
    requires
        (k.0 as int) < compound_arena_entries(*m).len(),
    ensures
        *r == compound_arena_entries(*m)[k.0 as int],
{
    &m.map[k]
}

/// Relies on `cranelift_entity::PrimaryMap::len`: the number of values.
#[verifier::external_body]
fn compound_arena_len(m: &CompoundArena) -> (r: usize)
    ensures
        r == compound_arena_entries(*m).len(),
{
    m.map.len()
}

/// Interns compound types and records struct names in declaration order.
pub struct TypeStore {
    compounds: CompoundArena,
    struct_types: indexmap::IndexMap<String, CompoundType>,
}

/// A type that refers only to compound types among the first `n` of a store.
pub open spec fn type_below(t: Type, n: nat) -> bool {
    match t {
        Type::Compound(c) => (c.0 as nat) < n,
        _ => true,
    }
}

/// Every type that `d` mentions refers to compound types below `n`.
pub open spec fn data_below(d: CompoundTypeDataView, n: nat) -> bool {
    match d {
        CompoundTypeDataView::Array { elem, .. } => type_below(elem, n),
        CompoundTypeDataView::Ptr(t) => type_below(t, n),
        CompoundTypeDataView::Struct(s) => forall|k: int| 0 <= k < s.fields.len() ==> type_below(#[trigger] s.fields[k], n),
    }
}

impl TypeStore {
    /// The interned compound types, indexed by handle.
    pub closed spec fn compounds(&self) -> Seq<CompoundTypeDataView> {
        compound_arena_entries(self.compounds).map_values(|d: CompoundTypeData| d@)
    }

    /// The declared struct names, in declaration order, with their handles.
    pub closed spec fn struct_names(&self) -> Seq<(Seq<char>, CompoundType)> {
        struct_map_entries(self.struct_types)
    }

    /// The handle declared for struct name `name`, if any.
    pub open spec fn struct_handle(&self, name: Seq<char>) -> Option<CompoundType> {
        if exists|i: int| 0 <= i < self.struct_names().len() && #[trigger] self.struct_names()[i].0 == name {
            let i = choose|i: int| 0 <= i < self.struct_names().len() && #[trigger] self.struct_names()[i].0 == name;
            Some(self.struct_names()[i].1)
        } else {
            None
        }
    }

    pub open spec fn has_struct_name(&self, name: Seq<char>) -> bool {
        exists|i: int| 0 <= i < self.struct_names().len() && #[trigger] self.struct_names()[i].0 == name
    }

    /// `t` is a primitive type or a compound type issued by this store.
    pub open spec fn valid_type(&self, t: Type) -> bool {
        type_below(t, self.compounds().len())
    }

    /// The store's invariant: interned data is pairwise distinct (structural
    /// interning), each compound refers only to earlier ones, handles fit in
    /// 32 bits, and struct names are distinct and name struct compounds.
    pub open spec fn wf(&self) -> bool {
        &&& self.compounds().len() <= u32::MAX
        &&& forall|i: int, j: int|
            0 <= i < self.compounds().len() && 0 <= j < self.compounds().len() && i != j
                ==> #[trigger] self.compounds()[i] != #[trigger] self.compounds()[j]
        &&& forall|i: int| 0 <= i < self.compounds().len() ==> data_below(#[trigger] self.compounds()[i], i as nat)
        &&& forall|i: int, j: int|
            0 <= i < self.struct_names().len() && 0 <= j < self.struct_names().len() && i != j
                ==> #[trigger] self.struct_names()[i].0 != #[trigger] self.struct_names()[j].0
        &&& forall|i: int| 0 <= i < self.struct_names().len() ==> {
            let (n, c) = #[trigger] self.struct_names()[i];
            &&& (c.0 as int) < self.compounds().len()
            &&& self.compounds()[c.0 as int] is Struct
            &&& self.compounds()[c.0 as int]->Struct_0.name == n
        }
    }

    pub fn new() -> (r: TypeStore)
        ensures
            r.wf(),
            r.compounds().len() == 0,
            r.struct_names().len() == 0,
    {
        let r = TypeStore { compounds: compound_arena_new(), struct_types: struct_map_new() };
        assert(r.compounds() =~= Seq::empty());
        r
    }

    /// Returns the handle of `data`, interning it first if no structurally
    /// equal data is in the store yet.
    pub fn make_compound(&mut self, data: CompoundTypeData) -> (r: CompoundType)
        requires
            old(self).wf(),
            data_below(data@, old(self).compounds().len()),
            old(self).compounds().len() < u32::MAX || old(self).compounds().contains(data@),
        ensures
            final(self).wf(),
            final(self).compounds() == (if old(self).compounds().contains(data@) {
                old(self).compounds()
            } else {
                old(self).compounds().push(data@)
            }),
            (r.0 as int) < final(self).compounds().len(),
            final(self).compounds()[r.0 as int] == data@,
            final(self).struct_names() == old(self).struct_names(),
    {
        let ghost old_c = self.compounds();
        let n = compound_arena_len(&self.compounds);
        let mut i: usize = 0;
        while i < n
            invariant
                n == self.compounds().len(),
                *self == *old(self),
                self.wf(),
                self.compounds() == old_c,
                i <= n,
                forall|k: int| 0 <= k < i ==> old_c[k] != data@,
            decreases n - i,
        {
            if compound_arena_index(&self.compounds, CompoundType(i as u32)).eq(&data) {
                proof {
                    assert(old_c[i as int] == compound_arena_entries(self.compounds)[i as int]@);
                    assert(old_c.contains(data@));
                }
                return CompoundType(i as u32);
            }
            i = i + 1;
        }
        proof {
            assert(!old_c.contains(data@)) by {
                if old_c.contains(data@) {
                    let k = choose|k: int| 0 <= k < old_c.len() && old_c[k] == data@;
                    assert(old_c[k] != data@);
                }
            }
        }
        let ghost old_s = self.struct_names();
        let c = compound_arena_push(&mut self.compounds, data);
        proof {
            assert(self.compounds() =~= old_c.push(data@));
            assert(self.struct_names() =~= old_s);
        }
        c
    }

    pub fn make_ptr(&mut self, ty: Type) -> (r: Type)
        requires
            old(self).wf(),
            old(self).valid_type(ty),
            old(self).compounds().len() < u32::MAX,
        ensures
            final(self).wf(),
            r matches Type::Compound(c) && (c.0 as int) < final(self).compounds().len()
                && final(self).compounds()[c.0 as int] == CompoundTypeDataView::Ptr(ty),
            final(self).compounds() == (if old(self).compounds().contains(CompoundTypeDataView::Ptr(ty)) {
                old(self).compounds()
            } else {
                old(self).compounds().push(CompoundTypeDataView::Ptr(ty))
            }),
            final(self).struct_names() == old(self).struct_names(),
    {
        let c = self.make_compound(CompoundTypeData::Ptr(ty));
        Type::Compound(c)
    }

    pub fn make_array(&mut self, elem: Type, len: usize) -> (r: Type)
        requires
            old(self).wf(),
            old(self).valid_type(elem),
            old(self).compounds().len() < u32::MAX,
        ensures
            final(self).wf(),
            r matches Type::Compound(c) && (c.0 as int) < final(self).compounds().len()
                && final(self).compounds()[c.0 as int] == (CompoundTypeDataView::Array { elem, len: len as nat }),
            final(self).compounds() == (if old(self).compounds().contains(CompoundTypeDataView::Array { elem, len: len as nat }) {
                old(self).compounds()
            } else {
                old(self).compounds().push(CompoundTypeDataView::Array { elem, len: len as nat })
            }),
            final(self).struct_names() == old(self).struct_names(),
    {
        let c = self.make_compound(CompoundTypeData::Array { elem, len });
        Type::Compound(c)
    }

    /// Declares struct `name`; the name must not be declared yet.
    pub fn make_struct(&mut self, name: &str, fields: &[Type], packed: bool) -> (r: Type)
        requires
            old(self).wf(),
            !old(self).has_struct_name(name@),
            forall|k: int| 0 <= k < fields@.len() ==> old(self).valid_type(#[trigger] fields@[k]),
            old(self).compounds().len() < u32::MAX,
        ensures
            final(self).wf(),
            r matches Type::Compound(c) && {
                &&& (c.0 as int) < final(self).compounds().len()
                &&& final(self).compounds()[c.0 as int] == CompoundTypeDataView::Struct(
                    StructDataView { name: name@, fields: fields@, packed },
                )
                &&& final(self).struct_names() == old(self).struct_names().push((name@, c))
                &&& final(self).struct_handle(name@) == Some(c)
            },
            final(self).compounds() == (if old(self).compounds().contains(
                CompoundTypeDataView::Struct(StructDataView { name: name@, fields: fields@, packed }),
            ) {
                old(self).compounds()
            } else {
                old(self).compounds().push(
                    CompoundTypeDataView::Struct(StructDataView { name: name@, fields: fields@, packed }),
                )
            }),
    {
        let mut field_vec: Vec<Type> = Vec::new();
        let mut i: usize = 0;
        while i < fields.len()
            invariant
                i <= fields@.len(),
                field_vec@ == fields@.subrange(0, i as int),
            decreases fields@.len() - i,
        {
            field_vec.push(fields[i]);
            i = i + 1;
            assert(field_vec@ =~= fields@.subrange(0, i as int));
        }
        assert(field_vec@ =~= fields@);
        let data = StructData { name: name.to_owned(), fields: field_vec, packed };
        let c = self.make_compound(CompoundTypeData::Struct(data));
        let ghost before = self.struct_names();
        proof {
            assert forall|k: int| 0 <= k < before.len() implies (#[trigger] before[k]).0 != name@ by {
                if before[k].0 == name@ {
                    assert(old(self).has_struct_name(name@));
                }
            }
        }
        struct_map_insert(&mut self.struct_types, name.to_owned(), c);
        proof {
            let last = self.struct_names().len() - 1;
            assert(self.struct_names()[last].0 == name@);
            assert(self.has_struct_name(name@));
            let j = choose|j: int| 0 <= j < self.struct_names().len() && #[trigger] self.struct_names()[j].0 == name@;
            if j != last {
                assert(before[j].0 == name@);
                assert(old(self).has_struct_name(name@));
            }
        }
        Type::Compound(c)
    }

    /// Returns the handle declared for struct name `name`.
    pub fn struct_type_by_name(&self, name: &str) -> (r: Option<Type>)
        requires
            self.wf(),
        ensures
            r == (match self.struct_handle(name@) {
                Some(c) => Some(Type::Compound(c)),
                None => None,
            }),
    {
        let r = struct_map_get(&self.struct_types, name);
        proof {
            if let Some(c) = r {
                let k = choose|k: int| 0 <= k < self.struct_names().len() && #[trigger] self.struct_names()[k] == (name@, c);
                assert(self.struct_names()[k].0 == name@);
                assert(self.has_struct_name(name@));
                let j = choose|j: int| 0 <= j < self.struct_names().len() && #[trigger] self.struct_names()[j].0 == name@;
                if j != k {
                    assert(self.struct_names()[j].0 != self.struct_names()[k].0);
                }
            } else {
                if self.has_struct_name(name@) {
                    let j = choose|j: int| 0 <= j < self.struct_names().len() && #[trigger] self.struct_names()[j].0 == name@;
                    assert(self.struct_names()[j].0 != name@);
                }
            }
        }
        match r {
            Some(c) => Some(Type::Compound(c)),
            None => None,
        }
    }

    /// The definition of `ty` if it is a struct type.
    pub fn struct_def(&self, ty: Type) -> (r: Option<&StructData>)
        requires
            self.wf(),
            self.valid_type(ty),
        ensures
            match ty {
                Type::Compound(c) => match self.compounds()[c.0 as int] {
                    CompoundTypeDataView::Struct(sd) => r matches Some(d) && d@ == sd,
                    _ => r is None,
                },
                _ => r is None,
            },
    {
        match ty {
            Type::Compound(c) => match compound_arena_index(&self.compounds, c) {
                CompoundTypeData::Struct(def) => Some(def),
                _ => None,
            },
            _ => None,
        }
    }

    /// The element type and length of `ty` if it is an array type.
    pub fn array_def(&self, ty: Type) -> (r: Option<(Type, usize)>)
        requires
            self.wf(),
            self.valid_type(ty),
        ensures
            match ty {
                Type::Compound(c) => match self.compounds()[c.0 as int] {
                    CompoundTypeDataView::Array { elem, len } => r matches Some(p) && p.0 == elem && p.1 as nat == len,
                    _ => r is None,
                },
                _ => r is None,
            },
    {
        match ty {
            Type::Compound(c) => match compound_arena_index(&self.compounds, c) {
                CompoundTypeData::Array { elem, len } => Some((*elem, *len)),
                _ => None,
            },
            _ => None,
        }
    }

    /// The pointee type of `ptr` if it is a pointer type.
    pub fn deref(&self, ptr: Type) -> (r: Option<Type>)
        requires
            self.wf(),
            self.valid_type(ptr),
        ensures
            match ptr {
                Type::Compound(c) => match self.compounds()[c.0 as int] {
                    CompoundTypeDataView::Ptr(t) => r == Some(t),
                    _ => r is None,
                },
                _ => r is None,
            },
    {
        match ptr {
            Type::Compound(c) => match compound_arena_index(&self.compounds, c) {
                CompoundTypeData::Ptr(t) => Some(*t),
                _ => None,
            },
            _ => None,
        }
    }

    pub fn is_integral(&self, ty: Type) -> (r: bool)
        ensures
            r == is_integral_spec(ty),
    {
        ty.is_integral()
    }

    pub fn is_ptr(&self, ty: Type) -> (r: bool)
        requires
            self.wf(),
            self.valid_type(ty),
        ensures
            r == (ty matches Type::Compound(c) && self.compounds()[c.0 as int] is Ptr),
    {
        match ty {
            Type::Compound(c) => compound_arena_index(&self.compounds, c).is_ptr(),
            _ => false,
        }
    }

    pub fn is_array(&self, ty: Type) -> (r: bool)
        requires
            self.wf(),
            self.valid_type(ty),
        ensures
            r == (ty matches Type::Compound(c) && self.compounds()[c.0 as int] is Array),
    {
        match ty {
            Type::Compound(c) => compound_arena_index(&self.compounds, c).is_array(),
            _ => false,
        }
    }

    /// The data interned under `compound`.
    pub fn resolve_compound(&self, compound: CompoundType) -> (r: &CompoundTypeData)
        requires
            self.wf(),
            (compound.0 as int) < self.compounds().len(),
        ensures
            r@ == self.compounds()[compound.0 as int],
    {
        compound_arena_index(&self.compounds, compound)
    }

    /// All declared structs, in declaration order.
    pub fn all_struct_data(&self) -> (r: Vec<&StructData>)
        requires
            self.wf(),
        ensures
            r@.len() == self.struct_names().len(),
            forall|k: int| 0 <= k < r@.len() ==> (
                #[trigger] self.compounds()[self.struct_names()[k].1.0 as int]
            ) == CompoundTypeDataView::Struct(r@[k]@),
    {
        let mut out: Vec<&StructData> = Vec::new();
        let n = struct_map_len(&self.struct_types);
        let mut i: usize = 0;
        while i < n
            invariant
                self.wf(),
                n == self.struct_names().len(),
                i <= n,
                out@.len() == i,
                forall|k: int| 0 <= k < i ==> (
                    #[trigger] self.compounds()[self.struct_names()[k].1.0 as int]
                ) == CompoundTypeDataView::Struct(out@[k]@),
            decreases n - i,
        {
            let c = match struct_map_value_at(&self.struct_types, i) {
                Some(c) => c,
                None => {
                    return out;
                },
            };
            proof {
                let e = self.struct_names()[i as int];
                assert(e.1 == c);
            }
            match compound_arena_index(&self.compounds, c) {
                CompoundTypeData::Struct(def) => {
                    out.push(def);
                },
                _ => {
                    proof {
                        let e = self.struct_names()[i as int];
                        assert(self.compounds()[c.0 as int] is Struct);
                    }
                    return out;
                },
            }
            i = i + 1;
        }
        out
    }
} // impl TypeStore

impl Default for TypeStore {
    fn default() -> (r: TypeStore)
        ensures
            r.wf(),
            r.compounds().len() == 0,
            r.struct_names().len() == 0,
    {
        TypeStore::new()
    }
}

/// Structurally equal compound types in a well-formed store have the same handle.
pub proof fn lemma_interning(s: TypeStore, a: CompoundType, b: CompoundType)
    requires
        s.wf(),
        (a.0 as int) < s.compounds().len(),
        (b.0 as int) < s.compounds().len(),
        s.compounds()[a.0 as int] == s.compounds()[b.0 as int],
    ensures
        a == b,
{
}

/// Once `name` has been declared as struct `c`, looking the name up yields `c`.
pub proof fn lemma_struct_lookup_after_declaration(
    before: TypeStore,
    after: TypeStore,
    name: Seq<char>,
    c: CompoundType,
)
    requires
        after.wf(),
        after.struct_names() == before.struct_names().push((name, c)),
    ensures
        after.struct_handle(name) == Some(c),
{
    let last = after.struct_names().len() - 1;
    assert(after.struct_names()[last] == (name, c));
    assert(after.has_struct_name(name));
    let j = choose|j: int| 0 <= j < after.struct_names().len() && #[trigger] after.struct_names()[j].0 == name;
    if j != last {
        assert(after.struct_names()[j].0 != after.struct_names()[last].0);
    }
}


/// A measure that decreases from a compound type to the types it refers to
/// in a well-formed store.
pub open spec fn type_rank(t: Type) -> nat {
    match t {
        Type::Compound(c) => c.0 as nat + 1,
        _ => 0,
    }
}

/// The textual form of `t`: `i32`, `()`, `*i64`, `[i32;3]`, `{Foo}` for a
/// struct and `<{Foo}>` for a packed struct.
pub open spec fn type_text(cs: Seq<CompoundTypeDataView>, t: Type) -> Seq<char>
    decreases type_rank(t),
{
    match t {
        Type::I1 => seq!['i', '1'],
        Type::I8 => seq!['i', '8'],
        Type::I16 => seq!['i', '1', '6'],
        Type::I32 => seq!['i', '3', '2'],
        Type::I64 => seq!['i', '6', '4'],
        Type::I128 => seq!['i', '1', '2', '8'],
        Type::I256 => seq!['i', '2', '5', '6'],
        Type::Void => seq!['(', ')'],
        Type::Compound(c) => if (c.0 as int) < cs.len() {
            match cs[c.0 as int] {
                CompoundTypeDataView::Array { elem, len } => if type_rank(elem) < type_rank(t) {
                    seq!['['] + type_text(cs, elem) + seq![';'] + nat_text(len) + seq![']']
                } else {
                    Seq::empty()
                },
                CompoundTypeDataView::Ptr(p) => if type_rank(p) < type_rank(t) {
                    seq!['*'] + type_text(cs, p)
                } else {
                    Seq::empty()
                },
                CompoundTypeDataView::Struct(sd) => if sd.packed {
                    seq!['<', '{'] + sd.name + seq!['}', '>']
                } else {
                    seq!['{'] + sd.name + seq!['}']
                },
            }
        } else {
            Seq::empty()
        },
    }
}

impl TypeStore {
    /// Appends the textual form of `t` to `out`.
    pub fn write_type(&self, t: Type, out: &mut String)
        requires
            self.wf(),
            self.valid_type(t),
        ensures
            final(out)@ == old(out)@ + type_text(self.compounds(), t),
        decreases type_rank(t),
    {
        match t {
            Type::I1 => {
                proof { reveal_strlit("i1"); }
                out.append("i1");
            },
            Type::I8 => {
                proof { reveal_strlit("i8"); }
                out.append("i8");
            },
            Type::I16 => {
                proof { reveal_strlit("i16"); }
                out.append("i16");
            },
            Type::I32 => {
                proof { reveal_strlit("i32"); }
                out.append("i32");
            },
            Type::I64 => {
                proof { reveal_strlit("i64"); }
                out.append("i64");
            },
            Type::I128 => {
                proof { reveal_strlit("i128"); }
                out.append("i128");
            },
            Type::I256 => {
                proof { reveal_strlit("i256"); }
                out.append("i256");
            },
            Type::Void => {
                proof { reveal_strlit("()"); }
                out.append("()");
            },
            Type::Compound(c) => {
                let ghost cs = self.compounds();
                proof {
                    assert(data_below(cs[c.0 as int], c.0 as nat));
                }
                match compound_arena_index(&self.compounds, c) {
                    CompoundTypeData::Array { elem, len } => {
                        proof { reveal_strlit("["); reveal_strlit(";"); reveal_strlit("]"); }
                        out.append("[");
                        self.write_type(*elem, out);
                        out.append(";");
                        write_u128(out, *len as u128);
                        out.append("]");
                        assert(out@ =~= old(out)@ + type_text(cs, t));
                    },
                    CompoundTypeData::Ptr(p) => {
                        proof { reveal_strlit("*"); }
                        out.append("*");
                        self.write_type(*p, out);
                        assert(out@ =~= old(out)@ + type_text(cs, t));
                    },
                    CompoundTypeData::Struct(sd) => {
                        proof { reveal_strlit("<{"); reveal_strlit("{"); reveal_strlit("}>"); reveal_strlit("}"); }
                        if sd.packed {
                            out.append("<{");
                            out.append(sd.name.as_str());
                            out.append("}>");
                        } else {
                            out.append("{");
                            out.append(sd.name.as_str());
                            out.append("}");
                        }
                        assert(out@ =~= old(out)@ + type_text(cs, t));
                    },
                }
            },
        }
    }
}

/// A type paired with the store that resolves its compound parts, for
/// rendering.
pub struct DisplayType<'a> {
    pub ty: Type,
    pub store: &'a TypeStore,
}

impl<'a> DisplayType<'a> {
    pub fn new(ty: Type, store: &'a TypeStore) -> (r: DisplayType<'a>)
        ensures
            r.ty == ty,
            r.store == store,
    {
        DisplayType { ty, store }
    }

    pub fn to_string(&self) -> (r: String)
        requires
            self.store.wf(),
            self.store.valid_type(self.ty),
        ensures
            r@ == type_text(self.store.compounds(), self.ty),
    {
        let mut out = String::new();
        self.store.write_type(self.ty, &mut out);
        assert(out@ =~= type_text(self.store.compounds(), self.ty));
        out
    }
}

impl Type {
    /// The textual form of this type, resolving compound parts in `store`.
    pub fn to_string(&self, store: &TypeStore) -> (r: String)
        requires
            store.wf(),
            store.valid_type(*self),
        ensures
            r@ == type_text(store.compounds(), *self),
    {
        DisplayType::new(*self, store).to_string()
    }
}

} // verus!
