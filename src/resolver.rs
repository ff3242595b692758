//! Resolution of registry types into TypeScript type descriptions.
use vstd::prelude::*;
use vstd::set_lib::{lemma_int_range, lemma_len_subset, set_int_range};
use crate::json::{jarr, JsonValue};
use crate::metadata::MetadataError;
use crate::registry::{entry_from, types_ok, index_of, lemma_find_before_range, Field, TypeDefinition, TypeEntry, TypeRegistry};
use crate::text::{contains_str, decimal, decimal_string, seq_contains, str_eq};

verus! {

/// A TypeScript type.
pub enum TypeScriptType {
    /// Primitive types: boolean, number, string, bigint, void, null, any.
    Primitive(String),
    /// Interface type with named fields.
    Interface { name: String, fields: Vec<(String, Box<TypeScriptType>)>, docs: Vec<String> },
    /// Discriminated union (for enums, Option, Result).
    Union { name: String, variants: Vec<UnionVariant>, docs: Vec<String> },
    /// Array type: `T[]`.
    Array(Box<TypeScriptType>),
    /// Tuple type: `[T1, T2, ...]`.
    Tuple(Vec<TypeScriptType>),
    /// Alternation of several types: `T1 | T2 | ...`.
    Or(Vec<TypeScriptType>),
    /// Optional type: `T | null`.
    Optional(Box<TypeScriptType>),
    /// Type reference by name.
    Reference(String),
    /// Any type (fallback).
    Any,
}

/// Variant in a discriminated union.
pub struct UnionVariant {
    pub name: String,
    pub fields: Vec<(Option<String>, TypeScriptType)>,
    pub docs: Vec<String>,
}

/// The mathematical value of a `TypeScriptType`: names as character sequences,
/// documentation left out (the resolver never writes any).
pub enum Ts {
    Prim(Seq<char>),
    Interface { name: Seq<char>, fields: Seq<(Seq<char>, Ts)> },
    Union { name: Seq<char>, variants: Seq<(Seq<char>, Seq<(Option<Seq<char>>, Ts)>)> },
    Array(Box<Ts>),
    Tuple(Seq<Ts>),
    Or(Seq<Ts>),
    Optional(Box<Ts>),
    Reference(Seq<char>),
    Any,
}

pub open spec fn opt_view(o: Option<String>) -> Option<Seq<char>> {
    match o {
        Some(s) => Some(s@),
        None => None,
    }
}

/// `t` has the value `m`, and carries no documentation.
pub open spec fn models(t: TypeScriptType, m: Ts) -> bool
    decreases m,
{
    match m {
        Ts::Prim(s) => t is Primitive && t->Primitive_0@ == s,
        Ts::Interface { name, fields } => t is Interface && t->Interface_name@ == name
            && t->Interface_docs@.len() == 0 && t->Interface_fields@.len() == fields.len()
            && forall|i: int|
            0 <= i < fields.len() ==> (#[trigger] t->Interface_fields@[i]).0@ == fields[i].0 && models(
                *t->Interface_fields@[i].1,
                fields[i].1,
            ),
        Ts::Union { name, variants } => t is Union && t->Union_name@ == name
            && t->Union_docs@.len() == 0 && t->Union_variants@.len() == variants.len()
            && (forall|i: int| 0 <= i < variants.len() ==> variant_shape(#[trigger] t->Union_variants@[i], variants[i]))
            && forall|i: int, j: int|
            0 <= i < variants.len() && 0 <= j < variants[i].1.len() ==> models(
                (#[trigger] t->Union_variants@[i].fields@[j]).1,
                variants[i].1[j].1,
            ),
        Ts::Array(b) => t is Array && models(*t->Array_0, *b),
        Ts::Tuple(ms) => t is Tuple && t->Tuple_0@.len() == ms.len()
            && forall|i: int| 0 <= i < ms.len() ==> models(#[trigger] t->Tuple_0@[i], ms[i]),
        Ts::Or(ms) => t is Or && t->Or_0@.len() == ms.len()
            && forall|i: int| 0 <= i < ms.len() ==> models(#[trigger] t->Or_0@[i], ms[i]),
        Ts::Optional(b) => t is Optional && models(*t->Optional_0, *b),
        Ts::Reference(s) => t is Reference && t->Reference_0@ == s,
        Ts::Any => t is Any,
    }
}

/// A union variant has the name, labels and field count of `m`, and no documentation.
pub open spec fn variant_shape(v: UnionVariant, m: (Seq<char>, Seq<(Option<Seq<char>>, Ts)>)) -> bool {
    &&& v.name@ == m.0
    &&& v.docs@.len() == 0
    &&& v.fields@.len() == m.1.len()
    &&& forall|j: int| 0 <= j < m.1.len() ==> opt_view((#[trigger] v.fields@[j]).0) == m.1[j].0
}

/// The alternation used for integers wider than 32 bits and for balances.
pub open spec fn big_number() -> Ts {
    Ts::Or(seq![Ts::Prim("string"@), Ts::Prim("number"@), Ts::Prim("bigint"@)])
}

/// The alternation used for byte vectors and 32-byte arrays.
pub open spec fn byte_buffer() -> Ts {
    Ts::Or(seq![Ts::Reference("Uint8Array"@), Ts::Prim("string"@)])
}

/// The projection of a primitive of the registry, by its name.
pub open spec fn primitive_of(name: Seq<char>) -> Ts {
    if name == "bool"@ {
        Ts::Prim("boolean"@)
    } else if name == "char"@ || name == "str"@ {
        Ts::Prim("string"@)
    } else if name == "u8"@ || name == "u16"@ || name == "u32"@ || name == "i8"@ || name == "i16"@
        || name == "i32"@ {
        Ts::Prim("number"@)
    } else if name == "u64"@ || name == "u128"@ || name == "u256"@ || name == "i64"@ || name
        == "i128"@ || name == "i256"@ {
        big_number()
    } else {
        Ts::Prim("any"@)
    }
}

/// The path segments as character sequences.
pub open spec fn path_view(p: Seq<String>) -> Seq<Seq<char>> {
    p.map_values(|s: String| s@)
}

/// The path segments joined by `::`.
pub open spec fn join_path(p: Seq<Seq<char>>) -> Seq<char>
    decreases p.len(),
{
    if p.len() == 0 {
        Seq::empty()
    } else if p.len() == 1 {
        p[0]
    } else {
        join_path(p.drop_last()) + "::"@ + p.last()
    }
}

/// How a path is recognised before the shape of a type is looked at.
pub enum WellKnown {
    Opt,
    Res,
    Str,
    Balance,
    Hash,
    ByShape,
}

/// The well-known type that a path names, if any.
pub open spec fn well_known(path: Seq<Seq<char>>) -> WellKnown {
    let j = join_path(path);
    if path.len() == 0 {
        WellKnown::ByShape
    } else if j == "Option"@ {
        WellKnown::Opt
    } else if j == "Result"@ {
        WellKnown::Res
    } else if j == "Vec"@ || j == "BTreeMap"@ || j == "BTreeSet"@ {
        WellKnown::ByShape
    } else if j == "String"@ || seq_contains(j, "AccountId"@) {
        WellKnown::Str
    } else if seq_contains(j, "Balance"@) {
        WellKnown::Balance
    } else if seq_contains(j, "Hash"@) {
        WellKnown::Hash
    } else {
        WellKnown::ByShape
    }
}

/// The declared name of a struct or enum: the last path segment, or a synthetic
/// name made of `prefix` and the number of members.
pub open spec fn declared_name(path: Seq<Seq<char>>, prefix: Seq<char>, n: nat) -> Seq<char> {
    if path.len() == 0 {
        prefix + decimal(n)
    } else {
        path.last()
    }
}

/// The label of the `j`-th of `n` fields of an enum variant.
pub open spec fn field_label(name: Option<String>, j: nat, n: nat) -> Seq<char> {
    match name {
        Some(s) => s@,
        None => if n == 1 {
            "value"@
        } else {
            "field"@ + decimal(j)
        },
    }
}

/// The set of entry indices that a resolution may stand on.
pub open spec fn visit_ok(vis: Set<int>, n: int) -> bool {
    vis.finite() && vis.subset_of(set_int_range(0, n))
}

pub proof fn lemma_visit_grows(vis: Set<int>, n: int, k: int)
    requires
        visit_ok(vis, n),
        0 <= k < n,
        !vis.contains(k),
    ensures
        visit_ok(vis.insert(k), n),
        vis.insert(k).len() == vis.len() + 1,
        vis.insert(k).len() <= n,
{
    lemma_int_range(0, n);
    lemma_len_subset(vis.insert(k), set_int_range(0, n));
}

/// The resolution of type `id` while the entries in `vis` are being resolved
/// further up: an entry met again resolves to `Any`, as does an unknown id.
pub open spec fn resolve_in(reg: Seq<TypeEntry>, id: u32, vis: Set<int>) -> Ts
    decreases reg.len() - vis.len(), 0int,
{
    let k = index_of(reg, id);
    if k < 0 || k >= reg.len() || vis.contains(k) || !visit_ok(vis, reg.len() as int) {
        Ts::Any
    } else {
        proof {
            lemma_visit_grows(vis, reg.len() as int, k);
        }
        resolve_entry(reg, reg[k], vis.insert(k))
    }
}

/// The parameter `i` of `e` resolved, or `Any` where it is missing.
pub open spec fn resolve_param(reg: Seq<TypeEntry>, e: TypeEntry, i: int, vis: Set<int>) -> Ts
    decreases reg.len() - vis.len(), 1int,
{
    if 0 <= i < e.params@.len() && e.params@[i] is Some {
        resolve_in(reg, e.params@[i]->Some_0, vis)
    } else {
        Ts::Any
    }
}

/// Whether no field of the list has a name.
pub open spec fn all_unnamed(fs: Seq<Field>) -> bool {
    forall|i: int| 0 <= i < fs.len() ==> fs[i].name is None
}

/// Whether every field of the list has a name.
pub open spec fn all_named(fs: Seq<Field>) -> bool {
    forall|i: int| 0 <= i < fs.len() ==> fs[i].name is Some
}

/// Whether type `t` is defined as the primitive `u8`.
pub open spec fn is_byte(reg: Seq<TypeEntry>, t: u32) -> bool {
    let k = index_of(reg, t);
    0 <= k < reg.len() && reg[k].def is Primitive && reg[k].def->Primitive_0@ == "u8"@
}

/// The labelled and resolved fields of an enum variant.
pub open spec fn variant_fields(reg: Seq<TypeEntry>, fs: Seq<Field>, vis: Set<int>) -> Seq<
    (Option<Seq<char>>, Ts),
>
    decreases reg.len() - vis.len(), 1int,
{
    Seq::new(
        fs.len(),
        |j: int| (Some(field_label(fs[j].name, j as nat, fs.len())), resolve_in(reg, fs[j].ty, vis)),
    )
}

/// The resolution of an entry, once it stands in `vis`.
pub open spec fn resolve_entry(reg: Seq<TypeEntry>, e: TypeEntry, vis: Set<int>) -> Ts
    decreases reg.len() - vis.len(), 2int,
{
    let path = path_view(e.path@);
    match well_known(path) {
        WellKnown::Opt => if e.params@.len() > 0 && e.params@[0] is Some {
            Ts::Optional(Box::new(resolve_param(reg, e, 0, vis)))
        } else {
            Ts::Or(seq![Ts::Any, Ts::Prim("null"@)])
        },
        WellKnown::Res => Ts::Union {
            name: "Result"@,
            variants: seq![
                ("Ok"@, seq![(Some("value"@), resolve_param(reg, e, 0, vis))]),
                ("Err"@, seq![(Some("error"@), resolve_param(reg, e, 1, vis))]),
            ],
        },
        WellKnown::Str => Ts::Prim("string"@),
        WellKnown::Balance => big_number(),
        WellKnown::Hash => Ts::Or(seq![Ts::Prim("string"@), Ts::Reference("Uint8Array"@)]),
        WellKnown::ByShape => match e.def {
            TypeDefinition::Primitive(name) => primitive_of(name@),
            TypeDefinition::Composite(fields) => {
                let fs = fields@;
                if all_unnamed(fs) {
                    if fs.len() == 1 {
                        resolve_in(reg, fs[0].ty, vis)
                    } else {
                        Ts::Tuple(Seq::new(fs.len(), |i: int| resolve_in(reg, fs[i].ty, vis)))
                    }
                } else if all_named(fs) {
                    Ts::Interface {
                        name: declared_name(path, "Struct"@, fs.len()),
                        fields: Seq::new(
                            fs.len(),
                            |i: int| (fs[i].name->Some_0@, resolve_in(reg, fs[i].ty, vis)),
                        ),
                    }
                } else {
                    Ts::Any
                }
            },
            TypeDefinition::Variant(vs) => Ts::Union {
                name: declared_name(path, "Enum"@, vs@.len()),
                variants: Seq::new(
                    vs@.len(),
                    |i: int| (vs@[i].name@, variant_fields(reg, vs@[i].fields@, vis)),
                ),
            },
            TypeDefinition::Sequence(t) => if is_byte(reg, t) {
                byte_buffer()
            } else {
                Ts::Array(Box::new(resolve_in(reg, t, vis)))
            },
            TypeDefinition::Array(t, len) => if len == 32 && is_byte(reg, t) {
                byte_buffer()
            } else {
                Ts::Array(Box::new(resolve_in(reg, t, vis)))
            },
            TypeDefinition::Tuple(ids) => if ids@.len() == 0 {
                Ts::Prim("void"@)
            } else {
                Ts::Tuple(Seq::new(ids@.len(), |i: int| resolve_in(reg, ids@[i], vis)))
            },
            TypeDefinition::Compact(t) => resolve_in(reg, t, vis),
            TypeDefinition::BitSequence => Ts::Reference("Uint8Array"@),
            TypeDefinition::Unknown => Ts::Any,
        },
    }
}

/// The resolution of type `id` from the top of a call tree.
pub open spec fn resolved(reg: Seq<TypeEntry>, id: u32) -> Ts {
    resolve_in(reg, id, Set::empty())
}

} // verus!

verus! {

/// A string holding the characters of a literal.
fn lit(s: &str) -> (r: String)
    ensures
        r@ == s@,
{
    String::from_str(s)
}

fn prim(s: &str) -> (r: TypeScriptType)
    ensures
        models(r, Ts::Prim(s@)),
{
    TypeScriptType::Primitive(lit(s))
}

fn big_number_type() -> (r: TypeScriptType)
    ensures
        models(r, big_number()),
{
    let v = vec![prim("string"), prim("number"), prim("bigint")];
    let r = TypeScriptType::Or(v);
    assert(models(r->Or_0@[0], Ts::Prim("string"@)));
    assert(models(r->Or_0@[1], Ts::Prim("number"@)));
    assert(models(r->Or_0@[2], Ts::Prim("bigint"@)));
    r
}

fn byte_buffer_type() -> (r: TypeScriptType)
    ensures
        models(r, byte_buffer()),
{
    let v = vec![TypeScriptType::Reference(lit("Uint8Array")), prim("string")];
    let r = TypeScriptType::Or(v);
    assert(models(r->Or_0@[0], Ts::Reference("Uint8Array"@)));
    assert(models(r->Or_0@[1], Ts::Prim("string"@)));
    r
}

fn hash_type() -> (r: TypeScriptType)
    ensures
        models(r, Ts::Or(seq![Ts::Prim("string"@), Ts::Reference("Uint8Array"@)])),
{
    let v = vec![prim("string"), TypeScriptType::Reference(lit("Uint8Array"))];
    let r = TypeScriptType::Or(v);
    assert(models(r->Or_0@[0], Ts::Prim("string"@)));
    assert(models(r->Or_0@[1], Ts::Reference("Uint8Array"@)));
    r
}

/// A primitive of the registry, projected by its name.
pub fn resolve_primitive(name: &str) -> (r: TypeScriptType)
    ensures
        models(r, primitive_of(name@)),
{
    if str_eq(name, "bool") {
        prim("boolean")
    } else if str_eq(name, "char") || str_eq(name, "str") {
        prim("string")
    } else if str_eq(name, "u8") || str_eq(name, "u16") || str_eq(name, "u32") || str_eq(name, "i8")
        || str_eq(name, "i16") || str_eq(name, "i32") {
        prim("number")
    } else if str_eq(name, "u64") || str_eq(name, "u128") || str_eq(name, "u256") || str_eq(
        name,
        "i64",
    ) || str_eq(name, "i128") || str_eq(name, "i256") {
        big_number_type()
    } else {
        prim("any")
    }
}

/// The path segments joined by `::`.
pub fn join_path_segments(path: &Vec<String>) -> (r: String)
    ensures
        r@ == join_path(path_view(path@)),
{
    let ghost p = path_view(path@);
    let mut r = String::new();
    if path.len() == 0 {
        return r;
    }
    r.append(path[0].as_str());
    let mut i: usize = 1;
    assert(p.subrange(0, 1).drop_last() =~= Seq::<Seq<char>>::empty());
    while i < path.len()
        invariant
            p == path_view(path@),
            1 <= i <= path.len(),
            r@ == join_path(p.subrange(0, i as int)),
        decreases path.len() - i,
    {
        r.append("::");
        r.append(path[i].as_str());
        assert(p.subrange(0, i + 1).drop_last() =~= p.subrange(0, i as int));
        i += 1;
    }
    assert(p.subrange(0, path.len() as int) =~= p);
    r
}

/// The well-known type that a path names, if any.
pub fn well_known_of(path: &Vec<String>) -> (k: WellKnown)
    ensures
        k == well_known(path_view(path@)),
{
    if path.len() == 0 {
        return WellKnown::ByShape;
    }
    let j = join_path_segments(path);
    let s = j.as_str();
    if str_eq(s, "Option") {
        WellKnown::Opt
    } else if str_eq(s, "Result") {
        WellKnown::Res
    } else if str_eq(s, "Vec") || str_eq(s, "BTreeMap") || str_eq(s, "BTreeSet") {
        WellKnown::ByShape
    } else if str_eq(s, "String") || contains_str(s, "AccountId") {
        WellKnown::Str
    } else if contains_str(s, "Balance") {
        WellKnown::Balance
    } else if contains_str(s, "Hash") {
        WellKnown::Hash
    } else {
        WellKnown::ByShape
    }
}

/// The declared name of a struct or enum with `n` members.
fn declared_name_of(path: &Vec<String>, prefix: &str, n: usize) -> (r: String)
    ensures
        r@ == declared_name(path_view(path@), prefix@, n as nat),
{
    if path.len() == 0 {
        let mut r = lit(prefix);
        let d = decimal_string(n as u128);
        r.append(d.as_str());
        r
    } else {
        path[path.len() - 1].clone()
    }
}

/// The label of the `j`-th of `n` fields of an enum variant.
fn field_label_of(name: &Option<String>, j: usize, n: usize) -> (r: String)
    ensures
        r@ == field_label(*name, j as nat, n as nat),
{
    match name {
        Some(s) => s.clone(),
        None => if n == 1 {
            lit("value")
        } else {
            let mut r = lit("field");
            let d = decimal_string(j as u128);
            r.append(d.as_str());
            r
        },
    }
}

/// `visiting` marks exactly the entries of `vis`.
pub open spec fn marks(visiting: Seq<bool>, vis: Set<int>, n: int) -> bool {
    &&& visiting.len() == n
    &&& visit_ok(vis, n)
    &&& forall|i: int| 0 <= i < n ==> (visiting[i] <==> vis.contains(i))
}

/// Type resolver that converts registry types to TypeScript types.
pub struct TypeResolver {
    types: TypeRegistry,
    /// Resolutions made from the top of a call tree, by type id.
    resolved_cache: Vec<(u32, TypeScriptType)>,
    /// Named types (structs, enums) that need separate declarations.
    named_types: Vec<(String, TypeScriptType)>,
}

impl TypeResolver {
    /// The entries of the registry that the resolver reads.
    pub closed spec fn registry(&self) -> Seq<TypeEntry> {
        self.types.entries@
    }

    /// Every cached resolution is the resolution of its id.
    pub closed spec fn wf(&self) -> bool {
        &&& self.named_types@.len() == 0
        &&& forall|i: int|
            0 <= i < self.resolved_cache@.len() ==> models(
                (#[trigger] self.resolved_cache@[i]).1,
                resolved(self.types.entries@, self.resolved_cache@[i].0),
            )
    }

    /// A resolver over the given registry, with nothing resolved yet.
    pub fn from_registry(types: TypeRegistry) -> (r: Self)
        ensures
            r.wf(),
            r.registry() == types.entries@,
    {
        TypeResolver { types, resolved_cache: Vec::new(), named_types: Vec::new() }
    }

    /// A resolver over the `types` section of a metadata document.
    pub fn new(types_array: &JsonValue) -> (r: Result<Self, MetadataError>)
        ensures
            r is Ok <==> types_ok(*types_array),
            r is Err ==> r->Err_0 == MetadataError::MalformedMetadata,
            r matches Ok(res) ==> {
                let a = jarr(Some(*types_array))->Some_0;
                &&& res.wf()
                &&& res.registry().len() == a.len()
                &&& forall|i: int| 0 <= i < a.len() ==> entry_from(#[trigger] a[i], res.registry()[i])
            },
    {
        match TypeRegistry::from_json(types_array) {
            Ok(reg) => Ok(TypeResolver::from_registry(reg)),
            Err(e) => Err(e),
        }
    }

    /// Named types that need separate declarations.
    pub fn get_named_types(&self) -> (r: &Vec<(String, TypeScriptType)>)
        ensures
            self.wf() ==> r@.len() == 0,
    {
        &self.named_types
    }

    /// Whether type `t` is defined as the primitive `u8`.
    fn is_byte_type(&self, t: u32) -> (r: bool)
        ensures
            r == is_byte(self.types.entries@, t),
    {
        proof {
            lemma_find_before_range(self.types.entries@, t, self.types.entries@.len() as int);
        }
        match self.types.position(t) {
            Some(k) => match &self.types.entries[k].def {
                TypeDefinition::Primitive(name) => str_eq(name.as_str(), "u8"),
                _ => false,
            },
            None => false,
        }
    }

    /// Resolve type `id` while the entries marked in `visiting` are in progress.
    fn resolve_at(&self, id: u32, visiting: &mut Vec<bool>, Ghost(vis): Ghost<Set<int>>) -> (r:
        TypeScriptType)
        requires
            marks(old(visiting)@, vis, self.types.entries@.len() as int),
        ensures
            final(visiting)@ == old(visiting)@,
            models(r, resolve_in(self.types.entries@, id, vis)),
        decreases self.types.entries@.len() - vis.len(), 0int,
    {
        let ghost reg = self.types.entries@;
        let ghost n = reg.len() as int;
        proof {
            lemma_find_before_range(reg, id, n);
        }
        match self.types.position(id) {
            None => TypeScriptType::Any,
            Some(k) => {
                if visiting[k] {
                    return TypeScriptType::Any;
                }
                proof {
                    lemma_visit_grows(vis, n, k as int);
                }
                let ghost vis2 = vis.insert(k as int);
                let ghost before = visiting@;
                visiting.set(k, true);
                assert(marks(visiting@, vis2, n));
                let r = self.resolve_entry_at(&self.types.entries[k], visiting, Ghost(vis2));
                visiting.set(k, false);
                assert(visiting@ =~= before);
                r
            },
        }
    }

    /// Resolve a type parameter of `e`, or `Any` where it is missing.
    fn resolve_param_at(
        &self,
        e: &TypeEntry,
        i: usize,
        visiting: &mut Vec<bool>,
        Ghost(vis): Ghost<Set<int>>,
    ) -> (r: TypeScriptType)
        requires
            marks(old(visiting)@, vis, self.types.entries@.len() as int),
            vis.len() <= self.types.entries@.len(),
        ensures
            final(visiting)@ == old(visiting)@,
            models(r, resolve_param(self.types.entries@, *e, i as int, vis)),
        decreases self.types.entries@.len() - vis.len(), 1int,
    {
        if i < e.params.len() {
            match e.params[i] {
                Some(t) => self.resolve_at(t, visiting, Ghost(vis)),
                None => TypeScriptType::Any,
            }
        } else {
            TypeScriptType::Any
        }
    }

    /// Resolve an entry that stands in `vis`.
    fn resolve_entry_at(&self, e: &TypeEntry, visiting: &mut Vec<bool>, Ghost(vis): Ghost<Set<int>>) -> (r:
        TypeScriptType)
        requires
            marks(old(visiting)@, vis, self.types.entries@.len() as int),
            vis.len() <= self.types.entries@.len(),
        ensures
            final(visiting)@ == old(visiting)@,
            models(r, resolve_entry(self.types.entries@, *e, vis)),
        decreases self.types.entries@.len() - vis.len(), 3int,
    {
        let ghost reg = self.types.entries@;
        match well_known_of(&e.path) {
            WellKnown::Opt => {
                if e.params.len() > 0 && e.params[0].is_some() {
                    let inner = self.resolve_param_at(e, 0, visiting, Ghost(vis));
                    TypeScriptType::Optional(Box::new(inner))
                } else {
                    let r = TypeScriptType::Or(vec![TypeScriptType::Any, prim("null")]);
                    assert(models(r->Or_0@[0], Ts::Any));
                    assert(models(r->Or_0@[1], Ts::Prim("null"@)));
                    r
                }
            },
            WellKnown::Res => {
                let ok = self.resolve_param_at(e, 0, visiting, Ghost(vis));
                let err = self.resolve_param_at(e, 1, visiting, Ghost(vis));
                let ok_v = UnionVariant {
                    name: lit("Ok"),
                    fields: vec![(Some(lit("value")), ok)],
                    docs: Vec::new(),
                };
                let err_v = UnionVariant {
                    name: lit("Err"),
                    fields: vec![(Some(lit("error")), err)],
                    docs: Vec::new(),
                };
                let r = TypeScriptType::Union {
                    name: lit("Result"),
                    variants: vec![ok_v, err_v],
                    docs: Vec::new(),
                };
                let ghost m = resolve_entry(reg, *e, vis);
                assert(models(r->Union_variants@[0].fields@[0].1, resolve_param(reg, *e, 0, vis)));
                assert(models(r->Union_variants@[1].fields@[0].1, resolve_param(reg, *e, 1, vis)));
                r
            },
            WellKnown::Str => prim("string"),
            WellKnown::Balance => big_number_type(),
            WellKnown::Hash => hash_type(),
            WellKnown::ByShape => self.resolve_shape(e, visiting, Ghost(vis)),
        }
    }

    /// Resolve an entry by the shape of its definition.
    fn resolve_shape(&self, e: &TypeEntry, visiting: &mut Vec<bool>, Ghost(vis): Ghost<Set<int>>) -> (r:
        TypeScriptType)
        requires
            marks(old(visiting)@, vis, self.types.entries@.len() as int),
            vis.len() <= self.types.entries@.len(),
            well_known(path_view(e.path@)) == WellKnown::ByShape,
        ensures
            final(visiting)@ == old(visiting)@,
            models(r, resolve_entry(self.types.entries@, *e, vis)),
        decreases self.types.entries@.len() - vis.len(), 2int,
    {
        let ghost reg = self.types.entries@;
        match &e.def {
            TypeDefinition::Primitive(name) => resolve_primitive(name.as_str()),
            TypeDefinition::Composite(fields) => self.resolve_composite(e, fields, visiting, Ghost(vis)),
            TypeDefinition::Variant(vs) => self.resolve_variant(e, visiting, Ghost(vis)),
            TypeDefinition::Sequence(t) => {
                if self.is_byte_type(*t) {
                    byte_buffer_type()
                } else {
                    TypeScriptType::Array(Box::new(self.resolve_at(*t, visiting, Ghost(vis))))
                }
            },
            TypeDefinition::Array(t, len) => {
                if *len == 32 && self.is_byte_type(*t) {
                    byte_buffer_type()
                } else {
                    TypeScriptType::Array(Box::new(self.resolve_at(*t, visiting, Ghost(vis))))
                }
            },
            TypeDefinition::Tuple(ids) => {
                if ids.len() == 0 {
                    return prim("void");
                }
                let ghost m = Seq::new(ids@.len(), |i: int| resolve_in(reg, ids@[i], vis));
                let mut out: Vec<TypeScriptType> = Vec::new();
                let mut i: usize = 0;
                while i < ids.len()
                    invariant
                        marks(visiting@, vis, reg.len() as int),
                        visiting@ == old(visiting)@,
                        reg == self.types.entries@,
                        vis.len() <= reg.len(),
                        i <= ids.len(),
                        out@.len() == i,
                        m == Seq::new(ids@.len(), |i: int| resolve_in(reg, ids@[i], vis)),
                        forall|j: int| 0 <= j < i ==> models(#[trigger] out@[j], m[j]),
                    decreases ids.len() - i,
                {
                    let t = self.resolve_at(ids[i], visiting, Ghost(vis));
                    assert(m[i as int] == resolve_in(reg, ids@[i as int], vis));
                    out.push(t);
                    i += 1;
                }
                let r = TypeScriptType::Tuple(out);
                assert(forall|j: int| 0 <= j < m.len() ==> models(#[trigger] r->Tuple_0@[j], m[j]));
                assert(resolve_entry(reg, *e, vis)->Tuple_0 =~= m);
                r
            },
            TypeDefinition::Compact(t) => self.resolve_at(*t, visiting, Ghost(vis)),
            TypeDefinition::BitSequence => TypeScriptType::Reference(lit("Uint8Array")),
            TypeDefinition::Unknown => TypeScriptType::Any,
        }
    }

    /// Resolve a struct.
    fn resolve_composite(
        &self,
        e: &TypeEntry,
        fields: &Vec<Field>,
        visiting: &mut Vec<bool>,
        Ghost(vis): Ghost<Set<int>>,
    ) -> (r: TypeScriptType)
        requires
            marks(old(visiting)@, vis, self.types.entries@.len() as int),
            vis.len() <= self.types.entries@.len(),
            well_known(path_view(e.path@)) == WellKnown::ByShape,
            e.def == TypeDefinition::Composite(*fields),
        ensures
            final(visiting)@ == old(visiting)@,
            models(r, resolve_entry(self.types.entries@, *e, vis)),
        decreases self.types.entries@.len() - vis.len(), 1int,
    {
        let ghost reg = self.types.entries@;
        let ghost fs = fields@;
        let mut unnamed = true;
        let mut named = true;
        let mut i: usize = 0;
        while i < fields.len()
            invariant
                fs == fields@,
                i <= fields.len(),
                unnamed == (forall|j: int| 0 <= j < i ==> fs[j].name is None),
                named == (forall|j: int| 0 <= j < i ==> fs[j].name is Some),
            decreases fields.len() - i,
        {
            if fields[i].name.is_some() {
                unnamed = false;
            } else {
                named = false;
            }
            i += 1;
        }
        if unnamed {
            if fields.len() == 1 {
                return self.resolve_at(fields[0].ty, visiting, Ghost(vis));
            }
            let ghost m = Seq::new(fs.len(), |i: int| resolve_in(reg, fs[i].ty, vis));
            let mut out: Vec<TypeScriptType> = Vec::new();
            let mut i: usize = 0;
            while i < fields.len()
                invariant
                    marks(visiting@, vis, reg.len() as int),
                    visiting@ == old(visiting)@,
                    reg == self.types.entries@,
                    fs == fields@,
                    vis.len() <= reg.len(),
                    i <= fields.len(),
                    out@.len() == i,
                    m == Seq::new(fs.len(), |i: int| resolve_in(reg, fs[i].ty, vis)),
                    forall|j: int| 0 <= j < i ==> models(#[trigger] out@[j], m[j]),
                decreases fields.len() - i,
            {
                let t = self.resolve_at(fields[i].ty, visiting, Ghost(vis));
                assert(m[i as int] == resolve_in(reg, fs[i as int].ty, vis));
                out.push(t);
                i += 1;
            }
            let r = TypeScriptType::Tuple(out);
            assert(forall|j: int| 0 <= j < m.len() ==> models(#[trigger] r->Tuple_0@[j], m[j]));
            assert(resolve_entry(reg, *e, vis)->Tuple_0 =~= m);
            r
        } else if named {
            let ghost m = Seq::new(
                fs.len(),
                |i: int| (fs[i].name->Some_0@, resolve_in(reg, fs[i].ty, vis)),
            );
            let mut out: Vec<(String, Box<TypeScriptType>)> = Vec::new();
            let mut i: usize = 0;
            while i < fields.len()
                invariant
                    marks(visiting@, vis, reg.len() as int),
                    visiting@ == old(visiting)@,
                    reg == self.types.entries@,
                    fs == fields@,
                    vis.len() <= reg.len(),
                    forall|j: int| 0 <= j < fs.len() ==> fs[j].name is Some,
                    i <= fields.len(),
                    out@.len() == i,
                    m == Seq::new(
                        fs.len(),
                        |i: int| (fs[i].name->Some_0@, resolve_in(reg, fs[i].ty, vis)),
                    ),
                    forall|j: int| 0 <= j < i ==> (#[trigger] out@[j]).0@ == m[j].0 && models(*out@[j].1, m[j].1),
                decreases fields.len() - i,
            {
                let name = match &fields[i].name {
                    Some(s) => s.clone(),
                    None => String::new(),
                };
                let t = self.resolve_at(fields[i].ty, visiting, Ghost(vis));
                assert(m[i as int] == (fs[i as int].name->Some_0@, resolve_in(reg, fs[i as int].ty, vis)));
                out.push((name, Box::new(t)));
                i += 1;
            }
            let r = TypeScriptType::Interface {
                name: declared_name_of(&e.path, "Struct", fields.len()),
                fields: out,
                docs: Vec::new(),
            };
            assert(resolve_entry(reg, *e, vis)->Interface_fields =~= m);
            r
        } else {
            TypeScriptType::Any
        }
    }

    /// Resolve an enum.
    fn resolve_variant(&self, e: &TypeEntry, visiting: &mut Vec<bool>, Ghost(vis): Ghost<Set<int>>) -> (r:
        TypeScriptType)
        requires
            marks(old(visiting)@, vis, self.types.entries@.len() as int),
            vis.len() <= self.types.entries@.len(),
            well_known(path_view(e.path@)) == WellKnown::ByShape,
            e.def is Variant,
        ensures
            final(visiting)@ == old(visiting)@,
            models(r, resolve_entry(self.types.entries@, *e, vis)),
        decreases self.types.entries@.len() - vis.len(), 1int,
    {
        let ghost reg = self.types.entries@;
        let vs = match &e.def {
            TypeDefinition::Variant(vs) => vs,
            _ => {
                return TypeScriptType::Any;
            },
        };
        let ghost m = Seq::new(
            vs@.len(),
            |i: int| (vs@[i].name@, variant_fields(reg, vs@[i].fields@, vis)),
        );
        let mut out: Vec<UnionVariant> = Vec::new();
        let mut i: usize = 0;
        while i < vs.len()
            invariant
                marks(visiting@, vis, reg.len() as int),
                visiting@ == old(visiting)@,
                reg == self.types.entries@,
                vis.len() <= reg.len(),
                m == Seq::new(
                    vs@.len(),
                    |i: int| (vs@[i].name@, variant_fields(reg, vs@[i].fields@, vis)),
                ),
                i <= vs.len(),
                out@.len() == i,
                forall|k: int| 0 <= k < i ==> variant_shape(#[trigger] out@[k], m[k]),
                forall|k: int, j: int|
                    0 <= k < i && 0 <= j < m[k].1.len() ==> models(
                        (#[trigger] out@[k].fields@[j]).1,
                        m[k].1[j].1,
                    ),
            decreases vs.len() - i,
        {
            let vfs = &vs[i].fields;
            let n = vfs.len();
            let ghost mf = variant_fields(reg, vfs@, vis);
            let mut fo: Vec<(Option<String>, TypeScriptType)> = Vec::new();
            let mut j: usize = 0;
            while j < n
                invariant
                    marks(visiting@, vis, reg.len() as int),
                    visiting@ == old(visiting)@,
                    reg == self.types.entries@,
                    vis.len() <= reg.len(),
                    n == vfs.len(),
                    mf == variant_fields(reg, vfs@, vis),
                    j <= n,
                    fo@.len() == j,
                    forall|jj: int| 0 <= jj < j ==> opt_view((#[trigger] fo@[jj]).0) == mf[jj].0,
                    forall|jj: int| 0 <= jj < j ==> models((#[trigger] fo@[jj]).1, mf[jj].1),
                decreases n - j,
            {
                let label = field_label_of(&vfs[j].name, j, n);
                let t = self.resolve_at(vfs[j].ty, visiting, Ghost(vis));
                assert(mf[j as int] == (
                    Some(field_label(vfs@[j as int].name, j as nat, n as nat)),
                    resolve_in(reg, vfs@[j as int].ty, vis),
                ));
                fo.push((Some(label), t));
                j += 1;
            }
            let ghost fo_s = fo@;
            let v = UnionVariant { name: vs[i].name.clone(), fields: fo, docs: Vec::new() };
            assert forall|j: int| 0 <= j < mf.len() implies models((#[trigger] v.fields@[j]).1, mf[j].1) by {
                assert(models(fo_s[j].1, mf[j].1));
            }
            assert(m[i as int] == (vs@[i as int].name@, mf));
            assert(variant_shape(v, m[i as int]));
            let ghost out_s = out@;
            out.push(v);
            assert forall|k: int, j: int|
                0 <= k < i + 1 && 0 <= j < m[k].1.len() implies models(
                    (#[trigger] out@[k].fields@[j]).1,
                    m[k].1[j].1,
                ) by {
                if k < i {
                    assert(out@[k] == out_s[k]);
                } else {
                    assert(models(v.fields@[j].1, mf[j].1));
                }
            }
            i += 1;
        }
        let r = TypeScriptType::Union {
            name: declared_name_of(&e.path, "Enum", vs.len()),
            variants: out,
            docs: Vec::new(),
        };
        assert(resolve_entry(reg, *e, vis)->Union_variants =~= m);
        let ghost want = Ts::Union { name: declared_name(path_view(e.path@), "Enum"@, vs@.len()), variants: m };
        assert(resolve_entry(reg, *e, vis) == want);
        assert(models(r, want));
        r
    }
}

} // verus!

verus! {

/// A copy of `t`, of the same value.
fn copy_type(t: &TypeScriptType, Ghost(m): Ghost<Ts>) -> (r: TypeScriptType)
    requires
        models(*t, m),
    ensures
        models(r, m),
    decreases m,
{
    match t {
        TypeScriptType::Primitive(s) => TypeScriptType::Primitive(s.clone()),
        TypeScriptType::Reference(s) => TypeScriptType::Reference(s.clone()),
        TypeScriptType::Any => TypeScriptType::Any,
        TypeScriptType::Array(b) => {
            let ghost inner = *m->Array_0;
            TypeScriptType::Array(Box::new(copy_type(b, Ghost(inner))))
        },
        TypeScriptType::Optional(b) => {
            let ghost inner = *m->Optional_0;
            TypeScriptType::Optional(Box::new(copy_type(b, Ghost(inner))))
        },
        TypeScriptType::Tuple(v) => TypeScriptType::Tuple(copy_list(v, Ghost(m), Ghost(m->Tuple_0))),
        TypeScriptType::Or(v) => TypeScriptType::Or(copy_list(v, Ghost(m), Ghost(m->Or_0))),
        TypeScriptType::Interface { name, fields, docs } => {
            assert(m is Interface);
            let ghost ms = m->Interface_fields;
            let mut out: Vec<(String, Box<TypeScriptType>)> = Vec::new();
            let mut i: usize = 0;
            while i < fields.len()
                invariant
                    models(*t, m),
                    m is Interface,
                    ms == m->Interface_fields,
                    fields@.len() == ms.len(),
                    forall|j: int| 0 <= j < ms.len() ==> (#[trigger] fields@[j]).0@ == ms[j].0 && models(*fields@[j].1, ms[j].1),
                    i <= fields.len(),
                    out@.len() == i,
                    forall|j: int| 0 <= j < i ==> (#[trigger] out@[j]).0@ == ms[j].0 && models(*out@[j].1, ms[j].1),
                decreases fields.len() - i,
            {
                let ghost mi = ms[i as int].1;
                proof {
                    assert(decreases_to!(m => m->Interface_fields));
                    assert(decreases_to!(ms => ms[i as int]));
                    assert(decreases_to!(ms[i as int] => ms[i as int].1));
                }
                let c = copy_type(&fields[i].1, Ghost(mi));
                out.push((fields[i].0.clone(), Box::new(c)));
                i += 1;
            }
            TypeScriptType::Interface { name: name.clone(), fields: out, docs: Vec::new() }
        },
        TypeScriptType::Union { name, variants, docs } => {
            assert(m is Union);
            let ghost ms = m->Union_variants;
            let mut out: Vec<UnionVariant> = Vec::new();
            let mut i: usize = 0;
            while i < variants.len()
                invariant
                    models(*t, m),
                    m is Union,
                    ms == m->Union_variants,
                    variants@.len() == ms.len(),
                    forall|k: int| 0 <= k < ms.len() ==> variant_shape(#[trigger] variants@[k], ms[k]),
                    forall|k: int, j: int|
                        0 <= k < ms.len() && 0 <= j < ms[k].1.len() ==> models(
                            (#[trigger] variants@[k].fields@[j]).1,
                            ms[k].1[j].1,
                        ),
                    i <= variants.len(),
                    out@.len() == i,
                    forall|k: int| 0 <= k < i ==> variant_shape(#[trigger] out@[k], ms[k]),
                    forall|k: int, j: int|
                        0 <= k < i && 0 <= j < ms[k].1.len() ==> models(
                            (#[trigger] out@[k].fields@[j]).1,
                            ms[k].1[j].1,
                        ),
                decreases variants.len() - i,
            {
                let vf = &variants[i].fields;
                let ghost mf = ms[i as int].1;
                let mut fo: Vec<(Option<String>, TypeScriptType)> = Vec::new();
                let mut j: usize = 0;
                assert(variant_shape(variants@[i as int], ms[i as int]));
                while j < vf.len()
                    invariant
                        models(*t, m),
                        m is Union,
                        ms == m->Union_variants,
                        variants@.len() == ms.len(),
                        i < variants.len(),
                        *vf == variants@[i as int].fields,
                        mf == ms[i as int].1,
                        vf@.len() == mf.len(),
                        forall|jj: int| 0 <= jj < mf.len() ==> opt_view((#[trigger] vf@[jj]).0) == mf[jj].0,
                        forall|jj: int| 0 <= jj < mf.len() ==> models((#[trigger] vf@[jj]).1, mf[jj].1),
                        j <= vf.len(),
                        fo@.len() == j,
                        forall|jj: int| 0 <= jj < j ==> opt_view((#[trigger] fo@[jj]).0) == mf[jj].0,
                        forall|jj: int| 0 <= jj < j ==> models((#[trigger] fo@[jj]).1, mf[jj].1),
                    decreases vf.len() - j,
                {
                    let ghost mj = mf[j as int].1;
                    proof {
                        assert(decreases_to!(m => m->Union_variants));
                        assert(decreases_to!(ms => ms[i as int]));
                        assert(decreases_to!(ms[i as int] => ms[i as int].1));
                        assert(decreases_to!(mf => mf[j as int]));
                        assert(decreases_to!(mf[j as int] => mf[j as int].1));
                    }
                    let c = copy_type(&vf[j].1, Ghost(mj));
                    let label = match &vf[j].0 {
                        Some(s) => Some(s.clone()),
                        None => None,
                    };
                    fo.push((label, c));
                    j += 1;
                }
                let ghost fo_s = fo@;
                let v = UnionVariant { name: variants[i].name.clone(), fields: fo, docs: Vec::new() };
                assert forall|jj: int| 0 <= jj < mf.len() implies models((#[trigger] v.fields@[jj]).1, mf[jj].1) by {
                    assert(models(fo_s[jj].1, mf[jj].1));
                }
                let ghost out_s = out@;
                out.push(v);
                assert forall|k: int, jj: int|
                    0 <= k < i + 1 && 0 <= jj < ms[k].1.len() implies models(
                        (#[trigger] out@[k].fields@[jj]).1,
                        ms[k].1[jj].1,
                    ) by {
                    if k < i {
                        assert(out@[k] == out_s[k]);
                    } else {
                        assert(models(v.fields@[jj].1, mf[jj].1));
                    }
                }
                i += 1;
            }
            TypeScriptType::Union { name: name.clone(), variants: out, docs: Vec::new() }
        },
    }
}

/// A copy of a list of types, element by element.
fn copy_list(v: &Vec<TypeScriptType>, Ghost(whole): Ghost<Ts>, Ghost(ms): Ghost<Seq<Ts>>) -> (r: Vec<TypeScriptType>)
    requires
        whole == Ts::Tuple(ms) || whole == Ts::Or(ms),
        v@.len() == ms.len(),
        forall|j: int| 0 <= j < ms.len() ==> models(#[trigger] v@[j], ms[j]),
    ensures
        r@.len() == ms.len(),
        forall|j: int| 0 <= j < ms.len() ==> models(#[trigger] r@[j], ms[j]),
    decreases whole, 0int,
{
    let mut out: Vec<TypeScriptType> = Vec::new();
    let mut i: usize = 0;
    while i < v.len()
        invariant
            whole == Ts::Tuple(ms) || whole == Ts::Or(ms),
            v@.len() == ms.len(),
            forall|j: int| 0 <= j < ms.len() ==> models(#[trigger] v@[j], ms[j]),
            i <= v.len(),
            out@.len() == i,
            forall|j: int| 0 <= j < i ==> models(#[trigger] out@[j], ms[j]),
        decreases v.len() - i,
    {
        let ghost mi = ms[i as int];
        proof {
            if whole is Tuple {
                assert(decreases_to!(whole => whole->Tuple_0));
            } else {
                assert(decreases_to!(whole => whole->Or_0));
            }
            assert(decreases_to!(ms => ms[i as int]));
        }
        out.push(copy_type(&v[i], Ghost(mi)));
        i += 1;
    }
    out
}

/// The members of a list of types, formatted and joined by `sep`.
pub open spec fn join_formats(v: Seq<TypeScriptType>, sep: Seq<char>) -> Seq<char>
    decreases v,
{
    if v.len() == 0 {
        Seq::empty()
    } else if v.len() == 1 {
        format_of(v[0])
    } else {
        proof {
            assert(decreases_to!(v => v.subrange(0, v.len() - 1)));
        }
        join_formats(v.subrange(0, v.len() - 1), sep) + sep + format_of(v[v.len() - 1])
    }
}

/// How a type is written in a declaration.
pub open spec fn format_of(t: TypeScriptType) -> Seq<char>
    decreases t,
{
    match t {
        TypeScriptType::Primitive(name) => name@,
        TypeScriptType::Reference(name) => name@,
        TypeScriptType::Array(inner) => format_of(*inner) + "[]"@,
        TypeScriptType::Tuple(types) => "["@ + join_formats(types@, ", "@) + "]"@,
        TypeScriptType::Or(types) => join_formats(types@, " | "@),
        TypeScriptType::Optional(inner) => format_of(*inner) + " | null"@,
        TypeScriptType::Interface { name, .. } => name@,
        TypeScriptType::Union { name, .. } => name@,
        TypeScriptType::Any => "any"@,
    }
}

impl TypeResolver {
    /// Resolve a type id to a TypeScript type. Unknown ids and types met again
    /// while they are being resolved become `Any`.
    pub fn resolve_type(&mut self, type_id: u32) -> (r: TypeScriptType)
        requires
            old(self).wf(),
        ensures
            final(self).wf(),
            final(self).registry() == old(self).registry(),
            models(r, resolved(old(self).registry(), type_id)),
    {
        let ghost reg = self.types.entries@;
        let ghost want = resolved(reg, type_id);
        let mut i: usize = 0;
        while i < self.resolved_cache.len()
            invariant
                self.wf(),
                reg == self.types.entries@,
                want == resolved(reg, type_id),
                i <= self.resolved_cache.len(),
            decreases self.resolved_cache.len() - i,
        {
            if self.resolved_cache[i].0 == type_id {
                let ghost entry = self.resolved_cache@[i as int];
                assert(entry.0 == type_id);
                assert(models(entry.1, resolved(self.types.entries@, entry.0)));
                assert(models(entry.1, want));
                return copy_type(&self.resolved_cache[i].1, Ghost(want));
            }
            i += 1;
        }
        let n = self.types.entries.len();
        let mut visiting: Vec<bool> = Vec::new();
        let mut k: usize = 0;
        while k < n
            invariant
                n == self.types.entries@.len(),
                k <= n,
                visiting@.len() == k,
                forall|j: int| 0 <= j < k ==> !visiting@[j],
            decreases n - k,
        {
            visiting.push(false);
            k += 1;
        }
        proof {
            lemma_int_range(0, n as int);
        }
        assert(marks(visiting@, Set::empty(), n as int));
        let r = self.resolve_at(type_id, &mut visiting, Ghost(Set::empty()));
        let c = copy_type(&r, Ghost(want));
        let ghost before = self.resolved_cache@;
        self.resolved_cache.push((type_id, c));
        assert forall|j: int| 0 <= j < self.resolved_cache@.len() implies models(
            (#[trigger] self.resolved_cache@[j]).1,
            resolved(self.types.entries@, self.resolved_cache@[j].0),
        ) by {
            if j < before.len() {
                assert(self.resolved_cache@[j] == before[j]);
            }
        }
        r
    }

    /// Format a TypeScript type as it is written in a declaration.
    pub fn format_type(&self, ts_type: &TypeScriptType) -> (r: String)
        ensures
            r@ == format_of(*ts_type),
        decreases ts_type,
    {
        match ts_type {
            TypeScriptType::Primitive(name) => name.clone(),
            TypeScriptType::Reference(name) => name.clone(),
            TypeScriptType::Array(inner) => {
                let mut r = self.format_type(inner);
                r.append("[]");
                r
            },
            TypeScriptType::Tuple(types) => {
                let mut r = lit("[");
                let j = self.format_list(ts_type, types, ", ");
                r.append(j.as_str());
                r.append("]");
                r
            },
            TypeScriptType::Or(types) => self.format_list(ts_type, types, " | "),
            TypeScriptType::Optional(inner) => {
                let mut r = self.format_type(inner);
                r.append(" | null");
                r
            },
            TypeScriptType::Interface { name, .. } => name.clone(),
            TypeScriptType::Union { name, .. } => name.clone(),
            TypeScriptType::Any => lit("any"),
        }
    }

    /// Format the members of `types`, a list held by `whole`, joined by `sep`.
    fn format_list(&self, whole: &TypeScriptType, types: &Vec<TypeScriptType>, sep: &str) -> (r: String)
        requires
            whole == TypeScriptType::Tuple(*types) || whole == TypeScriptType::Or(*types),
        ensures
            r@ == join_formats(types@, sep@),
        decreases whole, 0int,
    {
        let mut r = String::new();
        let mut i: usize = 0;
        while i < types.len()
            invariant
                whole == TypeScriptType::Tuple(*types) || whole == TypeScriptType::Or(*types),
                i <= types.len(),
                r@ == join_formats(types@.subrange(0, i as int), sep@),
            decreases types.len() - i,
        {
            proof {
                if whole is Tuple {
                    assert(decreases_to!(*whole => whole->Tuple_0));
                } else {
                    assert(decreases_to!(*whole => whole->Or_0));
                }
                assert(decreases_to!(*types => types@));
                assert(decreases_to!(types@ => types@[i as int]));
            }
            let f = self.format_type(&types[i]);
            if i > 0 {
                r.append(sep);
            }
            r.append(f.as_str());
            proof {
                let s = types@.subrange(0, i + 1);
                assert(s.subrange(0, s.len() - 1) =~= types@.subrange(0, i as int));
                if i == 0 {
                    assert(r@ =~= format_of(s[0]));
                }
            }
            i += 1;
        }
        assert(types@.subrange(0, types.len() as int) =~= types@);
        r
    }
}

} // verus!

verus! {

/// Whether `name` is a primitive of at most 32 bits (or bool, char, str).
pub open spec fn small_primitive(name: Seq<char>) -> bool {
    name == "bool"@ || name == "char"@ || name == "str"@ || name == "u8"@ || name == "u16"@
        || name == "u32"@ || name == "i8"@ || name == "i16"@ || name == "i32"@
}

/// The entry that defines `id` is a primitive named `name`, without a path.
pub open spec fn defines_primitive(reg: Seq<TypeEntry>, id: u32, name: Seq<char>) -> bool {
    let k = index_of(reg, id);
    0 <= k < reg.len() && reg[k].path@.len() == 0 && reg[k].def is Primitive
        && reg[k].def->Primitive_0@ == name
}

/// A primitive without a path resolves by its name alone.
pub proof fn lemma_primitive_resolution(reg: Seq<TypeEntry>, id: u32, name: Seq<char>, vis: Set<int>)
    requires
        defines_primitive(reg, id, name),
        visit_ok(vis, reg.len() as int),
        !vis.contains(index_of(reg, id)),
    ensures
        resolve_in(reg, id, vis) == primitive_of(name),
{
    let k = index_of(reg, id);
    assert(path_view(reg[k].path@).len() == 0);
}

/// A primitive of at most 32 bits resolves to one fixed scalar type, whatever
/// else is being resolved: resolving its id again, from any state of the
/// resolver, gives the same type.
pub proof fn lemma_small_primitive_stable(reg: Seq<TypeEntry>, id: u32, name: Seq<char>, vis1: Set<int>, vis2: Set<int>)
    requires
        defines_primitive(reg, id, name),
        small_primitive(name),
        visit_ok(vis1, reg.len() as int),
        visit_ok(vis2, reg.len() as int),
        !vis1.contains(index_of(reg, id)),
        !vis2.contains(index_of(reg, id)),
    ensures
        resolve_in(reg, id, vis1) == resolve_in(reg, id, vis2),
        resolve_in(reg, id, vis1) == primitive_of(name),
        resolve_in(reg, id, vis1) is Prim,
{
    let k = index_of(reg, id);
    assert(path_view(reg[k].path@).len() == 0);
    reveal_strlit("bool");
    reveal_strlit("char");
    reveal_strlit("str");
    reveal_strlit("u8");
    reveal_strlit("u16");
    reveal_strlit("u32");
    reveal_strlit("i8");
    reveal_strlit("i16");
    reveal_strlit("i32");
    reveal_strlit("u64");
    reveal_strlit("u128");
    reveal_strlit("u256");
    reveal_strlit("i64");
    reveal_strlit("i128");
    reveal_strlit("i256");
}

/// A type met again while it is being resolved resolves to `Any`: the
/// recursion stops there.
pub proof fn lemma_revisit_is_any(reg: Seq<TypeEntry>, id: u32, vis: Set<int>)
    requires
        vis.contains(index_of(reg, id)),
    ensures
        resolve_in(reg, id, vis) == Ts::Any,
{
}

/// The entry that defines `id` is a struct with a path that names no
/// well-known type, and a single named field of type `field_ty`.
pub open spec fn defines_named_link(reg: Seq<TypeEntry>, id: u32, field_ty: u32) -> bool {
    let k = index_of(reg, id);
    &&& 0 <= k < reg.len()
    &&& well_known(path_view(reg[k].path@)) == WellKnown::ByShape
    &&& reg[k].path@.len() > 0
    &&& reg[k].def is Composite
    &&& reg[k].def->Composite_0@.len() == 1
    &&& reg[k].def->Composite_0@[0].name is Some
    &&& reg[k].def->Composite_0@[0].ty == field_ty
}

/// Two structs that refer to each other: resolving the first terminates, and
/// the place where the first would recur holds `Any`.
pub proof fn lemma_two_cycle(reg: Seq<TypeEntry>, a: u32, b: u32)
    requires
        a != b,
        defines_named_link(reg, a, b),
        defines_named_link(reg, b, a),
    ensures
        ({
            let ka = index_of(reg, a);
            let kb = index_of(reg, b);
            let fa = reg[ka].def->Composite_0@[0].name->Some_0@;
            let fb = reg[kb].def->Composite_0@[0].name->Some_0@;
            resolved(reg, a) == Ts::Interface {
                name: path_view(reg[ka].path@).last(),
                fields: seq![(fa, Ts::Interface { name: path_view(reg[kb].path@).last(), fields: seq![(fb, Ts::Any)] })],
            }
        }),
{
    let ka = index_of(reg, a);
    let kb = index_of(reg, b);
    lemma_find_before_range(reg, a, reg.len() as int);
    lemma_find_before_range(reg, b, reg.len() as int);
    assert(ka != kb);
    let n = reg.len() as int;
    let v0 = Set::<int>::empty();
    lemma_int_range(0, n);
    assert(visit_ok(v0, n));
    lemma_visit_grows(v0, n, ka);
    let v1 = v0.insert(ka);
    lemma_visit_grows(v1, n, kb);
    let v2 = v1.insert(kb);
    lemma_revisit_is_any(reg, a, v2);
    let fsb = reg[kb].def->Composite_0@;
    assert(all_named(fsb));
    assert(!all_unnamed(fsb));
    let inner_b = resolve_entry(reg, reg[kb], v2);
    assert(inner_b->Interface_fields =~= seq![(fsb[0].name->Some_0@, Ts::Any)]);
    let fsa = reg[ka].def->Composite_0@;
    assert(all_named(fsa));
    assert(!all_unnamed(fsa));
    assert(resolve_in(reg, b, v1) == inner_b);
    let outer = resolve_entry(reg, reg[ka], v1);
    assert(outer->Interface_fields =~= seq![(fsa[0].name->Some_0@, inner_b)]);
}

/// The entry that defines `id` has the single-segment path `seg` and the given
/// type parameters.
pub open spec fn defines_generic(reg: Seq<TypeEntry>, id: u32, seg: Seq<char>, params: Seq<Option<u32>>) -> bool {
    let k = index_of(reg, id);
    0 <= k < reg.len() && path_view(reg[k].path@) == seq![seg] && reg[k].params@ == params
}

/// `Option<T>` with its parameter resolves to `Optional` of `T`'s resolution;
/// without parameters, to the alternation of `Any` and `null`.
pub proof fn lemma_option(reg: Seq<TypeEntry>, id: u32, t: u32, name: Seq<char>)
    requires
        defines_primitive(reg, t, name),
        small_primitive(name),
        index_of(reg, t) != index_of(reg, id),
    ensures
        defines_generic(reg, id, "Option"@, seq![Some(t)]) ==> (resolved(reg, id) == Ts::Optional(
            Box::new(primitive_of(name)),
        )),
        defines_generic(reg, id, "Option"@, Seq::empty()) ==> (resolved(reg, id) == Ts::Or(
            seq![Ts::Any, Ts::Prim("null"@)],
        )),
{
    let k = index_of(reg, id);
    let n = reg.len() as int;
    lemma_int_range(0, n);
    lemma_find_before_range(reg, id, n);
    lemma_find_before_range(reg, t, n);
    if defines_generic(reg, id, "Option"@, seq![Some(t)]) || defines_generic(reg, id, "Option"@, Seq::empty()) {
        let v0 = Set::<int>::empty();
        assert(visit_ok(v0, n));
        lemma_visit_grows(v0, n, k);
        let v1 = v0.insert(k);
        let e = reg[k];
        assert(join_path(seq!["Option"@]) == "Option"@);
        assert(well_known(path_view(e.path@)) == WellKnown::Opt);
        assert(resolved(reg, id) == resolve_entry(reg, e, v1));
        if defines_generic(reg, id, "Option"@, seq![Some(t)]) {
            lemma_primitive_resolution(reg, t, name, v1);
            assert(resolve_param(reg, e, 0, v1) == primitive_of(name));
        }
    }
}

/// `Result<T, E>` resolves to a union named `Result` with exactly the variants
/// `Ok` (holding `value`) and `Err` (holding `error`), in that order.
pub proof fn lemma_result(reg: Seq<TypeEntry>, id: u32, t: u32, e: u32, tn: Seq<char>, en: Seq<char>)
    requires
        defines_generic(reg, id, "Result"@, seq![Some(t), Some(e)]),
        defines_primitive(reg, t, tn),
        small_primitive(tn),
        defines_primitive(reg, e, en),
        small_primitive(en),
        index_of(reg, t) != index_of(reg, id),
        index_of(reg, e) != index_of(reg, id),
    ensures
        (resolved(reg, id) == Ts::Union {
            name: "Result"@,
            variants: seq![
                ("Ok"@, seq![(Some("value"@), primitive_of(tn))]),
                ("Err"@, seq![(Some("error"@), primitive_of(en))]),
            ],
        }),
{
    let k = index_of(reg, id);
    let n = reg.len() as int;
    lemma_int_range(0, n);
    lemma_find_before_range(reg, id, n);
    let v0 = Set::<int>::empty();
    assert(visit_ok(v0, n));
    lemma_visit_grows(v0, n, k);
    let v1 = v0.insert(k);
    let ent = reg[k];
    reveal_strlit("Result");
    reveal_strlit("Option");
    assert("Result"@[0] != "Option"@[0]);
    assert(join_path(seq!["Result"@]) == "Result"@);
    assert(well_known(path_view(ent.path@)) == WellKnown::Res);
    assert(resolved(reg, id) == resolve_entry(reg, ent, v1));
    lemma_primitive_resolution(reg, t, tn, v1);
    lemma_primitive_resolution(reg, e, en, v1);
    assert(resolve_param(reg, ent, 0, v1) == primitive_of(tn));
    assert(resolve_param(reg, ent, 1, v1) == primitive_of(en));
}

/// A struct of one unnamed field, without a path, resolves to the same type
/// as its field (here a primitive), not to a one-element tuple.
pub proof fn lemma_newtype(reg: Seq<TypeEntry>, id: u32, inner: u32, name: Seq<char>)
    requires
        ({
            let k = index_of(reg, id);
            &&& 0 <= k < reg.len()
            &&& reg[k].path@.len() == 0
            &&& reg[k].def is Composite
            &&& reg[k].def->Composite_0@.len() == 1
            &&& reg[k].def->Composite_0@[0].name is None
            &&& reg[k].def->Composite_0@[0].ty == inner
        }),
        defines_primitive(reg, inner, name),
        index_of(reg, inner) != index_of(reg, id),
    ensures
        resolved(reg, id) == resolved(reg, inner),
        resolved(reg, id) == primitive_of(name),
{
    let k = index_of(reg, id);
    let ki = index_of(reg, inner);
    let n = reg.len() as int;
    lemma_int_range(0, n);
    lemma_find_before_range(reg, id, n);
    let v0 = Set::<int>::empty();
    assert(visit_ok(v0, n));
    lemma_visit_grows(v0, n, k);
    let v1 = v0.insert(k);
    let e = reg[k];
    assert(path_view(e.path@).len() == 0);
    assert(all_unnamed(e.def->Composite_0@));
    assert(resolved(reg, id) == resolve_entry(reg, e, v1));
    lemma_primitive_resolution(reg, inner, name, v1);
    lemma_primitive_resolution(reg, inner, name, v0);
}

/// A struct of one unnamed field whose path names no well-known type resolves
/// to its field's type (resolved with the struct in progress), not to a
/// one-element tuple.
pub proof fn lemma_newtype_collapse(reg: Seq<TypeEntry>, id: u32)
    requires
        ({
            let k = index_of(reg, id);
            &&& 0 <= k < reg.len()
            &&& well_known(path_view(reg[k].path@)) == WellKnown::ByShape
            &&& reg[k].def is Composite
            &&& reg[k].def->Composite_0@.len() == 1
            &&& reg[k].def->Composite_0@[0].name is None
        }),
    ensures
        ({
            let k = index_of(reg, id);
            resolved(reg, id) == resolve_in(reg, reg[k].def->Composite_0@[0].ty, Set::<int>::empty().insert(k))
        }),
{
    let k = index_of(reg, id);
    let n = reg.len() as int;
    lemma_int_range(0, n);
    let v0 = Set::<int>::empty();
    assert(visit_ok(v0, n));
    lemma_visit_grows(v0, n, k);
    assert(all_unnamed(reg[k].def->Composite_0@));
}

} // verus!
