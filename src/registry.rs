//! The type registry of a contract's metadata: a flat table from type ids to
//! type definitions.
use vstd::prelude::*;
use crate::json::{field, jarr, jfield, jstr, ju32, ju64, opt_deref, JsonValue};
use crate::metadata::MetadataError;

verus! {

/// The shape of one type of the registry.
pub enum TypeDefinition {
    /// A primitive, by its name in the metadata (`bool`, `u32`, `str`, ...).
    Primitive(String),
    /// A struct; tuple-like when no field has a name.
    Composite(Vec<Field>),
    /// An enum, with its variants in declared order.
    Variant(Vec<VariantDef>),
    /// A variable-length list of the element type.
    Sequence(u32),
    /// A fixed-length list: element type and length.
    Array(u32, u64),
    /// A tuple of the listed types.
    Tuple(Vec<u32>),
    /// A compact-encoded integer of the inner type.
    Compact(u32),
    /// An opaque bit vector.
    BitSequence,
    /// A definition of none of the known shapes.
    Unknown,
}

/// A field of a composite or of an enum variant.
pub struct Field {
    pub name: Option<String>,
    pub ty: u32,
}

/// A variant of an enum type.
pub struct VariantDef {
    pub name: String,
    pub fields: Vec<Field>,
}

/// One entry of the registry.
pub struct TypeEntry {
    pub id: u32,
    /// The namespace path (`["ink_primitives", "types", "AccountId"]`).
    pub path: Vec<String>,
    /// The referenced type of each generic parameter, where it has one.
    pub params: Vec<Option<u32>>,
    pub def: TypeDefinition,
}

/// The table of all types of one metadata document.
pub struct TypeRegistry {
    pub entries: Vec<TypeEntry>,
}

/// Index of the last entry before `n` with the given id, or -1.
pub open spec fn find_before(entries: Seq<TypeEntry>, id: u32, n: int) -> int
    decreases n,
{
    if n <= 0 {
        -1
    } else if entries[n - 1].id == id {
        n - 1
    } else {
        find_before(entries, id, n - 1)
    }
}

/// The index of the entry that defines `id` (the last one with that id), or -1.
pub open spec fn index_of(entries: Seq<TypeEntry>, id: u32) -> int {
    find_before(entries, id, entries.len() as int)
}

pub proof fn lemma_find_before_range(entries: Seq<TypeEntry>, id: u32, n: int)
    requires
        0 <= n <= entries.len(),
    ensures
        -1 <= find_before(entries, id, n) < n,
        find_before(entries, id, n) >= 0 ==> entries[find_before(entries, id, n)].id == id,
        find_before(entries, id, n) < 0 ==> forall|i: int| 0 <= i < n ==> entries[i].id != id,
    decreases n,
{
    if n > 0 {
        lemma_find_before_range(entries, id, n - 1);
    }
}

impl TypeRegistry {
    /// The index of the entry that defines `id`.
    pub fn position(&self, id: u32) -> (r: Option<usize>)
        ensures
            match r {
                Some(k) => k as int == index_of(self.entries@, id) && k < self.entries.len(),
                None => index_of(self.entries@, id) < 0,
            },
    {
        let mut n: usize = self.entries.len();
        while n > 0
            invariant
                n <= self.entries.len(),
                index_of(self.entries@, id) == find_before(self.entries@, id, n as int),
            decreases n,
        {
            if self.entries[n - 1].id == id {
                return Some(n - 1);
            }
            n -= 1;
        }
        None
    }

    /// The definition of `id`, if the registry has one.
    pub fn lookup(&self, id: u32) -> (r: Option<&TypeEntry>)
        ensures
            r.is_some() == (index_of(self.entries@, id) >= 0),
            r.is_some() ==> *r.unwrap() == self.entries@[index_of(self.entries@, id)],
            r.is_some() ==> r.unwrap().id == id,
    {
        proof {
            lemma_find_before_range(self.entries@, id, self.entries.len() as int);
        }
        match self.position(id) {
            Some(k) => Some(&self.entries[k]),
            None => None,
        }
    }
}

/// A field entry of the metadata is well-formed: it names its type.
pub open spec fn field_ok(f: JsonValue) -> bool {
    ju32(jfield(Some(f), "type"@)) is Some
}

/// `out` is the field that entry `f` describes.
pub open spec fn field_from(f: JsonValue, out: Field) -> bool {
    out.ty == ju32(jfield(Some(f), "type"@))->Some_0 && out.name == jstr(jfield(Some(f), "name"@))
}

pub open spec fn fields_ok(a: Seq<JsonValue>) -> bool {
    forall|i: int| 0 <= i < a.len() ==> field_ok(#[trigger] a[i])
}

pub open spec fn fields_from(a: Seq<JsonValue>, out: Seq<Field>) -> bool {
    out.len() == a.len() && forall|i: int| 0 <= i < a.len() ==> field_from(#[trigger] a[i], out[i])
}

/// The field entries of a variant: none where it lists none.
pub open spec fn variant_field_items(v: JsonValue) -> Seq<JsonValue> {
    match jarr(jfield(Some(v), "fields"@)) {
        Some(a) => a,
        None => Seq::empty(),
    }
}

pub open spec fn variant_ok(v: JsonValue) -> bool {
    jstr(jfield(Some(v), "name"@)) is Some && fields_ok(variant_field_items(v))
}

pub open spec fn variant_from(v: JsonValue, out: VariantDef) -> bool {
    out.name == jstr(jfield(Some(v), "name"@))->Some_0 && fields_from(variant_field_items(v), out.fields@)
}

/// The entries under a definition's key for a shape.
pub open spec fn shape(d: Option<JsonValue>, key: Seq<char>) -> Option<JsonValue> {
    jfield(d, key)
}

/// A definition is well-formed for the first shape key it has.
pub open spec fn def_ok(d: Option<JsonValue>) -> bool {
    if jstr(shape(d, "primitive"@)) is Some {
        true
    } else if shape(d, "composite"@) is Some {
        match jarr(jfield(shape(d, "composite"@), "fields"@)) {
            Some(a) => fields_ok(a),
            None => false,
        }
    } else if shape(d, "variant"@) is Some {
        match jarr(jfield(shape(d, "variant"@), "variants"@)) {
            Some(a) => forall|i: int| 0 <= i < a.len() ==> variant_ok(#[trigger] a[i]),
            None => false,
        }
    } else if shape(d, "sequence"@) is Some {
        ju32(jfield(shape(d, "sequence"@), "type"@)) is Some
    } else if shape(d, "array"@) is Some {
        ju32(jfield(shape(d, "array"@), "type"@)) is Some
    } else if shape(d, "tuple"@) is Some {
        match jarr(shape(d, "tuple"@)) {
            Some(a) => forall|i: int| 0 <= i < a.len() ==> (#[trigger] ju32(Some(a[i]))) is Some,
            None => false,
        }
    } else if shape(d, "compact"@) is Some {
        ju32(jfield(shape(d, "compact"@), "type"@)) is Some
    } else {
        true
    }
}

/// `out` is the definition that `d` describes: `Unknown` where `d` is not
/// well-formed, so that the type resolves to `Any`.
pub open spec fn def_from(d: Option<JsonValue>, out: TypeDefinition) -> bool {
    if def_ok(d) {
        shape_from(d, out)
    } else {
        out == TypeDefinition::Unknown
    }
}

/// `out` is the definition that the well-formed `d` describes.
pub open spec fn shape_from(d: Option<JsonValue>, out: TypeDefinition) -> bool {
    if jstr(shape(d, "primitive"@)) is Some {
        out == TypeDefinition::Primitive(jstr(shape(d, "primitive"@))->Some_0)
    } else if shape(d, "composite"@) is Some {
        out is Composite && fields_from(jarr(jfield(shape(d, "composite"@), "fields"@))->Some_0, out->Composite_0@)
    } else if shape(d, "variant"@) is Some {
        let a = jarr(jfield(shape(d, "variant"@), "variants"@))->Some_0;
        out is Variant && out->Variant_0@.len() == a.len() && forall|i: int|
            0 <= i < a.len() ==> variant_from(#[trigger] a[i], out->Variant_0@[i])
    } else if shape(d, "sequence"@) is Some {
        out == TypeDefinition::Sequence(ju32(jfield(shape(d, "sequence"@), "type"@))->Some_0)
    } else if shape(d, "array"@) is Some {
        out == TypeDefinition::Array(
            ju32(jfield(shape(d, "array"@), "type"@))->Some_0,
            match ju64(jfield(shape(d, "array"@), "len"@)) {
                Some(n) => n,
                None => 0,
            },
        )
    } else if shape(d, "tuple"@) is Some {
        let a = jarr(shape(d, "tuple"@))->Some_0;
        out is Tuple && out->Tuple_0@.len() == a.len() && forall|i: int|
            0 <= i < a.len() ==> out->Tuple_0@[i] == (#[trigger] ju32(Some(a[i])))->Some_0
    } else if shape(d, "compact"@) is Some {
        out == TypeDefinition::Compact(ju32(jfield(shape(d, "compact"@), "type"@))->Some_0)
    } else if shape(d, "bitSequence"@) is Some {
        out == TypeDefinition::BitSequence
    } else {
        out == TypeDefinition::Unknown
    }
}

/// The strings among the first `n` items, in order.
pub open spec fn string_items(a: Seq<JsonValue>, n: int) -> Seq<String>
    decreases n,
{
    if n <= 0 {
        Seq::empty()
    } else {
        let prev = string_items(a, n - 1);
        match a[n - 1] {
            JsonValue::Str(s) => prev.push(s),
            _ => prev,
        }
    }
}

/// The namespace path of a type entry: the strings of its `path` array.
pub open spec fn path_of(t: Option<JsonValue>) -> Seq<String> {
    match jarr(jfield(t, "path"@)) {
        Some(a) => string_items(a, a.len() as int),
        None => Seq::empty(),
    }
}

/// The type parameters of a type entry.
pub open spec fn params_of(t: Option<JsonValue>) -> Seq<Option<u32>> {
    match jarr(jfield(t, "params"@)) {
        Some(a) => a.map_values(|p: JsonValue| ju32(jfield(Some(p), "type"@))),
        None => Seq::empty(),
    }
}

/// A registry entry is usable: it has an id that fits a type id.
pub open spec fn entry_ok(j: JsonValue) -> bool {
    ju32(jfield(Some(j), "id"@)) is Some
}

/// `e` is the entry that the usable `j` describes.
pub open spec fn entry_from(j: JsonValue, e: TypeEntry) -> bool {
    let t = jfield(Some(j), "type"@);
    &&& e.id == ju32(jfield(Some(j), "id"@))->Some_0
    &&& e.path@ == path_of(t)
    &&& e.params@ == params_of(t)
    &&& def_from(jfield(t, "def"@), e.def)
}

/// A field entry.
fn parse_field(f: &JsonValue) -> (r: Result<Field, MetadataError>)
    ensures
        r is Ok <==> field_ok(*f),
        r matches Err(e) ==> e == MetadataError::MalformedMetadata,
        r matches Ok(out) ==> field_from(*f, out),
{
    let ty = match f.get("type") {
        Some(t) => match t.as_u32() {
            Some(t) => t,
            None => {
                return Err(MetadataError::MalformedMetadata);
            },
        },
        None => {
            return Err(MetadataError::MalformedMetadata);
        },
    };
    let name = match f.get("name") {
        Some(n) => match n.as_str() {
            Some(s) => Some(s.clone()),
            None => None,
        },
        None => None,
    };
    Ok(Field { name, ty })
}

/// A list of field entries.
fn parse_fields(a: &Vec<JsonValue>) -> (r: Result<Vec<Field>, MetadataError>)
    ensures
        r is Ok <==> fields_ok(a@),
        r matches Err(e) ==> e == MetadataError::MalformedMetadata,
        r matches Ok(out) ==> fields_from(a@, out@),
{
    let mut out: Vec<Field> = Vec::new();
    let mut i: usize = 0;
    while i < a.len()
        invariant
            i <= a.len(),
            out@.len() == i,
            forall|j: int| 0 <= j < i ==> field_ok(#[trigger] a@[j]),
            forall|j: int| 0 <= j < i ==> field_from(#[trigger] a@[j], out@[j]),
        decreases a.len() - i,
    {
        match parse_field(&a[i]) {
            Ok(f) => {
                out.push(f);
                i += 1;
            },
            Err(e) => {
                return Err(e);
            },
        }
    }
    Ok(out)
}

/// A variant entry.
fn parse_variant(v: &JsonValue) -> (r: Result<VariantDef, MetadataError>)
    ensures
        r is Ok <==> variant_ok(*v),
        r matches Err(e) ==> e == MetadataError::MalformedMetadata,
        r matches Ok(out) ==> variant_from(*v, out),
{
    let name = match v.get("name") {
        Some(n) => match n.as_str() {
            Some(s) => s.clone(),
            None => {
                return Err(MetadataError::MalformedMetadata);
            },
        },
        None => {
            return Err(MetadataError::MalformedMetadata);
        },
    };
    let fields = match v.get("fields") {
        Some(fv) => match fv.as_array() {
            Some(a) => parse_fields(a)?,
            None => Vec::new(),
        },
        None => Vec::new(),
    };
    Ok(VariantDef { name, fields })
}

/// The id that the `type` member of an optional object holds.
fn type_member(v: Option<&JsonValue>) -> (r: Option<u32>)
    ensures
        r == ju32(jfield(opt_deref(v), "type"@)),
{
    match field(v, "type") {
        Some(t) => t.as_u32(),
        None => None,
    }
}

/// A list of variant entries.
fn parse_variants(a: &Vec<JsonValue>) -> (r: Result<Vec<VariantDef>, MetadataError>)
    ensures
        r is Ok <==> forall|i: int| 0 <= i < a@.len() ==> variant_ok(#[trigger] a@[i]),
        r matches Err(e) ==> e == MetadataError::MalformedMetadata,
        r matches Ok(out) ==> out@.len() == a@.len() && forall|i: int|
            0 <= i < a@.len() ==> variant_from(#[trigger] a@[i], out@[i]),
{
    let mut out: Vec<VariantDef> = Vec::new();
    let mut i: usize = 0;
    while i < a.len()
        invariant
            i <= a.len(),
            out@.len() == i,
            forall|j: int| 0 <= j < i ==> variant_ok(#[trigger] a@[j]),
            forall|j: int| 0 <= j < i ==> variant_from(#[trigger] a@[j], out@[j]),
        decreases a.len() - i,
    {
        let v = parse_variant(&a[i])?;
        out.push(v);
        i += 1;
    }
    Ok(out)
}

/// A list of type ids.
fn parse_ids(a: &Vec<JsonValue>) -> (r: Result<Vec<u32>, MetadataError>)
    ensures
        r is Ok <==> forall|i: int| 0 <= i < a@.len() ==> (#[trigger] ju32(Some(a@[i]))) is Some,
        r matches Err(e) ==> e == MetadataError::MalformedMetadata,
        r matches Ok(out) ==> out@.len() == a@.len() && forall|i: int|
            0 <= i < a@.len() ==> out@[i] == (#[trigger] ju32(Some(a@[i])))->Some_0,
{
    let mut out: Vec<u32> = Vec::new();
    let mut i: usize = 0;
    while i < a.len()
        invariant
            i <= a.len(),
            out@.len() == i,
            forall|j: int| 0 <= j < i ==> (#[trigger] ju32(Some(a@[j]))) is Some,
            forall|j: int| 0 <= j < i ==> out@[j] == (#[trigger] ju32(Some(a@[j])))->Some_0,
        decreases a.len() - i,
    {
        match a[i].as_u32() {
            Some(t) => {
                out.push(t);
                i += 1;
            },
            None => {
                return Err(MetadataError::MalformedMetadata);
            },
        }
    }
    Ok(out)
}

/// A type definition; one of no known shape, or malformed, is `Unknown`.
fn parse_def(d: Option<&JsonValue>) -> (r: TypeDefinition)
    ensures
        def_from(opt_deref(d), r),
{
    match parse_shape(d) {
        Ok(def) => def,
        Err(_) => TypeDefinition::Unknown,
    }
}

/// A well-formed type definition.
fn parse_shape(d: Option<&JsonValue>) -> (r: Result<TypeDefinition, MetadataError>)
    ensures
        r is Ok <==> def_ok(opt_deref(d)),
        r matches Err(e) ==> e == MetadataError::MalformedMetadata,
        r matches Ok(out) ==> shape_from(opt_deref(d), out),
{
    match field(d, "primitive") {
        Some(p) => match p.as_str() {
            Some(s) => {
                return Ok(TypeDefinition::Primitive(s.clone()));
            },
            None => {},
        },
        None => {},
    }
    if let Some(c) = field(d, "composite") {
        return match field(Some(c), "fields") {
            Some(fv) => match fv.as_array() {
                Some(a) => Ok(TypeDefinition::Composite(parse_fields(a)?)),
                None => Err(MetadataError::MalformedMetadata),
            },
            None => Err(MetadataError::MalformedMetadata),
        };
    }
    if let Some(vv) = field(d, "variant") {
        return match field(Some(vv), "variants") {
            Some(x) => match x.as_array() {
                Some(a) => Ok(TypeDefinition::Variant(parse_variants(a)?)),
                None => Err(MetadataError::MalformedMetadata),
            },
            None => Err(MetadataError::MalformedMetadata),
        };
    }
    if let Some(sq) = field(d, "sequence") {
        return match type_member(Some(sq)) {
            Some(t) => Ok(TypeDefinition::Sequence(t)),
            None => Err(MetadataError::MalformedMetadata),
        };
    }
    if let Some(ar) = field(d, "array") {
        let len = match field(Some(ar), "len") {
            Some(l) => match l.as_u64() {
                Some(n) => n,
                None => 0,
            },
            None => 0,
        };
        return match type_member(Some(ar)) {
            Some(t) => Ok(TypeDefinition::Array(t, len)),
            None => Err(MetadataError::MalformedMetadata),
        };
    }
    if let Some(tu) = field(d, "tuple") {
        return match tu.as_array() {
            Some(a) => Ok(TypeDefinition::Tuple(parse_ids(a)?)),
            None => Err(MetadataError::MalformedMetadata),
        };
    }
    if let Some(c) = field(d, "compact") {
        return match type_member(Some(c)) {
            Some(t) => Ok(TypeDefinition::Compact(t)),
            None => Err(MetadataError::MalformedMetadata),
        };
    }
    if field(d, "bitSequence").is_some() {
        return Ok(TypeDefinition::BitSequence);
    }
    Ok(TypeDefinition::Unknown)
}

/// The strings of an array, in order.
fn parse_path(t: Option<&JsonValue>) -> (r: Vec<String>)
    ensures
        r@ == path_of(opt_deref(t)),
{
    let a = match field(t, "path") {
        Some(p) => match p.as_array() {
            Some(a) => a,
            None => {
                return Vec::new();
            },
        },
        None => {
            return Vec::new();
        },
    };
    let mut out: Vec<String> = Vec::new();
    let mut i: usize = 0;
    while i < a.len()
        invariant
            i <= a.len(),
            out@ == string_items(a@, i as int),
        decreases a.len() - i,
    {
        match a[i].as_str() {
            Some(s) => out.push(s.clone()),
            None => {},
        }
        i += 1;
    }
    out
}

/// The type parameters of a type entry.
fn parse_params(t: Option<&JsonValue>) -> (r: Vec<Option<u32>>)
    ensures
        r@ == params_of(opt_deref(t)),
{
    let a = match field(t, "params") {
        Some(p) => match p.as_array() {
            Some(a) => a,
            None => {
                return Vec::new();
            },
        },
        None => {
            return Vec::new();
        },
    };
    let mut out: Vec<Option<u32>> = Vec::new();
    let mut i: usize = 0;
    while i < a.len()
        invariant
            i <= a.len(),
            out@ == a@.subrange(0, i as int).map_values(|p: JsonValue| ju32(jfield(Some(p), "type"@))),
        decreases a.len() - i,
    {
        out.push(type_member(Some(&a[i])));
        i += 1;
        assert(out@ =~= a@.subrange(0, i as int).map_values(|p: JsonValue| ju32(jfield(Some(p), "type"@))));
    }
    assert(a@.subrange(0, a.len() as int) =~= a@);
    out
}

/// One registry entry.
fn parse_entry(j: &JsonValue) -> (r: Result<TypeEntry, MetadataError>)
    ensures
        r is Ok <==> entry_ok(*j),
        r matches Err(e) ==> e == MetadataError::MalformedMetadata,
        r matches Ok(e) ==> entry_from(*j, e),
{
    let id = match j.get("id") {
        Some(v) => match v.as_u32() {
            Some(id) => id,
            None => {
                return Err(MetadataError::MalformedMetadata);
            },
        },
        None => {
            return Err(MetadataError::MalformedMetadata);
        },
    };
    let t = j.get("type");
    let def = parse_def(field(t, "def"));
    Ok(TypeEntry { id, path: parse_path(t), params: parse_params(t), def })
}

/// The `types` section is an array of well-formed entries.
pub open spec fn types_ok(types: JsonValue) -> bool {
    match jarr(Some(types)) {
        Some(a) => forall|i: int| 0 <= i < a.len() ==> entry_ok(#[trigger] a[i]),
        None => false,
    }
}

impl TypeRegistry {
    /// Parse the `types` section of a metadata document: an array of entries,
    /// each with an `id` that fits a type id and a `type` holding `path`,
    /// `params` and `def`. A definition that is malformed becomes `Unknown`.
    pub fn from_json(types: &JsonValue) -> (r: Result<TypeRegistry, MetadataError>)
        ensures
            r is Ok <==> types_ok(*types),
            r is Err ==> r == Err::<TypeRegistry, MetadataError>(MetadataError::MalformedMetadata),
            r matches Ok(reg) ==> {
                let a = jarr(Some(*types))->Some_0;
                &&& reg.entries@.len() == a.len()
                &&& forall|i: int| 0 <= i < a.len() ==> entry_from(#[trigger] a[i], reg.entries@[i])
            },
    {
        let a = match types.as_array() {
            Some(a) => a,
            None => {
                return Err(MetadataError::MalformedMetadata);
            },
        };
        let mut out: Vec<TypeEntry> = Vec::new();
        let mut i: usize = 0;
        while i < a.len()
            invariant
                jarr(Some(*types)) == Some(a@),
                i <= a.len(),
                out@.len() == i,
                forall|j: int| 0 <= j < i ==> entry_ok(#[trigger] a@[j]),
                forall|j: int| 0 <= j < i ==> entry_from(#[trigger] a@[j], out@[j]),
            decreases a.len() - i,
        {
            match parse_entry(&a[i]) {
                Ok(e) => {
                    out.push(e);
                    i += 1;
                },
                Err(e) => {
                    assert(!entry_ok(a@[i as int]));
                    assert(!(forall|k: int| 0 <= k < a@.len() ==> entry_ok(#[trigger] a@[k])));
                    assert(jarr(Some(*types)) == Some(a@));
                    let ghost aa = jarr(Some(*types))->Some_0;
                    assert(aa == a@);
                    assert(aa[i as int] == a@[i as int]);
                    assert(!entry_ok(aa[i as int]));
                    return Err(e);
                },
            }
        }
        Ok(TypeRegistry { entries: out })
    }
}

} // verus!
