//! Decoding of returned bytes into structured values, by the shape of the
//! declared return type.
use vstd::prelude::*;
use crate::registry::{index_of, lemma_find_before_range, TypeDefinition, TypeEntry, TypeRegistry};
use crate::text::str_eq;
use crate::codec::{arg_kind, decimal_integer, encode_arg_spec, encode_args_spec, encode_prefix, param_kind, spells, ArgFault, ArgKind};
use crate::metadata::ArgumentInfo;
use crate::resolver::path_view;
use crate::wire::{le_bytes, lemma_le_bytes_len, lemma_le_round_trip, byte_pow, le_value, lemma_byte_pow_values, lemma_le_value_bound, read_compact, read_compact_spec, read_le, slice_at, WireError};

verus! {

/// A decoded value.
pub enum Value {
    Bool(bool),
    Unsigned(u128),
    Signed(i128),
    /// Raw bytes: strings, and integers wider than 128 bits.
    Bytes(Vec<u8>),
    /// The members of a struct, tuple, array or sequence, in order.
    Sequence(Vec<Value>),
    /// An enum value: the discriminant, the variant's name and its fields.
    Variant { index: u8, name: String, fields: Vec<Value> },
    /// The empty tuple.
    Unit,
}

/// The mathematical value of a decoded `Value`.
pub enum Dv {
    Bool(bool),
    Unsigned(u128),
    Signed(i128),
    Bytes(Seq<u8>),
    Sequence(Seq<Dv>),
    Variant { index: u8, name: Seq<char>, fields: Seq<Dv> },
    Unit,
}

/// `v` has the value `m`.
pub open spec fn value_models(v: Value, m: Dv) -> bool
    decreases m,
{
    match m {
        Dv::Bool(b) => v == Value::Bool(b),
        Dv::Unsigned(n) => v == Value::Unsigned(n),
        Dv::Signed(n) => v == Value::Signed(n),
        Dv::Bytes(b) => v is Bytes && v->Bytes_0@ == b,
        Dv::Sequence(ms) => v is Sequence && v->Sequence_0@.len() == ms.len() && forall|i: int|
            0 <= i < ms.len() ==> value_models(#[trigger] v->Sequence_0@[i], ms[i]),
        Dv::Variant { index, name, fields } => v is Variant && v->Variant_index == index
            && v->Variant_name@ == name && v->Variant_fields@.len() == fields.len() && forall|i: int|
            0 <= i < fields.len() ==> value_models(#[trigger] v->Variant_fields@[i], fields[i]),
        Dv::Unit => v is Unit,
    }
}

/// Why decoding stopped.
pub enum DecodeError {
    /// The bytes end before the value does; the offset where the read began.
    TruncatedInput { offset: usize },
    /// Bytes remain after a complete value, from this offset.
    TrailingBytes { offset: usize },
    /// A compact integer announces more than sixteen bytes, or is not in its
    /// shortest form.
    InvalidCompact { offset: usize },
    /// A byte that no value of the type has (a boolean other than 0 or 1, an
    /// enum discriminant past the last variant).
    InvalidValue { offset: usize },
    /// The registry has no type of this id.
    UnknownType { type_id: u32 },
    /// The type has no wire form that this decoder reads.
    UnsupportedType { type_id: u32 },
    /// The type nests deeper than the decoder follows.
    NestingTooDeep,
}

/// How deep nested types are followed.
pub const MAX_DEPTH: u64 = 64;

/// The error for a failed compact read at `pos`.
pub open spec fn wire_error(e: WireError, pos: int) -> DecodeError {
    match e {
        WireError::Truncated => DecodeError::TruncatedInput { offset: pos as usize },
        WireError::Oversized => DecodeError::InvalidCompact { offset: pos as usize },
        WireError::NonCanonical => DecodeError::InvalidCompact { offset: pos as usize },
    }
}

/// The `w` bytes at `pos` read as a two's complement integer.
pub open spec fn signed_value(b: Seq<u8>, pos: int, w: nat) -> int {
    let u = le_value(slice_at(b, pos, w as int));
    if u >= byte_pow(w) / 2 {
        u - byte_pow(w)
    } else {
        u as int
    }
}

/// The width in bytes of a fixed-width integer primitive, or 0.
pub open spec fn int_width(name: Seq<char>) -> nat {
    if name == "u8"@ || name == "i8"@ {
        1
    } else if name == "u16"@ || name == "i16"@ {
        2
    } else if name == "u32"@ || name == "i32"@ || name == "char"@ {
        4
    } else if name == "u64"@ || name == "i64"@ {
        8
    } else if name == "u128"@ || name == "i128"@ {
        16
    } else {
        0
    }
}

/// Whether the primitive is a signed integer.
pub open spec fn is_signed(name: Seq<char>) -> bool {
    name == "i8"@ || name == "i16"@ || name == "i32"@ || name == "i64"@ || name == "i128"@
}

/// A primitive of type `ty`, named `name`, read at `pos`.
pub open spec fn decode_primitive(name: Seq<char>, ty: u32, b: Seq<u8>, pos: int) -> Result<(Dv, int), DecodeError> {
    if name == "bool"@ {
        if pos + 1 > b.len() {
            Err(DecodeError::TruncatedInput { offset: pos as usize })
        } else if b[pos] == 0 {
            Ok((Dv::Bool(false), pos + 1))
        } else if b[pos] == 1 {
            Ok((Dv::Bool(true), pos + 1))
        } else {
            Err(DecodeError::InvalidValue { offset: pos as usize })
        }
    } else if int_width(name) > 0 {
        let w = int_width(name);
        if pos + w > b.len() {
            Err(DecodeError::TruncatedInput { offset: pos as usize })
        } else if is_signed(name) {
            Ok((Dv::Signed(signed_value(b, pos, w) as i128), pos + w))
        } else {
            Ok((Dv::Unsigned(le_value(slice_at(b, pos, w as int)) as u128), pos + w))
        }
    } else if name == "u256"@ || name == "i256"@ {
        if pos + 32 > b.len() {
            Err(DecodeError::TruncatedInput { offset: pos as usize })
        } else {
            Ok((Dv::Bytes(slice_at(b, pos, 32)), pos + 32))
        }
    } else if name == "str"@ {
        match read_compact_spec(b, pos) {
            Err(e) => Err(wire_error(e, pos)),
            Ok((n, p)) => if p + n > b.len() {
                Err(DecodeError::TruncatedInput { offset: p as usize })
            } else {
                Ok((Dv::Bytes(slice_at(b, p, n as int)), p + n))
            },
        }
    } else {
        Err(DecodeError::UnsupportedType { type_id: ty })
    }
}

/// The value of type `ty` at `pos`, and the position after it; nested types are
/// followed `depth` levels deep.
pub open spec fn decode_at(reg: Seq<TypeEntry>, ty: u32, b: Seq<u8>, pos: int, depth: nat) -> Result<
    (Dv, int),
    DecodeError,
>
    decreases depth, 0int, 0int,
{
    let k = index_of(reg, ty);
    if depth == 0 {
        Err(DecodeError::NestingTooDeep)
    } else if k < 0 || k >= reg.len() {
        Err(DecodeError::UnknownType { type_id: ty })
    } else {
        let d = (depth - 1) as nat;
        match reg[k].def {
            TypeDefinition::Primitive(name) => decode_primitive(name@, ty, b, pos),
            TypeDefinition::Compact(_) => match read_compact_spec(b, pos) {
                Err(e) => Err(wire_error(e, pos)),
                Ok((n, p)) => Ok((Dv::Unsigned(n as u128), p)),
            },
            TypeDefinition::Composite(fields) => match decode_list(
                reg,
                fields@.map_values(|f: crate::registry::Field| f.ty),
                b,
                pos,
                d,
            ) {
                Err(e) => Err(e),
                Ok((vs, p)) => Ok((Dv::Sequence(vs), p)),
            },
            TypeDefinition::Tuple(ids) => if ids@.len() == 0 {
                Ok((Dv::Unit, pos))
            } else {
                match decode_list(reg, ids@, b, pos, d) {
                    Err(e) => Err(e),
                    Ok((vs, p)) => Ok((Dv::Sequence(vs), p)),
                }
            },
            TypeDefinition::Array(t, len) => match decode_repeat(reg, t, len as nat, b, pos, d) {
                Err(e) => Err(e),
                Ok((vs, p)) => Ok((Dv::Sequence(vs), p)),
            },
            TypeDefinition::Sequence(t) => match read_compact_spec(b, pos) {
                Err(e) => Err(wire_error(e, pos)),
                Ok((n, p)) => match decode_repeat(reg, t, n, b, p, d) {
                    Err(e) => Err(e),
                    Ok((vs, q)) => Ok((Dv::Sequence(vs), q)),
                },
            },
            TypeDefinition::Variant(vs) => if pos + 1 > b.len() {
                Err(DecodeError::TruncatedInput { offset: pos as usize })
            } else if b[pos] as int >= vs@.len() {
                Err(DecodeError::InvalidValue { offset: pos as usize })
            } else {
                let v = vs@[b[pos] as int];
                match decode_list(reg, v.fields@.map_values(|f: crate::registry::Field| f.ty), b, pos + 1, d) {
                    Err(e) => Err(e),
                    Ok((fs, p)) => Ok((Dv::Variant { index: b[pos], name: v.name@, fields: fs }, p)),
                }
            },
            _ => Err(DecodeError::UnsupportedType { type_id: ty }),
        }
    }
}

/// Values of the listed types, one after the other from `pos`.
pub open spec fn decode_list(reg: Seq<TypeEntry>, tys: Seq<u32>, b: Seq<u8>, pos: int, depth: nat) -> Result<
    (Seq<Dv>, int),
    DecodeError,
>
    decreases depth, 1int, tys.len(),
{
    if tys.len() == 0 {
        Ok((Seq::empty(), pos))
    } else {
        match decode_at(reg, tys[0], b, pos, depth) {
            Err(e) => Err(e),
            Ok((v, p)) => match decode_list(reg, tys.drop_first(), b, p, depth) {
                Err(e) => Err(e),
                Ok((vs, q)) => Ok((seq![v] + vs, q)),
            },
        }
    }
}

/// `count` values of type `ty`, one after the other from `pos`.
pub open spec fn decode_repeat(reg: Seq<TypeEntry>, ty: u32, count: nat, b: Seq<u8>, pos: int, depth: nat) -> Result<
    (Seq<Dv>, int),
    DecodeError,
>
    decreases depth, 1int, count,
{
    if count == 0 {
        Ok((Seq::empty(), pos))
    } else {
        match decode_at(reg, ty, b, pos, depth) {
            Err(e) => Err(e),
            Ok((v, p)) => match decode_repeat(reg, ty, (count - 1) as nat, b, p, depth) {
                Err(e) => Err(e),
                Ok((vs, q)) => Ok((seq![v] + vs, q)),
            },
        }
    }
}

/// `acc` put before the values of a successful decode.
pub open spec fn prepend(acc: Seq<Dv>, r: Result<(Seq<Dv>, int), DecodeError>) -> Result<(Seq<Dv>, int), DecodeError> {
    match r {
        Ok((vs, q)) => Ok((acc + vs, q)),
        Err(e) => Err(e),
    }
}

/// The error of a failed compact read.
fn wire_error_of(e: WireError, pos: usize) -> (r: DecodeError)
    ensures
        r == wire_error(e, pos as int),
{
    match e {
        WireError::Truncated => DecodeError::TruncatedInput { offset: pos },
        WireError::Oversized => DecodeError::InvalidCompact { offset: pos },
        WireError::NonCanonical => DecodeError::InvalidCompact { offset: pos },
    }
}

pub proof fn lemma_compact_end(b: Seq<u8>, pos: int)
    requires
        0 <= pos,
    ensures
        read_compact_spec(b, pos) matches Ok((n, p)) ==> pos < p <= b.len(),
{
}

/// A primitive named `name`, of type `ty`, read at `pos`.
fn decode_primitive_at(name: &str, ty: u32, b: &[u8], pos: usize) -> (r: Result<(Value, usize), DecodeError>)
    requires
        pos <= b@.len(),
    ensures
        match (r, decode_primitive(name@, ty, b@, pos as int)) {
            (Ok((v, p)), Ok((m, sp))) => value_models(v, m) && p as int == sp && pos <= p <= b@.len(),
            (Err(e), Err(se)) => e == se,
            _ => false,
        },
{
    let n = b.len();
    proof {
        lemma_byte_pow_values();
    }
    if str_eq(name, "bool") {
        if n - pos < 1 {
            return Err(DecodeError::TruncatedInput { offset: pos });
        }
        if b[pos] == 0 {
            return Ok((Value::Bool(false), pos + 1));
        } else if b[pos] == 1 {
            return Ok((Value::Bool(true), pos + 1));
        } else {
            return Err(DecodeError::InvalidValue { offset: pos });
        }
    }
    let w: usize = if str_eq(name, "u8") || str_eq(name, "i8") {
        1
    } else if str_eq(name, "u16") || str_eq(name, "i16") {
        2
    } else if str_eq(name, "u32") || str_eq(name, "i32") || str_eq(name, "char") {
        4
    } else if str_eq(name, "u64") || str_eq(name, "i64") {
        8
    } else if str_eq(name, "u128") || str_eq(name, "i128") {
        16
    } else {
        0
    };
    assert(w as nat == int_width(name@));
    if w > 0 {
        if n - pos < w {
            return Err(DecodeError::TruncatedInput { offset: pos });
        }
        let u = read_le(b, pos, w);
        proof {
            lemma_le_value_bound(slice_at(b@, pos as int, w as int));
        }
        let signed = str_eq(name, "i8") || str_eq(name, "i16") || str_eq(name, "i32") || str_eq(name, "i64")
            || str_eq(name, "i128");
        if signed {
            let half: u128 = if w == 16 {
                0x8000_0000_0000_0000_0000_0000_0000_0000
            } else if w == 8 {
                0x8000_0000_0000_0000
            } else if w == 4 {
                0x8000_0000
            } else if w == 2 {
                0x8000
            } else {
                0x80
            };
            assert(half as nat == byte_pow(w as nat) / 2);
            let x: i128 = if u >= half {
                // u - 2 * half, computed without leaving the range of i128
                let d: u128 = (half - (u - half)) - 1;
                -(d as i128) - 1
            } else {
                u as i128
            };
            return Ok((Value::Signed(x), pos + w));
        } else {
            return Ok((Value::Unsigned(u), pos + w));
        }
    }
    if str_eq(name, "u256") || str_eq(name, "i256") {
        if n - pos < 32 {
            return Err(DecodeError::TruncatedInput { offset: pos });
        }
        let bytes = slice_copy(b, pos, 32);
        return Ok((Value::Bytes(bytes), pos + 32));
    }
    if str_eq(name, "str") {
        proof {
            lemma_compact_end(b@, pos as int);
        }
        match read_compact(b, pos) {
            Err(e) => {
                return Err(wire_error_of(e, pos));
            },
            Ok((len, p)) => {
                if len > (n - p) as u128 {
                    return Err(DecodeError::TruncatedInput { offset: p });
                }
                let bytes = slice_copy(b, p, len as usize);
                return Ok((Value::Bytes(bytes), p + len as usize));
            },
        }
    }
    Err(DecodeError::UnsupportedType { type_id: ty })
}

/// The `k` bytes of `b` at `pos`.
fn slice_copy(b: &[u8], pos: usize, k: usize) -> (r: Vec<u8>)
    requires
        pos + k <= b@.len(),
    ensures
        r@ == slice_at(b@, pos as int, k as int),
{
    let mut r: Vec<u8> = Vec::new();
    let mut i: usize = 0;
    let n = b.len();
    while i < k
        invariant
            n == b@.len(),
            pos + k <= b@.len(),
            i <= k,
            r@ == b@.subrange(pos as int, pos + i),
        decreases k - i,
    {
        r.push(b[pos + i]);
        i += 1;
        assert(r@ =~= b@.subrange(pos as int, pos + i));
    }
    r
}

/// Whether an exec result matches a spec result of one decoded value.
pub open spec fn value_result(
    r: Result<(Value, usize), DecodeError>,
    s: Result<(Dv, int), DecodeError>,
    pos: int,
    len: int,
) -> bool {
    match (r, s) {
        (Ok((v, p)), Ok((m, sp))) => value_models(v, m) && p as int == sp && pos <= p <= len,
        (Err(e), Err(se)) => e == se,
        _ => false,
    }
}

/// Whether an exec result matches a spec result of a list of decoded values.
pub open spec fn list_result(
    r: Result<(Vec<Value>, usize), DecodeError>,
    s: Result<(Seq<Dv>, int), DecodeError>,
    pos: int,
    len: int,
) -> bool {
    match (r, s) {
        (Ok((v, p)), Ok((m, sp))) => v@.len() == m.len() && (forall|i: int|
            0 <= i < m.len() ==> value_models(#[trigger] v@[i], m[i])) && p as int == sp && pos <= p <= len,
        (Err(e), Err(se)) => e == se,
        _ => false,
    }
}

/// The types of a list of fields.
fn field_types(fields: &Vec<crate::registry::Field>) -> (r: Vec<u32>)
    ensures
        r@ == fields@.map_values(|f: crate::registry::Field| f.ty),
{
    let mut r: Vec<u32> = Vec::new();
    let mut i: usize = 0;
    while i < fields.len()
        invariant
            i <= fields.len(),
            r@ == fields@.subrange(0, i as int).map_values(|f: crate::registry::Field| f.ty),
        decreases fields.len() - i,
    {
        r.push(fields[i].ty);
        i += 1;
        assert(r@ =~= fields@.subrange(0, i as int).map_values(|f: crate::registry::Field| f.ty));
    }
    assert(fields@.subrange(0, fields.len() as int) =~= fields@);
    r
}

/// The value of type `ty` at `pos`, and the position after it.
pub fn decode_value(reg: &TypeRegistry, ty: u32, b: &[u8], pos: usize, depth: u64) -> (r: Result<(Value, usize), DecodeError>)
    requires
        pos <= b@.len(),
    ensures
        value_result(r, decode_at(reg.entries@, ty, b@, pos as int, depth as nat), pos as int, b@.len() as int),
    decreases depth, 0int, 0int,
{
    if depth == 0 {
        return Err(DecodeError::NestingTooDeep);
    }
    proof {
        lemma_find_before_range(reg.entries@, ty, reg.entries@.len() as int);
        lemma_compact_end(b@, pos as int);
    }
    let k = match reg.position(ty) {
        Some(k) => k,
        None => {
            return Err(DecodeError::UnknownType { type_id: ty });
        },
    };
    let d = depth - 1;
    let n = b.len();
    match &reg.entries[k].def {
        TypeDefinition::Primitive(name) => decode_primitive_at(name.as_str(), ty, b, pos),
        TypeDefinition::Compact(_) => match read_compact(b, pos) {
            Err(e) => Err(wire_error_of(e, pos)),
            Ok((v, p)) => Ok((Value::Unsigned(v), p)),
        },
        TypeDefinition::Composite(fields) => {
            let tys = field_types(fields);
            match decode_list_at(reg, &tys, b, pos, d) {
                Err(e) => Err(e),
                Ok((vs, p)) => Ok((Value::Sequence(vs), p)),
            }
        },
        TypeDefinition::Tuple(ids) => {
            if ids.len() == 0 {
                return Ok((Value::Unit, pos));
            }
            match decode_list_at(reg, ids, b, pos, d) {
                Err(e) => Err(e),
                Ok((vs, p)) => Ok((Value::Sequence(vs), p)),
            }
        },
        TypeDefinition::Array(t, len) => match decode_repeat_at(reg, *t, *len as u128, b, pos, d) {
            Err(e) => Err(e),
            Ok((vs, p)) => Ok((Value::Sequence(vs), p)),
        },
        TypeDefinition::Sequence(t) => match read_compact(b, pos) {
            Err(e) => Err(wire_error_of(e, pos)),
            Ok((count, p)) => match decode_repeat_at(reg, *t, count, b, p, d) {
                Err(e) => Err(e),
                Ok((vs, q)) => Ok((Value::Sequence(vs), q)),
            },
        },
        TypeDefinition::Variant(vs) => {
            if n - pos < 1 {
                return Err(DecodeError::TruncatedInput { offset: pos });
            }
            let idx = b[pos];
            if idx as usize >= vs.len() {
                return Err(DecodeError::InvalidValue { offset: pos });
            }
            let v = &vs[idx as usize];
            let tys = field_types(&v.fields);
            match decode_list_at(reg, &tys, b, pos + 1, d) {
                Err(e) => Err(e),
                Ok((fs, p)) => {
                    let r = Value::Variant { index: idx, name: v.name.clone(), fields: fs };
                    Ok((r, p))
                },
            }
        },
        _ => Err(DecodeError::UnsupportedType { type_id: ty }),
    }
}

/// Values of the listed types, one after the other from `pos`.
fn decode_list_at(reg: &TypeRegistry, tys: &Vec<u32>, b: &[u8], pos: usize, depth: u64) -> (r: Result<(Vec<Value>, usize), DecodeError>)
    requires
        pos <= b@.len(),
    ensures
        list_result(r, decode_list(reg.entries@, tys@, b@, pos as int, depth as nat), pos as int, b@.len() as int),
    decreases depth, 1int, tys@.len(),
{
    let ghost whole = decode_list(reg.entries@, tys@, b@, pos as int, depth as nat);
    let ghost mut acc: Seq<Dv> = Seq::empty();
    let mut out: Vec<Value> = Vec::new();
    let mut p = pos;
    let mut i: usize = 0;
    assert(tys@.subrange(0, tys@.len() as int) =~= tys@);
    proof {
        match whole {
            Ok((vs, e)) => {
                assert(acc + vs =~= vs);
            },
            Err(_) => {},
        }
    }
    while i < tys.len()
        invariant
            pos <= p <= b@.len(),
            i <= tys.len(),
            whole == decode_list(reg.entries@, tys@, b@, pos as int, depth as nat),
            whole == prepend(acc, decode_list(reg.entries@, tys@.subrange(i as int, tys@.len() as int), b@, p as int, depth as nat)),
            out@.len() == acc.len(),
            forall|j: int| 0 <= j < acc.len() ==> value_models(#[trigger] out@[j], acc[j]),
        decreases tys.len() - i,
    {
        let ghost rest = tys@.subrange(i as int, tys@.len() as int);
        assert(rest.drop_first() =~= tys@.subrange(i + 1, tys@.len() as int));
        assert(rest[0] == tys@[i as int]);
        match decode_value(reg, tys[i], b, p, depth) {
            Err(e) => {
                return Err(e);
            },
            Ok((v, q)) => {
                let ghost m = decode_at(reg.entries@, tys@[i as int], b@, p as int, depth as nat)->Ok_0.0;
                let ghost tail = decode_list(reg.entries@, tys@.subrange(i + 1, tys@.len() as int), b@, q as int, depth as nat);
                proof {
                    match tail {
                        Ok((vs, e)) => {
                            assert(acc + (seq![m] + vs) =~= acc.push(m) + vs);
                        },
                        Err(_) => {},
                    }
                    acc = acc.push(m);
                }
                out.push(v);
                p = q;
                i += 1;
            },
        }
    }
    assert(tys@.subrange(i as int, tys@.len() as int).len() == 0);
    assert(acc + Seq::<Dv>::empty() =~= acc);
    Ok((out, p))
}

/// `count` values of type `ty`, one after the other from `pos`.
fn decode_repeat_at(reg: &TypeRegistry, ty: u32, count: u128, b: &[u8], pos: usize, depth: u64) -> (r: Result<(Vec<Value>, usize), DecodeError>)
    requires
        pos <= b@.len(),
    ensures
        list_result(r, decode_repeat(reg.entries@, ty, count as nat, b@, pos as int, depth as nat), pos as int, b@.len() as int),
    decreases depth, 1int, count,
{
    let ghost whole = decode_repeat(reg.entries@, ty, count as nat, b@, pos as int, depth as nat);
    let ghost mut acc: Seq<Dv> = Seq::empty();
    let mut out: Vec<Value> = Vec::new();
    let mut p = pos;
    let mut i: u128 = 0;
    proof {
        match whole {
            Ok((vs, e)) => {
                assert(acc + vs =~= vs);
            },
            Err(_) => {},
        }
    }
    while i < count
        invariant
            pos <= p <= b@.len(),
            i <= count,
            whole == decode_repeat(reg.entries@, ty, count as nat, b@, pos as int, depth as nat),
            whole == prepend(acc, decode_repeat(reg.entries@, ty, (count - i) as nat, b@, p as int, depth as nat)),
            out@.len() == acc.len(),
            forall|j: int| 0 <= j < acc.len() ==> value_models(#[trigger] out@[j], acc[j]),
        decreases count - i,
    {
        match decode_value(reg, ty, b, p, depth) {
            Err(e) => {
                return Err(e);
            },
            Ok((v, q)) => {
                let ghost m = decode_at(reg.entries@, ty, b@, p as int, depth as nat)->Ok_0.0;
                let ghost tail = decode_repeat(reg.entries@, ty, (count - i - 1) as nat, b@, q as int, depth as nat);
                proof {
                    match tail {
                        Ok((vs, e)) => {
                            assert(acc + (seq![m] + vs) =~= acc.push(m) + vs);
                        },
                        Err(_) => {},
                    }
                    acc = acc.push(m);
                }
                out.push(v);
                p = q;
                i += 1;
            },
        }
    }
    assert(acc + Seq::<Dv>::empty() =~= acc);
    Ok((out, p))
}

/// Decode a returned value of type `return_type` from the start of `bytes`:
/// the value and the number of bytes left after it.
pub fn decode_result(bytes: &Vec<u8>, return_type: u32, reg: &TypeRegistry) -> (r: Result<(Value, usize), DecodeError>)
    ensures
        match (r, decode_at(reg.entries@, return_type, bytes@, 0, MAX_DEPTH as nat)) {
            (Ok((v, rest)), Ok((m, p))) => value_models(v, m) && rest == bytes@.len() - p,
            (Err(e), Err(se)) => e == se,
            _ => false,
        },
{
    match decode_value(reg, return_type, bytes.as_slice(), 0, MAX_DEPTH) {
        Ok((v, p)) => Ok((v, bytes.len() - p)),
        Err(e) => Err(e),
    }
}

/// Decode a returned value that must fill `bytes` exactly.
pub fn decode_result_exact(bytes: &Vec<u8>, return_type: u32, reg: &TypeRegistry) -> (r: Result<Value, DecodeError>)
    ensures
        match (r, decode_at(reg.entries@, return_type, bytes@, 0, MAX_DEPTH as nat)) {
            (Ok(v), Ok((m, p))) => value_models(v, m) && p == bytes@.len(),
            (Err(e), Ok((m, p))) => p < bytes@.len() && e == DecodeError::TrailingBytes { offset: p as usize },
            (Err(e), Err(se)) => e == se,
            _ => false,
        },
{
    match decode_value(reg, return_type, bytes.as_slice(), 0, MAX_DEPTH) {
        Ok((v, p)) => {
            if p < bytes.len() {
                Err(DecodeError::TrailingBytes { offset: p })
            } else {
                Ok(v)
            }
        },
        Err(e) => Err(e),
    }
}

/// The position after `k` bytes at `pos`.
pub open spec fn skip_spec(b: Seq<u8>, pos: int, k: int) -> Result<int, DecodeError> {
    if pos + k > b.len() {
        Err(DecodeError::TruncatedInput { offset: pos as usize })
    } else {
        Ok(pos + k)
    }
}

/// A compact length at `pos` and that many bytes after it.
pub open spec fn bytes_spec(b: Seq<u8>, pos: int) -> Result<(Seq<u8>, int), DecodeError> {
    match read_compact_spec(b, pos) {
        Err(e) => Err(wire_error(e, pos)),
        Ok((n, p)) => if p + n > b.len() {
            Err(DecodeError::TruncatedInput { offset: p as usize })
        } else {
            Ok((slice_at(b, p, n as int), p + n))
        },
    }
}

/// The outcome of a dry-run contract call as the node reports it: whether the
/// call succeeded, and the bytes it returned.
///
/// Layout: four 8-byte weight components, a storage-deposit discriminant with a
/// 16-byte amount when it is not zero, a length-prefixed debug message, and a
/// result discriminant; on success (zero) 4 flag bytes and the length-prefixed
/// returned bytes follow.
pub open spec fn exec_result_spec(b: Seq<u8>) -> Result<(bool, Option<Seq<u8>>), DecodeError> {
    match skip_spec(b, 0, 8) {
        Err(e) => Err(e),
        Ok(p1) => match skip_spec(b, p1, 8) {
            Err(e) => Err(e),
            Ok(p2) => match skip_spec(b, p2, 8) {
                Err(e) => Err(e),
                Ok(p3) => match skip_spec(b, p3, 8) {
                    Err(e) => Err(e),
                    Ok(p4) => match skip_spec(b, p4, 1) {
                        Err(e) => Err(e),
                        Ok(p5) => match (if b[p4] != 0 { skip_spec(b, p5, 16) } else { Ok(p5) }) {
                            Err(e) => Err(e),
                            Ok(p6) => match bytes_spec(b, p6) {
                                Err(e) => Err(e),
                                Ok((_, p7)) => match skip_spec(b, p7, 1) {
                                    Err(e) => Err(e),
                                    Ok(p8) => if b[p7] == 0 {
                                        match skip_spec(b, p8, 4) {
                                            Err(e) => Err(e),
                                            Ok(p9) => match bytes_spec(b, p9) {
                                                Err(e) => Err(e),
                                                Ok((data, _)) => Ok((true, Some(data))),
                                            },
                                        }
                                    } else {
                                        Ok((false, None))
                                    },
                                },
                            },
                        },
                    },
                },
            },
        },
    }
}

/// The outcome of a dry-run contract call.
pub struct ExecOutcome {
    pub success: bool,
    pub data: Option<Vec<u8>>,
    pub error: Option<String>,
}

fn skip(b: &[u8], pos: usize, k: usize) -> (r: Result<usize, DecodeError>)
    requires
        pos <= b@.len(),
    ensures
        match (r, skip_spec(b@, pos as int, k as int)) {
            (Ok(p), Ok(sp)) => p == sp && p <= b@.len(),
            (Err(e), Err(se)) => e == se,
            _ => false,
        },
{
    if b.len() - pos < k {
        Err(DecodeError::TruncatedInput { offset: pos })
    } else {
        Ok(pos + k)
    }
}

fn read_bytes(b: &[u8], pos: usize) -> (r: Result<(Vec<u8>, usize), DecodeError>)
    requires
        pos <= b@.len(),
    ensures
        match (r, bytes_spec(b@, pos as int)) {
            (Ok((v, p)), Ok((sv, sp))) => v@ == sv && p == sp && p <= b@.len(),
            (Err(e), Err(se)) => e == se,
            _ => false,
        },
{
    proof {
        lemma_compact_end(b@, pos as int);
    }
    match read_compact(b, pos) {
        Err(e) => Err(wire_error_of(e, pos)),
        Ok((n, p)) => {
            if n > (b.len() - p) as u128 {
                return Err(DecodeError::TruncatedInput { offset: p });
            }
            let v = slice_copy(b, p, n as usize);
            Ok((v, p + n as usize))
        },
    }
}

/// Decode the outcome of a dry-run contract call.
pub fn decode_contract_exec_result(bytes: &[u8]) -> (r: Result<ExecOutcome, DecodeError>)
    ensures
        match (r, exec_result_spec(bytes@)) {
            (Ok(o), Ok((ok, data))) => o.success == ok && match (o.data, data) {
                (Some(d), Some(sd)) => d@ == sd,
                (None, None) => true,
                _ => false,
            } && (ok ==> o.error is None) && (!ok ==> (o.error matches Some(m) && m@ == "Contract execution failed"@)),
            (Err(e), Err(se)) => e == se,
            _ => false,
        },
{
    let p1 = skip(bytes, 0, 8)?;
    let p2 = skip(bytes, p1, 8)?;
    let p3 = skip(bytes, p2, 8)?;
    let p4 = skip(bytes, p3, 8)?;
    let p5 = skip(bytes, p4, 1)?;
    let p6 = if bytes[p4] != 0 {
        skip(bytes, p5, 16)?
    } else {
        p5
    };
    let (_debug, p7) = read_bytes(bytes, p6)?;
    let p8 = skip(bytes, p7, 1)?;
    if bytes[p7] == 0 {
        let p9 = skip(bytes, p8, 4)?;
        let (data, _) = read_bytes(bytes, p9)?;
        Ok(ExecOutcome { success: true, data: Some(data), error: None })
    } else {
        Ok(ExecOutcome {
            success: false,
            data: None,
            error: Some(String::from_str("Contract execution failed")),
        })
    }
}

} // verus!

verus! {

/// Whether `name` is an unsigned fixed-width integer primitive.
pub open spec fn unsigned_name(name: Seq<char>) -> bool {
    name == "u8"@ || name == "u16"@ || name == "u32"@ || name == "u64"@ || name == "u128"@
}

/// The entry that defines `ty` is the primitive `name`, without a path.
pub open spec fn plain_primitive(reg: Seq<TypeEntry>, ty: u32, name: Seq<char>) -> bool {
    let k = index_of(reg, ty);
    0 <= k < reg.len() && reg[k].path@.len() == 0 && reg[k].def is Primitive && reg[k].def->Primitive_0@ == name
}


/// An unsigned integer argument, encoded by its parameter's type and decoded
/// by the same type, gives back the number it was written as.
pub proof fn lemma_unsigned_round_trip(reg: Seq<TypeEntry>, ty: u32, name: Seq<char>, s: Seq<char>, depth: nat)
    requires
        plain_primitive(reg, ty, name),
        unsigned_name(name),
        decimal_integer(s) is Some,
        0 <= decimal_integer(s)->Some_0 < byte_pow(int_width(name)),
        depth > 0,
    ensures
        ({
            let v = decimal_integer(s)->Some_0;
            let w = int_width(name);
            &&& encode_arg_spec(s, arg_kind(reg, ty, 4)) == Ok::<Seq<u8>, ArgFault>(le_bytes(v as nat, w))
            &&& decode_at(reg, ty, le_bytes(v as nat, w), 0, depth) == Ok::<(Dv, int), DecodeError>(
                (Dv::Unsigned(v as u128), w as int),
            )
        }),
{
    let v = decimal_integer(s)->Some_0;
    let w = int_width(name);
    let k = index_of(reg, ty);
    reveal_strlit("bool");
    reveal_strlit("char");
    reveal_strlit("str");
    reveal_strlit("u8");
    reveal_strlit("u16");
    reveal_strlit("u32");
    reveal_strlit("u64");
    reveal_strlit("u128");
    reveal_strlit("u256");
    reveal_strlit("i8");
    reveal_strlit("i16");
    reveal_strlit("i32");
    reveal_strlit("i64");
    reveal_strlit("i128");
    reveal_strlit("i256");
    crate::wire::lemma_byte_pow_values();
    assert(path_view(reg[k].path@).len() == 0);
    assert(!crate::codec::is_account_path(path_view(reg[k].path@)));
    assert(name[0] == 'u');
    if name == "u8"@ {
        assert(name[1] == '8');
    } else if name == "u16"@ {
        assert(name[1] == '1' && name[2] == '6');
    } else if name == "u32"@ {
        assert(name[1] == '3');
    } else if name == "u64"@ {
        assert(name[1] == '6');
    } else {
        assert(name[1] == '1' && name[2] == '2');
    }
    assert(arg_kind(reg, ty, 4) == ArgKind::Unsigned(w as usize));
    let b = le_bytes(v as nat, w);
    lemma_le_bytes_len(v as nat, w);
    lemma_le_round_trip(v as nat, w);
    assert(slice_at(b, 0, w as int) =~= b);
}

/// A boolean argument, encoded and decoded by a `bool` parameter, gives back
/// the value it spelled.
pub proof fn lemma_bool_round_trip(reg: Seq<TypeEntry>, ty: u32, s: Seq<char>, depth: nat)
    requires
        plain_primitive(reg, ty, "bool"@),
        spells(s, "true"@) || spells(s, "false"@),
        depth > 0,
    ensures
        ({
            let b = encode_arg_spec(s, arg_kind(reg, ty, 4))->Ok_0;
            &&& encode_arg_spec(s, arg_kind(reg, ty, 4)) is Ok
            &&& decode_at(reg, ty, b, 0, depth) == Ok::<(Dv, int), DecodeError>((Dv::Bool(spells(s, "true"@)), 1))
        }),
{
    let k = index_of(reg, ty);
    reveal_strlit("bool");
    reveal_strlit("char");
    reveal_strlit("str");
    reveal_strlit("u8");
    reveal_strlit("u16");
    reveal_strlit("u32");
    reveal_strlit("u64");
    reveal_strlit("u128");
    reveal_strlit("u256");
    reveal_strlit("i8");
    reveal_strlit("i16");
    reveal_strlit("i32");
    reveal_strlit("i64");
    reveal_strlit("i128");
    reveal_strlit("i256");
    reveal_strlit("true");
    reveal_strlit("false");
    assert(path_view(reg[k].path@).len() == 0);
    assert(!crate::codec::is_account_path(path_view(reg[k].path@)));
    assert(arg_kind(reg, ty, 4) == ArgKind::Bool);
    if spells(s, "true"@) {
        assert(!spells(s, "false"@) || s.len() == 5);
    }
}

/// A value of at most `w` bytes' worth of type cut short by a byte fails with
/// `TruncatedInput` at the start, never with a value.
pub proof fn lemma_truncated_integer(reg: Seq<TypeEntry>, ty: u32, name: Seq<char>, b: Seq<u8>, depth: nat)
    requires
        plain_primitive(reg, ty, name),
        int_width(name) > 0,
        b.len() < int_width(name),
        depth > 0,
    ensures
        decode_at(reg, ty, b, 0, depth) == Err::<(Dv, int), DecodeError>(DecodeError::TruncatedInput { offset: 0 }),
{
    reveal_strlit("bool");
    reveal_strlit("char");
    reveal_strlit("str");
    reveal_strlit("u8");
    reveal_strlit("u16");
    reveal_strlit("u32");
    reveal_strlit("u64");
    reveal_strlit("u128");
    reveal_strlit("u256");
    reveal_strlit("i8");
    reveal_strlit("i16");
    reveal_strlit("i32");
    reveal_strlit("i64");
    reveal_strlit("i128");
    reveal_strlit("i256");
    assert(name.len() >= 2);
    assert(name[0] == 'u' || name[0] == 'i' || name[0] == 'c');
    assert(decode_at(reg, ty, b, 0, depth) == decode_primitive(name, ty, b, 0));
}

/// Whether `name` is a signed fixed-width integer primitive.
pub open spec fn signed_name(name: Seq<char>) -> bool {
    name == "i8"@ || name == "i16"@ || name == "i32"@ || name == "i64"@ || name == "i128"@
}

/// A signed integer argument, encoded by its parameter's type and decoded by
/// the same type, gives back the number it was written as.
pub proof fn lemma_signed_round_trip(reg: Seq<TypeEntry>, ty: u32, name: Seq<char>, s: Seq<char>, depth: nat)
    requires
        plain_primitive(reg, ty, name),
        signed_name(name),
        decimal_integer(s) is Some,
        -(byte_pow(int_width(name)) / 2) <= decimal_integer(s)->Some_0 < byte_pow(int_width(name)) / 2,
        depth > 0,
    ensures
        ({
            let v = decimal_integer(s)->Some_0;
            let w = int_width(name);
            let b = encode_arg_spec(s, arg_kind(reg, ty, 4))->Ok_0;
            &&& encode_arg_spec(s, arg_kind(reg, ty, 4)) is Ok
            &&& decode_at(reg, ty, b, 0, depth) == Ok::<(Dv, int), DecodeError>((Dv::Signed(v as i128), w as int))
        }),
{
    let v = decimal_integer(s)->Some_0;
    let w = int_width(name);
    let k = index_of(reg, ty);
    reveal_strlit("bool");
    reveal_strlit("char");
    reveal_strlit("str");
    reveal_strlit("u8");
    reveal_strlit("u16");
    reveal_strlit("u32");
    reveal_strlit("u64");
    reveal_strlit("u128");
    reveal_strlit("u256");
    reveal_strlit("i8");
    reveal_strlit("i16");
    reveal_strlit("i32");
    reveal_strlit("i64");
    reveal_strlit("i128");
    reveal_strlit("i256");
    crate::wire::lemma_byte_pow_values();
    assert(path_view(reg[k].path@).len() == 0);
    assert(!crate::codec::is_account_path(path_view(reg[k].path@)));
    assert(name[0] == 'i');
    if name == "i8"@ {
        assert(name[1] == '8');
    } else if name == "i16"@ {
        assert(name[1] == '1' && name[2] == '6');
    } else if name == "i32"@ {
        assert(name[1] == '3');
    } else if name == "i64"@ {
        assert(name[1] == '6');
    } else {
        assert(name[1] == '1' && name[2] == '2');
    }
    assert(arg_kind(reg, ty, 4) == ArgKind::Signed(w as usize));
    let p = byte_pow(w);
    let u: nat = (if v < 0 { v + p } else { v }) as nat;
    assert(u < p);
    let b = le_bytes(u, w);
    lemma_le_bytes_len(u, w);
    lemma_le_round_trip(u, w);
    assert(slice_at(b, 0, w as int) =~= b);
    assert(is_signed(name));
    assert(signed_value(b, 0, w) == v);
}

/// A number given for a compact parameter, encoded and decoded by that
/// parameter's type, comes back unchanged.
pub proof fn lemma_compact_arg_round_trip(reg: Seq<TypeEntry>, ty: u32, inner: u32, name: Seq<char>, s: Seq<char>, depth: nat)
    requires
        ({
            let k = index_of(reg, ty);
            0 <= k < reg.len() && reg[k].path@.len() == 0 && reg[k].def == TypeDefinition::Compact(inner)
        }),
        plain_primitive(reg, inner, name),
        unsigned_name(name),
        decimal_integer(s) is Some,
        0 <= decimal_integer(s)->Some_0 < byte_pow(16),
        depth > 0,
    ensures
        ({
            let v = decimal_integer(s)->Some_0;
            let b = encode_arg_spec(s, arg_kind(reg, ty, 4))->Ok_0;
            &&& encode_arg_spec(s, arg_kind(reg, ty, 4)) is Ok
            &&& decode_at(reg, ty, b, 0, depth) == Ok::<(Dv, int), DecodeError>((Dv::Unsigned(v as u128), b.len() as int))
        }),
{
    let v = decimal_integer(s)->Some_0;
    let k = index_of(reg, ty);
    let ki = index_of(reg, inner);
    reveal_strlit("bool");
    reveal_strlit("u8");
    reveal_strlit("u16");
    reveal_strlit("u32");
    reveal_strlit("u64");
    reveal_strlit("u128");
    crate::wire::lemma_byte_pow_values();
    assert(path_view(reg[k].path@).len() == 0);
    assert(!crate::codec::is_account_path(path_view(reg[k].path@)));
    assert(path_view(reg[ki].path@).len() == 0);
    assert(!crate::codec::is_account_path(path_view(reg[ki].path@)));
    assert(name[0] == 'u');
    if name == "u8"@ {
        assert(name[1] == '8');
    } else if name == "u16"@ {
        assert(name[1] == '1' && name[2] == '6');
    } else if name == "u32"@ {
        assert(name[1] == '3');
    } else if name == "u64"@ {
        assert(name[1] == '6');
    } else {
        assert(name[1] == '1' && name[2] == '2');
    }
    assert(arg_kind(reg, inner, 3) is Unsigned);
    assert(arg_kind(reg, ty, 4) == ArgKind::CompactUnsigned);
    crate::wire::lemma_compact_round_trip(v as nat);
}

/// A string argument, encoded for a `str` parameter and decoded by the same
/// type, gives back its UTF-8 bytes.
pub proof fn lemma_text_round_trip(reg: Seq<TypeEntry>, ty: u32, s: Seq<char>, depth: nat)
    requires
        plain_primitive(reg, ty, "str"@),
        vstd::utf8::encode_utf8(s).len() < 0x1_0000_0000_0000_0000_0000_0000_0000_0000,
        depth > 0,
    ensures
        ({
            let b = encode_arg_spec(s, arg_kind(reg, ty, 4))->Ok_0;
            &&& encode_arg_spec(s, arg_kind(reg, ty, 4)) is Ok
            &&& decode_at(reg, ty, b, 0, depth) == Ok::<(Dv, int), DecodeError>(
                (Dv::Bytes(vstd::utf8::encode_utf8(s)), b.len() as int),
            )
        }),
{
    let k = index_of(reg, ty);
    let u = vstd::utf8::encode_utf8(s);
    reveal_strlit("bool");
    reveal_strlit("str");
    reveal_strlit("u8");
    reveal_strlit("u16");
    reveal_strlit("u32");
    reveal_strlit("u64");
    reveal_strlit("u128");
    reveal_strlit("u256");
    reveal_strlit("i8");
    reveal_strlit("i16");
    reveal_strlit("i32");
    reveal_strlit("i64");
    reveal_strlit("i128");
    reveal_strlit("i256");
    reveal_strlit("char");
    assert(path_view(reg[k].path@).len() == 0);
    assert(!crate::codec::is_account_path(path_view(reg[k].path@)));
    let name = reg[k].def->Primitive_0@;
    assert(name[0] == 's' && name[1] == 't');
    assert(arg_kind(reg, ty, 4) == ArgKind::Text);
    crate::wire::lemma_compact_round_trip(u.len());
    let c = crate::wire::compact_bytes(u.len());
    let b = c + u;
    assert(crate::wire::read_compact_spec(b, 0) == crate::wire::read_compact_spec(c, 0)) by {
        crate::wire::lemma_compact_prefix(c, u);
    }
    assert(slice_at(b, c.len() as int, u.len() as int) =~= u);
    assert(int_width(name) == 0);
}

/// Length-prefixed bytes, with `pre` before them and `rest` after them, read
/// back as the bytes.
pub proof fn lemma_bytes_within(pre: Seq<u8>, data: Seq<u8>, rest: Seq<u8>)
    requires
        data.len() < 0x1_0000_0000_0000_0000_0000_0000_0000_0000,
    ensures
        bytes_spec(pre + (crate::wire::compact_bytes(data.len()) + (data + rest)), pre.len() as int)
            == Ok::<(Seq<u8>, int), DecodeError>(
            (data, (pre.len() + crate::wire::compact_bytes(data.len()).len() + data.len()) as int),
        ),
{
    let c = crate::wire::compact_bytes(data.len());
    crate::wire::lemma_compact_within(pre, data.len(), data + rest);
    let b = pre + (c + (data + rest));
    assert(slice_at(b, (pre.len() + c.len()) as int, data.len() as int) =~= data);
}

/// A complete successful dry-run envelope gives back its payload byte for
/// byte, whatever follows it.
#[verifier::rlimit(50)]
pub proof fn lemma_envelope_round_trip(weights: Seq<u8>, msg: Seq<u8>, flags: Seq<u8>, e: Seq<u8>, tail: Seq<u8>)
    requires
        weights.len() == 32,
        flags.len() == 4,
        msg.len() < 0x1_0000_0000_0000_0000_0000_0000_0000_0000,
        e.len() < 0x1_0000_0000_0000_0000_0000_0000_0000_0000,
    ensures
        exec_result_spec(
            weights + seq![0u8] + crate::wire::compact_bytes(msg.len()) + msg + seq![0u8] + flags
                + crate::wire::compact_bytes(e.len()) + e + tail,
        ) == Ok::<(bool, Option<Seq<u8>>), DecodeError>((true, Some(e))),
{
    let c1 = crate::wire::compact_bytes(msg.len());
    let c2 = crate::wire::compact_bytes(e.len());
    let head = weights + seq![0u8];
    let mid = seq![0u8] + flags;
    let pre2 = head + c1 + msg + mid;
    let b = weights + seq![0u8] + c1 + msg + seq![0u8] + flags + c2 + e + tail;
    assert(b =~= head + (c1 + (msg + (mid + c2 + e + tail))));
    assert(b =~= pre2 + (c2 + (e + tail)));
    lemma_bytes_within(head, msg, mid + c2 + e + tail);
    lemma_bytes_within(pre2, e, tail);
    let p7 = (33 + c1.len() + msg.len()) as int;
    assert(b[32] == 0u8);
    assert(b[p7] == 0u8);
    assert(pre2.len() == p7 + 5);
    assert(skip_spec(b, 0, 8) == Ok::<int, DecodeError>(8));
    assert(skip_spec(b, 8, 8) == Ok::<int, DecodeError>(16));
    assert(skip_spec(b, 16, 8) == Ok::<int, DecodeError>(24));
    assert(skip_spec(b, 24, 8) == Ok::<int, DecodeError>(32));
    assert(skip_spec(b, 32, 1) == Ok::<int, DecodeError>(33));
    assert(skip_spec(b, p7, 1) == Ok::<int, DecodeError>(p7 + 1));
    assert(skip_spec(b, p7 + 1, 4) == Ok::<int, DecodeError>(p7 + 5));
}

/// The bytes `b` decode as `v` of type `t` wherever they stand, whatever
/// surrounds them.
pub open spec fn decodes_locally(reg: Seq<TypeEntry>, t: u32, b: Seq<u8>, v: Dv, depth: nat) -> bool {
    forall|pre: Seq<u8>, rest: Seq<u8>|
        #[trigger] decode_at(reg, t, pre + (b + rest), pre.len() as int, depth) == Ok::<(Dv, int), DecodeError>(
            (v, (pre.len() + b.len()) as int),
        )
}

/// The encoding of argument `i`.
pub open spec fn arg_bytes(args: Seq<String>, params: Seq<ArgumentInfo>, reg: Seq<TypeEntry>, i: int) -> Seq<u8> {
    encode_arg_spec(args[i]@, param_kind(reg, params[i]))->Ok_0
}

/// The encodings of the arguments from `i` on, concatenated.
pub open spec fn arg_bytes_from(args: Seq<String>, params: Seq<ArgumentInfo>, reg: Seq<TypeEntry>, i: int) -> Seq<u8>
    decreases args.len() - i,
{
    if i < 0 || i >= args.len() {
        Seq::empty()
    } else {
        arg_bytes(args, params, reg, i) + arg_bytes_from(args, params, reg, i + 1)
    }
}

/// The parameters' type ids.
pub open spec fn param_types(params: Seq<ArgumentInfo>) -> Seq<u32> {
    params.map_values(|p: ArgumentInfo| p.type_id->Some_0)
}

proof fn lemma_prefix_split(args: Seq<String>, params: Seq<ArgumentInfo>, reg: Seq<TypeEntry>, i: int)
    requires
        0 <= i <= args.len(),
        forall|j: int| 0 <= j < args.len() ==> (#[trigger] encode_arg_spec(args[j]@, param_kind(reg, params[j]))) is Ok,
    ensures
        encode_prefix(args, params, reg, i) is Ok,
        encode_prefix(args, params, reg, args.len() as int)->Ok_0 =~= encode_prefix(args, params, reg, i)->Ok_0
            + arg_bytes_from(args, params, reg, i),
    decreases args.len() - i,
{
    lemma_prefix_ok(args, params, reg, i);
    if i < args.len() {
        lemma_prefix_split(args, params, reg, i + 1);
        assert(encode_arg_spec(args[i]@, param_kind(reg, params[i])) is Ok);
    }
}

proof fn lemma_prefix_ok(args: Seq<String>, params: Seq<ArgumentInfo>, reg: Seq<TypeEntry>, i: int)
    requires
        0 <= i <= args.len(),
        forall|j: int| 0 <= j < args.len() ==> (#[trigger] encode_arg_spec(args[j]@, param_kind(reg, params[j]))) is Ok,
    ensures
        encode_prefix(args, params, reg, i) is Ok,
    decreases i,
{
    if i > 0 {
        lemma_prefix_ok(args, params, reg, i - 1);
        assert(encode_arg_spec(args[i - 1]@, param_kind(reg, params[i - 1])) is Ok);
    }
}

proof fn lemma_list_from(
    args: Seq<String>,
    params: Seq<ArgumentInfo>,
    reg: Seq<TypeEntry>,
    vals: Seq<Dv>,
    depth: nat,
    b: Seq<u8>,
    i: int,
)
    requires
        0 <= i <= args.len(),
        args.len() == params.len(),
        vals.len() == args.len(),
        forall|j: int| 0 <= j < params.len() ==> (#[trigger] params[j]).type_id is Some,
        forall|j: int| 0 <= j < args.len() ==> (#[trigger] encode_arg_spec(args[j]@, param_kind(reg, params[j]))) is Ok,
        forall|j: int|
            0 <= j < args.len() ==> #[trigger] decodes_locally(
                reg,
                params[j].type_id->Some_0,
                arg_bytes(args, params, reg, j),
                vals[j],
                depth,
            ),
        b == encode_prefix(args, params, reg, args.len() as int)->Ok_0,
    ensures
        decode_list(
            reg,
            param_types(params).subrange(i, params.len() as int),
            b,
            encode_prefix(args, params, reg, i)->Ok_0.len() as int,
            depth,
        ) == Ok::<(Seq<Dv>, int), DecodeError>((vals.subrange(i, vals.len() as int), b.len() as int)),
    decreases args.len() - i,
{
    lemma_prefix_split(args, params, reg, i);
    let pre = encode_prefix(args, params, reg, i)->Ok_0;
    let tys = param_types(params).subrange(i, params.len() as int);
    if i == args.len() {
        assert(tys.len() == 0);
        assert(vals.subrange(i, vals.len() as int) =~= Seq::<Dv>::empty());
    } else {
        lemma_list_from(args, params, reg, vals, depth, b, i + 1);
        lemma_prefix_split(args, params, reg, i + 1);
        let mine = arg_bytes(args, params, reg, i);
        let rest = arg_bytes_from(args, params, reg, i + 1);
        assert(b =~= pre + (mine + rest));
        assert(decodes_locally(reg, params[i].type_id->Some_0, mine, vals[i], depth));
        assert(decode_at(reg, params[i].type_id->Some_0, pre + (mine + rest), pre.len() as int, depth) == Ok::<(Dv, int), DecodeError>(
            (vals[i], (pre.len() + mine.len()) as int),
        ));
        assert(encode_prefix(args, params, reg, i + 1)->Ok_0 =~= pre + mine);
        assert(tys[0] == params[i].type_id->Some_0);
        assert(tys.drop_first() =~= param_types(params).subrange(i + 1, params.len() as int));
        assert(vals.subrange(i, vals.len() as int) =~= seq![vals[i]] + vals.subrange(i + 1, vals.len() as int));
    }
}

/// Arguments whose encodings each decode back on their own, wherever they
/// stand, decode back together: the call's argument bytes, read in declared
/// order by the parameters' types, give every value and leave no byte over.
pub proof fn lemma_arguments_round_trip(
    args: Seq<String>,
    params: Seq<ArgumentInfo>,
    reg: Seq<TypeEntry>,
    vals: Seq<Dv>,
    depth: nat,
)
    requires
        args.len() == params.len(),
        vals.len() == args.len(),
        forall|j: int| 0 <= j < params.len() ==> (#[trigger] params[j]).type_id is Some,
        forall|j: int| 0 <= j < args.len() ==> (#[trigger] encode_arg_spec(args[j]@, param_kind(reg, params[j]))) is Ok,
        forall|j: int|
            0 <= j < args.len() ==> #[trigger] decodes_locally(
                reg,
                params[j].type_id->Some_0,
                arg_bytes(args, params, reg, j),
                vals[j],
                depth,
            ),
    ensures
        encode_args_spec(args, params, reg) is Ok,
        decode_list(reg, param_types(params), encode_args_spec(args, params, reg)->Ok_0, 0, depth) == Ok::<
            (Seq<Dv>, int),
            DecodeError,
        >((vals, encode_args_spec(args, params, reg)->Ok_0.len() as int)),
{
    lemma_prefix_ok(args, params, reg, args.len() as int);
    let b = encode_prefix(args, params, reg, args.len() as int)->Ok_0;
    lemma_list_from(args, params, reg, vals, depth, b, 0);
    assert(param_types(params).subrange(0, params.len() as int) =~= param_types(params));
    assert(vals.subrange(0, vals.len() as int) =~= vals);
    assert(encode_prefix(args, params, reg, 0)->Ok_0.len() == 0);
}

/// The little-endian bytes of a fixed-width unsigned value decode back to it
/// wherever they stand.
pub proof fn lemma_unsigned_local(reg: Seq<TypeEntry>, ty: u32, name: Seq<char>, v: nat, depth: nat)
    requires
        plain_primitive(reg, ty, name),
        unsigned_name(name),
        v < byte_pow(int_width(name)),
        depth > 0,
    ensures
        decodes_locally(reg, ty, le_bytes(v, int_width(name)), Dv::Unsigned(v as u128), depth),
{
    let w = int_width(name);
    let b = le_bytes(v, w);
    reveal_strlit("bool");
    reveal_strlit("u8");
    reveal_strlit("u16");
    reveal_strlit("u32");
    reveal_strlit("u64");
    reveal_strlit("u128");
    reveal_strlit("i8");
    reveal_strlit("i16");
    reveal_strlit("i32");
    reveal_strlit("i64");
    reveal_strlit("i128");
    reveal_strlit("char");
    crate::wire::lemma_byte_pow_values();
    assert(name[0] == 'u');
    lemma_le_bytes_len(v, w);
    lemma_le_round_trip(v, w);
    assert forall|pre: Seq<u8>, rest: Seq<u8>|
        #[trigger] decode_at(reg, ty, pre + (b + rest), pre.len() as int, depth) == Ok::<(Dv, int), DecodeError>(
            (Dv::Unsigned(v as u128), (pre.len() + b.len()) as int),
        ) by {
        let all = pre + (b + rest);
        assert(slice_at(all, pre.len() as int, w as int) =~= b);
        assert(!is_signed(name));
        assert(decode_at(reg, ty, all, pre.len() as int, depth) == decode_primitive(name, ty, all, pre.len() as int));
    }
}

/// The byte of a boolean decodes back to it wherever it stands.
pub proof fn lemma_bool_local(reg: Seq<TypeEntry>, ty: u32, v: bool, depth: nat)
    requires
        plain_primitive(reg, ty, "bool"@),
        depth > 0,
    ensures
        decodes_locally(reg, ty, seq![if v { 1u8 } else { 0u8 }], Dv::Bool(v), depth),
{
    let b = seq![if v { 1u8 } else { 0u8 }];
    assert forall|pre: Seq<u8>, rest: Seq<u8>|
        #[trigger] decode_at(reg, ty, pre + (b + rest), pre.len() as int, depth) == Ok::<(Dv, int), DecodeError>(
            (Dv::Bool(v), (pre.len() + b.len()) as int),
        ) by {
        let all = pre + (b + rest);
        assert(all[pre.len() as int] == b[0]);
        assert(decode_at(reg, ty, all, pre.len() as int, depth) == decode_primitive("bool"@, ty, all, pre.len() as int));
    }
}

/// The compact encoding of a value decodes back to it wherever it stands, for
/// a compact type.
pub proof fn lemma_compact_local(reg: Seq<TypeEntry>, ty: u32, inner: u32, v: nat, depth: nat)
    requires
        ({
            let k = index_of(reg, ty);
            0 <= k < reg.len() && reg[k].def == TypeDefinition::Compact(inner)
        }),
        v < 0x1_0000_0000_0000_0000_0000_0000_0000_0000,
        depth > 0,
    ensures
        decodes_locally(reg, ty, crate::wire::compact_bytes(v), Dv::Unsigned(v as u128), depth),
{
    let b = crate::wire::compact_bytes(v);
    assert forall|pre: Seq<u8>, rest: Seq<u8>|
        #[trigger] decode_at(reg, ty, pre + (b + rest), pre.len() as int, depth) == Ok::<(Dv, int), DecodeError>(
            (Dv::Unsigned(v as u128), (pre.len() + b.len()) as int),
        ) by {
        crate::wire::lemma_compact_within(pre, v, rest);
    }
}

} // verus!
