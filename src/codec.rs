//! Encoding of textual call arguments into the wire format, by the types that
//! the registry declares for them.
use vstd::prelude::*;
use vstd::utf8::encode_utf8;
use crate::metadata::ArgumentInfo;
use crate::registry::{index_of, lemma_find_before_range, TypeDefinition, TypeEntry, TypeRegistry};
use crate::resolver::path_view;
use crate::text::{chars_of, contains_str, seq_contains, str_eq};
use crate::wire::{byte_pow, compact_bytes, le_bytes, lemma_byte_pow_values, push_compact, push_le};

verus! {

/// The value of a hexadecimal digit, if `c` is one.
pub open spec fn hex_digit(c: char) -> Option<u8> {
    if '0' <= c && c <= '9' {
        Some((c as u32 - '0' as u32) as u8)
    } else if 'a' <= c && c <= 'f' {
        Some((c as u32 - 'a' as u32 + 10) as u8)
    } else if 'A' <= c && c <= 'F' {
        Some((c as u32 - 'A' as u32 + 10) as u8)
    } else {
        None
    }
}

/// Whether `s` is an even number of hexadecimal digits.
pub open spec fn is_hex(s: Seq<char>) -> bool {
    s.len() % 2 == 0 && forall|i: int| 0 <= i < s.len() ==> (#[trigger] hex_digit(s[i])) is Some
}

/// The bytes that pairs of hexadecimal digits stand for.
pub open spec fn hex_bytes(s: Seq<char>) -> Seq<u8> {
    Seq::new(
        s.len() / 2,
        |i: int| (hex_digit(s[2 * i])->Some_0 * 16 + hex_digit(s[2 * i + 1])->Some_0) as u8,
    )
}

#[verifier::external_type_specification]
#[verifier::external_body]
pub struct ExFromHexError(hex::FromHexError);

/// Relies on `hex::decode`: an even number of hexadecimal digits, in either
/// case, decodes to one byte per pair; anything else is an error.
#[verifier::external_body]
pub(crate) fn hex_decode(s: &str) -> (r: Result<Vec<u8>, hex::FromHexError>)
    ensures
        r is Ok <==> is_hex(s@),
        r is Ok ==> r->Ok_0@ == hex_bytes(s@),
{
    hex::decode(s)
}

/// The 32 account bytes that SS58 text (base58 with a checksum) stands for.
pub uninterp spec fn ss58_account(s: Seq<char>) -> Option<Seq<u8>>;

/// Relies on `subxt::utils::AccountId32::from_str`: SS58 text decodes to the 32
/// bytes of an account id, or is rejected (bad base58, length or checksum).
/// Its base58 step indexes past a buffer of 132 bytes on longer runs of `1`,
/// so text longer than that is not handed over.
#[verifier::external_body]
pub(crate) fn ss58_decode(s: &str) -> (r: Option<Vec<u8>>)
    requires
        s@.len() <= SS58_MAX_LEN,
    ensures
        match (r, ss58_account(s@)) {
            (Some(b), Some(sb)) => b@ == sb && b@.len() == 32,
            (None, None) => true,
            _ => false,
        },
{
    match <subxt::utils::AccountId32 as std::str::FromStr>::from_str(s) {
        Ok(a) => Some(a.0.to_vec()),
        Err(_) => None,
    }
}

/// The longest SS58 text that is decoded; an account id takes about 48 characters.
pub const SS58_MAX_LEN: usize = 132;

/// An account address: `0x` and 64 hexadecimal digits, or SS58 text of at
/// most `SS58_MAX_LEN` characters.
pub open spec fn address_spec(s: Seq<char>) -> Option<Seq<u8>> {
    let d = s.subrange(2, s.len() as int);
    if s.len() >= 2 && s[0] == '0' && s[1] == 'x' {
        if d.len() == 64 && is_hex(d) {
            Some(hex_bytes(d))
        } else {
            None
        }
    } else if s.len() <= SS58_MAX_LEN {
        ss58_account(s)
    } else {
        None
    }
}

/// Read an account address: `0x` and 64 hexadecimal digits, or SS58 text.
pub fn parse_address(s: &str) -> (r: Option<Vec<u8>>)
    ensures
        match (r, address_spec(s@)) {
            (Some(b), Some(sb)) => b@ == sb,
            (None, None) => true,
            _ => false,
        },
{
    let n = s.unicode_len();
    if n >= 2 && s.get_char(0) == '0' && s.get_char(1) == 'x' {
        let digits = s.substring_char(2, n);
        if digits.unicode_len() != 64 {
            return None;
        }
        match hex_decode(digits) {
            Ok(b) => Some(b),
            Err(_) => None,
        }
    } else if n <= SS58_MAX_LEN {
        ss58_decode(s)
    } else {
        None
    }
}

/// How a textual argument is read, by the type of its parameter.
pub enum ArgKind {
    Bool,
    /// A fixed-width unsigned integer of the given number of bytes.
    Unsigned(usize),
    /// A fixed-width signed integer of the given number of bytes.
    Signed(usize),
    /// An unsigned integer in the compact encoding.
    CompactUnsigned,
    /// A 32-byte account address.
    Address,
    /// A string, as its UTF-8 bytes behind their compact length.
    Text,
    /// A type that a single string does not describe.
    Unsupported,
}

/// The kind of a primitive, by its name.
pub open spec fn primitive_kind(name: Seq<char>) -> ArgKind {
    if name == "bool"@ {
        ArgKind::Bool
    } else if name == "u8"@ {
        ArgKind::Unsigned(1)
    } else if name == "u16"@ {
        ArgKind::Unsigned(2)
    } else if name == "u32"@ {
        ArgKind::Unsigned(4)
    } else if name == "u64"@ {
        ArgKind::Unsigned(8)
    } else if name == "u128"@ {
        ArgKind::Unsigned(16)
    } else if name == "i8"@ {
        ArgKind::Signed(1)
    } else if name == "i16"@ {
        ArgKind::Signed(2)
    } else if name == "i32"@ {
        ArgKind::Signed(4)
    } else if name == "i64"@ {
        ArgKind::Signed(8)
    } else if name == "i128"@ {
        ArgKind::Signed(16)
    } else if name == "str"@ {
        ArgKind::Text
    } else {
        ArgKind::Unsupported
    }
}

/// Whether a path names an account address.
pub open spec fn is_account_path(path: Seq<Seq<char>>) -> bool {
    exists|i: int| 0 <= i < path.len() && seq_contains(#[trigger] path[i], "AccountId"@)
}

/// How an argument of type `ty` is read. Newtype wrappers (a struct of one
/// unnamed field) are looked through, `depth` levels deep.
pub open spec fn arg_kind(reg: Seq<TypeEntry>, ty: u32, depth: nat) -> ArgKind
    decreases depth,
{
    let k = index_of(reg, ty);
    if k < 0 || k >= reg.len() {
        ArgKind::Unsupported
    } else {
        let e = reg[k];
        if is_account_path(path_view(e.path@)) {
            ArgKind::Address
        } else {
            match e.def {
                TypeDefinition::Primitive(name) => primitive_kind(name@),
                TypeDefinition::Compact(inner) => if depth > 0 {
                    match arg_kind(reg, inner, (depth - 1) as nat) {
                        ArgKind::Unsigned(_) => ArgKind::CompactUnsigned,
                        _ => ArgKind::Unsupported,
                    }
                } else {
                    ArgKind::Unsupported
                },
                TypeDefinition::Composite(fields) => if depth > 0 && fields@.len() == 1
                    && fields@[0].name is None {
                    arg_kind(reg, fields@[0].ty, (depth - 1) as nat)
                } else {
                    ArgKind::Unsupported
                },
                _ => ArgKind::Unsupported,
            }
        }
    }
}

/// How deep newtype wrappers are looked through.
pub const WRAPPER_DEPTH: u64 = 4;

/// Whether `c` is the lower-case ASCII letter `l` in either case.
pub open spec fn same_letter(c: char, l: char) -> bool {
    c == l || c as u32 + 32 == l as u32
}

/// Whether `s` spells the lower-case ASCII word `w`, ignoring case.
pub open spec fn spells(s: Seq<char>, w: Seq<char>) -> bool {
    s.len() == w.len() && forall|i: int| 0 <= i < s.len() ==> same_letter(#[trigger] s[i], w[i])
}

/// Whether `c` is a decimal digit.
pub open spec fn is_digit(c: char) -> bool {
    '0' <= c && c <= '9'
}

/// The value of a string of decimal digits.
pub open spec fn digits_value(s: Seq<char>) -> nat
    decreases s.len(),
{
    if s.len() == 0 {
        0
    } else {
        10 * digits_value(s.drop_last()) + (s.last() as u32 - '0' as u32) as nat
    }
}

/// Whether `s` is one or more decimal digits.
pub open spec fn all_digits(s: Seq<char>) -> bool {
    s.len() > 0 && forall|i: int| 0 <= i < s.len() ==> is_digit(#[trigger] s[i])
}

/// The integer that `s` writes in decimal, with an optional leading minus sign.
pub open spec fn decimal_integer(s: Seq<char>) -> Option<int> {
    if s.len() > 0 && s[0] == '-' {
        let rest = s.subrange(1, s.len() as int);
        if all_digits(rest) {
            Some(-(digits_value(rest) as int))
        } else {
            None
        }
    } else if all_digits(s) {
        Some(digits_value(s) as int)
    } else {
        None
    }
}

/// Why one argument could not be encoded.
pub enum ArgFault {
    /// The number lies outside the range of the parameter's type.
    OutOfRange,
    /// The text is no address.
    BadAddress,
    /// The text is not of the form the type asks for.
    Malformed,
    /// The parameter's type cannot be given as one string.
    Unsupported,
}

/// The wire form of textual argument `s` of the given kind.
pub open spec fn encode_arg_spec(s: Seq<char>, kind: ArgKind) -> Result<Seq<u8>, ArgFault> {
    match kind {
        ArgKind::Bool => if spells(s, "true"@) {
            Ok(seq![1u8])
        } else if spells(s, "false"@) {
            Ok(seq![0u8])
        } else {
            Err(ArgFault::Malformed)
        },
        ArgKind::Unsigned(w) => match decimal_integer(s) {
            None => Err(ArgFault::Malformed),
            Some(v) => if 0 <= v < byte_pow(w as nat) {
                Ok(le_bytes(v as nat, w as nat))
            } else {
                Err(ArgFault::OutOfRange)
            },
        },
        ArgKind::Signed(w) => match decimal_integer(s) {
            None => Err(ArgFault::Malformed),
            Some(v) => if -(byte_pow(w as nat) / 2) <= v < byte_pow(w as nat) / 2 {
                Ok(le_bytes((if v < 0 { v + byte_pow(w as nat) } else { v }) as nat, w as nat))
            } else {
                Err(ArgFault::OutOfRange)
            },
        },
        ArgKind::CompactUnsigned => match decimal_integer(s) {
            None => Err(ArgFault::Malformed),
            Some(v) => if 0 <= v < byte_pow(16) {
                Ok(compact_bytes(v as nat))
            } else {
                Err(ArgFault::OutOfRange)
            },
        },
        ArgKind::Address => match address_spec(s) {
            Some(b) => Ok(b),
            None => Err(ArgFault::BadAddress),
        },
        ArgKind::Text => Ok(compact_bytes(encode_utf8(s).len()) + encode_utf8(s)),
        ArgKind::Unsupported => Err(ArgFault::Unsupported),
    }
}

/// How an argument of type `ty` is read.
pub fn arg_kind_of(reg: &TypeRegistry, ty: u32, depth: u64) -> (r: ArgKind)
    ensures
        r == arg_kind(reg.entries@, ty, depth as nat),
    decreases depth,
{
    proof {
        lemma_find_before_range(reg.entries@, ty, reg.entries@.len() as int);
    }
    let k = match reg.position(ty) {
        Some(k) => k,
        None => {
            return ArgKind::Unsupported;
        },
    };
    let e = &reg.entries[k];
    if path_names_account(&e.path) {
        return ArgKind::Address;
    }
    match &e.def {
        TypeDefinition::Primitive(name) => primitive_kind_of(name.as_str()),
        TypeDefinition::Compact(inner) => {
            if depth > 0 {
                match arg_kind_of(reg, *inner, depth - 1) {
                    ArgKind::Unsigned(_) => ArgKind::CompactUnsigned,
                    _ => ArgKind::Unsupported,
                }
            } else {
                ArgKind::Unsupported
            }
        },
        TypeDefinition::Composite(fields) => {
            if depth > 0 && fields.len() == 1 && fields[0].name.is_none() {
                arg_kind_of(reg, fields[0].ty, depth - 1)
            } else {
                ArgKind::Unsupported
            }
        },
        _ => ArgKind::Unsupported,
    }
}

/// Whether a segment of the path names an account address.
fn path_names_account(path: &Vec<String>) -> (r: bool)
    ensures
        r == is_account_path(path_view(path@)),
{
    let ghost p = path_view(path@);
    let mut i: usize = 0;
    while i < path.len()
        invariant
            p == path_view(path@),
            i <= path.len(),
            forall|j: int| 0 <= j < i ==> !seq_contains(#[trigger] p[j], "AccountId"@),
        decreases path.len() - i,
    {
        if contains_str(path[i].as_str(), "AccountId") {
            assert(seq_contains(p[i as int], "AccountId"@));
            return true;
        }
        i += 1;
    }
    false
}

/// The kind of a primitive, by its name.
fn primitive_kind_of(name: &str) -> (r: ArgKind)
    ensures
        r == primitive_kind(name@),
{
    if str_eq(name, "bool") {
        ArgKind::Bool
    } else if str_eq(name, "u8") {
        ArgKind::Unsigned(1)
    } else if str_eq(name, "u16") {
        ArgKind::Unsigned(2)
    } else if str_eq(name, "u32") {
        ArgKind::Unsigned(4)
    } else if str_eq(name, "u64") {
        ArgKind::Unsigned(8)
    } else if str_eq(name, "u128") {
        ArgKind::Unsigned(16)
    } else if str_eq(name, "i8") {
        ArgKind::Signed(1)
    } else if str_eq(name, "i16") {
        ArgKind::Signed(2)
    } else if str_eq(name, "i32") {
        ArgKind::Signed(4)
    } else if str_eq(name, "i64") {
        ArgKind::Signed(8)
    } else if str_eq(name, "i128") {
        ArgKind::Signed(16)
    } else if str_eq(name, "str") {
        ArgKind::Text
    } else {
        ArgKind::Unsupported
    }
}

/// The largest `u128`, as a mathematical integer.
pub open spec fn u128_limit() -> nat {
    u128::MAX as nat + 1
}

/// Read `s` as a decimal integer: its sign, and its magnitude where that is
/// below `2^128`.
pub fn parse_decimal(s: &str) -> (r: Option<(bool, Option<u128>)>)
    ensures
        match r {
            None => decimal_integer(s@) is None,
            Some((neg, mag)) => {
                &&& decimal_integer(s@) is Some
                &&& neg ==> decimal_integer(s@)->Some_0 <= 0
                &&& !neg ==> decimal_integer(s@)->Some_0 >= 0
                &&& match mag {
                    Some(m) => m as int == if neg {
                        -decimal_integer(s@)->Some_0
                    } else {
                        decimal_integer(s@)->Some_0
                    },
                    None => (if neg {
                        -decimal_integer(s@)->Some_0
                    } else {
                        decimal_integer(s@)->Some_0
                    }) >= u128_limit(),
                }
            },
        },
{
    let c = chars_of(s);
    let n = c.len();
    let neg = n > 0 && c[0] == '-';
    let start: usize = if neg { 1 } else { 0 };
    if start >= n {
        proof {
            if neg {
                assert(!all_digits(s@.subrange(1, s@.len() as int)));
            } else {
                assert(!all_digits(s@));
                if s@.len() > 0 {
                    assert(s@[0] == '-');
                }
            }
        }
        return None;
    }
    let ghost digits = s@.subrange(start as int, n as int);
    let mut acc: u128 = 0;
    let mut over = false;
    let mut i: usize = start;
    while i < n
        invariant
            c@ == s@,
            n == c.len(),
            n == s@.len(),
            neg == (s@.len() > 0 && s@[0] == '-'),
            start == if neg { 1usize } else { 0usize },
            start <= i <= n,
            digits == s@.subrange(start as int, n as int),
            forall|j: int| start <= j < i ==> is_digit(#[trigger] s@[j]),
            !over ==> acc as nat == digits_value(s@.subrange(start as int, i as int)),
            over ==> digits_value(s@.subrange(start as int, i as int)) >= u128_limit(),
        decreases n - i,
    {
        let ch = c[i];
        if !('0' <= ch && ch <= '9') {
            proof {
                assert(!is_digit(digits[i - start]));
                if neg {
                    assert(digits =~= s@.subrange(1, s@.len() as int));
                    assert(!all_digits(s@));
                } else {
                    assert(digits =~= s@);
                    assert(!all_digits(s@.subrange(1, s@.len() as int)) || s@[0] != '-');
                }
            }
            return None;
        }
        let d = (ch as u32 - '0' as u32) as u128;
        let ghost before = s@.subrange(start as int, i as int);
        let ghost after = s@.subrange(start as int, i + 1);
        proof {
            assert(after.drop_last() =~= before);
            assert(digits_value(after) == 10 * digits_value(before) + d);
        }
        if !over {
            if acc > (u128::MAX - d) / 10 {
                over = true;
                assert(10 * (acc as nat) + d as nat > u128::MAX) by (nonlinear_arith)
                    requires
                        acc > (u128::MAX - d) / 10,
                        d <= 9,
                ;
            } else {
                assert(10 * (acc as nat) + d as nat <= u128::MAX) by (nonlinear_arith)
                    requires
                        acc <= (u128::MAX - d) / 10,
                        d <= 9,
                ;
                acc = acc * 10 + d;
            }
        }
        i += 1;
    }
    proof {
        assert(s@.subrange(start as int, n as int) == digits);
        if neg {
            assert(digits =~= s@.subrange(1, s@.len() as int));
        } else {
            assert(digits =~= s@);
            if s@.len() > 0 {
                assert(s@[0] != '-');
            }
        }
    }
    if over {
        Some((neg, None))
    } else {
        Some((neg, Some(acc)))
    }
}

/// Whether `s` spells the lower-case ASCII word `w`, ignoring case.
fn spells_word(s: &str, w: &str) -> (r: bool)
    ensures
        r == spells(s@, w@),
{
    let x = chars_of(s);
    let y = chars_of(w);
    if x.len() != y.len() {
        return false;
    }
    let mut i: usize = 0;
    while i < x.len()
        invariant
            x@ == s@,
            y@ == w@,
            x.len() == y.len(),
            i <= x.len(),
            forall|j: int| 0 <= j < i ==> same_letter(#[trigger] s@[j], w@[j]),
        decreases x.len() - i,
    {
        let a = x[i];
        let b = y[i];
        if !(a == b || ((b as u32) >= 32 && (a as u32) == (b as u32) - 32)) {
            assert(!same_letter(s@[i as int], w@[i as int]));
            return false;
        }
        i += 1;
    }
    true
}

/// The number `256^w` for the widths that integer kinds have, below `2^128`.
fn width_bound(w: usize) -> (r: u128)
    requires
        w == 1 || w == 2 || w == 4 || w == 8,
    ensures
        r as nat == byte_pow(w as nat),
{
    proof {
        lemma_byte_pow_values();
    }
    if w == 1 {
        0x100
    } else if w == 2 {
        0x10000
    } else if w == 4 {
        0x1_0000_0000
    } else {
        0x1_0000_0000_0000_0000
    }
}

/// Whether the widths that `kind` carries are those of integer types.
pub open spec fn kind_ok(kind: ArgKind) -> bool {
    match kind {
        ArgKind::Unsigned(w) => w == 1 || w == 2 || w == 4 || w == 8 || w == 16,
        ArgKind::Signed(w) => w == 1 || w == 2 || w == 4 || w == 8 || w == 16,
        _ => true,
    }
}

pub proof fn lemma_kind_ok(reg: Seq<TypeEntry>, ty: u32, depth: nat)
    ensures
        kind_ok(arg_kind(reg, ty, depth)),
    decreases depth,
{
    if depth > 0 {
        let k = index_of(reg, ty);
        if 0 <= k < reg.len() {
            match reg[k].def {
                TypeDefinition::Compact(inner) => lemma_kind_ok(reg, inner, (depth - 1) as nat),
                TypeDefinition::Composite(fields) => if fields@.len() == 1 {
                    lemma_kind_ok(reg, fields@[0].ty, (depth - 1) as nat);
                },
                _ => {},
            }
        }
    }
}

/// The wire form of one textual argument.
pub fn encode_arg(s: &str, kind: &ArgKind) -> (r: Result<Vec<u8>, ArgFault>)
    requires
        kind_ok(*kind),
    ensures
        match (r, encode_arg_spec(s@, *kind)) {
            (Ok(b), Ok(sb)) => b@ == sb,
            (Err(e), Err(se)) => e == se,
            _ => false,
        },
{
    proof {
        lemma_byte_pow_values();
    }
    match kind {
        ArgKind::Bool => {
            if spells_word(s, "true") {
                Ok(vec![1u8])
            } else if spells_word(s, "false") {
                Ok(vec![0u8])
            } else {
                Err(ArgFault::Malformed)
            }
        },
        ArgKind::Unsigned(w) => {
            match parse_decimal(s) {
                None => Err(ArgFault::Malformed),
                Some((neg, mag)) => match mag {
                    None => Err(ArgFault::OutOfRange),
                    Some(m) => {
                        if neg && m > 0 {
                            return Err(ArgFault::OutOfRange);
                        }
                        if *w != 16 && m >= width_bound(*w) {
                            return Err(ArgFault::OutOfRange);
                        }
                        let mut out: Vec<u8> = Vec::new();
                        push_le(&mut out, m, *w);
                        assert(out@ =~= le_bytes(m as nat, *w as nat));
                        Ok(out)
                    },
                },
            }
        },
        ArgKind::Signed(w) => {
            match parse_decimal(s) {
                None => Err(ArgFault::Malformed),
                Some((neg, mag)) => match mag {
                    None => Err(ArgFault::OutOfRange),
                    Some(m) => {
                        let half: u128 = if *w == 16 {
                            0x8000_0000_0000_0000_0000_0000_0000_0000
                        } else {
                            width_bound(*w) / 2
                        };
                        if (neg && m > half) || (!neg && m >= half) {
                            return Err(ArgFault::OutOfRange);
                        }
                        let x: u128 = if neg && m > 0 {
                            if *w == 16 {
                                (u128::MAX - m) + 1
                            } else {
                                width_bound(*w) - m
                            }
                        } else {
                            m
                        };
                        let mut out: Vec<u8> = Vec::new();
                        push_le(&mut out, x, *w);
                        assert(out@ =~= le_bytes(x as nat, *w as nat));
                        Ok(out)
                    },
                },
            }
        },
        ArgKind::CompactUnsigned => {
            match parse_decimal(s) {
                None => Err(ArgFault::Malformed),
                Some((neg, mag)) => match mag {
                    None => Err(ArgFault::OutOfRange),
                    Some(m) => {
                        if neg && m > 0 {
                            return Err(ArgFault::OutOfRange);
                        }
                        let mut out: Vec<u8> = Vec::new();
                        push_compact(&mut out, m);
                        assert(out@ =~= compact_bytes(m as nat));
                        Ok(out)
                    },
                },
            }
        },
        ArgKind::Address => match parse_address(s) {
            Some(b) => Ok(b),
            None => Err(ArgFault::BadAddress),
        },
        ArgKind::Text => {
            let bytes = s.as_bytes();
            let mut out: Vec<u8> = Vec::new();
            push_compact(&mut out, bytes.len() as u128);
            out.extend_from_slice(bytes);
            assert(out@ =~= compact_bytes(encode_utf8(s@).len()) + encode_utf8(s@));
            Ok(out)
        },
        ArgKind::Unsupported => Err(ArgFault::Unsupported),
    }
}

/// Why a list of arguments could not be encoded.
pub enum EncodeError {
    /// The number of arguments differs from the number of parameters.
    ArgumentCountMismatch { expected: usize, found: usize },
    /// An integer argument lies outside the range of its type.
    ArgumentOutOfRange { index: usize, label: String },
    /// An address argument is malformed.
    InvalidAddress { index: usize, label: String },
    /// An argument is not of the form its type asks for.
    InvalidArgument { index: usize, label: String },
    /// A parameter's type cannot be given as one string.
    UnsupportedArgument { index: usize, label: String },
}

/// The error for a fault of argument `index`, labelled `label`.
pub open spec fn fault_error(f: ArgFault, index: usize, label: String) -> EncodeError {
    match f {
        ArgFault::OutOfRange => EncodeError::ArgumentOutOfRange { index, label },
        ArgFault::BadAddress => EncodeError::InvalidAddress { index, label },
        ArgFault::Malformed => EncodeError::InvalidArgument { index, label },
        ArgFault::Unsupported => EncodeError::UnsupportedArgument { index, label },
    }
}

/// The kind of each parameter.
pub open spec fn param_kind(reg: Seq<TypeEntry>, p: ArgumentInfo) -> ArgKind {
    match p.type_id {
        Some(t) => arg_kind(reg, t, WRAPPER_DEPTH as nat),
        None => ArgKind::Unsupported,
    }
}

/// The first `n` arguments encoded in order and concatenated, or the first
/// argument that fails, with its fault.
pub open spec fn encode_prefix(
    args: Seq<String>,
    params: Seq<ArgumentInfo>,
    reg: Seq<TypeEntry>,
    n: int,
) -> Result<Seq<u8>, (int, ArgFault)>
    decreases n,
{
    if n <= 0 {
        Ok(Seq::empty())
    } else {
        match encode_prefix(args, params, reg, n - 1) {
            Err(e) => Err(e),
            Ok(prefix) => match encode_arg_spec(args[n - 1]@, param_kind(reg, params[n - 1])) {
                Ok(b) => Ok(prefix + b),
                Err(f) => Err((n - 1, f)),
            },
        }
    }
}

/// The arguments encoded in declared order: fails on the first argument that
/// cannot be encoded, and when the counts differ.
pub open spec fn encode_args_spec(args: Seq<String>, params: Seq<ArgumentInfo>, reg: Seq<TypeEntry>) -> Result<
    Seq<u8>,
    EncodeError,
> {
    if args.len() != params.len() {
        Err(EncodeError::ArgumentCountMismatch { expected: params.len() as usize, found: args.len() as usize })
    } else {
        match encode_prefix(args, params, reg, args.len() as int) {
            Ok(b) => Ok(b),
            Err((i, f)) => Err(fault_error(f, i as usize, params[i].label)),
        }
    }
}

/// Encode textual arguments by the declared parameter types, in order.
pub fn encode_args(args: &Vec<String>, params: &Vec<ArgumentInfo>, reg: &TypeRegistry) -> (r: Result<
    Vec<u8>,
    EncodeError,
>)
    ensures
        match (r, encode_args_spec(args@, params@, reg.entries@)) {
            (Ok(b), Ok(sb)) => b@ == sb,
            (Err(e), Err(se)) => e == se,
            _ => false,
        },
{
    if args.len() != params.len() {
        return Err(EncodeError::ArgumentCountMismatch { expected: params.len(), found: args.len() });
    }
    let mut out: Vec<u8> = Vec::new();
    let mut i: usize = 0;
    while i < args.len()
        invariant
            args.len() == params.len(),
            i <= args.len(),
            encode_prefix(args@, params@, reg.entries@, i as int) == Ok::<Seq<u8>, (int, ArgFault)>(out@),
        decreases args.len() - i,
    {
        let kind = match params[i].type_id {
            Some(t) => arg_kind_of(reg, t, WRAPPER_DEPTH),
            None => ArgKind::Unsupported,
        };
        proof {
            if params@[i as int].type_id is Some {
                lemma_kind_ok(reg.entries@, params@[i as int].type_id->Some_0, WRAPPER_DEPTH as nat);
            }
        }
        assert(kind == param_kind(reg.entries@, params@[i as int]));
        match encode_arg(args[i].as_str(), &kind) {
            Ok(b) => {
                let ghost prev = out@;
                out.extend_from_slice(b.as_slice());
                assert(out@ == prev + b@);
                i += 1;
            },
            Err(f) => {
                let label = params[i].label.clone();
                let e = match f {
                    ArgFault::OutOfRange => EncodeError::ArgumentOutOfRange { index: i, label },
                    ArgFault::BadAddress => EncodeError::InvalidAddress { index: i, label },
                    ArgFault::Malformed => EncodeError::InvalidArgument { index: i, label },
                    ArgFault::Unsupported => EncodeError::UnsupportedArgument { index: i, label },
                };
                proof {
                    let n = args@.len() as int;
                    lemma_encode_prefix_failed(args@, params@, reg.entries@, i as int + 1, n);
                }
                return Err(e);
            },
        }
    }
    Ok(out)
}

/// A failure among the first `m` arguments is the failure of all `n >= m`.
pub proof fn lemma_encode_prefix_failed(
    args: Seq<String>,
    params: Seq<ArgumentInfo>,
    reg: Seq<TypeEntry>,
    m: int,
    n: int,
)
    requires
        0 <= m <= n,
        encode_prefix(args, params, reg, m) is Err,
    ensures
        encode_prefix(args, params, reg, n) == encode_prefix(args, params, reg, m),
    decreases n - m,
{
    if n > m {
        lemma_encode_prefix_failed(args, params, reg, m, n - 1);
    }
}

/// Call data: the four selector bytes followed by the encoded arguments.
pub fn encode_call(selector: &Vec<u8>, args: &Vec<String>, params: &Vec<ArgumentInfo>, reg: &TypeRegistry) -> (r:
    Result<Vec<u8>, EncodeError>)
    ensures
        match (r, encode_args_spec(args@, params@, reg.entries@)) {
            (Ok(b), Ok(sb)) => b@ == selector@ + sb,
            (Err(e), Err(se)) => e == se,
            _ => false,
        },
{
    match encode_args(args, params, reg) {
        Ok(encoded) => {
            let mut out = selector.clone();
            out.extend_from_slice(encoded.as_slice());
            Ok(out)
        },
        Err(e) => Err(e),
    }
}

/// A negative number given for an unsigned parameter is out of range.
pub proof fn lemma_negative_unsigned(s: Seq<char>, w: usize)
    requires
        decimal_integer(s) matches Some(v) && v < 0,
    ensures
        encode_arg_spec(s, ArgKind::Unsigned(w)) == Err::<Seq<u8>, ArgFault>(ArgFault::OutOfRange),
        encode_arg_spec(s, ArgKind::CompactUnsigned) == Err::<Seq<u8>, ArgFault>(ArgFault::OutOfRange),
{
}

/// One argument that encodes to `b` gives call data of the selector followed
/// by `b`.
pub proof fn lemma_single_argument(args: Seq<String>, params: Seq<ArgumentInfo>, reg: Seq<TypeEntry>)
    requires
        args.len() == 1,
        params.len() == 1,
        encode_arg_spec(args[0]@, param_kind(reg, params[0])) is Ok,
    ensures
        encode_args_spec(args, params, reg) == Ok::<Seq<u8>, EncodeError>(
            encode_arg_spec(args[0]@, param_kind(reg, params[0]))->Ok_0,
        ),
{
    assert(encode_prefix(args, params, reg, 0) == Ok::<Seq<u8>, (int, ArgFault)>(Seq::empty()));
    let b = encode_arg_spec(args[0]@, param_kind(reg, params[0]))->Ok_0;
    assert(Seq::<u8>::empty() + b =~= b);
}

} // verus!
