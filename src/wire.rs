//! The binary wire format: fixed-width little-endian integers and the compact
//! variable-width integer encoding.
use vstd::prelude::*;

verus! {

/// The value of little-endian bytes.
pub open spec fn le_value(b: Seq<u8>) -> nat
    decreases b.len(),
{
    if b.len() == 0 {
        0
    } else {
        b[0] as nat + 256 * le_value(b.subrange(1, b.len() as int))
    }
}

/// `2` to the power `8 * k`.
pub open spec fn byte_pow(k: nat) -> nat
    decreases k,
{
    if k == 0 {
        1
    } else {
        256 * byte_pow((k - 1) as nat)
    }
}

/// The `k` little-endian bytes of `v` (taken modulo `256^k`).
pub open spec fn le_bytes(v: nat, k: nat) -> Seq<u8>
    decreases k,
{
    if k == 0 {
        Seq::empty()
    } else {
        seq![(v % 256) as u8] + le_bytes(v / 256, (k - 1) as nat)
    }
}

pub proof fn lemma_le_bytes_len(v: nat, k: nat)
    ensures
        le_bytes(v, k).len() == k,
    decreases k,
{
    if k > 0 {
        lemma_le_bytes_len(v / 256, (k - 1) as nat);
    }
}

/// Reading back `k` little-endian bytes of a value below `256^k` gives the value.
pub proof fn lemma_le_round_trip(v: nat, k: nat)
    requires
        v < byte_pow(k),
    ensures
        le_value(le_bytes(v, k)) == v,
    decreases k,
{
    lemma_le_bytes_len(v, k);
    if k > 0 {
        let rest = le_bytes(v / 256, (k - 1) as nat);
        assert(v / 256 < byte_pow((k - 1) as nat)) by (nonlinear_arith)
            requires
                v < 256 * byte_pow((k - 1) as nat),
        ;
        lemma_le_round_trip(v / 256, (k - 1) as nat);
        assert(le_bytes(v, k).subrange(1, k as int) =~= rest);
        assert(v == (v % 256) + 256 * (v / 256)) by (nonlinear_arith);
    }
}

/// The value of little-endian bytes is below `256^len`.
pub proof fn lemma_le_value_bound(b: Seq<u8>)
    ensures
        le_value(b) < byte_pow(b.len()),
    decreases b.len(),
{
    if b.len() > 0 {
        let rest = b.subrange(1, b.len() as int);
        lemma_le_value_bound(rest);
        let r = le_value(rest);
        let p = byte_pow(rest.len());
        assert(b[0] as nat + 256 * r < 256 * p) by (nonlinear_arith)
            requires
                r < p,
                b[0] < 256,
        ;
    }
}

pub proof fn lemma_byte_pow_values()
    ensures
        byte_pow(1) == 0x100,
        byte_pow(2) == 0x10000,
        byte_pow(4) == 0x1_0000_0000,
        byte_pow(8) == 0x1_0000_0000_0000_0000,
        byte_pow(16) == 0x1_0000_0000_0000_0000_0000_0000_0000_0000,
{
    reveal_with_fuel(byte_pow, 17);
}

/// The number of bytes needed for `v` in the big-integer mode of the compact
/// encoding (at least four).
pub open spec fn compact_big_len(v: nat) -> nat {
    if v < 0x1_0000_0000 {
        4
    } else if v < 0x100_0000_0000 {
        5
    } else if v < 0x1_0000_0000_0000 {
        6
    } else if v < 0x100_0000_0000_0000 {
        7
    } else if v < 0x1_0000_0000_0000_0000 {
        8
    } else if v < 0x100_0000_0000_0000_0000 {
        9
    } else if v < 0x1_0000_0000_0000_0000_0000 {
        10
    } else if v < 0x100_0000_0000_0000_0000_0000 {
        11
    } else if v < 0x1_0000_0000_0000_0000_0000_0000 {
        12
    } else if v < 0x100_0000_0000_0000_0000_0000_0000 {
        13
    } else if v < 0x1_0000_0000_0000_0000_0000_0000_0000 {
        14
    } else if v < 0x100_0000_0000_0000_0000_0000_0000_0000 {
        15
    } else {
        16
    }
}

/// The compact encoding of `v`, for `v < 2^128`.
pub open spec fn compact_bytes(v: nat) -> Seq<u8> {
    if v < 64 {
        seq![(v * 4) as u8]
    } else if v < 0x4000 {
        le_bytes(v * 4 + 1, 2)
    } else if v < 0x4000_0000 {
        le_bytes(v * 4 + 2, 4)
    } else {
        let k = compact_big_len(v);
        seq![(((k - 4) * 4) + 3) as u8] + le_bytes(v, k)
    }
}

/// Append the `k` little-endian bytes of `v`.
pub fn push_le(out: &mut Vec<u8>, v: u128, k: usize)
    ensures
        final(out)@ == old(out)@ + le_bytes(v as nat, k as nat),
{
    let mut x: u128 = v;
    let mut i: usize = 0;
    while i < k
        invariant
            i <= k,
            old(out)@ + le_bytes(v as nat, k as nat) == out@ + le_bytes(x as nat, (k - i) as nat),
        decreases k - i,
    {
        let ghost before = out@;
        let b = (x % 256) as u8;
        out.push(b);
        proof {
            let rest = le_bytes((x / 256) as nat, (k - i - 1) as nat);
            assert(le_bytes(x as nat, (k - i) as nat) == seq![b] + rest);
            assert(before + (seq![b] + rest) =~= out@ + rest);
        }
        x = x / 256;
        i += 1;
    }
    assert(out@ + le_bytes(x as nat, 0) =~= out@);
}

/// The bytes of `b` from `pos`, `k` of them.
pub open spec fn slice_at(b: Seq<u8>, pos: int, k: int) -> Seq<u8> {
    b.subrange(pos, pos + k)
}

/// Why reading the wire format stopped.
pub enum WireError {
    /// The bytes end before the value does.
    Truncated,
    /// A compact integer announces more than sixteen bytes.
    Oversized,
    /// A compact integer uses a longer form than its value needs.
    NonCanonical,
}

/// The compact integer at `pos` and the position after it. Each value has
/// one form: a longer form than the value needs is rejected.
pub open spec fn read_compact_spec(b: Seq<u8>, pos: int) -> Result<(nat, int), WireError> {
    if pos < 0 || pos >= b.len() {
        Err(WireError::Truncated)
    } else {
        let first = b[pos];
        let mode = first % 4;
        if mode == 0 {
            Ok(((first / 4) as nat, pos + 1))
        } else if mode == 1 {
            if pos + 2 > b.len() {
                Err(WireError::Truncated)
            } else {
                let x = le_value(slice_at(b, pos, 2)) / 4;
                if x >= 64 {
                    Ok((x, pos + 2))
                } else {
                    Err(WireError::NonCanonical)
                }
            }
        } else if mode == 2 {
            if pos + 4 > b.len() {
                Err(WireError::Truncated)
            } else {
                let x = le_value(slice_at(b, pos, 4)) / 4;
                if x >= 0x4000 {
                    Ok((x, pos + 4))
                } else {
                    Err(WireError::NonCanonical)
                }
            }
        } else {
            let k = (first / 4) as int + 4;
            if k > 16 {
                Err(WireError::Oversized)
            } else if pos + 1 + k > b.len() {
                Err(WireError::Truncated)
            } else {
                let x = le_value(slice_at(b, pos + 1, k));
                if (k == 4 && x >= 0x4000_0000) || (k > 4 && x >= byte_pow((k - 1) as nat)) {
                    Ok((x, pos + 1 + k))
                } else {
                    Err(WireError::NonCanonical)
                }
            }
        }
    }
}

pub proof fn lemma_compact_big_len(v: nat)
    requires
        0x4000_0000 <= v < 0x1_0000_0000_0000_0000_0000_0000_0000_0000,
    ensures
        4 <= compact_big_len(v) <= 16,
        v < byte_pow(compact_big_len(v)),
        compact_big_len(v) > 4 ==> v >= byte_pow((compact_big_len(v) - 1) as nat),
{
    reveal_with_fuel(byte_pow, 17);
}

/// Relies on parity-scale-codec's `Compact<u128>` encoding: one byte below
/// 2^6, two below 2^14, four below 2^30, else a length byte and the fewest
/// little-endian bytes (at least four).
#[verifier::external_body]
fn scale_compact_into(out: &mut Vec<u8>, v: u128)
    ensures
        final(out)@ == old(out)@ + compact_bytes(v as nat),
{
    parity_scale_codec::Encode::encode_to(&parity_scale_codec::Compact(v), out)
}

/// Append the compact encoding of `v`.
pub fn push_compact(out: &mut Vec<u8>, v: u128)
    ensures
        final(out)@ == old(out)@ + compact_bytes(v as nat),
{
    scale_compact_into(out, v)
}

/// The value of the `k` little-endian bytes of `b` at `pos`.
pub fn read_le(b: &[u8], pos: usize, k: usize) -> (r: u128)
    requires
        k <= 16,
        pos + k <= b@.len(),
    ensures
        r as nat == le_value(slice_at(b@, pos as int, k as int)),
{
    let mut r: u128 = 0;
    let mut i: usize = k;
    let n = b.len();
    proof {
        lemma_byte_pow_values();
    }
    while i > 0
        invariant
            n == b@.len(),
            k <= 16,
            pos + k <= b@.len(),
            i <= k,
            r as nat == le_value(slice_at(b@, pos + i, k - i)),
            (r as nat) < byte_pow((k - i) as nat),
            byte_pow(16) == 0x1_0000_0000_0000_0000_0000_0000_0000_0000,
        decreases i,
    {
        i -= 1;
        proof {
            let s = slice_at(b@, pos + i, k - i);
            assert(s.subrange(1, s.len() as int) =~= slice_at(b@, pos + i + 1, k - i - 1));
            lemma_byte_pow_le((k - i) as nat, 16);
            assert(byte_pow((k - i) as nat) == 256 * byte_pow((k - i - 1) as nat));
            assert((b@[pos + i] as nat) + 256 * (r as nat) < 256 * byte_pow((k - i - 1) as nat)
                + 256 * (r as nat) + 256) by (nonlinear_arith)
                requires
                    b@[pos + i] < 256,
            ;
            assert((r as nat) * 256 + (b@[pos + i] as nat) < byte_pow((k - i) as nat)) by (nonlinear_arith)
                requires
                    (r as nat) < byte_pow((k - i - 1) as nat),
                    byte_pow((k - i) as nat) == 256 * byte_pow((k - i - 1) as nat),
                    b@[pos + i] < 256,
            ;
        }
        let idx: usize = pos + i;
        r = r * 256 + b[idx] as u128;
    }
    r
}

pub proof fn lemma_byte_pow_le(a: nat, b: nat)
    requires
        a <= b,
    ensures
        byte_pow(a) <= byte_pow(b),
        byte_pow(a) >= 1,
    decreases b,
{
    if b > 0 {
        if a < b {
            lemma_byte_pow_le(a, (b - 1) as nat);
        } else {
            lemma_byte_pow_le((a - 1) as nat, (b - 1) as nat);
        }
    }
}

/// Relies on parity-scale-codec's `Compact<u128>` decoding: it reads the
/// compact integer at `pos` in its one canonical form, and reports how many
/// bytes are left after it.
#[verifier::external_body]
fn scale_compact_at(b: &[u8], pos: usize) -> (r: Option<(u128, usize)>)
    requires
        pos <= b@.len(),
    ensures
        match read_compact_spec(b@, pos as int) {
            Ok((v, p)) => r == Some((v as u128, (b@.len() - p) as usize)),
            Err(_) => r is None,
        },
{
    let mut input = &b[pos..];
    match <parity_scale_codec::Compact<u128> as parity_scale_codec::Decode>::decode(&mut input) {
        Ok(c) => Some((c.0, input.len())),
        Err(_) => None,
    }
}

/// The compact integer at `pos` and the position after it.
pub fn read_compact(b: &[u8], pos: usize) -> (r: Result<(u128, usize), WireError>)
    ensures
        match (r, read_compact_spec(b@, pos as int)) {
            (Ok((v, p)), Ok((sv, sp))) => v as nat == sv && p as int == sp,
            (Err(e), Err(se)) => e == se,
            _ => false,
        },
{
    if pos >= b.len() {
        return Err(WireError::Truncated);
    }
    proof {
        lemma_compact_value_bound(b@, pos as int);
    }
    match scale_compact_at(b, pos) {
        Some((v, rest)) => Ok((v, b.len() - rest)),
        None => {
            let first = b[pos];
            let mode = first % 4;
            let left = b.len() - pos;
            if mode == 1 {
                if left < 2 { Err(WireError::Truncated) } else { Err(WireError::NonCanonical) }
            } else if mode == 2 {
                if left < 4 { Err(WireError::Truncated) } else { Err(WireError::NonCanonical) }
            } else {
                let k = (first / 4) as usize + 4;
                if k > 16 {
                    Err(WireError::Oversized)
                } else if left - 1 < k {
                    Err(WireError::Truncated)
                } else {
                    Err(WireError::NonCanonical)
                }
            }
        },
    }
}

/// A compact integer that reads lies below `2^128` and ends within the bytes.
pub proof fn lemma_compact_value_bound(b: Seq<u8>, pos: int)
    ensures
        read_compact_spec(b, pos) matches Ok((v, p)) ==> v < 0x1_0000_0000_0000_0000_0000_0000_0000_0000
            && pos < p <= b.len(),
{
    lemma_byte_pow_values();
    if 0 <= pos < b.len() {
        let first = b[pos];
        if first % 4 == 1 && pos + 2 <= b.len() {
            lemma_le_value_bound(slice_at(b, pos, 2));
        } else if first % 4 == 2 && pos + 4 <= b.len() {
            lemma_le_value_bound(slice_at(b, pos, 4));
        } else if first % 4 == 3 {
            let k = (first / 4) as int + 4;
            if k <= 16 && pos + 1 + k <= b.len() {
                lemma_le_value_bound(slice_at(b, pos + 1, k));
                lemma_byte_pow_le(k as nat, 16);
            }
        }
    }
}

/// Reading back the compact encoding of `v` gives `v` and the position after it.
pub proof fn lemma_compact_round_trip(v: nat)
    requires
        v < 0x1_0000_0000_0000_0000_0000_0000_0000_0000,
    ensures
        read_compact_spec(compact_bytes(v), 0) == Ok::<(nat, int), WireError>((v, compact_bytes(v).len() as int)),
{
    lemma_byte_pow_values();
    let b = compact_bytes(v);
    if v < 64 {
        assert(b[0] == (v * 4) as u8);
        assert((v * 4) % 4 == 0 && (v * 4) / 4 == v);
    } else if v < 0x4000 {
        let x = v * 4 + 1;
        lemma_le_bytes_len(x, 2);
        lemma_le_round_trip(x, 2);
        assert(slice_at(b, 0, 2) =~= b);
        assert(b[0] == (x % 256) as u8);
        assert((x % 256) % 4 == 1) by (nonlinear_arith)
            requires
                x == v * 4 + 1,
        ;
        assert(x / 4 == v);
        assert(v >= 64);
    } else if v < 0x4000_0000 {
        let x = v * 4 + 2;
        lemma_le_bytes_len(x, 4);
        lemma_le_round_trip(x, 4);
        assert(slice_at(b, 0, 4) =~= b);
        assert(b[0] == (x % 256) as u8);
        assert((x % 256) % 4 == 2) by (nonlinear_arith)
            requires
                x == v * 4 + 2,
        ;
        assert(x / 4 == v);
    } else {
        let k = compact_big_len(v);
        lemma_compact_big_len(v);
        lemma_le_bytes_len(v, k);
        lemma_le_round_trip(v, k);
        assert(b[0] == (((k - 4) * 4) + 3) as u8);
        assert(slice_at(b, 1, k as int) =~= le_bytes(v, k));
    }
}

/// Bytes after a compact integer do not change how it reads.
pub proof fn lemma_compact_prefix(c: Seq<u8>, rest: Seq<u8>)
    requires
        read_compact_spec(c, 0) matches Ok((_, p)) && p == c.len(),
    ensures
        read_compact_spec(c + rest, 0) == read_compact_spec(c, 0),
{
    let b = c + rest;
    assert(b[0] == c[0]);
    let first = c[0];
    if first % 4 == 1 {
        assert(slice_at(b, 0, 2) =~= slice_at(c, 0, 2));
    } else if first % 4 == 2 {
        assert(slice_at(b, 0, 4) =~= slice_at(c, 0, 4));
    } else if first % 4 == 3 {
        let k = (first / 4) as int + 4;
        assert(slice_at(b, 1, k) =~= slice_at(c, 1, k));
    }
}

/// How a compact integer reads does not depend on the bytes before it.
pub proof fn lemma_compact_shift(pre: Seq<u8>, c: Seq<u8>)
    ensures
        match read_compact_spec(c, 0) {
            Ok((v, p)) => read_compact_spec(pre + c, pre.len() as int) == Ok::<(nat, int), WireError>((v, pre.len() as int + p)),
            Err(e) => read_compact_spec(pre + c, pre.len() as int) == Err::<(nat, int), WireError>(e),
        },
{
    let b = pre + c;
    let o = pre.len() as int;
    if c.len() > 0 {
        assert(b[o] == c[0]);
        let first = c[0];
        if first % 4 == 1 && c.len() >= 2 {
            assert(slice_at(b, o, 2) =~= slice_at(c, 0, 2));
        } else if first % 4 == 2 && c.len() >= 4 {
            assert(slice_at(b, o, 4) =~= slice_at(c, 0, 4));
        } else if first % 4 == 3 {
            let k = (first / 4) as int + 4;
            if k <= 16 && 1 + k <= c.len() {
                assert(slice_at(b, o + 1, k) =~= slice_at(c, 1, k));
            }
        }
    }
}

/// The compact encoding of `n`, with `pre` before it and `rest` after it,
/// reads as `n` and ends where the encoding does.
pub proof fn lemma_compact_within(pre: Seq<u8>, n: nat, rest: Seq<u8>)
    requires
        n < 0x1_0000_0000_0000_0000_0000_0000_0000_0000,
    ensures
        read_compact_spec(pre + (compact_bytes(n) + rest), pre.len() as int) == Ok::<(nat, int), WireError>(
            (n, (pre.len() + compact_bytes(n).len()) as int),
        ),
{
    let c = compact_bytes(n);
    lemma_compact_round_trip(n);
    lemma_compact_prefix(c, rest);
    lemma_compact_shift(pre, c + rest);
}

} // verus!
