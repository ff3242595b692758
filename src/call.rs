//! Call data for constructors and messages, and the reading of call outcomes.
use vstd::prelude::*;
use crate::codec::{address_spec, encode_args_spec, encode_call, parse_address, EncodeError};
use crate::decode::{decode_at, decode_contract_exec_result, decode_result, exec_result_spec, value_models, DecodeError, Value, MAX_DEPTH};
use crate::metadata::{
    constructor_labels, first_label, get_constructor_spec, get_default_constructor, get_message_spec,
    message_labels, ConstructorInfo, MessageInfo, MetadataError,
};
use crate::registry::TypeRegistry;
use crate::wire::{compact_bytes, le_bytes, push_compact, push_le};

verus! {

/// Why call data could not be built, or an outcome read.
pub enum CallError {
    Metadata(MetadataError),
    Encode(EncodeError),
    /// The constructor or message has no selector in the metadata.
    MissingSelector,
    Decode(DecodeError),
}

/// Outcome of deploying a contract (upload and instantiate).
pub struct DeployResult {
    pub success: bool,
    pub contract_address: Option<String>,
    pub code_hash: Option<String>,
    pub tx_hash: Option<String>,
    pub block_hash: Option<String>,
    pub error: Option<String>,
}

/// Outcome of a state-changing call.
pub struct TxResult {
    pub success: bool,
    pub tx_hash: Option<String>,
    pub block_hash: Option<String>,
    pub error: Option<String>,
}

/// Outcome of a read-only query: the decoded returned value, if any.
pub struct QueryResult {
    pub success: bool,
    pub data: Option<Value>,
    pub error: Option<String>,
}

/// Outcome of uploading contract code.
pub struct UploadResult {
    pub success: bool,
    pub code_hash: Option<String>,
    pub tx_hash: Option<String>,
    pub block_hash: Option<String>,
    pub error: Option<String>,
}

/// Call data for the arguments of an entry with the given selector.
pub open spec fn call_data_spec(
    selector: Option<Vec<u8>>,
    args: Seq<String>,
    params: Seq<crate::metadata::ArgumentInfo>,
    reg: Seq<crate::registry::TypeEntry>,
) -> Result<Seq<u8>, CallError> {
    match selector {
        None => Err(CallError::MissingSelector),
        Some(sel) => match encode_args_spec(args, params, reg) {
            Ok(b) => Ok(sel@ + b),
            Err(e) => Err(CallError::Encode(e)),
        },
    }
}

/// Whether an exec result of call data matches a spec result.
pub open spec fn bytes_result(r: Result<Vec<u8>, CallError>, s: Result<Seq<u8>, CallError>) -> bool {
    match (r, s) {
        (Ok(b), Ok(sb)) => b@ == sb,
        (Err(e), Err(se)) => e == se,
        _ => false,
    }
}

fn call_data(selector: &Option<Vec<u8>>, args: &Vec<String>, params: &Vec<crate::metadata::ArgumentInfo>, reg: &TypeRegistry) -> (r: Result<Vec<u8>, CallError>)
    ensures
        bytes_result(r, call_data_spec(*selector, args@, params@, reg.entries@)),
{
    match selector {
        None => Err(CallError::MissingSelector),
        Some(sel) => match encode_call(sel, args, params, reg) {
            Ok(b) => Ok(b),
            Err(e) => Err(CallError::Encode(e)),
        },
    }
}

/// Call data for message `method`: its selector and the encoded arguments.
pub fn encode_method_call(method: &str, args: &Vec<String>, messages: &Vec<MessageInfo>, reg: &TypeRegistry) -> (r: Result<Vec<u8>, CallError>)
    ensures
        ({
            let k = first_label(message_labels(messages@), method@, 0);
            if k < 0 {
                r matches Err(CallError::Metadata(MetadataError::NotFound { label })) && label@ == method@
            } else {
                bytes_result(r, call_data_spec(messages@[k].selector, args@, messages@[k].args@, reg.entries@))
            }
        }),
{
    match get_message_spec(messages, method) {
        Err(e) => Err(CallError::Metadata(e)),
        Ok(m) => call_data(&m.selector, args, &m.args, reg),
    }
}

/// Call data for a constructor: the one named, or the only one.
pub fn encode_constructor_call(
    args: &Vec<String>,
    constructors: &Vec<ConstructorInfo>,
    constructor_name: Option<&str>,
    reg: &TypeRegistry,
) -> (r: Result<Vec<u8>, CallError>)
    ensures
        match constructor_name {
            Some(name) => {
                let k = first_label(constructor_labels(constructors@), name@, 0);
                if k < 0 {
                    r matches Err(CallError::Metadata(MetadataError::NotFound { label })) && label@ == name@
                } else {
                    bytes_result(r, call_data_spec(constructors@[k].selector, args@, constructors@[k].args@, reg.entries@))
                }
            },
            None => if constructors@.len() == 1 {
                bytes_result(r, call_data_spec(constructors@[0].selector, args@, constructors@[0].args@, reg.entries@))
            } else {
                r == Err::<Vec<u8>, CallError>(
                    CallError::Metadata(MetadataError::AmbiguousConstructor { count: constructors.len() }),
                )
            },
        },
{
    let c = match constructor_name {
        Some(name) => get_constructor_spec(constructors, name),
        None => get_default_constructor(constructors),
    };
    match c {
        Err(e) => Err(CallError::Metadata(e)),
        Ok(c) => call_data(&c.selector, args, &c.args, reg),
    }
}

/// Parse an account id written as `0x` and 64 hexadecimal digits, or as SS58 text.
pub fn parse_account_id(address: &str) -> (r: Option<Vec<u8>>)
    ensures
        match (r, address_spec(address@)) {
            (Some(b), Some(sb)) => b@ == sb,
            (None, None) => true,
            _ => false,
        },
{
    parse_address(address)
}

/// Read the outcome of a dry-run call of a message whose result has type
/// `return_type`: the node's envelope, then the returned bytes.
pub fn interpret_query(bytes: &Vec<u8>, return_type: Option<u32>, reg: &TypeRegistry) -> (r: Result<QueryResult, CallError>)
    ensures
        match exec_result_spec(bytes@) {
            Err(e) => r == Err::<QueryResult, CallError>(CallError::Decode(e)),
            Ok((ok, data)) => match (data, return_type) {
                (Some(d), Some(t)) => match decode_at(reg.entries@, t, d, 0, MAX_DEPTH as nat) {
                    Ok((m, _)) => r is Ok && r->Ok_0.success == ok && r->Ok_0.data is Some && value_models(r->Ok_0.data->Some_0, m),
                    Err(e) => r == Err::<QueryResult, CallError>(CallError::Decode(e)),
                },
                _ => r is Ok && r->Ok_0.success == ok && r->Ok_0.data is None,
            },
        },
{
    let outcome = match decode_contract_exec_result(bytes.as_slice()) {
        Ok(o) => o,
        Err(e) => {
            return Err(CallError::Decode(e));
        },
    };
    let data = match (&outcome.data, return_type) {
        (Some(d), Some(t)) => match decode_result(d, t, reg) {
            Ok((v, _)) => Some(v),
            Err(e) => {
                return Err(CallError::Decode(e));
            },
        },
        _ => None,
    };
    Ok(QueryResult { success: outcome.success, data, error: outcome.error })
}

/// A byte string in the wire format: its compact length, then the bytes.
pub open spec fn length_prefixed(b: Seq<u8>) -> Seq<u8> {
    compact_bytes(b.len()) + b
}

/// The parameters of a dry-run call as the node expects them: origin and
/// destination accounts, a zero value, no gas limit, no storage deposit limit,
/// and the call data.
pub open spec fn query_params_spec(origin: Seq<u8>, dest: Seq<u8>, data: Seq<u8>) -> Seq<u8> {
    length_prefixed(origin) + length_prefixed(dest) + le_bytes(0, 16) + seq![0u8] + seq![0u8] + length_prefixed(data)
}

fn push_prefixed(out: &mut Vec<u8>, b: &Vec<u8>)
    ensures
        final(out)@ == old(out)@ + length_prefixed(b@),
{
    push_compact(out, b.len() as u128);
    out.extend_from_slice(b.as_slice());
    assert(final(out)@ =~= old(out)@ + length_prefixed(b@));
}

/// Encode the parameters of a dry-run call.
pub fn encode_query_params(origin: &Vec<u8>, dest: &Vec<u8>, data: &Vec<u8>) -> (r: Vec<u8>)
    ensures
        r@ == query_params_spec(origin@, dest@, data@),
{
    let mut out: Vec<u8> = Vec::new();
    push_prefixed(&mut out, origin);
    push_prefixed(&mut out, dest);
    push_le(&mut out, 0, 16);
    out.push(0);
    out.push(0);
    push_prefixed(&mut out, data);
    assert(out@ =~= query_params_spec(origin@, dest@, data@));
    out
}

/// A message with one `u128` parameter, called with a decimal number below
/// 2^128, gets call data of its selector followed by the number's 16
/// little-endian bytes.
pub proof fn lemma_u128_call_data(
    sel: Vec<u8>,
    args: Seq<String>,
    params: Seq<crate::metadata::ArgumentInfo>,
    reg: Seq<crate::registry::TypeEntry>,
    t: u32,
)
    requires
        args.len() == 1,
        params.len() == 1,
        params[0].type_id == Some(t),
        crate::decode::plain_primitive(reg, t, "u128"@),
        crate::codec::decimal_integer(args[0]@) is Some,
        0 <= crate::codec::decimal_integer(args[0]@)->Some_0 < crate::wire::byte_pow(16),
    ensures
        call_data_spec(Some(sel), args, params, reg) == Ok::<Seq<u8>, CallError>(
            sel@ + le_bytes(crate::codec::decimal_integer(args[0]@)->Some_0 as nat, 16),
        ),
{
    reveal_strlit("u8");
    reveal_strlit("u16");
    reveal_strlit("u32");
    reveal_strlit("u64");
    reveal_strlit("u128");
    reveal_strlit("i8");
    reveal_strlit("i16");
    reveal_strlit("i32");
    reveal_strlit("char");
    reveal_strlit("i64");
    assert("u128"@[0] == 'u' && "u128"@[1] == '1' && "u128"@[2] == '2');
    assert(crate::decode::int_width("u128"@) == 16);
    crate::decode::lemma_unsigned_round_trip(reg, t, "u128"@, args[0]@, 1);
    crate::codec::lemma_single_argument(args, params, reg);
}

} // verus!
