use glin_forge::call::{encode_method_call, interpret_query, parse_account_id, CallError};
use glin_forge::codec::{encode_args, parse_decimal, EncodeError};
use glin_forge::config::load_network;
use glin_forge::emit::MethodSignature;
use glin_forge::paths::{find_config_file, find_contract_artifacts, find_metadata_for_contract, ArtifactError};
use glin_forge::decode::{decode_contract_exec_result, decode_result, decode_result_exact, DecodeError, Value};
use glin_forge::format::{format_balance, format_number, format_with_commas, to_pascal_case, Frontend, ProjectType};
use glin_forge::json::JsonValue;
use glin_forge::metadata::{extract_messages, get_default_constructor, ArgumentInfo, ConstructorInfo, MetadataError};
use glin_forge::registry::TypeRegistry;
use glin_forge::resolver::{TypeResolver, TypeScriptType};
use glin_forge::wire::push_compact;
use parity_scale_codec::{Compact, Encode};

fn s(x: &str) -> JsonValue {
    JsonValue::Str(x.to_string())
}

fn n(x: u64) -> JsonValue {
    JsonValue::UInt(x)
}

fn arr(v: Vec<JsonValue>) -> JsonValue {
    JsonValue::Array(v)
}

fn obj(members: Vec<(&str, JsonValue)>) -> JsonValue {
    JsonValue::Object(members.into_iter().map(|(k, v)| (k.to_string(), v)).collect())
}

fn entry(id: u64, ty: JsonValue) -> JsonValue {
    obj(vec![("id", n(id)), ("type", ty)])
}

fn prim(name: &str) -> JsonValue {
    obj(vec![("def", obj(vec![("primitive", s(name))]))])
}

fn field(name: Option<&str>, ty: u64) -> JsonValue {
    match name {
        Some(nm) => obj(vec![("name", s(nm)), ("type", n(ty))]),
        None => obj(vec![("type", n(ty))]),
    }
}

fn resolver(types: Vec<JsonValue>) -> TypeResolver {
    TypeResolver::new(&arr(types)).ok().expect("well-formed types")
}

fn registry(types: Vec<JsonValue>) -> TypeRegistry {
    TypeRegistry::from_json(&arr(types)).ok().expect("well-formed types")
}

fn option_types(with_params: bool) -> Vec<JsonValue> {
    let mut ty = vec![
        ("path", arr(vec![s("Option")])),
        (
            "def",
            obj(vec![(
                "variant",
                obj(vec![(
                    "variants",
                    arr(vec![
                        obj(vec![("name", s("None"))]),
                        obj(vec![("name", s("Some")), ("fields", arr(vec![field(None, 1)]))]),
                    ]),
                )]),
            )]),
        ),
    ];
    if with_params {
        ty.push(("params", arr(vec![obj(vec![("name", s("T")), ("type", n(1))])])));
    }
    vec![entry(0, obj(ty)), entry(1, prim("u32"))]
}

#[test]
fn option_u32_resolves_to_optional_number() {
    let mut r = resolver(option_types(true));
    let t = r.resolve_type(0);
    match &t {
        TypeScriptType::Optional(inner) => {
            assert!(matches!(inner.as_ref(), TypeScriptType::Primitive(p) if p == "number"))
        },
        _ => panic!("expected an optional type"),
    }
    assert_eq!(r.format_type(&t), "number | null");
}

#[test]
fn option_without_params_falls_back_to_alternation() {
    let mut r = resolver(option_types(false));
    let t = r.resolve_type(0);
    match &t {
        TypeScriptType::Or(types) => {
            assert_eq!(types.len(), 2);
            assert!(matches!(types[0], TypeScriptType::Any));
            assert!(matches!(&types[1], TypeScriptType::Primitive(p) if p == "null"));
        },
        _ => panic!("expected an alternation"),
    }
    assert_eq!(r.format_type(&t), "any | null");
}

#[test]
fn result_resolves_to_ok_err_union() {
    let types = vec![
        entry(
            0,
            obj(vec![
                ("path", arr(vec![s("Result")])),
                ("params", arr(vec![obj(vec![("type", n(1))]), obj(vec![("type", n(2))])])),
                ("def", obj(vec![("variant", obj(vec![("variants", arr(vec![]))]))])),
            ]),
        ),
        entry(1, prim("u32")),
        entry(2, prim("str")),
    ];
    let mut r = resolver(types);
    match r.resolve_type(0) {
        TypeScriptType::Union { name, variants, .. } => {
            assert_eq!(name, "Result");
            assert_eq!(variants.len(), 2);
            assert_eq!(variants[0].name, "Ok");
            assert_eq!(variants[1].name, "Err");
            assert_eq!(variants[0].fields[0].0.as_deref(), Some("value"));
            assert!(matches!(&variants[0].fields[0].1, TypeScriptType::Primitive(p) if p == "number"));
            assert_eq!(variants[1].fields[0].0.as_deref(), Some("error"));
            assert!(matches!(&variants[1].fields[0].1, TypeScriptType::Primitive(p) if p == "string"));
        },
        _ => panic!("expected a union"),
    }
}

#[test]
fn newtype_resolves_like_its_field() {
    let types = vec![
        entry(0, obj(vec![("def", obj(vec![("composite", obj(vec![("fields", arr(vec![field(None, 1)]))]))]))])),
        entry(1, prim("u128")),
    ];
    let mut r = resolver(types);
    let outer = r.resolve_type(0);
    let inner = r.resolve_type(1);
    assert_eq!(r.format_type(&outer), "string | number | bigint");
    assert_eq!(r.format_type(&outer), r.format_type(&inner));
    assert!(matches!(outer, TypeScriptType::Or(ref v) if v.len() == 3));
}

#[test]
fn mutually_recursive_structs_end_in_any() {
    let types = vec![
        entry(
            0,
            obj(vec![
                ("path", arr(vec![s("lib"), s("Node")])),
                ("def", obj(vec![("composite", obj(vec![("fields", arr(vec![field(Some("next"), 1)]))]))])),
            ]),
        ),
        entry(
            1,
            obj(vec![
                ("path", arr(vec![s("lib"), s("Link")])),
                ("def", obj(vec![("composite", obj(vec![("fields", arr(vec![field(Some("back"), 0)]))]))])),
            ]),
        ),
    ];
    let mut r = resolver(types);
    match r.resolve_type(0) {
        TypeScriptType::Interface { name, fields, .. } => {
            assert_eq!(name, "Node");
            assert_eq!(fields[0].0, "next");
            match fields[0].1.as_ref() {
                TypeScriptType::Interface { name, fields, .. } => {
                    assert_eq!(name, "Link");
                    assert_eq!(fields[0].0, "back");
                    assert!(matches!(fields[0].1.as_ref(), TypeScriptType::Any));
                },
                _ => panic!("expected the inner interface"),
            }
        },
        _ => panic!("expected an interface"),
    }
}

#[test]
fn small_primitive_resolves_the_same_twice() {
    let mut r = resolver(vec![entry(7, prim("u16")), entry(8, prim("bool"))]);
    let a = r.resolve_type(7);
    let b = r.resolve_type(7);
    assert_eq!(r.format_type(&a), "number");
    assert_eq!(r.format_type(&a), r.format_type(&b));
    let c = r.resolve_type(8);
    let d = r.resolve_type(8);
    assert_eq!(r.format_type(&c), "boolean");
    assert_eq!(r.format_type(&c), r.format_type(&d));
}

#[test]
fn byte_vectors_and_unit_and_synthetic_names() {
    let types = vec![
        entry(0, prim("u8")),
        entry(1, obj(vec![("def", obj(vec![("sequence", obj(vec![("type", n(0))]))]))])),
        entry(2, obj(vec![("def", obj(vec![("tuple", arr(vec![]))]))])),
        entry(3, obj(vec![("def", obj(vec![("composite", obj(vec![("fields", arr(vec![field(Some("a"), 0), field(Some("b"), 2)]))]))]))])),
        entry(4, obj(vec![("def", obj(vec![("array", obj(vec![("type", n(0)), ("len", n(32))]))]))])),
        entry(5, obj(vec![("def", obj(vec![("array", obj(vec![("type", n(0)), ("len", n(4))]))]))])),
    ];
    let mut r = resolver(types);
    let seq = r.resolve_type(1);
    assert_eq!(r.format_type(&seq), "Uint8Array | string");
    let unit = r.resolve_type(2);
    assert_eq!(r.format_type(&unit), "void");
    let st = r.resolve_type(3);
    assert_eq!(r.format_type(&st), "Struct2");
    let hash = r.resolve_type(4);
    assert_eq!(r.format_type(&hash), "Uint8Array | string");
    let small = r.resolve_type(5);
    assert_eq!(r.format_type(&small), "number[]");
    let missing = r.resolve_type(99);
    assert!(matches!(missing, TypeScriptType::Any));
}

#[test]
fn malformed_types_are_rejected() {
    assert!(matches!(TypeRegistry::from_json(&s("x")), Err(MetadataError::MalformedMetadata)));
    let no_id = arr(vec![obj(vec![("type", prim("u8"))])]);
    assert!(matches!(TypeRegistry::from_json(&no_id), Err(MetadataError::MalformedMetadata)));
    let big_id = arr(vec![entry(1 << 40, prim("u8"))]);
    assert!(matches!(TypeRegistry::from_json(&big_id), Err(MetadataError::MalformedMetadata)));
}

fn params(tys: &[(&str, u32)]) -> Vec<ArgumentInfo> {
    tys.iter().map(|(l, t)| ArgumentInfo { label: l.to_string(), type_id: Some(*t) }).collect()
}

fn int_registry() -> TypeRegistry {
    registry(vec![
        entry(0, prim("u128")),
        entry(1, prim("u32")),
        entry(2, prim("bool")),
        entry(3, obj(vec![("def", obj(vec![("compact", obj(vec![("type", n(0))]))]))])),
        entry(4, prim("i16")),
        entry(
            5,
            obj(vec![
                ("path", arr(vec![s("ink_primitives"), s("types"), s("AccountId")])),
                ("def", obj(vec![("composite", obj(vec![("fields", arr(vec![field(None, 6)]))]))])),
            ]),
        ),
        entry(6, obj(vec![("def", obj(vec![("array", obj(vec![("type", n(7)), ("len", n(32))]))]))])),
        entry(7, prim("u8")),
        entry(8, prim("u64")),
    ])
}

#[test]
fn u128_decimal_encodes_little_endian() {
    let reg = int_registry();
    let args = vec!["1000000000000000000".to_string()];
    let out = encode_args(&args, &params(&[("amount", 0)]), &reg).ok().unwrap();
    assert_eq!(out.len(), 16);
    assert_eq!(out, 1_000_000_000_000_000_000u128.encode());
}

#[test]
fn negative_for_unsigned_is_out_of_range() {
    let reg = int_registry();
    let args = vec!["-5".to_string()];
    match encode_args(&args, &params(&[("amount", 0)]), &reg) {
        Err(EncodeError::ArgumentOutOfRange { index, label }) => {
            assert_eq!(index, 0);
            assert_eq!(label, "amount");
        },
        _ => panic!("expected ArgumentOutOfRange"),
    }
}

#[test]
fn argument_errors_name_their_position() {
    let reg = int_registry();
    let p = params(&[("flag", 2), ("count", 1)]);
    let too_few = vec!["true".to_string()];
    assert!(matches!(
        encode_args(&too_few, &p, &reg),
        Err(EncodeError::ArgumentCountMismatch { expected: 2, found: 1 })
    ));
    let bad_bool = vec!["yes".to_string(), "1".to_string()];
    assert!(matches!(encode_args(&bad_bool, &p, &reg), Err(EncodeError::InvalidArgument { index: 0, .. })));
    let too_big = vec!["TRUE".to_string(), "4294967296".to_string()];
    assert!(matches!(encode_args(&too_big, &p, &reg), Err(EncodeError::ArgumentOutOfRange { index: 1, .. })));
    let ok = vec!["False".to_string(), "4294967295".to_string()];
    assert_eq!(encode_args(&ok, &p, &reg).ok().unwrap(), vec![0, 255, 255, 255, 255]);
}

#[test]
fn signed_compact_and_address_arguments() {
    let reg = int_registry();
    let p = params(&[("delta", 4), ("amount", 3), ("to", 5)]);
    let hex = format!("0x{}", "ab".repeat(32));
    let args = vec!["-2".to_string(), "1000000".to_string(), hex.clone()];
    let out = encode_args(&args, &p, &reg).ok().unwrap();
    let mut expected = (-2i16).encode();
    expected.extend(Compact(1_000_000u128).encode());
    expected.extend(vec![0xab; 32]);
    assert_eq!(out, expected);
    let bad = vec!["-2".to_string(), "1".to_string(), "0x1234".to_string()];
    assert!(matches!(encode_args(&bad, &p, &reg), Err(EncodeError::InvalidAddress { index: 2, .. })));
    let low = vec!["-32769".to_string(), "1".to_string(), hex];
    assert!(matches!(encode_args(&low, &p, &reg), Err(EncodeError::ArgumentOutOfRange { index: 0, .. })));
}

#[test]
fn compact_encoding_matches_scale() {
    for v in [0u128, 1, 63, 64, 16383, 16384, 1 << 30, (1 << 30) - 1, 1 << 40, u64::MAX as u128, u128::MAX] {
        let mut out = Vec::new();
        push_compact(&mut out, v);
        assert_eq!(out, Compact(v).encode(), "value {}", v);
    }
}

#[test]
fn decimal_parsing_edges() {
    assert!(matches!(parse_decimal("123"), Some((false, Some(123)))));
    assert!(matches!(parse_decimal("-7"), Some((true, Some(7)))));
    assert!(matches!(parse_decimal("400000000000000000000000000000000000000"), Some((false, None))));
    assert!(parse_decimal("").is_none());
    assert!(parse_decimal("-").is_none());
    assert!(parse_decimal("12a").is_none());
}

#[test]
fn truncated_return_value_fails() {
    let reg = int_registry();
    let bytes = vec![1u8, 2, 3];
    assert!(matches!(decode_result(&bytes, 1, &reg), Err(DecodeError::TruncatedInput { offset: 0 })));
}

#[test]
fn integers_and_booleans_round_trip() {
    let reg = int_registry();
    let p = params(&[("a", 8), ("b", 2), ("c", 4)]);
    let args = vec!["18446744073709551615".to_string(), "true".to_string(), "-300".to_string()];
    let out = encode_args(&args, &p, &reg).ok().unwrap();
    let (a, rest) = decode_result(&out, 8, &reg).ok().unwrap();
    assert!(matches!(a, Value::Unsigned(18446744073709551615)));
    assert_eq!(rest, 3);
    let tail = out[8..].to_vec();
    let (b, rest) = decode_result(&tail, 2, &reg).ok().unwrap();
    assert!(matches!(b, Value::Bool(true)));
    assert_eq!(rest, 2);
    let last = out[9..].to_vec();
    assert!(matches!(decode_result_exact(&last, 4, &reg), Ok(Value::Signed(-300))));
    let extra = vec![1u8, 0];
    assert!(matches!(decode_result_exact(&extra, 2, &reg), Err(DecodeError::TrailingBytes { offset: 1 })));
}

#[test]
fn sequences_and_enums_decode() {
    let reg = registry(vec![
        entry(0, prim("u8")),
        entry(1, obj(vec![("def", obj(vec![("sequence", obj(vec![("type", n(0))]))]))])),
        entry(
            2,
            obj(vec![(
                "def",
                obj(vec![(
                    "variant",
                    obj(vec![(
                        "variants",
                        arr(vec![
                            obj(vec![("name", s("Off"))]),
                            obj(vec![("name", s("On")), ("fields", arr(vec![field(None, 0)]))]),
                        ]),
                    )]),
                )]),
            )]),
        ),
        entry(3, prim("str")),
    ]);
    let v = vec![1u8, 2, 3].encode();
    match decode_result_exact(&v, 1, &reg) {
        Ok(Value::Sequence(items)) => {
            assert_eq!(items.len(), 3);
            assert!(matches!(items[2], Value::Unsigned(3)));
        },
        _ => panic!("expected a sequence"),
    }
    match decode_result_exact(&vec![1u8, 9], 2, &reg) {
        Ok(Value::Variant { index, name, fields }) => {
            assert_eq!(index, 1);
            assert_eq!(name, "On");
            assert!(matches!(fields[0], Value::Unsigned(9)));
        },
        _ => panic!("expected a variant"),
    }
    assert!(matches!(decode_result(&vec![5u8], 2, &reg), Err(DecodeError::InvalidValue { offset: 0 })));
    let text = "hi".to_string().encode();
    assert!(matches!(decode_result_exact(&text, 3, &reg), Ok(Value::Bytes(ref b)) if b == b"hi"));
    let short = vec![8u8, 1];
    assert!(matches!(decode_result(&short, 1, &reg), Err(DecodeError::TruncatedInput { offset: 2 })));
}

fn exec_result(ok: bool, data: &[u8]) -> Vec<u8> {
    let mut b = Vec::new();
    for w in [1u64, 2, 3, 4] {
        b.extend(w.encode());
    }
    b.push(1);
    b.extend(7u128.encode());
    b.extend(b"dbg".to_vec().encode());
    if ok {
        b.push(0);
        b.extend(0u32.encode());
        b.extend(data.to_vec().encode());
    } else {
        b.push(1);
    }
    b
}

#[test]
fn exec_result_envelope_decodes() {
    let ok = decode_contract_exec_result(&exec_result(true, &[42, 0, 0, 0])).ok().unwrap();
    assert!(ok.success);
    assert_eq!(ok.data, Some(vec![42, 0, 0, 0]));
    assert!(ok.error.is_none());
    let failed = decode_contract_exec_result(&exec_result(false, &[])).ok().unwrap();
    assert!(!failed.success);
    assert!(failed.data.is_none());
    assert_eq!(failed.error.as_deref(), Some("Contract execution failed"));
    assert!(matches!(decode_contract_exec_result(&[0u8; 20]), Err(DecodeError::TruncatedInput { offset: 16 })));
    let reg = int_registry();
    let q = interpret_query(&exec_result(true, &[42, 0, 0, 0]), Some(1), &reg).ok().unwrap();
    assert!(q.success);
    assert!(matches!(q.data, Some(Value::Unsigned(42))));
}

#[test]
fn method_call_starts_with_selector() {
    let abi = obj(vec![(
        "spec",
        obj(vec![(
            "messages",
            arr(vec![obj(vec![
                ("label", s("transfer")),
                ("selector", s("0x84a15da1")),
                (
                    "args",
                    arr(vec![obj(vec![("label", s("value")), ("type", obj(vec![("type", n(1))]))])]),
                ),
            ])]),
        )]),
    )]);
    let messages = extract_messages(&abi).ok().unwrap();
    let reg = int_registry();
    let data = encode_method_call("transfer", &vec!["7".to_string()], &messages, &reg).ok().unwrap();
    assert_eq!(data, vec![0x84, 0xa1, 0x5d, 0xa1, 7, 0, 0, 0]);
    match encode_method_call("nope", &vec![], &messages, &reg) {
        Err(CallError::Metadata(MetadataError::NotFound { label })) => assert_eq!(label, "nope"),
        _ => panic!("expected NotFound"),
    }
}

#[test]
fn default_constructor_needs_exactly_one() {
    let c = |l: &str| ConstructorInfo { label: l.to_string(), args: Vec::new(), selector: None };
    assert!(matches!(get_default_constructor(&vec![c("new")]), Ok(x) if x.label == "new"));
    assert!(matches!(
        get_default_constructor(&vec![c("new"), c("default")]),
        Err(MetadataError::AmbiguousConstructor { count: 2 })
    ));
    assert!(matches!(get_default_constructor(&vec![]), Err(MetadataError::AmbiguousConstructor { count: 0 })));
}

#[test]
fn account_ids_from_hex() {
    let id = parse_account_id(&format!("0x{}", "0f".repeat(32))).unwrap();
    assert_eq!(id, vec![0x0f; 32]);
    assert!(parse_account_id("0x1234").is_none());
    assert!(parse_account_id(&format!("0x{}", "zz".repeat(32))).is_none());
    let alice = parse_account_id("5GrwvaEF5zXb26Fz9rcQpDWS57CtERHpNehXCPcNoHGKutQY").unwrap();
    assert_eq!(hex::encode(&alice), "d43593c715fdd31c61141abd04a99fd6822c8558854ccde39a5684e7a56da27d");
    assert!(parse_account_id("5GrwvaEF5zXb26Fz9rcQpDWS57CtERHpNehXCPcNoHGKutQZ").is_none());
    assert!(parse_account_id("not an address").is_none());
}

#[test]
fn ss58_address_argument_encodes_account_bytes() {
    let reg = int_registry();
    let p = params(&[("to", 5)]);
    let args = vec!["5GrwvaEF5zXb26Fz9rcQpDWS57CtERHpNehXCPcNoHGKutQY".to_string()];
    let out = encode_args(&args, &p, &reg).ok().unwrap();
    assert_eq!(hex::encode(out), "d43593c715fdd31c61141abd04a99fd6822c8558854ccde39a5684e7a56da27d");
}

#[test]
fn numbers_and_names_render() {
    assert_eq!(format_with_commas(1234567), "1,234,567");
    assert_eq!(format_with_commas(999), "999");
    assert_eq!(format_number(0), "0");
    assert_eq!(format_number(1000), "1,000");
    assert_eq!(format_balance(1_234_567_800_000_000_000_000), "1,234.5678");
    assert_eq!(format_balance(5), "0.0000");
    assert_eq!(to_pascal_case("my-cool-contract"), "MyCoolContract");
    assert_eq!(to_pascal_case("ßeta--x"), "SSetaX");
    assert_eq!(ProjectType::Fullstack.as_str(), "fullstack");
    assert_eq!(Frontend::NextJs.as_str(), "nextjs");
}

#[test]
fn builtin_networks() {
    assert_eq!(load_network("testnet").unwrap().rpc, "wss://testnet.glin.network");
    assert_eq!(load_network("local").unwrap().rpc, "ws://localhost:9944");
    assert!(load_network("elsewhere").is_none());
}

#[test]
fn declarations_render() {
    let types = vec![
        entry(
            0,
            obj(vec![
                ("path", arr(vec![s("lib"), s("Point")])),
                ("def", obj(vec![("composite", obj(vec![("fields", arr(vec![field(Some("x"), 1), field(Some("y"), 2)]))]))])),
            ]),
        ),
        entry(1, prim("u32")),
        entry(2, prim("bool")),
        entry(
            3,
            obj(vec![
                ("path", arr(vec![s("Result")])),
                ("params", arr(vec![obj(vec![("type", n(1))]), obj(vec![("type", n(2))])])),
                ("def", obj(vec![("variant", obj(vec![("variants", arr(vec![]))]))])),
            ]),
        ),
    ];
    let mut r = resolver(types);
    let point = r.resolve_type(0);
    assert_eq!(
        r.render_declaration(&point).unwrap(),
        "export interface Point {\n  x: number;\n  y: boolean;\n}\n"
    );
    let result = r.resolve_type(3);
    assert_eq!(
        r.render_declaration(&result).unwrap(),
        "export type Result =\n  | { type: \"Ok\"; value: number }\n  | { type: \"Err\"; error: boolean }\n  ;\n"
    );
    assert!(r.render_declaration(&TypeScriptType::Any).is_none());
    let methods = vec![
        MethodSignature {
            label: "move_to".to_string(),
            params: vec![("p".to_string(), point), ("fast".to_string(), TypeScriptType::Primitive("boolean".to_string()))],
            returns: result,
        },
        MethodSignature { label: "get".to_string(), params: vec![], returns: TypeScriptType::Primitive("void".to_string()) },
    ];
    assert_eq!(
        r.render_contract_interface("Mover", &methods),
        "export interface Mover {\n  move_to(p: Point, fast: boolean): Result;\n  get(): void;\n}\n"
    );
}

#[test]
fn query_params_match_scale_tuple() {
    let origin = vec![0u8; 32];
    let dest = vec![7u8; 32];
    let data = vec![0x84, 0xa1, 0x5d, 0xa1, 1, 2];
    let ours = glin_forge::call::encode_query_params(&origin, &dest, &data);
    let theirs = (origin.clone(), dest.clone(), 0u128, None::<u64>, None::<u128>, data.clone()).encode();
    assert_eq!(ours, theirs);
}

#[test]
fn string_arguments_round_trip() {
    let reg = registry(vec![entry(0, prim("str"))]);
    let args = vec!["héllo".to_string()];
    let out = encode_args(&args, &params(&[("greeting", 0)]), &reg).ok().unwrap();
    assert_eq!(out, "héllo".to_string().encode());
    assert!(matches!(decode_result_exact(&out, 0, &reg), Ok(Value::Bytes(ref b)) if b == "héllo".as_bytes()));
}

#[test]
fn gas_estimate_uses_default_limit() {
    let params = glin_forge::rpc::EstimateGasParams {
        address: "0x00".to_string(),
        method: "get".to_string(),
        args: vec![],
        value: 0,
        from: "alice".to_string(),
        network: "local".to_string(),
    };
    let r = glin_forge::rpc::handle_estimate_gas(params);
    assert!(r.success);
    assert_eq!(r.gas_limit, Some(100_000_000_000));
    assert_eq!(r.estimated_cost.as_deref(), Some("100000000000"));
    assert!(r.error.is_none());
}

#[test]
fn only_byte_elements_become_buffers() {
    let types = vec![
        entry(0, prim("u32")),
        entry(1, obj(vec![("def", obj(vec![("sequence", obj(vec![("type", n(0))]))]))])),
        entry(2, obj(vec![("def", obj(vec![("array", obj(vec![("type", n(0)), ("len", n(32))]))]))])),
        entry(3, prim("i8")),
        entry(4, obj(vec![("def", obj(vec![("sequence", obj(vec![("type", n(3))]))]))])),
    ];
    let mut r = resolver(types);
    let v = r.resolve_type(1);
    assert_eq!(r.format_type(&v), "number[]");
    let a = r.resolve_type(2);
    assert_eq!(r.format_type(&a), "number[]");
    let i = r.resolve_type(4);
    assert_eq!(r.format_type(&i), "number[]");
}

#[test]
fn malformed_definition_resolves_to_any() {
    let types = vec![
        entry(0, obj(vec![("def", obj(vec![("composite", obj(vec![]))]))])),
        entry(1, obj(vec![("def", obj(vec![("sequence", obj(vec![("type", n(0))]))]))])),
    ];
    let mut r = TypeResolver::new(&arr(types)).ok().expect("ids are well-formed");
    assert!(matches!(r.resolve_type(0), TypeScriptType::Any));
    let seq = r.resolve_type(1);
    assert_eq!(r.format_type(&seq), "any[]");
}

#[test]
fn zero_size_elements_and_compact_forms() {
    let reg = registry(vec![
        entry(0, obj(vec![("def", obj(vec![("tuple", arr(vec![]))]))])),
        entry(1, obj(vec![("def", obj(vec![("sequence", obj(vec![("type", n(0))]))]))])),
        entry(2, obj(vec![("def", obj(vec![("compact", obj(vec![("type", n(3))]))]))])),
        entry(3, prim("u32")),
    ]);
    match decode_result_exact(&vec![12u8], 1, &reg) {
        Ok(Value::Sequence(items)) => {
            assert_eq!(items.len(), 3);
            assert!(matches!(items[0], Value::Unit));
        },
        _ => panic!("expected three empty tuples"),
    }
    assert!(matches!(decode_result_exact(&vec![0x15u8, 0], 2, &reg), Err(DecodeError::InvalidCompact { offset: 0 })));
    assert!(matches!(decode_result_exact(&vec![0x14u8], 2, &reg), Ok(Value::Unsigned(5))));
}

#[test]
fn overlong_addresses_are_rejected() {
    assert!(parse_account_id(&"1".repeat(200)).is_none());
    assert!(parse_account_id(&"1".repeat(132)).is_none());
}

#[test]
fn candidate_files_pick_the_first_present() {
    assert_eq!(find_metadata_for_contract(&vec![false, true, true]).as_deref(), Some("contract.json"));
    assert!(find_metadata_for_contract(&vec![false, false, false]).is_none());
    assert!(find_metadata_for_contract(&vec![]).is_none());
    assert_eq!(find_config_file(&vec![false, false, true]).as_deref(), Some("glinforge.config.json"));
    let pair = ("a.wasm".to_string(), "a.json".to_string());
    assert!(matches!(find_contract_artifacts(None, false, None), Err(ArtifactError::NotBuilt)));
    assert!(matches!(find_contract_artifacts(None, true, None), Err(ArtifactError::NotFound)));
    assert_eq!(find_contract_artifacts(None, true, Some(pair.clone())).ok().unwrap(), pair);
}
