use glin_forge::config::{CompilerConfig, FileConfig, PathsConfig, TestConfig, TypeGenConfig};
use glin_forge::json::JsonValue;
use glin_forge::metadata::{extract_constructors, extract_contract_name, extract_contract_version, extract_messages};
use glin_forge::registry::TypeRegistry;
use glin_forge::resolver::{resolve_primitive, TypeResolver, TypeScriptType};

fn s(x: &str) -> JsonValue {
    JsonValue::Str(x.to_string())
}

fn obj(members: Vec<(&str, JsonValue)>) -> JsonValue {
    JsonValue::Object(members.into_iter().map(|(k, v)| (k.to_string(), v)).collect())
}

fn type_info(name: &str) -> JsonValue {
    obj(vec![("displayName", JsonValue::Array(vec![s(name)]))])
}

fn sample_abi() -> JsonValue {
    obj(vec![
        ("contract", obj(vec![("name", s("MyContract")), ("version", s("1.0.0"))])),
        (
            "spec",
            obj(vec![
                (
                    "constructors",
                    JsonValue::Array(vec![obj(vec![
                        ("label", s("new")),
                        (
                            "args",
                            JsonValue::Array(vec![obj(vec![
                                ("label", s("initial_value")),
                                ("type", type_info("u32")),
                            ])]),
                        ),
                    ])]),
                ),
                (
                    "messages",
                    JsonValue::Array(vec![
                        obj(vec![
                            ("label", s("get")),
                            ("mutates", JsonValue::Bool(false)),
                            ("args", JsonValue::Array(vec![])),
                            ("returnType", obj(vec![("type", type_info("u32"))])),
                        ]),
                        obj(vec![
                            ("label", s("set")),
                            ("mutates", JsonValue::Bool(true)),
                            (
                                "args",
                                JsonValue::Array(vec![obj(vec![
                                    ("label", s("value")),
                                    ("type", type_info("u32")),
                                ])]),
                            ),
                            ("returnType", JsonValue::Null),
                        ]),
                    ]),
                ),
            ]),
        ),
    ])
}

#[test]
fn test_extract_contract_name() {
    let abi = sample_abi();
    let name = extract_contract_name(&abi).ok().unwrap();
    assert_eq!(name, "MyContract");
}

#[test]
fn test_extract_contract_version() {
    let abi = sample_abi();
    let version = extract_contract_version(&abi);
    assert_eq!(version, Some("1.0.0".to_string()));
}

#[test]
fn test_extract_messages() {
    let abi = sample_abi();
    let messages = extract_messages(&abi).ok().unwrap();
    assert_eq!(messages.len(), 2);
    assert_eq!(messages[0].label, "get");
    assert_eq!(messages[0].mutates, false);
    assert_eq!(messages[1].label, "set");
    assert_eq!(messages[1].mutates, true);
}

#[test]
fn test_extract_constructors() {
    let abi = sample_abi();
    let constructors = extract_constructors(&abi).ok().unwrap();
    assert_eq!(constructors.len(), 1);
    assert_eq!(constructors[0].label, "new");
    assert_eq!(constructors[0].args.len(), 1);
}

fn is_primitive(t: &TypeScriptType, name: &str) -> bool {
    matches!(t, TypeScriptType::Primitive(p) if p == name)
}

#[test]
fn test_resolve_primitive_types() {
    assert!(is_primitive(&resolve_primitive("bool"), "boolean"));
    assert!(is_primitive(&resolve_primitive("u32"), "number"));
    match resolve_primitive("u128") {
        TypeScriptType::Or(types) => assert_eq!(types.len(), 3),
        _ => panic!("Expected Or type for u128"),
    }
}

#[test]
fn test_format_type() {
    let resolver = TypeResolver::from_registry(TypeRegistry { entries: Vec::new() });
    assert_eq!(resolver.format_type(&TypeScriptType::Primitive("boolean".to_string())), "boolean");
    assert_eq!(
        resolver.format_type(&TypeScriptType::Array(Box::new(TypeScriptType::Primitive("number".to_string())))),
        "number[]"
    );
    assert_eq!(
        resolver.format_type(&TypeScriptType::Optional(Box::new(TypeScriptType::Primitive("string".to_string())))),
        "string | null"
    );
}

#[test]
fn test_default_config() {
    let config = FileConfig {
        networks: Vec::new(),
        default_network: "testnet".to_string(),
        paths: PathsConfig::default(),
        compiler: CompilerConfig::default(),
        typegen: TypeGenConfig::default(),
        test: TestConfig::default(),
        deployments: Vec::new(),
        vars: Vec::new(),
    };
    assert_eq!(config.default_network, "testnet");
    assert_eq!(config.paths.contracts, "./contracts");
    assert!(config.compiler.optimize);
}
