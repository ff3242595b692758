//! The constructors and messages that a contract's metadata declares.
use vstd::prelude::*;
use crate::codec::{hex_bytes, hex_decode, is_hex};
use crate::json::{field, jarr, jbool, jfield, jstr, ju32, opt_deref, JsonValue};
use crate::text::str_eq;

verus! {

/// Why metadata could not be read, or a lookup failed.
pub enum MetadataError {
    /// A section or field that the format requires is missing or has the wrong shape.
    MalformedMetadata,
    /// No constructor or message has this label.
    NotFound { label: String },
    /// A default constructor was asked for, and there is not exactly one.
    AmbiguousConstructor { count: usize },
}

/// Information about a method or constructor argument.
pub struct ArgumentInfo {
    pub label: String,
    /// The registry type of the argument, where the metadata gives one.
    pub type_id: Option<u32>,
}

/// Information about a contract message (method).
pub struct MessageInfo {
    pub label: String,
    pub mutates: bool,
    pub args: Vec<ArgumentInfo>,
    /// The registry type of the returned value, where the metadata gives one.
    pub return_type: Option<u32>,
    /// The four selector bytes, where the metadata gives them.
    pub selector: Option<Vec<u8>>,
}

/// Information about a constructor.
pub struct ConstructorInfo {
    pub label: String,
    pub args: Vec<ArgumentInfo>,
    /// The four selector bytes, where the metadata gives them.
    pub selector: Option<Vec<u8>>,
}

/// The label and type id of each argument entry that has a string label, in order.
pub open spec fn labelled_args(a: Seq<JsonValue>, n: int) -> Seq<(String, Option<u32>)>
    decreases n,
{
    if n <= 0 {
        Seq::empty()
    } else {
        let prev = labelled_args(a, n - 1);
        match jstr(jfield(Some(a[n - 1]), "label"@)) {
            Some(l) => prev.push((l, ju32(jfield(jfield(Some(a[n - 1]), "type"@), "type"@)))),
            None => prev,
        }
    }
}

/// The arguments that an entry's `args` array declares.
pub open spec fn args_of(m: JsonValue) -> Seq<(String, Option<u32>)> {
    match jarr(jfield(Some(m), "args"@)) {
        Some(a) => labelled_args(a, a.len() as int),
        None => Seq::empty(),
    }
}

/// `out` holds the arguments `want`.
pub open spec fn args_match(out: Seq<ArgumentInfo>, want: Seq<(String, Option<u32>)>) -> bool {
    out.len() == want.len() && forall|i: int|
        0 <= i < want.len() ==> (#[trigger] out[i]).label == want[i].0 && out[i].type_id == want[i].1
}

/// The selector bytes that an entry gives as `0x` and eight hexadecimal digits.
pub open spec fn selector_of(m: JsonValue) -> Option<Seq<u8>> {
    match jstr(jfield(Some(m), "selector"@)) {
        Some(s) => {
            let d = s@.subrange(2, s@.len() as int);
            if s@.len() == 10 && s@[0] == '0' && s@[1] == 'x' && is_hex(d) {
                Some(hex_bytes(d))
            } else {
                None
            }
        },
        None => None,
    }
}

pub open spec fn opt_bytes(o: Option<Vec<u8>>) -> Option<Seq<u8>> {
    match o {
        Some(v) => Some(v@),
        None => None,
    }
}

/// `out` is the message that entry `m` describes.
pub open spec fn message_from(m: JsonValue, out: MessageInfo) -> bool {
    &&& out.label == jstr(jfield(Some(m), "label"@))->Some_0
    &&& out.mutates == match jbool(jfield(Some(m), "mutates"@)) {
        Some(b) => b,
        None => false,
    }
    &&& args_match(out.args@, args_of(m))
    &&& out.return_type == ju32(jfield(jfield(Some(m), "returnType"@), "type"@))
    &&& opt_bytes(out.selector) == selector_of(m)
}

/// `out` is the constructor that entry `c` describes.
pub open spec fn constructor_from(c: JsonValue, out: ConstructorInfo) -> bool {
    &&& out.label == jstr(jfield(Some(c), "label"@))->Some_0
    &&& args_match(out.args@, args_of(c))
    &&& opt_bytes(out.selector) == selector_of(c)
}

/// Every entry of the list has a string label.
pub open spec fn all_labelled(a: Seq<JsonValue>) -> bool {
    forall|i: int| 0 <= i < a.len() ==> (#[trigger] jstr(jfield(Some(a[i]), "label"@))) is Some
}

/// The entries of `spec.<section>` in a metadata document.
pub open spec fn section(abi: JsonValue, name: Seq<char>) -> Option<Seq<JsonValue>> {
    jarr(jfield(jfield(Some(abi), "spec"@), name))
}

/// The arguments of an entry.
fn parse_args(m: &JsonValue) -> (r: Vec<ArgumentInfo>)
    ensures
        args_match(r@, args_of(*m)),
{
    let a = match m.get("args") {
        Some(x) => match x.as_array() {
            Some(a) => a,
            None => {
                return Vec::new();
            },
        },
        None => {
            return Vec::new();
        },
    };
    let mut out: Vec<ArgumentInfo> = Vec::new();
    let mut i: usize = 0;
    while i < a.len()
        invariant
            i <= a.len(),
            args_match(out@, labelled_args(a@, i as int)),
        decreases a.len() - i,
    {
        match a[i].get("label") {
            Some(l) => match l.as_str() {
                Some(label) => {
                    let type_id = match field(a[i].get("type"), "type") {
                        Some(t) => t.as_u32(),
                        None => None,
                    };
                    let ghost prev = out@;
                    out.push(ArgumentInfo { label: label.clone(), type_id });
                    assert(forall|j: int| 0 <= j < prev.len() ==> out@[j] == prev[j]);
                },
                None => {},
            },
            None => {},
        }
        i += 1;
    }
    out
}

/// The selector of an entry.
fn parse_selector(m: &JsonValue) -> (r: Option<Vec<u8>>)
    ensures
        opt_bytes(r) == selector_of(*m),
{
    let s = match m.get("selector") {
        Some(x) => match x.as_str() {
            Some(s) => s,
            None => {
                return None;
            },
        },
        None => {
            return None;
        },
    };
    let n = s.unicode_len();
    if n != 10 || s.get_char(0) != '0' || s.get_char(1) != 'x' {
        return None;
    }
    let digits = s.as_str().substring_char(2, n);
    match hex_decode(digits) {
        Ok(b) => Some(b),
        Err(_) => None,
    }
}

/// Extract the contract name from metadata.
pub fn extract_contract_name(abi: &JsonValue) -> (r: Result<String, MetadataError>)
    ensures
        match jstr(jfield(jfield(Some(*abi), "contract"@), "name"@)) {
            Some(s) => r == Ok::<String, MetadataError>(s),
            None => r == Err::<String, MetadataError>(MetadataError::MalformedMetadata),
        },
{
    match field(abi.get("contract"), "name") {
        Some(n) => match n.as_str() {
            Some(s) => Ok(s.clone()),
            None => Err(MetadataError::MalformedMetadata),
        },
        None => Err(MetadataError::MalformedMetadata),
    }
}

/// Extract the contract version: the top-level `version`, else the one under
/// `contract`.
pub fn extract_contract_version(abi: &JsonValue) -> (r: Option<String>)
    ensures
        r == match jstr(jfield(Some(*abi), "version"@)) {
            Some(s) => Some(s),
            None => jstr(jfield(jfield(Some(*abi), "contract"@), "version"@)),
        },
{
    match abi.get("version") {
        Some(v) => match v.as_str() {
            Some(s) => {
                return Some(s.clone());
            },
            None => {},
        },
        None => {},
    }
    match field(abi.get("contract"), "version") {
        Some(v) => match v.as_str() {
            Some(s) => Some(s.clone()),
            None => None,
        },
        None => None,
    }
}

/// The entries of `spec.<name>`.
fn section_entries<'a>(abi: &'a JsonValue, name: &str) -> (r: Option<&'a Vec<JsonValue>>)
    ensures
        r.is_some() == section(*abi, name@).is_some(),
        r.is_some() ==> r.unwrap()@ == section(*abi, name@).unwrap(),
{
    match field(abi.get("spec"), name) {
        Some(m) => m.as_array(),
        None => None,
    }
}

/// Extract all message definitions from metadata.
pub fn extract_messages(abi: &JsonValue) -> (r: Result<Vec<MessageInfo>, MetadataError>)
    ensures
        r is Ok <==> (section(*abi, "messages"@) is Some && all_labelled(section(*abi, "messages"@)->Some_0)),
        r matches Err(e) ==> e == MetadataError::MalformedMetadata,
        r matches Ok(out) ==> {
            let a = section(*abi, "messages"@)->Some_0;
            &&& out@.len() == a.len()
            &&& forall|i: int| 0 <= i < a.len() ==> message_from(#[trigger] a[i], out@[i])
        },
{
    let a = match section_entries(abi, "messages") {
        Some(a) => a,
        None => {
            return Err(MetadataError::MalformedMetadata);
        },
    };
    let mut out: Vec<MessageInfo> = Vec::new();
    let mut i: usize = 0;
    while i < a.len()
        invariant
            section(*abi, "messages"@) == Some(a@),
            i <= a.len(),
            out@.len() == i,
            forall|j: int| 0 <= j < i ==> (#[trigger] jstr(jfield(Some(a@[j]), "label"@))) is Some,
            forall|j: int| 0 <= j < i ==> message_from(#[trigger] a@[j], out@[j]),
        decreases a.len() - i,
    {
        let m = &a[i];
        let label = match m.get("label") {
            Some(l) => match l.as_str() {
                Some(s) => s.clone(),
                None => {
                    assert(jstr(jfield(Some(a@[i as int]), "label"@)) is None);
                    return Err(MetadataError::MalformedMetadata);
                },
            },
            None => {
                assert(jstr(jfield(Some(a@[i as int]), "label"@)) is None);
                return Err(MetadataError::MalformedMetadata);
            },
        };
        let mutates = match m.get("mutates") {
            Some(b) => match b.as_bool() {
                Some(b) => b,
                None => false,
            },
            None => false,
        };
        let return_type = match field(m.get("returnType"), "type") {
            Some(t) => t.as_u32(),
            None => None,
        };
        let info = MessageInfo {
            label,
            mutates,
            args: parse_args(m),
            return_type,
            selector: parse_selector(m),
        };
        out.push(info);
        i += 1;
    }
    Ok(out)
}

/// Extract constructor definitions from metadata.
pub fn extract_constructors(abi: &JsonValue) -> (r: Result<Vec<ConstructorInfo>, MetadataError>)
    ensures
        r is Ok <==> (section(*abi, "constructors"@) is Some && all_labelled(section(*abi, "constructors"@)->Some_0)),
        r matches Err(e) ==> e == MetadataError::MalformedMetadata,
        r matches Ok(out) ==> {
            let a = section(*abi, "constructors"@)->Some_0;
            &&& out@.len() == a.len()
            &&& forall|i: int| 0 <= i < a.len() ==> constructor_from(#[trigger] a[i], out@[i])
        },
{
    let a = match section_entries(abi, "constructors") {
        Some(a) => a,
        None => {
            return Err(MetadataError::MalformedMetadata);
        },
    };
    let mut out: Vec<ConstructorInfo> = Vec::new();
    let mut i: usize = 0;
    while i < a.len()
        invariant
            section(*abi, "constructors"@) == Some(a@),
            i <= a.len(),
            out@.len() == i,
            forall|j: int| 0 <= j < i ==> (#[trigger] jstr(jfield(Some(a@[j]), "label"@))) is Some,
            forall|j: int| 0 <= j < i ==> constructor_from(#[trigger] a@[j], out@[j]),
        decreases a.len() - i,
    {
        let c = &a[i];
        let label = match c.get("label") {
            Some(l) => match l.as_str() {
                Some(s) => s.clone(),
                None => {
                    assert(jstr(jfield(Some(a@[i as int]), "label"@)) is None);
                    return Err(MetadataError::MalformedMetadata);
                },
            },
            None => {
                assert(jstr(jfield(Some(a@[i as int]), "label"@)) is None);
                return Err(MetadataError::MalformedMetadata);
            },
        };
        let info = ConstructorInfo { label, args: parse_args(c), selector: parse_selector(c) };
        out.push(info);
        i += 1;
    }
    Ok(out)
}

/// The index of the first label equal to `label`, or -1.
pub open spec fn first_label(labels: Seq<String>, label: Seq<char>, i: int) -> int
    decreases labels.len() - i,
{
    if i < 0 || i >= labels.len() {
        -1
    } else if labels[i]@ == label {
        i
    } else {
        first_label(labels, label, i + 1)
    }
}

pub open spec fn message_labels(ms: Seq<MessageInfo>) -> Seq<String> {
    ms.map_values(|m: MessageInfo| m.label)
}

pub open spec fn constructor_labels(cs: Seq<ConstructorInfo>) -> Seq<String> {
    cs.map_values(|c: ConstructorInfo| c.label)
}

pub proof fn lemma_first_label(labels: Seq<String>, label: Seq<char>, i: int)
    requires
        0 <= i <= labels.len(),
    ensures
        first_label(labels, label, i) == -1 || (i <= first_label(labels, label, i) < labels.len()
            && labels[first_label(labels, label, i)]@ == label),
        first_label(labels, label, i) == -1 ==> forall|j: int| i <= j < labels.len() ==> labels[j]@ != label,
    decreases labels.len() - i,
{
    if i < labels.len() {
        lemma_first_label(labels, label, i + 1);
    }
}

/// The message labelled `label` (the first, if several are).
pub fn get_message_spec<'a>(messages: &'a Vec<MessageInfo>, label: &str) -> (r: Result<&'a MessageInfo, MetadataError>)
    ensures
        ({
            let k = first_label(message_labels(messages@), label@, 0);
            &&& r is Ok <==> k >= 0
            &&& r is Ok ==> *r->Ok_0 == messages@[k]
            &&& r is Err ==> r->Err_0 is NotFound && r->Err_0->NotFound_label@ == label@
        }),
{
    let ghost labels = message_labels(messages@);
    proof {
        lemma_first_label(labels, label@, 0);
    }
    let mut i: usize = 0;
    while i < messages.len()
        invariant
            labels == message_labels(messages@),
            i <= messages.len(),
            first_label(labels, label@, 0) == first_label(labels, label@, i as int),
        decreases messages.len() - i,
    {
        if str_eq(messages[i].label.as_str(), label) {
            assert(labels[i as int] == messages@[i as int].label);
            return Ok(&messages[i]);
        }
        assert(labels[i as int] == messages@[i as int].label);
        i += 1;
    }
    Err(MetadataError::NotFound { label: String::from_str(label) })
}

/// The constructor labelled `label` (the first, if several are).
pub fn get_constructor_spec<'a>(constructors: &'a Vec<ConstructorInfo>, label: &str) -> (r: Result<&'a ConstructorInfo, MetadataError>)
    ensures
        ({
            let k = first_label(constructor_labels(constructors@), label@, 0);
            &&& r is Ok <==> k >= 0
            &&& r is Ok ==> *r->Ok_0 == constructors@[k]
            &&& r is Err ==> r->Err_0 is NotFound && r->Err_0->NotFound_label@ == label@
        }),
{
    let ghost labels = constructor_labels(constructors@);
    proof {
        lemma_first_label(labels, label@, 0);
    }
    let mut i: usize = 0;
    while i < constructors.len()
        invariant
            labels == constructor_labels(constructors@),
            i <= constructors.len(),
            first_label(labels, label@, 0) == first_label(labels, label@, i as int),
        decreases constructors.len() - i,
    {
        if str_eq(constructors[i].label.as_str(), label) {
            assert(labels[i as int] == constructors@[i as int].label);
            return Ok(&constructors[i]);
        }
        assert(labels[i as int] == constructors@[i as int].label);
        i += 1;
    }
    Err(MetadataError::NotFound { label: String::from_str(label) })
}

/// The only constructor, when there is exactly one; with none or several
/// there is no default.
pub fn get_default_constructor(constructors: &Vec<ConstructorInfo>) -> (r: Result<&ConstructorInfo, MetadataError>)
    ensures
        constructors@.len() == 1 ==> r is Ok && *r->Ok_0 == constructors@[0],
        constructors@.len() != 1 ==> r is Err && r->Err_0 == (MetadataError::AmbiguousConstructor {
            count: constructors.len(),
        }),
{
    if constructors.len() == 1 {
        Ok(&constructors[0])
    } else {
        Err(MetadataError::AmbiguousConstructor { count: constructors.len() })
    }
}

} // verus!
