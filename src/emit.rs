//! Rendering of resolved types into TypeScript declarations.
use vstd::prelude::*;
use crate::resolver::{format_of, TypeResolver, TypeScriptType};
use crate::text::push_char;

verus! {

/// The members of an interface, one per line: `  name: type;`.
pub open spec fn field_lines(fields: Seq<(String, Box<TypeScriptType>)>, n: int) -> Seq<char>
    decreases n,
{
    if n <= 0 {
        Seq::empty()
    } else {
        field_lines(fields, n - 1) + "  "@ + fields[n - 1].0@ + ": "@ + format_of(*fields[n - 1].1) + ";\n"@
    }
}

/// The fields of a union variant, each as `; name: type` (unnamed ones as
/// `; fieldN: type`).
pub open spec fn variant_fields_text(fields: Seq<(Option<String>, TypeScriptType)>, n: int) -> Seq<char>
    decreases n,
{
    if n <= 0 {
        Seq::empty()
    } else {
        let label = match fields[n - 1].0 {
            Some(l) => l@,
            None => "field"@ + crate::text::decimal((n - 1) as nat),
        };
        variant_fields_text(fields, n - 1) + "; "@ + label + ": "@ + format_of(fields[n - 1].1)
    }
}

/// The variants of a union, one per line: `  | { type: "Name"; field: type }`.
pub open spec fn variant_lines(vs: Seq<crate::resolver::UnionVariant>, n: int) -> Seq<char>
    decreases n,
{
    if n <= 0 {
        Seq::empty()
    } else {
        let v = vs[n - 1];
        variant_lines(vs, n - 1) + "  | { type: \""@ + v.name@ + "\""@ + variant_fields_text(
            v.fields@,
            v.fields@.len() as int,
        ) + " }\n"@
    }
}

/// The declaration of a named type: an interface for a struct, a tagged union
/// for an enum; other types declare nothing.
pub open spec fn declaration_of(t: TypeScriptType) -> Option<Seq<char>> {
    match t {
        TypeScriptType::Interface { name, fields, .. } => Some(
            "export interface "@ + name@ + " {\n"@ + field_lines(fields@, fields@.len() as int) + "}\n"@,
        ),
        TypeScriptType::Union { name, variants, .. } => Some(
            "export type "@ + name@ + " =\n"@ + variant_lines(variants@, variants@.len() as int) + "  ;\n"@,
        ),
        _ => None,
    }
}

impl TypeResolver {
    /// The declaration of a named type (interface or union), if `t` is one.
    pub fn render_declaration(&self, t: &TypeScriptType) -> (r: Option<String>)
        ensures
            match (r, declaration_of(*t)) {
                (Some(s), Some(d)) => s@ == d,
                (None, None) => true,
                _ => false,
            },
    {
        match t {
            TypeScriptType::Interface { name, fields, .. } => {
                let mut out = String::from_str("export interface ");
                out.append(name.as_str());
                out.append(" {\n");
                let ghost head = out@;
                let mut i: usize = 0;
                while i < fields.len()
                    invariant
                        i <= fields.len(),
                        out@ == head + field_lines(fields@, i as int),
                    decreases fields.len() - i,
                {
                    out.append("  ");
                    out.append(fields[i].0.as_str());
                    out.append(": ");
                    let ty = self.format_type(&fields[i].1);
                    out.append(ty.as_str());
                    out.append(";\n");
                    assert(out@ =~= head + field_lines(fields@, i + 1));
                    i += 1;
                }
                out.append("}\n");
                Some(out)
            },
            TypeScriptType::Union { name, variants, .. } => {
                let mut out = String::from_str("export type ");
                out.append(name.as_str());
                out.append(" =\n");
                let ghost head = out@;
                let mut i: usize = 0;
                while i < variants.len()
                    invariant
                        i <= variants.len(),
                        out@ == head + variant_lines(variants@, i as int),
                    decreases variants.len() - i,
                {
                    let v = &variants[i];
                    out.append("  | { type: \"");
                    out.append(v.name.as_str());
                    out.append("\"");
                    let ghost mid = out@;
                    let mut j: usize = 0;
                    while j < v.fields.len()
                        invariant
                            j <= v.fields.len(),
                            out@ == mid + variant_fields_text(v.fields@, j as int),
                        decreases v.fields.len() - j,
                    {
                        out.append("; ");
                        match &v.fields[j].0 {
                            Some(l) => out.append(l.as_str()),
                            None => {
                                out.append("field");
                                let d = crate::text::decimal_string(j as u128);
                                out.append(d.as_str());
                            },
                        }
                        out.append(": ");
                        let ty = self.format_type(&v.fields[j].1);
                        out.append(ty.as_str());
                        assert(out@ =~= mid + variant_fields_text(v.fields@, j + 1));
                        j += 1;
                    }
                    out.append(" }\n");
                    assert(out@ =~= head + variant_lines(variants@, i + 1));
                    i += 1;
                }
                out.append("  ;\n");
                Some(out)
            },
            _ => None,
        }
    }
}

/// A message as the grouping interface shows it: label, parameters and
/// return type.
pub struct MethodSignature {
    pub label: String,
    pub params: Vec<(String, TypeScriptType)>,
    pub returns: TypeScriptType,
}

/// The parameters of a method: `name: type`, separated by `, `.
pub open spec fn params_text(ps: Seq<(String, TypeScriptType)>, n: int) -> Seq<char>
    decreases n,
{
    if n <= 0 {
        Seq::empty()
    } else if n == 1 {
        ps[0].0@ + ": "@ + format_of(ps[0].1)
    } else {
        params_text(ps, n - 1) + ", "@ + ps[n - 1].0@ + ": "@ + format_of(ps[n - 1].1)
    }
}

/// The methods of a contract, one per line: `  label(params): returns;`.
pub open spec fn method_lines(ms: Seq<MethodSignature>, n: int) -> Seq<char>
    decreases n,
{
    if n <= 0 {
        Seq::empty()
    } else {
        let m = ms[n - 1];
        method_lines(ms, n - 1) + "  "@ + m.label@ + "("@ + params_text(m.params@, m.params@.len() as int) + "): "@
            + format_of(m.returns) + ";\n"@
    }
}

/// The grouping interface of a contract: one method per message.
pub open spec fn contract_interface_text(name: Seq<char>, ms: Seq<MethodSignature>) -> Seq<char> {
    "export interface "@ + name + " {\n"@ + method_lines(ms, ms.len() as int) + "}\n"@
}

impl TypeResolver {
    /// The grouping interface of a contract, with its messages as methods.
    pub fn render_contract_interface(&self, name: &str, methods: &Vec<MethodSignature>) -> (r: String)
        ensures
            r@ == contract_interface_text(name@, methods@),
    {
        let mut out = String::from_str("export interface ");
        out.append(name);
        out.append(" {\n");
        let ghost head = out@;
        let mut i: usize = 0;
        while i < methods.len()
            invariant
                i <= methods.len(),
                out@ == head + method_lines(methods@, i as int),
            decreases methods.len() - i,
        {
            let m = &methods[i];
            out.append("  ");
            out.append(m.label.as_str());
            out.append("(");
            let ghost mid = out@;
            let mut j: usize = 0;
            while j < m.params.len()
                invariant
                    j <= m.params.len(),
                    out@ == mid + params_text(m.params@, j as int),
                decreases m.params.len() - j,
            {
                if j > 0 {
                    out.append(", ");
                }
                out.append(m.params[j].0.as_str());
                out.append(": ");
                let ty = self.format_type(&m.params[j].1);
                out.append(ty.as_str());
                assert(out@ =~= mid + params_text(m.params@, j + 1));
                j += 1;
            }
            out.append("): ");
            let r = self.format_type(&m.returns);
            out.append(r.as_str());
            out.append(";\n");
            assert(out@ =~= head + method_lines(methods@, i + 1));
            i += 1;
        }
        out.append("}\n");
        out
    }
}

} // verus!
