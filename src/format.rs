//! Human-readable renderings of numbers and names.
use vstd::prelude::*;
use crate::text::{chars_of, decimal, decimal_string, digit_char, digit_of, push_char};

verus! {

/// The digits of `d` with a comma before each digit (but the first) that has a
/// multiple of three digits after it; the first `i` digits so rendered.
pub open spec fn grouped_prefix(d: Seq<char>, i: int) -> Seq<char>
    decreases i,
{
    if i <= 0 {
        Seq::empty()
    } else {
        let prev = grouped_prefix(d, i - 1);
        let sep = if i - 1 > 0 && (d.len() - (i - 1)) % 3 == 0 {
            seq![',']
        } else {
            Seq::empty()
        };
        prev + sep + seq![d[i - 1]]
    }
}

/// The digits of `d` grouped by thousands with commas.
pub open spec fn grouped(d: Seq<char>) -> Seq<char> {
    grouped_prefix(d, d.len() as int)
}

/// The characters of `s` grouped by thousands with commas.
fn group_digits(s: &str) -> (r: String)
    ensures
        r@ == grouped(s@),
{
    let d = chars_of(s);
    let n = d.len();
    let mut r = String::new();
    let mut i: usize = 0;
    while i < n
        invariant
            d@ == s@,
            n == d.len(),
            i <= n,
            r@ == grouped_prefix(s@, i as int),
        decreases n - i,
    {
        if i > 0 && (n - i) % 3 == 0 {
            push_char(&mut r, ',');
        }
        push_char(&mut r, d[i]);
        proof {
            let sep = if i > 0 && (n - i) % 3 == 0 {
                seq![',']
            } else {
                Seq::empty()
            };
            assert(r@ =~= grouped_prefix(s@, i as int) + sep + seq![s@[i as int]]);
        }
        i += 1;
    }
    r
}

/// Add commas to a large number.
pub fn format_with_commas(n: u128) -> (r: String)
    ensures
        r@ == grouped(decimal(n as nat)),
{
    let d = decimal_string(n);
    group_digits(d.as_str())
}

/// Add commas to a number.
pub fn format_number(n: u64) -> (r: String)
    ensures
        r@ == grouped(decimal(n as nat)),
{
    format_with_commas(n as u128)
}

/// The number of smallest units in one token.
pub const UNITS_PER_TOKEN: u128 = 1_000_000_000_000_000_000;

/// The four decimal digits of `x < 10000`, with leading zeros.
pub open spec fn four_digits(x: nat) -> Seq<char> {
    seq![
        digit_char(x / 1000),
        digit_char((x / 100) % 10),
        digit_char((x / 10) % 10),
        digit_char(x % 10),
    ]
}

/// An amount of smallest units as whole tokens with commas, a point, and the
/// first four of the eighteen decimals.
pub open spec fn balance_text(amount: nat) -> Seq<char> {
    let whole = amount / (UNITS_PER_TOKEN as nat);
    let fraction = amount % (UNITS_PER_TOKEN as nat);
    grouped(decimal(whole)) + "."@ + four_digits(fraction / 100_000_000_000_000)
}

/// Format a balance from smallest units to tokens with four decimals.
pub fn format_balance(amount: u128) -> (r: String)
    ensures
        r@ == balance_text(amount as nat),
{
    let whole = amount / UNITS_PER_TOKEN;
    let fraction = amount % UNITS_PER_TOKEN;
    let x = fraction / 100_000_000_000_000;
    let mut r = format_with_commas(whole);
    r.append(".");
    push_char(&mut r, digit_of(x / 1000));
    push_char(&mut r, digit_of((x / 100) % 10));
    push_char(&mut r, digit_of((x / 10) % 10));
    push_char(&mut r, digit_of(x % 10));
    proof {
        reveal_strlit(".");
        assert(r@ =~= balance_text(amount as nat));
    }
    r
}

/// The upper-case mapping of a character.
pub uninterp spec fn upper_of(c: char) -> Seq<char>;

/// Relies on `char::to_uppercase`: the upper-case mapping of one character,
/// which depends on the character alone.
#[verifier::external_body]
fn to_upper(c: char) -> (r: String)
    ensures
        r@ == upper_of(c),
{
    c.to_uppercase().collect()
}

/// The first `i` characters of `s` in PascalCase: dashes dropped, and the
/// first character of each dash-separated word mapped to upper case.
pub open spec fn pascal_prefix(s: Seq<char>, i: int) -> Seq<char>
    decreases i,
{
    if i <= 0 {
        Seq::empty()
    } else {
        let prev = pascal_prefix(s, i - 1);
        let c = s[i - 1];
        if c == '-' {
            prev
        } else if i - 1 == 0 || s[i - 2] == '-' {
            prev + upper_of(c)
        } else {
            prev.push(c)
        }
    }
}

/// A dash-separated name in PascalCase.
pub fn to_pascal_case(s: &str) -> (r: String)
    ensures
        r@ == pascal_prefix(s@, s@.len() as int),
{
    let c = chars_of(s);
    let mut r = String::new();
    let mut i: usize = 0;
    while i < c.len()
        invariant
            c@ == s@,
            i <= c.len(),
            r@ == pascal_prefix(s@, i as int),
        decreases c.len() - i,
    {
        let ch = c[i];
        if ch == '-' {
        } else if i == 0 || c[i - 1] == '-' {
            let u = to_upper(ch);
            r.append(u.as_str());
        } else {
            push_char(&mut r, ch);
        }
        i += 1;
    }
    r
}

/// The kind of project that `init` scaffolds.
pub enum ProjectType {
    Basic,
    Fullstack,
    Library,
}

impl ProjectType {
    pub fn as_str(&self) -> (r: &'static str)
        ensures
            r@ == match *self {
                ProjectType::Basic => "basic"@,
                ProjectType::Fullstack => "fullstack"@,
                ProjectType::Library => "library"@,
            },
    {
        match self {
            ProjectType::Basic => "basic",
            ProjectType::Fullstack => "fullstack",
            ProjectType::Library => "library",
        }
    }
}

/// The frontend that `init` scaffolds beside the contract.
pub enum Frontend {
    NoFrontend,
    React,
    NextJs,
    Vue,
}

impl Frontend {
    pub fn as_str(&self) -> (r: &'static str)
        ensures
            r@ == match *self {
                Frontend::NoFrontend => "none"@,
                Frontend::React => "react"@,
                Frontend::NextJs => "nextjs"@,
                Frontend::Vue => "vue"@,
            },
    {
        match self {
            Frontend::NoFrontend => "none",
            Frontend::React => "react",
            Frontend::NextJs => "nextjs",
            Frontend::Vue => "vue",
        }
    }
}

} // verus!
