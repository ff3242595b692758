//! Static analysis of contract source text: functions and their size and
//! branching, imports, traits and structs, and simple security and gas checks.
use vstd::prelude::*;
use crate::text::{contains_str, decimal, decimal_string, seq_contains, str_eq};

verus! {

/// The lines of a text, as `str::lines` yields them.
pub uninterp spec fn text_lines(s: Seq<char>) -> Seq<Seq<char>>;

/// A text without its leading and trailing whitespace, as `str::trim` gives it.
pub uninterp spec fn trimmed(s: Seq<char>) -> Seq<char>;

/// The whitespace-separated words of a text, as `str::split_whitespace` yields them.
pub uninterp spec fn words(s: Seq<char>) -> Seq<Seq<char>>;

/// Relies on `str::lines`: the text split at line ends.
#[verifier::external_body]
pub(crate) fn lines_of(s: &str) -> (r: Vec<String>)
    ensures
        r@.map_values(|l: String| l@) == text_lines(s@),
{
    s.lines().map(|l| l.to_string()).collect()
}

/// Relies on `str::trim`: the text without surrounding whitespace.
#[verifier::external_body]
pub(crate) fn trim(s: &str) -> (r: String)
    ensures
        r@ == trimmed(s@),
        r@.len() <= s@.len(),
{
    s.trim().to_string()
}

/// Relies on `str::split_whitespace`: the words of the text.
#[verifier::external_body]
pub(crate) fn split_words(s: &str) -> (r: Vec<String>)
    ensures
        r@.map_values(|w: String| w@) == words(s@),
{
    s.split_whitespace().map(|w| w.to_string()).collect()
}

/// Whether `s` begins with `p`.
pub open spec fn starts(s: Seq<char>, p: Seq<char>) -> bool {
    p.len() <= s.len() && s.subrange(0, p.len() as int) == p
}

/// Whether `s` begins with `p`.
pub fn starts_with(s: &str, p: &str) -> (r: bool)
    ensures
        r == starts(s@, p@),
{
    let n = s.unicode_len();
    let m = p.unicode_len();
    if m > n {
        return false;
    }
    let head = s.substring_char(0, m);
    str_eq(head, p)
}

/// The number of times `c` occurs in `s`.
pub open spec fn occurrences(s: Seq<char>, c: char) -> nat
    decreases s.len(),
{
    if s.len() == 0 {
        0
    } else {
        occurrences(s.drop_last(), c) + if s.last() == c { 1nat } else { 0nat }
    }
}

pub proof fn lemma_occurrences_bound(s: Seq<char>, c: char)
    ensures
        occurrences(s, c) <= s.len(),
    decreases s.len(),
{
    if s.len() > 0 {
        lemma_occurrences_bound(s.drop_last(), c);
    }
}

/// The number of times `c` occurs in `s`.
pub fn count_char(s: &str, c: char) -> (r: usize)
    ensures
        r == occurrences(s@, c),
{
    let n = s.unicode_len();
    let mut k: usize = 0;
    let mut i: usize = 0;
    while i < n
        invariant
            n == s@.len(),
            i <= n,
            k == occurrences(s@.subrange(0, i as int), c),
            k <= i,
        decreases n - i,
    {
        let ghost before = s@.subrange(0, i as int);
        assert(s@.subrange(0, i + 1).drop_last() =~= before);
        if s.get_char(i) == c {
            k += 1;
        }
        i += 1;
    }
    assert(s@.subrange(0, n as int) =~= s@);
    k
}

/// Lines are short enough for brace depths and counts to fit machine integers.
pub open spec fn lines_bounded(lines: Seq<String>) -> bool {
    lines.len() < 0x8000_0000 && forall|i: int| 0 <= i < lines.len() ==> (#[trigger] lines[i])@.len() < 0x1_0000_0000
}

/// The brace depth after a line at depth `depth`.
pub open spec fn depth_after(line: Seq<char>, depth: int) -> int {
    depth + occurrences(line, '{') - occurrences(line, '}')
}

/// The lines counted from line `i` on, of a function body whose braces are at
/// `depth`: counting starts at the first line with an opening brace and stops
/// after the line where the depth comes back to zero.
pub open spec fn body_lines_from(lines: Seq<Seq<char>>, i: int, depth: int, started: bool) -> nat
    decreases lines.len() - i,
{
    if i < 0 || i >= lines.len() {
        0
    } else {
        let d = depth_after(lines[i], depth);
        let st = started || occurrences(lines[i], '{') > 0;
        let here: nat = if st { 1 } else { 0 };
        if st && d == 0 {
            here
        } else {
            here + body_lines_from(lines, i + 1, d, st)
        }
    }
}

/// The views of a list of strings.
pub open spec fn views(v: Seq<String>) -> Seq<Seq<char>> {
    v.map_values(|s: String| s@)
}

/// Count the lines of the function that starts at line `start`.
pub fn count_function_lines(lines: &Vec<String>, start_idx: usize) -> (r: usize)
    requires
        lines_bounded(lines@),
    ensures
        r == body_lines_from(views(lines@), start_idx as int, 0, false),
{
    let ghost ls = views(lines@);
    let mut count: usize = 0;
    let mut depth: i64 = 0;
    let mut started = false;
    let mut i: usize = start_idx;
    if i >= lines.len() {
        return 0;
    }
    while i < lines.len()
        invariant
            ls == views(lines@),
            lines_bounded(lines@),
            start_idx <= i <= lines.len(),
            count <= i - start_idx,
            -0x1_0000_0000 * (i - start_idx) <= depth <= 0x1_0000_0000 * (i - start_idx),
            body_lines_from(ls, start_idx as int, 0, false) == count + body_lines_from(ls, i as int, depth as int, started),
        decreases lines.len() - i,
    {
        let line = lines[i].as_str();
        let opens = count_char(line, '{');
        let closes = count_char(line, '}');
        proof {
            lemma_occurrences_bound(ls[i as int], '{');
            lemma_occurrences_bound(ls[i as int], '}');
            assert(ls[i as int] == lines@[i as int]@);
            assert(-0x1_0000_0000 * (i + 1 - start_idx) <= depth + opens - closes <= 0x1_0000_0000 * (i + 1 - start_idx)) by (nonlinear_arith)
                requires
                    -0x1_0000_0000 * (i - start_idx) <= depth <= 0x1_0000_0000 * (i - start_idx),
                    opens < 0x1_0000_0000,
                    closes < 0x1_0000_0000,
                    i >= start_idx,
            ;
            assert(i + 1 < 0x8000_0000);
            assert(0x1_0000_0000 * (i + 1 - start_idx) < 0x8000_0000_0000_0000) by (nonlinear_arith)
                requires
                    i + 1 < 0x8000_0000,
                    i >= start_idx,
            ;
        }
        depth = depth + opens as i64 - closes as i64;
        if opens > 0 {
            started = true;
        }
        if started {
            count += 1;
        }
        if started && depth == 0 {
            return count;
        }
        i += 1;
    }
    count
}

/// Whether a trimmed line holds a branching construct.
pub open spec fn branches(t: Seq<char>) -> bool {
    seq_contains(t, "if "@) || seq_contains(t, "else if "@) || seq_contains(t, "match "@) || seq_contains(
        t,
        "while "@,
    ) || seq_contains(t, "for "@) || seq_contains(t, "loop "@) || seq_contains(t, "&&"@) || seq_contains(
        t,
        "||"@,
    )
}

/// The decision points of the function body from line `i` on: one for each
/// line with a branching construct, one for each match arm.
pub open spec fn decisions_from(lines: Seq<Seq<char>>, i: int, depth: int, inside: bool) -> nat
    decreases lines.len() - i,
{
    if i < 0 || i >= lines.len() {
        0
    } else {
        let t = trimmed(lines[i]);
        let d = depth_after(t, depth);
        let ins = inside || occurrences(t, '{') > 0;
        let here: nat = if ins {
            (if branches(t) { 1nat } else { 0nat }) + (if seq_contains(t, "=>"@) { 1nat } else { 0nat })
        } else {
            0
        };
        if ins && d == 0 {
            here
        } else {
            here + decisions_from(lines, i + 1, d, ins)
        }
    }
}

/// Whether a trimmed line holds a branching construct.
fn line_branches(t: &str) -> (r: bool)
    ensures
        r == branches(t@),
{
    contains_str(t, "if ") || contains_str(t, "else if ") || contains_str(t, "match ") || contains_str(t, "while ")
        || contains_str(t, "for ") || contains_str(t, "loop ") || contains_str(t, "&&") || contains_str(t, "||")
}

/// The cyclomatic complexity of the function that starts at line `start`:
/// one plus its decision points.
pub fn calculate_function_complexity(lines: &Vec<String>, start_idx: usize) -> (r: u32)
    requires
        lines_bounded(lines@),
    ensures
        r == 1 + decisions_from(views(lines@), start_idx as int, 0, false),
{
    let ghost ls = views(lines@);
    let mut complexity: u32 = 1;
    let mut depth: i64 = 0;
    let mut inside = false;
    let mut i: usize = start_idx;
    if i >= lines.len() {
        return 1;
    }
    while i < lines.len()
        invariant
            ls == views(lines@),
            lines_bounded(lines@),
            start_idx <= i <= lines.len(),
            complexity <= 1 + 2 * (i - start_idx),
            -0x1_0000_0000 * (i - start_idx) <= depth <= 0x1_0000_0000 * (i - start_idx),
            1 + decisions_from(ls, start_idx as int, 0, false) == complexity + decisions_from(ls, i as int, depth as int, inside),
        decreases lines.len() - i,
    {
        let t = trim(lines[i].as_str());
        let opens = count_char(t.as_str(), '{');
        let closes = count_char(t.as_str(), '}');
        proof {
            assert(ls[i as int] == lines@[i as int]@);
            lemma_occurrences_bound(t@, '{');
            lemma_occurrences_bound(t@, '}');
            assert(-0x1_0000_0000 * (i + 1 - start_idx) <= depth + opens - closes <= 0x1_0000_0000 * (i + 1 - start_idx)) by (nonlinear_arith)
                requires
                    -0x1_0000_0000 * (i - start_idx) <= depth <= 0x1_0000_0000 * (i - start_idx),
                    opens < 0x1_0000_0000,
                    closes < 0x1_0000_0000,
                    i >= start_idx,
            ;
            assert(i + 1 < 0x8000_0000);
            assert(0x1_0000_0000 * (i + 1 - start_idx) < 0x8000_0000_0000_0000) by (nonlinear_arith)
                requires
                    i + 1 < 0x8000_0000,
                    i >= start_idx,
            ;
        }
        depth = depth + opens as i64 - closes as i64;
        if opens > 0 {
            inside = true;
        }
        if inside {
            if line_branches(t.as_str()) {
                complexity += 1;
            }
            if contains_str(t.as_str(), "=>") {
                complexity += 1;
            }
        }
        if inside && depth == 0 {
            return complexity;
        }
        i += 1;
    }
    complexity
}

/// The text with every `from` replaced by `to`, as `str::replace` gives it.
pub uninterp spec fn replaced(s: Seq<char>, from: Seq<char>, to: Seq<char>) -> Seq<char>;

/// Relies on `str::replace`: the text with each occurrence of `from` replaced.
#[verifier::external_body]
pub(crate) fn replace_all(s: &str, from: &str, to: &str) -> (r: String)
    ensures
        r@ == replaced(s@, from@, to@),
{
    s.replace(from, to)
}

/// The index of the first word `fn` that has a word after it, from `i` on.
pub open spec fn fn_word_index(ws: Seq<Seq<char>>, i: int) -> int
    decreases ws.len() - i,
{
    if i < 0 || i >= ws.len() {
        -1
    } else if ws[i] == "fn"@ && i + 1 < ws.len() {
        i
    } else {
        fn_word_index(ws, i + 1)
    }
}

/// The index of the first `(` in `w` from `i` on, or the length.
pub open spec fn paren_index(w: Seq<char>, i: int) -> int
    decreases w.len() - i,
{
    if i < 0 || i >= w.len() {
        w.len() as int
    } else if w[i] == '(' {
        i
    } else {
        paren_index(w, i + 1)
    }
}

pub proof fn lemma_paren_index(w: Seq<char>, i: int)
    requires
        0 <= i <= w.len(),
    ensures
        i <= paren_index(w, i) <= w.len(),
    decreases w.len() - i,
{
    if i < w.len() {
        lemma_paren_index(w, i + 1);
    }
}

/// The name declared on a function line: the word after `fn`, up to its `(`.
pub open spec fn function_name(line: Seq<char>) -> Seq<char> {
    let ws = words(line);
    let k = fn_word_index(ws, 0);
    if k < 0 {
        "unknown"@
    } else {
        ws[k + 1].subrange(0, paren_index(ws[k + 1], 0))
    }
}

/// The name declared on a function line.
pub fn extract_function_name(line: &str) -> (r: String)
    ensures
        r@ == function_name(line@),
{
    let parts = split_words(line);
    let ghost ws = words(line@);
    assert(parts@.len() == ws.len());
    let mut i: usize = 0;
    while i < parts.len()
        invariant
            ws == words(line@),
            parts@.map_values(|w: String| w@) == ws,
            i <= parts.len(),
            fn_word_index(ws, 0) == fn_word_index(ws, i as int),
        decreases parts.len() - i,
    {
        assert(parts@[i as int]@ == ws[i as int]);
        if str_eq(parts[i].as_str(), "fn") && i + 1 < parts.len() {
            let w = parts[i + 1].as_str();
            assert(w@ == ws[i + 1]);
            let n = w.unicode_len();
            let mut j: usize = 0;
            while j < n
                invariant
                    n == w@.len(),
                    j <= n,
                    paren_index(w@, 0) == paren_index(w@, j as int),
                ensures
                    j <= n,
                    paren_index(w@, 0) == j as int,
                decreases n - j,
            {
                if w.get_char(j) == '(' {
                    break;
                }
                j += 1;
            }
            proof {
                lemma_paren_index(w@, j as int);
            }
            return String::from_str(w.substring_char(0, j));
        }
        i += 1;
    }
    String::from_str("unknown")
}

/// Whether a trimmed line opens a function definition.
pub open spec fn is_fn_line(t: Seq<char>) -> bool {
    starts(t, "pub fn "@) || starts(t, "fn "@) || starts(t, "pub(crate) fn "@)
}

/// Information about a function of a contract.
pub struct FunctionInfo {
    pub name: String,
    /// `public` or `private`.
    pub visibility: String,
    pub is_payable: bool,
    pub lines: usize,
    pub complexity: u32,
}

/// `f` describes the function whose definition is line `i`.
pub open spec fn describes(f: FunctionInfo, ls: Seq<Seq<char>>, i: int) -> bool {
    let t = trimmed(ls[i]);
    &&& f.name@ == function_name(t)
    &&& f.visibility@ == if starts(t, "pub "@) { "public"@ } else { "private"@ }
    &&& f.is_payable == (i > 0 && seq_contains(ls[i - 1], "#[ink(payable)]"@))
    &&& f.lines == body_lines_from(ls, i, 0, false)
    &&& f.complexity == 1 + decisions_from(ls, i, 0, false)
}

/// The indices of the function lines among the first `n` lines.
pub open spec fn fn_lines(ls: Seq<Seq<char>>, n: int) -> Seq<int>
    decreases n,
{
    if n <= 0 {
        Seq::empty()
    } else if is_fn_line(trimmed(ls[n - 1])) {
        fn_lines(ls, n - 1).push(n - 1)
    } else {
        fn_lines(ls, n - 1)
    }
}

/// The functions defined in the lines, in order.
pub fn extract_functions(lines: &Vec<String>) -> (r: Vec<FunctionInfo>)
    requires
        lines_bounded(lines@),
    ensures
        ({
            let ls = views(lines@);
            let idx = fn_lines(ls, ls.len() as int);
            r@.len() == idx.len() && forall|j: int| 0 <= j < idx.len() ==> describes(#[trigger] r@[j], ls, idx[j])
        }),
{
    let ghost ls = views(lines@);
    let mut out: Vec<FunctionInfo> = Vec::new();
    let mut i: usize = 0;
    while i < lines.len()
        invariant
            ls == views(lines@),
            lines_bounded(lines@),
            i <= lines.len(),
            out@.len() == fn_lines(ls, i as int).len(),
            forall|j: int| 0 <= j < out@.len() ==> describes(#[trigger] out@[j], ls, fn_lines(ls, i as int)[j]),
        decreases lines.len() - i,
    {
        let t = trim(lines[i].as_str());
        proof {
            assert(ls[i as int] == lines@[i as int]@);
        }
        let is_fn = starts_with(t.as_str(), "pub fn ") || starts_with(t.as_str(), "fn ") || starts_with(
            t.as_str(),
            "pub(crate) fn ",
        );
        if is_fn {
            let name = extract_function_name(t.as_str());
            let visibility = if starts_with(t.as_str(), "pub ") {
                String::from_str("public")
            } else {
                String::from_str("private")
            };
            let is_payable = i > 0 && contains_str(lines[i - 1].as_str(), "#[ink(payable)]");
            proof {
                if i > 0 {
                    assert(ls[i - 1] == lines@[i - 1]@);
                }
            }
            let info = FunctionInfo {
                name,
                visibility,
                is_payable,
                lines: count_function_lines(lines, i),
                complexity: calculate_function_complexity(lines, i),
            };
            out.push(info);
        }
        i += 1;
    }
    out
}

/// The trimmed lines that begin with `p`, among the first `n`.
pub open spec fn trimmed_lines_with_prefix(ls: Seq<Seq<char>>, p: Seq<char>, n: int) -> Seq<Seq<char>>
    decreases n,
{
    if n <= 0 {
        Seq::empty()
    } else if starts(trimmed(ls[n - 1]), p) {
        trimmed_lines_with_prefix(ls, p, n - 1).push(trimmed(ls[n - 1]))
    } else {
        trimmed_lines_with_prefix(ls, p, n - 1)
    }
}

/// The `use` declarations of the lines, trimmed.
pub fn extract_imports(lines: &Vec<String>) -> (r: Vec<String>)
    ensures
        views(r@) == trimmed_lines_with_prefix(views(lines@), "use "@, lines@.len() as int),
{
    let ghost ls = views(lines@);
    let mut out: Vec<String> = Vec::new();
    let mut i: usize = 0;
    while i < lines.len()
        invariant
            ls == views(lines@),
            i <= lines.len(),
            views(out@) == trimmed_lines_with_prefix(ls, "use "@, i as int),
        decreases lines.len() - i,
    {
        let t = trim(lines[i].as_str());
        proof {
            assert(ls[i as int] == lines@[i as int]@);
        }
        if starts_with(t.as_str(), "use ") {
            let ghost before = views(out@);
            out.push(t);
            assert(views(out@) =~= before.push(trimmed(ls[i as int])));
        }
        i += 1;
    }
    out
}

/// The name declared after a `keyword` (`trait` or `struct`) on a trimmed line:
/// the first word once `pub <keyword> ` and `<keyword> ` are removed.
pub open spec fn declared_after(t: Seq<char>, with_pub: Seq<char>, bare: Seq<char>) -> Seq<char> {
    let ws = words(replaced(replaced(t, with_pub, Seq::empty()), bare, Seq::empty()));
    if ws.len() > 0 {
        ws[0]
    } else {
        Seq::empty()
    }
}

/// The names declared by lines that begin (once trimmed) with `with_pub` or
/// `bare`, among the first `n`.
pub open spec fn declarations(ls: Seq<Seq<char>>, with_pub: Seq<char>, bare: Seq<char>, n: int) -> Seq<Seq<char>>
    decreases n,
{
    if n <= 0 {
        Seq::empty()
    } else {
        let t = trimmed(ls[n - 1]);
        let prev = declarations(ls, with_pub, bare, n - 1);
        if starts(t, with_pub) || starts(t, bare) {
            prev.push(declared_after(t, with_pub, bare))
        } else {
            prev
        }
    }
}

/// The names declared by lines that begin with `with_pub` or `bare`.
fn extract_declared(lines: &Vec<String>, with_pub: &str, bare: &str) -> (r: Vec<String>)
    ensures
        views(r@) == declarations(views(lines@), with_pub@, bare@, lines@.len() as int),
{
    let ghost ls = views(lines@);
    let mut out: Vec<String> = Vec::new();
    let mut i: usize = 0;
    while i < lines.len()
        invariant
            ls == views(lines@),
            i <= lines.len(),
            views(out@) == declarations(ls, with_pub@, bare@, i as int),
        decreases lines.len() - i,
    {
        let t = trim(lines[i].as_str());
        proof {
            assert(ls[i as int] == lines@[i as int]@);
        }
        if starts_with(t.as_str(), with_pub) || starts_with(t.as_str(), bare) {
            let a = replace_all(t.as_str(), with_pub, "");
            let b = replace_all(a.as_str(), bare, "");
            let ws = split_words(b.as_str());
            proof {
                reveal_strlit("");
                assert(""@ =~= Seq::<char>::empty());
            }
            let name = if ws.len() > 0 {
                assert(ws@[0]@ == ws@.map_values(|w: String| w@)[0]);
                ws[0].clone()
            } else {
                String::new()
            };
            let ghost before = views(out@);
            out.push(name);
            assert(views(out@) =~= before.push(declared_after(trimmed(ls[i as int]), with_pub@, bare@)));
        }
        i += 1;
    }
    out
}

/// The traits the lines declare.
pub fn extract_traits(lines: &Vec<String>) -> (r: Vec<String>)
    ensures
        views(r@) == declarations(views(lines@), "pub trait "@, "trait "@, lines@.len() as int),
{
    extract_declared(lines, "pub trait ", "trait ")
}

/// The structs the lines declare.
pub fn extract_structs(lines: &Vec<String>) -> (r: Vec<String>)
    ensures
        views(r@) == declarations(views(lines@), "pub struct "@, "struct "@, lines@.len() as int),
{
    extract_declared(lines, "pub struct ", "struct ")
}

/// The number of lines among the first `n` that are not blank.
pub open spec fn code_lines(ls: Seq<Seq<char>>, n: int) -> nat
    decreases n,
{
    if n <= 0 {
        0
    } else {
        code_lines(ls, n - 1) + if trimmed(ls[n - 1]).len() > 0 { 1nat } else { 0nat }
    }
}

/// The number of lines that are not blank.
pub fn count_code_lines(lines: &Vec<String>) -> (r: usize)
    ensures
        r == code_lines(views(lines@), lines@.len() as int),
{
    let ghost ls = views(lines@);
    let mut k: usize = 0;
    let mut i: usize = 0;
    while i < lines.len()
        invariant
            ls == views(lines@),
            i <= lines.len(),
            k == code_lines(ls, i as int),
            k <= i,
        decreases lines.len() - i,
    {
        let t = trim(lines[i].as_str());
        proof {
            assert(ls[i as int] == lines@[i as int]@);
        }
        if t.unicode_len() > 0 {
            k += 1;
        }
        i += 1;
    }
    k
}

/// The analysis of one source file.
pub struct FileAnalysis {
    pub path: String,
    pub lines_of_code: usize,
    pub functions: Vec<FunctionInfo>,
    pub imports: Vec<String>,
    pub traits: Vec<String>,
    pub structs: Vec<String>,
}

/// Whether a text looks like contract source: it declares an ink! contract or
/// a module.
pub open spec fn is_contract_source(content: Seq<char>) -> bool {
    seq_contains(content, "#[ink::contract]"@) || seq_contains(content, "mod "@)
}

/// `a` is the analysis of `content`, read from `path`.
pub open spec fn analysis_of(a: FileAnalysis, path: Seq<char>, content: Seq<char>) -> bool {
    let ls = text_lines(content);
    let idx = fn_lines(ls, ls.len() as int);
    &&& a.path@ == path
    &&& a.lines_of_code == code_lines(ls, ls.len() as int)
    &&& a.functions@.len() == idx.len()
    &&& forall|j: int| 0 <= j < idx.len() ==> describes(#[trigger] a.functions@[j], ls, idx[j])
    &&& views(a.imports@) == trimmed_lines_with_prefix(ls, "use "@, ls.len() as int)
    &&& views(a.traits@) == declarations(ls, "pub trait "@, "trait "@, ls.len() as int)
    &&& views(a.structs@) == declarations(ls, "pub struct "@, "struct "@, ls.len() as int)
}

/// Whether the lines are few and short enough to analyse.
fn bounded(lines: &Vec<String>) -> (r: bool)
    ensures
        r == lines_bounded(lines@),
{
    if lines.len() >= 0x8000_0000 {
        return false;
    }
    let mut i: usize = 0;
    while i < lines.len()
        invariant
            i <= lines.len(),
            forall|j: int| 0 <= j < i ==> (#[trigger] lines@[j])@.len() < 0x1_0000_0000,
        decreases lines.len() - i,
    {
        if lines[i].as_str().unicode_len() as u64 >= 0x1_0000_0000u64 {
            return false;
        }
        i += 1;
    }
    true
}

/// Analyse the text of a source file. Texts that are not contract source are
/// skipped (`None`), as are texts of 2^31 lines or more, or with a line of
/// 2^32 characters or more.
pub fn analyze_content(path: &str, content: &str) -> (r: Option<FileAnalysis>)
    ensures
        match r {
            Some(a) => is_contract_source(content@) && analysis_of(a, path@, content@),
            None => !is_contract_source(content@) || {
                let ls = text_lines(content@);
                !(ls.len() < 0x8000_0000 && forall|i: int| 0 <= i < ls.len() ==> (#[trigger] ls[i]).len() < 0x1_0000_0000)
            },
        },
{
    if !contains_str(content, "#[ink::contract]") && !contains_str(content, "mod ") {
        return None;
    }
    let lines = lines_of(content);
    let ghost ls = text_lines(content@);
    assert(views(lines@) == ls);
    if !bounded(&lines) {
        proof {
            assert(lines@.len() == ls.len());
            if ls.len() < 0x8000_0000 && forall|i: int| 0 <= i < ls.len() ==> (#[trigger] ls[i]).len() < 0x1_0000_0000 {
                assert forall|j: int| 0 <= j < lines@.len() implies (#[trigger] lines@[j])@.len() < 0x1_0000_0000 by {
                    assert(ls[j] == lines@[j]@);
                }
            }
        }
        return None;
    }
    let functions = extract_functions(&lines);
    Some(FileAnalysis {
        path: String::from_str(path),
        lines_of_code: count_code_lines(&lines),
        functions,
        imports: extract_imports(&lines),
        traits: extract_traits(&lines),
        structs: extract_structs(&lines),
    })
}

/// A possible security issue.
pub struct SecurityIssue {
    /// `high`, `medium` or `low`.
    pub severity: String,
    pub category: String,
    pub description: String,
    pub file: String,
    pub line: Option<usize>,
    pub recommendation: String,
}

/// A possible gas optimisation.
pub struct GasOptimization {
    /// `high`, `medium` or `low`.
    pub impact: String,
    pub description: String,
    pub file: String,
    pub line: Option<usize>,
    pub suggestion: String,
}

/// The kinds of security finding, with what they name.
pub enum SecurityFinding {
    UncheckedArithmetic,
    UnguardedPayable(Seq<char>),
    Unwrap,
    MissingEvents,
}

/// The texts of a security finding: severity, category, description and recommendation.
pub open spec fn security_texts(f: SecurityFinding) -> (Seq<char>, Seq<char>, Seq<char>, Seq<char>) {
    match f {
        SecurityFinding::UncheckedArithmetic => (
            "medium"@,
            "Arithmetic"@,
            "Potential integer overflow/underflow"@,
            "Use checked arithmetic operations (checked_add, checked_sub, etc.)"@,
        ),
        SecurityFinding::UnguardedPayable(name) => (
            "high"@,
            "Access Control"@,
            "Payable function '"@ + name + "' lacks access control"@,
            "Add access control checks to prevent unauthorized calls"@,
        ),
        SecurityFinding::Unwrap => (
            "low"@,
            "Error Handling"@,
            "Use of unsafe unwrap() that could panic"@,
            "Replace unwrap() with proper error handling using ? or expect()"@,
        ),
        SecurityFinding::MissingEvents => (
            "low"@,
            "Transparency"@,
            "State-changing functions should emit events"@,
            "Emit events for important state changes for transparency"@,
        ),
    }
}

/// Payable public functions without an access check, among the first `n`.
pub open spec fn unguarded_payables(content: Seq<char>, fs: Seq<FunctionInfo>, n: int) -> Seq<SecurityFinding>
    decreases n,
{
    if n <= 0 {
        Seq::empty()
    } else {
        let prev = unguarded_payables(content, fs, n - 1);
        let f = fs[n - 1];
        if f.is_payable && f.visibility@ == "public"@ && !seq_contains(content, "only_owner"@) && !seq_contains(
            content,
            "require!"@,
        ) {
            prev.push(SecurityFinding::UnguardedPayable(f.name@))
        } else {
            prev
        }
    }
}

/// The security findings for a file's text and its functions, in order.
pub open spec fn security_findings(content: Seq<char>, fs: Seq<FunctionInfo>) -> Seq<SecurityFinding> {
    let arith = (seq_contains(content, " + "@) || seq_contains(content, " - "@) || seq_contains(content, " * "@))
        && !seq_contains(content, "checked_add"@) && !seq_contains(content, "checked_sub"@) && !seq_contains(
        content,
        "checked_mul"@,
    );
    let a = if arith { seq![SecurityFinding::UncheckedArithmetic] } else { Seq::empty() };
    let b = unguarded_payables(content, fs, fs.len() as int);
    let c = if seq_contains(content, ".unwrap()"@) { seq![SecurityFinding::Unwrap] } else { Seq::empty() };
    let d = if seq_contains(content, "#[ink(message)]"@) && !seq_contains(content, "Self::env().emit_event"@) {
        seq![SecurityFinding::MissingEvents]
    } else {
        Seq::empty()
    };
    a + b + c + d
}

/// `i` reports finding `f` in file `file`.
pub open spec fn reports(i: SecurityIssue, f: SecurityFinding, file: Seq<char>) -> bool {
    let t = security_texts(f);
    i.severity@ == t.0 && i.category@ == t.1 && i.description@ == t.2 && i.recommendation@ == t.3 && i.file@ == file
        && i.line is None
}

fn issue(severity: &str, category: &str, description: String, recommendation: &str, file: &str) -> (r: SecurityIssue)
    ensures
        r.severity@ == severity@,
        r.category@ == category@,
        r.description == description,
        r.recommendation@ == recommendation@,
        r.file@ == file@,
        r.line is None,
{
    SecurityIssue {
        severity: String::from_str(severity),
        category: String::from_str(category),
        description,
        file: String::from_str(file),
        line: None,
        recommendation: String::from_str(recommendation),
    }
}

/// Check a file's text and its functions for common security issues.
pub fn analyze_security(path: &str, content: &str, functions: &Vec<FunctionInfo>) -> (r: Vec<SecurityIssue>)
    ensures
        ({
            let want = security_findings(content@, functions@);
            r@.len() == want.len() && forall|i: int| 0 <= i < want.len() ==> reports(#[trigger] r@[i], want[i], path@)
        }),
{
    let mut out: Vec<SecurityIssue> = Vec::new();
    let ghost mut want: Seq<SecurityFinding> = Seq::empty();
    if (contains_str(content, " + ") || contains_str(content, " - ") || contains_str(content, " * "))
        && !contains_str(content, "checked_add") && !contains_str(content, "checked_sub") && !contains_str(
        content,
        "checked_mul",
    ) {
        out.push(
            issue(
                "medium",
                "Arithmetic",
                String::from_str("Potential integer overflow/underflow"),
                "Use checked arithmetic operations (checked_add, checked_sub, etc.)",
                path,
            ),
        );
        proof {
            want = want.push(SecurityFinding::UncheckedArithmetic);
        }
    }
    let guarded = contains_str(content, "only_owner") || contains_str(content, "require!");
    let ghost base = want;
    let mut i: usize = 0;
    while i < functions.len()
        invariant
            i <= functions.len(),
            guarded == (seq_contains(content@, "only_owner"@) || seq_contains(content@, "require!"@)),
            want == base + unguarded_payables(content@, functions@, i as int),
            out@.len() == want.len(),
            forall|k: int| 0 <= k < want.len() ==> reports(#[trigger] out@[k], want[k], path@),
        decreases functions.len() - i,
    {
        let f = &functions[i];
        if f.is_payable && str_eq(f.visibility.as_str(), "public") && !guarded {
            let mut d = String::from_str("Payable function '");
            d.append(f.name.as_str());
            d.append("' lacks access control");
            out.push(
                issue("high", "Access Control", d, "Add access control checks to prevent unauthorized calls", path),
            );
            proof {
                want = want.push(SecurityFinding::UnguardedPayable(f.name@));
                assert(base + unguarded_payables(content@, functions@, i + 1) =~= want);
            }
        } else {
            assert(base + unguarded_payables(content@, functions@, i + 1) =~= want);
        }
        i += 1;
    }
    if contains_str(content, ".unwrap()") {
        out.push(
            issue(
                "low",
                "Error Handling",
                String::from_str("Use of unsafe unwrap() that could panic"),
                "Replace unwrap() with proper error handling using ? or expect()",
                path,
            ),
        );
        proof {
            want = want.push(SecurityFinding::Unwrap);
        }
    }
    if contains_str(content, "#[ink(message)]") && !contains_str(content, "Self::env().emit_event") {
        out.push(
            issue(
                "low",
                "Transparency",
                String::from_str("State-changing functions should emit events"),
                "Emit events for important state changes for transparency",
                path,
            ),
        );
        proof {
            want = want.push(SecurityFinding::MissingEvents);
        }
    }
    proof {
        assert(want =~= security_findings(content@, functions@));
    }
    out
}

/// The kinds of gas finding, with what they name.
pub enum GasFinding {
    StringInStorage,
    Loops,
    VecInStorage,
    Complex(Seq<char>, u32),
}

/// The texts of a gas finding: impact, description and suggestion.
pub open spec fn gas_texts(f: GasFinding) -> (Seq<char>, Seq<char>, Seq<char>) {
    match f {
        GasFinding::StringInStorage => (
            "high"@,
            "String type in storage is expensive"@,
            "Consider using Vec<u8> or bounded types for storage"@,
        ),
        GasFinding::Loops => (
            "medium"@,
            "Loop iterations can be gas-intensive"@,
            "Limit loop iterations or use pagination for large datasets"@,
        ),
        GasFinding::VecInStorage => (
            "medium"@,
            "Vec in storage requires careful management"@,
            "Consider using Mapping for key-value storage or BTreeMap for ordered data"@,
        ),
        GasFinding::Complex(name, c) => (
            "medium"@,
            "Function '"@ + name + "' has high complexity ("@ + decimal(c as nat) + ")"@,
            "Consider breaking down into smaller functions to reduce gas costs"@,
        ),
    }
}

/// Functions of complexity above ten, among the first `n`.
pub open spec fn complex_functions(fs: Seq<FunctionInfo>, n: int) -> Seq<GasFinding>
    decreases n,
{
    if n <= 0 {
        Seq::empty()
    } else if fs[n - 1].complexity > 10 {
        complex_functions(fs, n - 1).push(GasFinding::Complex(fs[n - 1].name@, fs[n - 1].complexity))
    } else {
        complex_functions(fs, n - 1)
    }
}

/// The gas findings for a file's text and its functions, in order.
pub open spec fn gas_findings(content: Seq<char>, fs: Seq<FunctionInfo>) -> Seq<GasFinding> {
    let storage = seq_contains(content, "#[ink(storage)]"@);
    let a = if seq_contains(content, "String"@) && storage { seq![GasFinding::StringInStorage] } else { Seq::empty() };
    let b = if seq_contains(content, "for "@) { seq![GasFinding::Loops] } else { Seq::empty() };
    let c = if seq_contains(content, "Vec<"@) && storage { seq![GasFinding::VecInStorage] } else { Seq::empty() };
    a + b + c + complex_functions(fs, fs.len() as int)
}

/// `o` reports finding `f` in file `file`.
pub open spec fn suggests(o: GasOptimization, f: GasFinding, file: Seq<char>) -> bool {
    let t = gas_texts(f);
    o.impact@ == t.0 && o.description@ == t.1 && o.suggestion@ == t.2 && o.file@ == file && o.line is None
}

fn optimization(impact: &str, description: String, suggestion: &str, file: &str) -> (r: GasOptimization)
    ensures
        r.impact@ == impact@,
        r.description == description,
        r.suggestion@ == suggestion@,
        r.file@ == file@,
        r.line is None,
{
    GasOptimization {
        impact: String::from_str(impact),
        description,
        file: String::from_str(file),
        line: None,
        suggestion: String::from_str(suggestion),
    }
}

/// Look for gas optimisation opportunities in a file's text and its functions.
pub fn analyze_gas(path: &str, content: &str, functions: &Vec<FunctionInfo>) -> (r: Vec<GasOptimization>)
    ensures
        ({
            let want = gas_findings(content@, functions@);
            r@.len() == want.len() && forall|i: int| 0 <= i < want.len() ==> suggests(#[trigger] r@[i], want[i], path@)
        }),
{
    let mut out: Vec<GasOptimization> = Vec::new();
    let ghost mut want: Seq<GasFinding> = Seq::empty();
    let storage = contains_str(content, "#[ink(storage)]");
    if contains_str(content, "String") && storage {
        out.push(
            optimization(
                "high",
                String::from_str("String type in storage is expensive"),
                "Consider using Vec<u8> or bounded types for storage",
                path,
            ),
        );
        proof {
            want = want.push(GasFinding::StringInStorage);
        }
    }
    if contains_str(content, "for ") {
        out.push(
            optimization(
                "medium",
                String::from_str("Loop iterations can be gas-intensive"),
                "Limit loop iterations or use pagination for large datasets",
                path,
            ),
        );
        proof {
            want = want.push(GasFinding::Loops);
        }
    }
    if contains_str(content, "Vec<") && storage {
        out.push(
            optimization(
                "medium",
                String::from_str("Vec in storage requires careful management"),
                "Consider using Mapping for key-value storage or BTreeMap for ordered data",
                path,
            ),
        );
        proof {
            want = want.push(GasFinding::VecInStorage);
        }
    }
    let ghost base = want;
    let mut i: usize = 0;
    while i < functions.len()
        invariant
            i <= functions.len(),
            want == base + complex_functions(functions@, i as int),
            out@.len() == want.len(),
            forall|k: int| 0 <= k < want.len() ==> suggests(#[trigger] out@[k], want[k], path@),
        decreases functions.len() - i,
    {
        let f = &functions[i];
        if f.complexity > 10 {
            let mut d = String::from_str("Function '");
            d.append(f.name.as_str());
            d.append("' has high complexity (");
            let c = decimal_string(f.complexity as u128);
            d.append(c.as_str());
            d.append(")");
            out.push(
                optimization("medium", d, "Consider breaking down into smaller functions to reduce gas costs", path),
            );
            proof {
                want = want.push(GasFinding::Complex(f.name@, f.complexity));
            }
        }
        assert(base + complex_functions(functions@, i + 1) =~= want);
        i += 1;
    }
    proof {
        assert(want =~= gas_findings(content@, functions@));
    }
    out
}

/// The complexity of the last function named `name` among the first `n`.
pub open spec fn last_complexity(fs: Seq<FunctionInfo>, name: Seq<char>, n: int) -> Option<u32>
    decreases n,
{
    if n <= 0 {
        None
    } else if fs[n - 1].name@ == name {
        Some(fs[n - 1].complexity)
    } else {
        last_complexity(fs, name, n - 1)
    }
}

/// Whether the table has an entry for `name`.
pub open spec fn has_entry(table: Seq<(String, u32)>, name: Seq<char>) -> bool {
    exists|k: int| 0 <= k < table.len() && (#[trigger] table[k]).0@ == name
}

/// The complexity of each function by name: one entry per name, holding the
/// complexity of the last function with that name.
pub fn complexity_by_function(functions: &Vec<FunctionInfo>) -> (r: Vec<(String, u32)>)
    ensures
        forall|i: int, j: int| 0 <= i < j < r@.len() ==> r@[i].0@ != r@[j].0@,
        forall|k: int|
            0 <= k < r@.len() ==> last_complexity(functions@, (#[trigger] r@[k]).0@, functions@.len() as int) == Some(
                r@[k].1,
            ),
        forall|i: int| 0 <= i < functions@.len() ==> has_entry(r@, (#[trigger] functions@[i]).name@),
{
    let mut out: Vec<(String, u32)> = Vec::new();
    let mut i: usize = 0;
    while i < functions.len()
        invariant
            i <= functions.len(),
            forall|a: int, b: int| 0 <= a < b < out@.len() ==> out@[a].0@ != out@[b].0@,
            forall|k: int|
                0 <= k < out@.len() ==> last_complexity(functions@, (#[trigger] out@[k]).0@, i as int) == Some(out@[k].1),
            forall|j: int| 0 <= j < i ==> has_entry(out@, (#[trigger] functions@[j]).name@),
        decreases functions.len() - i,
    {
        let f = &functions[i];
        let mut k: usize = 0;
        while k < out.len()
            invariant
                k <= out.len(),
                forall|q: int| 0 <= q < k ==> (#[trigger] out@[q]).0@ != f.name@,
            ensures
                k <= out.len(),
                forall|q: int| 0 <= q < k ==> (#[trigger] out@[q]).0@ != f.name@,
                k < out.len() ==> out@[k as int].0@ == f.name@,
            decreases out.len() - k,
        {
            if str_eq(out[k].0.as_str(), f.name.as_str()) {
                break;
            }
            k += 1;
        }
        let ghost before = out@;
        if k < out.len() {
            out.set(k, (f.name.clone(), f.complexity));
            proof {
                assert forall|q: int| 0 <= q < out@.len() implies last_complexity(functions@, (#[trigger] out@[q]).0@, i + 1) == Some(out@[q].1) by {
                    if q != k {
                        assert(out@[q] == before[q]);
                    }
                }
                assert forall|j: int| 0 <= j < i + 1 implies has_entry(out@, (#[trigger] functions@[j]).name@) by {
                    if j < i {
                        assert(has_entry(before, functions@[j].name@));
                        let q0 = choose|q: int| 0 <= q < before.len() && (#[trigger] before[q]).0@ == functions@[j].name@;
                        assert(out@[q0].0@ == before[q0].0@);
                    } else {
                        assert(out@[k as int].0@ == functions@[j].name@);
                    }
                }
            }
        } else {
            out.push((f.name.clone(), f.complexity));
            proof {
                assert forall|q: int| 0 <= q < out@.len() implies last_complexity(functions@, (#[trigger] out@[q]).0@, i + 1) == Some(out@[q].1) by {
                    if q < before.len() {
                        assert(out@[q] == before[q]);
                    }
                }
                assert forall|j: int| 0 <= j < i + 1 implies has_entry(out@, (#[trigger] functions@[j]).name@) by {
                    if j < i {
                        assert(has_entry(before, functions@[j].name@));
                        let q0 = choose|q: int| 0 <= q < before.len() && (#[trigger] before[q]).0@ == functions@[j].name@;
                        assert(out@[q0] == before[q0]);
                    } else {
                        assert(out@[before.len() as int].0@ == functions@[j].name@);
                    }
                }
            }
        }
        i += 1;
    }
    out
}

} // verus!
