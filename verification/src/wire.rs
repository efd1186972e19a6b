use vstd::prelude::*;
use vstd::string::*;

use crate::utils::{chars_of, string_of};
use crate::{CauseModel, CodeSnippet, DependencyCause, SnippetModel};
use crate::{DependencyLink, FileEntry, FileEntryModel, LinkModel};
use crate::{RecomplileDependency, RecomplileDependencyModel};
use crate::{DependencyType, RecomplileDependencyReason};

verus! {

// ---------------------------------------------------------------------
// Decimal numbers
// ---------------------------------------------------------------------

pub open spec fn is_digit(c: char) -> bool {
    48 <= c as u32 <= 57
}

pub open spec fn digit_char(d: int) -> char {
    (48 + d) as char
}

pub open spec fn digit_val(c: char) -> int {
    c as u32 - 48
}

/// A digit character is a digit and denotes its value.
proof fn lemma_digit_char_val(d: int)
    requires
        0 <= d <= 9,
    ensures
        is_digit(digit_char(d)),
        digit_val(digit_char(d)) == d,
{
}

/// The decimal digits of `n`, most significant first.
pub open spec fn spec_dec(n: nat) -> Seq<char>
    decreases n,
{
    if n < 10 {
        seq![digit_char(n as int)]
    } else {
        spec_dec(n / 10).push(digit_char((n % 10) as int))
    }
}

fn digit_of(d: u64) -> (c: char)
    requires
        d < 10,
    ensures
        c == digit_char(d as int),
{
    (48 + d as u8) as char
}

/// Appends the decimal digits of `n`.
pub fn push_dec(out: &mut Vec<char>, n: u64)
    ensures
        final(out)@ == old(out)@ + spec_dec(n as nat),
    decreases n,
{
    if n < 10 {
        out.push(digit_of(n));
        proof {
            assert(out@ =~= old(out)@ + spec_dec(n as nat));
        }
    } else {
        push_dec(out, n / 10);
        out.push(digit_of(n % 10));
        proof {
            assert(out@ =~= old(out)@ + spec_dec(n as nat));
        }
    }
}

// ---------------------------------------------------------------------
// Literals and strings
// ---------------------------------------------------------------------

/// Appends the characters of `lit`.
pub fn push_lit(out: &mut Vec<char>, lit: &str)
    ensures
        final(out)@ == old(out)@ + lit@,
{
    let cs = chars_of(lit);
    proof {
        assert(out@ =~= old(out)@ + lit@.take(0));
    }
    let mut i: usize = 0;
    while i < cs.len()
        invariant
            cs@ == lit@,
            i <= cs.len(),
            out@ == old(out)@ + lit@.take(i as int),
        decreases cs.len() - i,
    {
        out.push(cs[i]);
        i = i + 1;
        proof {
            assert(out@ =~= old(out)@ + lit@.take(i as int));
        }
    }
    proof {
        assert(lit@.take(cs@.len() as int) =~= lit@);
    }
}

pub open spec fn needs_escape(c: char) -> bool {
    c == '"' || c == '\\'
}

pub open spec fn escape_char(c: char) -> Seq<char> {
    if needs_escape(c) {
        seq!['\\', c]
    } else {
        seq![c]
    }
}

/// `s` with every quote and backslash preceded by a backslash.
pub open spec fn spec_escape(s: Seq<char>) -> Seq<char>
    decreases s.len(),
{
    if s.len() == 0 {
        Seq::empty()
    } else {
        spec_escape(s.drop_last()) + escape_char(s.last())
    }
}

/// A string on the wire: quoted, with quotes and backslashes escaped.
pub open spec fn spec_quoted(s: Seq<char>) -> Seq<char> {
    seq!['"'] + spec_escape(s) + seq!['"']
}

/// Appends `s` as a quoted wire string.
pub fn push_quoted(out: &mut Vec<char>, s: &String)
    ensures
        final(out)@ == old(out)@ + spec_quoted(s@),
{
    out.push('"');
    let cs = chars_of(s.as_str());
    proof {
        assert(s@.take(0) =~= Seq::<char>::empty());
        assert(out@ =~= old(out)@ + seq!['"'] + spec_escape(s@.take(0)));
    }
    let mut i: usize = 0;
    while i < cs.len()
        invariant
            cs@ == s@,
            i <= cs.len(),
            out@ == old(out)@ + seq!['"'] + spec_escape(s@.take(i as int)),
        decreases cs.len() - i,
    {
        let c = cs[i];
        if c == '"' || c == '\\' {
            out.push('\\');
        }
        out.push(c);
        i = i + 1;
        proof {
            assert(s@.take(i as int).drop_last() =~= s@.take(i as int - 1));
            assert(out@ =~= old(out)@ + seq!['"'] + spec_escape(s@.take(i as int)));
        }
    }
    out.push('"');
    proof {
        assert(s@.take(cs@.len() as int) =~= s@);
        assert(out@ =~= old(out)@ + spec_quoted(s@));
    }
}

// ---------------------------------------------------------------------
// Tags
// ---------------------------------------------------------------------

/// The wire tag of a recompile reason.
pub open spec fn spec_reason_tag(r: RecomplileDependencyReason) -> Seq<char> {
    match r {
        RecomplileDependencyReason::Compile => "compile"@,
        RecomplileDependencyReason::ExportsThenCompile => "exports_then_compile"@,
        RecomplileDependencyReason::Exports => "exports"@,
        RecomplileDependencyReason::CompileThenRuntime => "compile_then_runtime"@,
    }
}

/// The wire tag of a dependency type.
pub open spec fn spec_type_tag(t: DependencyType) -> Seq<char> {
    match t {
        DependencyType::Compile => "compile"@,
        DependencyType::Exports => "exports"@,
        DependencyType::Runtime => "runtime"@,
    }
}

pub fn reason_tag(r: &RecomplileDependencyReason) -> (res: String)
    ensures
        res@ == spec_reason_tag(*r),
{
    match r {
        RecomplileDependencyReason::Compile => String::from_str("compile"),
        RecomplileDependencyReason::ExportsThenCompile => String::from_str("exports_then_compile"),
        RecomplileDependencyReason::Exports => String::from_str("exports"),
        RecomplileDependencyReason::CompileThenRuntime => String::from_str("compile_then_runtime"),
    }
}

pub fn type_tag(t: &DependencyType) -> (res: String)
    ensures
        res@ == spec_type_tag(*t),
{
    match t {
        DependencyType::Compile => String::from_str("compile"),
        DependencyType::Exports => String::from_str("exports"),
        DependencyType::Runtime => String::from_str("runtime"),
    }
}

// ---------------------------------------------------------------------
// Request bodies and frames
// ---------------------------------------------------------------------

pub open spec fn spec_init_body() -> Seq<char> {
    "{\"type\":\"init\"}"@
}

pub open spec fn spec_get_files_body() -> Seq<char> {
    "{\"type\":\"get_files\"}"@
}

/// Exactly `{"type":"get_dependency_causes","source":<s>,"sink":<k>,"reason":<r>}`,
/// the two paths and the reason tag as quoted wire strings.
pub open spec fn spec_get_dependency_causes_body(
    source: Seq<char>,
    sink: Seq<char>,
    reason: RecomplileDependencyReason,
) -> Seq<char> {
    "{\"type\":\"get_dependency_causes\",\"source\":"@ + spec_quoted(source) + ",\"sink\":"@
        + spec_quoted(sink) + ",\"reason\":"@ + spec_quoted(spec_reason_tag(reason)) + "}"@
}

/// A request frame: `C[<id>]:<body>` and a trailing newline.
pub open spec fn spec_request_line(id: nat, body: Seq<char>) -> Seq<char> {
    seq!['C', '['] + spec_dec(id) + seq![']', ':'] + body + seq!['\n']
}

pub fn init_body() -> (res: String)
    ensures
        res@ == spec_init_body(),
{
    String::from_str("{\"type\":\"init\"}")
}

pub fn get_files_body() -> (res: String)
    ensures
        res@ == spec_get_files_body(),
{
    String::from_str("{\"type\":\"get_files\"}")
}

pub fn get_dependency_causes_body(
    source: &String,
    sink: &String,
    reason: &RecomplileDependencyReason,
) -> (res: String)
    ensures
        res@ == spec_get_dependency_causes_body(source@, sink@, *reason),
{
    let mut out: Vec<char> = Vec::new();
    push_lit(&mut out, "{\"type\":\"get_dependency_causes\",\"source\":");
    push_quoted(&mut out, source);
    push_lit(&mut out, ",\"sink\":");
    push_quoted(&mut out, sink);
    push_lit(&mut out, ",\"reason\":");
    let tag = reason_tag(reason);
    push_quoted(&mut out, &tag);
    push_lit(&mut out, "}");
    proof {
        assert(out@ =~= spec_get_dependency_causes_body(source@, sink@, *reason));
    }
    string_of(&out)
}

// ---------------------------------------------------------------------
// Primitive parsers. Each spec parser consumes a prefix of its input and
// returns the parsed value with the number of characters consumed; each
// executable parser works positionally inside a buffer and is exact with
// respect to its spec parser on the suffix starting at its position.
// ---------------------------------------------------------------------

/// Consumes `lit` if it is a prefix of `s`.
pub open spec fn spec_parse_lit(s: Seq<char>, lit: Seq<char>) -> Option<nat> {
    if lit.len() <= s.len() && s.take(lit.len() as int) == lit {
        Option::Some(lit.len())
    } else {
        Option::None
    }
}

pub fn parse_lit(v: &Vec<char>, i: usize, lit: &str) -> (r: Option<usize>)
    requires
        i <= v.len(),
    ensures
        r matches Some(j) ==> i <= j <= v.len(),
        match spec_parse_lit(v@.skip(i as int), lit@) {
            Option::Some(n) => (r matches Some(j) && j == i + n),
            Option::None => r is None,
        },
{
    let ghost s = v@.skip(i as int);
    let cs = chars_of(lit);
    if v.len() - i < cs.len() {
        return None;
    }
    let mut k: usize = 0;
    while k < cs.len()
        invariant
            cs@ == lit@,
            i <= v.len(),
            k <= cs.len() <= v.len() - i,
            s == v@.skip(i as int),
            forall|m: int| 0 <= m < k ==> s[m] == lit@[m],
        decreases cs.len() - k,
    {
        if v[i + k] != cs[k] {
            proof {
                assert(s[k as int] == v@[i + k as int]);
                assert(s.take(lit@.len() as int)[k as int] != lit@[k as int]);
            }
            return None;
        }
        proof {
            assert(s[k as int] == v@[i + k as int]);
        }
        k = k + 1;
    }
    proof {
        assert(s.take(lit@.len() as int) =~= lit@);
    }
    Some(i + cs.len())
}

/// The number of leading decimal digits of `s`.
pub open spec fn digit_run(s: Seq<char>) -> nat
    decreases s.len(),
{
    if s.len() == 0 || !is_digit(s[0]) {
        0
    } else {
        1 + digit_run(s.skip(1))
    }
}

/// The value of a sequence of decimal digits, most significant first.
pub open spec fn digits_val(s: Seq<char>) -> int
    decreases s.len(),
{
    if s.len() == 0 {
        0
    } else {
        digits_val(s.drop_last()) * 10 + digit_val(s.last())
    }
}

/// Consumes the maximal run of digits and yields its value, provided the
/// run is nonempty and the value fits in `usize`.
pub open spec fn spec_parse_usize(s: Seq<char>) -> Option<(int, nat)> {
    let n = digit_run(s);
    if n == 0 {
        Option::None
    } else if digits_val(s.take(n as int)) <= usize::MAX {
        Option::Some((digits_val(s.take(n as int)), n))
    } else {
        Option::None
    }
}

proof fn lemma_digit_run_exact(s: Seq<char>, m: int)
    requires
        0 <= m <= s.len(),
        forall|k: int| 0 <= k < m ==> is_digit(s[k]),
        m == s.len() || !is_digit(s[m]),
    ensures
        digit_run(s) == m,
    decreases m,
{
    if m == 0 {
    } else {
        assert(is_digit(s[0]));
        assert forall|k: int| 0 <= k < m - 1 implies is_digit(s.skip(1)[k]) by {
            assert(s.skip(1)[k] == s[k + 1]);
        }
        if m - 1 < s.skip(1).len() {
            assert(s.skip(1)[m - 1] == s[m as int]);
        }
        lemma_digit_run_exact(s.skip(1), m - 1);
    }
}

proof fn lemma_digits_val_nonneg(s: Seq<char>)
    requires
        forall|k: int| 0 <= k < s.len() ==> is_digit(s[k]),
    ensures
        digits_val(s) >= 0,
    decreases s.len(),
{
    if s.len() > 0 {
        assert forall|k: int| 0 <= k < s.drop_last().len() implies is_digit(s.drop_last()[k]) by {
            assert(s.drop_last()[k] == s[k]);
        }
        lemma_digits_val_nonneg(s.drop_last());
        assert(is_digit(s.last()));
    }
}

proof fn lemma_digits_val_monotone(s: Seq<char>, a: int, b: int)
    requires
        0 <= a <= b <= s.len(),
        forall|k: int| 0 <= k < s.len() ==> is_digit(s[k]),
    ensures
        digits_val(s.take(a)) <= digits_val(s.take(b)),
    decreases b - a,
{
    if a < b {
        lemma_digits_val_monotone(s, a, b - 1);
        assert forall|k: int| 0 <= k < s.take(b - 1).len() implies is_digit(
            #[trigger] s.take(b - 1)[k],
        ) by {
            assert(s.take(b - 1)[k] == s[k]);
        }
        lemma_digits_val_nonneg(s.take(b - 1));
        assert(s.take(b).drop_last() =~= s.take(b - 1));
        assert(s.take(b).last() == s[b - 1]);
        assert(is_digit(s[b - 1]));
    }
}

fn digit_at(v: &Vec<char>, j: usize) -> (r: bool)
    requires
        j < v.len(),
    ensures
        r == is_digit(v@[j as int]),
{
    let c = v[j];
    (c as u32) >= 48 && (c as u32) <= 57
}

pub fn parse_usize(v: &Vec<char>, i: usize) -> (r: Option<(usize, usize)>)
    requires
        i <= v.len(),
    ensures
        r matches Some(q) ==> i <= q.1 <= v.len(),
        match spec_parse_usize(v@.skip(i as int)) {
            Option::Some(p) => (r matches Some(q) && q.0 as int == p.0 && q.1 == i + p.1),
            Option::None => r is None,
        },
{
    let ghost s = v@.skip(i as int);
    let mut j = i;
    while j < v.len() && digit_at(v, j)
        invariant
            i <= j <= v.len(),
            s == v@.skip(i as int),
            forall|k: int| i <= k < j ==> is_digit(v@[k]),
        decreases v.len() - j,
    {
        j = j + 1;
    }
    proof {
        assert forall|k: int| 0 <= k < j - i implies is_digit(s[k]) by {
            assert(s[k] == v@[i + k]);
        }
        if j - i < s.len() {
            assert(s[j as int - i as int] == v@[j as int]);
        }
        lemma_digit_run_exact(s, j as int - i as int);
    }
    if j == i {
        return None;
    }
    let ghost n = (j - i) as int;
    let limit: u64 = usize::MAX as u64;
    let mut acc: u64 = 0;
    let mut k = i;
    proof {
        assert(s.take(0) =~= Seq::<char>::empty());
    }
    while k < j
        invariant
            i <= k <= j <= v.len(),
            s == v@.skip(i as int),
            n == j - i,
            limit == usize::MAX as u64,
            digit_run(s) == n,
            forall|kk: int| i <= kk < j ==> is_digit(v@[kk]),
            forall|kk: int| 0 <= kk < n ==> is_digit(s[kk]),
            acc as int == digits_val(s.take(k as int - i as int)),
            acc <= limit,
        decreases j - k,
    {
        let c = v[k];
        proof {
            assert(s[k as int - i as int] == v@[k as int]);
            assert(is_digit(s[k as int - i as int]));
        }
        let d: u64 = ((c as u32) - 48) as u64;
        proof {
            assert(s.take(k as int - i as int + 1).drop_last() =~= s.take(k as int - i as int));
            assert(s.take(k as int - i as int + 1).last() == s[k as int - i as int]);
            assert(digits_val(s.take(k as int - i as int + 1)) == acc as int * 10 + d as int);
        }
        if acc > limit / 10 || (acc == limit / 10 && d > limit % 10) {
            proof {
                assert(limit as int == (limit as int / 10) * 10 + (limit as int % 10));
                assert(acc as int * 10 + d as int > limit as int);
                assert forall|kk: int| 0 <= kk < s.take(n).len() implies is_digit(
                    s.take(n)[kk],
                ) by {
                    assert(s.take(n)[kk] == s[kk]);
                }
                assert(s.take(n).take(k as int - i as int + 1) =~= s.take(
                    k as int - i as int + 1,
                ));
                assert(s.take(n).take(n) =~= s.take(n));
                lemma_digits_val_monotone(s.take(n), k as int - i as int + 1, n);
                assert(digits_val(s.take(n)) > usize::MAX);
            }
            return None;
        }
        proof {
            assert(limit as int == (limit as int / 10) * 10 + (limit as int % 10));
            assert(acc as int * 10 + d as int <= limit as int);
        }
        acc = acc * 10 + d;
        k = k + 1;
    }
    proof {
        assert(s.take(n) =~= s.take(k as int - i as int));
    }
    Some((acc as usize, j))
}

/// The body of a quoted string after its opening quote: the characters up
/// to the closing quote, a backslash taking the next character verbatim.
/// The consumed count includes the closing quote.
pub open spec fn spec_parse_string_body(s: Seq<char>) -> Option<(Seq<char>, nat)>
    decreases s.len(),
{
    if s.len() == 0 {
        Option::None
    } else if s[0] == '"' {
        Option::Some((Seq::empty(), 1))
    } else if s[0] == '\\' {
        if s.len() < 2 {
            Option::None
        } else {
            match spec_parse_string_body(s.skip(2)) {
                Option::Some(p) => Option::Some((seq![s[1]] + p.0, p.1 + 2)),
                Option::None => Option::None,
            }
        }
    } else {
        match spec_parse_string_body(s.skip(1)) {
            Option::Some(p) => Option::Some((seq![s[0]] + p.0, p.1 + 1)),
            Option::None => Option::None,
        }
    }
}

/// A quoted wire string.
pub open spec fn spec_parse_string(s: Seq<char>) -> Option<(Seq<char>, nat)> {
    if s.len() > 0 && s[0] == '"' {
        match spec_parse_string_body(s.skip(1)) {
            Option::Some(p) => Option::Some((p.0, p.1 + 1)),
            Option::None => Option::None,
        }
    } else {
        Option::None
    }
}

pub fn parse_string(v: &Vec<char>, i: usize) -> (r: Option<(String, usize)>)
    requires
        i <= v.len(),
    ensures
        r matches Some(q) ==> i <= q.1 <= v.len(),
        match spec_parse_string(v@.skip(i as int)) {
            Option::Some(p) => (r matches Some(q) && q.0@ == p.0 && q.1 == i + p.1),
            Option::None => r is None,
        },
{
    let ghost s = v@.skip(i as int);
    if i == v.len() || v[i] != '"' {
        proof {
            if i < v.len() {
                assert(s[0] == v@[i as int]);
            }
        }
        return None;
    }
    proof {
        assert(s[0] == v@[i as int]);
    }
    let mut out: Vec<char> = Vec::new();
    let mut j = i + 1;
    proof {
        assert(v@.skip(j as int) =~= s.skip(1));
        if spec_parse_string_body(s.skip(1)) is Some {
            let p = spec_parse_string_body(s.skip(1))->0;
            assert(out@ + p.0 =~= p.0);
        }
    }
    while j < v.len()
        invariant
            i < v.len(),
            i + 1 <= j <= v.len(),
            s == v@.skip(i as int),
            s[0] == '"',
            match spec_parse_string_body(v@.skip(j as int)) {
                Option::Some(p) => spec_parse_string_body(s.skip(1)) == Option::Some(
                    (out@ + p.0, (j - i - 1) as nat + p.1),
                ),
                Option::None => spec_parse_string_body(s.skip(1)) is None,
            },
        decreases v.len() - j,
    {
        let ghost t = v@.skip(j as int);
        let c = v[j];
        proof {
            assert(t[0] == v@[j as int]);
        }
        if c == '"' {
            proof {
                assert(spec_parse_string_body(t) == Option::Some((Seq::<char>::empty(), 1nat)));
                assert(out@ + Seq::<char>::empty() =~= out@);
            }
            let res = string_of(&out);
            return Some((res, j + 1));
        } else if c == '\\' {
            if j + 1 == v.len() {
                proof {
                    assert(t.len() < 2);
                    assert(spec_parse_string_body(t) is None);
                }
                return None;
            }
            let e = v[j + 1];
            proof {
                assert(t[1] == v@[j + 1 as int]);
                assert(t.skip(2) =~= v@.skip(j as int + 2));
                if spec_parse_string_body(t.skip(2)) is Some {
                    let p2 = spec_parse_string_body(t.skip(2))->0;
                    assert(spec_parse_string_body(t) == Option::Some(
                        (seq![e] + p2.0, p2.1 + 2),
                    ));
                    assert(out@ + (seq![e] + p2.0) =~= (out@ + seq![e]) + p2.0);
                } else {
                    assert(spec_parse_string_body(t) is None);
                }
            }
            out.push(e);
            j = j + 2;
        } else {
            proof {
                assert(t.skip(1) =~= v@.skip(j as int + 1));
                if spec_parse_string_body(t.skip(1)) is Some {
                    let p2 = spec_parse_string_body(t.skip(1))->0;
                    assert(spec_parse_string_body(t) == Option::Some(
                        (seq![c] + p2.0, p2.1 + 1),
                    ));
                    assert(out@ + (seq![c] + p2.0) =~= (out@ + seq![c]) + p2.0);
                } else {
                    assert(spec_parse_string_body(t) is None);
                }
            }
            out.push(c);
            j = j + 1;
        }
    }
    proof {
        assert(v@.skip(j as int).len() == 0);
        assert(spec_parse_string_body(v@.skip(j as int)) is None);
    }
    None
}

// ---------------------------------------------------------------------
// Offset-style composition helpers: thread an optional absolute offset
// through successive parses of the same input.
// ---------------------------------------------------------------------

/// The offset after `lit`, if the parse so far succeeded and `lit` follows.
pub open spec fn lit_at(s: Seq<char>, o: Option<nat>, lit: Seq<char>) -> Option<nat> {
    match o {
        Option::Some(o) => match spec_parse_lit(s.skip(o as int), lit) {
            Option::Some(n) => Option::Some((o + n) as nat),
            Option::None => Option::None,
        },
        Option::None => Option::None,
    }
}

/// A quoted string at the given offset.
pub open spec fn string_at(s: Seq<char>, o: Option<nat>) -> Option<(Seq<char>, nat)> {
    match o {
        Option::Some(o) => match spec_parse_string(s.skip(o as int)) {
            Option::Some(p) => Option::Some((p.0, (o + p.1) as nat)),
            Option::None => Option::None,
        },
        Option::None => Option::None,
    }
}

/// A decimal number at the given offset.
pub open spec fn usize_at(s: Seq<char>, o: Option<nat>) -> Option<(int, nat)> {
    match o {
        Option::Some(o) => match spec_parse_usize(s.skip(o as int)) {
            Option::Some(p) => Option::Some((p.0, (o + p.1) as nat)),
            Option::None => Option::None,
        },
        Option::None => Option::None,
    }
}

// ---------------------------------------------------------------------
// Tags as values
// ---------------------------------------------------------------------

/// The reason a wire tag denotes, if any.
pub open spec fn spec_reason_of_tag(t: Seq<char>) -> Option<RecomplileDependencyReason> {
    if t == "compile"@ {
        Option::Some(RecomplileDependencyReason::Compile)
    } else if t == "exports_then_compile"@ {
        Option::Some(RecomplileDependencyReason::ExportsThenCompile)
    } else if t == "exports"@ {
        Option::Some(RecomplileDependencyReason::Exports)
    } else if t == "compile_then_runtime"@ {
        Option::Some(RecomplileDependencyReason::CompileThenRuntime)
    } else {
        Option::None
    }
}

/// The dependency type a wire tag denotes, if any.
pub open spec fn spec_type_of_tag(t: Seq<char>) -> Option<DependencyType> {
    if t == "compile"@ {
        Option::Some(DependencyType::Compile)
    } else if t == "exports"@ {
        Option::Some(DependencyType::Exports)
    } else if t == "runtime"@ {
        Option::Some(DependencyType::Runtime)
    } else {
        Option::None
    }
}

/// A quoted reason tag at the given offset.
pub open spec fn reason_at(s: Seq<char>, o: Option<nat>) -> Option<(
    RecomplileDependencyReason,
    nat,
)> {
    match string_at(s, o) {
        Option::Some((t, o2)) => match spec_reason_of_tag(t) {
            Option::Some(r) => Option::Some((r, o2)),
            Option::None => Option::None,
        },
        Option::None => Option::None,
    }
}

/// A quoted dependency-type tag at the given offset.
pub open spec fn type_at(s: Seq<char>, o: Option<nat>) -> Option<(DependencyType, nat)> {
    match string_at(s, o) {
        Option::Some((t, o2)) => match spec_type_of_tag(t) {
            Option::Some(d) => Option::Some((d, o2)),
            Option::None => Option::None,
        },
        Option::None => Option::None,
    }
}

fn reason_of_tag(t: &String) -> (r: Option<RecomplileDependencyReason>)
    ensures
        r == spec_reason_of_tag(t@),
{
    if *t == String::from_str("compile") {
        Some(RecomplileDependencyReason::Compile)
    } else if *t == String::from_str("exports_then_compile") {
        Some(RecomplileDependencyReason::ExportsThenCompile)
    } else if *t == String::from_str("exports") {
        Some(RecomplileDependencyReason::Exports)
    } else if *t == String::from_str("compile_then_runtime") {
        Some(RecomplileDependencyReason::CompileThenRuntime)
    } else {
        None
    }
}

fn type_of_tag(t: &String) -> (r: Option<DependencyType>)
    ensures
        r == spec_type_of_tag(t@),
{
    if *t == String::from_str("compile") {
        Some(DependencyType::Compile)
    } else if *t == String::from_str("exports") {
        Some(DependencyType::Exports)
    } else if *t == String::from_str("runtime") {
        Some(DependencyType::Runtime)
    } else {
        None
    }
}

// ---------------------------------------------------------------------
// Snippets and causes on the wire
// ---------------------------------------------------------------------

/// A code snippet as one wire object, fields in canonical order.
pub open spec fn spec_snippet_json(m: SnippetModel) -> Seq<char> {
    "{\"content\":"@ + spec_quoted(m.content) + ",\"highlight\":["@ + spec_dec(m.highlight.0 as nat)
        + ","@ + spec_dec(m.highlight.1 as nat) + "],\"lines_span\":["@ + spec_dec(
        m.lines_span.0 as nat,
    ) + ","@ + spec_dec(m.lines_span.1 as nat) + "]}"@
}

/// The comma-separated items of a nonempty snippet list.
pub open spec fn spec_snippet_items_json(ms: Seq<SnippetModel>) -> Seq<char>
    decreases ms.len(),
{
    if ms.len() <= 1 {
        spec_snippet_json(ms[0])
    } else {
        spec_snippet_json(ms[0]) + ","@ + spec_snippet_items_json(ms.skip(1))
    }
}

/// A snippet list as one wire array.
pub open spec fn spec_snippets_json(ms: Seq<SnippetModel>) -> Seq<char> {
    if ms.len() == 0 {
        "[]"@
    } else {
        "["@ + spec_snippet_items_json(ms) + "]"@
    }
}

/// A dependency cause as one wire object, fields in canonical order.
pub open spec fn spec_cause_json(m: CauseModel) -> Seq<char> {
    "{\"source\":"@ + spec_quoted(m.source) + ",\"sink\":"@ + spec_quoted(m.sink) + ",\"type\":"@
        + spec_quoted(spec_type_tag(m.dependency_type)) + ",\"snippets\":"@ + spec_snippets_json(
        m.snippets,
    ) + "}"@
}

/// The comma-separated items of a nonempty cause list.
pub open spec fn spec_cause_items_json(ms: Seq<CauseModel>) -> Seq<char>
    decreases ms.len(),
{
    if ms.len() <= 1 {
        spec_cause_json(ms[0])
    } else {
        spec_cause_json(ms[0]) + ","@ + spec_cause_items_json(ms.skip(1))
    }
}

/// A cause list as one wire array.
pub open spec fn spec_causes_json(ms: Seq<CauseModel>) -> Seq<char> {
    if ms.len() == 0 {
        "[]"@
    } else {
        "["@ + spec_cause_items_json(ms) + "]"@
    }
}

/// Appends one snippet as a wire object.
pub fn push_snippet(out: &mut Vec<char>, snippet: &CodeSnippet)
    ensures
        final(out)@ == old(out)@ + spec_snippet_json(snippet@),
{
    push_lit(out, "{\"content\":");
    push_quoted(out, &snippet.content);
    push_lit(out, ",\"highlight\":[");
    push_dec(out, snippet.highlight.0 as u64);
    push_lit(out, ",");
    push_dec(out, snippet.highlight.1 as u64);
    push_lit(out, "],\"lines_span\":[");
    push_dec(out, snippet.lines_span.0 as u64);
    push_lit(out, ",");
    push_dec(out, snippet.lines_span.1 as u64);
    push_lit(out, "]}");
    proof {
        assert(out@ =~= old(out)@ + spec_snippet_json(snippet@));
    }
}

fn push_snippet_items(out: &mut Vec<char>, items: &Vec<CodeSnippet>, k: usize)
    requires
        k < items.len(),
    ensures
        final(out)@ == old(out)@ + spec_snippet_items_json(items.deep_view().skip(k as int)),
    decreases items.len() - k,
{
    push_snippet(out, &items[k]);
    proof {
        assert(items.deep_view().skip(k as int)[0] == items@[k as int]@);
    }
    if k + 1 < items.len() {
        push_lit(out, ",");
        push_snippet_items(out, items, k + 1);
        proof {
            assert(items.deep_view().skip(k as int).skip(1) =~= items.deep_view().skip(
                k as int + 1,
            ));
            assert(out@ =~= old(out)@ + spec_snippet_items_json(items.deep_view().skip(k as int)));
        }
    } else {
        proof {
            assert(items.deep_view().skip(k as int).len() == 1);
        }
    }
}

/// Appends a snippet list as a wire array.
pub fn push_snippets(out: &mut Vec<char>, items: &Vec<CodeSnippet>)
    ensures
        final(out)@ == old(out)@ + spec_snippets_json(items.deep_view()),
{
    if items.len() == 0 {
        push_lit(out, "[]");
    } else {
        push_lit(out, "[");
        push_snippet_items(out, items, 0);
        push_lit(out, "]");
        proof {
            assert(items.deep_view().skip(0) =~= items.deep_view());
            assert(out@ =~= old(out)@ + spec_snippets_json(items.deep_view()));
        }
    }
}

/// Encodes one dependency cause as its wire object.
pub fn encode_dependency_cause(cause: &DependencyCause) -> (res: String)
    ensures
        res@ == spec_cause_json(cause@),
{
    let mut out: Vec<char> = Vec::new();
    push_lit(&mut out, "{\"source\":");
    push_quoted(&mut out, &cause.source);
    push_lit(&mut out, ",\"sink\":");
    push_quoted(&mut out, &cause.sink);
    push_lit(&mut out, ",\"type\":");
    let tag = type_tag(&cause.dependency_type);
    push_quoted(&mut out, &tag);
    push_lit(&mut out, ",\"snippets\":");
    push_snippets(&mut out, &cause.snippets);
    push_lit(&mut out, "}");
    proof {
        assert(out@ =~= spec_cause_json(cause@));
    }
    string_of(&out)
}

fn push_cause_items(out: &mut Vec<char>, items: &Vec<DependencyCause>, k: usize)
    requires
        k < items.len(),
    ensures
        final(out)@ == old(out)@ + spec_cause_items_json(items.deep_view().skip(k as int)),
    decreases items.len() - k,
{
    push_lit(out, "{\"source\":");
    push_quoted(out, &items[k].source);
    push_lit(out, ",\"sink\":");
    push_quoted(out, &items[k].sink);
    push_lit(out, ",\"type\":");
    let tag = type_tag(&items[k].dependency_type);
    push_quoted(out, &tag);
    push_lit(out, ",\"snippets\":");
    push_snippets(out, &items[k].snippets);
    push_lit(out, "}");
    proof {
        assert(items.deep_view().skip(k as int)[0] == items@[k as int]@);
        assert(out@ =~= old(out)@ + spec_cause_json(items@[k as int]@));
    }
    if k + 1 < items.len() {
        push_lit(out, ",");
        push_cause_items(out, items, k + 1);
        proof {
            assert(items.deep_view().skip(k as int).skip(1) =~= items.deep_view().skip(
                k as int + 1,
            ));
            assert(out@ =~= old(out)@ + spec_cause_items_json(items.deep_view().skip(k as int)));
        }
    } else {
        proof {
            assert(items.deep_view().skip(k as int).len() == 1);
        }
    }
}

/// Encodes a cause list as its wire array.
pub fn encode_dependency_causes(items: &Vec<DependencyCause>) -> (res: String)
    ensures
        res@ == spec_causes_json(items.deep_view()),
{
    let mut out: Vec<char> = Vec::new();
    if items.len() == 0 {
        push_lit(&mut out, "[]");
    } else {
        push_lit(&mut out, "[");
        push_cause_items(&mut out, items, 0);
        push_lit(&mut out, "]");
        proof {
            assert(items.deep_view().skip(0) =~= items.deep_view());
        }
    }
    proof {
        assert(out@ =~= spec_causes_json(items.deep_view()));
    }
    string_of(&out)
}

/// One snippet object, parsed.
#[verifier::opaque]
pub open spec fn spec_parse_snippet(s: Seq<char>) -> Option<(SnippetModel, nat)> {
    match string_at(s, lit_at(s, Option::Some(0), "{\"content\":"@)) {
        Option::None => Option::None,
        Option::Some((content, o1)) => match usize_at(
            s,
            lit_at(s, Option::Some(o1), ",\"highlight\":["@),
        ) {
            Option::None => Option::None,
            Option::Some((h0, o2)) => match usize_at(s, lit_at(s, Option::Some(o2), ","@)) {
                Option::None => Option::None,
                Option::Some((h1, o3)) => match usize_at(
                    s,
                    lit_at(s, Option::Some(o3), "],\"lines_span\":["@),
                ) {
                    Option::None => Option::None,
                    Option::Some((l0, o4)) => match usize_at(s, lit_at(s, Option::Some(o4), ","@)) {
                        Option::None => Option::None,
                        Option::Some((l1, o5)) => match lit_at(s, Option::Some(o5), "]}"@) {
                            Option::None => Option::None,
                            Option::Some(o6) => Option::Some(
                                (
                                    SnippetModel {
                                        content,
                                        highlight: (h0 as usize, h1 as usize),
                                        lines_span: (l0 as usize, l1 as usize),
                                    },
                                    o6,
                                ),
                            ),
                        },
                    },
                },
            },
        },
    }
}

#[verifier::rlimit(100)]
pub fn parse_snippet(v: &Vec<char>, i: usize) -> (r: Option<(CodeSnippet, usize)>)
    requires
        i <= v.len(),
    ensures
        r matches Some(q) ==> i < q.1 <= v.len(),
        match spec_parse_snippet(v@.skip(i as int)) {
            Option::Some(p) => (r matches Some(q) && q.0@ == p.0 && q.1 == i + p.1),
            Option::None => r is None,
        },
{
    let ghost s = v@.skip(i as int);
    proof {
        reveal(spec_parse_snippet);
        assert(s.skip(0) =~= s);
        reveal_strlit("{\"content\":");
    }
    let j1 = match parse_lit(v, i, "{\"content\":") {
        Some(j) => j,
        None => {
            return None;
        },
    };
    proof {
        assert(v@.skip(j1 as int) =~= s.skip(j1 as int - i as int));
    }
    let (content, j2) = match parse_string(v, j1) {
        Some(q) => q,
        None => {
            return None;
        },
    };
    proof {
        assert(v@.skip(j2 as int) =~= s.skip(j2 as int - i as int));
    }
    let j3 = match parse_lit(v, j2, ",\"highlight\":[") {
        Some(j) => j,
        None => {
            return None;
        },
    };
    proof {
        assert(v@.skip(j3 as int) =~= s.skip(j3 as int - i as int));
    }
    let (h0, j4) = match parse_usize(v, j3) {
        Some(q) => q,
        None => {
            return None;
        },
    };
    proof {
        assert(v@.skip(j4 as int) =~= s.skip(j4 as int - i as int));
    }
    let j5 = match parse_lit(v, j4, ",") {
        Some(j) => j,
        None => {
            return None;
        },
    };
    proof {
        assert(v@.skip(j5 as int) =~= s.skip(j5 as int - i as int));
    }
    let (h1, j6) = match parse_usize(v, j5) {
        Some(q) => q,
        None => {
            return None;
        },
    };
    proof {
        assert(v@.skip(j6 as int) =~= s.skip(j6 as int - i as int));
    }
    let j7 = match parse_lit(v, j6, "],\"lines_span\":[") {
        Some(j) => j,
        None => {
            return None;
        },
    };
    proof {
        assert(v@.skip(j7 as int) =~= s.skip(j7 as int - i as int));
    }
    let (l0, j8) = match parse_usize(v, j7) {
        Some(q) => q,
        None => {
            return None;
        },
    };
    proof {
        assert(v@.skip(j8 as int) =~= s.skip(j8 as int - i as int));
    }
    let j9 = match parse_lit(v, j8, ",") {
        Some(j) => j,
        None => {
            return None;
        },
    };
    proof {
        assert(v@.skip(j9 as int) =~= s.skip(j9 as int - i as int));
    }
    let (l1, j10) = match parse_usize(v, j9) {
        Some(q) => q,
        None => {
            return None;
        },
    };
    proof {
        assert(v@.skip(j10 as int) =~= s.skip(j10 as int - i as int));
    }
    let j11 = match parse_lit(v, j10, "]}") {
        Some(j) => j,
        None => {
            return None;
        },
    };
    let snippet = CodeSnippet { content, highlight: (h0, h1), lines_span: (l0, l1) };
    proof {
        let p = spec_parse_snippet(s)->0;
        assert(snippet@ =~= p.0);
    }
    Some((snippet, j11))
}

/// The items of a nonempty snippet list, including the closing bracket.
pub open spec fn spec_parse_snippet_items(s: Seq<char>) -> Option<(Seq<SnippetModel>, nat)>
    decreases s.len(),
{
    match spec_parse_snippet(s) {
        Option::None => Option::None,
        Option::Some((m, n)) => {
            if n >= s.len() {
                Option::None
            } else if s[n as int] == ']' {
                Option::Some((seq![m], (n + 1) as nat))
            } else if s[n as int] == ',' {
                match spec_parse_snippet_items(s.skip(n as int + 1)) {
                    Option::None => Option::None,
                    Option::Some((ms, n2)) => Option::Some((seq![m] + ms, (n + 1 + n2) as nat)),
                }
            } else {
                Option::None
            }
        },
    }
}

/// A snippet list, parsed.
pub open spec fn spec_parse_snippets(s: Seq<char>) -> Option<(Seq<SnippetModel>, nat)> {
    if s.len() >= 2 && s[0] == '[' && s[1] == ']' {
        Option::Some((Seq::empty(), 2))
    } else if s.len() >= 1 && s[0] == '[' {
        match spec_parse_snippet_items(s.skip(1)) {
            Option::Some((ms, n)) => Option::Some((ms, (n + 1) as nat)),
            Option::None => Option::None,
        }
    } else {
        Option::None
    }
}

#[verifier::rlimit(100)]
fn parse_snippet_items(v: &Vec<char>, i: usize) -> (r: Option<(Vec<CodeSnippet>, usize)>)
    requires
        i <= v.len(),
    ensures
        r matches Some(q) ==> i < q.1 <= v.len(),
        match spec_parse_snippet_items(v@.skip(i as int)) {
            Option::Some(p) => (r matches Some(q) && q.0.deep_view() == p.0 && q.1 == i + p.1),
            Option::None => r is None,
        },
    decreases v.len() - i,
{
    let ghost s = v@.skip(i as int);
    let (first, j) = match parse_snippet(v, i) {
        Some(q) => q,
        None => {
            return None;
        },
    };
    if j == v.len() {
        return None;
    }
    let c = v[j];
    proof {
        assert(s[j as int - i as int] == v@[j as int]);
    }
    if c == ']' {
        let mut out: Vec<CodeSnippet> = Vec::new();
        out.push(first);
        proof {
            assert(out.deep_view() =~= seq![first@]);
        }
        Some((out, j + 1))
    } else if c == ',' {
        let (mut rest, j2) = match parse_snippet_items(v, j + 1) {
            Some(q) => q,
            None => {
                proof {
                    assert(v@.skip(j as int + 1) =~= s.skip(j as int - i as int + 1));
                }
                return None;
            },
        };
        proof {
            assert(v@.skip(j as int + 1) =~= s.skip(j as int - i as int + 1));
        }
        let mut out: Vec<CodeSnippet> = Vec::new();
        out.push(first);
        out.append(&mut rest);
        proof {
            let p = spec_parse_snippet_items(s)->0;
            assert(out.deep_view() =~= p.0);
        }
        Some((out, j2))
    } else {
        None
    }
}

pub fn parse_snippets(v: &Vec<char>, i: usize) -> (r: Option<(Vec<CodeSnippet>, usize)>)
    requires
        i <= v.len(),
    ensures
        r matches Some(q) ==> i < q.1 <= v.len(),
        match spec_parse_snippets(v@.skip(i as int)) {
            Option::Some(p) => (r matches Some(q) && q.0.deep_view() == p.0 && q.1 == i + p.1),
            Option::None => r is None,
        },
{
    let ghost s = v@.skip(i as int);
    if i == v.len() || v[i] != '[' {
        proof {
            if i < v.len() {
                assert(s[0] == v@[i as int]);
            }
        }
        return None;
    }
    proof {
        assert(s[0] == v@[i as int]);
    }
    if i + 1 < v.len() && v[i + 1] == ']' {
        let empty: Vec<CodeSnippet> = Vec::new();
        proof {
            assert(s[1] == v@[i + 1 as int]);
            assert(empty.deep_view() =~= Seq::<SnippetModel>::empty());
        }
        return Some((empty, i + 2));
    }
    proof {
        if i + 1 < v.len() {
            assert(s[1] == v@[i + 1 as int]);
        }
        assert(v@.skip(i as int + 1) =~= s.skip(1));
    }
    match parse_snippet_items(v, i + 1) {
        Some((items, j)) => Some((items, j)),
        None => None,
    }
}

/// One dependency-cause object, parsed.
pub open spec fn snippets_at(s: Seq<char>, o: Option<nat>) -> Option<(Seq<SnippetModel>, nat)> {
    match o {
        Option::Some(o) => match spec_parse_snippets(s.skip(o as int)) {
            Option::Some(p) => Option::Some((p.0, (o + p.1) as nat)),
            Option::None => Option::None,
        },
        Option::None => Option::None,
    }
}

#[verifier::opaque]
pub open spec fn spec_parse_cause(s: Seq<char>) -> Option<(CauseModel, nat)> {
    match string_at(s, lit_at(s, Option::Some(0), "{\"source\":"@)) {
        Option::None => Option::None,
        Option::Some((source, o1)) => match string_at(s, lit_at(s, Option::Some(o1), ",\"sink\":"@)) {
            Option::None => Option::None,
            Option::Some((sink, o2)) => match type_at(s, lit_at(s, Option::Some(o2), ",\"type\":"@)) {
                Option::None => Option::None,
                Option::Some((ty, o3)) => match snippets_at(
                    s,
                    lit_at(s, Option::Some(o3), ",\"snippets\":"@),
                ) {
                    Option::None => Option::None,
                    Option::Some((snips, o4)) => match lit_at(s, Option::Some(o4), "}"@) {
                        Option::None => Option::None,
                        Option::Some(o5) => Option::Some(
                            (
                                CauseModel {
                                    source,
                                    sink,
                                    snippets: snips,
                                    dependency_type: ty,
                                },
                                o5,
                            ),
                        ),
                    },
                },
            },
        },
    }
}

#[verifier::rlimit(100)]
pub fn parse_cause(v: &Vec<char>, i: usize) -> (r: Option<(DependencyCause, usize)>)
    requires
        i <= v.len(),
    ensures
        r matches Some(q) ==> i < q.1 <= v.len(),
        match spec_parse_cause(v@.skip(i as int)) {
            Option::Some(p) => (r matches Some(q) && q.0@ == p.0 && q.1 == i + p.1),
            Option::None => r is None,
        },
{
    let ghost s = v@.skip(i as int);
    proof {
        reveal(spec_parse_cause);
        assert(s.skip(0) =~= s);
        reveal_strlit("{\"source\":");
    }
    let j1 = match parse_lit(v, i, "{\"source\":") {
        Some(j) => j,
        None => {
            return None;
        },
    };
    proof {
        assert(v@.skip(j1 as int) =~= s.skip(j1 as int - i as int));
    }
    let (source, j2) = match parse_string(v, j1) {
        Some(q) => q,
        None => {
            return None;
        },
    };
    proof {
        assert(v@.skip(j2 as int) =~= s.skip(j2 as int - i as int));
    }
    let j3 = match parse_lit(v, j2, ",\"sink\":") {
        Some(j) => j,
        None => {
            return None;
        },
    };
    proof {
        assert(v@.skip(j3 as int) =~= s.skip(j3 as int - i as int));
    }
    let (sink, j4) = match parse_string(v, j3) {
        Some(q) => q,
        None => {
            return None;
        },
    };
    proof {
        assert(v@.skip(j4 as int) =~= s.skip(j4 as int - i as int));
    }
    let j5 = match parse_lit(v, j4, ",\"type\":") {
        Some(j) => j,
        None => {
            return None;
        },
    };
    proof {
        assert(v@.skip(j5 as int) =~= s.skip(j5 as int - i as int));
    }
    let (tag, j6) = match parse_string(v, j5) {
        Some(q) => q,
        None => {
            return None;
        },
    };
    let ty = match type_of_tag(&tag) {
        Some(t) => t,
        None => {
            return None;
        },
    };
    proof {
        assert(v@.skip(j6 as int) =~= s.skip(j6 as int - i as int));
    }
    let j7 = match parse_lit(v, j6, ",\"snippets\":") {
        Some(j) => j,
        None => {
            return None;
        },
    };
    proof {
        assert(v@.skip(j7 as int) =~= s.skip(j7 as int - i as int));
    }
    let (snippets, j8) = match parse_snippets(v, j7) {
        Some(q) => q,
        None => {
            return None;
        },
    };
    proof {
        assert(v@.skip(j8 as int) =~= s.skip(j8 as int - i as int));
    }
    let j9 = match parse_lit(v, j8, "}") {
        Some(j) => j,
        None => {
            return None;
        },
    };
    let cause = DependencyCause { source, sink, snippets, dependency_type: ty };
    proof {
        let p = spec_parse_cause(s)->0;
        assert(cause@ =~= p.0);
    }
    Some((cause, j9))
}

/// The items of a nonempty cause list, including the closing bracket.
pub open spec fn spec_parse_cause_items(s: Seq<char>) -> Option<(Seq<CauseModel>, nat)>
    decreases s.len(),
{
    match spec_parse_cause(s) {
        Option::None => Option::None,
        Option::Some((m, n)) => {
            if n >= s.len() {
                Option::None
            } else if s[n as int] == ']' {
                Option::Some((seq![m], (n + 1) as nat))
            } else if s[n as int] == ',' {
                match spec_parse_cause_items(s.skip(n as int + 1)) {
                    Option::None => Option::None,
                    Option::Some((ms, n2)) => Option::Some((seq![m] + ms, (n + 1 + n2) as nat)),
                }
            } else {
                Option::None
            }
        },
    }
}

/// A cause list, parsed.
pub open spec fn spec_parse_causes(s: Seq<char>) -> Option<(Seq<CauseModel>, nat)> {
    if s.len() >= 2 && s[0] == '[' && s[1] == ']' {
        Option::Some((Seq::empty(), 2))
    } else if s.len() >= 1 && s[0] == '[' {
        match spec_parse_cause_items(s.skip(1)) {
            Option::Some((ms, n)) => Option::Some((ms, (n + 1) as nat)),
            Option::None => Option::None,
        }
    } else {
        Option::None
    }
}

#[verifier::rlimit(100)]
fn parse_cause_items(v: &Vec<char>, i: usize) -> (r: Option<(Vec<DependencyCause>, usize)>)
    requires
        i <= v.len(),
    ensures
        r matches Some(q) ==> i < q.1 <= v.len(),
        match spec_parse_cause_items(v@.skip(i as int)) {
            Option::Some(p) => (r matches Some(q) && q.0.deep_view() == p.0 && q.1 == i + p.1),
            Option::None => r is None,
        },
    decreases v.len() - i,
{
    let ghost s = v@.skip(i as int);
    let (first, j) = match parse_cause(v, i) {
        Some(q) => q,
        None => {
            return None;
        },
    };
    if j == v.len() {
        return None;
    }
    let c = v[j];
    proof {
        assert(s[j as int - i as int] == v@[j as int]);
    }
    if c == ']' {
        let mut out: Vec<DependencyCause> = Vec::new();
        out.push(first);
        proof {
            assert(out.deep_view() =~= seq![first@]);
        }
        Some((out, j + 1))
    } else if c == ',' {
        let (mut rest, j2) = match parse_cause_items(v, j + 1) {
            Some(q) => q,
            None => {
                proof {
                    assert(v@.skip(j as int + 1) =~= s.skip(j as int - i as int + 1));
                }
                return None;
            },
        };
        proof {
            assert(v@.skip(j as int + 1) =~= s.skip(j as int - i as int + 1));
        }
        let mut out: Vec<DependencyCause> = Vec::new();
        out.push(first);
        out.append(&mut rest);
        proof {
            let p = spec_parse_cause_items(s)->0;
            assert(out.deep_view() =~= p.0);
        }
        Some((out, j2))
    } else {
        None
    }
}

pub fn parse_causes(v: &Vec<char>, i: usize) -> (r: Option<(Vec<DependencyCause>, usize)>)
    requires
        i <= v.len(),
    ensures
        r matches Some(q) ==> i < q.1 <= v.len(),
        match spec_parse_causes(v@.skip(i as int)) {
            Option::Some(p) => (r matches Some(q) && q.0.deep_view() == p.0 && q.1 == i + p.1),
            Option::None => r is None,
        },
{
    let ghost s = v@.skip(i as int);
    if i == v.len() || v[i] != '[' {
        proof {
            if i < v.len() {
                assert(s[0] == v@[i as int]);
            }
        }
        return None;
    }
    proof {
        assert(s[0] == v@[i as int]);
    }
    if i + 1 < v.len() && v[i + 1] == ']' {
        let empty: Vec<DependencyCause> = Vec::new();
        proof {
            assert(s[1] == v@[i + 1 as int]);
            assert(empty.deep_view() =~= Seq::<CauseModel>::empty());
        }
        return Some((empty, i + 2));
    }
    proof {
        if i + 1 < v.len() {
            assert(s[1] == v@[i + 1 as int]);
        }
        assert(v@.skip(i as int + 1) =~= s.skip(1));
    }
    match parse_cause_items(v, i + 1) {
        Some((items, j)) => Some((items, j)),
        None => None,
    }
}

/// A decode failure: the payload is not a well-formed wire value of the
/// expected shape.
#[derive(Clone, Copy, Debug, PartialEq, Eq, Structural)]
pub enum WireError {
    Malformed,
}

/// The cause list a whole payload denotes, if it is exactly one.
pub open spec fn spec_decode_causes(s: Seq<char>) -> Option<Seq<CauseModel>> {
    match spec_parse_causes(s) {
        Option::Some(p) => if p.1 == s.len() {
            Option::Some(p.0)
        } else {
            Option::None
        },
        Option::None => Option::None,
    }
}

/// Decodes a whole payload as a dependency-cause list.
pub fn decode_dependency_causes(payload: &String) -> (r: Result<Vec<DependencyCause>, WireError>)
    ensures
        match spec_decode_causes(payload@) {
            Option::Some(ms) => (r matches Ok(cs) && cs.deep_view() == ms),
            Option::None => r is Err,
        },
{
    let v = chars_of(payload.as_str());
    proof {
        assert(v@.skip(0) =~= payload@);
    }
    match parse_causes(&v, 0) {
        Some((causes, j)) => {
            if j == v.len() {
                Ok(causes)
            } else {
                Err(WireError::Malformed)
            }
        },
        None => Err(WireError::Malformed),
    }
}

// ---------------------------------------------------------------------
// File listings on the wire
// ---------------------------------------------------------------------

/// One dependency link, parsed.
pub open spec fn spec_parse_link(s: Seq<char>) -> Option<(LinkModel, nat)> {
    match string_at(s, lit_at(s, Option::Some(0), "{\"source\":"@)) {
        Option::None => Option::None,
        Option::Some((source, o1)) => match string_at(s, lit_at(s, Option::Some(o1), ",\"sink\":"@)) {
            Option::None => Option::None,
            Option::Some((sink, o2)) => match type_at(s, lit_at(s, Option::Some(o2), ",\"type\":"@)) {
                Option::None => Option::None,
                Option::Some((ty, o3)) => match lit_at(s, Option::Some(o3), "}"@) {
                    Option::None => Option::None,
                    Option::Some(o4) => Option::Some(
                        (LinkModel { dependency_type: ty, source, sink }, o4),
                    ),
                },
            },
        },
    }
}

#[verifier::rlimit(100)]
pub fn parse_link(v: &Vec<char>, i: usize) -> (r: Option<(DependencyLink, usize)>)
    requires
        i <= v.len(),
    ensures
        r matches Some(q) ==> i < q.1 <= v.len(),
        match spec_parse_link(v@.skip(i as int)) {
            Option::Some(p) => (r matches Some(q) && q.0@ == p.0 && q.1 == i + p.1),
            Option::None => r is None,
        },
{
    let ghost s = v@.skip(i as int);
    proof {
        reveal(spec_parse_cause);
        assert(s.skip(0) =~= s);
        reveal_strlit("{\"source\":");
    }
    let j1 = match parse_lit(v, i, "{\"source\":") {
        Some(j) => j,
        None => {
            return None;
        },
    };
    proof {
        assert(v@.skip(j1 as int) =~= s.skip(j1 as int - i as int));
    }
    let (source, j2) = match parse_string(v, j1) {
        Some(q) => q,
        None => {
            return None;
        },
    };
    proof {
        assert(v@.skip(j2 as int) =~= s.skip(j2 as int - i as int));
    }
    let j3 = match parse_lit(v, j2, ",\"sink\":") {
        Some(j) => j,
        None => {
            return None;
        },
    };
    proof {
        assert(v@.skip(j3 as int) =~= s.skip(j3 as int - i as int));
    }
    let (sink, j4) = match parse_string(v, j3) {
        Some(q) => q,
        None => {
            return None;
        },
    };
    proof {
        assert(v@.skip(j4 as int) =~= s.skip(j4 as int - i as int));
    }
    let j5 = match parse_lit(v, j4, ",\"type\":") {
        Some(j) => j,
        None => {
            return None;
        },
    };
    proof {
        assert(v@.skip(j5 as int) =~= s.skip(j5 as int - i as int));
    }
    let (tag, j6) = match parse_string(v, j5) {
        Some(q) => q,
        None => {
            return None;
        },
    };
    let ty = match type_of_tag(&tag) {
        Some(t) => t,
        None => {
            return None;
        },
    };
    proof {
        assert(v@.skip(j6 as int) =~= s.skip(j6 as int - i as int));
    }
    let j7 = match parse_lit(v, j6, "}") {
        Some(j) => j,
        None => {
            return None;
        },
    };
    let link = DependencyLink { dependency_type: ty, source, sink };
    proof {
        let p = spec_parse_link(s)->0;
        assert(link@ =~= p.0);
    }
    Some((link, j7))
}

/// The items of a nonempty link list, including the closing bracket.
pub open spec fn spec_parse_link_items(s: Seq<char>) -> Option<(Seq<LinkModel>, nat)>
    decreases s.len(),
{
    match spec_parse_link(s) {
        Option::None => Option::None,
        Option::Some((m, n)) => {
            if n >= s.len() {
                Option::None
            } else if s[n as int] == ']' {
                Option::Some((seq![m], (n + 1) as nat))
            } else if s[n as int] == ',' {
                match spec_parse_link_items(s.skip(n as int + 1)) {
                    Option::None => Option::None,
                    Option::Some((ms, n2)) => Option::Some((seq![m] + ms, (n + 1 + n2) as nat)),
                }
            } else {
                Option::None
            }
        },
    }
}

/// A link list, parsed.
pub open spec fn spec_parse_links(s: Seq<char>) -> Option<(Seq<LinkModel>, nat)> {
    if s.len() >= 2 && s[0] == '[' && s[1] == ']' {
        Option::Some((Seq::empty(), 2))
    } else if s.len() >= 1 && s[0] == '[' {
        match spec_parse_link_items(s.skip(1)) {
            Option::Some((ms, n)) => Option::Some((ms, (n + 1) as nat)),
            Option::None => Option::None,
        }
    } else {
        Option::None
    }
}

#[verifier::rlimit(100)]
fn parse_link_items(v: &Vec<char>, i: usize) -> (r: Option<(Vec<DependencyLink>, usize)>)
    requires
        i <= v.len(),
    ensures
        r matches Some(q) ==> i < q.1 <= v.len(),
        match spec_parse_link_items(v@.skip(i as int)) {
            Option::Some(p) => (r matches Some(q) && q.0.deep_view() == p.0 && q.1 == i + p.1),
            Option::None => r is None,
        },
    decreases v.len() - i,
{
    let ghost s = v@.skip(i as int);
    let (first, j) = match parse_link(v, i) {
        Some(q) => q,
        None => {
            return None;
        },
    };
    if j == v.len() {
        return None;
    }
    let c = v[j];
    proof {
        assert(s[j as int - i as int] == v@[j as int]);
    }
    if c == ']' {
        let mut out: Vec<DependencyLink> = Vec::new();
        out.push(first);
        proof {
            assert(out.deep_view() =~= seq![first@]);
        }
        Some((out, j + 1))
    } else if c == ',' {
        let (mut rest, j2) = match parse_link_items(v, j + 1) {
            Some(q) => q,
            None => {
                proof {
                    assert(v@.skip(j as int + 1) =~= s.skip(j as int - i as int + 1));
                }
                return None;
            },
        };
        proof {
            assert(v@.skip(j as int + 1) =~= s.skip(j as int - i as int + 1));
        }
        let mut out: Vec<DependencyLink> = Vec::new();
        out.push(first);
        out.append(&mut rest);
        proof {
            let p = spec_parse_link_items(s)->0;
            assert(out.deep_view() =~= p.0);
        }
        Some((out, j2))
    } else {
        None
    }
}

pub fn parse_links(v: &Vec<char>, i: usize) -> (r: Option<(Vec<DependencyLink>, usize)>)
    requires
        i <= v.len(),
    ensures
        r matches Some(q) ==> i < q.1 <= v.len(),
        match spec_parse_links(v@.skip(i as int)) {
            Option::Some(p) => (r matches Some(q) && q.0.deep_view() == p.0 && q.1 == i + p.1),
            Option::None => r is None,
        },
{
    let ghost s = v@.skip(i as int);
    if i == v.len() || v[i] != '[' {
        proof {
            if i < v.len() {
                assert(s[0] == v@[i as int]);
            }
        }
        return None;
    }
    proof {
        assert(s[0] == v@[i as int]);
    }
    if i + 1 < v.len() && v[i + 1] == ']' {
        let empty: Vec<DependencyLink> = Vec::new();
        proof {
            assert(s[1] == v@[i + 1 as int]);
            assert(empty.deep_view() =~= Seq::<LinkModel>::empty());
        }
        return Some((empty, i + 2));
    }
    proof {
        if i + 1 < v.len() {
            assert(s[1] == v@[i + 1 as int]);
        }
        assert(v@.skip(i as int + 1) =~= s.skip(1));
    }
    match parse_link_items(v, i + 1) {
        Some((items, j)) => Some((items, j)),
        None => None,
    }
}

/// A link list at the given offset.
pub open spec fn links_at(s: Seq<char>, o: Option<nat>) -> Option<(Seq<LinkModel>, nat)> {
    match o {
        Option::Some(o) => match spec_parse_links(s.skip(o as int)) {
            Option::Some(p) => Option::Some((p.0, (o + p.1) as nat)),
            Option::None => Option::None,
        },
        Option::None => Option::None,
    }
}

/// One recompile-dependency object, parsed.
pub open spec fn spec_parse_dependency(s: Seq<char>) -> Option<(RecomplileDependencyModel, nat)> {
    match string_at(s, lit_at(s, Option::Some(0), "{\"id\":"@)) {
        Option::None => Option::None,
        Option::Some((id, o1)) => match string_at(s, lit_at(s, Option::Some(o1), ",\"path\":"@)) {
            Option::None => Option::None,
            Option::Some((path, o2)) => match reason_at(
                s,
                lit_at(s, Option::Some(o2), ",\"reason\":"@),
            ) {
                Option::None => Option::None,
                Option::Some((reason, o3)) => match links_at(
                    s,
                    lit_at(s, Option::Some(o3), ",\"dependency_chain\":"@),
                ) {
                    Option::None => Option::None,
                    Option::Some((chain, o4)) => match lit_at(s, Option::Some(o4), "}"@) {
                        Option::None => Option::None,
                        Option::Some(o5) => Option::Some(
                            (
                                RecomplileDependencyModel {
                                    id,
                                    path,
                                    reason,
                                    dependency_chain: chain,
                                },
                                o5,
                            ),
                        ),
                    },
                },
            },
        },
    }
}

#[verifier::rlimit(100)]
#[verifier::spinoff_prover]
pub fn parse_dependency(v: &Vec<char>, i: usize) -> (r: Option<(RecomplileDependency, usize)>)
    requires
        i <= v.len(),
    ensures
        r matches Some(q) ==> i < q.1 <= v.len(),
        match spec_parse_dependency(v@.skip(i as int)) {
            Option::Some(p) => (r matches Some(q) && q.0@ == p.0 && q.1 == i + p.1),
            Option::None => r is None,
        },
{
    let ghost s = v@.skip(i as int);
    proof {
        assert(s.skip(0) =~= s);
        reveal_strlit("{\"id\":");
    }
    let j1 = match parse_lit(v, i, "{\"id\":") {
        Some(j) => j,
        None => {
            return None;
        },
    };
    proof {
        assert(v@.skip(j1 as int) =~= s.skip(j1 as int - i as int));
    }
    let (id, j2) = match parse_string(v, j1) {
        Some(q) => q,
        None => {
            return None;
        },
    };
    proof {
        assert(v@.skip(j2 as int) =~= s.skip(j2 as int - i as int));
    }
    let j3 = match parse_lit(v, j2, ",\"path\":") {
        Some(j) => j,
        None => {
            return None;
        },
    };
    proof {
        assert(v@.skip(j3 as int) =~= s.skip(j3 as int - i as int));
    }
    let (path, j4) = match parse_string(v, j3) {
        Some(q) => q,
        None => {
            return None;
        },
    };
    proof {
        assert(v@.skip(j4 as int) =~= s.skip(j4 as int - i as int));
    }
    let j5 = match parse_lit(v, j4, ",\"reason\":") {
        Some(j) => j,
        None => {
            return None;
        },
    };
    proof {
        assert(v@.skip(j5 as int) =~= s.skip(j5 as int - i as int));
    }
    let (tag, j6) = match parse_string(v, j5) {
        Some(q) => q,
        None => {
            return None;
        },
    };
    let reason = match reason_of_tag(&tag) {
        Some(t) => t,
        None => {
            return None;
        },
    };
    proof {
        assert(v@.skip(j6 as int) =~= s.skip(j6 as int - i as int));
    }
    let j7 = match parse_lit(v, j6, ",\"dependency_chain\":") {
        Some(j) => j,
        None => {
            return None;
        },
    };
    proof {
        assert(v@.skip(j7 as int) =~= s.skip(j7 as int - i as int));
    }
    let (chain, j8) = match parse_links(v, j7) {
        Some(q) => q,
        None => {
            return None;
        },
    };
    proof {
        assert(v@.skip(j8 as int) =~= s.skip(j8 as int - i as int));
    }
    let j9 = match parse_lit(v, j8, "}") {
        Some(j) => j,
        None => {
            return None;
        },
    };
    let dep = RecomplileDependency { id, path, reason, dependency_chain: chain };
    proof {
        let p = spec_parse_dependency(s)->0;
        assert(dep@ =~= p.0);
    }
    Some((dep, j9))
}

/// The items of a nonempty dependency list, including the closing bracket.
pub open spec fn spec_parse_dependency_items(s: Seq<char>) -> Option<(
    Seq<RecomplileDependencyModel>,
    nat,
)>
    decreases s.len(),
{
    match spec_parse_dependency(s) {
        Option::None => Option::None,
        Option::Some((m, n)) => {
            if n >= s.len() {
                Option::None
            } else if s[n as int] == ']' {
                Option::Some((seq![m], (n + 1) as nat))
            } else if s[n as int] == ',' {
                match spec_parse_dependency_items(s.skip(n as int + 1)) {
                    Option::None => Option::None,
                    Option::Some((ms, n2)) => Option::Some((seq![m] + ms, (n + 1 + n2) as nat)),
                }
            } else {
                Option::None
            }
        },
    }
}

/// A dependency list, parsed.
pub open spec fn spec_parse_dependencies(s: Seq<char>) -> Option<(
    Seq<RecomplileDependencyModel>,
    nat,
)> {
    if s.len() >= 2 && s[0] == '[' && s[1] == ']' {
        Option::Some((Seq::empty(), 2))
    } else if s.len() >= 1 && s[0] == '[' {
        match spec_parse_dependency_items(s.skip(1)) {
            Option::Some((ms, n)) => Option::Some((ms, (n + 1) as nat)),
            Option::None => Option::None,
        }
    } else {
        Option::None
    }
}

#[verifier::rlimit(100)]
fn parse_dependency_items(v: &Vec<char>, i: usize) -> (r: Option<(Vec<RecomplileDependency>, usize)>)
    requires
        i <= v.len(),
    ensures
        r matches Some(q) ==> i < q.1 <= v.len(),
        match spec_parse_dependency_items(v@.skip(i as int)) {
            Option::Some(p) => (r matches Some(q) && q.0.deep_view() == p.0 && q.1 == i + p.1),
            Option::None => r is None,
        },
    decreases v.len() - i,
{
    let ghost s = v@.skip(i as int);
    let (first, j) = match parse_dependency(v, i) {
        Some(q) => q,
        None => {
            return None;
        },
    };
    if j == v.len() {
        return None;
    }
    let c = v[j];
    proof {
        assert(s[j as int - i as int] == v@[j as int]);
    }
    if c == ']' {
        let mut out: Vec<RecomplileDependency> = Vec::new();
        out.push(first);
        proof {
            assert(out.deep_view() =~= seq![first@]);
        }
        Some((out, j + 1))
    } else if c == ',' {
        let (mut rest, j2) = match parse_dependency_items(v, j + 1) {
            Some(q) => q,
            None => {
                proof {
                    assert(v@.skip(j as int + 1) =~= s.skip(j as int - i as int + 1));
                }
                return None;
            },
        };
        proof {
            assert(v@.skip(j as int + 1) =~= s.skip(j as int - i as int + 1));
        }
        let mut out: Vec<RecomplileDependency> = Vec::new();
        out.push(first);
        out.append(&mut rest);
        proof {
            let p = spec_parse_dependency_items(s)->0;
            assert(out.deep_view() =~= p.0);
        }
        Some((out, j2))
    } else {
        None
    }
}

pub fn parse_dependencies(v: &Vec<char>, i: usize) -> (r: Option<(Vec<RecomplileDependency>, usize)>)
    requires
        i <= v.len(),
    ensures
        r matches Some(q) ==> i < q.1 <= v.len(),
        match spec_parse_dependencies(v@.skip(i as int)) {
            Option::Some(p) => (r matches Some(q) && q.0.deep_view() == p.0 && q.1 == i + p.1),
            Option::None => r is None,
        },
{
    let ghost s = v@.skip(i as int);
    if i == v.len() || v[i] != '[' {
        proof {
            if i < v.len() {
                assert(s[0] == v@[i as int]);
            }
        }
        return None;
    }
    proof {
        assert(s[0] == v@[i as int]);
    }
    if i + 1 < v.len() && v[i + 1] == ']' {
        let empty: Vec<RecomplileDependency> = Vec::new();
        proof {
            assert(s[1] == v@[i + 1 as int]);
            assert(empty.deep_view() =~= Seq::<RecomplileDependencyModel>::empty());
        }
        return Some((empty, i + 2));
    }
    proof {
        if i + 1 < v.len() {
            assert(s[1] == v@[i + 1 as int]);
        }
        assert(v@.skip(i as int + 1) =~= s.skip(1));
    }
    match parse_dependency_items(v, i + 1) {
        Some((items, j)) => Some((items, j)),
        None => None,
    }
}

/// A dependency list at the given offset.
pub open spec fn dependencies_at(s: Seq<char>, o: Option<nat>) -> Option<(
    Seq<RecomplileDependencyModel>,
    nat,
)> {
    match o {
        Option::Some(o) => match spec_parse_dependencies(s.skip(o as int)) {
            Option::Some(p) => Option::Some((p.0, (o + p.1) as nat)),
            Option::None => Option::None,
        },
        Option::None => Option::None,
    }
}

/// One file-entry object, parsed.
pub open spec fn spec_parse_entry(s: Seq<char>) -> Option<(FileEntryModel, nat)> {
    match string_at(s, lit_at(s, Option::Some(0), "{\"path\":"@)) {
        Option::None => Option::None,
        Option::Some((path, o1)) => match dependencies_at(
            s,
            lit_at(s, Option::Some(o1), ",\"recompile_dependencies\":"@),
        ) {
            Option::None => Option::None,
            Option::Some((deps, o2)) => match lit_at(s, Option::Some(o2), "}"@) {
                Option::None => Option::None,
                Option::Some(o3) => Option::Some(
                    (FileEntryModel { path, recompile_dependencies: deps }, o3),
                ),
            },
        },
    }
}

#[verifier::rlimit(100)]
pub fn parse_entry(v: &Vec<char>, i: usize) -> (r: Option<(FileEntry, usize)>)
    requires
        i <= v.len(),
    ensures
        r matches Some(q) ==> i < q.1 <= v.len(),
        match spec_parse_entry(v@.skip(i as int)) {
            Option::Some(p) => (r matches Some(q) && q.0@ == p.0 && q.1 == i + p.1),
            Option::None => r is None,
        },
{
    let ghost s = v@.skip(i as int);
    proof {
        assert(s.skip(0) =~= s);
        reveal_strlit("{\"path\":");
    }
    let j1 = match parse_lit(v, i, "{\"path\":") {
        Some(j) => j,
        None => {
            return None;
        },
    };
    proof {
        assert(v@.skip(j1 as int) =~= s.skip(j1 as int - i as int));
    }
    let (path, j2) = match parse_string(v, j1) {
        Some(q) => q,
        None => {
            return None;
        },
    };
    proof {
        assert(v@.skip(j2 as int) =~= s.skip(j2 as int - i as int));
    }
    let j3 = match parse_lit(v, j2, ",\"recompile_dependencies\":") {
        Some(j) => j,
        None => {
            return None;
        },
    };
    proof {
        assert(v@.skip(j3 as int) =~= s.skip(j3 as int - i as int));
    }
    let (deps, j4) = match parse_dependencies(v, j3) {
        Some(q) => q,
        None => {
            return None;
        },
    };
    proof {
        assert(v@.skip(j4 as int) =~= s.skip(j4 as int - i as int));
    }
    let j5 = match parse_lit(v, j4, "}") {
        Some(j) => j,
        None => {
            return None;
        },
    };
    let entry = FileEntry { path, recompile_dependencies: deps };
    proof {
        let p = spec_parse_entry(s)->0;
        assert(entry@ =~= p.0);
    }
    Some((entry, j5))
}

/// The items of a nonempty entry list, including the closing bracket.
pub open spec fn spec_parse_entry_items(s: Seq<char>) -> Option<(Seq<FileEntryModel>, nat)>
    decreases s.len(),
{
    match spec_parse_entry(s) {
        Option::None => Option::None,
        Option::Some((m, n)) => {
            if n >= s.len() {
                Option::None
            } else if s[n as int] == ']' {
                Option::Some((seq![m], (n + 1) as nat))
            } else if s[n as int] == ',' {
                match spec_parse_entry_items(s.skip(n as int + 1)) {
                    Option::None => Option::None,
                    Option::Some((ms, n2)) => Option::Some((seq![m] + ms, (n + 1 + n2) as nat)),
                }
            } else {
                Option::None
            }
        },
    }
}

/// An entry list, parsed.
pub open spec fn spec_parse_entries(s: Seq<char>) -> Option<(Seq<FileEntryModel>, nat)> {
    if s.len() >= 2 && s[0] == '[' && s[1] == ']' {
        Option::Some((Seq::empty(), 2))
    } else if s.len() >= 1 && s[0] == '[' {
        match spec_parse_entry_items(s.skip(1)) {
            Option::Some((ms, n)) => Option::Some((ms, (n + 1) as nat)),
            Option::None => Option::None,
        }
    } else {
        Option::None
    }
}

#[verifier::rlimit(100)]
fn parse_entry_items(v: &Vec<char>, i: usize) -> (r: Option<(Vec<FileEntry>, usize)>)
    requires
        i <= v.len(),
    ensures
        r matches Some(q) ==> i < q.1 <= v.len(),
        match spec_parse_entry_items(v@.skip(i as int)) {
            Option::Some(p) => (r matches Some(q) && q.0.deep_view() == p.0 && q.1 == i + p.1),
            Option::None => r is None,
        },
    decreases v.len() - i,
{
    let ghost s = v@.skip(i as int);
    let (first, j) = match parse_entry(v, i) {
        Some(q) => q,
        None => {
            return None;
        },
    };
    if j == v.len() {
        return None;
    }
    let c = v[j];
    proof {
        assert(s[j as int - i as int] == v@[j as int]);
    }
    if c == ']' {
        let mut out: Vec<FileEntry> = Vec::new();
        out.push(first);
        proof {
            assert(out.deep_view() =~= seq![first@]);
        }
        Some((out, j + 1))
    } else if c == ',' {
        let (mut rest, j2) = match parse_entry_items(v, j + 1) {
            Some(q) => q,
            None => {
                proof {
                    assert(v@.skip(j as int + 1) =~= s.skip(j as int - i as int + 1));
                }
                return None;
            },
        };
        proof {
            assert(v@.skip(j as int + 1) =~= s.skip(j as int - i as int + 1));
        }
        let mut out: Vec<FileEntry> = Vec::new();
        out.push(first);
        out.append(&mut rest);
        proof {
            let p = spec_parse_entry_items(s)->0;
            assert(out.deep_view() =~= p.0);
        }
        Some((out, j2))
    } else {
        None
    }
}

pub fn parse_entries(v: &Vec<char>, i: usize) -> (r: Option<(Vec<FileEntry>, usize)>)
    requires
        i <= v.len(),
    ensures
        r matches Some(q) ==> i < q.1 <= v.len(),
        match spec_parse_entries(v@.skip(i as int)) {
            Option::Some(p) => (r matches Some(q) && q.0.deep_view() == p.0 && q.1 == i + p.1),
            Option::None => r is None,
        },
{
    let ghost s = v@.skip(i as int);
    if i == v.len() || v[i] != '[' {
        proof {
            if i < v.len() {
                assert(s[0] == v@[i as int]);
            }
        }
        return None;
    }
    proof {
        assert(s[0] == v@[i as int]);
    }
    if i + 1 < v.len() && v[i + 1] == ']' {
        let empty: Vec<FileEntry> = Vec::new();
        proof {
            assert(s[1] == v@[i + 1 as int]);
            assert(empty.deep_view() =~= Seq::<FileEntryModel>::empty());
        }
        return Some((empty, i + 2));
    }
    proof {
        if i + 1 < v.len() {
            assert(s[1] == v@[i + 1 as int]);
        }
        assert(v@.skip(i as int + 1) =~= s.skip(1));
    }
    match parse_entry_items(v, i + 1) {
        Some((items, j)) => Some((items, j)),
        None => None,
    }
}

/// The file-entry list a whole payload denotes, if it is exactly one.
pub open spec fn spec_decode_entries(s: Seq<char>) -> Option<Seq<FileEntryModel>> {
    match spec_parse_entries(s) {
        Option::Some(p) => if p.1 == s.len() {
            Option::Some(p.0)
        } else {
            Option::None
        },
        Option::None => Option::None,
    }
}

/// Decodes a whole payload as a file-entry list.
pub fn decode_file_entries(payload: &String) -> (r: Result<Vec<FileEntry>, WireError>)
    ensures
        match spec_decode_entries(payload@) {
            Option::Some(ms) => (r matches Ok(es) && es.deep_view() == ms),
            Option::None => r is Err,
        },
{
    let v = chars_of(payload.as_str());
    proof {
        assert(v@.skip(0) =~= payload@);
    }
    match parse_entries(&v, 0) {
        Some((entries, j)) => {
            if j == v.len() {
                Ok(entries)
            } else {
                Err(WireError::Malformed)
            }
        },
        None => Err(WireError::Malformed),
    }
}

// ---------------------------------------------------------------------
// Response frames
// ---------------------------------------------------------------------

/// A well-formed response line `S[<id>]:<payload>` with a trailing
/// newline: the id and the payload, which is nonempty and free of
/// newlines.
pub open spec fn spec_response_header(s: Seq<char>) -> Option<(int, Seq<char>)> {
    if s.len() >= 2 && s[0] == 'S' && s[1] == '[' {
        match spec_parse_usize(s.skip(2)) {
            Option::None => Option::None,
            Option::Some((id, n)) => {
                let b = 2 + n as int;
                if b + 2 < s.len() - 1 && s[b] == ']' && s[b + 1] == ':' && s[s.len() - 1] == '\n'
                    && (forall|k: int| b + 2 <= k < s.len() - 1 ==> s[k] != '\n') {
                    Option::Some((id, s.subrange(b + 2, s.len() - 1)))
                } else {
                    Option::None
                }
            },
        }
    } else {
        Option::None
    }
}

/// The payload of a response line, provided the line is well formed and
/// carries exactly the awaited id.
pub open spec fn spec_match_response(s: Seq<char>, id: int) -> Option<Seq<char>> {
    match spec_response_header(s) {
        Option::Some((rid, payload)) => if rid == id {
            Option::Some(payload)
        } else {
            Option::None
        },
        Option::None => Option::None,
    }
}

/// Parses one line as a response frame and hands back its payload if the
/// embedded id equals `request_id`; any other line is to be discarded and
/// reading continues.
#[verifier::rlimit(100)]
pub fn match_response_line(line: &String, request_id: usize) -> (r: Option<String>)
    ensures
        r.deep_view() == spec_match_response(line@, request_id as int),
{
    let v = chars_of(line.as_str());
    let ghost s = line@;
    if v.len() < 2 || v[0] != 'S' || v[1] != '[' {
        return None;
    }
    proof {
        assert(v@.skip(2) =~= s.skip(2));
    }
    let (id, b) = match parse_usize(&v, 2) {
        Some(q) => q,
        None => {
            return None;
        },
    };
    if b >= v.len() - 2 || v[b] != ']' || v[b + 1] != ':' || v[v.len() - 1] != '\n' {
        return None;
    }
    let stop = v.len() - 1;
    if b + 2 == stop {
        return None;
    }
    let mut payload: Vec<char> = Vec::new();
    let mut k = b + 2;
    while k < stop
        invariant
            v@ == s,
            s == line@,
            s.len() >= 2,
            s[0] == 'S',
            s[1] == '[',
            b >= 2,
            spec_parse_usize(s.skip(2)) == Option::<(int, nat)>::Some(
                (id as int, (b - 2) as nat),
            ),
            s[b as int] == ']',
            s[b as int + 1] == ':',
            s[s.len() - 1] == '\n',
            b + 2 <= k <= stop,
            stop == v.len() - 1,
            b + 2 < v.len(),
            payload@ == v@.subrange(b + 2, k as int),
            forall|m: int| b + 2 <= m < k ==> v@[m] != '\n',
        decreases stop - k,
    {
        let c = v[k];
        if c == '\n' {
            proof {
                assert(s[k as int] == '\n');
                assert(!(forall|m: int|
                    b as int + 2 <= m < s.len() - 1 ==> s[m] != '\n')) by {
                    assert(b as int + 2 <= k as int && (k as int) < s.len() - 1 && s[k as int]
                        == '\n');
                }
            }
            return None;
        }
        payload.push(c);
        k = k + 1;
        proof {
            assert(payload@ =~= v@.subrange(b as int + 2, k as int));
        }
    }
    if id != request_id {
        return None;
    }
    proof {
        assert(payload@ =~= s.subrange(b as int + 2, s.len() - 1));
    }
    Some(string_of(&payload))
}


// ---------------------------------------------------------------------
// Round trips: whatever the encoders above produce, the parsers above
// read back unchanged.
// ---------------------------------------------------------------------


/// If the suffix of `s` at `o` is `piece` followed by `tail`, then the
/// suffix after `piece` is `tail`.
proof fn lemma_skip_concat(s: Seq<char>, o: int, piece: Seq<char>, tail: Seq<char>)
    requires
        0 <= o <= s.len(),
        s.skip(o) == piece + tail,
    ensures
        o + piece.len() <= s.len(),
        s.skip(o + piece.len()) == tail,
{
    assert(s.skip(o).len() == s.len() - o);
    assert((piece + tail).len() == piece.len() + tail.len());
    assert(o + piece.len() <= s.len());
    assert forall|j: int|
        0 <= j < tail.len() implies s.skip(o + piece.len() as int)[j] == tail[j] by {
        assert((piece + tail)[piece.len() + j] == tail[j]);
        assert(s.skip(o)[piece.len() + j] == s[o + piece.len() + j]);
        assert(s.skip(o + piece.len() as int)[j] == s[o + piece.len() + j]);
    }
    assert(s.skip(o + piece.len() as int).len() == tail.len());
    assert(s.skip(o + piece.len() as int) =~= tail);
}

proof fn lemma_parse_lit_prefix(lit: Seq<char>, rest: Seq<char>)
    ensures
        spec_parse_lit(lit + rest, lit) == Option::<nat>::Some(lit.len()),
{
    assert((lit + rest).take(lit.len() as int) =~= lit);
}

proof fn lemma_escape_first(t: Seq<char>)
    requires
        t.len() > 0,
    ensures
        spec_escape(t) == escape_char(t[0]) + spec_escape(t.skip(1)),
    decreases t.len(),
{
    if t.len() == 1 {
        assert(t.drop_last() =~= Seq::<char>::empty());
        assert(t.skip(1) =~= Seq::<char>::empty());
        assert(spec_escape(t) =~= escape_char(t[0]) + spec_escape(t.skip(1)));
    } else {
        lemma_escape_first(t.drop_last());
        assert(t.drop_last()[0] == t[0]);
        assert(t.drop_last().skip(1) =~= t.skip(1).drop_last());
        assert(t.skip(1).last() == t.last());
        assert(spec_escape(t) =~= escape_char(t[0]) + spec_escape(t.skip(1)));
    }
}

proof fn lemma_parse_string_body_of_escape(t: Seq<char>, rest: Seq<char>)
    ensures
        spec_parse_string_body(spec_escape(t) + seq!['"'] + rest) == Option::<(
            Seq<char>,
            nat,
        )>::Some((t, (spec_escape(t).len() + 1) as nat)),
    decreases t.len(),
{
    let s = spec_escape(t) + seq!['"'] + rest;
    if t.len() == 0 {
        assert(spec_escape(t) =~= Seq::<char>::empty());
        assert(s[0] == '"');
        assert(t =~= Seq::<char>::empty());
    } else {
        lemma_escape_first(t);
        let c = t[0];
        if needs_escape(c) {
            assert(s[0] == '\\');
            assert(s[1] == c);
            assert(s.skip(2) =~= spec_escape(t.skip(1)) + seq!['"'] + rest);
            lemma_parse_string_body_of_escape(t.skip(1), rest);
            assert(seq![s[1]] + t.skip(1) =~= t);
        } else {
            assert(s[0] == c);
            assert(s.skip(1) =~= spec_escape(t.skip(1)) + seq!['"'] + rest);
            lemma_parse_string_body_of_escape(t.skip(1), rest);
            assert(seq![s[0]] + t.skip(1) =~= t);
        }
    }
}

proof fn lemma_parse_string_of_quoted(t: Seq<char>, rest: Seq<char>)
    ensures
        spec_parse_string(spec_quoted(t) + rest) == Option::<(Seq<char>, nat)>::Some(
            (t, spec_quoted(t).len()),
        ),
{
    let s = spec_quoted(t) + rest;
    assert(s[0] == '"');
    assert(s.skip(1) =~= spec_escape(t) + seq!['"'] + rest);
    lemma_parse_string_body_of_escape(t, rest);
}

proof fn lemma_spec_dec_digits(n: nat)
    ensures
        spec_dec(n).len() >= 1,
        forall|i: int| 0 <= i < spec_dec(n).len() ==> is_digit(#[trigger] spec_dec(n)[i]),
    decreases n,
{
    if n < 10 {
        lemma_digit_char_val(n as int);
    } else {
        lemma_spec_dec_digits(n / 10);
        lemma_digit_char_val((n % 10) as int);
        assert forall|i: int| 0 <= i < spec_dec(n).len() implies is_digit(
            #[trigger] spec_dec(n)[i],
        ) by {
            if i < spec_dec(n).len() - 1 {
                assert(spec_dec(n)[i] == spec_dec(n / 10)[i]);
            } else {
                assert(spec_dec(n)[i] == digit_char((n % 10) as int));
            }
        }
    }
}

proof fn lemma_spec_dec_val(n: nat)
    ensures
        digits_val(spec_dec(n)) == n,
    decreases n,
{
    if n < 10 {
        lemma_digit_char_val(n as int);
        assert(seq![digit_char(n as int)].drop_last() =~= Seq::<char>::empty());
        assert(digits_val(Seq::<char>::empty()) == 0);
        assert(seq![digit_char(n as int)].last() == digit_char(n as int));
    } else {
        lemma_spec_dec_val(n / 10);
        lemma_digit_char_val((n % 10) as int);
        assert(spec_dec(n / 10).push(digit_char((n % 10) as int)).drop_last() =~= spec_dec(n / 10));
        assert(spec_dec(n).last() == digit_char((n % 10) as int));
        assert(digits_val(spec_dec(n)) == digits_val(spec_dec(n / 10)) * 10 + digit_val(
            digit_char((n % 10) as int),
        ));
        assert(digits_val(spec_dec(n)) == (n / 10) * 10 + (n % 10));
    }
}

proof fn lemma_parse_usize_of_dec(n: nat, rest: Seq<char>)
    requires
        n <= usize::MAX,
        rest.len() == 0 || !is_digit(rest[0]),
    ensures
        spec_parse_usize(spec_dec(n) + rest) == Option::<(int, nat)>::Some(
            (n as int, spec_dec(n).len()),
        ),
{
    let s = spec_dec(n) + rest;
    let m = spec_dec(n).len() as int;
    lemma_spec_dec_digits(n);
    assert forall|k: int| 0 <= k < m implies is_digit(s[k]) by {
        assert(s[k] == spec_dec(n)[k]);
    }
    if m < s.len() {
        assert(s[m] == rest[0]);
    }
    lemma_digit_run_exact(s, m);
    assert(s.take(m) =~= spec_dec(n));
    lemma_spec_dec_val(n);
}

#[verifier::rlimit(100)]
#[verifier::spinoff_prover]
proof fn lemma_parse_snippet_of_json(m: SnippetModel, rest: Seq<char>)
    ensures
        spec_parse_snippet(spec_snippet_json(m) + rest) == Option::<(SnippetModel, nat)>::Some(
            (m, spec_snippet_json(m).len()),
        ),
{
    reveal(spec_parse_snippet);
    let s = spec_snippet_json(m) + rest;
    let l1 = "{\"content\":"@;
    let q1 = spec_quoted(m.content);
    let l2 = ",\"highlight\":["@;
    let d1 = spec_dec(m.highlight.0 as nat);
    let lc = ","@;
    let d2 = spec_dec(m.highlight.1 as nat);
    let l3 = "],\"lines_span\":["@;
    let d3 = spec_dec(m.lines_span.0 as nat);
    let d4 = spec_dec(m.lines_span.1 as nat);
    let l4 = "]}"@;
    let t11 = rest;
    let t10 = l4 + t11;
    let t9 = d4 + t10;
    let t8 = lc + t9;
    let t7 = d3 + t8;
    let t6 = l3 + t7;
    let t5 = d2 + t6;
    let t4 = lc + t5;
    let t3 = d1 + t4;
    let t2 = l2 + t3;
    let t1 = q1 + t2;
    assert(s.skip(0) =~= l1 + t1);
    lemma_parse_lit_prefix(l1, t1);
    lemma_skip_concat(s, 0, l1, t1);
    let o1 = l1.len() as int;
    lemma_parse_string_of_quoted(m.content, t2);
    lemma_skip_concat(s, o1, q1, t2);
    let o2 = o1 + q1.len();
    lemma_parse_lit_prefix(l2, t3);
    lemma_skip_concat(s, o2, l2, t3);
    let o3 = o2 + l2.len();
    assert(t4[0] == ',') by {
        reveal_strlit(",");
    }
    assert(!is_digit(t4[0])) by {
        reveal_strlit(",");
    }
    lemma_parse_usize_of_dec(m.highlight.0 as nat, t4);
    lemma_skip_concat(s, o3, d1, t4);
    let o4 = o3 + d1.len();
    lemma_parse_lit_prefix(lc, t5);
    lemma_skip_concat(s, o4, lc, t5);
    let o5 = o4 + lc.len();
    assert(!is_digit(t6[0])) by {
        reveal_strlit("],\"lines_span\":[");
    }
    lemma_parse_usize_of_dec(m.highlight.1 as nat, t6);
    lemma_skip_concat(s, o5, d2, t6);
    let o6 = o5 + d2.len();
    lemma_parse_lit_prefix(l3, t7);
    lemma_skip_concat(s, o6, l3, t7);
    let o7 = o6 + l3.len();
    assert(!is_digit(t8[0])) by {
        reveal_strlit(",");
    }
    lemma_parse_usize_of_dec(m.lines_span.0 as nat, t8);
    lemma_skip_concat(s, o7, d3, t8);
    let o8 = o7 + d3.len();
    lemma_parse_lit_prefix(lc, t9);
    lemma_skip_concat(s, o8, lc, t9);
    let o9 = o8 + lc.len();
    assert(!is_digit(t10[0])) by {
        reveal_strlit("]}");
    }
    lemma_parse_usize_of_dec(m.lines_span.1 as nat, t10);
    lemma_skip_concat(s, o9, d4, t10);
    let o10 = o9 + d4.len();
    lemma_parse_lit_prefix(l4, t11);
    let o11 = o10 + l4.len();
    assert(o11 == spec_snippet_json(m).len());
    assert(spec_parse_snippet(s) matches Option::Some(p) && p.0 =~= m && p.1 == o11);
}

#[verifier::rlimit(100)]
#[verifier::spinoff_prover]
proof fn lemma_parse_snippet_items_of_json(ms: Seq<SnippetModel>, rest: Seq<char>)
    requires
        ms.len() > 0,
    ensures
        spec_parse_snippet_items(spec_snippet_items_json(ms) + seq![']'] + rest) == Option::<(
            Seq<SnippetModel>,
            nat,
        )>::Some((ms, (spec_snippet_items_json(ms).len() + 1) as nat)),
    decreases ms.len(),
{
    reveal_strlit(",");
    if ms.len() == 1 {
        let s = spec_snippet_items_json(ms) + seq![']'] + rest;
        assert(s =~= spec_snippet_json(ms[0]) + (seq![']'] + rest));
        lemma_parse_snippet_of_json(ms[0], seq![']'] + rest);
        let n = spec_snippet_json(ms[0]).len() as int;
        assert(s[n] == ']');
        assert(seq![ms[0]] =~= ms);
    } else {
        let s = spec_snippet_items_json(ms) + seq![']'] + rest;
        let tail = spec_snippet_items_json(ms.skip(1)) + seq![']'] + rest;
        assert(s =~= spec_snippet_json(ms[0]) + (","@ + tail));
        lemma_parse_snippet_of_json(ms[0], ","@ + tail);
        let n = spec_snippet_json(ms[0]).len() as int;
        assert(s[n] == ',');
        assert(s.skip(n + 1) =~= tail);
        lemma_parse_snippet_items_of_json(ms.skip(1), rest);
        assert(seq![ms[0]] + ms.skip(1) =~= ms);
    }
}

#[verifier::rlimit(100)]
proof fn lemma_parse_snippets_of_json(ms: Seq<SnippetModel>, rest: Seq<char>)
    ensures
        spec_parse_snippets(spec_snippets_json(ms) + rest) == Option::<(
            Seq<SnippetModel>,
            nat,
        )>::Some((ms, spec_snippets_json(ms).len())),
{
    reveal_strlit("[]");
    reveal_strlit("[");
    reveal_strlit("]");
    reveal_strlit("{\"content\":");
    let s = spec_snippets_json(ms) + rest;
    if ms.len() == 0 {
        assert(s[0] == '[');
        assert(s[1] == ']');
        assert(ms =~= Seq::<SnippetModel>::empty());
    } else {
        let inner = spec_snippet_items_json(ms) + seq![']'] + rest;
        assert(s =~= "["@ + inner);
        assert(s[0] == '[');
        assert(spec_snippet_items_json(ms)[0] == '{') by {
            reveal_strlit("{\"content\":");
            assert(spec_snippet_json(ms[0])[0] == '{');
            if ms.len() == 1 {
                assert(spec_snippet_items_json(ms) == spec_snippet_json(ms[0]));
            }
        }
        assert(s[1] == '{');
        assert(s.skip(1) =~= inner);
        lemma_parse_snippet_items_of_json(ms, rest);
    }
}

#[verifier::rlimit(100)]
#[verifier::spinoff_prover]
proof fn lemma_parse_cause_of_json(m: CauseModel, rest: Seq<char>)
    ensures
        spec_parse_cause(spec_cause_json(m) + rest) == Option::<(CauseModel, nat)>::Some(
            (m, spec_cause_json(m).len()),
        ),
{
    reveal(spec_parse_cause);
    let s = spec_cause_json(m) + rest;
    let l1 = "{\"source\":"@;
    let q1 = spec_quoted(m.source);
    let l2 = ",\"sink\":"@;
    let q2 = spec_quoted(m.sink);
    let l3 = ",\"type\":"@;
    let q3 = spec_quoted(spec_type_tag(m.dependency_type));
    let l4 = ",\"snippets\":"@;
    let sn = spec_snippets_json(m.snippets);
    let l5 = "}"@;
    let t9 = rest;
    let t8 = l5 + t9;
    let t7 = sn + t8;
    let t6 = l4 + t7;
    let t5 = q3 + t6;
    let t4 = l3 + t5;
    let t3 = q2 + t4;
    let t2 = l2 + t3;
    let t1 = q1 + t2;
    assert(s.skip(0) =~= l1 + t1);
    lemma_parse_lit_prefix(l1, t1);
    lemma_skip_concat(s, 0, l1, t1);
    let o1 = l1.len() as int;
    lemma_parse_string_of_quoted(m.source, t2);
    lemma_skip_concat(s, o1, q1, t2);
    let o2 = o1 + q1.len();
    lemma_parse_lit_prefix(l2, t3);
    lemma_skip_concat(s, o2, l2, t3);
    let o3 = o2 + l2.len();
    lemma_parse_string_of_quoted(m.sink, t4);
    lemma_skip_concat(s, o3, q2, t4);
    let o4 = o3 + q2.len();
    lemma_parse_lit_prefix(l3, t5);
    lemma_skip_concat(s, o4, l3, t5);
    let o5 = o4 + l3.len();
    lemma_parse_string_of_quoted(spec_type_tag(m.dependency_type), t6);
    lemma_type_tag_of(m.dependency_type);
    lemma_skip_concat(s, o5, q3, t6);
    let o6 = o5 + q3.len();
    lemma_parse_lit_prefix(l4, t7);
    lemma_skip_concat(s, o6, l4, t7);
    let o7 = o6 + l4.len();
    lemma_parse_snippets_of_json(m.snippets, t8);
    lemma_skip_concat(s, o7, sn, t8);
    let o8 = o7 + sn.len();
    lemma_parse_lit_prefix(l5, t9);
    let o9 = o8 + l5.len();
    assert(o9 == spec_cause_json(m).len());
    assert(spec_parse_cause(s) matches Option::Some(p) && p.0 =~= m && p.1 == o9);
}

/// Each type tag reads back as its own dependency type.
proof fn lemma_type_tag_of(t: DependencyType)
    ensures
        spec_type_of_tag(spec_type_tag(t)) == Option::<DependencyType>::Some(t),
{
    reveal_strlit("compile");
    reveal_strlit("exports");
    reveal_strlit("runtime");
    match t {
        DependencyType::Compile => {
        },
        DependencyType::Exports => {
            assert("exports"@ != "compile"@) by {
                assert("exports"@.len() != "compile"@.len() || "exports"@[0] != "compile"@[0]);
            }
        },
        DependencyType::Runtime => {
            assert("runtime"@ != "compile"@) by {
                assert("runtime"@[0] != "compile"@[0]);
            }
            assert("runtime"@ != "exports"@) by {
                assert("runtime"@[0] != "exports"@[0]);
            }
        },
    }
}

#[verifier::rlimit(100)]
#[verifier::spinoff_prover]
proof fn lemma_parse_cause_items_of_json(ms: Seq<CauseModel>, rest: Seq<char>)
    requires
        ms.len() > 0,
    ensures
        spec_parse_cause_items(spec_cause_items_json(ms) + seq![']'] + rest) == Option::<(
            Seq<CauseModel>,
            nat,
        )>::Some((ms, (spec_cause_items_json(ms).len() + 1) as nat)),
    decreases ms.len(),
{
    reveal_strlit(",");
    if ms.len() == 1 {
        let s = spec_cause_items_json(ms) + seq![']'] + rest;
        assert(s =~= spec_cause_json(ms[0]) + (seq![']'] + rest));
        lemma_parse_cause_of_json(ms[0], seq![']'] + rest);
        let n = spec_cause_json(ms[0]).len() as int;
        assert(s[n] == ']');
        assert(seq![ms[0]] =~= ms);
    } else {
        let s = spec_cause_items_json(ms) + seq![']'] + rest;
        let tail = spec_cause_items_json(ms.skip(1)) + seq![']'] + rest;
        assert(s =~= spec_cause_json(ms[0]) + (","@ + tail));
        lemma_parse_cause_of_json(ms[0], ","@ + tail);
        let n = spec_cause_json(ms[0]).len() as int;
        assert(s[n] == ',');
        assert(s.skip(n + 1) =~= tail);
        lemma_parse_cause_items_of_json(ms.skip(1), rest);
        assert(seq![ms[0]] + ms.skip(1) =~= ms);
    }
}

#[verifier::rlimit(100)]
proof fn lemma_parse_causes_of_json(ms: Seq<CauseModel>, rest: Seq<char>)
    ensures
        spec_parse_causes(spec_causes_json(ms) + rest) == Option::<(Seq<CauseModel>, nat)>::Some(
            (ms, spec_causes_json(ms).len()),
        ),
{
    reveal_strlit("[]");
    reveal_strlit("[");
    reveal_strlit("]");
    reveal_strlit("{\"source\":");
    let s = spec_causes_json(ms) + rest;
    if ms.len() == 0 {
        assert(s[0] == '[');
        assert(s[1] == ']');
        assert(ms =~= Seq::<CauseModel>::empty());
    } else {
        let inner = spec_cause_items_json(ms) + seq![']'] + rest;
        assert(s =~= "["@ + inner);
        assert(s[0] == '[');
        assert(spec_cause_items_json(ms)[0] == '{') by {
            reveal_strlit("{\"source\":");
            assert(spec_cause_json(ms[0])[0] == '{');
            if ms.len() == 1 {
                assert(spec_cause_items_json(ms) == spec_cause_json(ms[0]));
            }
        }
        assert(s[1] == '{');
        assert(s.skip(1) =~= inner);
        lemma_parse_cause_items_of_json(ms, rest);
    }
}

/// The round trip law: any dependency-cause list, encoded to the wire and
/// decoded back, comes back unchanged — in particular, a cause with zero
/// snippets decodes to an empty snippet list rather than an error.
pub proof fn lemma_causes_round_trip(ms: Seq<CauseModel>)
    ensures
        spec_decode_causes(spec_causes_json(ms)) == Option::<Seq<CauseModel>>::Some(ms),
{
    let s = spec_causes_json(ms);
    assert(s =~= spec_causes_json(ms) + Seq::<char>::empty());
    lemma_parse_causes_of_json(ms, Seq::empty());
}

/// The round trip law for one cause object: encoding and then parsing it
/// consumes exactly the encoding and yields the cause unchanged.
pub proof fn lemma_cause_round_trip(m: CauseModel)
    ensures
        spec_parse_cause(spec_cause_json(m)) == Option::<(CauseModel, nat)>::Some(
            (m, spec_cause_json(m).len()),
        ),
{
    assert(spec_cause_json(m) =~= spec_cause_json(m) + Seq::<char>::empty());
    lemma_parse_cause_of_json(m, Seq::empty());
}

/// Builds the request frame `C[<id>]:<body>` with a trailing newline.
pub fn request_line(id: usize, body: &String) -> (res: String)
    ensures
        res@ == spec_request_line(id as nat, body@),
{
    let mut out: Vec<char> = Vec::new();
    out.push('C');
    out.push('[');
    push_dec(&mut out, id as u64);
    out.push(']');
    out.push(':');
    push_lit(&mut out, body.as_str());
    out.push('\n');
    proof {
        assert((id as u64) as nat == id as nat);
        assert(out@ =~= spec_request_line(id as nat, body@));
    }
    string_of(&out)
}

} // verus!
