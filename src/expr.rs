//! The pattern compiler and the matcher.
//!
//! A pattern such as `-ssh {user}@{host}` becomes a regular expression in which
//! each `{name}` is a named group of non-whitespace characters, every other
//! character is matched literally, and each literal space matches a run of
//! whitespace. Matching itself is done by the `regex` crate.

use vstd::prelude::*;
use crate::text::{chars_of, is_ascii_alnum, slice_chars, string_of};

verus! {

/// The characters that `regex::escape` prefixes with a backslash.
pub open spec fn is_meta(c: char) -> bool {
    c == '\\' || c == '.' || c == '+' || c == '*' || c == '?' || c == '(' || c == ')'
        || c == '|' || c == '[' || c == ']' || c == '{' || c == '}' || c == '^' || c == '$'
        || c == '#' || c == '&' || c == '-' || c == '~'
}

pub open spec fn escape_char(c: char) -> Seq<char> {
    if is_meta(c) {
        seq!['\\', c]
    } else {
        seq![c]
    }
}

/// Text escaped so that a regular expression matches it literally.
pub open spec fn escape_text(s: Seq<char>) -> Seq<char>
    decreases s.len(),
{
    if s.len() == 0 {
        seq![]
    } else {
        escape_text(s.drop_last()) + escape_char(s.last())
    }
}

/// `\s+`: one or more whitespace characters.
pub open spec fn ws_run() -> Seq<char> {
    seq!['\\', 's', '+']
}

pub open spec fn widen_char(c: char) -> Seq<char> {
    if c == ' ' {
        ws_run()
    } else {
        seq![c]
    }
}

/// Every space replaced by `\s+`.
pub open spec fn widen(s: Seq<char>) -> Seq<char>
    decreases s.len(),
{
    if s.len() == 0 {
        seq![]
    } else {
        widen(s.drop_last()) + widen_char(s.last())
    }
}

/// The expression for a run of literal pattern text.
pub open spec fn literal_regex(s: Seq<char>) -> Seq<char> {
    widen(escape_text(s))
}

pub open spec fn is_name_char(c: char) -> bool {
    is_ascii_alnum(c) || c == '_'
}

/// The end of the run of name characters that starts at `i`.
pub open spec fn name_end(p: Seq<char>, i: int) -> int
    decreases p.len() - i,
{
    if 0 <= i < p.len() && is_name_char(p[i]) {
        name_end(p, i + 1)
    } else {
        i
    }
}

/// Whether a placeholder `{name}` starts at `i`.
pub open spec fn placeholder_at(p: Seq<char>, i: int) -> bool {
    0 <= i < p.len() && p[i] == '{' && name_end(p, i + 1) > i + 1 && name_end(p, i + 1) < p.len()
        && p[name_end(p, i + 1)] == '}'
}

/// `(?P<name>\S+)`: a named group of one or more non-whitespace characters.
pub open spec fn group_regex(name: Seq<char>) -> Seq<char> {
    seq!['(', '?', 'P', '<'] + name + seq!['>', '\\', 'S', '+', ')']
}

/// The expression for the pattern text from position `i` on.
pub open spec fn compile_from(p: Seq<char>, i: int) -> Seq<char>
    decreases p.len() - i,
{
    if i < 0 || i >= p.len() {
        seq![]
    } else if placeholder_at(p, i) {
        group_regex(p.subrange(i + 1, name_end(p, i + 1))) + compile_from(p, name_end(p, i + 1) + 1)
    } else {
        literal_regex(seq![p[i]]) + compile_from(p, i + 1)
    }
}

/// The regular expression that a pattern compiles to.
pub open spec fn pattern_regex(p: Seq<char>) -> Seq<char> {
    compile_from(p, 0)
}

/// Text that holds no placeholder.
pub open spec fn no_placeholder(p: Seq<char>) -> bool {
    forall|i: int| 0 <= i < p.len() ==> !placeholder_at(p, i)
}

proof fn lemma_escape_concat(a: Seq<char>, b: Seq<char>)
    ensures
        escape_text(a + b) == escape_text(a) + escape_text(b),
    decreases b.len(),
{
    if b.len() == 0 {
        assert(a + b =~= a);
        assert(escape_text(a) + escape_text(b) =~= escape_text(a));
    } else {
        assert((a + b).drop_last() =~= a + b.drop_last());
        assert((a + b).last() == b.last());
        lemma_escape_concat(a, b.drop_last());
        assert(escape_text(a + b) =~= escape_text(a) + escape_text(b));
    }
}

proof fn lemma_literal_concat(a: Seq<char>, b: Seq<char>)
    ensures
        literal_regex(a + b) == literal_regex(a) + literal_regex(b),
{
    lemma_escape_concat(a, b);
    lemma_widen_concat(escape_text(a), escape_text(b));
}

proof fn lemma_compile_literal_from(p: Seq<char>, i: int)
    requires
        0 <= i <= p.len(),
        no_placeholder(p),
    ensures
        compile_from(p, i) == literal_regex(p.subrange(i, p.len() as int)),
    decreases p.len() - i,
{
    if i == p.len() {
        assert(p.subrange(i, p.len() as int) =~= Seq::<char>::empty());
        assert(escape_text(Seq::<char>::empty()) == Seq::<char>::empty());
        assert(widen(Seq::<char>::empty()) == Seq::<char>::empty());
    } else {
        lemma_compile_literal_from(p, i + 1);
        assert(p.subrange(i, p.len() as int) =~= seq![p[i]] + p.subrange(i + 1, p.len() as int));
        lemma_literal_concat(seq![p[i]], p.subrange(i + 1, p.len() as int));
    }
}

/// A pattern without placeholders compiles to its literal expression: every
/// character escaped, every space widened to `\s+`, and no group, so that
/// the expression matches the pattern's text with each space standing for a
/// run of whitespace.
pub proof fn lemma_plain_pattern_is_literal(p: Seq<char>)
    requires
        no_placeholder(p),
    ensures
        pattern_regex(p) == literal_regex(p),
{
    lemma_compile_literal_from(p, 0);
    assert(p.subrange(0, p.len() as int) =~= p);
}

/// Relies on `regex::escape`: each character of `is_meta` gets a backslash
/// in front of it, every other character is copied.
#[verifier::external_body]
fn regex_escape(s: &str) -> (r: String)
    ensures
        r@ == escape_text(s@),
{
    regex::escape(s)
}

proof fn lemma_name_end_bounds(p: Seq<char>, i: int)
    requires
        0 <= i <= p.len(),
    ensures
        i <= name_end(p, i) <= p.len(),
        forall|k: int| i <= k < name_end(p, i) ==> is_name_char(#[trigger] p[k]),
    decreases p.len() - i,
{
    if i < p.len() && is_name_char(p[i]) {
        lemma_name_end_bounds(p, i + 1);
    }
}

proof fn lemma_widen_concat(a: Seq<char>, b: Seq<char>)
    ensures
        widen(a + b) == widen(a) + widen(b),
    decreases b.len(),
{
    if b.len() == 0 {
        assert(a + b =~= a);
        assert(widen(a) + widen(b) =~= widen(a));
    } else {
        assert((a + b).drop_last() =~= a + b.drop_last());
        assert((a + b).last() == b.last());
        lemma_widen_concat(a, b.drop_last());
        assert(widen(a + b) =~= widen(a) + widen(b));
    }
}

proof fn lemma_literal_push(s: Seq<char>, c: char)
    ensures
        literal_regex(s.push(c)) == literal_regex(s) + literal_regex(seq![c]),
{
    assert(s.push(c).drop_last() =~= s);
    assert(seq![c].drop_last() =~= Seq::<char>::empty());
    assert(escape_text(Seq::<char>::empty()) == Seq::<char>::empty());
    assert(escape_text(seq![c]) == escape_text(Seq::<char>::empty()) + escape_char(c));
    assert(escape_text(seq![c]) =~= escape_char(c));
    assert(escape_text(s.push(c)) == escape_text(s) + escape_char(c));
    lemma_widen_concat(escape_text(s), escape_char(c));
}

/// The end of the run of name characters that starts at `i`.
fn scan_name(p: &Vec<char>, i: usize) -> (r: usize)
    requires
        i <= p.len(),
    ensures
        r as int == name_end(p@, i as int),
{
    let mut j: usize = i;
    while j < p.len() && (is_ascii_alnum_exec(p[j]) || p[j] == '_')
        invariant
            i <= j <= p.len(),
            name_end(p@, i as int) == name_end(p@, j as int),
        decreases p.len() - j,
    {
        j += 1;
    }
    j
}

fn is_ascii_alnum_exec(c: char) -> (r: bool)
    ensures
        r == is_ascii_alnum(c),
{
    ('a' <= c && c <= 'z') || ('A' <= c && c <= 'Z') || ('0' <= c && c <= '9')
}

/// Appends the expression for the literal text `p[lo..hi]` to `out`.
fn push_literal(out: &mut Vec<char>, p: &Vec<char>, lo: usize, hi: usize)
    requires
        lo <= hi <= p.len(),
    ensures
        final(out)@ == old(out)@ + literal_regex(p@.subrange(lo as int, hi as int)),
{
    if lo == hi {
        assert(p@.subrange(lo as int, hi as int) =~= Seq::<char>::empty());
        assert(final(out)@ =~= old(out)@ + literal_regex(p@.subrange(lo as int, hi as int)));
        return;
    }
    let text = string_of(slice_chars(p, lo, hi).as_slice());
    let escaped = chars_of(regex_escape(text.as_str()).as_str());
    let mut k: usize = 0;
    while k < escaped.len()
        invariant
            k <= escaped.len(),
            escaped@ == escape_text(p@.subrange(lo as int, hi as int)),
            out@ == old(out)@ + widen(escaped@.subrange(0, k as int)),
        decreases escaped.len() - k,
    {
        let c = escaped[k];
        if c == ' ' {
            out.push('\\');
            out.push('s');
            out.push('+');
        } else {
            out.push(c);
        }
        proof {
            assert(escaped@.subrange(0, k + 1).drop_last() =~= escaped@.subrange(0, k as int));
        }
        k += 1;
        assert(out@ =~= old(out)@ + widen(escaped@.subrange(0, k as int)));
    }
    assert(escaped@.subrange(0, k as int) =~= escaped@);
}

/// Compiles a placeholder pattern into a regular expression.
///
/// Each `{name}` (a name of ASCII letters, digits and `_`) becomes
/// `(?P<name>\S+)`; every other character is escaped for literal matching,
/// and each literal space becomes `\s+`. Braces that form no placeholder are
/// literal text. Compilation never fails.
pub fn pattern_to_regex(pattern: &str) -> (r: String)
    ensures
        r@ == pattern_regex(pattern@),
{
    let p = chars_of(pattern);
    let mut out: Vec<char> = Vec::new();
    let mut last_end: usize = 0;
    let mut i: usize = 0;
    assert(p@.subrange(0, 0) =~= Seq::<char>::empty());
    while i < p.len()
        invariant
            p@ == pattern@,
            last_end <= i <= p.len(),
            out@ + literal_regex(p@.subrange(last_end as int, i as int)) + compile_from(p@, i as int)
                == compile_from(p@, 0),
        decreases p.len() - i,
    {
        let is_ph = if p[i] == '{' {
            let e = scan_name(&p, i + 1);
            e > i + 1 && e < p.len() && p[e] == '}'
        } else {
            false
        };
        proof {
            lemma_name_end_bounds(p@, i + 1);
        }
        if is_ph {
            let e = scan_name(&p, i + 1);
            let ghost before = out@;
            push_literal(&mut out, &p, last_end, i);
            out.push('(');
            out.push('?');
            out.push('P');
            out.push('<');
            let name = slice_chars(&p, i + 1, e);
            crate::text::push_all(&mut out, &name);
            out.push('>');
            out.push('\\');
            out.push('S');
            out.push('+');
            out.push(')');
            proof {
                assert(out@ =~= before + literal_regex(p@.subrange(last_end as int, i as int))
                    + group_regex(p@.subrange(i + 1, e as int)));
                assert(p@.subrange(e + 1, e + 1) =~= Seq::<char>::empty());
                assert(literal_regex(Seq::<char>::empty()) =~= Seq::<char>::empty());
                assert(out@ + literal_regex(p@.subrange(e + 1, e + 1)) + compile_from(p@, e + 1)
                    =~= before + literal_regex(p@.subrange(last_end as int, i as int))
                    + compile_from(p@, i as int));
            }
            i = e + 1;
            last_end = i;
        } else {
            proof {
                let s = p@.subrange(last_end as int, i as int);
                assert(p@.subrange(last_end as int, i + 1) =~= s.push(p@[i as int]));
                lemma_literal_push(s, p@[i as int]);
                assert(out@ + literal_regex(p@.subrange(last_end as int, i + 1))
                    + compile_from(p@, i + 1) =~= out@ + literal_regex(s)
                    + compile_from(p@, i as int));
            }
            i += 1;
        }
    }
    push_literal(&mut out, &p, last_end, p.len());
    assert(out@ =~= out@ + compile_from(p@, i as int));
    string_of(out.as_slice())
}

/// What matching the expression `re` against `line` yields: `None` where `re`
/// does not compile or does not match; otherwise, for each group of `re` in
/// order, its name (`None` for an unnamed group) and the text it captured
/// (`None` where it took no part in the match).
pub uninterp spec fn regex_groups(re: Seq<char>, line: Seq<char>) -> Option<
    Seq<(Option<Seq<char>>, Option<Seq<char>>)>,
>;

pub open spec fn opt_view(o: Option<String>) -> Option<Seq<char>> {
    match o {
        Some(s) => Some(s@),
        None => None,
    }
}

pub open spec fn groups_view(g: Seq<(Option<String>, Option<String>)>) -> Seq<
    (Option<Seq<char>>, Option<Seq<char>>),
> {
    g.map_values(|e: (Option<String>, Option<String>)| (opt_view(e.0), opt_view(e.1)))
}

/// Relies on the `regex` crate's matching: `Regex::new` compiles the
/// expression, `Regex::captures` finds the leftmost-first match, and
/// `Regex::capture_names` zipped with `Captures::iter` gives each group's name
/// and captured text, in group order. `None` where either step fails.
#[verifier::external_body]
fn match_groups(re: &str, line: &str) -> (r: Option<Vec<(Option<String>, Option<String>)>>)
    ensures
        match r {
            Some(g) => regex_groups(re@, line@) == Some(groups_view(g@)),
            None => regex_groups(re@, line@) is None,
        },
{
    let re = regex::Regex::new(re).ok()?;
    let caps = re.captures(line)?;
    Some(
        re.capture_names().zip(caps.iter()).map(
            |(n, m)| (n.map(|n| n.to_string()), m.map(|m| m.as_str().to_string())),
        ).collect(),
    )
}

/// The named groups that took part in a match, with their text, in group order.
pub open spec fn named_captures(g: Seq<(Option<Seq<char>>, Option<Seq<char>>)>) -> Seq<
    (Seq<char>, Seq<char>),
>
    decreases g.len(),
{
    if g.len() == 0 {
        seq![]
    } else {
        let rest = named_captures(g.drop_last());
        match g.last() {
            (Some(n), Some(t)) => rest.push((n, t)),
            _ => rest,
        }
    }
}

pub open spec fn pairs_view(v: Seq<(String, String)>) -> Seq<(Seq<char>, Seq<char>)> {
    v.map_values(|e: (String, String)| (e.0@, e.1@))
}

/// The captures of a match: the named groups that took part in it. Unnamed
/// groups and groups that captured nothing are left out.
pub fn captures_from_groups(groups: &Vec<(Option<String>, Option<String>)>) -> (r: Vec<
    (String, String),
>)
    ensures
        pairs_view(r@) == named_captures(groups_view(groups@)),
{
    let mut r: Vec<(String, String)> = Vec::new();
    let mut i: usize = 0;
    while i < groups.len()
        invariant
            i <= groups.len(),
            pairs_view(r@) == named_captures(groups_view(groups@.subrange(0, i as int))),
        decreases groups.len() - i,
    {
        let ghost sub = groups@.subrange(0, i + 1);
        proof {
            assert(groups_view(sub).drop_last() =~= groups_view(groups@.subrange(0, i as int)));
            assert(groups_view(sub).last() == (opt_view(groups@[i as int].0), opt_view(groups@[i as int].1)));
        }
        match (&groups[i].0, &groups[i].1) {
            (Some(n), Some(t)) => {
                r.push((n.clone(), t.clone()));
                assert(pairs_view(r@) =~= named_captures(groups_view(sub)));
            },
            _ => {},
        }
        i += 1;
    }
    assert(groups@.subrange(0, i as int) =~= groups@);
    r
}

/// The captures of matching `re_str` against `input`: `None` where the
/// expression does not compile or does not match.
pub open spec fn extracted(re: Seq<char>, input: Seq<char>) -> Option<Seq<(Seq<char>, Seq<char>)>> {
    match regex_groups(re, input) {
        Some(g) => Some(named_captures(g)),
        None => None,
    }
}

/// Matches the regular expression `re_str` against `input` and returns the
/// named captures, or `None` where the expression is invalid or does not match.
pub fn extract_variables(re_str: &str, input: &str) -> (r: Option<Vec<(String, String)>>)
    ensures
        match r {
            Some(v) => extracted(re_str@, input@) == Some(pairs_view(v@)),
            None => extracted(re_str@, input@) is None,
        },
{
    match match_groups(re_str, input) {
        Some(g) => Some(captures_from_groups(&g)),
        None => None,
    }
}

} // verus!
