//! The template renderer: expands `{{ key }}` and `{{ key | default }}` tags
//! against a match context.

use vstd::prelude::*;
use crate::expr::pairs_view;
use crate::text::{
    chars_eq, chars_of, is_ascii_alnum, is_ascii_digit, is_whitespace, is_ws, push_all, string_of, trim,
    trim_range,
};

verus! {

/// What a template can refer to while one rule is rendered.
pub struct Context {
    /// The captures of the rule that matched; where a name occurs twice the
    /// later entry counts.
    pub named: Vec<(String, String)>,
    /// The argument tokens after the program path.
    pub positional: Vec<String>,
    /// The identity of the executable, as used for rule filtering.
    pub exe_name: String,
    /// All argument tokens joined by single spaces.
    pub raw_args: String,
    /// The current working directory, or empty where it is unavailable.
    pub cwd: String,
    /// The process environment: variable names and their values.
    pub env: Vec<(String, String)>,
}

/// A context as mathematical values.
pub struct ContextView {
    pub named: Seq<(Seq<char>, Seq<char>)>,
    pub positional: Seq<Seq<char>>,
    pub exe_name: Seq<char>,
    pub raw_args: Seq<char>,
    pub cwd: Seq<char>,
    pub env: Seq<(Seq<char>, Seq<char>)>,
}

impl View for Context {
    type V = ContextView;

    open spec fn view(&self) -> ContextView {
        ContextView {
            named: pairs_view(self.named@),
            positional: self.positional@.map_values(|s: String| s@),
            exe_name: self.exe_name@,
            raw_args: self.raw_args@,
            cwd: self.cwd@,
            env: pairs_view(self.env@),
        }
    }
}

/// The value of the last entry named `k`.
pub open spec fn lookup_last(m: Seq<(Seq<char>, Seq<char>)>, k: Seq<char>) -> Option<Seq<char>>
    decreases m.len(),
{
    if m.len() == 0 {
        None
    } else if m.last().0 == k {
        Some(m.last().1)
    } else {
        lookup_last(m.drop_last(), k)
    }
}

pub open spec fn is_digits(k: Seq<char>) -> bool {
    k.len() > 0 && forall|i: int| 0 <= i < k.len() ==> is_ascii_digit(#[trigger] k[i])
}

/// The number that a string of decimal digits denotes.
pub open spec fn digits_value(k: Seq<char>) -> nat
    decreases k.len(),
{
    if k.len() == 0 {
        0
    } else {
        digits_value(k.drop_last()) * 10 + ((k.last() as nat) - ('0' as nat)) as nat
    }
}

pub open spec fn env_prefix() -> Seq<char> {
    seq!['E', 'N', 'V', ':']
}

pub open spec fn or_empty(o: Option<Seq<char>>) -> Seq<char> {
    match o {
        Some(v) => v,
        None => seq![],
    }
}

/// Resolution of a key that is no positional index: the built-ins, the
/// environment, then the default.
pub open spec fn resolve_builtin(c: ContextView, key: Seq<char>, dflt: Option<Seq<char>>) -> Seq<char> {
    if key == "RAW_ARGS"@ {
        c.raw_args
    } else if key == "EXE_NAME"@ {
        c.exe_name
    } else if key == "CWD"@ {
        c.cwd
    } else if key.len() >= 4 && key.subrange(0, 4) == env_prefix() {
        or_empty(lookup_last(c.env, key.subrange(4, key.len() as int)))
    } else {
        or_empty(dflt)
    }
}

/// Resolution of a key without its named capture. Index 0 is the executable
/// identity; index `n` is the `n`th argument token, or empty past the end.
pub open spec fn resolve_unnamed(c: ContextView, key: Seq<char>, dflt: Option<Seq<char>>) -> Seq<char> {
    if is_digits(key) {
        let n = digits_value(key);
        if n == 0 {
            c.exe_name
        } else if n <= c.positional.len() {
            c.positional[n - 1]
        } else {
            seq![]
        }
    } else {
        resolve_builtin(c, key, dflt)
    }
}

/// The value a tag with `key` and `dflt` renders as: a non-empty named
/// capture first, then positions, built-ins, environment and default.
pub open spec fn resolve(c: ContextView, key: Seq<char>, dflt: Option<Seq<char>>) -> Seq<char> {
    match lookup_last(c.named, key) {
        Some(v) if v.len() > 0 => v,
        _ => resolve_unnamed(c, key, dflt),
    }
}

/// The characters that may stand between `{{` and `}}`.
pub open spec fn is_key_char(ch: char) -> bool {
    is_ascii_alnum(ch) || ch == '_' || ch == '|' || ch == '-' || ch == '.' || ch == ':' || is_ws(ch)
}

/// The end of the run of key characters that starts at `i`.
pub open spec fn key_end(t: Seq<char>, i: int) -> int
    decreases t.len() - i,
{
    if 0 <= i < t.len() && is_key_char(t[i]) {
        key_end(t, i + 1)
    } else {
        i
    }
}

/// Whether a tag `{{ ... }}` starts at `i`.
pub open spec fn tag_at(t: Seq<char>, i: int) -> bool {
    0 <= i && i + 1 < t.len() && t[i] == '{' && t[i + 1] == '{' && key_end(t, i + 2) > i + 2
        && key_end(t, i + 2) + 1 < t.len() && t[key_end(t, i + 2)] == '}'
        && t[key_end(t, i + 2) + 1] == '}'
}

/// The position of the first `|` at or after `from`, or the length.
pub open spec fn bar_index(s: Seq<char>, from: int) -> int
    decreases s.len() - from,
{
    if from < 0 || from >= s.len() {
        s.len() as int
    } else if s[from] == '|' {
        from
    } else {
        bar_index(s, from + 1)
    }
}

/// The key of a tag body: its text up to the first `|`, trimmed.
pub open spec fn tag_key(b: Seq<char>) -> Seq<char> {
    trim(b.subrange(0, bar_index(b, 0)))
}

/// The default of a tag body: its text between the first and second `|`,
/// trimmed; none without a `|`.
pub open spec fn tag_default(b: Seq<char>) -> Option<Seq<char>> {
    let p = bar_index(b, 0);
    if p < b.len() {
        Some(trim(b.subrange(p + 1, bar_index(b, p + 1))))
    } else {
        None
    }
}

/// The rendering of the template text from position `i` on.
pub open spec fn render_from(t: Seq<char>, i: int, c: ContextView) -> Seq<char>
    decreases t.len() - i,
{
    if i < 0 || i >= t.len() {
        seq![]
    } else if tag_at(t, i) {
        let b = t.subrange(i + 2, key_end(t, i + 2));
        resolve(c, tag_key(b), tag_default(b)) + render_from(t, key_end(t, i + 2) + 2, c)
    } else {
        seq![t[i]] + render_from(t, i + 1, c)
    }
}

/// A template rendered against a context.
pub open spec fn render(t: Seq<char>, c: ContextView) -> Seq<char> {
    render_from(t, 0, c)
}

proof fn lemma_bar_index_bounds(s: Seq<char>, from: int)
    requires
        0 <= from <= s.len(),
    ensures
        from <= bar_index(s, from) <= s.len(),
    decreases s.len() - from,
{
    if from < s.len() && s[from] != '|' {
        lemma_bar_index_bounds(s, from + 1);
    }
}

/// The value of the last entry of `m` named `k`.
fn find_last(m: &Vec<(String, String)>, k: &Vec<char>) -> (r: Option<Vec<char>>)
    ensures
        match r {
            Some(v) => lookup_last(pairs_view(m@), k@) == Some(v@),
            None => lookup_last(pairs_view(m@), k@) is None,
        },
{
    let mut i: usize = m.len();
    assert(m@.subrange(0, m.len() as int) =~= m@);
    while i > 0
        invariant
            i <= m.len(),
            lookup_last(pairs_view(m@), k@) == lookup_last(pairs_view(m@.subrange(0, i as int)), k@),
        decreases i,
    {
        let ghost sub = m@.subrange(0, i as int);
        proof {
            assert(pairs_view(sub).drop_last() =~= pairs_view(m@.subrange(0, i - 1)));
        }
        let name = chars_of(m[i - 1].0.as_str());
        if chars_eq(&name, k) {
            return Some(chars_of(m[i - 1].1.as_str()));
        }
        i -= 1;
    }
    assert(pairs_view(m@.subrange(0, 0)) =~= Seq::<(Seq<char>, Seq<char>)>::empty());
    None
}

/// Whether `k` is a non-empty run of decimal digits.
fn all_digits(k: &Vec<char>) -> (r: bool)
    ensures
        r == is_digits(k@),
{
    if k.len() == 0 {
        return false;
    }
    let mut i: usize = 0;
    while i < k.len()
        invariant
            i <= k.len(),
            forall|j: int| 0 <= j < i ==> is_ascii_digit(#[trigger] k@[j]),
        decreases k.len() - i,
    {
        if !('0' <= k[i] && k[i] <= '9') {
            return false;
        }
        i += 1;
    }
    true
}

/// The value of a string of digits, or `None` where it exceeds `usize::MAX`.
fn digits_to_usize(k: &Vec<char>) -> (r: Option<usize>)
    requires
        is_digits(k@),
    ensures
        match r {
            Some(n) => n as nat == digits_value(k@),
            None => digits_value(k@) > usize::MAX,
        },
{
    let mut v: usize = 0;
    let mut over = false;
    let mut i: usize = 0;
    assert(k@.subrange(0, 0) =~= Seq::<char>::empty());
    while i < k.len()
        invariant
            i <= k.len(),
            is_digits(k@),
            over ==> digits_value(k@.subrange(0, i as int)) > usize::MAX,
            !over ==> v as nat == digits_value(k@.subrange(0, i as int)),
        decreases k.len() - i,
    {
        let d = (k[i] as u32 - '0' as u32) as usize;
        proof {
            assert(is_ascii_digit(k@[i as int]));
            assert(k@.subrange(0, i + 1).drop_last() =~= k@.subrange(0, i as int));
            assert(k@.subrange(0, i + 1).last() == k@[i as int]);
        }
        if !over {
            match v.checked_mul(10) {
                Some(m) => match m.checked_add(d) {
                    Some(s) => {
                        v = s;
                    },
                    None => {
                        over = true;
                    },
                },
                None => {
                    over = true;
                },
            }
        }
        i += 1;
    }
    assert(k@.subrange(0, i as int) =~= k@);
    if over {
        None
    } else {
        Some(v)
    }
}

fn is_key_char_exec(ch: char) -> (r: bool)
    ensures
        r == is_key_char(ch),
{
    ('a' <= ch && ch <= 'z') || ('A' <= ch && ch <= 'Z') || ('0' <= ch && ch <= '9') || ch == '_'
        || ch == '|' || ch == '-' || ch == '.' || ch == ':' || is_whitespace(ch)
}

/// Resolution of a key by built-ins, environment and default.
fn resolve_builtin_exec(c: &Context, key: &Vec<char>, dflt: &Option<Vec<char>>) -> (r: Vec<char>)
    ensures
        r@ == resolve_builtin(c@, key@, opt_chars(*dflt)),
{
    if chars_eq(key, &chars_of("RAW_ARGS")) {
        chars_of(c.raw_args.as_str())
    } else if chars_eq(key, &chars_of("EXE_NAME")) {
        chars_of(c.exe_name.as_str())
    } else if chars_eq(key, &chars_of("CWD")) {
        chars_of(c.cwd.as_str())
    } else if key.len() >= 4 && key[0] == 'E' && key[1] == 'N' && key[2] == 'V' && key[3] == ':' {
        assert(key@.subrange(0, 4) =~= env_prefix());
        let name = crate::text::slice_chars(key, 4, key.len());
        match find_last(&c.env, &name) {
            Some(v) => v,
            None => Vec::new(),
        }
    } else {
        proof {
            if key@.len() >= 4 && key@.subrange(0, 4) == env_prefix() {
                assert(key@[0] == key@.subrange(0, 4)[0]);
                assert(key@[1] == key@.subrange(0, 4)[1]);
                assert(key@[2] == key@.subrange(0, 4)[2]);
                assert(key@[3] == key@.subrange(0, 4)[3]);
            }
        }
        match dflt {
            Some(d) => d.clone(),
            None => Vec::new(),
        }
    }
}

pub open spec fn opt_chars(o: Option<Vec<char>>) -> Option<Seq<char>> {
    match o {
        Some(v) => Some(v@),
        None => None,
    }
}

/// The value a tag with `key` and `dflt` renders as.
fn resolve_exec(c: &Context, key: &Vec<char>, dflt: &Option<Vec<char>>) -> (r: Vec<char>)
    ensures
        r@ == resolve(c@, key@, opt_chars(*dflt)),
{
    match find_last(&c.named, key) {
        Some(v) => {
            if v.len() > 0 {
                return v;
            }
        },
        None => {},
    }
    if all_digits(key) {
        let n_args = c.positional.len();
        match digits_to_usize(key) {
            Some(n) => {
                assert(resolve(c@, key@, opt_chars(*dflt)) == resolve_unnamed(c@, key@, opt_chars(*dflt)));
                if n == 0 {
                    chars_of(c.exe_name.as_str())
                } else if n <= n_args {
                    chars_of(c.positional[n - 1].as_str())
                } else {
                    Vec::new()
                }
            },
            None => Vec::new(),
        }
    } else {
        resolve_builtin_exec(c, key, dflt)
    }
}

/// The first `|` in `s[from..hi]`, or `hi`.
fn find_bar(s: &Vec<char>, from: usize) -> (r: usize)
    requires
        from <= s.len(),
    ensures
        r as int == bar_index(s@, from as int),
{
    let mut j: usize = from;
    while j < s.len() && s[j] != '|'
        invariant
            from <= j <= s.len(),
            bar_index(s@, from as int) == bar_index(s@, j as int),
        decreases s.len() - j,
    {
        j += 1;
    }
    j
}

/// Renders a template: each tag `{{ key }}` or `{{ key | default }}` is
/// replaced by the value of its key; every other character is copied.
pub fn render_template(template: &str, context: &Context) -> (r: String)
    ensures
        r@ == render(template@, context@),
{
    let t = chars_of(template);
    let mut out: Vec<char> = Vec::new();
    let mut i: usize = 0;
    while i < t.len()
        invariant
            t@ == template@,
            i <= t.len(),
            out@ + render_from(t@, i as int, context@) == render_from(t@, 0, context@),
        decreases t.len() - i,
    {
        let mut e: usize = i;
        let mut tag = false;
        if i + 1 < t.len() && t[i] == '{' && t[i + 1] == '{' {
            e = i + 2;
            while e < t.len() && is_key_char_exec(t[e])
                invariant
                    i + 2 <= e <= t.len(),
                    key_end(t@, i + 2) == key_end(t@, e as int),
                decreases t.len() - e,
            {
                e += 1;
            }
            tag = e > i + 2 && e < t.len() && e + 1 < t.len() && t[e] == '}' && t[e + 1] == '}';
        }
        if tag {
            let body = crate::text::slice_chars(&t, i + 2, e);
            let p = find_bar(&body, 0);
            proof {
                lemma_bar_index_bounds(body@, 0);
            }
            let key = trim_range(&body, 0, p);
            let dflt: Option<Vec<char>> = if p < body.len() {
                proof {
                    lemma_bar_index_bounds(body@, p + 1);
                }
                let q = find_bar(&body, p + 1);
                Some(trim_range(&body, p + 1, q))
            } else {
                None
            };
            let v = resolve_exec(context, &key, &dflt);
            let ghost before = out@;
            push_all(&mut out, &v);
            assert(out@ + render_from(t@, e + 2, context@) =~= before + render_from(
                t@,
                i as int,
                context@,
            ));
            i = e + 2;
        } else {
            let ghost before = out@;
            out.push(t[i]);
            assert(out@ + render_from(t@, i + 1, context@) =~= before + render_from(
                t@,
                i as int,
                context@,
            ));
            i += 1;
        }
    }
    assert(out@ =~= out@ + render_from(t@, i as int, context@));
    string_of(out.as_slice())
}

/// Rendering holds no hidden state: the same template on the same context
/// renders the same text every time.
pub proof fn lemma_render_idempotent(
    t: Seq<char>,
    c1: ContextView,
    c2: ContextView,
    r1: Seq<char>,
    r2: Seq<char>,
)
    requires
        c1 == c2,
        r1 == render(t, c1),
        r2 == render(t, c2),
    ensures
        r1 == r2,
{
}

/// A named capture that holds the empty string counts as absent: the key
/// resolves as if nothing had been captured under it, so that its default
/// can apply.
pub proof fn lemma_empty_capture_falls_through(c: ContextView, key: Seq<char>, dflt: Option<Seq<char>>)
    requires
        lookup_last(c.named, key) == Some(Seq::<char>::empty()),
    ensures
        resolve(c, key, dflt) == resolve(ContextView { named: seq![], ..c }, key, dflt),
        resolve(c, key, dflt) == resolve_unnamed(c, key, dflt),
{
    let d = ContextView { named: seq![], ..c };
    assert(lookup_last(d.named, key) is None);
    assert(resolve_unnamed(c, key, dflt) == resolve_unnamed(d, key, dflt));
}

/// Positional index 0 renders as the executable identity, unless a non-empty
/// capture is named like the key.
pub proof fn lemma_index_zero_is_identity(c: ContextView, key: Seq<char>, dflt: Option<Seq<char>>)
    requires
        is_digits(key),
        digits_value(key) == 0,
        !(lookup_last(c.named, key) matches Some(v) && v.len() > 0),
    ensures
        resolve(c, key, dflt) == c.exe_name,
{
}

} // verus!
