//! Rules and configuration values, and the names of configuration files.

use vstd::prelude::*;
use crate::text::{chars_eq, chars_of, push_all, string_of};

verus! {

/// One match-and-render unit.
pub struct Rule {
    /// A label for people reading the configuration.
    pub name: Option<String>,
    /// A substring that the executable identity must contain.
    pub app_name: Option<String>,
    /// A placeholder pattern; takes precedence over `regex`.
    pub pattern: Option<String>,
    /// A regular expression with named groups.
    pub regex: Option<String>,
    /// A single output template.
    pub template: Option<String>,
    /// Output templates in order; take precedence over `template`.
    pub templates: Option<Vec<String>>,
    /// The pause between outputs in milliseconds, overriding the default.
    pub delay: Option<u64>,
}

/// The configuration: rules in order and two settings.
pub struct Config {
    /// Whether the raw argument line is the output when no rule matches.
    pub fallback_raw: bool,
    /// The pause between outputs in milliseconds, where a rule sets none.
    pub default_delay_ms: u64,
    pub rules: Vec<Rule>,
}

pub fn default_fallback_raw() -> (r: bool)
    ensures
        r,
{
    true
}

pub fn default_delay_ms() -> (r: u64)
    ensures
        r == 1000,
{
    1000
}

impl Default for Config {
    /// Fallback on, a default delay of 1000 ms, and no rules.
    fn default() -> (r: Self)
        ensures
            r.fallback_raw,
            r.default_delay_ms == 1000,
            r.rules@.len() == 0,
    {
        Config { fallback_raw: default_fallback_raw(), default_delay_ms: default_delay_ms(), rules: Vec::new() }
    }
}

/// The position of the last `.` in `n`, or -1.
pub open spec fn last_dot(n: Seq<char>) -> int
    decreases n.len(),
{
    if n.len() == 0 {
        -1
    } else if n.last() == '.' {
        n.len() - 1
    } else {
        last_dot(n.drop_last())
    }
}

/// A file name without its extension: the text before the last `.`, unless
/// that dot is the first character. `..` is its own stem.
pub open spec fn name_stem(n: Seq<char>) -> Seq<char> {
    if n == seq!['.', '.'] || last_dot(n) <= 0 {
        n
    } else {
        n.subrange(0, last_dot(n))
    }
}

pub open spec fn shim_suffix() -> Seq<char> {
    ".arg-shim.toml"@
}

pub open spec fn toml_suffix() -> Seq<char> {
    ".toml"@
}

pub open spec fn generic_name() -> Seq<char> {
    "arg-shim.toml"@
}

/// The configuration file names to look for in one directory, in order:
/// `<exe>.arg-shim.toml`, `<exe>.toml`, the same two for the stem where it
/// differs from the name, and `arg-shim.toml`.
pub open spec fn search_names(exe: Seq<char>) -> Seq<Seq<char>> {
    let stem = name_stem(exe);
    seq![exe + shim_suffix(), exe + toml_suffix()] + (if stem != exe {
        seq![stem + shim_suffix(), stem + toml_suffix()]
    } else {
        seq![]
    }) + seq![generic_name()]
}

fn concat_string(a: &Vec<char>, b: &str) -> (r: String)
    ensures
        r@ == a@ + b@,
{
    let mut v = a.clone();
    let bv = chars_of(b);
    push_all(&mut v, &bv);
    string_of(v.as_slice())
}

/// The stem of a file name.
fn stem_of(n: &Vec<char>) -> (r: Vec<char>)
    ensures
        r@ == name_stem(n@),
{
    let mut i: usize = n.len();
    assert(n@.subrange(0, n.len() as int) =~= n@);
    while i > 0 && n[i - 1] != '.'
        invariant
            i <= n.len(),
            last_dot(n@) == last_dot(n@.subrange(0, i as int)),
        decreases i,
    {
        proof {
            assert(n@.subrange(0, i as int).drop_last() =~= n@.subrange(0, i - 1));
        }
        i -= 1;
    }
    proof {
        if i > 0 {
            assert(n@.subrange(0, i as int).last() == n@[i - 1]);
        } else {
            assert(n@.subrange(0, 0) =~= Seq::<char>::empty());
        }
    }
    let dotdot = n.len() == 2 && n[0] == '.' && n[1] == '.';
    proof {
        if n@ == seq!['.', '.'] {
            assert(n@[0] == '.' && n@[1] == '.');
        }
        if dotdot {
            assert(n@ =~= seq!['.', '.']);
        }
    }
    if dotdot || i <= 1 {
        n.clone()
    } else {
        crate::text::slice_chars(n, 0, i - 1)
    }
}

/// Appends to `paths` the configuration file names to look for in one
/// directory, for an executable of file name `exe_name`.
pub fn add_search_paths(paths: &mut Vec<String>, exe_name: &str)
    ensures
        final(paths)@.map_values(|s: String| s@) == old(paths)@.map_values(|s: String| s@)
            + search_names(exe_name@),
{
    let exe = chars_of(exe_name);
    let stem = stem_of(&exe);
    let ghost start = old(paths)@.map_values(|s: String| s@);
    paths.push(concat_string(&exe, ".arg-shim.toml"));
    paths.push(concat_string(&exe, ".toml"));
    let differs = !chars_eq(&exe, &stem);
    if differs {
        paths.push(concat_string(&stem, ".arg-shim.toml"));
        paths.push(concat_string(&stem, ".toml"));
    }
    paths.push(string_of(chars_of("arg-shim.toml").as_slice()));
    assert(paths@.map_values(|s: String| s@) =~= start + search_names(exe_name@));
}

} // verus!
