//! The rule selector and the output sequencer.

use vstd::prelude::*;
use crate::config::{Config, Rule};
use crate::expr::{extract_variables, extracted, pairs_view, pattern_regex, pattern_to_regex};
use crate::template::{render, render_template, Context, ContextView};
use crate::text::{chars_of, contains, contains_chars};

verus! {

/// Whether the rule's executable filter admits the identity `exe`.
pub open spec fn rule_applies(r: Rule, exe: Seq<char>) -> bool {
    match r.app_name {
        Some(a) => contains(exe, a@),
        None => true,
    }
}

/// The captures of the rule on the line: by its pattern, else by its regular
/// expression, else none at all; `None` where it does not match.
pub open spec fn rule_captures(r: Rule, line: Seq<char>) -> Option<Seq<(Seq<char>, Seq<char>)>> {
    match r.pattern {
        Some(p) => extracted(pattern_regex(p@), line),
        None => match r.regex {
            Some(x) => extracted(x@, line),
            None => Some(seq![]),
        },
    }
}

pub open spec fn rule_matches(r: Rule, c: ContextView) -> bool {
    rule_applies(r, c.exe_name) && rule_captures(r, c.raw_args) is Some
}

/// The first rule that matches, with its captures.
pub open spec fn select(rules: Seq<Rule>, c: ContextView) -> Option<(Rule, Seq<(Seq<char>, Seq<char>)>)>
    decreases rules.len(),
{
    if rules.len() == 0 {
        None
    } else if rule_matches(rules[0], c) {
        Some((rules[0], rule_captures(rules[0], c.raw_args)->Some_0))
    } else {
        select(rules.drop_first(), c)
    }
}

pub open spec fn strings_view(v: Seq<String>) -> Seq<Seq<char>> {
    v.map_values(|s: String| s@)
}

/// The templates of a rule: `templates` where present, else `template`.
pub open spec fn rule_templates(r: Rule) -> Seq<Seq<char>> {
    match r.templates {
        Some(v) => strings_view(v@),
        None => match r.template {
            Some(t) => seq![t@],
            None => seq![],
        },
    }
}

pub open spec fn with_named(c: ContextView, named: Seq<(Seq<char>, Seq<char>)>) -> ContextView {
    ContextView { named, ..c }
}

/// Each template rendered against the same context.
pub open spec fn render_all(ts: Seq<Seq<char>>, c: ContextView) -> Seq<Seq<char>> {
    ts.map_values(|t: Seq<char>| render(t, c))
}

/// The outcome of the rules on a context: for the first rule that matches,
/// its rendered templates and its own delay; `None` where no rule matches.
pub open spec fn outcome(rules: Seq<Rule>, c: ContextView) -> Option<(Seq<Seq<char>>, Option<u64>)> {
    match select(rules, c) {
        Some((r, caps)) => Some((render_all(rule_templates(r), with_named(c, caps)), r.delay)),
        None => None,
    }
}

/// Whether the rule's executable filter admits the context's identity.
fn applies(rule: &Rule, exe: &Vec<char>) -> (b: bool)
    ensures
        b == rule_applies(*rule, exe@),
{
    match &rule.app_name {
        Some(a) => contains_chars(exe, &chars_of(a.as_str())),
        None => true,
    }
}

/// The captures of one rule on the line, or `None` where it does not match.
fn try_rule(rule: &Rule, line: &str) -> (r: Option<Vec<(String, String)>>)
    ensures
        match r {
            Some(v) => rule_captures(*rule, line@) == Some(pairs_view(v@)),
            None => rule_captures(*rule, line@) is None,
        },
{
    match &rule.pattern {
        Some(p) => {
            let re = pattern_to_regex(p.as_str());
            extract_variables(re.as_str(), line)
        },
        None => match &rule.regex {
            Some(x) => extract_variables(x.as_str(), line),
            None => {
                let v: Vec<(String, String)> = Vec::new();
                assert(pairs_view(v@) =~= Seq::<(Seq<char>, Seq<char>)>::empty());
                Some(v)
            },
        },
    }
}

/// Renders each template of `list` against the context, in order.
fn render_list(list: &Vec<String>, context: &Context) -> (r: Vec<String>)
    ensures
        strings_view(r@) == render_all(strings_view(list@), context@),
{
    let mut out: Vec<String> = Vec::new();
    let mut k: usize = 0;
    while k < list.len()
        invariant
            k <= list.len(),
            strings_view(out@) == render_all(strings_view(list@.subrange(0, k as int)), context@),
        decreases list.len() - k,
    {
        let ghost before = out@;
        out.push(render_template(list[k].as_str(), context));
        proof {
            let prev = strings_view(list@.subrange(0, k as int));
            let next = strings_view(list@.subrange(0, k + 1));
            assert(next =~= prev.push(list@[k as int]@));
            assert(render_all(next, context@) =~= render_all(prev, context@).push(
                render(list@[k as int]@, context@),
            ));
            assert(strings_view(out@) =~= strings_view(before).push(out@[k as int]@));
        }
        k += 1;
    }
    assert(list@.subrange(0, k as int) =~= list@);
    out
}

/// Selects the first rule that matches the context and renders its
/// templates.
///
/// A rule is skipped where its `app_name` is not contained in the executable
/// identity, or where its pattern (else its regular expression) does not
/// match the raw argument line; a rule with neither matches. The first rule
/// that matches ends the search: its captures become the context's named
/// values, and the result holds its rendered templates (none where it has
/// none) and its own delay. `None` where no rule matches, with the context
/// unchanged.
pub fn process(rules: &[Rule], context: &mut Context) -> (r: Option<(Vec<String>, Option<u64>)>)
    ensures
        match r {
            Some((outs, d)) => outcome(rules@, old(context)@) == Some((strings_view(outs@), d)),
            None => outcome(rules@, old(context)@) is None,
        },
        final(context)@ == match select(rules@, old(context)@) {
            Some((_, caps)) => with_named(old(context)@, caps),
            None => old(context)@,
        },
{
    let exe = chars_of(context.exe_name.as_str());
    let mut i: usize = 0;
    assert(rules@.subrange(0, rules@.len() as int) =~= rules@);
    while i < rules.len()
        invariant
            i <= rules.len(),
            *context == *old(context),
            exe@ == context.exe_name@,
            select(rules@, context@) == select(rules@.subrange(i as int, rules@.len() as int), context@),
        decreases rules.len() - i,
    {
        let rule = &rules[i];
        let ghost rest = rules@.subrange(i as int, rules@.len() as int);
        assert(rest.drop_first() =~= rules@.subrange(i + 1, rules@.len() as int));
        assert(rest[0] == rules@[i as int]);
        if applies(rule, &exe) {
            match try_rule(rule, context.raw_args.as_str()) {
                Some(caps) => {
                    context.named = caps;
                    proof {
                        assert(context@ =~= with_named(old(context)@, rule_captures(rules@[i as int], old(context)@.raw_args)->Some_0));
                    }
                    let results = match &rule.templates {
                        Some(list) => render_list(list, context),
                        None => match &rule.template {
                            Some(t) => {
                                let v = vec![render_template(t.as_str(), context)];
                                assert(strings_view(v@) =~= render_all(rule_templates(*rule), context@));
                                v
                            },
                            None => {
                                let v: Vec<String> = Vec::new();
                                assert(strings_view(v@) =~= render_all(rule_templates(*rule), context@));
                                v
                            },
                        },
                    };
                    return Some((results, rule.delay));
                },
                None => {},
            }
        }
        i += 1;
    }
    None
}

/// The delay that applies: the rule's own where it has one, else the default.
pub fn resolve_delay(rule_delay: Option<u64>, default_ms: u64) -> (r: u64)
    ensures
        r == match rule_delay {
            Some(d) => d,
            None => default_ms,
        },
{
    match rule_delay {
        Some(d) => d,
        None => default_ms,
    }
}

/// The items to deliver for a context, and the pause between them, for the
/// outcome of `process` on the configuration's rules.
pub open spec fn plan(config: Config, c: ContextView) -> (Seq<Seq<char>>, u64) {
    match outcome(config.rules@, c) {
        Some((outs, d)) => (
            outs,
            match d {
                Some(ms) => ms,
                None => config.default_delay_ms,
            },
        ),
        None => (
            if config.fallback_raw {
                seq![c.raw_args]
            } else {
                seq![]
            },
            config.default_delay_ms,
        ),
    }
}

/// Runs the rules of the configuration on the context and returns the items
/// to deliver, in order, with the pause between them in milliseconds. Where
/// no rule matches, the raw argument line is the one item if fallback is on,
/// and there is none otherwise. A rule that matches with no templates gives
/// no items and no fallback.
pub fn plan_output(config: &Config, context: &mut Context) -> (r: (Vec<String>, u64))
    ensures
        (strings_view(r.0@), r.1) == plan(*config, old(context)@),
        final(context)@ == match select(config.rules@, old(context)@) {
            Some((_, caps)) => with_named(old(context)@, caps),
            None => old(context)@,
        },
{
    match process(config.rules.as_slice(), context) {
        Some((outs, d)) => (outs, resolve_delay(d, config.default_delay_ms)),
        None => {
            if config.fallback_raw {
                let v = vec![context.raw_args.clone()];
                assert(strings_view(v@) =~= seq![old(context)@.raw_args]);
                (v, config.default_delay_ms)
            } else {
                let v: Vec<String> = Vec::new();
                assert(strings_view(v@) =~= Seq::<Seq<char>>::empty());
                (v, config.default_delay_ms)
            }
        },
    }
}

/// A rule that does not match, placed before other rules, changes nothing:
/// the outcome is that of the other rules alone.
pub proof fn lemma_non_matching_rule_skipped(r: Rule, rest: Seq<Rule>, c: ContextView)
    requires
        !rule_matches(r, c),
    ensures
        outcome(seq![r] + rest, c) == outcome(rest, c),
{
    assert((seq![r] + rest).drop_first() =~= rest);
    assert((seq![r] + rest)[0] == r);
}

/// The first rule that matches decides: the rules after it are never
/// consulted.
pub proof fn lemma_first_match_wins(r: Rule, rest: Seq<Rule>, c: ContextView)
    requires
        rule_matches(r, c),
    ensures
        outcome(seq![r] + rest, c) == outcome(seq![r], c),
{
    assert((seq![r] + rest)[0] == r);
    assert(seq![r][0] == r);
}

} // verus!
