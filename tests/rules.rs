use arg_shim::config::{add_search_paths, default_delay_ms, default_fallback_raw, Config, Rule};
use arg_shim::engine::{plan_output, process, resolve_delay};
use arg_shim::expr::{captures_from_groups, extract_variables, pattern_to_regex};
use arg_shim::template::{render_template, Context};

fn s(x: &str) -> String {
    x.to_string()
}

fn context(exe: &str, args: &[&str]) -> Context {
    Context {
        named: Vec::new(),
        positional: args.iter().map(|a| a.to_string()).collect(),
        exe_name: s(exe),
        raw_args: args.join(" "),
        cwd: s("/home/bob"),
        env: vec![(s("HOME"), s("/home/bob")), (s("EMPTY"), s(""))],
    }
}

fn rule() -> Rule {
    Rule {
        name: None,
        app_name: None,
        pattern: None,
        regex: None,
        template: None,
        templates: None,
        delay: None,
    }
}

fn ssh_rule() -> Rule {
    Rule {
        pattern: Some(s("-ssh {user}@{host} -P {port}")),
        template: Some(s("ssh -p {{port | 22}} {{user}}@{{host}}")),
        ..rule()
    }
}

#[test]
fn ssh_pattern_renders_template() {
    let mut ctx = context("putty.exe", &["-ssh", "bob@example.com", "-P", "2222"]);
    let r = process(&[ssh_rule()], &mut ctx);
    assert_eq!(r, Some((vec![s("ssh -p 2222 bob@example.com")], None)));
    assert!(ctx.named.contains(&(s("port"), s("2222"))));
}

#[test]
fn unmatched_input_falls_back_to_raw_line() {
    let config = Config { fallback_raw: true, default_delay_ms: 1000, rules: vec![ssh_rule()] };
    let mut ctx = context("putty.exe", &["-ssh", "bob@example.com"]);
    let (items, delay) = plan_output(&config, &mut ctx);
    assert_eq!(items, vec![s("-ssh bob@example.com")]);
    assert_eq!(delay, 1000);
}

#[test]
fn unmatched_input_without_fallback_gives_nothing() {
    let config = Config { fallback_raw: false, default_delay_ms: 1000, rules: vec![ssh_rule()] };
    let mut ctx = context("putty.exe", &["x"]);
    let (items, _) = plan_output(&config, &mut ctx);
    assert!(items.is_empty());
}

#[test]
fn templates_in_order_with_rule_delay() {
    let r = Rule { templates: Some(vec![s("A"), s("B")]), delay: Some(500), ..rule() };
    let config = Config { fallback_raw: true, default_delay_ms: 1000, rules: vec![r] };
    let mut ctx = context("tool", &["x"]);
    let (items, delay) = plan_output(&config, &mut ctx);
    assert_eq!(items, vec![s("A"), s("B")]);
    assert_eq!(delay, 500);
}

#[test]
fn templates_take_priority_over_template() {
    let r = Rule { templates: Some(vec![s("many")]), template: Some(s("one")), ..rule() };
    let mut ctx = context("tool", &[]);
    assert_eq!(process(&[r], &mut ctx), Some((vec![s("many")], None)));
}

#[test]
fn unknown_key_renders_empty() {
    let ctx = context("tool", &["a"]);
    assert_eq!(render_template("<{{FOO}}>", &ctx), "<>");
}

#[test]
fn empty_capture_uses_default() {
    let mut ctx = context("tool", &["b"]);
    let r = Rule { regex: Some(s("(?P<x>a*)")), template: Some(s("{{x|fallback}}")), ..rule() };
    assert_eq!(process(&[r], &mut ctx), Some((vec![s("fallback")], None)));
    assert_eq!(ctx.named, vec![(s("x"), s(""))]);
}

#[test]
fn index_zero_is_identity() {
    let ctx = context("renamed-tool", &["a", "b"]);
    assert_eq!(render_template("{{0}} {{ 1 }} {{2}}", &ctx), "renamed-tool a b");
    assert_eq!(render_template("{{000}}", &ctx), "renamed-tool");
}

#[test]
fn index_past_the_end_is_empty() {
    let ctx = context("tool", &["a"]);
    assert_eq!(render_template("[{{2}}][{{99999999999999999999999 | d}}]", &ctx), "[][]");
}

#[test]
fn builtins_and_environment() {
    let ctx = context("tool.exe", &["a", "b"]);
    assert_eq!(render_template("{{RAW_ARGS}}|{{EXE_NAME}}|{{CWD}}", &ctx), "a b|tool.exe|/home/bob");
    assert_eq!(render_template("{{ENV:HOME}}", &ctx), "/home/bob");
    assert_eq!(render_template("({{ENV:NOPE | x}})", &ctx), "()");
    assert_eq!(render_template("({{ENV:EMPTY}})", &ctx), "()");
}

#[test]
fn named_capture_wins_over_position() {
    let mut ctx = context("tool", &["a"]);
    ctx.named = vec![(s("1"), s("named"))];
    assert_eq!(render_template("{{1}}", &ctx), "named");
}

#[test]
fn default_and_trimming() {
    let ctx = context("tool", &[]);
    assert_eq!(render_template("{{  port |  22  }}", &ctx), "22");
    assert_eq!(render_template("{{ a | b | c }}", &ctx), "b");
    assert_eq!(render_template("{{ | d }}", &ctx), "d");
}

#[test]
fn malformed_tags_stay_literal() {
    let ctx = context("tool", &["a"]);
    assert_eq!(render_template("{{1}", &ctx), "{{1}");
    assert_eq!(render_template("{{{1}}", &ctx), "{a");
    assert_eq!(render_template("{{}}", &ctx), "{{}}");
    assert_eq!(render_template("{{a/b}}", &ctx), "{{a/b}}");
    assert_eq!(render_template("{1}", &ctx), "{1}");
}

#[test]
fn render_is_idempotent() {
    let mut ctx = context("tool", &["a", "b"]);
    ctx.named = vec![(s("u"), s("bob"))];
    let t = "{{u}}-{{2}}-{{RAW_ARGS}}-{{x|y}}";
    let first = render_template(t, &ctx);
    assert_eq!(first, "bob-b-a b-y");
    assert_eq!(render_template(t, &ctx), first);
}

#[test]
fn plain_pattern_compiles_to_literal() {
    assert_eq!(pattern_to_regex("a b.c"), r"a\s+b\.c");
    assert_eq!(pattern_to_regex("--x  (y)"), r"\-\-x\s+\s+\(y\)");
    assert_eq!(pattern_to_regex(""), "");
}

#[test]
fn placeholders_become_named_groups() {
    assert_eq!(
        pattern_to_regex("-ssh {user}@{host} -P {port}"),
        r"\-ssh\s+(?P<user>\S+)@(?P<host>\S+)\s+\-P\s+(?P<port>\S+)"
    );
    assert_eq!(pattern_to_regex("{a b}{}"), r"\{a\s+b\}\{\}");
    assert_eq!(pattern_to_regex("{{x}}"), r"\{(?P<x>\S+)\}");
}

#[test]
fn plain_pattern_matches_substring_with_whitespace_runs() {
    let re = pattern_to_regex("a b");
    assert!(extract_variables(&re, "xx a    b yy").is_some());
    assert!(extract_variables(&re, "ab").is_none());
}

#[test]
fn extraction_keeps_participating_named_groups() {
    let r = extract_variables(r"(?P<a>x)(y)|(?P<b>z)", "zz").unwrap();
    assert_eq!(r, vec![(s("b"), s("z"))]);
    assert_eq!(extract_variables("(", "x"), None);
    assert_eq!(extract_variables("q", "x"), None);
    assert_eq!(extract_variables("x", "x"), Some(vec![]));
}

#[test]
fn captures_from_groups_filters() {
    let g = vec![(None, Some(s("all"))), (Some(s("a")), None), (Some(s("b")), Some(s("v")))];
    assert_eq!(captures_from_groups(&g), vec![(s("b"), s("v"))]);
}

#[test]
fn first_match_wins() {
    let r1 = Rule { pattern: Some(s("nomatch")), template: Some(s("one")), ..rule() };
    let r2 = Rule { template: Some(s("two")), delay: Some(7), ..rule() };
    let r3 = Rule { template: Some(s("three")), ..rule() };
    let mut c1 = context("tool", &["x"]);
    let mut c2 = context("tool", &["x"]);
    let both = process(&[r1, r2, r3], &mut c1);
    let r2 = Rule { template: Some(s("two")), delay: Some(7), ..rule() };
    assert_eq!(both, process(&[r2], &mut c2));
    assert_eq!(both, Some((vec![s("two")], Some(7))));
}

#[test]
fn app_name_filters_by_substring() {
    let r1 = Rule { app_name: Some(s("putty")), template: Some(s("p")), ..rule() };
    let r2 = Rule { app_name: Some(s("Putty")), template: Some(s("q")), ..rule() };
    let mut ctx = context("putty.exe", &[]);
    assert_eq!(process(&[r2, r1], &mut ctx), Some((vec![s("p")], None)));
    let r3 = Rule { app_name: Some(s("ssh")), template: Some(s("s")), ..rule() };
    assert_eq!(process(&[r3], &mut ctx), None);
}

#[test]
fn rule_without_templates_ends_the_search() {
    let r1 = rule();
    let r2 = Rule { template: Some(s("later")), ..rule() };
    let config = Config { fallback_raw: true, default_delay_ms: 3, rules: vec![r1, r2] };
    let mut ctx = context("tool", &["x"]);
    let (items, delay) = plan_output(&config, &mut ctx);
    assert!(items.is_empty());
    assert_eq!(delay, 3);
}

#[test]
fn invalid_regex_skips_rule() {
    let r1 = Rule { regex: Some(s("(")), template: Some(s("bad")), ..rule() };
    let r2 = Rule { template: Some(s("good")), ..rule() };
    let mut ctx = context("tool", &["x"]);
    assert_eq!(process(&[r1, r2], &mut ctx), Some((vec![s("good")], None)));
}

#[test]
fn captures_do_not_leak_between_rules() {
    let mut ctx = context("tool", &["x"]);
    ctx.named = vec![(s("user"), s("old"))];
    let r = Rule { template: Some(s("[{{user}}]")), ..rule() };
    assert_eq!(process(&[r], &mut ctx), Some((vec![s("[]")], None)));
    assert!(ctx.named.is_empty());
}

#[test]
fn duplicate_group_name_is_no_match() {
    let r = Rule { pattern: Some(s("{a} {a}")), template: Some(s("t")), ..rule() };
    let mut ctx = context("tool", &["x", "y"]);
    assert_eq!(process(&[r], &mut ctx), None);
}

#[test]
fn delay_resolution() {
    assert_eq!(resolve_delay(Some(5), 1000), 5);
    assert_eq!(resolve_delay(None, 1000), 1000);
}

#[test]
fn defaults() {
    let c = Config::default();
    assert!(c.fallback_raw);
    assert_eq!(c.default_delay_ms, 1000);
    assert!(c.rules.is_empty());
    assert!(default_fallback_raw());
    assert_eq!(default_delay_ms(), 1000);
}

#[test]
fn search_names_with_extension() {
    let mut v = vec![s("first")];
    add_search_paths(&mut v, "putty.exe");
    assert_eq!(
        v,
        vec![
            s("first"),
            s("putty.exe.arg-shim.toml"),
            s("putty.exe.toml"),
            s("putty.arg-shim.toml"),
            s("putty.toml"),
            s("arg-shim.toml"),
        ]
    );
}

#[test]
fn search_names_without_extension() {
    let mut v = Vec::new();
    add_search_paths(&mut v, ".hidden");
    assert_eq!(v, vec![s(".hidden.arg-shim.toml"), s(".hidden.toml"), s("arg-shim.toml")]);
    let mut w = Vec::new();
    add_search_paths(&mut w, "a.b.c");
    assert_eq!(w[2], "a.b.arg-shim.toml");
}
