use blast_radius::component::{component_virtual_script_path, extract_component_scripts, finish_component_facts};
use blast_radius::facts::{ExportKind, ImportFact, ImportKind, ImportTarget, ModuleFacts};
use blast_radius::gate::{exit_code, gate_tripped, usage_exit_code, use_color, ColorChoice};
use blast_radius::graph::{compute_tier, RiskTier, Summary};
use blast_radius::hooks::{
    apply_blocking_mode, expand_file_list, hook_file_name, hook_script, names_stdin, pre_commit_command, pre_push_command,
    shell_parameter_default, HookKind, InitOptions, InitResult,
};

fn options(hook: HookKind, blocking: bool, fail_threshold: Option<usize>) -> InitOptions {
    InitOptions {
        repo_root: ".".to_string(),
        hook,
        base: "origin/main".to_string(),
        blocking,
        fail_threshold,
        force: false,
    }
}

fn strings(v: &[&str]) -> Vec<String> {
    v.iter().map(|s| s.to_string()).collect()
}

#[test]
fn hook_file_names() {
    assert_eq!(hook_file_name(HookKind::PreCommit), "pre-commit");
    assert_eq!(hook_file_name(HookKind::PrePush), "pre-push");
}

#[test]
fn shell_default_escapes_quotes_dollars_backticks_and_backslashes() {
    assert_eq!(shell_parameter_default("origin/main"), "origin/main");
    assert_eq!(shell_parameter_default("a\"b$c`d\\e"), "a\\\"b\\$c\\`d\\\\e");
}

#[test]
fn non_blocking_hooks_never_fail() {
    let o = options(HookKind::PreCommit, false, None);
    assert_eq!(apply_blocking_mode("cmd".to_string(), &o), "cmd || true");
    let o = options(HookKind::PreCommit, true, None);
    assert_eq!(apply_blocking_mode("cmd".to_string(), &o), "cmd");
}

#[test]
fn pre_commit_checks_staged_files() {
    let text = pre_commit_command(&options(HookKind::PreCommit, true, Some(50)));
    assert_eq!(
        text,
        "mapfile -t files < <(git diff --cached --name-only --diff-filter=ACMR)\n\
         if [ \"${#files[@]}\" -eq 0 ]; then\n  exit 0\nfi\n\n\
         echo \"blast-radius: checking staged files\"\n\
         blast-radius --repo-root . --fail-threshold 50 files \"${files[@]}\""
    );
}

#[test]
fn pre_push_checks_the_diff_against_an_overridable_base() {
    let text = pre_push_command(&options(HookKind::PrePush, false, None));
    assert_eq!(
        text,
        "base=\"${BLAST_RADIUS_BASE:-origin/main}\"\n\n\
         echo \"blast-radius: checking diff $base\"\n\
         blast-radius --repo-root . diff \"$base\" || true"
    );
}

#[test]
fn hook_script_skips_when_not_installed() {
    let script = hook_script(&options(HookKind::PrePush, true, None));
    assert!(script.starts_with("#!/usr/bin/env bash\nset -u\n\nif ! command -v blast-radius >/dev/null 2>&1; then\n"));
    assert!(script.ends_with("diff \"$base\"\n"));
}

#[test]
fn stdin_dash_is_replaced_by_the_listed_files() {
    let files = strings(&["a.ts", "-", "b.ts"]);
    assert!(names_stdin(&files));
    let expanded = expand_file_list(&files, "  x.ts \n\n y.ts\r\n   \n").unwrap();
    assert_eq!(expanded, strings(&["a.ts", "x.ts", "y.ts", "b.ts"]));
}

#[test]
fn empty_stdin_list_is_an_error() {
    let files = strings(&["-"]);
    assert_eq!(expand_file_list(&files, "\n  \n").unwrap_err(), "no files provided: stdin file list was empty");
}

#[test]
fn file_list_without_dash_names_no_stdin() {
    assert!(!names_stdin(&strings(&["a.ts", "b.ts"])));
}

fn summary(total: usize, tier: RiskTier) -> Summary {
    Summary {
        directly_affected_files: total,
        transitively_affected_files: 0,
        total_affected_files: total,
        unresolved_imports: 0,
        ambiguous_edges: 0,
        parse_failures: 0,
        skipped_inputs: 0,
        risk_tier: tier,
    }
}

#[test]
fn threshold_gate_trips_only_above_the_threshold() {
    let s = summary(50, RiskTier::High);
    assert!(!gate_tripped(&s, Some(50), None));
    assert!(gate_tripped(&s, Some(49), None));
    assert_eq!(exit_code(&s, Some(49), None), 2);
    assert_eq!(exit_code(&s, Some(50), None), 0);
}

#[test]
fn risk_gate_trips_at_or_above_the_tier() {
    let s = summary(5, RiskTier::Risky);
    assert!(gate_tripped(&s, None, Some(RiskTier::Risky)));
    assert!(gate_tripped(&s, None, Some(RiskTier::Moderate)));
    assert!(!gate_tripped(&s, None, Some(RiskTier::High)));
    assert_eq!(exit_code(&s, None, None), 0);
}

#[test]
fn usage_errors_exit_64_but_help_exits_0() {
    assert_eq!(usage_exit_code(true), 0);
    assert_eq!(usage_exit_code(false), 64);
}

#[test]
fn color_follows_the_choice_and_the_destination() {
    assert!(use_color(ColorChoice::Always, true, false, true));
    assert!(!use_color(ColorChoice::Never, false, true, false));
    assert!(use_color(ColorChoice::Auto, false, true, false));
    assert!(!use_color(ColorChoice::Auto, true, true, false));
    assert!(!use_color(ColorChoice::Auto, false, false, false));
    assert!(!use_color(ColorChoice::Auto, false, true, true));
}

#[test]
fn tier_boundaries() {
    assert_eq!(compute_tier(0, 5), RiskTier::Minor);
    assert_eq!(compute_tier(3, 1), RiskTier::Minor);
    assert_eq!(compute_tier(4, 1), RiskTier::Moderate);
    assert_eq!(compute_tier(10, 2), RiskTier::Moderate);
    assert_eq!(compute_tier(11, 2), RiskTier::Risky);
    assert_eq!(compute_tier(2, 3), RiskTier::High);
    assert_eq!(compute_tier(26, 1), RiskTier::High);
}

#[test]
fn tier_never_drops_as_reach_grows() {
    let mut last = 0u8;
    for affected in 1..40usize {
        let rank = compute_tier(affected, 1).rank();
        assert!(rank >= last);
        last = rank;
    }
}

#[test]
fn component_scripts_are_joined_and_typescript_detected() {
    let source = "<template><div/></template>\n<script>\nimport A from './A'\n</script>\n<script setup lang=\"ts\">\nimport B from './B'\n</script>\n";
    let script = extract_component_scripts(source);
    assert_eq!(script.source, "\nimport A from './A'\n\n\nimport B from './B'\n");
    assert!(script.is_typescript);
    assert_eq!(component_virtual_script_path("/repo/src/App.vue", &script), "/repo/src/App.vue.ts");
}

#[test]
fn unclosed_script_is_ignored() {
    let script = extract_component_scripts("<script lang='tsx'>let a = 1;");
    assert_eq!(script.source, "");
    assert!(script.is_typescript);
    assert_eq!(component_virtual_script_path("Widget.svelte", &script), "Widget.svelte.ts");
    let plain = extract_component_scripts("<p>no script</p>");
    assert_eq!(plain.source, "");
    assert!(!plain.is_typescript);
    assert_eq!(component_virtual_script_path("Widget.svelte", &plain), "Widget.svelte.js");
}

#[test]
fn component_facts_export_default_and_use_every_import() {
    let mut facts = ModuleFacts::empty("/repo/src/App.vue".to_string());
    facts.imports.push(ImportFact {
        source: "./Button.vue".to_string(),
        local: "Button".to_string(),
        imported: ImportTarget::Default,
        kind: ImportKind::Esm,
        type_only: false,
    });
    let done = finish_component_facts(facts, "vue");
    assert_eq!(done.exports.len(), 1);
    assert_eq!(done.exports[0].exported, "default");
    assert_eq!(done.exports[0].kind, ExportKind::Default);
    assert!(done.used_locals.contains("Button"));
    assert_eq!(done.warnings, vec!["parsed vue script blocks as JavaScript/TypeScript".to_string()]);
}

#[test]
fn list_without_dash_is_left_as_it_is() {
    let files = strings(&["a.ts", "b.ts"]);
    assert_eq!(expand_file_list(&files, "x.ts\ny.ts\n").unwrap(), files);
}

#[test]
fn raising_the_threshold_never_trips_a_gate() {
    let s = summary(12, RiskTier::Risky);
    for threshold in 12..20usize {
        assert!(!gate_tripped(&s, Some(threshold), Some(RiskTier::High)));
    }
}

#[test]
fn installed_hook_result_records_path_and_blocking_mode() {
    let r = InitResult::installed("/repo/.git/hooks/pre-commit".to_string(), &options(HookKind::PreCommit, true, None));
    assert_eq!(r.hook_path, "/repo/.git/hooks/pre-commit");
    assert!(r.blocking);
    let r = InitResult::installed("/repo/.git/hooks/pre-push".to_string(), &options(HookKind::PrePush, false, None));
    assert!(!r.blocking);
}
