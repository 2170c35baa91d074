use dors::dorsfile::Dorsfile;
use dors::{DorsError, MemberModifiers, ParseIssue, Run, Task};

fn lookup<'a>(doc: &'a Dorsfile, name: &str) -> Option<&'a Task> {
    for (n, t) in doc.task.iter() {
        if n == name {
            return Some(t);
        }
    }
    None
}

#[test]
fn test_load_dorsfile() {
    let sample = r#"
[[env]]
HI = "HOW ARE YOU"

[task.build]
command = "cargo build"
run-from = "here"

[task.check]
command = "cargo check"

[task.long]
command = '''
    hi one
    hi two
'''
run-from = "members"
skip-members = ["member1"]

[task.skip]
command = "echo hi"
only-members = ["member2"]

[task.specific]
command = "echo 'hi'"
run-from = { path = "../whaat" }

[task.empty]
"#;
    let mf = Dorsfile::parse(sample).unwrap();
    assert_eq!(mf.task.len(), 6);
    assert_eq!(mf.env.len(), 1);
}

#[test]
fn parse_reads_every_field_form() {
    let sample = r#"
[[env]]
HI = "HOW ARE YOU"

[task.build]
command = "cargo build"
run-from = "here"

[task.long]
command = "x"
run-from = "members"
skip-members = ["member1"]

[task.skip]
command = "echo hi"
only-members = ["member2"]

[task.specific]
command = "echo 'hi'"
run-from = { path = "../whaat" }

[task.rooted]
command = "y"
run-from = "workspace-root"
before = ["build"]
after = ["skip"]

[task.empty]
"#;
    let mf = Dorsfile::parse(sample).unwrap();
    assert_eq!(mf.env, vec![vec![("HI".to_string(), "HOW ARE YOU".to_string())]]);

    let build = lookup(&mf, "build").unwrap();
    assert_eq!(build.run_from, Run::Here);
    assert_eq!(build.command, "cargo build");
    assert_eq!(build.before, None);
    assert_eq!(build.after, None);
    assert_eq!(build.member_modifiers, None);

    let long = lookup(&mf, "long").unwrap();
    assert_eq!(long.run_from, Run::Members);
    assert_eq!(
        long.member_modifiers,
        Some(MemberModifiers::SkipMembers(vec!["member1".to_string()]))
    );

    let skip = lookup(&mf, "skip").unwrap();
    assert_eq!(
        skip.member_modifiers,
        Some(MemberModifiers::OnlyMembers(vec!["member2".to_string()]))
    );

    let specific = lookup(&mf, "specific").unwrap();
    assert_eq!(specific.run_from, Run::Path("../whaat".to_string()));

    let rooted = lookup(&mf, "rooted").unwrap();
    assert_eq!(rooted.run_from, Run::WorkspaceRoot);
    assert_eq!(rooted.before, Some(vec!["build".to_string()]));
    assert_eq!(rooted.after, Some(vec!["skip".to_string()]));

    let empty = lookup(&mf, "empty").unwrap();
    assert_eq!(empty.command, "");
    assert_eq!(empty.run_from, Run::Here);
}

#[test]
fn unknown_task_field_is_an_error() {
    let err = Dorsfile::parse("[task.a]\nunexpected-field=1").unwrap_err();
    assert!(matches!(
        err,
        DorsError::CouldNotParseDorsfile(ParseIssue::BadModifiers(ref t)) if t == "a"
    ));
}

#[test]
fn malformed_syntax_is_an_error() {
    let err = Dorsfile::parse("invalid-syntax").unwrap_err();
    assert!(matches!(err, DorsError::CouldNotParseDorsfile(ParseIssue::Syntax(_))));
}

#[test]
fn both_member_filters_are_an_error() {
    let err = Dorsfile::parse(
        "[task.a]\ncommand = \"x\"\nskip-members = [\"m\"]\nonly-members = [\"n\"]",
    )
    .unwrap_err();
    assert!(matches!(
        err,
        DorsError::CouldNotParseDorsfile(ParseIssue::BadModifiers(ref t)) if t == "a"
    ));
}

#[test]
fn non_string_command_is_an_error() {
    let err = Dorsfile::parse("[task.a]\ncommand = 5").unwrap_err();
    assert!(matches!(
        err,
        DorsError::CouldNotParseDorsfile(ParseIssue::BadCommand(ref t)) if t == "a"
    ));
}

#[test]
fn unknown_location_name_is_an_error() {
    let err = Dorsfile::parse("[task.a]\nrun-from = \"nowhere\"").unwrap_err();
    assert!(matches!(
        err,
        DorsError::CouldNotParseDorsfile(ParseIssue::BadRunFrom(ref t)) if t == "a"
    ));
}

#[test]
fn non_string_hook_list_is_an_error() {
    let err = Dorsfile::parse("[task.a]\nbefore = [1, 2]").unwrap_err();
    assert!(matches!(
        err,
        DorsError::CouldNotParseDorsfile(ParseIssue::BadHooks(ref t)) if t == "a"
    ));
    let err = Dorsfile::parse("[task.a]\nafter = \"not-a-list\"").unwrap_err();
    assert!(matches!(
        err,
        DorsError::CouldNotParseDorsfile(ParseIssue::BadHooks(ref t)) if t == "a"
    ));
}

#[test]
fn non_table_task_list_is_an_error() {
    let err = Dorsfile::parse("task = 3").unwrap_err();
    assert!(matches!(err, DorsError::CouldNotParseDorsfile(ParseIssue::BadTaskList)));
    let err = Dorsfile::parse("[task]\na = 5").unwrap_err();
    assert!(matches!(err, DorsError::CouldNotParseDorsfile(ParseIssue::BadTaskList)));
}

#[test]
fn non_table_env_is_an_error() {
    let err = Dorsfile::parse("env = 3").unwrap_err();
    assert!(matches!(err, DorsError::CouldNotParseDorsfile(ParseIssue::BadEnv)));
    let err = Dorsfile::parse("[[env]]\nHI = 3").unwrap_err();
    assert!(matches!(err, DorsError::CouldNotParseDorsfile(ParseIssue::BadEnv)));
}

#[test]
fn unknown_top_level_keys_are_tolerated() {
    let mf = Dorsfile::parse("something-else = 3\n[task.a]\ncommand = \"x\"").unwrap();
    assert_eq!(mf.task.len(), 1);
}

#[test]
fn error_lines_name_the_failure() {
    let err = Dorsfile::parse("[task.a]\nunexpected-field=1").unwrap_err();
    assert!(err.describe().starts_with("Could not parse dorsfile: "));
    assert_eq!(
        DorsError::NoTask("x".to_string()).describe(),
        "No task named: `x`"
    );
    assert_eq!(DorsError::NoDorsfile.describe(), "Expected `Dorsfile.toml`");
    assert_eq!(
        DorsError::NoMemberDorsfile.describe(),
        "Need `Dorsfile.toml` at either member or workspace root."
    );
}
