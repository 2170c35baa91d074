use dors::{all_tasks, ConfigFiles, DorsError};

#[test]
fn test_list_workspace_all() {
    let root = "./tests/workspace_all".to_string();
    let text = r#"
[task.check]
command = "cargo check"

[task.nested-works-with-run-variants]
command = "echo nested"

[task.only-member1]
command = "echo one"
run-from = "members"
only-members = ["member1"]

[task.only-member2]
command = "echo two"
run-from = "members"
only-members = ["member2"]

[task.should-fail]
command = "exit 55"

[task.should-have-no-args]
command = "echo plain"
run-from = "members"

[task.should-inherit-envs]
command = "echo env"
run-from = "members"

[task.should-not-overwrite]
command = "echo root"
run-from = "members"

[task.should-not-run-before-or-after-on-member]
command = "echo hooked"
run-from = "members"
before = ["check"]
after = ["check"]

[task.should-overwrite]
command = "exit 55"
run-from = "members"

[task.should-overwrite-members]
command = "echo overwrite"
run-from = "members"

[task.should-pass-args]
command = "exit $1"
run-from = "members"
"#;
    let files = ConfigFiles { files: vec![(root.clone(), text.to_string())] };
    let mut all_tasks = all_tasks(&root, &root, &files).unwrap();
    all_tasks.sort();
    assert_eq!(
        all_tasks,
        [
            "check",
            "nested-works-with-run-variants",
            "only-member1",
            "only-member2",
            "should-fail",
            "should-have-no-args",
            "should-inherit-envs",
            "should-not-overwrite",
            "should-not-run-before-or-after-on-member",
            "should-overwrite",
            "should-overwrite-members",
            "should-pass-args",
        ]
    );
}

#[test]
fn test_list_member_only() {
    let root = "./tests/workspace_member_only".to_string();
    let member = "./tests/workspace_member_only/member1".to_string();
    let text = r#"
[task.should-be-here]
command = "echo here"

[task.should-be-here-explicit]
command = "echo here"
run-from = "here"

[task.should-be-in-workspace]
command = "echo ws"
run-from = "workspace-root"

[task.should-be-in-tests]
command = "echo tests"
run-from = { path = "../.." }

[task.should-be-one]
command = "exit 0"

[task.should-be-one-at-root]
command = "exit 0"
run-from = "workspace-root"

[task.should-have-default-env]
command = "test -n \"$CARGO_WORKSPACE_ROOT\""
"#;
    let files = ConfigFiles { files: vec![(member.clone(), text.to_string())] };
    let all_tasks = all_tasks(&member, &root, &files).unwrap();
    assert_eq!(all_tasks.len(), 7);
}

#[test]
fn listing_the_root_without_a_config_fails() {
    let root = "./tests/no_dorsfiles".to_string();
    let files = ConfigFiles { files: vec![] };
    assert!(matches!(all_tasks(&root, &root, &files).unwrap_err(), DorsError::NoDorsfile));
}

#[test]
fn listing_a_member_without_any_config_fails() {
    let root = "./tests/no_dorsfiles".to_string();
    let member = "./tests/no_dorsfiles/member1".to_string();
    let files = ConfigFiles { files: vec![] };
    assert!(matches!(
        all_tasks(&member, &root, &files).unwrap_err(),
        DorsError::NoMemberDorsfile
    ));
}

#[test]
fn listing_merges_member_and_root_names() {
    let root = "/ws".to_string();
    let member = "/ws/m1".to_string();
    let root_text = "[task.shared]\ncommand = \"root\"\n[task.root-only]\ncommand = \"r\"";
    let member_text = "[task.shared]\ncommand = \"member\"\n[task.member-only]\ncommand = \"m\"";
    let files = ConfigFiles {
        files: vec![
            (root.clone(), root_text.to_string()),
            (member.clone(), member_text.to_string()),
        ],
    };
    let mut names = all_tasks(&member, &root, &files).unwrap();
    names.sort();
    assert_eq!(names, ["member-only", "root-only", "shared"]);
}
