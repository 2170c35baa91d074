use dors::{
    build_script, run_with_statuses, temp_script_name, ConfigFiles, DispatchReq, DorsError,
    RunStep, Workspace,
};

/// Drives one run the way the command-line front end does: ask the engine
/// for the next step, answer each dispatch with the next canned status, and
/// stop on anything else. Returns every dispatched request and the final step.
fn drive(
    task: &str,
    dir: &str,
    args: Vec<String>,
    ws: &Workspace,
    files: &ConfigFiles,
    replies: &[i32],
) -> (Vec<DispatchReq>, RunStep) {
    let task = task.to_string();
    let dir = dir.to_string();
    let mut statuses: Vec<i32> = Vec::new();
    let mut dispatched: Vec<DispatchReq> = Vec::new();
    loop {
        let step = run_with_statuses(&task, &dir, &args, ws, files, &statuses);
        match step {
            RunStep::Dispatch(req) => {
                let st = replies[dispatched.len()];
                dispatched.push(req);
                statuses.push(st);
            },
            other => {
                return (dispatched, other);
            },
        }
    }
}

fn root_only_workspace(root: &str, text: &str) -> (Workspace, ConfigFiles) {
    let ws = Workspace { root: root.to_string(), members: vec![] };
    let files = ConfigFiles { files: vec![(root.to_string(), text.to_string())] };
    (ws, files)
}

#[test]
fn a_plain_task_reports_the_dispatcher_status_unchanged() {
    let text = "[task.check]\ncommand = \"cargo check\"";
    let (ws, files) = root_only_workspace("/ws", text);
    let (dispatched, step) = drive("check", "/ws", vec![], &ws, &files, &[0]);
    assert_eq!(dispatched.len(), 1);
    assert_eq!(dispatched[0].task, "check");
    assert_eq!(dispatched[0].command, "cargo check");
    assert_eq!(dispatched[0].workdir, "/ws");
    assert_eq!(step, RunStep::Done(0));

    let (dispatched, step) = drive("check", "/ws", vec![], &ws, &files, &[55]);
    assert_eq!(dispatched.len(), 1);
    assert_eq!(step, RunStep::Done(55));
}

#[test]
fn an_unknown_task_fails_by_name() {
    let text = "[task.check]\ncommand = \"cargo check\"";
    let (ws, files) = root_only_workspace("/ws", text);
    let (dispatched, step) = drive("fake-task", "/ws", vec![], &ws, &files, &[]);
    assert_eq!(dispatched.len(), 0);
    assert_eq!(step, RunStep::Failed(DorsError::NoTask("fake-task".to_string())));
}

#[test]
fn a_shared_prehook_runs_exactly_once() {
    let text = r#"
[task.t]
command = "echo t"
before = ["a", "b"]

[task.a]
command = "echo a"
before = ["c"]

[task.b]
command = "echo b"
before = ["c"]

[task.c]
command = "echo c"
"#;
    let (ws, files) = root_only_workspace("/ws", text);
    let (dispatched, step) = drive("t", "/ws", vec![], &ws, &files, &[0, 0, 0, 0]);
    assert_eq!(step, RunStep::Done(0));
    let tasks: Vec<&str> = dispatched.iter().map(|d| d.task.as_str()).collect();
    assert_eq!(tasks, ["c", "a", "b", "t"]);
}

#[test]
fn a_shared_prehook_runs_once_among_other_hooks() {
    let text = r#"
[task.t]
command = "echo t"
before = ["a", "b"]

[task.a]
command = "echo a"
before = ["x", "c"]

[task.b]
command = "echo b"
before = ["c", "y"]

[task.c]
command = "echo c"

[task.x]
command = "echo x"

[task.y]
command = "echo y"
"#;
    let (ws, files) = root_only_workspace("/ws", text);
    let (dispatched, step) = drive("t", "/ws", vec![], &ws, &files, &[0, 0, 0, 0, 0, 0]);
    assert_eq!(step, RunStep::Done(0));
    let tasks: Vec<&str> = dispatched.iter().map(|d| d.task.as_str()).collect();
    assert_eq!(tasks, ["x", "c", "a", "y", "b", "t"]);
    assert_eq!(tasks.iter().filter(|t| **t == "c").count(), 1);
}

#[test]
fn a_shared_posthook_runs_exactly_once() {
    let text = r#"
[task.t]
command = "echo t"
after = ["a", "b"]

[task.a]
command = "echo a"
after = ["c"]

[task.b]
command = "echo b"
after = ["c"]

[task.c]
command = "echo c"
"#;
    let (ws, files) = root_only_workspace("/ws", text);
    let (dispatched, step) = drive("t", "/ws", vec![], &ws, &files, &[0, 0, 0, 0]);
    assert_eq!(step, RunStep::Done(0));
    let tasks: Vec<&str> = dispatched.iter().map(|d| d.task.as_str()).collect();
    assert_eq!(tasks, ["t", "a", "c", "b"]);
}

#[test]
fn a_failing_prehook_short_circuits_the_run() {
    let text = r#"
[task.t]
command = "echo t"
before = ["h"]
after = ["p"]

[task.h]
command = "exit 55"

[task.p]
command = "echo p"
"#;
    let (ws, files) = root_only_workspace("/ws", text);
    let (dispatched, step) = drive("t", "/ws", vec![], &ws, &files, &[55]);
    // Neither t's own command nor its post-hook ran, and the reported result
    // is the failing hook's.
    assert_eq!(dispatched.len(), 1);
    assert_eq!(dispatched[0].task, "h");
    assert_eq!(step, RunStep::Done(55));
}

#[test]
fn a_failing_command_skips_the_posthooks() {
    let text = r#"
[task.t]
command = "exit 55"
after = ["p"]

[task.p]
command = "echo p"
"#;
    let (ws, files) = root_only_workspace("/ws", text);
    let (dispatched, step) = drive("t", "/ws", vec![], &ws, &files, &[55]);
    assert_eq!(dispatched.len(), 1);
    assert_eq!(dispatched[0].task, "t");
    assert_eq!(step, RunStep::Done(55));
}

#[test]
fn run_from_variants_pick_the_working_directory() {
    let text = r#"
[task.at-root]
command = "echo r"
run-from = "workspace-root"

[task.at-path]
command = "echo p"
run-from = { path = "sub/dir" }
"#;
    let ws = Workspace { root: "/ws".to_string(), members: vec![] };
    let member = "/ws/m1".to_string();
    let files = ConfigFiles { files: vec![("/ws".to_string(), text.to_string())] };

    let (dispatched, step) = drive("at-root", &member, vec![], &ws, &files, &[0]);
    assert_eq!(step, RunStep::Done(0));
    assert_eq!(dispatched[0].workdir, "/ws");

    let (dispatched, step) = drive("at-path", &member, vec![], &ws, &files, &[0]);
    assert_eq!(step, RunStep::Done(0));
    assert_eq!(dispatched[0].workdir, "/ws/m1/sub/dir");
}

#[test]
fn fanout_visits_every_member_in_discovery_order() {
    let text = "[task.fan]\ncommand = \"echo x\"\nrun-from = \"members\"";
    let ws = Workspace {
        root: "/ws".to_string(),
        members: vec![
            ("m1".to_string(), "/ws/m1".to_string()),
            ("m2".to_string(), "/ws/m2".to_string()),
        ],
    };
    let files = ConfigFiles { files: vec![("/ws".to_string(), text.to_string())] };
    let (dispatched, step) = drive("fan", "/ws", vec![], &ws, &files, &[0, 0]);
    assert_eq!(step, RunStep::Done(0));
    let dirs: Vec<&str> = dispatched.iter().map(|d| d.workdir.as_str()).collect();
    assert_eq!(dirs, ["/ws/m1", "/ws/m2"]);
}

#[test]
fn only_members_filter_visits_exactly_the_named_member() {
    let text =
        "[task.fan]\ncommand = \"echo x\"\nrun-from = \"members\"\nonly-members = [\"m2\"]";
    let ws = Workspace {
        root: "/ws".to_string(),
        members: vec![
            ("m1".to_string(), "/ws/m1".to_string()),
            ("m2".to_string(), "/ws/m2".to_string()),
        ],
    };
    let files = ConfigFiles { files: vec![("/ws".to_string(), text.to_string())] };
    let (dispatched, step) = drive("fan", "/ws", vec![], &ws, &files, &[0]);
    assert_eq!(step, RunStep::Done(0));
    let dirs: Vec<&str> = dispatched.iter().map(|d| d.workdir.as_str()).collect();
    assert_eq!(dirs, ["/ws/m2"]);
}

#[test]
fn skip_members_filter_visits_everyone_else() {
    let text =
        "[task.fan]\ncommand = \"echo x\"\nrun-from = \"members\"\nskip-members = [\"m2\"]";
    let ws = Workspace {
        root: "/ws".to_string(),
        members: vec![
            ("m1".to_string(), "/ws/m1".to_string()),
            ("m2".to_string(), "/ws/m2".to_string()),
            ("m3".to_string(), "/ws/m3".to_string()),
        ],
    };
    let files = ConfigFiles { files: vec![("/ws".to_string(), text.to_string())] };
    let (dispatched, step) = drive("fan", "/ws", vec![], &ws, &files, &[0, 0]);
    assert_eq!(step, RunStep::Done(0));
    let dirs: Vec<&str> = dispatched.iter().map(|d| d.workdir.as_str()).collect();
    assert_eq!(dirs, ["/ws/m1", "/ws/m3"]);
}

#[test]
fn members_can_be_filtered_by_relative_path() {
    let text =
        "[task.fan]\ncommand = \"echo x\"\nrun-from = \"members\"\nonly-members = [\"m2\"]";
    // The member is registered under another name but its path relative to
    // the root is `m2`, which the filter also matches.
    let ws = Workspace {
        root: "/ws".to_string(),
        members: vec![
            ("alpha".to_string(), "/ws/m1".to_string()),
            ("beta".to_string(), "/ws/m2".to_string()),
        ],
    };
    let files = ConfigFiles { files: vec![("/ws".to_string(), text.to_string())] };
    let (dispatched, step) = drive("fan", "/ws", vec![], &ws, &files, &[0]);
    assert_eq!(step, RunStep::Done(0));
    assert_eq!(dispatched[0].workdir, "/ws/m2");
}

#[test]
fn fanout_stops_at_the_first_failing_member() {
    let text = "[task.fan]\ncommand = \"echo x\"\nrun-from = \"members\"";
    let ws = Workspace {
        root: "/ws".to_string(),
        members: vec![
            ("m1".to_string(), "/ws/m1".to_string()),
            ("m2".to_string(), "/ws/m2".to_string()),
            ("m3".to_string(), "/ws/m3".to_string()),
        ],
    };
    let files = ConfigFiles { files: vec![("/ws".to_string(), text.to_string())] };
    let (dispatched, step) = drive("fan", "/ws", vec![], &ws, &files, &[0, 55]);
    assert_eq!(dispatched.len(), 2);
    assert_eq!(step, RunStep::Done(55));
}

#[test]
fn fanout_that_selects_no_member_aborts() {
    let text =
        "[task.fan]\ncommand = \"echo x\"\nrun-from = \"members\"\nonly-members = [\"zz\"]";
    let ws = Workspace {
        root: "/ws".to_string(),
        members: vec![("m1".to_string(), "/ws/m1".to_string())],
    };
    let files = ConfigFiles { files: vec![("/ws".to_string(), text.to_string())] };
    let (dispatched, step) = drive("fan", "/ws", vec![], &ws, &files, &[]);
    assert_eq!(dispatched.len(), 0);
    assert!(matches!(step, RunStep::Aborted(_)));
}

#[test]
fn fanout_from_a_member_aborts() {
    // A member-local task may still say `run-from = "members"`; running it
    // from the member is a contract violation, not a recoverable error.
    let member_text = "[task.fan]\ncommand = \"echo x\"\nrun-from = \"members\"";
    let ws = Workspace {
        root: "/ws".to_string(),
        members: vec![("m1".to_string(), "/ws/m1".to_string())],
    };
    let files = ConfigFiles { files: vec![("/ws/m1".to_string(), member_text.to_string())] };
    let (dispatched, step) = drive("fan", "/ws/m1", vec![], &ws, &files, &[]);
    assert_eq!(dispatched.len(), 0);
    assert!(matches!(step, RunStep::Aborted(_)));
}

#[test]
fn a_member_inherits_root_environment_under_its_own() {
    let root_text = "[[env]]\nWHO = \"root\"\n[task.fan]\ncommand = \"echo x\"\nrun-from = \"members\"";
    let member_text = "[[env]]\nWHO = \"member\"";
    let ws = Workspace {
        root: "/ws".to_string(),
        members: vec![("m1".to_string(), "/ws/m1".to_string())],
    };
    let files = ConfigFiles {
        files: vec![
            ("/ws".to_string(), root_text.to_string()),
            ("/ws/m1".to_string(), member_text.to_string()),
        ],
    };
    let (dispatched, step) = drive("fan", "/ws", vec![], &ws, &files, &[0]);
    assert_eq!(step, RunStep::Done(0));
    assert_eq!(
        dispatched[0].env,
        vec![
            vec![("CARGO_WORKSPACE_ROOT".to_string(), "/ws".to_string())],
            vec![("WHO".to_string(), "root".to_string())],
            vec![("WHO".to_string(), "member".to_string())],
        ]
    );
}

#[test]
fn arguments_reach_the_task_but_not_its_hooks() {
    let text = r#"
[task.t]
command = "echo t"
before = ["h"]

[task.h]
command = "echo h"
"#;
    let (ws, files) = root_only_workspace("/ws", text);
    let args = vec!["one".to_string(), "two".to_string()];
    let (dispatched, step) = drive("t", "/ws", args.clone(), &ws, &files, &[0, 0]);
    assert_eq!(step, RunStep::Done(0));
    assert_eq!(dispatched[0].task, "h");
    assert_eq!(dispatched[0].args, Vec::<String>::new());
    assert_eq!(dispatched[1].task, "t");
    assert_eq!(dispatched[1].args, args);
}

#[test]
fn running_without_any_config_fails() {
    let ws = Workspace { root: "/ws".to_string(), members: vec![] };
    let files = ConfigFiles { files: vec![] };
    let (dispatched, step) = drive("t", "/ws/m1", vec![], &ws, &files, &[]);
    assert_eq!(dispatched.len(), 0);
    assert_eq!(step, RunStep::Failed(DorsError::NoMemberDorsfile));
}

#[test]
fn the_dispatch_script_exports_layers_in_order() {
    let env = vec![
        vec![("A".to_string(), "1".to_string()), ("B".to_string(), "2".to_string())],
        vec![("A".to_string(), "3".to_string())],
    ];
    let script = build_script(&env, &"echo hi\necho there".to_string());
    assert_eq!(script, "export A=1\nexport B=2\nexport A=3\necho hi\necho there\n");
}

#[test]
fn temp_script_names_have_the_expected_shape() {
    let name = temp_script_name();
    assert_eq!(name.chars().count(), 17);
    assert!(name.starts_with("tmp-"));
    assert!(name.ends_with(".sh"));
}
