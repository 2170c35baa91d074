use dors::dorsfile::Dorsfile;
use dors::{DorsError, DorsfileGetter, Run, Task};

fn lookup<'a>(doc: &'a Dorsfile, name: &str) -> Option<&'a Task> {
    for (n, t) in doc.task.iter() {
        if n == name {
            return Some(t);
        }
    }
    None
}

const ROOT_TEXT: &str = r#"
[[env]]
SHARED = "root"
ROOT_ONLY = "yes"

[task.shared]
command = "echo root shared"
before = ["helper"]

[task.root-only]
command = "echo root only"
run-from = "members"
before = ["helper"]
after = ["helper"]

[task.helper]
command = "echo helper"
"#;

const MEMBER_TEXT: &str = r#"
[[env]]
SHARED = "member"

[task.shared]
command = "echo member shared"
before = ["helper"]
"#;

#[test]
fn member_definition_wins_wholesale() {
    let root = "/ws".to_string();
    let member = "/ws/m1".to_string();
    let getter = DorsfileGetter::new(&root, Some(&ROOT_TEXT.to_string())).unwrap();
    let doc = getter.get(&member, Some(&MEMBER_TEXT.to_string())).unwrap();

    let shared = lookup(&doc, "shared").unwrap();
    assert_eq!(shared.command, "echo member shared");
    // The member's own definition keeps its hooks.
    assert_eq!(shared.before, Some(vec!["helper".to_string()]));
}

#[test]
fn root_only_task_is_inherited_stripped() {
    let root = "/ws".to_string();
    let member = "/ws/m1".to_string();
    let getter = DorsfileGetter::new(&root, Some(&ROOT_TEXT.to_string())).unwrap();
    let doc = getter.get(&member, Some(&MEMBER_TEXT.to_string())).unwrap();

    let inherited = lookup(&doc, "root-only").unwrap();
    assert_eq!(inherited.command, "echo root only");
    // Hooks are cleared and the fan-out location is demoted, so root-defined
    // before/after/fan-out behaviour does not fire again inside the member.
    assert_eq!(inherited.before, None);
    assert_eq!(inherited.after, None);
    assert_eq!(inherited.run_from, Run::Here);
}

#[test]
fn environment_layers_start_with_the_synthetic_root_entry() {
    let root = "/ws".to_string();
    let member = "/ws/m1".to_string();
    let getter = DorsfileGetter::new(&root, Some(&ROOT_TEXT.to_string())).unwrap();

    // At a member, the layers are: synthetic, then the root's, then the
    // member's own — so member entries override root entries of the same name.
    let doc = getter.get(&member, Some(&MEMBER_TEXT.to_string())).unwrap();
    assert_eq!(doc.env.len(), 3);
    assert_eq!(doc.env[0], vec![("CARGO_WORKSPACE_ROOT".to_string(), root.clone())]);
    // The parser keeps each layer's keys sorted; within one layer the order
    // carries no meaning (a layer never binds one name twice).
    assert_eq!(
        doc.env[1],
        vec![
            ("ROOT_ONLY".to_string(), "yes".to_string()),
            ("SHARED".to_string(), "root".to_string()),
        ]
    );
    assert_eq!(doc.env[2], vec![("SHARED".to_string(), "member".to_string())]);

    // The root itself also gets the synthetic entry as its lowest layer.
    let root_doc = getter.get(&root, None).unwrap();
    assert_eq!(root_doc.env[0], vec![("CARGO_WORKSPACE_ROOT".to_string(), root.clone())]);
}

#[test]
fn resolving_twice_yields_equal_documents() {
    let root = "/ws".to_string();
    let member = "/ws/m1".to_string();
    let getter = DorsfileGetter::new(&root, Some(&ROOT_TEXT.to_string())).unwrap();
    let first = getter.get(&member, Some(&MEMBER_TEXT.to_string())).unwrap();
    let second = getter.get(&member, Some(&MEMBER_TEXT.to_string())).unwrap();
    assert_eq!(first, second);
}

#[test]
fn querying_the_root_without_a_root_config_fails() {
    let root = "/ws".to_string();
    let getter = DorsfileGetter::new(&root, None).unwrap();
    assert!(matches!(getter.get(&root, None).unwrap_err(), DorsError::NoDorsfile));
}

#[test]
fn querying_a_location_with_no_config_anywhere_fails() {
    let root = "/ws".to_string();
    let member = "/ws/m1".to_string();
    let getter = DorsfileGetter::new(&root, None).unwrap();
    assert!(matches!(getter.get(&member, None).unwrap_err(), DorsError::NoMemberDorsfile));
}

#[test]
fn a_member_config_alone_is_used_as_is() {
    let root = "/ws".to_string();
    let member = "/ws/m1".to_string();
    let getter = DorsfileGetter::new(&root, None).unwrap();
    let doc = getter.get(&member, Some(&MEMBER_TEXT.to_string())).unwrap();
    assert_eq!(doc.task.len(), 1);
    assert_eq!(doc.env.len(), 2);
    assert_eq!(doc.env[0], vec![("CARGO_WORKSPACE_ROOT".to_string(), root.clone())]);
}

#[test]
fn a_broken_root_config_fails_construction() {
    let root = "/ws".to_string();
    let err = DorsfileGetter::new(&root, Some(&"not toml at all".to_string())).unwrap_err();
    assert!(matches!(err, DorsError::CouldNotParseDorsfile(_)));
}
