//! The configuration document: task table, environment layers, and the
//! schema that turns a parsed TOML tree into one.

use vstd::prelude::*;
use crate::error::{DorsError, DorsErrorV, ParseIssue, ParseIssueV};
use crate::toml_text::{parse_toml_text, toml_document_of, TomlValue};

verus! {

/// Where a task's command runs.
#[derive(Debug, Clone, PartialEq)]
pub enum Run {
    /// At the location the task was resolved for.
    Here,
    /// At the location joined with the given relative path.
    Path(String),
    /// At the workspace root.
    WorkspaceRoot,
    /// Once per workspace member; only allowed from the workspace root.
    Members,
}

/// Spec-level shape of [`Run`].
pub enum RunV {
    Here,
    Path(Seq<char>),
    WorkspaceRoot,
    Members,
}

impl View for Run {
    type V = RunV;

    open spec fn view(&self) -> RunV {
        match self {
            Run::Here => RunV::Here,
            Run::Path(p) => RunV::Path(p@),
            Run::WorkspaceRoot => RunV::WorkspaceRoot,
            Run::Members => RunV::Members,
        }
    }
}

impl DeepView for Run {
    type V = RunV;

    open spec fn deep_view(&self) -> RunV {
        self.view()
    }
}

impl Default for Run {
    /// A task that names no location runs at the queried location itself.
    fn default() -> (r: Run)
        ensures
            r == Run::Here,
    {
        Run::Here
    }
}

/// A member filter on a fan-out task: either the members to leave out, or
/// the only members to include. A member matches by name or by its path
/// relative to the workspace root.
#[derive(Debug, Clone, PartialEq)]
pub enum MemberModifiers {
    SkipMembers(Vec<String>),
    OnlyMembers(Vec<String>),
}

/// Spec-level shape of [`MemberModifiers`].
pub enum MemberModifiersV {
    SkipMembers(Seq<Seq<char>>),
    OnlyMembers(Seq<Seq<char>>),
}

impl View for MemberModifiers {
    type V = MemberModifiersV;

    open spec fn view(&self) -> MemberModifiersV {
        match self {
            MemberModifiers::SkipMembers(v) => MemberModifiersV::SkipMembers(v.deep_view()),
            MemberModifiers::OnlyMembers(v) => MemberModifiersV::OnlyMembers(v.deep_view()),
        }
    }
}

impl DeepView for MemberModifiers {
    type V = MemberModifiersV;

    open spec fn deep_view(&self) -> MemberModifiersV {
        self.view()
    }
}

/// One named task: a shell command, where it runs, the tasks to run before
/// and after it, and an optional member filter for fan-out.
#[derive(Debug, Clone, PartialEq)]
pub struct Task {
    pub run_from: Run,
    pub command: String,
    pub before: Option<Vec<String>>,
    pub after: Option<Vec<String>>,
    pub member_modifiers: Option<MemberModifiers>,
}

/// Spec-level shape of [`Task`].
pub struct TaskV {
    pub run_from: RunV,
    pub command: Seq<char>,
    pub before: Option<Seq<Seq<char>>>,
    pub after: Option<Seq<Seq<char>>>,
    pub member_modifiers: Option<MemberModifiersV>,
}

impl View for Task {
    type V = TaskV;

    open spec fn view(&self) -> TaskV {
        TaskV {
            run_from: self.run_from@,
            command: self.command@,
            before: self.before.deep_view(),
            after: self.after.deep_view(),
            member_modifiers: self.member_modifiers.deep_view(),
        }
    }
}

impl DeepView for Task {
    type V = TaskV;

    open spec fn deep_view(&self) -> TaskV {
        self.view()
    }
}

/// A configuration document: ordered environment layers (later layers win on
/// key collision) and a task table with unique names.
#[derive(Debug, Clone, PartialEq)]
pub struct Dorsfile {
    pub env: Vec<Vec<(String, String)>>,
    pub task: Vec<(String, Task)>,
}

/// Spec-level shape of [`Dorsfile`].
pub struct DorsfileV {
    pub env: Seq<Seq<(Seq<char>, Seq<char>)>>,
    pub task: Seq<(Seq<char>, TaskV)>,
}

impl View for Dorsfile {
    type V = DorsfileV;

    open spec fn view(&self) -> DorsfileV {
        DorsfileV { env: self.env.deep_view(), task: self.task.deep_view() }
    }
}

impl DeepView for Dorsfile {
    type V = DorsfileV;

    open spec fn deep_view(&self) -> DorsfileV {
        self.view()
    }
}

/// No task name occurs twice.
pub open spec fn task_names_unique(tasks: Seq<(Seq<char>, TaskV)>) -> bool {
    forall|i: int, j: int| 0 <= i < j < tasks.len() ==> tasks[i].0 != tasks[j].0
}

impl DorsfileV {
    /// The document invariant: the task table is a map.
    pub open spec fn wf(self) -> bool {
        task_names_unique(self.task)
    }
}

/// The task bound to `name`: the first (and, in a well-formed document, only)
/// entry carrying it.
pub open spec fn find_task(tasks: Seq<(Seq<char>, TaskV)>, name: Seq<char>) -> Option<TaskV>
    decreases tasks.len(),
{
    if tasks.len() == 0 {
        None
    } else if tasks[0].0 == name {
        Some(tasks[0].1)
    } else {
        find_task(tasks.drop_first(), name)
    }
}

/// The first value bound to `key` in a table's entries.
pub open spec fn toml_lookup_spec(entries: Seq<(String, TomlValue)>, key: Seq<char>) -> Option<
    TomlValue,
>
    decreases entries.len(),
{
    if entries.len() == 0 {
        None
    } else if entries[0].0@ == key {
        Some(entries[0].1)
    } else {
        toml_lookup_spec(entries.drop_first(), key)
    }
}

/// The strings of an all-string TOML array, or `None` if any element is not
/// a string.
pub open spec fn spec_strings_of(items: Seq<TomlValue>, acc: Seq<Seq<char>>) -> Option<
    Seq<Seq<char>>,
>
    decreases items.len(),
{
    if items.len() == 0 {
        Some(acc)
    } else {
        match items[0] {
            TomlValue::Text(s) => spec_strings_of(items.drop_first(), acc.push(s@)),
            _ => None,
        }
    }
}

/// One `[[env]]` layer: every value must be a string.
pub open spec fn spec_env_table(
    entries: Seq<(String, TomlValue)>,
    acc: Seq<(Seq<char>, Seq<char>)>,
) -> Option<Seq<(Seq<char>, Seq<char>)>>
    decreases entries.len(),
{
    if entries.len() == 0 {
        Some(acc)
    } else {
        match entries[0].1 {
            TomlValue::Text(s) => spec_env_table(
                entries.drop_first(),
                acc.push((entries[0].0@, s@)),
            ),
            _ => None,
        }
    }
}

/// The `env` array: each element must be a string-to-string table.
pub open spec fn spec_env_tables(
    items: Seq<TomlValue>,
    acc: Seq<Seq<(Seq<char>, Seq<char>)>>,
) -> Option<Seq<Seq<(Seq<char>, Seq<char>)>>>
    decreases items.len(),
{
    if items.len() == 0 {
        Some(acc)
    } else {
        match items[0] {
            TomlValue::Table(entries) => match spec_env_table(entries@, Seq::empty()) {
                Some(layer) => spec_env_tables(items.drop_first(), acc.push(layer)),
                None => None,
            },
            _ => None,
        }
    }
}

/// The environment layers of a document tree: absent means no layers.
pub open spec fn spec_env_of(entries: Seq<(String, TomlValue)>) -> Result<
    Seq<Seq<(Seq<char>, Seq<char>)>>,
    ParseIssueV,
> {
    match toml_lookup_spec(entries, "env"@) {
        None => Ok(Seq::empty()),
        Some(ev) => match ev {
            TomlValue::Array(items) => match spec_env_tables(items@, Seq::empty()) {
                Some(layers) => Ok(layers),
                None => Err(ParseIssueV::BadEnv),
            },
            _ => Err(ParseIssueV::BadEnv),
        },
    }
}

/// The task-table keys that the schema knows.
pub open spec fn known_task_key(key: Seq<char>) -> bool {
    ||| key == "command"@
    ||| key == "run-from"@
    ||| key == "before"@
    ||| key == "after"@
}

/// The entries of a task table that no schema field claims, in order.
pub open spec fn spec_rest_of(
    fields: Seq<(String, TomlValue)>,
    acc: Seq<(Seq<char>, TomlValue)>,
) -> Seq<(Seq<char>, TomlValue)>
    decreases fields.len(),
{
    if fields.len() == 0 {
        acc
    } else if known_task_key(fields[0].0@) {
        spec_rest_of(fields.drop_first(), acc)
    } else {
        spec_rest_of(fields.drop_first(), acc.push((fields[0].0@, fields[0].1)))
    }
}

/// The `command` field: a string, defaulting to the empty command.
pub open spec fn spec_command_of(fields: Seq<(String, TomlValue)>, name: Seq<char>) -> Result<
    Seq<char>,
    ParseIssueV,
> {
    match toml_lookup_spec(fields, "command"@) {
        None => Ok(""@),
        Some(cv) => match cv {
            TomlValue::Text(s) => Ok(s@),
            _ => Err(ParseIssueV::BadCommand(name)),
        },
    }
}

/// The `run-from` field: one of the three bare location names, or a
/// one-entry table carrying the explicit relative path; defaults to `Here`.
pub open spec fn spec_run_from_of(fields: Seq<(String, TomlValue)>, name: Seq<char>) -> Result<
    RunV,
    ParseIssueV,
> {
    match toml_lookup_spec(fields, "run-from"@) {
        None => Ok(RunV::Here),
        Some(rv) => match rv {
            TomlValue::Text(s) => if s@ == "here"@ {
                Ok(RunV::Here)
            } else if s@ == "workspace-root"@ {
                Ok(RunV::WorkspaceRoot)
            } else if s@ == "members"@ {
                Ok(RunV::Members)
            } else {
                Err(ParseIssueV::BadRunFrom(name))
            },
            TomlValue::Table(entries) => if entries@.len() == 1 && entries@[0].0@ == "path"@ {
                match entries@[0].1 {
                    TomlValue::Text(p) => Ok(RunV::Path(p@)),
                    _ => Err(ParseIssueV::BadRunFrom(name)),
                }
            } else {
                Err(ParseIssueV::BadRunFrom(name))
            },
            _ => Err(ParseIssueV::BadRunFrom(name)),
        },
    }
}

/// A `before` or `after` field: an array of task names, or absent.
pub open spec fn spec_hooks_of(
    fields: Seq<(String, TomlValue)>,
    key: Seq<char>,
    name: Seq<char>,
) -> Result<Option<Seq<Seq<char>>>, ParseIssueV> {
    match toml_lookup_spec(fields, key) {
        None => Ok(None),
        Some(hv) => match hv {
            TomlValue::Array(items) => match spec_strings_of(items@, Seq::empty()) {
                Some(names) => Ok(Some(names)),
                None => Err(ParseIssueV::BadHooks(name)),
            },
            _ => Err(ParseIssueV::BadHooks(name)),
        },
    }
}

/// The member filter: taken from whatever entries remain once the named
/// fields are claimed. No remaining entry means no filter; exactly one,
/// keyed `skip-members` or `only-members` with an array of strings, is that
/// filter; anything else — an unrecognized field, both filters at once, or a
/// filter that is not an array of strings — is rejected.
pub open spec fn spec_modifiers_of(fields: Seq<(String, TomlValue)>, name: Seq<char>) -> Result<
    Option<MemberModifiersV>,
    ParseIssueV,
> {
    let rest = spec_rest_of(fields, Seq::empty());
    if rest.len() == 0 {
        Ok(None)
    } else if rest.len() != 1 {
        Err(ParseIssueV::BadModifiers(name))
    } else {
        let key = rest[0].0;
        if key == "skip-members"@ || key == "only-members"@ {
            match rest[0].1 {
                TomlValue::Array(items) => match spec_strings_of(items@, Seq::empty()) {
                    Some(names) => if key == "skip-members"@ {
                        Ok(Some(MemberModifiersV::SkipMembers(names)))
                    } else {
                        Ok(Some(MemberModifiersV::OnlyMembers(names)))
                    },
                    None => Err(ParseIssueV::BadModifiers(name)),
                },
                _ => Err(ParseIssueV::BadModifiers(name)),
            }
        } else {
            Err(ParseIssueV::BadModifiers(name))
        }
    }
}

/// One task's table against the schema: fields in the order command,
/// run-from, before, after, then the member filter.
pub open spec fn spec_task(name: Seq<char>, fields: Seq<(String, TomlValue)>) -> Result<
    TaskV,
    ParseIssueV,
> {
    match spec_command_of(fields, name) {
        Err(e) => Err(e),
        Ok(command) => match spec_run_from_of(fields, name) {
            Err(e) => Err(e),
            Ok(run_from) => match spec_hooks_of(fields, "before"@, name) {
                Err(e) => Err(e),
                Ok(before) => match spec_hooks_of(fields, "after"@, name) {
                    Err(e) => Err(e),
                    Ok(after) => match spec_modifiers_of(fields, name) {
                        Err(e) => Err(e),
                        Ok(member_modifiers) => Ok(
                            TaskV { run_from, command, before, after, member_modifiers },
                        ),
                    },
                },
            },
        },
    }
}

/// Whether `name` is already bound in the accumulated task list.
pub open spec fn has_task_name(tasks: Seq<(Seq<char>, TaskV)>, name: Seq<char>) -> bool {
    exists|i: int| 0 <= i < tasks.len() && tasks[i].0 == name
}

/// The task table: each entry must be a table that passes the task schema,
/// under a name not seen before.
pub open spec fn spec_task_entries(
    entries: Seq<(String, TomlValue)>,
    acc: Seq<(Seq<char>, TaskV)>,
) -> Result<Seq<(Seq<char>, TaskV)>, ParseIssueV>
    decreases entries.len(),
{
    if entries.len() == 0 {
        Ok(acc)
    } else if has_task_name(acc, entries[0].0@) {
        Err(ParseIssueV::DuplicateTask(entries[0].0@))
    } else {
        match entries[0].1 {
            TomlValue::Table(fields) => match spec_task(entries[0].0@, fields@) {
                Ok(t) => spec_task_entries(entries.drop_first(), acc.push((entries[0].0@, t))),
                Err(e) => Err(e),
            },
            _ => Err(ParseIssueV::BadTaskList),
        }
    }
}

/// The `task` table of a document tree: absent means no tasks.
pub open spec fn spec_tasks_of(entries: Seq<(String, TomlValue)>) -> Result<
    Seq<(Seq<char>, TaskV)>,
    ParseIssueV,
> {
    match toml_lookup_spec(entries, "task"@) {
        None => Ok(Seq::empty()),
        Some(tv) => match tv {
            TomlValue::Table(tents) => spec_task_entries(tents@, Seq::empty()),
            _ => Err(ParseIssueV::BadTaskList),
        },
    }
}

/// A whole parsed tree against the document schema. Keys other than `env`
/// and `task` are tolerated and ignored.
pub open spec fn spec_validate(v: TomlValue) -> Result<DorsfileV, ParseIssueV> {
    match v {
        TomlValue::Table(entries) => match spec_env_of(entries@) {
            Err(e) => Err(e),
            Ok(env) => match spec_tasks_of(entries@) {
                Err(e) => Err(e),
                Ok(task) => Ok(DorsfileV { env, task }),
            },
        },
        _ => Err(ParseIssueV::NotATable),
    }
}

/// What parsing a text yields: the validated document of the parsed tree,
/// or the corresponding error.
pub open spec fn spec_parse_doc(s: Seq<char>) -> Result<DorsfileV, DorsErrorV> {
    match toml_document_of(s) {
        Err(d) => Err(DorsErrorV::CouldNotParseDorsfile(ParseIssueV::Syntax(d))),
        Ok(v) => match spec_validate(v) {
            Ok(doc) => Ok(doc),
            Err(issue) => Err(DorsErrorV::CouldNotParseDorsfile(issue)),
        },
    }
}

/// The spec-level shape of a parse or resolution outcome.
pub open spec fn doc_res_view(r: Result<Dorsfile, DorsError>) -> Result<DorsfileV, DorsErrorV> {
    match r {
        Ok(d) => Ok(d@),
        Err(e) => Err(e@),
    }
}

/// The first value bound to `key`, if any.
#[verifier::loop_isolation(false)]
fn toml_lookup<'a>(entries: &'a Vec<(String, TomlValue)>, key: &String) -> (r: Option<
    &'a TomlValue,
>)
    ensures
        match r {
            Some(v) => toml_lookup_spec(entries@, key@) == Some(*v),
            None => toml_lookup_spec(entries@, key@) is None,
        },
{
    let mut i: usize = 0;
    proof {
        assert(entries@.skip(0) =~= entries@);
    }
    while i < entries.len()
        invariant
            i <= entries@.len(),
            toml_lookup_spec(entries@.skip(i as int), key@) == toml_lookup_spec(entries@, key@),
        decreases entries@.len() - i,
    {
        proof {
            assert(entries@.skip(i as int).drop_first() =~= entries@.skip(i + 1));
        }
        if entries[i].0 == *key {
            return Some(&entries[i].1);
        }
        i += 1;
    }
    None
}

/// The strings of an all-string array, or `None` on any other element.
#[verifier::loop_isolation(false)]
fn strings_of(items: &Vec<TomlValue>) -> (r: Option<Vec<String>>)
    ensures
        match r {
            Some(v) => spec_strings_of(items@, Seq::empty()) == Some(v.deep_view()),
            None => spec_strings_of(items@, Seq::empty()) is None,
        },
{
    let mut acc: Vec<String> = Vec::new();
    let mut i: usize = 0;
    proof {
        assert(items@.skip(0) =~= items@);
        assert(acc.deep_view() =~= Seq::<Seq<char>>::empty());
    }
    while i < items.len()
        invariant
            i <= items@.len(),
            spec_strings_of(items@.skip(i as int), acc.deep_view()) == spec_strings_of(
                items@,
                Seq::empty(),
            ),
        decreases items@.len() - i,
    {
        proof {
            assert(items@.skip(i as int).drop_first() =~= items@.skip(i + 1));
        }
        match &items[i] {
            TomlValue::Text(s) => {
                let ghost pre = acc.deep_view();
                acc.push(s.clone());
                proof {
                    assert(acc.deep_view() =~= pre.push(s@));
                }
            },
            _ => {
                return None;
            },
        }
        i += 1;
    }
    Some(acc)
}

/// One environment layer, when every value is a string.
#[verifier::loop_isolation(false)]
fn env_table_of(entries: &Vec<(String, TomlValue)>) -> (r: Option<Vec<(String, String)>>)
    ensures
        match r {
            Some(v) => spec_env_table(entries@, Seq::empty()) == Some(v.deep_view()),
            None => spec_env_table(entries@, Seq::empty()) is None,
        },
{
    let mut acc: Vec<(String, String)> = Vec::new();
    let mut i: usize = 0;
    proof {
        assert(entries@.skip(0) =~= entries@);
        assert(acc.deep_view() =~= Seq::<(Seq<char>, Seq<char>)>::empty());
    }
    while i < entries.len()
        invariant
            i <= entries@.len(),
            spec_env_table(entries@.skip(i as int), acc.deep_view()) == spec_env_table(
                entries@,
                Seq::empty(),
            ),
        decreases entries@.len() - i,
    {
        proof {
            assert(entries@.skip(i as int).drop_first() =~= entries@.skip(i + 1));
        }
        match &entries[i].1 {
            TomlValue::Text(s) => {
                let ghost pre = acc.deep_view();
                acc.push((entries[i].0.clone(), s.clone()));
                proof {
                    assert(acc.deep_view() =~= pre.push((entries@[i as int].0@, s@)));
                }
            },
            _ => {
                return None;
            },
        }
        i += 1;
    }
    Some(acc)
}

/// The `env` layers of a document tree.
#[verifier::loop_isolation(false)]
fn env_of(entries: &Vec<(String, TomlValue)>) -> (r: Result<
    Vec<Vec<(String, String)>>,
    ParseIssue,
>)
    ensures
        match r {
            Ok(v) => spec_env_of(entries@) == Ok::<_, ParseIssueV>(v.deep_view()),
            Err(e) => spec_env_of(entries@) == Err::<Seq<Seq<(Seq<char>, Seq<char>)>>, _>(e@),
        },
{
    let key = String::from_str("env");
    match toml_lookup(entries, &key) {
        None => {
            let v: Vec<Vec<(String, String)>> = Vec::new();
            proof {
                assert(v.deep_view() =~= Seq::<Seq<(Seq<char>, Seq<char>)>>::empty());
            }
            Ok(v)
        },
        Some(ev) => match ev {
            TomlValue::Array(items) => {
                let mut acc: Vec<Vec<(String, String)>> = Vec::new();
                let mut i: usize = 0;
                proof {
                    assert(items@.skip(0) =~= items@);
                    assert(acc.deep_view() =~= Seq::<Seq<(Seq<char>, Seq<char>)>>::empty());
                }
                while i < items.len()
                    invariant
                        i <= items@.len(),
                        spec_env_tables(items@.skip(i as int), acc.deep_view())
                            == spec_env_tables(items@, Seq::empty()),
                    decreases items@.len() - i,
                {
                    proof {
                        assert(items@.skip(i as int).drop_first() =~= items@.skip(i + 1));
                    }
                    match &items[i] {
                        TomlValue::Table(tents) => match env_table_of(tents) {
                            Some(layer) => {
                                let ghost pre = acc.deep_view();
                                let ghost layer_v = layer.deep_view();
                                acc.push(layer);
                                proof {
                                    assert(acc.deep_view() =~= pre.push(layer_v));
                                }
                            },
                            None => {
                                return Err(ParseIssue::BadEnv);
                            },
                        },
                        _ => {
                            return Err(ParseIssue::BadEnv);
                        },
                    }
                    i += 1;
                }
                proof {
                    assert(items@.skip(items@.len() as int) =~= Seq::<TomlValue>::empty());
                }
                Ok(acc)
            },
            _ => Err(ParseIssue::BadEnv),
        },
    }
}

/// The remaining entries selected by a list of indices.
pub open spec fn rest_view(fields: Seq<(String, TomlValue)>, idxs: Seq<usize>) -> Seq<
    (Seq<char>, TomlValue),
> {
    Seq::new(idxs.len() as nat, |k: int| (fields[idxs[k] as int].0@, fields[idxs[k] as int].1))
}

/// The indices of the entries that no schema field claims, in order.
#[verifier::loop_isolation(false)]
fn rest_of(fields: &Vec<(String, TomlValue)>) -> (r: Vec<usize>)
    ensures
        forall|k: int| 0 <= k < r@.len() ==> r@[k] < fields@.len(),
        rest_view(fields@, r@) == spec_rest_of(fields@, Seq::empty()),
{
    let ck = String::from_str("command");
    let rk = String::from_str("run-from");
    let bk = String::from_str("before");
    let ak = String::from_str("after");
    let mut idxs: Vec<usize> = Vec::new();
    let mut i: usize = 0;
    proof {
        assert(fields@.skip(0) =~= fields@);
        assert(rest_view(fields@, idxs@) =~= Seq::<(Seq<char>, TomlValue)>::empty());
    }
    while i < fields.len()
        invariant
            i <= fields@.len(),
            forall|k: int| 0 <= k < idxs@.len() ==> idxs@[k] < i,
            spec_rest_of(fields@.skip(i as int), rest_view(fields@, idxs@)) == spec_rest_of(
                fields@,
                Seq::empty(),
            ),
        decreases fields@.len() - i,
    {
        proof {
            assert(fields@.skip(i as int).drop_first() =~= fields@.skip(i + 1));
        }
        let known = fields[i].0 == ck || fields[i].0 == rk || fields[i].0 == bk || fields[i].0
            == ak;
        if !known {
            let ghost pre = idxs@;
            idxs.push(i);
            proof {
                assert(rest_view(fields@, idxs@) =~= rest_view(fields@, pre).push(
                    (fields@[i as int].0@, fields@[i as int].1),
                ));
            }
        }
        i += 1;
    }
    proof {
        assert(fields@.skip(fields@.len() as int) =~= Seq::<(String, TomlValue)>::empty());
    }
    idxs
}

/// The `command` field of one task.
fn command_of(name: &String, fields: &Vec<(String, TomlValue)>) -> (r: Result<String, ParseIssue>)
    ensures
        match r {
            Ok(c) => spec_command_of(fields@, name@) == Ok::<_, ParseIssueV>(c@),
            Err(e) => spec_command_of(fields@, name@) == Err::<Seq<char>, _>(e@),
        },
{
    let key = String::from_str("command");
    match toml_lookup(fields, &key) {
        None => {
            let c = String::new();
            proof {
                reveal_strlit("");
                assert(c@ =~= ""@);
            }
            Ok(c)
        },
        Some(cv) => match cv {
            TomlValue::Text(t) => Ok(t.clone()),
            _ => Err(ParseIssue::BadCommand(name.clone())),
        },
    }
}

/// The `run-from` field of one task.
fn run_from_of(name: &String, fields: &Vec<(String, TomlValue)>) -> (r: Result<Run, ParseIssue>)
    ensures
        match r {
            Ok(rf) => spec_run_from_of(fields@, name@) == Ok::<_, ParseIssueV>(rf@),
            Err(e) => spec_run_from_of(fields@, name@) == Err::<RunV, _>(e@),
        },
{
    let key = String::from_str("run-from");
    match toml_lookup(fields, &key) {
        None => Ok(Run::Here),
        Some(rv) => match rv {
            TomlValue::Text(t) => {
                if *t == String::from_str("here") {
                    Ok(Run::Here)
                } else if *t == String::from_str("workspace-root") {
                    Ok(Run::WorkspaceRoot)
                } else if *t == String::from_str("members") {
                    Ok(Run::Members)
                } else {
                    Err(ParseIssue::BadRunFrom(name.clone()))
                }
            },
            TomlValue::Table(entries) => {
                if entries.len() == 1 && entries[0].0 == String::from_str("path") {
                    match &entries[0].1 {
                        TomlValue::Text(p) => Ok(Run::Path(p.clone())),
                        _ => Err(ParseIssue::BadRunFrom(name.clone())),
                    }
                } else {
                    Err(ParseIssue::BadRunFrom(name.clone()))
                }
            },
            _ => Err(ParseIssue::BadRunFrom(name.clone())),
        },
    }
}

/// A `before` or `after` field of one task.
fn hooks_of(name: &String, key: &String, fields: &Vec<(String, TomlValue)>) -> (r: Result<
    Option<Vec<String>>,
    ParseIssue,
>)
    ensures
        match r {
            Ok(h) => spec_hooks_of(fields@, key@, name@) == Ok::<_, ParseIssueV>(h.deep_view()),
            Err(e) => spec_hooks_of(fields@, key@, name@) == Err::<Option<Seq<Seq<char>>>, _>(e@),
        },
{
    match toml_lookup(fields, key) {
        None => Ok(None),
        Some(hv) => match hv {
            TomlValue::Array(items) => match strings_of(items) {
                Some(names) => Ok(Some(names)),
                None => Err(ParseIssue::BadHooks(name.clone())),
            },
            _ => Err(ParseIssue::BadHooks(name.clone())),
        },
    }
}

/// The member filter of one task, taken from its unclaimed entries.
fn modifiers_of(name: &String, fields: &Vec<(String, TomlValue)>) -> (r: Result<
    Option<MemberModifiers>,
    ParseIssue,
>)
    ensures
        match r {
            Ok(m) => spec_modifiers_of(fields@, name@) == Ok::<_, ParseIssueV>(m.deep_view()),
            Err(e) => spec_modifiers_of(fields@, name@) == Err::<Option<MemberModifiersV>, _>(e@),
        },
{
    let idxs = rest_of(fields);
    let ghost rest = spec_rest_of(fields@, Seq::empty());
    proof {
        assert(rest.len() == idxs@.len());
    }
    if idxs.len() == 0 {
        Ok(None)
    } else if idxs.len() > 1 {
        Err(ParseIssue::BadModifiers(name.clone()))
    } else {
        let k = idxs[0];
        proof {
            assert(rest[0] == (fields@[k as int].0@, fields@[k as int].1));
        }
        let is_skip = fields[k].0 == String::from_str("skip-members");
        let is_only = fields[k].0 == String::from_str("only-members");
        if is_skip || is_only {
            match &fields[k].1 {
                TomlValue::Array(items) => match strings_of(items) {
                    Some(names) => if is_skip {
                        Ok(Some(MemberModifiers::SkipMembers(names)))
                    } else {
                        Ok(Some(MemberModifiers::OnlyMembers(names)))
                    },
                    None => Err(ParseIssue::BadModifiers(name.clone())),
                },
                _ => Err(ParseIssue::BadModifiers(name.clone())),
            }
        } else {
            Err(ParseIssue::BadModifiers(name.clone()))
        }
    }
}

/// One task's table against the schema.
fn task_of(name: &String, fields: &Vec<(String, TomlValue)>) -> (r: Result<Task, ParseIssue>)
    ensures
        match r {
            Ok(t) => spec_task(name@, fields@) == Ok::<_, ParseIssueV>(t@),
            Err(e) => spec_task(name@, fields@) == Err::<TaskV, _>(e@),
        },
{
    let command = match command_of(name, fields) {
        Ok(c) => c,
        Err(e) => {
            return Err(e);
        },
    };
    let run_from = match run_from_of(name, fields) {
        Ok(x) => x,
        Err(e) => {
            return Err(e);
        },
    };
    let bk = String::from_str("before");
    let before = match hooks_of(name, &bk, fields) {
        Ok(x) => x,
        Err(e) => {
            return Err(e);
        },
    };
    let ak = String::from_str("after");
    let after = match hooks_of(name, &ak, fields) {
        Ok(x) => x,
        Err(e) => {
            return Err(e);
        },
    };
    let member_modifiers = match modifiers_of(name, fields) {
        Ok(x) => x,
        Err(e) => {
            return Err(e);
        },
    };
    Ok(Task { run_from, command, before, after, member_modifiers })
}

/// Whether the accumulated task list already binds `name`.
#[verifier::loop_isolation(false)]
pub(crate) fn contains_task(tasks: &Vec<(String, Task)>, name: &String) -> (r: bool)
    ensures
        r == has_task_name(tasks.deep_view(), name@),
{
    let mut i: usize = 0;
    while i < tasks.len()
        invariant
            i <= tasks@.len(),
            forall|j: int| 0 <= j < i ==> tasks.deep_view()[j].0 != name@,
        decreases tasks@.len() - i,
    {
        if tasks[i].0 == *name {
            proof {
                assert(tasks.deep_view()[i as int].0 == name@);
            }
            return true;
        }
        i += 1;
    }
    false
}

/// The `task` table of a document tree.
#[verifier::loop_isolation(false)]
fn tasks_of(entries: &Vec<(String, TomlValue)>) -> (r: Result<Vec<(String, Task)>, ParseIssue>)
    ensures
        match r {
            Ok(v) => spec_tasks_of(entries@) == Ok::<_, ParseIssueV>(v.deep_view()),
            Err(e) => spec_tasks_of(entries@) == Err::<Seq<(Seq<char>, TaskV)>, _>(e@),
        },
{
    let key = String::from_str("task");
    match toml_lookup(entries, &key) {
        None => {
            let v: Vec<(String, Task)> = Vec::new();
            proof {
                assert(v.deep_view() =~= Seq::<(Seq<char>, TaskV)>::empty());
            }
            Ok(v)
        },
        Some(tv) => match tv {
            TomlValue::Table(tents) => {
                let mut acc: Vec<(String, Task)> = Vec::new();
                let mut i: usize = 0;
                proof {
                    assert(tents@.skip(0) =~= tents@);
                    assert(acc.deep_view() =~= Seq::<(Seq<char>, TaskV)>::empty());
                }
                while i < tents.len()
                    invariant
                        i <= tents@.len(),
                        spec_task_entries(tents@.skip(i as int), acc.deep_view())
                            == spec_task_entries(tents@, Seq::empty()),
                    decreases tents@.len() - i,
                {
                    proof {
                        assert(tents@.skip(i as int).drop_first() =~= tents@.skip(i + 1));
                    }
                    let tname = &tents[i].0;
                    if contains_task(&acc, tname) {
                        return Err(ParseIssue::DuplicateTask(tname.clone()));
                    }
                    match &tents[i].1 {
                        TomlValue::Table(fields) => match task_of(tname, fields) {
                            Ok(t) => {
                                let ghost pre = acc.deep_view();
                                let ghost t_spec = t@;
                                let entry_name = tname.clone();
                                acc.push((entry_name, t));
                                proof {
                                    assert(acc.deep_view() =~= pre.push(
                                        (tents@[i as int].0@, t_spec),
                                    ));
                                }
                            },
                            Err(e) => {
                                return Err(e);
                            },
                        },
                        _ => {
                            return Err(ParseIssue::BadTaskList);
                        },
                    }
                    i += 1;
                }
                proof {
                    assert(tents@.skip(tents@.len() as int) =~= Seq::<(String, TomlValue)>::empty());
                }
                Ok(acc)
            },
            _ => Err(ParseIssue::BadTaskList),
        },
    }
}

impl Dorsfile {
    /// A parsed tree against the document schema: `env` and `task` are
    /// checked and taken, other top-level keys are ignored.
    pub fn from_toml(v: &TomlValue) -> (r: Result<Dorsfile, ParseIssue>)
        ensures
            match r {
                Ok(d) => spec_validate(*v) == Ok::<_, ParseIssueV>(d@),
                Err(e) => spec_validate(*v) == Err::<DorsfileV, _>(e@),
            },
    {
        match v {
            TomlValue::Table(entries) => {
                let env = match env_of(entries) {
                    Ok(x) => x,
                    Err(e) => {
                        return Err(e);
                    },
                };
                let task = match tasks_of(entries) {
                    Ok(x) => x,
                    Err(e) => {
                        return Err(e);
                    },
                };
                Ok(Dorsfile { env, task })
            },
            _ => Err(ParseIssue::NotATable),
        }
    }

    /// A configuration text to a document: parse, then check the schema.
    /// Both failures surface as `CouldNotParseDorsfile`, never silently.
    pub fn parse(s: &str) -> (r: Result<Dorsfile, DorsError>)
        ensures
            doc_res_view(r) == spec_parse_doc(s@),
    {
        match parse_toml_text(s) {
            Ok(v) => match Self::from_toml(&v) {
                Ok(d) => Ok(d),
                Err(issue) => Err(DorsError::CouldNotParseDorsfile(issue)),
            },
            Err(d) => Err(DorsError::CouldNotParseDorsfile(ParseIssue::Syntax(d))),
        }
    }
}

/// A validated task table binds each name once.
pub proof fn lemma_task_entries_unique(
    entries: Seq<(String, TomlValue)>,
    acc: Seq<(Seq<char>, TaskV)>,
)
    requires
        task_names_unique(acc),
        spec_task_entries(entries, acc) is Ok,
    ensures
        task_names_unique(spec_task_entries(entries, acc)->Ok_0),
    decreases entries.len(),
{
    if entries.len() == 0 {
    } else {
        let name = entries[0].0@;
        if !has_task_name(acc, name) {
            match entries[0].1 {
                TomlValue::Table(fields) => match spec_task(name, fields@) {
                    Ok(t) => {
                        assert(task_names_unique(acc.push((name, t))));
                        lemma_task_entries_unique(entries.drop_first(), acc.push((name, t)));
                    },
                    Err(_) => {},
                },
                _ => {},
            }
        }
    }
}

/// A document that passed the schema has a task table with unique names.
pub proof fn lemma_validate_wf(v: TomlValue)
    requires
        spec_validate(v) is Ok,
    ensures
        (spec_validate(v)->Ok_0).wf(),
{
    match v {
        TomlValue::Table(entries) => {
            match toml_lookup_spec(entries@, "task"@) {
                None => {
                    assert(task_names_unique(Seq::<(Seq<char>, TaskV)>::empty()));
                },
                Some(tv) => match tv {
                    TomlValue::Table(tents) => {
                        assert(task_names_unique(Seq::<(Seq<char>, TaskV)>::empty()));
                        lemma_task_entries_unique(tents@, Seq::empty());
                    },
                    _ => {},
                },
            }
        },
        _ => {},
    }
}

/// A text that parses yields a well-formed document.
pub proof fn lemma_parse_doc_wf(s: Seq<char>)
    requires
        spec_parse_doc(s) is Ok,
    ensures
        (spec_parse_doc(s)->Ok_0).wf(),
{
    match toml_document_of(s) {
        Ok(v) => {
            lemma_validate_wf(v);
        },
        Err(_) => {},
    }
}

} // verus!
