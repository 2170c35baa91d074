//! Workspace-friendly task runner core: configuration documents, their
//! resolution and merging per location, and a task-execution engine with
//! pre/post hooks and per-member fan-out.
//!
//! The crate holds the decision logic only. Reading files, discovering the
//! workspace layout and spawning shell processes are collaborators that hand
//! the library plain values and receive plain values back.

pub mod dorsfile;
pub mod engine;
pub mod error;
pub mod take_while;
pub mod toml_text;

pub use dorsfile::{Dorsfile, MemberModifiers, Run, Task};
pub use engine::{
    all_tasks, build_script, run_with_statuses, temp_script_name, ConfigFiles, DispatchReq,
    RunStep, Workspace,
};
pub use error::{DorsError, ParseIssue};

use vstd::prelude::*;
use crate::dorsfile::{
    doc_res_view, find_task, has_task_name, lemma_parse_doc_wf, spec_parse_doc,
    task_names_unique, DorsfileV, RunV, TaskV,
};
use crate::error::DorsErrorV;

verus! {

/// The name of the synthetic environment entry that carries the workspace
/// root path into every effective document.
pub open spec fn builtin_env_key() -> Seq<char> {
    "CARGO_WORKSPACE_ROOT"@
}

/// A root-defined task as a member inherits it: its hooks are cleared and a
/// fan-out location is demoted to `Here`, so that before/after/fan-out
/// behaviour fires only where the task was defined, never again when the
/// same task is resolved from inside a member.
pub open spec fn spec_strip(t: TaskV) -> TaskV {
    TaskV {
        run_from: if t.run_from is Members {
            RunV::Here
        } else {
            t.run_from
        },
        command: t.command,
        before: None,
        after: None,
        member_modifiers: t.member_modifiers,
    }
}

/// The root-inherited part of a merged task table: the root's tasks in
/// order, stripped, leaving out any name the local document binds itself.
pub open spec fn spec_strip_merge_tasks(
    root_ts: Seq<(Seq<char>, TaskV)>,
    local_ts: Seq<(Seq<char>, TaskV)>,
    acc: Seq<(Seq<char>, TaskV)>,
) -> Seq<(Seq<char>, TaskV)>
    decreases root_ts.len(),
{
    if root_ts.len() == 0 {
        acc
    } else if has_task_name(local_ts, root_ts[0].0) {
        spec_strip_merge_tasks(root_ts.drop_first(), local_ts, acc)
    } else {
        spec_strip_merge_tasks(
            root_ts.drop_first(),
            local_ts,
            acc.push((root_ts[0].0, spec_strip(root_ts[0].1))),
        )
    }
}

/// A document with nothing in it.
pub open spec fn spec_empty_doc() -> DorsfileV {
    DorsfileV { env: Seq::empty(), task: Seq::empty() }
}

/// A location's own document over the root's: local tasks override root
/// tasks wholesale per name, inherited root tasks are stripped, and the
/// local environment layers follow the root's, so they win on collision.
pub open spec fn spec_merge(root: DorsfileV, local: DorsfileV) -> DorsfileV {
    DorsfileV {
        env: root.env + local.env,
        task: spec_strip_merge_tasks(root.task, local.task, Seq::empty()) + local.task,
    }
}

/// The root document as a member without its own document inherits it:
/// merged over nothing.
pub open spec fn spec_strip_doc(d: DorsfileV) -> DorsfileV {
    spec_merge(d, spec_empty_doc())
}

/// The synthetic workspace-root entry, prepended as the lowest-priority
/// environment layer.
pub open spec fn spec_with_builtin(d: DorsfileV, root: Seq<char>) -> DorsfileV {
    DorsfileV { env: seq![seq![(builtin_env_key(), root)]] + d.env, task: d.task }
}

/// What loading the root document yields: nothing when the file is absent
/// (not an error yet), the parsed document, or its parse error.
pub open spec fn spec_new_getter(root_text: Option<Seq<char>>) -> Result<
    Option<DorsfileV>,
    DorsErrorV,
> {
    match root_text {
        None => Ok(None),
        Some(t) => match spec_parse_doc(t) {
            Ok(d) => Ok(Some(d)),
            Err(e) => Err(e),
        },
    }
}

/// The effective document for a queried location.
///
/// The root itself gets the root document; elsewhere the location's own
/// document is merged over the root's (or used alone, or the root's is
/// inherited stripped), and in every successful case the synthetic
/// workspace-root entry becomes the first environment layer.
pub open spec fn spec_get(
    root: Seq<char>,
    root_doc: Option<DorsfileV>,
    query: Seq<char>,
    local_text: Option<Seq<char>>,
) -> Result<DorsfileV, DorsErrorV> {
    if query == root {
        match root_doc {
            Some(d) => Ok(spec_with_builtin(d, root)),
            None => Err(DorsErrorV::NoDorsfile),
        }
    } else {
        match local_text {
            Some(t) => match spec_parse_doc(t) {
                Ok(local) => match root_doc {
                    Some(rd) => Ok(spec_with_builtin(spec_merge(rd, local), root)),
                    None => Ok(spec_with_builtin(local, root)),
                },
                Err(e) => Err(e),
            },
            None => match root_doc {
                Some(rd) => Ok(spec_with_builtin(spec_strip_doc(rd), root)),
                None => Err(DorsErrorV::NoMemberDorsfile),
            },
        }
    }
}

/// Copies one environment layer.
#[verifier::loop_isolation(false)]
fn env_layer_copy(layer: &Vec<(String, String)>) -> (r: Vec<(String, String)>)
    ensures
        r@ == layer@,
{
    let mut out: Vec<(String, String)> = Vec::new();
    let mut i: usize = 0;
    while i < layer.len()
        invariant
            i <= layer@.len(),
            out@ =~= layer@.take(i as int),
        decreases layer@.len() - i,
    {
        out.push((layer[i].0.clone(), layer[i].1.clone()));
        i += 1;
    }
    proof {
        assert(out@ =~= layer@);
    }
    out
}

/// Copies a stack of environment layers.
#[verifier::loop_isolation(false)]
pub(crate) fn env_copy(env: &Vec<Vec<(String, String)>>) -> (r: Vec<Vec<(String, String)>>)
    ensures
        r.deep_view() == env.deep_view(),
{
    let mut out: Vec<Vec<(String, String)>> = Vec::new();
    let mut i: usize = 0;
    while i < env.len()
        invariant
            i <= env@.len(),
            out.deep_view() =~= env.deep_view().take(i as int),
        decreases env@.len() - i,
    {
        let ghost pre = out.deep_view();
        let layer = env_layer_copy(&env[i]);
        let ghost layer_view = layer.deep_view();
        out.push(layer);
        proof {
            assert(out.deep_view() =~= pre.push(layer_view));
            assert(layer_view =~= env.deep_view()[i as int]);
            assert(out.deep_view() =~= env.deep_view().take(i + 1));
        }
        i += 1;
    }
    proof {
        assert(out.deep_view() =~= env.deep_view());
    }
    out
}

/// Copies an optional hook list.
fn hooks_copy(h: &Option<Vec<String>>) -> (r: Option<Vec<String>>)
    ensures
        r.deep_view() == h.deep_view(),
{
    match h {
        None => None,
        Some(v) => {
            let c = v.clone();
            proof {
                assert(c@ =~= v@);
                assert(c.deep_view() =~= v.deep_view());
            }
            Some(c)
        },
    }
}

/// Copies an optional member filter.
fn mods_copy(m: &Option<MemberModifiers>) -> (r: Option<MemberModifiers>)
    ensures
        r.deep_view() == m.deep_view(),
{
    match m {
        None => None,
        Some(MemberModifiers::SkipMembers(v)) => {
            let c = v.clone();
            proof {
                assert(c@ =~= v@);
                assert(c.deep_view() =~= v.deep_view());
            }
            Some(MemberModifiers::SkipMembers(c))
        },
        Some(MemberModifiers::OnlyMembers(v)) => {
            let c = v.clone();
            proof {
                assert(c@ =~= v@);
                assert(c.deep_view() =~= v.deep_view());
            }
            Some(MemberModifiers::OnlyMembers(c))
        },
    }
}

/// Copies a location.
fn run_copy(r0: &Run) -> (r: Run)
    ensures
        r@ == r0@,
{
    match r0 {
        Run::Here => Run::Here,
        Run::Path(p) => Run::Path(p.clone()),
        Run::WorkspaceRoot => Run::WorkspaceRoot,
        Run::Members => Run::Members,
    }
}

/// Copies a task.
fn task_copy(t: &Task) -> (r: Task)
    ensures
        r@ == t@,
{
    Task {
        run_from: run_copy(&t.run_from),
        command: t.command.clone(),
        before: hooks_copy(&t.before),
        after: hooks_copy(&t.after),
        member_modifiers: mods_copy(&t.member_modifiers),
    }
}

/// A task as a member inherits it: hooks cleared, fan-out demoted.
fn strip_task(t: &Task) -> (r: Task)
    ensures
        r@ == spec_strip(t@),
{
    let run_from = match &t.run_from {
        Run::Members => Run::Here,
        other => run_copy(other),
    };
    Task {
        run_from,
        command: t.command.clone(),
        before: None,
        after: None,
        member_modifiers: mods_copy(&t.member_modifiers),
    }
}

/// Copies a whole document.
#[verifier::loop_isolation(false)]
fn doc_copy(d: &Dorsfile) -> (r: Dorsfile)
    ensures
        r@ == d@,
{
    let env = env_copy(&d.env);
    let mut task: Vec<(String, Task)> = Vec::new();
    let mut i: usize = 0;
    while i < d.task.len()
        invariant
            i <= d.task@.len(),
            task.deep_view() =~= d.task.deep_view().take(i as int),
        decreases d.task@.len() - i,
    {
        let ghost pre = task.deep_view();
        let t = task_copy(&d.task[i].1);
        let ghost t_view = t@;
        task.push((d.task[i].0.clone(), t));
        proof {
            assert(task.deep_view() =~= pre.push((d.task@[i as int].0@, t_view)));
            assert(task.deep_view() =~= d.task.deep_view().take(i + 1));
        }
        i += 1;
    }
    proof {
        assert(task.deep_view() =~= d.task.deep_view());
    }
    let r = Dorsfile { env, task };
    proof {
        assert(r@.env == d@.env);
        assert(r@.task == d@.task);
    }
    r
}

/// Merges a location's own document over the root's.
#[verifier::loop_isolation(false)]
fn merge_docs(root: &Dorsfile, local: Dorsfile) -> (r: Dorsfile)
    ensures
        r@ == spec_merge(root@, local@),
{
    let mut env = env_copy(&root.env);
    let mut local_env = local.env;
    let ghost local_env_view = local_env.deep_view();
    env.append(&mut local_env);
    proof {
        assert(env.deep_view() =~= root@.env + local_env_view);
    }

    let mut task: Vec<(String, Task)> = Vec::new();
    let mut i: usize = 0;
    proof {
        assert(root.task.deep_view().skip(0) =~= root.task.deep_view());
        assert(task.deep_view() =~= Seq::<(Seq<char>, TaskV)>::empty());
    }
    while i < root.task.len()
        invariant
            i <= root.task@.len(),
            spec_strip_merge_tasks(
                root.task.deep_view().skip(i as int),
                local.task.deep_view(),
                task.deep_view(),
            ) == spec_strip_merge_tasks(
                root.task.deep_view(),
                local.task.deep_view(),
                Seq::empty(),
            ),
        decreases root.task@.len() - i,
    {
        proof {
            assert(root.task.deep_view().skip(i as int).drop_first() =~= root.task.deep_view().skip(
                i + 1,
            ));
        }
        let name = &root.task[i].0;
        if !crate::dorsfile::contains_task(&local.task, name) {
            let ghost pre = task.deep_view();
            let t = strip_task(&root.task[i].1);
            let ghost t_view = t@;
            task.push((name.clone(), t));
            proof {
                assert(task.deep_view() =~= pre.push((root.task@[i as int].0@, t_view)));
            }
        }
        i += 1;
    }
    proof {
        assert(root.task.deep_view().skip(root.task@.len() as int) =~= Seq::<
            (Seq<char>, TaskV),
        >::empty());
    }
    let mut local_task = local.task;
    let ghost local_task_view = local_task.deep_view();
    let ghost merged_root_part = task.deep_view();
    task.append(&mut local_task);
    proof {
        assert(task.deep_view() =~= merged_root_part + local_task_view);
    }
    let r = Dorsfile { env, task };
    proof {
        assert(r@.env == spec_merge(root@, local@).env);
        assert(r@.task == spec_merge(root@, local@).task);
    }
    r
}

/// Prepends the synthetic workspace-root environment layer.
fn with_builtin(d: Dorsfile, root: &String) -> (r: Dorsfile)
    ensures
        r@ == spec_with_builtin(d@, root@),
{
    let mut layer: Vec<(String, String)> = Vec::new();
    layer.push((String::from_str("CARGO_WORKSPACE_ROOT"), root.clone()));
    let mut env: Vec<Vec<(String, String)>> = Vec::new();
    let ghost layer_view = layer.deep_view();
    env.push(layer);
    let mut old_env = d.env;
    let ghost old_env_view = old_env.deep_view();
    env.append(&mut old_env);
    proof {
        assert(layer_view =~= seq![(builtin_env_key(), root@)]);
        assert(env.deep_view() =~= seq![layer_view] + old_env_view);
        assert(env.deep_view() =~= seq![seq![(builtin_env_key(), root@)]] + old_env_view);
    }
    let r = Dorsfile { env, task: d.task };
    proof {
        assert(r@.env == spec_with_builtin(d@, root@).env);
        assert(r@.task == spec_with_builtin(d@, root@).task);
    }
    r
}

/// Resolves effective documents for one workspace: holds the root path and
/// the root document, parsed once, and merges any queried location's own
/// document over it.
#[derive(Debug)]
pub struct DorsfileGetter {
    pub workspace_root: String,
    pub workspace_dorsfile: Option<Dorsfile>,
}

impl DorsfileGetter {
    /// The root document this resolver works over, if the workspace has one.
    pub open spec fn root_doc_view(self) -> Option<DorsfileV> {
        match self.workspace_dorsfile {
            Some(d) => Some(d@),
            None => None,
        }
    }

    /// The resolver invariant: a held root document is well-formed.
    pub open spec fn wf(self) -> bool {
        match self.workspace_dorsfile {
            Some(d) => d@.wf(),
            None => true,
        }
    }

    /// Builds the resolver for a workspace root. `root_text` is the content
    /// of the root's configuration file, or `None` when that file does not
    /// exist — which is not an error yet: it only becomes one if the root
    /// document is also needed later.
    pub fn new(workspace_root: &String, root_text: Option<&String>) -> (r: Result<
        DorsfileGetter,
        DorsError,
    >)
        ensures
            match r {
                Ok(g) => {
                    &&& g.workspace_root@ == workspace_root@
                    &&& g.wf()
                    &&& spec_new_getter(root_text.deep_view()) == Ok::<_, DorsErrorV>(
                        g.root_doc_view(),
                    )
                },
                Err(e) => spec_new_getter(root_text.deep_view()) == Err::<Option<DorsfileV>, _>(
                    e@,
                ),
            },
    {
        match root_text {
            None => Ok(
                DorsfileGetter {
                    workspace_root: workspace_root.clone(),
                    workspace_dorsfile: None,
                },
            ),
            Some(t) => match Dorsfile::parse(t.as_str()) {
                Ok(d) => {
                    proof {
                        lemma_parse_doc_wf(t@);
                    }
                    Ok(
                        DorsfileGetter {
                            workspace_root: workspace_root.clone(),
                            workspace_dorsfile: Some(d),
                        },
                    )
                },
                Err(e) => Err(e),
            },
        }
    }

    /// The effective document for `crate_path`. `local_text` is the content
    /// of that location's own configuration file, or `None` when it has
    /// none. Paths are compared verbatim: the caller canonicalizes both the
    /// query and the root before handing them in.
    pub fn get(&self, crate_path: &String, local_text: Option<&String>) -> (r: Result<
        Dorsfile,
        DorsError,
    >)
        requires
            self.wf(),
        ensures
            doc_res_view(r) == spec_get(
                self.workspace_root@,
                self.root_doc_view(),
                crate_path@,
                local_text.deep_view(),
            ),
    {
        if *crate_path == self.workspace_root {
            return match &self.workspace_dorsfile {
                Some(d) => Ok(with_builtin(doc_copy(d), &self.workspace_root)),
                None => Err(DorsError::NoDorsfile),
            };
        }
        let merged: Dorsfile = match local_text {
            Some(t) => {
                let local = match Dorsfile::parse(t.as_str()) {
                    Ok(d) => d,
                    Err(e) => {
                        return Err(e);
                    },
                };
                match &self.workspace_dorsfile {
                    Some(rd) => merge_docs(rd, local),
                    None => local,
                }
            },
            None => match &self.workspace_dorsfile {
                Some(rd) => {
                    let empty = Dorsfile { env: Vec::new(), task: Vec::new() };
                    proof {
                        assert(empty@.env =~= spec_empty_doc().env);
                        assert(empty@.task =~= spec_empty_doc().task);
                        assert(empty@ == spec_empty_doc());
                    }
                    merge_docs(rd, empty)
                },
                None => {
                    return Err(DorsError::NoMemberDorsfile);
                },
            },
        };
        Ok(with_builtin(merged, &self.workspace_root))
    }
}

/// A name is bound in a table exactly when lookup finds it.
pub proof fn lemma_find_some_iff_has(ts: Seq<(Seq<char>, TaskV)>, name: Seq<char>)
    ensures
        find_task(ts, name) is Some <==> has_task_name(ts, name),
    decreases ts.len(),
{
    if ts.len() == 0 {
        assert(!has_task_name(ts, name));
    } else if ts[0].0 == name {
        assert(has_task_name(ts, name));
    } else {
        lemma_find_some_iff_has(ts.drop_first(), name);
        if has_task_name(ts, name) {
            let i = choose|i: int| 0 <= i < ts.len() && ts[i].0 == name;
            assert(ts.drop_first()[i - 1].0 == name);
            assert(has_task_name(ts.drop_first(), name));
        }
        if has_task_name(ts.drop_first(), name) {
            let i = choose|i: int|
                0 <= i < ts.drop_first().len() && ts.drop_first()[i].0 == name;
            assert(ts[i + 1].0 == name);
        }
    }
}

/// Lookup over a concatenation tries the first part, then the second.
pub proof fn lemma_find_concat(
    a: Seq<(Seq<char>, TaskV)>,
    b: Seq<(Seq<char>, TaskV)>,
    name: Seq<char>,
)
    ensures
        find_task(a + b, name) == match find_task(a, name) {
            Some(t) => Some(t),
            None => find_task(b, name),
        },
    decreases a.len(),
{
    if a.len() == 0 {
        assert(a + b =~= b);
    } else {
        assert((a + b)[0] == a[0]);
        assert((a + b).drop_first() =~= a.drop_first() + b);
        lemma_find_concat(a.drop_first(), b, name);
    }
}

/// The accumulator of the strip-merge distributes out front.
pub proof fn lemma_strip_merge_acc(
    rts: Seq<(Seq<char>, TaskV)>,
    lts: Seq<(Seq<char>, TaskV)>,
    acc: Seq<(Seq<char>, TaskV)>,
)
    ensures
        spec_strip_merge_tasks(rts, lts, acc) == acc + spec_strip_merge_tasks(
            rts,
            lts,
            Seq::empty(),
        ),
    decreases rts.len(),
{
    if rts.len() == 0 {
        assert(acc + Seq::<(Seq<char>, TaskV)>::empty() =~= acc);
    } else if has_task_name(lts, rts[0].0) {
        lemma_strip_merge_acc(rts.drop_first(), lts, acc);
    } else {
        let x = (rts[0].0, spec_strip(rts[0].1));
        lemma_strip_merge_acc(rts.drop_first(), lts, acc.push(x));
        lemma_strip_merge_acc(rts.drop_first(), lts, Seq::empty().push(x));
        assert(Seq::<(Seq<char>, TaskV)>::empty().push(x) =~= seq![x]);
        assert(acc.push(x) + spec_strip_merge_tasks(rts.drop_first(), lts, Seq::empty()) =~= acc
            + (seq![x] + spec_strip_merge_tasks(rts.drop_first(), lts, Seq::empty())));
    }
}

/// A name bound nowhere in the root part stays unbound after stripping.
pub proof fn lemma_strip_merge_absent(
    rts: Seq<(Seq<char>, TaskV)>,
    lts: Seq<(Seq<char>, TaskV)>,
    name: Seq<char>,
)
    requires
        !has_task_name(rts, name),
    ensures
        !has_task_name(spec_strip_merge_tasks(rts, lts, Seq::empty()), name),
    decreases rts.len(),
{
    if rts.len() == 0 {
        assert(!has_task_name(Seq::<(Seq<char>, TaskV)>::empty(), name));
    } else {
        if has_task_name(rts.drop_first(), name) {
            let i = choose|i: int|
                0 <= i < rts.drop_first().len() && rts.drop_first()[i].0 == name;
            assert(rts[i + 1].0 == name);
            assert(false);
        }
        lemma_strip_merge_absent(rts.drop_first(), lts, name);
        if has_task_name(lts, rts[0].0) {
        } else {
            let x = (rts[0].0, spec_strip(rts[0].1));
            lemma_strip_merge_acc(rts.drop_first(), lts, Seq::empty().push(x));
            assert(Seq::<(Seq<char>, TaskV)>::empty().push(x) =~= seq![x]);
            let rest = spec_strip_merge_tasks(rts.drop_first(), lts, Seq::empty());
            assert(spec_strip_merge_tasks(rts, lts, Seq::empty()) =~= seq![x] + rest);
            if has_task_name(seq![x] + rest, name) {
                let i = choose|i: int|
                    0 <= i < (seq![x] + rest).len() && (seq![x] + rest)[i].0 == name;
                if i == 0 {
                    assert(rts[0].0 == name);
                } else {
                    assert(rest[i - 1].0 == name);
                    assert(has_task_name(rest, name));
                }
                assert(false);
            }
        }
    }
}

/// What lookup finds in the stripped, filtered root part: nothing that the
/// local table binds, and otherwise the stripped root task.
pub proof fn lemma_strip_merge_find(
    rts: Seq<(Seq<char>, TaskV)>,
    lts: Seq<(Seq<char>, TaskV)>,
    name: Seq<char>,
)
    requires
        task_names_unique(rts),
    ensures
        find_task(spec_strip_merge_tasks(rts, lts, Seq::empty()), name) == (if has_task_name(
            lts,
            name,
        ) {
            None
        } else {
            match find_task(rts, name) {
                Some(t) => Some(spec_strip(t)),
                None => None::<TaskV>,
            }
        }),
    decreases rts.len(),
{
    lemma_find_some_iff_has(spec_strip_merge_tasks(rts, lts, Seq::empty()), name);
    if rts.len() == 0 {
    } else {
        let rest = rts.drop_first();
        assert(task_names_unique(rest)) by {
            assert(forall|i: int, j: int|
                0 <= i < j < rest.len() ==> rest[i] == rts[i + 1] && rest[j] == rts[j + 1]);
        }
        lemma_strip_merge_find(rest, lts, name);
        if has_task_name(lts, rts[0].0) {
            if rts[0].0 == name {
                if has_task_name(rest, name) {
                    let i = choose|i: int| 0 <= i < rest.len() && rest[i].0 == name;
                    assert(rts[i + 1].0 == name);
                    assert(false);
                }
                lemma_strip_merge_absent(rest, lts, name);
                lemma_find_some_iff_has(spec_strip_merge_tasks(rest, lts, Seq::empty()), name);
            }
        } else {
            let x = (rts[0].0, spec_strip(rts[0].1));
            lemma_strip_merge_acc(rest, lts, Seq::empty().push(x));
            assert(Seq::<(Seq<char>, TaskV)>::empty().push(x) =~= seq![x]);
            let inner = spec_strip_merge_tasks(rest, lts, Seq::empty());
            assert(spec_strip_merge_tasks(rts, lts, Seq::empty()) =~= seq![x] + inner);
            assert((seq![x] + inner)[0] == x);
            assert((seq![x] + inner).drop_first() =~= inner);
            if rts[0].0 == name {
            } else {
            }
        }
    }
}

/// The stripped root part keeps unique names, none bound by the local table.
pub proof fn lemma_strip_merge_unique(
    rts: Seq<(Seq<char>, TaskV)>,
    lts: Seq<(Seq<char>, TaskV)>,
)
    requires
        task_names_unique(rts),
    ensures
        task_names_unique(spec_strip_merge_tasks(rts, lts, Seq::empty())),
        forall|k: int|
            0 <= k < spec_strip_merge_tasks(rts, lts, Seq::empty()).len()
                ==> !has_task_name(lts, spec_strip_merge_tasks(rts, lts, Seq::empty())[k].0),
    decreases rts.len(),
{
    if rts.len() == 0 {
    } else {
        let rest = rts.drop_first();
        assert(task_names_unique(rest)) by {
            assert(forall|i: int, j: int|
                0 <= i < j < rest.len() ==> rest[i] == rts[i + 1] && rest[j] == rts[j + 1]);
        }
        lemma_strip_merge_unique(rest, lts);
        let inner = spec_strip_merge_tasks(rest, lts, Seq::empty());
        if has_task_name(lts, rts[0].0) {
        } else {
            let x = (rts[0].0, spec_strip(rts[0].1));
            lemma_strip_merge_acc(rest, lts, Seq::empty().push(x));
            assert(Seq::<(Seq<char>, TaskV)>::empty().push(x) =~= seq![x]);
            assert(spec_strip_merge_tasks(rts, lts, Seq::empty()) =~= seq![x] + inner);
            if has_task_name(rest, rts[0].0) {
                let i = choose|i: int| 0 <= i < rest.len() && rest[i].0 == rts[0].0;
                assert(rts[i + 1].0 == rts[0].0);
                assert(false);
            }
            lemma_strip_merge_absent(rest, lts, rts[0].0);
            lemma_find_some_iff_has(inner, rts[0].0);
            assert(forall|i: int, j: int|
                0 <= i < j < (seq![x] + inner).len() ==> (seq![x] + inner)[i].0 != (seq![x]
                    + inner)[j].0) by {
                assert(forall|j: int|
                    0 < j < (seq![x] + inner).len() ==> (seq![x] + inner)[j] == inner[j - 1]);
                assert(forall|j: int|
                    0 <= j < inner.len() && inner[j].0 == x.0 ==> has_task_name(inner, x.0));
            }
        }
    }
}

/// Merging two well-formed documents yields a well-formed document: the
/// merged task table is still a map.
pub proof fn lemma_merge_wf(root: DorsfileV, local: DorsfileV)
    requires
        root.wf(),
        local.wf(),
    ensures
        spec_merge(root, local).wf(),
{
    lemma_strip_merge_unique(root.task, local.task);
    let a = spec_strip_merge_tasks(root.task, local.task, Seq::empty());
    let b = local.task;
    assert(forall|i: int, j: int| 0 <= i < j < (a + b).len() ==> (a + b)[i].0 != (a + b)[j].0)
        by {
        assert(forall|i: int| 0 <= i < a.len() ==> (a + b)[i] == a[i]);
        assert(forall|i: int| a.len() <= i < (a + b).len() ==> (a + b)[i] == b[i - a.len()]);
        assert(forall|i: int, j: int|
            0 <= i < a.len() && a.len() <= j < (a + b).len() && (#[trigger] a[i]).0 == (
            #[trigger] b[j - a.len()]).0 ==> has_task_name(b, a[i].0));
    }
}

/// Merge precedence: a task the location defines itself wins wholesale; a
/// task defined only at the root is inherited with its hooks cleared and a
/// fan-out location demoted; a task defined in neither place is absent.
pub proof fn lemma_merge_precedence(root: DorsfileV, local: DorsfileV, name: Seq<char>)
    requires
        root.wf(),
        local.wf(),
    ensures
        has_task_name(local.task, name) ==> find_task(spec_merge(root, local).task, name)
            == find_task(local.task, name),
        !has_task_name(local.task, name) && has_task_name(root.task, name) ==> find_task(
            spec_merge(root, local).task,
            name,
        ) == Some(spec_strip(find_task(root.task, name)->Some_0)),
        !has_task_name(local.task, name) && !has_task_name(root.task, name) ==> find_task(
            spec_merge(root, local).task,
            name,
        ) is None,
{
    let a = spec_strip_merge_tasks(root.task, local.task, Seq::empty());
    lemma_find_concat(a, local.task, name);
    lemma_strip_merge_find(root.task, local.task, name);
    lemma_find_some_iff_has(root.task, name);
    lemma_find_some_iff_has(local.task, name);
}

/// Environment layering: every effective document's first (lowest-priority)
/// environment layer is the synthetic workspace-root entry, and when a
/// location's own document is merged over the root's, the root's layers come
/// first and the location's after them — so local entries win on collision.
pub proof fn lemma_env_layering(
    root: Seq<char>,
    root_doc: Option<DorsfileV>,
    query: Seq<char>,
    local_text: Option<Seq<char>>,
)
    requires
        spec_get(root, root_doc, query, local_text) is Ok,
    ensures
        (spec_get(root, root_doc, query, local_text)->Ok_0).env.len() >= 1,
        (spec_get(root, root_doc, query, local_text)->Ok_0).env[0] =~= seq![
            (builtin_env_key(), root),
        ],
        query != root && local_text is Some && root_doc is Some && spec_parse_doc(
            local_text->Some_0,
        ) is Ok ==> (spec_get(root, root_doc, query, local_text)->Ok_0).env =~= seq![
            seq![(builtin_env_key(), root)],
        ] + (root_doc->Some_0).env + (spec_parse_doc(local_text->Some_0)->Ok_0).env,
        query == root ==> (spec_get(root, root_doc, query, local_text)->Ok_0).env =~= seq![
            seq![(builtin_env_key(), root)],
        ] + (root_doc->Some_0).env,
        query != root && local_text is None ==> (spec_get(root, root_doc, query, local_text)
            ->Ok_0).env =~= seq![seq![(builtin_env_key(), root)]] + (root_doc->Some_0).env,
        query != root && local_text is Some && root_doc is None && spec_parse_doc(
            local_text->Some_0,
        ) is Ok ==> (spec_get(root, root_doc, query, local_text)->Ok_0).env =~= seq![
            seq![(builtin_env_key(), root)],
        ] + (spec_parse_doc(local_text->Some_0)->Ok_0).env,
{
    let d = spec_get(root, root_doc, query, local_text)->Ok_0;
    assert(d.env[0] == seq![(builtin_env_key(), root)]);
    if query != root && local_text is Some && root_doc is Some && spec_parse_doc(
        local_text->Some_0,
    ) is Ok {
        let rd = root_doc->Some_0;
        let local = spec_parse_doc(local_text->Some_0)->Ok_0;
        assert(d.env =~= seq![seq![(builtin_env_key(), root)]] + (rd.env + local.env));
        assert(seq![seq![(builtin_env_key(), root)]] + (rd.env + local.env) =~= seq![
            seq![(builtin_env_key(), root)],
        ] + rd.env + local.env);
    }
    if query != root && local_text is None {
        let rd = root_doc->Some_0;
        assert(d.env =~= seq![seq![(builtin_env_key(), root)]] + (rd.env
            + Seq::<Seq<(Seq<char>, Seq<char>)>>::empty()));
        assert(d.env =~= seq![seq![(builtin_env_key(), root)]] + rd.env);
    }
}

/// Resolving the same location twice over unchanged texts yields equal
/// effective documents, character for character: resolution is a function
/// of the texts alone.
pub proof fn lemma_resolution_idempotent(
    root: Seq<char>,
    root_text: Option<Seq<char>>,
    query: Seq<char>,
    local_text: Option<Seq<char>>,
    r1: Result<Dorsfile, DorsError>,
    r2: Result<Dorsfile, DorsError>,
)
    requires
        spec_new_getter(root_text) matches Ok(rd) && doc_res_view(r1) == spec_get(
            root,
            rd,
            query,
            local_text,
        ) && doc_res_view(r2) == spec_get(root, rd, query, local_text),
    ensures
        doc_res_view(r1) == doc_res_view(r2),
        r1 is Ok <==> r2 is Ok,
        r1 is Ok ==> (r1->Ok_0)@ == (r2->Ok_0)@,
{
}

/// Every successfully resolved document is well-formed: its task table binds
/// each name once.
pub proof fn lemma_get_wf(
    root: Seq<char>,
    root_doc: Option<DorsfileV>,
    query: Seq<char>,
    local_text: Option<Seq<char>>,
)
    requires
        root_doc matches Some(d) ==> d.wf(),
        spec_get(root, root_doc, query, local_text) is Ok,
    ensures
        (spec_get(root, root_doc, query, local_text)->Ok_0).wf(),
{
    if query == root {
    } else {
        match local_text {
            Some(t) => {
                if spec_parse_doc(t) is Ok {
                    lemma_parse_doc_wf(t);
                    match root_doc {
                        Some(rd) => {
                            lemma_merge_wf(rd, spec_parse_doc(t)->Ok_0);
                        },
                        None => {},
                    }
                }
            },
            None => {
                match root_doc {
                    Some(rd) => {
                        assert(spec_empty_doc().wf());
                        lemma_merge_wf(rd, spec_empty_doc());
                    },
                    None => {},
                }
            },
        }
    }
}

} // verus!
