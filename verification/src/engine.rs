//! The task-execution engine.
//!
//! Running a task is an exchange with the command dispatcher: the engine
//! works out the next command to run (pre-hooks first, then the task's own
//! command at its declared location — fanning out to members when asked —
//! then post-hooks), the dispatcher runs it and reports an exit status, and
//! the engine carries on from there. The engine itself is pure: it is given
//! the exit statuses obtained so far and answers with either the next
//! dispatch request, the finished run's result, an error, or an abort.
//!
//! The whole exchange is pinned down by a specification interpreter
//! (`spec_run_task` and its companions), which also records the trace of
//! dispatched commands; the hook-deduplication, short-circuit and fan-out
//! laws are stated and proved over those traces.

use vstd::prelude::*;
use crate::dorsfile::{
    find_task, Dorsfile, DorsfileV, MemberModifiers, MemberModifiersV, Run, RunV, Task, TaskV,
};
use crate::error::{DorsError, DorsErrorV};
use crate::{spec_get, spec_new_getter, DorsfileGetter};
use rand::distr::SampleString;

verus! {

/// A workspace snapshot: the root path and the members in discovery order,
/// each a name and a path. Immutable for the duration of one run.
#[derive(Debug, Clone, PartialEq)]
pub struct Workspace {
    pub root: String,
    pub members: Vec<(String, String)>,
}

/// Spec-level shape of [`Workspace`].
pub struct WorkspaceV {
    pub root: Seq<char>,
    pub members: Seq<(Seq<char>, Seq<char>)>,
}

impl View for Workspace {
    type V = WorkspaceV;

    open spec fn view(&self) -> WorkspaceV {
        WorkspaceV { root: self.root@, members: self.members.deep_view() }
    }
}

/// The configuration texts on disk when the run started: one entry per
/// location that has a configuration file, keyed by the location's path.
#[derive(Debug, Clone, PartialEq)]
pub struct ConfigFiles {
    pub files: Vec<(String, String)>,
}

impl View for ConfigFiles {
    type V = Seq<(Seq<char>, Seq<char>)>;

    open spec fn view(&self) -> Seq<(Seq<char>, Seq<char>)> {
        self.files.deep_view()
    }
}

/// The configuration text at `dir`, if that location has one.
pub open spec fn spec_file_text(
    files: Seq<(Seq<char>, Seq<char>)>,
    dir: Seq<char>,
) -> Option<Seq<char>>
    decreases files.len(),
{
    if files.len() == 0 {
        None
    } else if files[0].0 == dir {
        Some(files[0].1)
    } else {
        spec_file_text(files.drop_first(), dir)
    }
}

/// A path that does not start at the filesystem root.
pub open spec fn spec_is_relative(p: Seq<char>) -> bool {
    !(p.len() > 0 && p[0] == '/')
}

/// Joining a path onto a directory: an absolute path replaces the directory,
/// a relative one goes under it.
pub open spec fn spec_path_join(dir: Seq<char>, p: Seq<char>) -> Seq<char> {
    if !spec_is_relative(p) {
        p
    } else {
        dir + "/"@ + p
    }
}

/// A member's path relative to the workspace root: a relative path stands as
/// it is; an absolute one under the root loses the root prefix. An absolute
/// path outside the root stands as it is.
pub open spec fn spec_short_path(path: Seq<char>, root: Seq<char>) -> Seq<char> {
    if spec_is_relative(path) {
        path
    } else if path == root {
        Seq::empty()
    } else if path.len() > root.len() && path.take(root.len() as int) == root && path[root.len() as int]
        == '/' {
        path.skip(root.len() as int + 1)
    } else {
        path
    }
}

/// Whether one of the filter's entries is this string.
pub open spec fn seq_has_string(set: Seq<Seq<char>>, x: Seq<char>) -> bool {
    exists|i: int| 0 <= i < set.len() && set[i] == x
}

/// Whether a fan-out visits this member: no filter takes every member, a
/// skip-filter excludes matches, an only-filter includes nothing else; a
/// member matches by name or by its root-relative path.
pub open spec fn spec_member_selected(
    mods: Option<MemberModifiersV>,
    name: Seq<char>,
    path: Seq<char>,
    root: Seq<char>,
) -> bool {
    let short = spec_short_path(path, root);
    match mods {
        None => true,
        Some(MemberModifiersV::SkipMembers(set)) => !(seq_has_string(set, name) || seq_has_string(
            set,
            short,
        )),
        Some(MemberModifiersV::OnlyMembers(set)) => seq_has_string(set, name) || seq_has_string(
            set,
            short,
        ),
    }
}

/// The members a fan-out visits, in discovery order.
pub open spec fn spec_selected_members(
    members: Seq<(Seq<char>, Seq<char>)>,
    mods: Option<MemberModifiersV>,
    root: Seq<char>,
) -> Seq<(Seq<char>, Seq<char>)>
    decreases members.len(),
{
    if members.len() == 0 {
        Seq::empty()
    } else {
        let rest = spec_selected_members(members.drop_first(), mods, root);
        if spec_member_selected(mods, members[0].0, members[0].1, root) {
            seq![members[0]] + rest
        } else {
            rest
        }
    }
}

/// One command the dispatcher is asked to run: the task it belongs to, the
/// shell script body, the working directory, the environment layers (later
/// layers override earlier ones) and the positional arguments.
#[derive(Debug, Clone, PartialEq)]
pub struct DispatchReq {
    pub task: String,
    pub command: String,
    pub workdir: String,
    pub env: Vec<Vec<(String, String)>>,
    pub args: Vec<String>,
}

/// Spec-level shape of [`DispatchReq`].
pub struct DispatchV {
    pub task: Seq<char>,
    pub command: Seq<char>,
    pub workdir: Seq<char>,
    pub env: Seq<Seq<(Seq<char>, Seq<char>)>>,
    pub args: Seq<Seq<char>>,
}

impl View for DispatchReq {
    type V = DispatchV;

    open spec fn view(&self) -> DispatchV {
        DispatchV {
            task: self.task@,
            command: self.command@,
            workdir: self.workdir@,
            env: self.env.deep_view(),
            args: self.args.deep_view(),
        }
    }
}

/// Where a run stands after the statuses seen so far: it needs one more
/// command dispatched, or it finished with an exit status, or resolution
/// failed, or it hit a defect that the process aborts on.
#[derive(Debug, PartialEq)]
pub enum RunStep {
    /// Run this command and come back with its exit status.
    Dispatch(DispatchReq),
    /// The run finished; this is its result. A non-zero status is not an
    /// engine error: it travels back as a value.
    Done(i32),
    /// Resolution or lookup failed before any further command could run.
    Failed(DorsError),
    /// A programming-contract violation; not a recoverable error.
    Aborted(String),
}

/// Spec-level shape of [`RunStep`].
pub enum StepV {
    Dispatch(DispatchV),
    Done(i32),
    Failed(DorsErrorV),
    Aborted(Seq<char>),
}

impl View for RunStep {
    type V = StepV;

    open spec fn view(&self) -> StepV {
        match self {
            RunStep::Dispatch(d) => StepV::Dispatch(d@),
            RunStep::Done(st) => StepV::Done(*st),
            RunStep::Failed(e) => StepV::Failed(e@),
            RunStep::Aborted(m) => StepV::Aborted(m@),
        }
    }
}

/// What one phase of the interpreter leaves behind: its outcome, how many
/// statuses are consumed in total, the two hook-tracking sets, and the trace
/// of commands dispatched (each paired with one consumed status).
pub struct RunOutV {
    pub step: StepV,
    pub pos: int,
    pub befores: Seq<Seq<char>>,
    pub afters: Seq<Seq<char>>,
    pub trace: Seq<DispatchV>,
}

/// A successful phase: done, with a zero (success) status.
pub open spec fn phase_ok(s: StepV) -> bool {
    s matches StepV::Done(st) && st == 0
}

/// `p`, held inside `[lo, hi]`.
pub open spec fn clamp_pos(p: int, lo: int, hi: int) -> int {
    if p < lo {
        lo
    } else if p > hi {
        hi
    } else {
        p
    }
}

/// The message a fan-out from anywhere but the workspace root aborts with.
pub open spec fn abort_not_root() -> Seq<char> {
    "cannot run from members from outside workspace root"@
}

/// The message a fan-out that selects no member aborts with.
pub open spec fn abort_no_members() -> Seq<char> {
    "fan-out selected no members"@
}

/// The message a run whose hooks nest deeper than the engine's recursion
/// budget aborts with.
pub open spec fn abort_depth() -> Seq<char> {
    "hook nesting exceeds the recursion budget"@
}

/// The engine's recursion budget: how deeply hooks, fan-out and their
/// combinations may nest between two dispatched commands.
pub const RUN_FUEL: u64 = 1024;

/// Dispatching one command: consumes the next status when one is there,
/// otherwise asks for it.
pub open spec fn spec_dispatch_one(
    task_name: Seq<char>,
    command: Seq<char>,
    workdir: Seq<char>,
    env: Seq<Seq<(Seq<char>, Seq<char>)>>,
    args: Seq<Seq<char>>,
    befores: Seq<Seq<char>>,
    afters: Seq<Seq<char>>,
    statuses: Seq<i32>,
    pos: int,
) -> RunOutV {
    let d = DispatchV { task: task_name, command, workdir, env, args };
    if pos < statuses.len() {
        RunOutV {
            step: StepV::Done(statuses[pos]),
            pos: pos + 1,
            befores,
            afters,
            trace: seq![d],
        }
    } else {
        RunOutV { step: StepV::Dispatch(d), pos, befores, afters, trace: Seq::empty() }
    }
}

/// The spec interpreter for one task invocation.
///
/// Pre-hooks run first, sharing `befores`; then the task's own command at
/// its declared location, fanning out to members when it says so (allowed
/// only from the root — the discovery order decides the member order);
/// post-hooks run last, sharing `afters`, and only if everything before them
/// succeeded. The first non-success result is the invocation's result, and
/// nothing after it runs.
pub open spec fn spec_run_task(
    ctx: CtxV,
    task_name: Seq<char>,
    doc: DorsfileV,
    dir: Seq<char>,
    args: Seq<Seq<char>>,
    befores: Seq<Seq<char>>,
    afters: Seq<Seq<char>>,
    statuses: Seq<i32>,
    pos: int,
    fuel: int,
) -> RunOutV
    decreases statuses.len() - pos, fuel, 3int, 0int
        when 0 <= pos <= statuses.len() && 0 <= fuel
{
    if fuel == 0 {
        RunOutV { step: StepV::Aborted(abort_depth()), pos, befores, afters, trace: Seq::empty() }
    } else {
        match find_task(doc.task, task_name) {
            None => RunOutV {
                step: StepV::Failed(DorsErrorV::NoTask(task_name)),
                pos,
                befores,
                afters,
                trace: Seq::empty(),
            },
            Some(task) => {
                let bres = match task.before {
                    Some(hooks) => spec_run_befores(
                        ctx,
                        hooks,
                        0,
                        doc,
                        dir,
                        befores,
                        statuses,
                        pos,
                        fuel,
                    ),
                    None => RunOutV {
                        step: StepV::Done(0),
                        pos,
                        befores,
                        afters,
                        trace: Seq::empty(),
                    },
                };
                let p1 = clamp_pos(bres.pos, pos, statuses.len() as int);
                if !phase_ok(bres.step) {
                    RunOutV {
                        step: bres.step,
                        pos: p1,
                        befores: bres.befores,
                        afters,
                        trace: bres.trace,
                    }
                } else {
                    let cres = spec_run_command(
                        ctx,
                        task_name,
                        task,
                        doc,
                        dir,
                        args,
                        bres.befores,
                        afters,
                        statuses,
                        p1,
                        fuel,
                    );
                    let p2 = clamp_pos(cres.pos, p1, statuses.len() as int);
                    if !phase_ok(cres.step) {
                        RunOutV {
                            step: cres.step,
                            pos: p2,
                            befores: bres.befores,
                            afters,
                            trace: bres.trace + cres.trace,
                        }
                    } else {
                        let ares = match task.after {
                            Some(hooks) => spec_run_afters(
                                ctx,
                                hooks,
                                0,
                                doc,
                                dir,
                                afters,
                                statuses,
                                p2,
                                fuel,
                            ),
                            None => RunOutV {
                                step: StepV::Done(0),
                                pos: p2,
                                befores: bres.befores,
                                afters,
                                trace: Seq::empty(),
                            },
                        };
                        let p3 = clamp_pos(ares.pos, p2, statuses.len() as int);
                        if !phase_ok(ares.step) {
                            RunOutV {
                                step: ares.step,
                                pos: p3,
                                befores: bres.befores,
                                afters: ares.afters,
                                trace: bres.trace + cres.trace + ares.trace,
                            }
                        } else {
                            RunOutV {
                                step: StepV::Done(0),
                                pos: p3,
                                befores: bres.befores,
                                afters: ares.afters,
                                trace: bres.trace + cres.trace + ares.trace,
                            }
                        }
                    }
                }
            },
        }
    }
}

/// The task's own command, at its declared location.
pub open spec fn spec_run_command(
    ctx: CtxV,
    task_name: Seq<char>,
    task: TaskV,
    doc: DorsfileV,
    dir: Seq<char>,
    args: Seq<Seq<char>>,
    befores: Seq<Seq<char>>,
    afters: Seq<Seq<char>>,
    statuses: Seq<i32>,
    pos: int,
    fuel: int,
) -> RunOutV
    decreases statuses.len() - pos, fuel, 2int, 0int
        when 0 <= pos <= statuses.len() && 0 < fuel
{
    match task.run_from {
        RunV::Here => spec_dispatch_one(
            task_name,
            task.command,
            dir,
            doc.env,
            args,
            befores,
            afters,
            statuses,
            pos,
        ),
        RunV::WorkspaceRoot => spec_dispatch_one(
            task_name,
            task.command,
            ctx.root,
            doc.env,
            args,
            befores,
            afters,
            statuses,
            pos,
        ),
        RunV::Path(p) => spec_dispatch_one(
            task_name,
            task.command,
            spec_path_join(dir, p),
            doc.env,
            args,
            befores,
            afters,
            statuses,
            pos,
        ),
        RunV::Members => {
            if dir != ctx.root {
                RunOutV {
                    step: StepV::Aborted(abort_not_root()),
                    pos,
                    befores,
                    afters,
                    trace: Seq::empty(),
                }
            } else {
                let sel = spec_selected_members(ctx.members, task.member_modifiers, ctx.root);
                if sel.len() == 0 {
                    RunOutV {
                        step: StepV::Aborted(abort_no_members()),
                        pos,
                        befores,
                        afters,
                        trace: Seq::empty(),
                    }
                } else {
                    spec_run_members(
                        ctx,
                        task_name,
                        sel,
                        0,
                        args,
                        befores,
                        afters,
                        statuses,
                        pos,
                        fuel,
                    )
                }
            }
        },
    }
}

/// Pre-hooks, in declared order. A hook already in the shared set is
/// skipped; one that runs is marked first, then run with the same shared set
/// and a fresh post-hook set and no arguments. The first non-success result
/// ends the phase and is its result.
pub open spec fn spec_run_befores(
    ctx: CtxV,
    hooks: Seq<Seq<char>>,
    i: int,
    doc: DorsfileV,
    dir: Seq<char>,
    befores: Seq<Seq<char>>,
    statuses: Seq<i32>,
    pos: int,
    fuel: int,
) -> RunOutV
    decreases statuses.len() - pos, fuel, 1int, hooks.len() - i
        when 0 <= pos <= statuses.len() && 0 < fuel && 0 <= i <= hooks.len()
{
    if i >= hooks.len() {
        RunOutV { step: StepV::Done(0), pos, befores, afters: Seq::empty(), trace: Seq::empty() }
    } else if seq_has_string(befores, hooks[i]) {
        spec_run_befores(ctx, hooks, i + 1, doc, dir, befores, statuses, pos, fuel)
    } else {
        let h = spec_run_task(
            ctx,
            hooks[i],
            doc,
            dir,
            Seq::empty(),
            befores.push(hooks[i]),
            Seq::empty(),
            statuses,
            pos,
            fuel - 1,
        );
        let p1 = clamp_pos(h.pos, pos, statuses.len() as int);
        if phase_ok(h.step) {
            let rest = spec_run_befores(
                ctx,
                hooks,
                i + 1,
                doc,
                dir,
                h.befores,
                statuses,
                p1,
                fuel,
            );
            RunOutV {
                step: rest.step,
                pos: rest.pos,
                befores: rest.befores,
                afters: Seq::empty(),
                trace: h.trace + rest.trace,
            }
        } else {
            RunOutV {
                step: h.step,
                pos: p1,
                befores: h.befores,
                afters: Seq::empty(),
                trace: h.trace,
            }
        }
    }
}

/// Post-hooks, in declared order: symmetric to the pre-hooks, sharing the
/// post-hook set and giving each hook a fresh pre-hook set.
pub open spec fn spec_run_afters(
    ctx: CtxV,
    hooks: Seq<Seq<char>>,
    i: int,
    doc: DorsfileV,
    dir: Seq<char>,
    afters: Seq<Seq<char>>,
    statuses: Seq<i32>,
    pos: int,
    fuel: int,
) -> RunOutV
    decreases statuses.len() - pos, fuel, 1int, hooks.len() - i
        when 0 <= pos <= statuses.len() && 0 < fuel && 0 <= i <= hooks.len()
{
    if i >= hooks.len() {
        RunOutV { step: StepV::Done(0), pos, befores: Seq::empty(), afters, trace: Seq::empty() }
    } else if seq_has_string(afters, hooks[i]) {
        spec_run_afters(ctx, hooks, i + 1, doc, dir, afters, statuses, pos, fuel)
    } else {
        let h = spec_run_task(
            ctx,
            hooks[i],
            doc,
            dir,
            Seq::empty(),
            Seq::empty(),
            afters.push(hooks[i]),
            statuses,
            pos,
            fuel - 1,
        );
        let p1 = clamp_pos(h.pos, pos, statuses.len() as int);
        if phase_ok(h.step) {
            let rest = spec_run_afters(ctx, hooks, i + 1, doc, dir, h.afters, statuses, p1, fuel);
            RunOutV {
                step: rest.step,
                pos: rest.pos,
                befores: Seq::empty(),
                afters: rest.afters,
                trace: h.trace + rest.trace,
            }
        } else {
            RunOutV {
                step: h.step,
                pos: p1,
                befores: Seq::empty(),
                afters: h.afters,
                trace: h.trace,
            }
        }
    }
}

/// Fan-out over the selected members: each member's document is resolved
/// fresh and the same task runs there with fresh hook sets and the same
/// arguments. The first non-success result ends the fan-out; exhausting the
/// members reports the last (successful) result.
pub open spec fn spec_run_members(
    ctx: CtxV,
    task_name: Seq<char>,
    members: Seq<(Seq<char>, Seq<char>)>,
    i: int,
    args: Seq<Seq<char>>,
    befores: Seq<Seq<char>>,
    afters: Seq<Seq<char>>,
    statuses: Seq<i32>,
    pos: int,
    fuel: int,
) -> RunOutV
    decreases statuses.len() - pos, fuel, 1int, members.len() - i
        when 0 <= pos <= statuses.len() && 0 < fuel && 0 <= i <= members.len()
{
    if i >= members.len() {
        RunOutV { step: StepV::Done(0), pos, befores, afters, trace: Seq::empty() }
    } else {
        let path = members[i].1;
        match spec_get(ctx.root, ctx.root_doc, path, spec_file_text(ctx.files, path)) {
            Err(e) => RunOutV {
                step: StepV::Failed(e),
                pos,
                befores,
                afters,
                trace: Seq::empty(),
            },
            Ok(mdoc) => {
                let m = spec_run_task(
                    ctx,
                    task_name,
                    mdoc,
                    path,
                    args,
                    Seq::empty(),
                    Seq::empty(),
                    statuses,
                    pos,
                    fuel - 1,
                );
                let p1 = clamp_pos(m.pos, pos, statuses.len() as int);
                if phase_ok(m.step) {
                    let rest = spec_run_members(
                        ctx,
                        task_name,
                        members,
                        i + 1,
                        args,
                        befores,
                        afters,
                        statuses,
                        p1,
                        fuel,
                    );
                    RunOutV {
                        step: rest.step,
                        pos: rest.pos,
                        befores,
                        afters,
                        trace: m.trace + rest.trace,
                    }
                } else {
                    RunOutV { step: m.step, pos: p1, befores, afters, trace: m.trace }
                }
            },
        }
    }
}

/// The immutable context of one run: the workspace snapshot, the
/// configuration texts, and the root document.
pub struct CtxV {
    pub root: Seq<char>,
    pub members: Seq<(Seq<char>, Seq<char>)>,
    pub files: Seq<(Seq<char>, Seq<char>)>,
    pub root_doc: Option<DorsfileV>,
}

impl CtxV {
    /// The context a resolver, workspace and file snapshot make together.
    pub open spec fn of(g: DorsfileGetter, w: Workspace, f: ConfigFiles) -> CtxV {
        CtxV {
            root: w.root@,
            members: w.members.deep_view(),
            files: f@,
            root_doc: g.root_doc_view(),
        }
    }
}

/// The resolver and the workspace snapshot agree on the root, and the
/// resolver's document is well-formed.
pub open spec fn ctx_wf(g: DorsfileGetter, w: Workspace) -> bool {
    g.wf() && g.workspace_root@ == w.root@
}

/// Whether one of the filter's entries is this string.
#[verifier::loop_isolation(false)]
fn contains_string(set: &Vec<String>, x: &String) -> (r: bool)
    ensures
        r == seq_has_string(set.deep_view(), x@),
{
    let mut i: usize = 0;
    while i < set.len()
        invariant
            i <= set@.len(),
            forall|j: int| 0 <= j < i ==> set.deep_view()[j] != x@,
        decreases set@.len() - i,
    {
        if set[i] == *x {
            proof {
                assert(set.deep_view()[i as int] == x@);
            }
            return true;
        }
        i += 1;
    }
    false
}

/// The configuration text at `dir`, if any.
#[verifier::loop_isolation(false)]
fn file_text<'a>(files: &'a ConfigFiles, dir: &String) -> (r: Option<&'a String>)
    ensures
        match r {
            Some(t) => spec_file_text(files@, dir@) == Some(t@),
            None => spec_file_text(files@, dir@) is None,
        },
{
    let mut i: usize = 0;
    proof {
        assert(files@.skip(0) =~= files@);
    }
    while i < files.files.len()
        invariant
            i <= files.files@.len(),
            spec_file_text(files@.skip(i as int), dir@) == spec_file_text(files@, dir@),
        decreases files.files@.len() - i,
    {
        proof {
            assert(files@.skip(i as int).drop_first() =~= files@.skip(i + 1));
            assert(files@[i as int] == (files.files@[i as int].0@, files.files@[i as int].1@));
        }
        if files.files[i].0 == *dir {
            return Some(&files.files[i].1);
        }
        i += 1;
    }
    None
}

/// Whether a path starts anywhere but the filesystem root.
fn is_relative(p: &String) -> (r: bool)
    ensures
        r == spec_is_relative(p@),
{
    let n = p.as_str().unicode_len();
    if n == 0 {
        true
    } else {
        p.as_str().get_char(0) != '/'
    }
}

/// Joins a path onto a directory as the engine's locations do.
fn path_join(dir: &String, p: &String) -> (r: String)
    ensures
        r@ == spec_path_join(dir@, p@),
{
    if !is_relative(p) {
        p.clone()
    } else {
        let mut r = dir.clone();
        r.append("/");
        r.append(p.as_str());
        proof {
            assert(r@ =~= dir@ + "/"@ + p@);
        }
        r
    }
}

/// A member's path relative to the workspace root.
fn short_path(path: &String, root: &String) -> (r: String)
    ensures
        r@ == spec_short_path(path@, root@),
{
    if is_relative(path) {
        path.clone()
    } else if *path == *root {
        let r = String::new();
        proof {
            assert(r@ =~= Seq::<char>::empty());
        }
        r
    } else {
        let plen = path.as_str().unicode_len();
        let rlen = root.as_str().unicode_len();
        if plen > rlen {
            let prefix = path.as_str().substring_char(0, rlen).to_owned();
            if prefix == *root && path.as_str().get_char(rlen) == '/' {
                let rest = path.as_str().substring_char(rlen + 1, plen).to_owned();
                proof {
                    assert(prefix@ =~= path@.take(root@.len() as int));
                    assert(rest@ =~= path@.skip(root@.len() as int + 1));
                }
                rest
            } else {
                proof {
                    assert(prefix@ =~= path@.take(root@.len() as int));
                }
                path.clone()
            }
        } else {
            path.clone()
        }
    }
}

/// Whether a fan-out visits this member.
fn member_selected(
    mods: &Option<MemberModifiers>,
    name: &String,
    path: &String,
    root: &String,
) -> (r: bool)
    ensures
        r == spec_member_selected(mods.deep_view(), name@, path@, root@),
{
    let short = short_path(path, root);
    match mods {
        None => true,
        Some(MemberModifiers::SkipMembers(set)) => !(contains_string(set, name)
            || contains_string(set, &short)),
        Some(MemberModifiers::OnlyMembers(set)) => contains_string(set, name) || contains_string(
            set,
            &short,
        ),
    }
}

/// The members a fan-out visits, in discovery order.
#[verifier::loop_isolation(false)]
fn selected_members(
    members: &Vec<(String, String)>,
    mods: &Option<MemberModifiers>,
    root: &String,
) -> (r: Vec<(String, String)>)
    ensures
        r.deep_view() == spec_selected_members(members.deep_view(), mods.deep_view(), root@),
{
    let ghost all = spec_selected_members(members.deep_view(), mods.deep_view(), root@);
    let mut out: Vec<(String, String)> = Vec::new();
    let mut i: usize = 0;
    proof {
        assert(members.deep_view().skip(0) =~= members.deep_view());
        assert(out.deep_view() =~= Seq::<(Seq<char>, Seq<char>)>::empty());
        assert(Seq::<(Seq<char>, Seq<char>)>::empty() + spec_selected_members(
            members.deep_view(),
            mods.deep_view(),
            root@,
        ) =~= all);
    }
    while i < members.len()
        invariant
            i <= members@.len(),
            out.deep_view() + spec_selected_members(
                members.deep_view().skip(i as int),
                mods.deep_view(),
                root@,
            ) == all,
        decreases members@.len() - i,
    {
        proof {
            assert(members.deep_view().skip(i as int).drop_first() =~= members.deep_view().skip(
                i + 1,
            ));
            assert(members.deep_view().skip(i as int)[0] == (
                members@[i as int].0@,
                members@[i as int].1@,
            ));
        }
        if member_selected(mods, &members[i].0, &members[i].1, root) {
            let ghost pre = out.deep_view();
            out.push((members[i].0.clone(), members[i].1.clone()));
            proof {
                assert(out.deep_view() =~= pre.push(
                    (members@[i as int].0@, members@[i as int].1@),
                ));
                assert(pre.push((members@[i as int].0@, members@[i as int].1@))
                    + spec_selected_members(
                    members.deep_view().skip(i + 1),
                    mods.deep_view(),
                    root@,
                ) =~= pre + (seq![(members@[i as int].0@, members@[i as int].1@)]
                    + spec_selected_members(
                    members.deep_view().skip(i + 1),
                    mods.deep_view(),
                    root@,
                )));
            }
        }
        i += 1;
    }
    proof {
        assert(members.deep_view().skip(members@.len() as int) =~= Seq::<
            (Seq<char>, Seq<char>),
        >::empty());
        assert(out.deep_view() + Seq::<(Seq<char>, Seq<char>)>::empty() =~= out.deep_view());
    }
    out
}

/// The task bound to `name` in a document.
#[verifier::loop_isolation(false)]
fn doc_find_task<'a>(doc: &'a Dorsfile, name: &String) -> (r: Option<&'a Task>)
    ensures
        match r {
            Some(t) => find_task(doc@.task, name@) == Some(t@),
            None => find_task(doc@.task, name@) is None,
        },
{
    let mut i: usize = 0;
    proof {
        assert(doc@.task.skip(0) =~= doc@.task);
    }
    while i < doc.task.len()
        invariant
            i <= doc.task@.len(),
            find_task(doc@.task.skip(i as int), name@) == find_task(doc@.task, name@),
        decreases doc.task@.len() - i,
    {
        proof {
            assert(doc@.task.skip(i as int).drop_first() =~= doc@.task.skip(i + 1));
            assert(doc@.task.skip(i as int)[0] == (doc.task@[i as int].0@, doc.task@[i as int].1@));
        }
        if doc.task[i].0 == *name {
            return Some(&doc.task[i].1);
        }
        i += 1;
    }
    None
}

/// Copies the argument list.
#[verifier::loop_isolation(false)]
fn args_copy(args: &Vec<String>) -> (r: Vec<String>)
    ensures
        r.deep_view() == args.deep_view(),
{
    let c = args.clone();
    proof {
        assert(c@ =~= args@);
        assert(c.deep_view() =~= args.deep_view());
    }
    c
}

/// One task invocation against the statuses seen so far; the executable
/// mirror of `spec_run_task`.
fn step_task(
    getter: &DorsfileGetter,
    ws: &Workspace,
    files: &ConfigFiles,
    task_name: &String,
    doc: &Dorsfile,
    dir: &String,
    args: &Vec<String>,
    befores: Vec<String>,
    afters: Vec<String>,
    statuses: &Vec<i32>,
    pos: usize,
    fuel: u64,
) -> (r: (RunStep, Vec<String>, Vec<String>, usize))
    requires
        ctx_wf(*getter, *ws),
        pos <= statuses@.len(),
    ensures
        ({
            let s = spec_run_task(
                CtxV::of(*getter, *ws, *files),
                task_name@,
                doc@,
                dir@,
                args.deep_view(),
                befores.deep_view(),
                afters.deep_view(),
                statuses@,
                pos as int,
                fuel as int,
            );
            &&& r.0@ == s.step
            &&& r.1.deep_view() == s.befores
            &&& r.2.deep_view() == s.afters
            &&& r.3 == s.pos
            &&& pos <= r.3 <= statuses@.len()
        }),
    decreases statuses@.len() - pos, fuel, 3int, 0int,
{
    if fuel == 0 {
        let m = String::from_str("hook nesting exceeds the recursion budget");
        return (RunStep::Aborted(m), befores, afters, pos);
    }
    let task = match doc_find_task(doc, task_name) {
        Some(t) => t,
        None => {
            return (RunStep::Failed(DorsError::NoTask(task_name.clone())), befores, afters, pos);
        },
    };
    let ghost a0 = afters.deep_view();

    // Pre-hooks.
    let (bstep, befores2, p1): (RunStep, Vec<String>, usize) = match &task.before {
        Some(hooks) => step_befores(
            getter,
            ws,
            files,
            hooks,
            0,
            doc,
            dir,
            befores,
            statuses,
            pos,
            fuel,
        ),
        None => (RunStep::Done(0), befores, pos),
    };
    let bok = match &bstep {
        RunStep::Done(st) => *st == 0,
        _ => false,
    };
    if !bok {
        return (bstep, befores2, afters, p1);
    }

    // The task's own command.
    let (cstep, p2): (RunStep, usize) = step_command(
        getter,
        ws,
        files,
        task_name,
        task,
        doc,
        dir,
        args,
        statuses,
        p1,
        fuel,
        Ghost(befores2.deep_view()),
        Ghost(a0),
    );
    let cok = match &cstep {
        RunStep::Done(st) => *st == 0,
        _ => false,
    };
    if !cok {
        return (cstep, befores2, afters, p2);
    }

    // Post-hooks.
    let (astep, afters2, p3): (RunStep, Vec<String>, usize) = match &task.after {
        Some(hooks) => step_afters(
            getter,
            ws,
            files,
            hooks,
            0,
            doc,
            dir,
            afters,
            statuses,
            p2,
            fuel,
        ),
        None => (RunStep::Done(0), afters, p2),
    };
    let aok = match &astep {
        RunStep::Done(st) => *st == 0,
        _ => false,
    };
    if !aok {
        return (astep, befores2, afters2, p3);
    }
    (RunStep::Done(0), befores2, afters2, p3)
}

/// The task's own command at its declared location; the executable mirror of
/// `spec_run_command`. The two ghost arguments carry the hook sets the spec
/// threads through unchanged.
fn step_command(
    getter: &DorsfileGetter,
    ws: &Workspace,
    files: &ConfigFiles,
    task_name: &String,
    task: &Task,
    doc: &Dorsfile,
    dir: &String,
    args: &Vec<String>,
    statuses: &Vec<i32>,
    pos: usize,
    fuel: u64,
    gb: Ghost<Seq<Seq<char>>>,
    ga: Ghost<Seq<Seq<char>>>,
) -> (r: (RunStep, usize))
    requires
        ctx_wf(*getter, *ws),
        pos <= statuses@.len(),
        fuel >= 1,
    ensures
        ({
            let s = spec_run_command(
                CtxV::of(*getter, *ws, *files),
                task_name@,
                task@,
                doc@,
                dir@,
                args.deep_view(),
                gb@,
                ga@,
                statuses@,
                pos as int,
                fuel as int,
            );
            &&& r.0@ == s.step
            &&& r.1 == s.pos
            &&& s.befores == gb@
            &&& s.afters == ga@
            &&& pos <= r.1 <= statuses@.len()
        }),
    decreases statuses@.len() - pos, fuel, 2int, 0int,
{
    match &task.run_from {
        Run::Here => dispatch_one(task_name, &task.command, dir, &doc.env, args, statuses, pos),
        Run::WorkspaceRoot => dispatch_one(
            task_name,
            &task.command,
            &ws.root,
            &doc.env,
            args,
            statuses,
            pos,
        ),
        Run::Path(p) => {
            let wd = path_join(dir, p);
            dispatch_one(task_name, &task.command, &wd, &doc.env, args, statuses, pos)
        },
        Run::Members => {
            if !(*dir == ws.root) {
                let m = String::from_str("cannot run from members from outside workspace root");
                (RunStep::Aborted(m), pos)
            } else {
                let sel = selected_members(&ws.members, &task.member_modifiers, &ws.root);
                if sel.len() == 0 {
                    let m = String::from_str("fan-out selected no members");
                    (RunStep::Aborted(m), pos)
                } else {
                    step_members(
                        getter,
                        ws,
                        files,
                        task_name,
                        &sel,
                        0,
                        args,
                        statuses,
                        pos,
                        fuel,
                        gb,
                        ga,
                    )
                }
            }
        },
    }
}

/// Dispatching one command: consume the next status if it is already there,
/// otherwise hand the request out; the executable mirror of
/// `spec_dispatch_one` (the hook sets ride along unchanged).
fn dispatch_one(
    task_name: &String,
    command: &String,
    workdir: &String,
    env: &Vec<Vec<(String, String)>>,
    args: &Vec<String>,
    statuses: &Vec<i32>,
    pos: usize,
) -> (r: (RunStep, usize))
    requires
        pos <= statuses@.len(),
    ensures
        ({
            let s = spec_dispatch_one(
                task_name@,
                command@,
                workdir@,
                env.deep_view(),
                args.deep_view(),
                Seq::empty(),
                Seq::empty(),
                statuses@,
                pos as int,
            );
            &&& r.0@ == s.step
            &&& r.1 == s.pos
            &&& pos <= r.1 <= statuses@.len()
        }),
{
    if pos < statuses.len() {
        (RunStep::Done(statuses[pos]), pos + 1)
    } else {
        let req = DispatchReq {
            task: task_name.clone(),
            command: command.clone(),
            workdir: workdir.clone(),
            env: crate::env_copy(env),
            args: args_copy(args),
        };
        (RunStep::Dispatch(req), pos)
    }
}

/// Pre-hooks in declared order; the executable mirror of `spec_run_befores`.
fn step_befores(
    getter: &DorsfileGetter,
    ws: &Workspace,
    files: &ConfigFiles,
    hooks: &Vec<String>,
    i: usize,
    doc: &Dorsfile,
    dir: &String,
    befores: Vec<String>,
    statuses: &Vec<i32>,
    pos: usize,
    fuel: u64,
) -> (r: (RunStep, Vec<String>, usize))
    requires
        ctx_wf(*getter, *ws),
        pos <= statuses@.len(),
        i <= hooks@.len(),
        fuel >= 1,
    ensures
        ({
            let s = spec_run_befores(
                CtxV::of(*getter, *ws, *files),
                hooks.deep_view(),
                i as int,
                doc@,
                dir@,
                befores.deep_view(),
                statuses@,
                pos as int,
                fuel as int,
            );
            &&& r.0@ == s.step
            &&& r.1.deep_view() == s.befores
            &&& r.2 == s.pos
            &&& pos <= r.2 <= statuses@.len()
        }),
    decreases statuses@.len() - pos, fuel, 1int, hooks@.len() - i,
{
    if i >= hooks.len() {
        return (RunStep::Done(0), befores, pos);
    }
    if contains_string(&befores, &hooks[i]) {
        return step_befores(
            getter,
            ws,
            files,
            hooks,
            i + 1,
            doc,
            dir,
            befores,
            statuses,
            pos,
            fuel,
        );
    }
    let ghost b0 = befores.deep_view();
    let mut marked = befores;
    marked.push(hooks[i].clone());
    proof {
        assert(marked.deep_view() =~= b0.push(hooks.deep_view()[i as int]));
    }
    let no_args: Vec<String> = Vec::new();
    let fresh_afters: Vec<String> = Vec::new();
    proof {
        assert(no_args.deep_view() =~= Seq::<Seq<char>>::empty());
        assert(fresh_afters.deep_view() =~= Seq::<Seq<char>>::empty());
    }
    let (hstep, hb, _ha, hpos) = step_task(
        getter,
        ws,
        files,
        &hooks[i],
        doc,
        dir,
        &no_args,
        marked,
        fresh_afters,
        statuses,
        pos,
        fuel - 1,
    );
    let hok = match &hstep {
        RunStep::Done(st) => *st == 0,
        _ => false,
    };
    if hok {
        step_befores(getter, ws, files, hooks, i + 1, doc, dir, hb, statuses, hpos, fuel)
    } else {
        (hstep, hb, hpos)
    }
}

/// Post-hooks in declared order; the executable mirror of `spec_run_afters`.
fn step_afters(
    getter: &DorsfileGetter,
    ws: &Workspace,
    files: &ConfigFiles,
    hooks: &Vec<String>,
    i: usize,
    doc: &Dorsfile,
    dir: &String,
    afters: Vec<String>,
    statuses: &Vec<i32>,
    pos: usize,
    fuel: u64,
) -> (r: (RunStep, Vec<String>, usize))
    requires
        ctx_wf(*getter, *ws),
        pos <= statuses@.len(),
        i <= hooks@.len(),
        fuel >= 1,
    ensures
        ({
            let s = spec_run_afters(
                CtxV::of(*getter, *ws, *files),
                hooks.deep_view(),
                i as int,
                doc@,
                dir@,
                afters.deep_view(),
                statuses@,
                pos as int,
                fuel as int,
            );
            &&& r.0@ == s.step
            &&& r.1.deep_view() == s.afters
            &&& r.2 == s.pos
            &&& pos <= r.2 <= statuses@.len()
        }),
    decreases statuses@.len() - pos, fuel, 1int, hooks@.len() - i,
{
    if i >= hooks.len() {
        return (RunStep::Done(0), afters, pos);
    }
    if contains_string(&afters, &hooks[i]) {
        return step_afters(
            getter,
            ws,
            files,
            hooks,
            i + 1,
            doc,
            dir,
            afters,
            statuses,
            pos,
            fuel,
        );
    }
    let ghost a0 = afters.deep_view();
    let mut marked = afters;
    marked.push(hooks[i].clone());
    proof {
        assert(marked.deep_view() =~= a0.push(hooks.deep_view()[i as int]));
    }
    let no_args: Vec<String> = Vec::new();
    let fresh_befores: Vec<String> = Vec::new();
    proof {
        assert(no_args.deep_view() =~= Seq::<Seq<char>>::empty());
        assert(fresh_befores.deep_view() =~= Seq::<Seq<char>>::empty());
    }
    let (hstep, _hb, ha, hpos) = step_task(
        getter,
        ws,
        files,
        &hooks[i],
        doc,
        dir,
        &no_args,
        fresh_befores,
        marked,
        statuses,
        pos,
        fuel - 1,
    );
    let hok = match &hstep {
        RunStep::Done(st) => *st == 0,
        _ => false,
    };
    if hok {
        step_afters(getter, ws, files, hooks, i + 1, doc, dir, ha, statuses, hpos, fuel)
    } else {
        (hstep, ha, hpos)
    }
}

/// Fan-out over the selected members; the executable mirror of
/// `spec_run_members`.
fn step_members(
    getter: &DorsfileGetter,
    ws: &Workspace,
    files: &ConfigFiles,
    task_name: &String,
    members: &Vec<(String, String)>,
    i: usize,
    args: &Vec<String>,
    statuses: &Vec<i32>,
    pos: usize,
    fuel: u64,
    gb: Ghost<Seq<Seq<char>>>,
    ga: Ghost<Seq<Seq<char>>>,
) -> (r: (RunStep, usize))
    requires
        ctx_wf(*getter, *ws),
        pos <= statuses@.len(),
        i <= members@.len(),
        fuel >= 1,
    ensures
        ({
            let s = spec_run_members(
                CtxV::of(*getter, *ws, *files),
                task_name@,
                members.deep_view(),
                i as int,
                args.deep_view(),
                gb@,
                ga@,
                statuses@,
                pos as int,
                fuel as int,
            );
            &&& r.0@ == s.step
            &&& r.1 == s.pos
            &&& s.befores == gb@
            &&& s.afters == ga@
            &&& pos <= r.1 <= statuses@.len()
        }),
    decreases statuses@.len() - pos, fuel, 1int, members@.len() - i,
{
    if i >= members.len() {
        return (RunStep::Done(0), pos);
    }
    proof {
        assert(members.deep_view()[i as int] == (members@[i as int].0@, members@[i as int].1@));
    }
    let path = &members[i].1;
    let text = file_text(files, path);
    let mdoc = match getter.get(path, text) {
        Ok(d) => d,
        Err(e) => {
            return (RunStep::Failed(e), pos);
        },
    };
    let fresh_b: Vec<String> = Vec::new();
    let fresh_a: Vec<String> = Vec::new();
    proof {
        assert(fresh_b.deep_view() =~= Seq::<Seq<char>>::empty());
        assert(fresh_a.deep_view() =~= Seq::<Seq<char>>::empty());
    }
    let (mstep, _b, _a, mpos) = step_task(
        getter,
        ws,
        files,
        task_name,
        &mdoc,
        path,
        args,
        fresh_b,
        fresh_a,
        statuses,
        pos,
        fuel - 1,
    );
    let mok = match &mstep {
        RunStep::Done(st) => *st == 0,
        _ => false,
    };
    if mok {
        step_members(
            getter,
            ws,
            files,
            task_name,
            members,
            i + 1,
            args,
            statuses,
            mpos,
            fuel,
            gb,
            ga,
        )
    } else {
        (mstep, mpos)
    }
}

/// One whole run request against the statuses seen so far: resolve the
/// starting location's effective document, then run the task from it with
/// two fresh hook sets and the full recursion budget.
pub open spec fn spec_run_request(
    ws: WorkspaceV,
    files: Seq<(Seq<char>, Seq<char>)>,
    task: Seq<char>,
    dir: Seq<char>,
    args: Seq<Seq<char>>,
    statuses: Seq<i32>,
) -> StepV {
    match spec_new_getter(spec_file_text(files, ws.root)) {
        Err(e) => StepV::Failed(e),
        Ok(rd) => match spec_get(ws.root, rd, dir, spec_file_text(files, dir)) {
            Err(e) => StepV::Failed(e),
            Ok(doc) => spec_run_task(
                CtxV { root: ws.root, members: ws.members, files, root_doc: rd },
                task,
                doc,
                dir,
                args,
                Seq::empty(),
                Seq::empty(),
                statuses,
                0,
                RUN_FUEL as int,
            ).step,
        },
    }
}

/// One step of a run. `statuses` holds, in order, the exit statuses of the
/// commands this very call sequence asked for so far; the answer is the next
/// command to dispatch, or the run's result. The caller loops: dispatch,
/// push the status, ask again.
pub fn run_with_statuses(
    task: &String,
    dir: &String,
    args: &Vec<String>,
    workspace: &Workspace,
    files: &ConfigFiles,
    statuses: &Vec<i32>,
) -> (r: RunStep)
    ensures
        r@ == spec_run_request(workspace@, files@, task@, dir@, args.deep_view(), statuses@),
{
    let root_text = file_text(files, &workspace.root);
    let getter = match DorsfileGetter::new(&workspace.root, root_text) {
        Ok(g) => g,
        Err(e) => {
            return RunStep::Failed(e);
        },
    };
    let local_text = file_text(files, dir);
    let doc = match getter.get(dir, local_text) {
        Ok(d) => d,
        Err(e) => {
            return RunStep::Failed(e);
        },
    };
    let befores: Vec<String> = Vec::new();
    let afters: Vec<String> = Vec::new();
    proof {
        assert(befores.deep_view() =~= Seq::<Seq<char>>::empty());
        assert(afters.deep_view() =~= Seq::<Seq<char>>::empty());
    }
    let (st, _befores, _afters, _pos) = step_task(
        &getter,
        workspace,
        files,
        task,
        &doc,
        dir,
        args,
        befores,
        afters,
        statuses,
        0,
        RUN_FUEL,
    );
    st
}

/// The names an effective document binds, in its table order.
pub open spec fn spec_task_names(tasks: Seq<(Seq<char>, TaskV)>) -> Seq<Seq<char>> {
    Seq::new(tasks.len(), |i: int| tasks[i].0)
}

/// What listing the tasks of a location yields: the names its effective
/// document binds, or the error its resolution raises.
pub open spec fn spec_all_tasks(
    root: Seq<char>,
    files: Seq<(Seq<char>, Seq<char>)>,
    dir: Seq<char>,
) -> Result<Seq<Seq<char>>, DorsErrorV> {
    match spec_new_getter(spec_file_text(files, root)) {
        Err(e) => Err(e),
        Ok(rd) => match spec_get(root, rd, dir, spec_file_text(files, dir)) {
            Err(e) => Err(e),
            Ok(d) => Ok(spec_task_names(d.task)),
        },
    }
}

/// Every task name the given location can run: its effective document's
/// names, in table order.
#[verifier::loop_isolation(false)]
pub fn all_tasks(dir: &String, workspace_root: &String, files: &ConfigFiles) -> (r: Result<
    Vec<String>,
    DorsError,
>)
    ensures
        match r {
            Ok(v) => spec_all_tasks(workspace_root@, files@, dir@) == Ok::<_, DorsErrorV>(
                v.deep_view(),
            ),
            Err(e) => spec_all_tasks(workspace_root@, files@, dir@) == Err::<Seq<Seq<char>>, _>(
                e@,
            ),
        },
{
    let root_text = file_text(files, workspace_root);
    let getter = match DorsfileGetter::new(workspace_root, root_text) {
        Ok(g) => g,
        Err(e) => {
            return Err(e);
        },
    };
    let local_text = file_text(files, dir);
    let doc = match getter.get(dir, local_text) {
        Ok(d) => d,
        Err(e) => {
            return Err(e);
        },
    };
    let mut names: Vec<String> = Vec::new();
    let mut i: usize = 0;
    while i < doc.task.len()
        invariant
            i <= doc.task@.len(),
            names.deep_view() =~= spec_task_names(doc@.task).take(i as int),
        decreases doc.task@.len() - i,
    {
        names.push(doc.task[i].0.clone());
        proof {
            assert(names.deep_view() =~= spec_task_names(doc@.task).take(i + 1));
        }
        i += 1;
    }
    proof {
        assert(names.deep_view() =~= spec_task_names(doc@.task));
    }
    Ok(names)
}

/// One `export` line of the dispatch script.
pub open spec fn spec_export_line(k: Seq<char>, v: Seq<char>) -> Seq<char> {
    "export "@ + k + "="@ + v + "\n"@
}

/// The export lines of one environment layer, in order.
pub open spec fn spec_exports_layer(entries: Seq<(Seq<char>, Seq<char>)>) -> Seq<char>
    decreases entries.len(),
{
    if entries.len() == 0 {
        Seq::empty()
    } else {
        spec_export_line(entries[0].0, entries[0].1) + spec_exports_layer(entries.drop_first())
    }
}

/// The export lines of all layers, earlier layers first — so a later
/// layer's export of the same name wins when the shell runs the script.
pub open spec fn spec_exports(env: Seq<Seq<(Seq<char>, Seq<char>)>>) -> Seq<char>
    decreases env.len(),
{
    if env.len() == 0 {
        Seq::empty()
    } else {
        spec_exports_layer(env[0]) + spec_exports(env.drop_first())
    }
}

/// The full script the dispatcher runs: every environment layer exported in
/// order, then the command body, then a final newline.
pub open spec fn spec_script(env: Seq<Seq<(Seq<char>, Seq<char>)>>, command: Seq<char>) -> Seq<
    char,
> {
    spec_exports(env) + command + "\n"@
}

/// The export lines of one environment layer.
#[verifier::loop_isolation(false)]
fn exports_layer(entries: &Vec<(String, String)>) -> (r: String)
    ensures
        r@ == spec_exports_layer(entries.deep_view()),
{
    let mut acc = String::new();
    let mut i: usize = 0;
    proof {
        assert(entries.deep_view().skip(0) =~= entries.deep_view());
        assert(acc@ + spec_exports_layer(entries.deep_view()) =~= spec_exports_layer(
            entries.deep_view(),
        ));
    }
    while i < entries.len()
        invariant
            i <= entries@.len(),
            acc@ + spec_exports_layer(entries.deep_view().skip(i as int)) == spec_exports_layer(
                entries.deep_view(),
            ),
        decreases entries@.len() - i,
    {
        proof {
            assert(entries.deep_view().skip(i as int).drop_first() =~= entries.deep_view().skip(
                i + 1,
            ));
            assert(entries.deep_view().skip(i as int)[0] == (
                entries@[i as int].0@,
                entries@[i as int].1@,
            ));
        }
        let ghost pre = acc@;
        acc.append("export ");
        acc.append(entries[i].0.as_str());
        acc.append("=");
        acc.append(entries[i].1.as_str());
        acc.append("\n");
        proof {
            assert(acc@ =~= pre + spec_export_line(entries@[i as int].0@, entries@[i as int].1@));
            assert(pre + spec_export_line(entries@[i as int].0@, entries@[i as int].1@)
                + spec_exports_layer(entries.deep_view().skip(i + 1)) =~= pre + (spec_export_line(
                entries@[i as int].0@,
                entries@[i as int].1@,
            ) + spec_exports_layer(entries.deep_view().skip(i + 1))));
        }
        i += 1;
    }
    proof {
        assert(entries.deep_view().skip(entries@.len() as int) =~= Seq::<
            (Seq<char>, Seq<char>),
        >::empty());
        assert(acc@ + Seq::<char>::empty() =~= acc@);
    }
    acc
}

/// The script the dispatcher runs for a command: the environment layers as
/// `export` lines in order (later layers override earlier ones), then the
/// command body, then a final newline.
#[verifier::loop_isolation(false)]
pub fn build_script(env: &Vec<Vec<(String, String)>>, command: &String) -> (r: String)
    ensures
        r@ == spec_script(env.deep_view(), command@),
{
    let mut acc = String::new();
    let mut i: usize = 0;
    proof {
        assert(env.deep_view().skip(0) =~= env.deep_view());
        assert(acc@ + spec_exports(env.deep_view()) =~= spec_exports(env.deep_view()));
    }
    while i < env.len()
        invariant
            i <= env@.len(),
            acc@ + spec_exports(env.deep_view().skip(i as int)) == spec_exports(env.deep_view()),
        decreases env@.len() - i,
    {
        proof {
            assert(env.deep_view().skip(i as int).drop_first() =~= env.deep_view().skip(i + 1));
            assert(env.deep_view().skip(i as int)[0] == env[i as int].deep_view());
        }
        let ghost pre = acc@;
        let layer = exports_layer(&env[i]);
        acc.append(layer.as_str());
        proof {
            assert(acc@ =~= pre + spec_exports_layer(env[i as int].deep_view()));
            assert(pre + spec_exports_layer(env[i as int].deep_view()) + spec_exports(
                env.deep_view().skip(i + 1),
            ) =~= pre + (spec_exports_layer(env[i as int].deep_view()) + spec_exports(
                env.deep_view().skip(i + 1),
            )));
        }
        i += 1;
    }
    proof {
        assert(env.deep_view().skip(env@.len() as int) =~= Seq::<
            Seq<(Seq<char>, Seq<char>)>,
        >::empty());
        assert(acc@ + Seq::<char>::empty() =~= acc@);
    }
    acc.append(command.as_str());
    acc.append("\n");
    proof {
        assert(acc@ =~= spec_exports(env.deep_view()) + command@ + "\n"@);
    }
    acc
}

/// Relies on rand's `Alphanumeric` distribution through `SampleString`:
/// exactly `n` ASCII-alphanumeric characters, freshly drawn. Nothing more
/// can be promised of a random value.
#[verifier::external_body]
fn random_suffix(n: usize) -> (r: String)
    ensures
        r@.len() == n,
        forall|i: int|
            0 <= i < r@.len() ==> ('0' <= #[trigger] r@[i] <= '9' || 'A' <= r@[i] <= 'Z'
                || 'a' <= r@[i] <= 'z'),
{
    rand::distr::Alphanumeric.sample_string(&mut rand::rng(), n)
}

/// A fresh name for the dispatcher's transient script file, of the shape
/// `tmp-` + ten random alphanumeric characters + `.sh`, so that many
/// sequential dispatches in one directory do not collide. Every character
/// between the fixed prefix and suffix is ASCII alphanumeric, so the name
/// holds no separator or shell metacharacter.
pub fn temp_script_name() -> (r: String)
    ensures
        r@.len() == "tmp-"@.len() + 10 + ".sh"@.len(),
        r@.take("tmp-"@.len() as int) == "tmp-"@,
        r@.skip(r@.len() - ".sh"@.len()) == ".sh"@,
        forall|i: int|
            "tmp-"@.len() <= i < r@.len() - ".sh"@.len() ==> ('0' <= #[trigger] r@[i] <= '9'
                || 'A' <= r@[i] <= 'Z' || 'a' <= r@[i] <= 'z'),
{
    let suffix = random_suffix(10);
    let mut r = String::from_str("tmp-");
    r.append(suffix.as_str());
    r.append(".sh");
    proof {
        assert(r@ =~= "tmp-"@ + suffix@ + ".sh"@);
        assert(r@.take("tmp-"@.len() as int) =~= "tmp-"@);
        assert(r@.skip(r@.len() - ".sh"@.len()) =~= ".sh"@);
        assert forall|i: int| "tmp-"@.len() <= i < r@.len() - ".sh"@.len() implies ('0'
            <= #[trigger] r@[i] <= '9' || 'A' <= r@[i] <= 'Z' || 'a' <= r@[i] <= 'z') by {
            assert(r@[i] == suffix@[i - "tmp-"@.len()]);
        }
    }
    r
}

/// Short-circuit: when a task's pre-hook phase does not end in success, the
/// task's own command and its post-hooks do not run — the run's dispatch
/// trace is the pre-hook phase's trace, nothing more — and the run reports
/// exactly the failing phase's result.
pub proof fn lemma_short_circuit(
    ctx: CtxV,
    task_name: Seq<char>,
    doc: DorsfileV,
    dir: Seq<char>,
    args: Seq<Seq<char>>,
    befores: Seq<Seq<char>>,
    afters: Seq<Seq<char>>,
    statuses: Seq<i32>,
    pos: int,
    fuel: int,
)
    requires
        0 <= pos <= statuses.len(),
        0 < fuel,
        find_task(doc.task, task_name) matches Some(task) && task.before matches Some(hooks)
            && !phase_ok(
            spec_run_befores(ctx, hooks, 0, doc, dir, befores, statuses, pos, fuel).step,
        ),
    ensures
        ({
            let hooks = (find_task(doc.task, task_name)->Some_0).before->Some_0;
            let b = spec_run_befores(ctx, hooks, 0, doc, dir, befores, statuses, pos, fuel);
            let s = spec_run_task(
                ctx,
                task_name,
                doc,
                dir,
                args,
                befores,
                afters,
                statuses,
                pos,
                fuel,
            );
            &&& s.step == b.step
            &&& s.trace == b.trace
            &&& s.pos == clamp_pos(b.pos, pos, statuses.len() as int)
        }),
{
}

/// Short-circuit, after the command: when the task's own command (or its
/// fan-out) does not end in success, the post-hooks do not run — the trace
/// ends with the command phase's dispatches — and the run reports the
/// command phase's result.
pub proof fn lemma_failed_command_skips_posthooks(
    ctx: CtxV,
    task_name: Seq<char>,
    doc: DorsfileV,
    dir: Seq<char>,
    args: Seq<Seq<char>>,
    befores: Seq<Seq<char>>,
    afters: Seq<Seq<char>>,
    statuses: Seq<i32>,
    pos: int,
    fuel: int,
)
    requires
        0 <= pos <= statuses.len(),
        0 < fuel,
        find_task(doc.task, task_name) matches Some(task) && task.before is None,
        ({
            let task = find_task(doc.task, task_name)->Some_0;
            !phase_ok(
                spec_run_command(
                    ctx,
                    task_name,
                    task,
                    doc,
                    dir,
                    args,
                    befores,
                    afters,
                    statuses,
                    pos,
                    fuel,
                ).step,
            )
        }),
    ensures
        ({
            let task = find_task(doc.task, task_name)->Some_0;
            let c = spec_run_command(
                ctx,
                task_name,
                task,
                doc,
                dir,
                args,
                befores,
                afters,
                statuses,
                pos,
                fuel,
            );
            let s = spec_run_task(
                ctx,
                task_name,
                doc,
                dir,
                args,
                befores,
                afters,
                statuses,
                pos,
                fuel,
            );
            &&& s.step == c.step
            &&& s.trace =~= c.trace
            &&& s.pos == clamp_pos(c.pos, pos, statuses.len() as int)
        }),
{
    let task = find_task(doc.task, task_name)->Some_0;
    let c = spec_run_command(ctx, task_name, task, doc, dir, args, befores, afters, statuses, pos, fuel);
    let s = spec_run_task(ctx, task_name, doc, dir, args, befores, afters, statuses, pos, fuel);
    assert(s.trace =~= Seq::<DispatchV>::empty() + c.trace);
}

/// Fan-out filtering: the members a fan-out visits are exactly the members
/// that pass the task's filter, kept in discovery order. With an
/// `only-members` filter that is the members it names (by name or by
/// root-relative path) and nothing else; with a `skip-members` filter it is
/// every member but those; without a filter, every member.
pub proof fn lemma_fanout_filtering(
    members: Seq<(Seq<char>, Seq<char>)>,
    mods: Option<MemberModifiersV>,
    root: Seq<char>,
)
    ensures
        spec_selected_members(members, mods, root) == members.filter(
            |m: (Seq<char>, Seq<char>)| spec_member_selected(mods, m.0, m.1, root),
        ),
    decreases members.len(),
{
    let pred = |m: (Seq<char>, Seq<char>)| spec_member_selected(mods, m.0, m.1, root);
    reveal_with_fuel(Seq::<(Seq<char>, Seq<char>)>::filter, 2);
    if members.len() == 0 {
        assert(members.filter(pred) =~= Seq::empty());
    } else {
        let head = seq![members[0]];
        let tail = members.drop_first();
        lemma_fanout_filtering(tail, mods, root);
        assert(members =~= head + tail);
        Seq::filter_distributes_over_add(head, tail, pred);
        assert(head.drop_last() =~= Seq::<(Seq<char>, Seq<char>)>::empty());
        assert(head.last() == members[0]);
        if pred(members[0]) {
            assert(head.filter(pred) =~= seq![members[0]]);
            assert(spec_selected_members(members, mods, root) =~= head.filter(pred) + tail.filter(
                pred,
            ));
        } else {
            assert(head.filter(pred) =~= Seq::<(Seq<char>, Seq<char>)>::empty());
            assert(spec_selected_members(members, mods, root) =~= head.filter(pred) + tail.filter(
                pred,
            ));
        }
        assert(spec_selected_members(members, mods, root) =~= members.filter(pred));
    }
}

/// A task with no hooks whose location is the queried one runs as a single
/// dispatch of its command, consuming the one status waiting for it.
pub proof fn lemma_run_plain_task(
    ctx: CtxV,
    name: Seq<char>,
    doc: DorsfileV,
    dir: Seq<char>,
    args: Seq<Seq<char>>,
    befores: Seq<Seq<char>>,
    afters: Seq<Seq<char>>,
    statuses: Seq<i32>,
    pos: int,
    fuel: int,
)
    requires
        0 <= pos < statuses.len(),
        0 < fuel,
        find_task(doc.task, name) matches Some(t) && t.before is None && t.after is None
            && t.run_from is Here,
    ensures
        ({
            let t = find_task(doc.task, name)->Some_0;
            let s = spec_run_task(ctx, name, doc, dir, args, befores, afters, statuses, pos, fuel);
            &&& s.step == StepV::Done(statuses[pos])
            &&& s.pos == pos + 1
            &&& s.befores == befores
            &&& s.afters == afters
            &&& s.trace =~= seq![
                DispatchV {
                    task: name,
                    command: t.command,
                    workdir: dir,
                    env: doc.env,
                    args,
                },
            ]
        }),
{
    let t = find_task(doc.task, name)->Some_0;
    let d = DispatchV { task: name, command: t.command, workdir: dir, env: doc.env, args };
    let cres = spec_run_command(
        ctx,
        name,
        t,
        doc,
        dir,
        args,
        befores,
        afters,
        statuses,
        pos,
        fuel,
    );
    assert(cres == spec_dispatch_one(
        name,
        t.command,
        dir,
        doc.env,
        args,
        befores,
        afters,
        statuses,
        pos,
    ));
    assert(cres.step == StepV::Done(statuses[pos]) && cres.pos == pos + 1 && cres.trace =~= seq![
        d,
    ]);
    let s = spec_run_task(ctx, name, doc, dir, args, befores, afters, statuses, pos, fuel);
    if statuses[pos] == 0 {
        assert(s.trace =~= Seq::<DispatchV>::empty() + cres.trace + Seq::<DispatchV>::empty());
        assert(s.trace =~= seq![d]);
    } else {
        assert(s.trace =~= Seq::<DispatchV>::empty() + cres.trace);
        assert(s.trace =~= seq![d]);
    }
}

/// Hook deduplication, with the order pinned: when tasks `a` and `b` both
/// name `c` as their only pre-hook and a run invokes a task whose pre-hooks
/// are `a` then `b`, the shared before-set makes `c`'s command run exactly
/// once — the whole run dispatches `c`, `a`, `b`, then the task itself, in
/// that order. (`lemma_hook_dedup_general` below frees the hook lists to
/// carry anything and keeps the exactly-once count.)
pub proof fn lemma_hook_dedup(
    ctx: CtxV,
    doc: DorsfileV,
    t_name: Seq<char>,
    a_name: Seq<char>,
    b_name: Seq<char>,
    c_name: Seq<char>,
    dir: Seq<char>,
    args: Seq<Seq<char>>,
    statuses: Seq<i32>,
    fuel: int,
)
    requires
        t_name != a_name && t_name != b_name && t_name != c_name,
        a_name != b_name && a_name != c_name && b_name != c_name,
        statuses.len() >= 4,
        forall|i: int| 0 <= i < 4 ==> statuses[i] == 0,
        fuel >= 3,
        find_task(doc.task, t_name) matches Some(tt) && tt.before == Some(
            seq![a_name, b_name],
        ) && tt.after is None && tt.run_from is Here,
        find_task(doc.task, a_name) matches Some(ta) && ta.before == Some(seq![c_name])
            && ta.after is None && ta.run_from is Here,
        find_task(doc.task, b_name) matches Some(tb) && tb.before == Some(seq![c_name])
            && tb.after is None && tb.run_from is Here,
        find_task(doc.task, c_name) matches Some(tc) && tc.before is None && tc.after is None
            && tc.run_from is Here,
    ensures
        ({
            let s = spec_run_task(
                ctx,
                t_name,
                doc,
                dir,
                args,
                Seq::empty(),
                Seq::empty(),
                statuses,
                0,
                fuel,
            );
            &&& s.step == StepV::Done(0)
            &&& s.trace.len() == 4
            &&& s.trace[0].task == c_name
            &&& s.trace[1].task == a_name
            &&& s.trace[2].task == b_name
            &&& s.trace[3].task == t_name
            &&& forall|i: int|
                0 <= i < s.trace.len() && (#[trigger] s.trace[i]).task == c_name ==> i == 0
        }),
{
    let tt = find_task(doc.task, t_name)->Some_0;
    let ta = find_task(doc.task, a_name)->Some_0;
    let tb = find_task(doc.task, b_name)->Some_0;
    let tc = find_task(doc.task, c_name)->Some_0;
    let len = statuses.len() as int;
    let empty_set = Seq::<Seq<char>>::empty();
    let no_args = Seq::<Seq<char>>::empty();
    let hooks_t = seq![a_name, b_name];
    let hooks_c = seq![c_name];

    let set_a = empty_set.push(a_name);
    assert(set_a =~= seq![a_name]);
    let set_ac = set_a.push(c_name);
    assert(set_ac =~= seq![a_name, c_name]);
    let set_acb = set_ac.push(b_name);
    assert(set_acb =~= seq![a_name, c_name, b_name]);

    // No hook name sits in a set that does not list it.
    assert(!seq_has_string(empty_set, a_name));
    assert(!seq_has_string(set_a, c_name)) by {
        if seq_has_string(set_a, c_name) {
            let i = choose|i: int| 0 <= i < set_a.len() && set_a[i] == c_name;
            assert(false);
        }
    }
    assert(!seq_has_string(set_ac, b_name)) by {
        if seq_has_string(set_ac, b_name) {
            let i = choose|i: int| 0 <= i < set_ac.len() && set_ac[i] == b_name;
            assert(false);
        }
    }
    assert(seq_has_string(set_acb, c_name)) by {
        assert(set_acb[1] == c_name);
    }

    // c's run, inside a's pre-hook phase.
    let c_run = spec_run_task(ctx, c_name, doc, dir, no_args, set_ac, empty_set, statuses, 0, fuel - 2);
    lemma_run_plain_task(ctx, c_name, doc, dir, no_args, set_ac, empty_set, statuses, 0, fuel - 2);
    assert(c_run.step == StepV::Done(0) && c_run.pos == 1 && c_run.befores == set_ac);
    assert(c_run.trace.len() == 1 && c_run.trace[0].task == c_name);

    // a's pre-hook phase: runs c, then is done.
    let a_befores = spec_run_befores(ctx, hooks_c, 0, doc, dir, set_a, statuses, 0, fuel - 1);
    assert(clamp_pos(c_run.pos, 0, len) == 1);
    let a_befores_rest = spec_run_befores(ctx, hooks_c, 1, doc, dir, set_ac, statuses, 1, fuel - 1);
    assert(a_befores_rest.step == StepV::Done(0) && a_befores_rest.pos == 1
        && a_befores_rest.befores == set_ac && a_befores_rest.trace =~= Seq::<DispatchV>::empty());
    assert(a_befores.step == StepV::Done(0) && a_befores.pos == 1 && a_befores.befores == set_ac);
    assert(a_befores.trace =~= c_run.trace + Seq::<DispatchV>::empty());
    assert(a_befores.trace.len() == 1 && a_befores.trace[0].task == c_name);

    // a's own command.
    let a_cmd = spec_run_command(ctx, a_name, ta, doc, dir, no_args, set_ac, empty_set, statuses, 1, fuel - 1);
    assert(a_cmd == spec_dispatch_one(
        a_name,
        ta.command,
        dir,
        doc.env,
        no_args,
        set_ac,
        empty_set,
        statuses,
        1,
    ));
    assert(a_cmd.step == StepV::Done(0) && a_cmd.pos == 2);
    assert(a_cmd.trace.len() == 1 && a_cmd.trace[0].task == a_name);

    // a's whole run.
    let a_run = spec_run_task(ctx, a_name, doc, dir, no_args, set_a, empty_set, statuses, 0, fuel - 1);
    assert(clamp_pos(a_befores.pos, 0, len) == 1);
    assert(clamp_pos(a_cmd.pos, 1, len) == 2);
    assert(a_run.step == StepV::Done(0) && a_run.pos == 2 && a_run.befores == set_ac);
    assert(a_run.trace =~= a_befores.trace + a_cmd.trace + Seq::<DispatchV>::empty());
    assert(a_run.trace.len() == 2 && a_run.trace[0].task == c_name && a_run.trace[1].task
        == a_name);

    // b's pre-hook phase: c is already in the shared set, so nothing runs.
    let b_befores = spec_run_befores(ctx, hooks_c, 0, doc, dir, set_acb, statuses, 2, fuel - 1);
    let b_befores_rest = spec_run_befores(ctx, hooks_c, 1, doc, dir, set_acb, statuses, 2, fuel - 1);
    assert(b_befores_rest.step == StepV::Done(0) && b_befores_rest.pos == 2
        && b_befores_rest.befores == set_acb && b_befores_rest.trace =~= Seq::<DispatchV>::empty());
    assert(b_befores.step == StepV::Done(0) && b_befores.pos == 2 && b_befores.befores == set_acb
        && b_befores.trace =~= Seq::<DispatchV>::empty());

    // b's own command, then b's whole run.
    let b_cmd = spec_run_command(ctx, b_name, tb, doc, dir, no_args, set_acb, empty_set, statuses, 2, fuel - 1);
    assert(b_cmd == spec_dispatch_one(
        b_name,
        tb.command,
        dir,
        doc.env,
        no_args,
        set_acb,
        empty_set,
        statuses,
        2,
    ));
    assert(b_cmd.step == StepV::Done(0) && b_cmd.pos == 3);
    assert(b_cmd.trace.len() == 1 && b_cmd.trace[0].task == b_name);
    let b_run = spec_run_task(ctx, b_name, doc, dir, no_args, set_acb, empty_set, statuses, 2, fuel - 1);
    assert(clamp_pos(b_befores.pos, 2, len) == 2);
    assert(clamp_pos(b_cmd.pos, 2, len) == 3);
    assert(b_run.step == StepV::Done(0) && b_run.pos == 3 && b_run.befores == set_acb);
    assert(b_run.trace =~= b_befores.trace + b_cmd.trace + Seq::<DispatchV>::empty());
    assert(b_run.trace.len() == 1 && b_run.trace[0].task == b_name);

    // t's pre-hook phase: a runs, then b.
    let t_befores = spec_run_befores(ctx, hooks_t, 0, doc, dir, empty_set, statuses, 0, fuel);
    let t_befores_1 = spec_run_befores(ctx, hooks_t, 1, doc, dir, set_ac, statuses, 2, fuel);
    let t_befores_2 = spec_run_befores(ctx, hooks_t, 2, doc, dir, set_acb, statuses, 3, fuel);
    assert(t_befores_2.step == StepV::Done(0) && t_befores_2.pos == 3 && t_befores_2.befores
        == set_acb && t_befores_2.trace =~= Seq::<DispatchV>::empty());
    assert(set_ac.push(hooks_t[1]) == set_acb);
    assert(clamp_pos(b_run.pos, 2, len) == 3);
    assert(t_befores_1.step == StepV::Done(0) && t_befores_1.pos == 3 && t_befores_1.befores
        == set_acb);
    assert(t_befores_1.trace =~= b_run.trace + t_befores_2.trace);
    assert(t_befores_1.trace.len() == 1 && t_befores_1.trace[0].task == b_name);
    assert(empty_set.push(hooks_t[0]) == set_a);
    assert(clamp_pos(a_run.pos, 0, len) == 2);
    assert(t_befores.step == StepV::Done(0) && t_befores.pos == 3 && t_befores.befores == set_acb);
    assert(t_befores.trace =~= a_run.trace + t_befores_1.trace);
    assert(t_befores.trace.len() == 3 && t_befores.trace[0].task == c_name
        && t_befores.trace[1].task == a_name && t_befores.trace[2].task == b_name);

    // t's own command, then the whole run.
    let t_cmd = spec_run_command(ctx, t_name, tt, doc, dir, args, set_acb, empty_set, statuses, 3, fuel);
    assert(t_cmd == spec_dispatch_one(
        t_name,
        tt.command,
        dir,
        doc.env,
        args,
        set_acb,
        empty_set,
        statuses,
        3,
    ));
    assert(t_cmd.step == StepV::Done(0) && t_cmd.pos == 4);
    assert(t_cmd.trace.len() == 1 && t_cmd.trace[0].task == t_name);
    let s = spec_run_task(ctx, t_name, doc, dir, args, empty_set, empty_set, statuses, 0, fuel);
    assert(clamp_pos(t_befores.pos, 0, len) == 3);
    assert(clamp_pos(t_cmd.pos, 3, len) == 4);
    assert(s.step == StepV::Done(0));
    assert(s.trace =~= t_befores.trace + t_cmd.trace + Seq::<DispatchV>::empty());
    assert(s.trace.len() == 4 && s.trace[0].task == c_name && s.trace[1].task == a_name
        && s.trace[2].task == b_name && s.trace[3].task == t_name);
}

/// How many of the trace's dispatches belong to the named task.
pub open spec fn count_task(trace: Seq<DispatchV>, name: Seq<char>) -> int
    decreases trace.len(),
{
    if trace.len() == 0 {
        0
    } else {
        (if trace[0].task == name {
            1int
        } else {
            0
        }) + count_task(trace.drop_first(), name)
    }
}

/// Dispatch counts add up over concatenated traces.
pub proof fn lemma_count_concat(a: Seq<DispatchV>, b: Seq<DispatchV>, name: Seq<char>)
    ensures
        count_task(a + b, name) == count_task(a, name) + count_task(b, name),
    decreases a.len(),
{
    if a.len() == 0 {
        assert(a + b =~= b);
    } else {
        assert((a + b)[0] == a[0]);
        assert((a + b).drop_first() =~= a.drop_first() + b);
        lemma_count_concat(a.drop_first(), b, name);
    }
}

/// Pushing one name changes membership only for that name.
pub proof fn lemma_has_push(set: Seq<Seq<char>>, x: Seq<char>, n: Seq<char>)
    ensures
        seq_has_string(set.push(x), n) <==> (seq_has_string(set, n) || x == n),
{
    if seq_has_string(set, n) {
        let i = choose|i: int| 0 <= i < set.len() && set[i] == n;
        assert(set.push(x)[i] == n);
    }
    if x == n {
        assert(set.push(x)[set.len() as int] == n);
    }
    if seq_has_string(set.push(x), n) {
        let i = choose|i: int| 0 <= i < set.push(x).len() && set.push(x)[i] == n;
        if i < set.len() {
            assert(set[i] == n);
        }
    }
}

/// The shared before-set only grows across one task invocation: a name in it
/// on entry is still in it when the invocation returns.
pub proof fn lemma_before_set_grows_task(
    ctx: CtxV,
    task_name: Seq<char>,
    doc: DorsfileV,
    dir: Seq<char>,
    args: Seq<Seq<char>>,
    befores: Seq<Seq<char>>,
    afters: Seq<Seq<char>>,
    statuses: Seq<i32>,
    pos: int,
    fuel: int,
    n: Seq<char>,
)
    requires
        0 <= pos <= statuses.len(),
        0 <= fuel,
        seq_has_string(befores, n),
    ensures
        seq_has_string(
            spec_run_task(ctx, task_name, doc, dir, args, befores, afters, statuses, pos, fuel)
                .befores,
            n,
        ),
    decreases statuses.len() - pos, fuel, 3int, 0int,
{
    if fuel == 0 {
    } else {
        match find_task(doc.task, task_name) {
            None => {},
            Some(task) => {
                match task.before {
                    Some(hooks) => {
                        lemma_before_set_grows_hooks(
                            ctx,
                            hooks,
                            0,
                            doc,
                            dir,
                            befores,
                            statuses,
                            pos,
                            fuel,
                            n,
                        );
                    },
                    None => {},
                }
            },
        }
    }
}

/// The shared before-set only grows across a pre-hook phase.
pub proof fn lemma_before_set_grows_hooks(
    ctx: CtxV,
    hooks: Seq<Seq<char>>,
    i: int,
    doc: DorsfileV,
    dir: Seq<char>,
    befores: Seq<Seq<char>>,
    statuses: Seq<i32>,
    pos: int,
    fuel: int,
    n: Seq<char>,
)
    requires
        0 <= pos <= statuses.len(),
        0 < fuel,
        0 <= i <= hooks.len(),
        seq_has_string(befores, n),
    ensures
        seq_has_string(
            spec_run_befores(ctx, hooks, i, doc, dir, befores, statuses, pos, fuel).befores,
            n,
        ),
    decreases statuses.len() - pos, fuel, 1int, hooks.len() - i,
{
    if i >= hooks.len() {
    } else if seq_has_string(befores, hooks[i]) {
        lemma_before_set_grows_hooks(ctx, hooks, i + 1, doc, dir, befores, statuses, pos, fuel, n);
    } else {
        let marked = befores.push(hooks[i]);
        lemma_has_push(befores, hooks[i], n);
        let h = spec_run_task(
            ctx,
            hooks[i],
            doc,
            dir,
            Seq::empty(),
            marked,
            Seq::empty(),
            statuses,
            pos,
            fuel - 1,
        );
        lemma_before_set_grows_task(
            ctx,
            hooks[i],
            doc,
            dir,
            Seq::empty(),
            marked,
            Seq::empty(),
            statuses,
            pos,
            fuel - 1,
            n,
        );
        let p1 = clamp_pos(h.pos, pos, statuses.len() as int);
        if phase_ok(h.step) {
            lemma_before_set_grows_hooks(
                ctx,
                hooks,
                i + 1,
                doc,
                dir,
                h.befores,
                statuses,
                p1,
                fuel,
                n,
            );
        }
    }
}

/// After a pre-hook phase that ends in success, every hook it was asked to
/// process is in the shared before-set: it was either there already or
/// marked when it ran.
pub proof fn lemma_befores_mark_every_hook(
    ctx: CtxV,
    hooks: Seq<Seq<char>>,
    i: int,
    doc: DorsfileV,
    dir: Seq<char>,
    befores: Seq<Seq<char>>,
    statuses: Seq<i32>,
    pos: int,
    fuel: int,
    j: int,
)
    requires
        0 <= pos <= statuses.len(),
        0 < fuel,
        0 <= i <= j < hooks.len(),
        phase_ok(spec_run_befores(ctx, hooks, i, doc, dir, befores, statuses, pos, fuel).step),
    ensures
        seq_has_string(
            spec_run_befores(ctx, hooks, i, doc, dir, befores, statuses, pos, fuel).befores,
            hooks[j],
        ),
    decreases statuses.len() - pos, fuel, 1int, hooks.len() - i,
{
    if seq_has_string(befores, hooks[i]) {
        if j == i {
            lemma_before_set_grows_hooks(
                ctx,
                hooks,
                i + 1,
                doc,
                dir,
                befores,
                statuses,
                pos,
                fuel,
                hooks[i],
            );
        } else {
            lemma_befores_mark_every_hook(
                ctx,
                hooks,
                i + 1,
                doc,
                dir,
                befores,
                statuses,
                pos,
                fuel,
                j,
            );
        }
    } else {
        let marked = befores.push(hooks[i]);
        let h = spec_run_task(
            ctx,
            hooks[i],
            doc,
            dir,
            Seq::empty(),
            marked,
            Seq::empty(),
            statuses,
            pos,
            fuel - 1,
        );
        let p1 = clamp_pos(h.pos, pos, statuses.len() as int);
        assert(phase_ok(h.step));
        if j == i {
            assert(seq_has_string(marked, hooks[i])) by {
                lemma_has_push(befores, hooks[i], hooks[i]);
            }
            lemma_before_set_grows_task(
                ctx,
                hooks[i],
                doc,
                dir,
                Seq::empty(),
                marked,
                Seq::empty(),
                statuses,
                pos,
                fuel - 1,
                hooks[i],
            );
            lemma_before_set_grows_hooks(
                ctx,
                hooks,
                i + 1,
                doc,
                dir,
                h.befores,
                statuses,
                p1,
                fuel,
                hooks[i],
            );
        } else {
            lemma_befores_mark_every_hook(
                ctx,
                hooks,
                i + 1,
                doc,
                dir,
                h.befores,
                statuses,
                p1,
                fuel,
                j,
            );
        }
    }
}

/// Hooks are this document's only channel for running other tasks: no task
/// carries post-hooks and none fans out. Under this shape the shared
/// before-set makes every before-hook fire at most once per run, whatever
/// lists name it; post-hooks and fan-out would re-open the channel with
/// fresh sets, as the original semantics demand.
pub open spec fn hooks_before_only(doc: DorsfileV) -> bool {
    forall|n: Seq<char>|
        #[trigger] find_task(doc.task, n) matches Some(t) ==> t.after is None && !(t.run_from
            is Members)
}

/// In a document whose only hook channel is pre-hooks, one task invocation
/// dispatches the task named `c` exactly as often as `c` newly enters the
/// shared before-set: once when the invocation marks and runs it, never when
/// it was already marked. (`c` is not the invoked task itself.)
pub proof fn lemma_dedup_count_task(
    ctx: CtxV,
    task_name: Seq<char>,
    doc: DorsfileV,
    dir: Seq<char>,
    args: Seq<Seq<char>>,
    befores: Seq<Seq<char>>,
    afters: Seq<Seq<char>>,
    statuses: Seq<i32>,
    pos: int,
    fuel: int,
    c: Seq<char>,
)
    requires
        0 <= pos <= statuses.len(),
        0 <= fuel,
        hooks_before_only(doc),
        task_name != c,
        phase_ok(
            spec_run_task(ctx, task_name, doc, dir, args, befores, afters, statuses, pos, fuel)
                .step,
        ),
    ensures
        ({
            let s = spec_run_task(
                ctx,
                task_name,
                doc,
                dir,
                args,
                befores,
                afters,
                statuses,
                pos,
                fuel,
            );
            count_task(s.trace, c) == if seq_has_string(s.befores, c) && !seq_has_string(
                befores,
                c,
            ) {
                1int
            } else {
                0
            }
        }),
    decreases statuses.len() - pos, fuel, 3int, 0int,
{
    let s = spec_run_task(ctx, task_name, doc, dir, args, befores, afters, statuses, pos, fuel);
    if fuel == 0 {
        assert(s.step is Aborted);
    } else {
        match find_task(doc.task, task_name) {
            None => {
                assert(s.step is Failed);
            },
            Some(task) => {
                assert(task.after is None && !(task.run_from is Members));
                let bres = match task.before {
                    Some(hooks) => spec_run_befores(
                        ctx,
                        hooks,
                        0,
                        doc,
                        dir,
                        befores,
                        statuses,
                        pos,
                        fuel,
                    ),
                    None => RunOutV {
                        step: StepV::Done(0),
                        pos,
                        befores,
                        afters,
                        trace: Seq::empty(),
                    },
                };
                if !phase_ok(bres.step) {
                    assert(s.step == bres.step);
                    assert(false);
                }
                match task.before {
                    Some(hooks) => {
                        lemma_dedup_count_befores(
                            ctx,
                            hooks,
                            0,
                            doc,
                            dir,
                            befores,
                            statuses,
                            pos,
                            fuel,
                            c,
                        );
                    },
                    None => {},
                }
                let p1 = clamp_pos(bres.pos, pos, statuses.len() as int);
                let cres = spec_run_command(
                    ctx,
                    task_name,
                    task,
                    doc,
                    dir,
                    args,
                    bres.befores,
                    afters,
                    statuses,
                    p1,
                    fuel,
                );
                if !phase_ok(cres.step) {
                    assert(s.step == cres.step);
                    assert(false);
                }
                assert(cres.trace.len() == 1 && cres.trace[0].task == task_name);
                assert(count_task(cres.trace, c) == 0) by {
                    assert(cres.trace.drop_first() =~= Seq::<DispatchV>::empty());
                    assert(count_task(cres.trace.drop_first(), c) == 0);
                }
                assert(s.trace =~= bres.trace + cres.trace + Seq::<DispatchV>::empty());
                lemma_count_concat(bres.trace + cres.trace, Seq::empty(), c);
                lemma_count_concat(bres.trace, cres.trace, c);
                assert(s.befores == bres.befores);
            },
        }
    }
}

/// In the same shape, invoking `c` itself while `c` is already marked in the
/// shared before-set dispatches `c` exactly once: its own command, and
/// nothing from its hooks.
pub proof fn lemma_dedup_count_task_self(
    ctx: CtxV,
    doc: DorsfileV,
    dir: Seq<char>,
    args: Seq<Seq<char>>,
    befores: Seq<Seq<char>>,
    afters: Seq<Seq<char>>,
    statuses: Seq<i32>,
    pos: int,
    fuel: int,
    c: Seq<char>,
)
    requires
        0 <= pos <= statuses.len(),
        0 <= fuel,
        hooks_before_only(doc),
        seq_has_string(befores, c),
        phase_ok(spec_run_task(ctx, c, doc, dir, args, befores, afters, statuses, pos, fuel).step),
    ensures
        count_task(
            spec_run_task(ctx, c, doc, dir, args, befores, afters, statuses, pos, fuel).trace,
            c,
        ) == 1,
    decreases statuses.len() - pos, fuel, 3int, 1int,
{
    let s = spec_run_task(ctx, c, doc, dir, args, befores, afters, statuses, pos, fuel);
    if fuel == 0 {
        assert(s.step is Aborted);
    } else {
        match find_task(doc.task, c) {
            None => {
                assert(s.step is Failed);
            },
            Some(task) => {
                assert(task.after is None && !(task.run_from is Members));
                let bres = match task.before {
                    Some(hooks) => spec_run_befores(
                        ctx,
                        hooks,
                        0,
                        doc,
                        dir,
                        befores,
                        statuses,
                        pos,
                        fuel,
                    ),
                    None => RunOutV {
                        step: StepV::Done(0),
                        pos,
                        befores,
                        afters,
                        trace: Seq::empty(),
                    },
                };
                if !phase_ok(bres.step) {
                    assert(s.step == bres.step);
                    assert(false);
                }
                match task.before {
                    Some(hooks) => {
                        lemma_dedup_count_befores(
                            ctx,
                            hooks,
                            0,
                            doc,
                            dir,
                            befores,
                            statuses,
                            pos,
                            fuel,
                            c,
                        );
                    },
                    None => {},
                }
                assert(count_task(bres.trace, c) == 0);
                let p1 = clamp_pos(bres.pos, pos, statuses.len() as int);
                let cres = spec_run_command(
                    ctx,
                    c,
                    task,
                    doc,
                    dir,
                    args,
                    bres.befores,
                    afters,
                    statuses,
                    p1,
                    fuel,
                );
                if !phase_ok(cres.step) {
                    assert(s.step == cres.step);
                    assert(false);
                }
                assert(cres.trace.len() == 1 && cres.trace[0].task == c);
                assert(count_task(cres.trace, c) == 1) by {
                    assert(cres.trace.drop_first() =~= Seq::<DispatchV>::empty());
                    assert(count_task(cres.trace.drop_first(), c) == 0);
                }
                assert(s.trace =~= bres.trace + cres.trace + Seq::<DispatchV>::empty());
                lemma_count_concat(bres.trace + cres.trace, Seq::empty(), c);
                lemma_count_concat(bres.trace, cres.trace, c);
            },
        }
    }
}

/// In the same shape, a pre-hook phase dispatches `c` exactly as often as it
/// newly enters the shared before-set — at most once, however many hook
/// lists name it.
pub proof fn lemma_dedup_count_befores(
    ctx: CtxV,
    hooks: Seq<Seq<char>>,
    i: int,
    doc: DorsfileV,
    dir: Seq<char>,
    befores: Seq<Seq<char>>,
    statuses: Seq<i32>,
    pos: int,
    fuel: int,
    c: Seq<char>,
)
    requires
        0 <= pos <= statuses.len(),
        0 < fuel,
        0 <= i <= hooks.len(),
        hooks_before_only(doc),
        phase_ok(spec_run_befores(ctx, hooks, i, doc, dir, befores, statuses, pos, fuel).step),
    ensures
        ({
            let b = spec_run_befores(ctx, hooks, i, doc, dir, befores, statuses, pos, fuel);
            count_task(b.trace, c) == if seq_has_string(b.befores, c) && !seq_has_string(
                befores,
                c,
            ) {
                1int
            } else {
                0
            }
        }),
    decreases statuses.len() - pos, fuel, 1int, hooks.len() - i,
{
    let b = spec_run_befores(ctx, hooks, i, doc, dir, befores, statuses, pos, fuel);
    if i >= hooks.len() {
    } else if seq_has_string(befores, hooks[i]) {
        lemma_dedup_count_befores(ctx, hooks, i + 1, doc, dir, befores, statuses, pos, fuel, c);
    } else {
        let h = hooks[i];
        let marked = befores.push(h);
        let hr = spec_run_task(
            ctx,
            h,
            doc,
            dir,
            Seq::empty(),
            marked,
            Seq::empty(),
            statuses,
            pos,
            fuel - 1,
        );
        if !phase_ok(hr.step) {
            assert(b.step == hr.step);
            assert(false);
        }
        let p1 = clamp_pos(hr.pos, pos, statuses.len() as int);
        let rest = spec_run_befores(ctx, hooks, i + 1, doc, dir, hr.befores, statuses, p1, fuel);
        assert(b.step == rest.step && b.befores == rest.befores);
        assert(b.trace =~= hr.trace + rest.trace);
        lemma_count_concat(hr.trace, rest.trace, c);
        lemma_has_push(befores, h, c);
        if h == c {
            lemma_dedup_count_task_self(
                ctx,
                doc,
                dir,
                Seq::empty(),
                marked,
                Seq::empty(),
                statuses,
                pos,
                fuel - 1,
                c,
            );
            lemma_before_set_grows_task(
                ctx,
                h,
                doc,
                dir,
                Seq::empty(),
                marked,
                Seq::empty(),
                statuses,
                pos,
                fuel - 1,
                c,
            );
            lemma_dedup_count_befores(
                ctx,
                hooks,
                i + 1,
                doc,
                dir,
                hr.befores,
                statuses,
                p1,
                fuel,
                c,
            );
            lemma_before_set_grows_hooks(
                ctx,
                hooks,
                i + 1,
                doc,
                dir,
                hr.befores,
                statuses,
                p1,
                fuel,
                c,
            );
        } else {
            lemma_dedup_count_task(
                ctx,
                h,
                doc,
                dir,
                Seq::empty(),
                marked,
                Seq::empty(),
                statuses,
                pos,
                fuel - 1,
                c,
            );
            lemma_dedup_count_befores(
                ctx,
                hooks,
                i + 1,
                doc,
                dir,
                hr.befores,
                statuses,
                p1,
                fuel,
                c,
            );
            if seq_has_string(befores, c) {
                lemma_before_set_grows_task(
                    ctx,
                    h,
                    doc,
                    dir,
                    Seq::empty(),
                    marked,
                    Seq::empty(),
                    statuses,
                    pos,
                    fuel - 1,
                    c,
                );
            } else if seq_has_string(hr.befores, c) {
                lemma_before_set_grows_hooks(
                    ctx,
                    hooks,
                    i + 1,
                    doc,
                    dir,
                    hr.befores,
                    statuses,
                    p1,
                    fuel,
                    c,
                );
            }
        }
    }
}

/// Hook deduplication, in general: in a document whose only hook channel is
/// pre-hooks, when tasks `a` and `b` both list `c` among their pre-hooks and
/// a run that starts with fresh tracking sets invokes a task whose pre-hooks
/// are `a` then `b`, and every command succeeds, `c`'s command is dispatched
/// exactly once in the whole run — the shared before-set marks it the first
/// time and skips it ever after, whatever other hooks the lists carry.
pub proof fn lemma_hook_dedup_general(
    ctx: CtxV,
    doc: DorsfileV,
    t_name: Seq<char>,
    a_name: Seq<char>,
    b_name: Seq<char>,
    c_name: Seq<char>,
    dir: Seq<char>,
    args: Seq<Seq<char>>,
    statuses: Seq<i32>,
    fuel: int,
)
    requires
        0 <= fuel,
        hooks_before_only(doc),
        t_name != c_name,
        find_task(doc.task, t_name) matches Some(tt) && tt.before == Some(seq![a_name, b_name]),
        find_task(doc.task, a_name) matches Some(ta) && ta.before matches Some(la)
            && seq_has_string(la, c_name),
        find_task(doc.task, b_name) matches Some(tb) && tb.before matches Some(lb)
            && seq_has_string(lb, c_name),
        phase_ok(
            spec_run_task(
                ctx,
                t_name,
                doc,
                dir,
                args,
                Seq::empty(),
                Seq::empty(),
                statuses,
                0,
                fuel,
            ).step,
        ),
    ensures
        count_task(
            spec_run_task(
                ctx,
                t_name,
                doc,
                dir,
                args,
                Seq::empty(),
                Seq::empty(),
                statuses,
                0,
                fuel,
            ).trace,
            c_name,
        ) == 1,
{
    let empty_set = Seq::<Seq<char>>::empty();
    let len = statuses.len() as int;
    let s = spec_run_task(ctx, t_name, doc, dir, args, empty_set, empty_set, statuses, 0, fuel);
    if fuel == 0 {
        assert(s.step is Aborted);
    }
    let tt = find_task(doc.task, t_name)->Some_0;
    let hooks_t = seq![a_name, b_name];
    let bres = spec_run_befores(ctx, hooks_t, 0, doc, dir, empty_set, statuses, 0, fuel);
    if !phase_ok(bres.step) {
        assert(s.step == bres.step);
        assert(false);
    }

    // The general count law: the run dispatches `c` once exactly when `c`
    // newly enters the shared before-set.
    lemma_dedup_count_task(
        ctx,
        t_name,
        doc,
        dir,
        args,
        empty_set,
        empty_set,
        statuses,
        0,
        fuel,
        c_name,
    );
    assert(!seq_has_string(empty_set, c_name));
    assert(s.befores == bres.befores);

    // `c` does enter it: `a` runs as the first pre-hook, its own pre-hook
    // phase completes, and every hook that phase processes — `c` among
    // them — is marked in the set it hands back.
    assert(!seq_has_string(empty_set, a_name));
    let marked_a = empty_set.push(a_name);
    let a_run = spec_run_task(
        ctx,
        a_name,
        doc,
        dir,
        Seq::empty(),
        marked_a,
        Seq::empty(),
        statuses,
        0,
        fuel - 1,
    );
    if !phase_ok(a_run.step) {
        assert(bres.step == a_run.step);
        assert(false);
    }
    if fuel - 1 == 0 {
        assert(a_run.step is Aborted);
        assert(false);
    }
    let ta = find_task(doc.task, a_name)->Some_0;
    let la = ta.before->Some_0;
    let bres_a = spec_run_befores(ctx, la, 0, doc, dir, marked_a, statuses, 0, fuel - 1);
    if !phase_ok(bres_a.step) {
        assert(a_run.step == bres_a.step);
        assert(false);
    }
    let k = choose|k: int| 0 <= k < la.len() && la[k] == c_name;
    lemma_befores_mark_every_hook(ctx, la, 0, doc, dir, marked_a, statuses, 0, fuel - 1, k);
    assert(seq_has_string(bres_a.befores, c_name));
    assert(a_run.befores == bres_a.befores);

    // Membership survives to the end of `t`'s pre-hook phase.
    let p1 = clamp_pos(a_run.pos, 0, len);
    lemma_before_set_grows_hooks(
        ctx,
        hooks_t,
        1,
        doc,
        dir,
        a_run.befores,
        statuses,
        p1,
        fuel,
        c_name,
    );
    assert(seq_has_string(s.befores, c_name));
}

} // verus!
