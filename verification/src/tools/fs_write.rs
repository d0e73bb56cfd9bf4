//! The steps of a `write_file` call.
//!
//! The library decides each step; the caller performs it on the file system and
//! hands back what happened. No directory is created and no file is written
//! before the file system has reported that the real location of the directory,
//! or of its nearest existing ancestor, lies under the workspace root.

use vstd::prelude::*;

use crate::error::{prefixed, ToolError, ToolErrorModel};
use crate::json::{Json, JsonValue};
use crate::tools::fs::{
    lexical_target, map_io_error, parent_of, parent_path, within, write_arguments, write_report,
    EntryKind, Probe, ProbeModel, Resolved, WriteArgs, WriteFile,
};

verus! {

/// Where a `write_file` call stands between two steps.
#[derive(Debug)]
pub enum WriteState {
    /// The target was found by its text; what the file system says of it is awaited.
    Target { call: WriteArgs, candidate: String },
    /// The target is settled; what the file system says of its parent is awaited.
    Parent { call: WriteArgs, target: String, parent: String },
    /// The parent is missing and is to be created; what the file system says of
    /// one of its ancestors is awaited.
    Ancestor { call: WriteArgs, target: String, parent: String, ancestor: String },
    /// The creation of the parent is awaited.
    Created { call: WriteArgs, target: String, parent: String },
    /// What the file system says of the created parent is awaited.
    Recheck { call: WriteArgs, target: String, parent: String },
    /// The write is awaited.
    Written { call: WriteArgs, target: String },
    /// The call is over.
    Over,
}

/// What happened to the caller's last action.
#[derive(Debug)]
pub enum FsEvent {
    /// What the file system says of the probed path.
    Probed(Probe),
    /// The directories were created, or the file was written.
    Done,
    /// The creation or the write failed with this I/O message.
    Failed(String),
}

/// What the caller does next.
#[derive(Debug)]
pub enum FsAction {
    /// Probe this path and report it with [`FsEvent::Probed`].
    Probe(String),
    /// Create this directory and its missing parents.
    CreateDirs(String),
    /// Write the content (second) to the path (first).
    Write(String, String),
    /// The call is over with this answer.
    Finish(Result<String, ToolError>),
}

/// Model of a [`WriteState`]; a call is modelled by its arguments.
pub enum WriteStateModel {
    Target { call: (Seq<char>, Seq<char>, bool), candidate: Seq<char> },
    Parent { call: (Seq<char>, Seq<char>, bool), target: Seq<char>, parent: Seq<char> },
    Ancestor {
        call: (Seq<char>, Seq<char>, bool),
        target: Seq<char>,
        parent: Seq<char>,
        ancestor: Seq<char>,
    },
    Created { call: (Seq<char>, Seq<char>, bool), target: Seq<char>, parent: Seq<char> },
    Recheck { call: (Seq<char>, Seq<char>, bool), target: Seq<char>, parent: Seq<char> },
    Written { call: (Seq<char>, Seq<char>, bool), target: Seq<char> },
    Over,
}

/// Model of an [`FsEvent`].
pub enum FsEventModel {
    Probed(ProbeModel),
    Done,
    Failed(Seq<char>),
}

/// Model of an [`FsAction`].
pub enum FsActionModel {
    Probe(Seq<char>),
    CreateDirs(Seq<char>),
    Write(Seq<char>, Seq<char>),
    Finish(Result<Seq<char>, ToolErrorModel>),
}

impl View for WriteState {
    type V = WriteStateModel;

    open spec fn view(&self) -> WriteStateModel {
        match self {
            WriteState::Target { call, candidate } => WriteStateModel::Target {
                call: call@,
                candidate: candidate@,
            },
            WriteState::Parent { call, target, parent } => WriteStateModel::Parent {
                call: call@,
                target: target@,
                parent: parent@,
            },
            WriteState::Ancestor { call, target, parent, ancestor } => WriteStateModel::Ancestor {
                call: call@,
                target: target@,
                parent: parent@,
                ancestor: ancestor@,
            },
            WriteState::Created { call, target, parent } => WriteStateModel::Created {
                call: call@,
                target: target@,
                parent: parent@,
            },
            WriteState::Recheck { call, target, parent } => WriteStateModel::Recheck {
                call: call@,
                target: target@,
                parent: parent@,
            },
            WriteState::Written { call, target } => WriteStateModel::Written {
                call: call@,
                target: target@,
            },
            WriteState::Over => WriteStateModel::Over,
        }
    }
}

impl View for FsEvent {
    type V = FsEventModel;

    open spec fn view(&self) -> FsEventModel {
        match self {
            FsEvent::Probed(p) => FsEventModel::Probed(p@),
            FsEvent::Done => FsEventModel::Done,
            FsEvent::Failed(m) => FsEventModel::Failed(m@),
        }
    }
}

impl View for FsAction {
    type V = FsActionModel;

    open spec fn view(&self) -> FsActionModel {
        match self {
            FsAction::Probe(p) => FsActionModel::Probe(p@),
            FsAction::CreateDirs(p) => FsActionModel::CreateDirs(p@),
            FsAction::Write(p, c) => FsActionModel::Write(p@, c@),
            FsAction::Finish(r) => FsActionModel::Finish(
                match r {
                    Ok(s) => Ok(s@),
                    Err(e) => Err(e@),
                },
            ),
        }
    }
}

/// The call ends with the execution failure `m`.
pub open spec fn ends_failed(m: Seq<char>) -> (WriteStateModel, FsActionModel) {
    (WriteStateModel::Over, FsActionModel::Finish(Err(ToolErrorModel::ExecutionFailed(m))))
}

/// The call ends refused with `m`.
pub open spec fn ends_refused(m: Seq<char>) -> (WriteStateModel, FsActionModel) {
    (WriteStateModel::Over, FsActionModel::Finish(Err(ToolErrorModel::InvalidArgs(m))))
}

/// Whether a state awaits what the file system says of a path.
pub open spec fn awaits_probe(s: WriteStateModel) -> bool {
    ||| s is Target
    ||| s is Parent
    ||| s is Ancestor
    ||| s is Recheck
}

/// Whether `e` answers the action that led to `s`: a probe answers a probe, the
/// outcome of a creation or a write answers those; nothing follows the end.
pub open spec fn event_fits(s: WriteStateModel, e: FsEventModel) -> bool {
    &&& !(s is Over)
    &&& (awaits_probe(s) <==> e is Probed)
}

/// The first step of a call with arguments `args` in the workspace at `root`:
/// refuse bad arguments or a path that leaves the root, else probe the target.
pub open spec fn write_begin(root: Seq<char>, args: Json) -> (WriteStateModel, FsActionModel) {
    match write_arguments(args) {
        Err(m) => ends_refused(m),
        Ok(call) => match lexical_target(root, call.0) {
            Err(m) => ends_refused(m),
            Ok(t) => (WriteStateModel::Target { call, candidate: t }, FsActionModel::Probe(t)),
        },
    }
}

/// Once the target `path` (of kind `kind`, if it exists) is settled: refuse a
/// directory, else probe its parent (or write, when it has none).
pub open spec fn after_target(
    call: (Seq<char>, Seq<char>, bool),
    path: Seq<char>,
    kind: Option<EntryKind>,
) -> (WriteStateModel, FsActionModel) {
    if kind == Some(EntryKind::Dir) {
        ends_failed("is a directory: "@ + call.0)
    } else {
        match parent_path(path) {
            None => (
                WriteStateModel::Written { call, target: path },
                FsActionModel::Write(path, call.1),
            ),
            Some(p) => (
                WriteStateModel::Parent { call, target: path, parent: p },
                FsActionModel::Probe(p),
            ),
        }
    }
}

/// The parent is missing: probe the parent of `from`, or refuse when there is none.
pub open spec fn climb(
    call: (Seq<char>, Seq<char>, bool),
    target: Seq<char>,
    parent: Seq<char>,
    from: Seq<char>,
) -> (WriteStateModel, FsActionModel) {
    match parent_path(from) {
        None => ends_refused("path outside workspace"@),
        Some(a) => (
            WriteStateModel::Ancestor { call, target, parent, ancestor: a },
            FsActionModel::Probe(a),
        ),
    }
}

/// The step after event `e` in state `s`, in the workspace at `root`.
pub open spec fn write_next(root: Seq<char>, s: WriteStateModel, e: FsEventModel) -> (
    WriteStateModel,
    FsActionModel,
) {
    match s {
        WriteStateModel::Target { call, candidate } => match e {
            FsEventModel::Probed(ProbeModel::Failed(m)) => ends_failed(m),
            FsEventModel::Probed(ProbeModel::Missing) => after_target(call, candidate, None),
            FsEventModel::Probed(ProbeModel::Found { canonical, kind }) => if within(
                canonical,
                root,
            ) {
                after_target(call, canonical, Some(kind))
            } else {
                ends_refused("path outside workspace"@)
            },
            _ => (s, FsActionModel::Probe(candidate)),
        },
        WriteStateModel::Parent { call, target, parent } => match e {
            FsEventModel::Probed(ProbeModel::Failed(m)) => ends_failed(m),
            FsEventModel::Probed(ProbeModel::Missing) => if call.2 {
                climb(call, target, parent, parent)
            } else {
                ends_failed("parent directory does not exist: "@ + parent)
            },
            FsEventModel::Probed(ProbeModel::Found { canonical, .. }) => if !within(
                canonical,
                root,
            ) {
                ends_refused("path outside workspace"@)
            } else if call.2 {
                (
                    WriteStateModel::Created { call, target, parent },
                    FsActionModel::CreateDirs(parent),
                )
            } else {
                (WriteStateModel::Written { call, target }, FsActionModel::Write(target, call.1))
            },
            _ => (s, FsActionModel::Probe(parent)),
        },
        WriteStateModel::Ancestor { call, target, parent, ancestor } => match e {
            FsEventModel::Probed(ProbeModel::Failed(m)) => ends_failed(m),
            FsEventModel::Probed(ProbeModel::Missing) => climb(call, target, parent, ancestor),
            FsEventModel::Probed(ProbeModel::Found { canonical, .. }) => if within(
                canonical,
                root,
            ) {
                (
                    WriteStateModel::Created { call, target, parent },
                    FsActionModel::CreateDirs(parent),
                )
            } else {
                ends_refused("path outside workspace"@)
            },
            _ => (s, FsActionModel::Probe(ancestor)),
        },
        WriteStateModel::Created { call, target, parent } => match e {
            FsEventModel::Failed(m) => ends_failed(m),
            _ => (WriteStateModel::Recheck { call, target, parent }, FsActionModel::Probe(parent)),
        },
        WriteStateModel::Recheck { call, target, parent } => match e {
            FsEventModel::Probed(ProbeModel::Failed(m)) => ends_failed(m),
            FsEventModel::Probed(ProbeModel::Missing) => ends_failed(
                "parent directory does not exist: "@ + parent,
            ),
            FsEventModel::Probed(ProbeModel::Found { canonical, .. }) => if within(
                canonical,
                root,
            ) {
                (WriteStateModel::Written { call, target }, FsActionModel::Write(target, call.1))
            } else {
                ends_refused("path outside workspace"@)
            },
            _ => (s, FsActionModel::Probe(parent)),
        },
        WriteStateModel::Written { call, target } => match e {
            FsEventModel::Failed(m) => ends_failed(m),
            _ => (WriteStateModel::Over, FsActionModel::Finish(Ok(write_report(call.0, call.1)))),
        },
        WriteStateModel::Over => (s, FsActionModel::Finish(Err(ToolErrorModel::ExecutionFailed(Seq::empty())))),
    }
}

/// The ancestor `n` levels above `p`, if it has one.
pub open spec fn ancestor_at(p: Seq<char>, n: nat) -> Option<Seq<char>>
    decreases n,
{
    if n == 0 {
        Some(p)
    } else {
        match ancestor_at(p, (n - 1) as nat) {
            Some(q) => parent_path(q),
            None => None,
        }
    }
}

/// Whether `a` is the ancestor `n` levels above `p`.
pub open spec fn ancestor_is(p: Seq<char>, n: nat, a: Seq<char>) -> bool {
    ancestor_at(p, n) == Some(a)
}

/// What a state holds of its paths: the parent is the target's parent, and a
/// probed ancestor lies above the parent.
pub open spec fn write_state_wf(s: WriteStateModel) -> bool {
    match s {
        WriteStateModel::Parent { target, parent, .. } => parent_path(target) == Some(parent),
        WriteStateModel::Ancestor { target, parent, ancestor, .. } => {
            &&& parent_path(target) == Some(parent)
            &&& exists|n: nat| n > 0 && #[trigger] ancestor_is(parent, n, ancestor)
        },
        WriteStateModel::Created { target, parent, .. } => parent_path(target) == Some(parent),
        WriteStateModel::Recheck { target, parent, .. } => parent_path(target) == Some(parent),
        _ => true,
    }
}

/// The path a state awaits a probe of.
pub open spec fn probed_path(s: WriteStateModel) -> Seq<char> {
    match s {
        WriteStateModel::Target { candidate, .. } => candidate,
        WriteStateModel::Parent { parent, .. } => parent,
        WriteStateModel::Ancestor { ancestor, .. } => ancestor,
        WriteStateModel::Recheck { parent, .. } => parent,
        _ => Seq::empty(),
    }
}

/// Whether `e` reports that the real location of the probed path lies under `root`.
pub open spec fn reported_within(e: FsEventModel, root: Seq<char>) -> bool {
    e matches FsEventModel::Probed(ProbeModel::Found { canonical, .. }) && within(canonical, root)
}

/// Every state a call reaches holds what [`write_state_wf`] says: the first step
/// gives such a state, and each step keeps it.
pub proof fn lemma_write_state_wf(root: Seq<char>, args: Json, s: WriteStateModel, e: FsEventModel)
    requires
        write_state_wf(s),
        event_fits(s, e),
    ensures
        write_state_wf(write_begin(root, args).0),
        write_state_wf(write_next(root, s, e).0),
{
    let r = write_next(root, s, e);
    match s {
        WriteStateModel::Parent { target, parent, .. } => {
            assert(ancestor_at(parent, 0) == Some(parent));
            assert(ancestor_at(parent, 1) == parent_path(parent));
            if let Some(a) = parent_path(parent) {
                assert(ancestor_is(parent, 1, a));
            }
            if r.0 is Ancestor {
                assert(r.0->Ancestor_parent == parent);
                assert(r.0->Ancestor_target == target);
                assert(ancestor_is(parent, 1, r.0->Ancestor_ancestor));
            }
        },
        WriteStateModel::Ancestor { target, parent, ancestor, .. } => {
            let n = choose|n: nat| n > 0 && #[trigger] ancestor_is(parent, n, ancestor);
            assert(ancestor_at(parent, n + 1) == parent_path(ancestor));
            if let Some(a) = parent_path(ancestor) {
                assert(ancestor_is(parent, n + 1, a));
            }
            if r.0 is Ancestor {
                assert(r.0->Ancestor_parent == parent);
                assert(r.0->Ancestor_target == target);
                assert(ancestor_is(parent, n + 1, r.0->Ancestor_ancestor));
            }
        },
        _ => {},
    }
}

/// A call creates a directory only when the event just received reports that the
/// real location of that directory, or of one of its ancestors, lies under the
/// root; it writes a file only when the event just received reports that the
/// real location of the file's parent lies under the root, or when the file has
/// no parent at all.
pub proof fn lemma_write_acts_within(root: Seq<char>, s: WriteStateModel, e: FsEventModel)
    requires
        write_state_wf(s),
        event_fits(s, e),
    ensures
        write_next(root, s, e).1 is CreateDirs ==> {
            &&& reported_within(e, root)
            &&& exists|n: nat|
                #[trigger] ancestor_is(write_next(root, s, e).1->CreateDirs_0, n, probed_path(s))
        },
        write_next(root, s, e).1 matches FsActionModel::Write(p, _) ==> {
            ||| s is Target && parent_path(p) is None
            ||| reported_within(e, root) && parent_path(p) == Some(probed_path(s))
        },
{
    let r = write_next(root, s, e);
    match s {
        WriteStateModel::Parent { parent, .. } => {
            if r.1 is CreateDirs {
                assert(r.1->CreateDirs_0 == parent);
                assert(ancestor_at(parent, 0) == Some(parent));
                assert(ancestor_is(r.1->CreateDirs_0, 0, probed_path(s)));
            }
        },
        WriteStateModel::Ancestor { parent, ancestor, .. } => {
            if r.1 is CreateDirs {
                assert(r.1->CreateDirs_0 == parent);
                let n = choose|n: nat| n > 0 && #[trigger] ancestor_is(parent, n, ancestor);
                assert(ancestor_is(r.1->CreateDirs_0, n, probed_path(s)));
            }
        },
        _ => {},
    }
}

/// The call ends with `e`.
fn finish_err(e: ToolError) -> (r: (WriteState, FsAction))
    ensures
        r.0@ == WriteStateModel::Over,
        r.1@ == FsActionModel::Finish(Err(e@)),
{
    (WriteState::Over, FsAction::Finish(Err(e)))
}

/// The call is refused: the path leaves the workspace.
fn refuse_outside() -> (r: (WriteState, FsAction))
    ensures
        (r.0@, r.1@) == ends_refused("path outside workspace"@),
{
    finish_err(ToolError::InvalidArgs(String::from_str("path outside workspace")))
}

/// Probes the parent of `from`, or refuses when it has none.
fn climb_from(call: WriteArgs, target: String, parent: String, from: &str) -> (r: (
    WriteState,
    FsAction,
))
    ensures
        (r.0@, r.1@) == climb(call@, target@, parent@, from@),
{
    match parent_of(from) {
        None => refuse_outside(),
        Some(a) => {
            let q = a.clone();
            (WriteState::Ancestor { call, target, parent, ancestor: a }, FsAction::Probe(q))
        },
    }
}

/// Once the target is settled: refuse a directory, else probe its parent.
fn after_target_settled(call: WriteArgs, target: Resolved) -> (r: (WriteState, FsAction))
    ensures
        (r.0@, r.1@) == after_target(call@, target.path@, target.kind),
{
    if let Err(e) = WriteFile::check_target(call.path.as_str(), &target) {
        return finish_err(e);
    }
    match parent_of(target.path.as_str()) {
        None => {
            let path = target.path.clone();
            let content = call.content.clone();
            (WriteState::Written { call, target: target.path }, FsAction::Write(path, content))
        },
        Some(p) => {
            let q = p.clone();
            (WriteState::Parent { call, target: target.path, parent: p }, FsAction::Probe(q))
        },
    }
}

/// Writes the content to the target.
fn write_target(call: WriteArgs, target: String) -> (r: (WriteState, FsAction))
    ensures
        r.0@ == (WriteStateModel::Written { call: call@, target: target@ }),
        r.1@ == FsActionModel::Write(target@, call@.1),
{
    let path = target.clone();
    let content = call.content.clone();
    (WriteState::Written { call, target }, FsAction::Write(path, content))
}

/// Creates the parent.
fn create_parent(call: WriteArgs, target: String, parent: String) -> (r: (WriteState, FsAction))
    ensures
        r.0@ == (WriteStateModel::Created { call: call@, target: target@, parent: parent@ }),
        r.1@ == FsActionModel::CreateDirs(parent@),
{
    let q = parent.clone();
    (WriteState::Created { call, target, parent }, FsAction::CreateDirs(q))
}

impl WriteState {
    /// Whether the state awaits what the file system says of a path.
    pub fn awaits_probe(&self) -> (r: bool)
        ensures
            r == awaits_probe(self@),
    {
        match self {
            WriteState::Target { .. } => true,
            WriteState::Parent { .. } => true,
            WriteState::Ancestor { .. } => true,
            WriteState::Recheck { .. } => true,
            _ => false,
        }
    }
}

impl WriteFile {
    /// The first step of a call: its arguments are read and its path found by its
    /// text; then the target is probed.
    pub fn start_write(&self, args: &JsonValue) -> (r: (WriteState, FsAction))
        ensures
            (r.0@, r.1@) == write_begin(self@, args@),
    {
        let call = match WriteFile::parse_args(args) {
            Ok(c) => c,
            Err(e) => {
                return finish_err(e);
            },
        };
        match self.config().resolve_lexical(call.path.as_str()) {
            Err(e) => finish_err(e),
            Ok(candidate) => {
                let q = candidate.clone();
                (WriteState::Target { call, candidate }, FsAction::Probe(q))
            },
        }
    }

    /// The step after `event` in `state`: see [`write_next`].
    pub fn write_step(&self, state: WriteState, event: FsEvent) -> (r: (WriteState, FsAction))
        requires
            event_fits(state@, event@),
        ensures
            (r.0@, r.1@) == write_next(self@, state@, event@),
    {
        let config = self.config();
        match state {
            WriteState::Target { call, candidate } => match event {
                FsEvent::Probed(p) => match config.settle(candidate, p) {
                    Err(e) => finish_err(e),
                    Ok(t) => after_target_settled(call, t),
                },
                _ => vstd::pervasive::unreached(),
            },
            WriteState::Parent { call, target, parent } => match event {
                FsEvent::Probed(Probe::Failed(m)) => finish_err(map_io_error(m)),
                FsEvent::Probed(Probe::Missing) => match WriteFile::parent_plan(
                    parent.as_str(),
                    call.create_dirs,
                    false,
                ) {
                    Err(e) => finish_err(e),
                    Ok(_) => {
                        let from = parent.clone();
                        climb_from(call, target, parent, from.as_str())
                    },
                },
                FsEvent::Probed(Probe::Found { canonical, .. }) => {
                    if !config.contains(canonical.as_str()) {
                        refuse_outside()
                    } else {
                        match WriteFile::parent_plan(parent.as_str(), call.create_dirs, true) {
                            Ok(true) => create_parent(call, target, parent),
                            _ => write_target(call, target),
                        }
                    }
                },
                _ => vstd::pervasive::unreached(),
            },
            WriteState::Ancestor { call, target, parent, ancestor } => match event {
                FsEvent::Probed(Probe::Failed(m)) => finish_err(map_io_error(m)),
                FsEvent::Probed(Probe::Missing) => climb_from(call, target, parent, ancestor.as_str()),
                FsEvent::Probed(Probe::Found { canonical, .. }) => {
                    if config.contains(canonical.as_str()) {
                        create_parent(call, target, parent)
                    } else {
                        refuse_outside()
                    }
                },
                _ => vstd::pervasive::unreached(),
            },
            WriteState::Created { call, target, parent } => match event {
                FsEvent::Failed(m) => finish_err(map_io_error(m)),
                _ => {
                    let q = parent.clone();
                    (WriteState::Recheck { call, target, parent }, FsAction::Probe(q))
                },
            },
            WriteState::Recheck { call, target, parent } => match event {
                FsEvent::Probed(Probe::Failed(m)) => finish_err(map_io_error(m)),
                FsEvent::Probed(Probe::Missing) => finish_err(
                    ToolError::ExecutionFailed(
                        prefixed("parent directory does not exist: ", parent.as_str()),
                    ),
                ),
                FsEvent::Probed(Probe::Found { canonical, .. }) => {
                    if config.contains(canonical.as_str()) {
                        write_target(call, target)
                    } else {
                        refuse_outside()
                    }
                },
                _ => vstd::pervasive::unreached(),
            },
            WriteState::Written { call, target } => match event {
                FsEvent::Failed(m) => finish_err(map_io_error(m)),
                _ => {
                    let bytes = call.content.as_str().as_bytes();
                    let n = bytes.len();
                    assert(n == bytes@.len());
                    let report = WriteFile::report(call.path.as_str(), call.content.as_str());
                    (WriteState::Over, FsAction::Finish(Ok(report)))
                },
            },
            WriteState::Over => vstd::pervasive::unreached(),
        }
    }
}

} // verus!
