//! The steps of a `read_file` or `list_dir` call.
//!
//! The library decides each step; the caller performs it on the file system and
//! hands back what happened. A file is read, or a directory listed, only once the
//! file system has reported what the path is and, when it exists, that its real
//! location lies under the workspace root.

use vstd::prelude::*;

use crate::error::{ToolError, ToolErrorModel};
use crate::json::{Json, JsonValue};
use crate::message::join_lines;
use crate::text::texts_sorted;
use crate::tools::fs::{
    entry_labels, lexical_target, map_io_error, path_argument, read_output, read_target_error,
    require_path_arg, within, EntryKind, ListDir, Probe, ProbeModel, ReadFile, Resolved,
};

verus! {

/// Where a `read_file` or `list_dir` call stands between two steps.
#[derive(Debug)]
pub enum PathState {
    /// The path named by the call (`path`) was found by its text
    /// (`candidate`); what the file system says of it is awaited.
    Probing { path: String, candidate: String },
    /// The read or the listing of the settled target is awaited.
    Operating { path: String, target: String },
    /// The call is over.
    Over,
}

/// What happened to the caller's last action.
#[derive(Debug)]
pub enum PathEvent {
    /// What the file system says of the probed path.
    Probed(Probe),
    /// The bytes of the file that was read.
    Bytes(Vec<u8>),
    /// The entries of the listed directory: each name, and whether it is a directory.
    Listing(Vec<(String, bool)>),
    /// The read or the listing failed with this I/O message.
    Failed(String),
}

/// What the caller does next.
#[derive(Debug)]
pub enum PathAction {
    /// Probe this path and report it with [`PathEvent::Probed`].
    Probe(String),
    /// Read this file and report its bytes with [`PathEvent::Bytes`].
    Read(String),
    /// List this directory and report its entries with [`PathEvent::Listing`].
    List(String),
    /// The call is over with this answer.
    Finish(Result<String, ToolError>),
}

/// Model of a [`PathState`].
pub enum PathStateModel {
    Probing { path: Seq<char>, candidate: Seq<char> },
    Operating { path: Seq<char>, target: Seq<char> },
    Over,
}

/// Model of a [`PathEvent`].
pub enum PathEventModel {
    Probed(ProbeModel),
    Bytes(Seq<u8>),
    Listing(Seq<(String, bool)>),
    Failed(Seq<char>),
}

/// Model of a [`PathAction`].
pub enum PathActionModel {
    Probe(Seq<char>),
    Read(Seq<char>),
    List(Seq<char>),
    Finish(Result<Seq<char>, ToolErrorModel>),
}

impl View for PathState {
    type V = PathStateModel;

    open spec fn view(&self) -> PathStateModel {
        match self {
            PathState::Probing { path, candidate } => PathStateModel::Probing {
                path: path@,
                candidate: candidate@,
            },
            PathState::Operating { path, target } => PathStateModel::Operating {
                path: path@,
                target: target@,
            },
            PathState::Over => PathStateModel::Over,
        }
    }
}

impl View for PathEvent {
    type V = PathEventModel;

    open spec fn view(&self) -> PathEventModel {
        match self {
            PathEvent::Probed(p) => PathEventModel::Probed(p@),
            PathEvent::Bytes(b) => PathEventModel::Bytes(b@),
            PathEvent::Listing(entries) => PathEventModel::Listing(entries@),
            PathEvent::Failed(m) => PathEventModel::Failed(m@),
        }
    }
}

impl View for PathAction {
    type V = PathActionModel;

    open spec fn view(&self) -> PathActionModel {
        match self {
            PathAction::Probe(p) => PathActionModel::Probe(p@),
            PathAction::Read(p) => PathActionModel::Read(p@),
            PathAction::List(p) => PathActionModel::List(p@),
            PathAction::Finish(r) => PathActionModel::Finish(
                match r {
                    Ok(s) => Ok(s@),
                    Err(e) => Err(e@),
                },
            ),
        }
    }
}

/// The call ends with `e`.
pub open spec fn path_ends(e: ToolErrorModel) -> (PathStateModel, PathActionModel) {
    (PathStateModel::Over, PathActionModel::Finish(Err(e)))
}

/// Whether `e` answers the action that led to `s`: a probe answers a probe; the
/// bytes of a file answer a read, the entries of a directory a listing, and a
/// failure either; nothing follows the end.
pub open spec fn path_event_fits(s: PathStateModel, e: PathEventModel, reads: bool) -> bool {
    match s {
        PathStateModel::Probing { .. } => e is Probed,
        PathStateModel::Operating { .. } => if reads {
            e is Bytes || e is Failed
        } else {
            e is Listing || e is Failed
        },
        PathStateModel::Over => false,
    }
}

/// The first step of a call with arguments `args` in the workspace at `root`:
/// refuse a missing path or one that leaves the root, else probe it.
pub open spec fn path_begin(root: Seq<char>, args: Json) -> (PathStateModel, PathActionModel) {
    match path_argument(args) {
        Err(m) => path_ends(ToolErrorModel::InvalidArgs(m)),
        Ok(p) => match lexical_target(root, p) {
            Err(m) => path_ends(ToolErrorModel::InvalidArgs(m)),
            Ok(t) => (PathStateModel::Probing { path: p, candidate: t }, PathActionModel::Probe(t)),
        },
    }
}

/// Where the probed `candidate` settles under `root`, with what it is: a missing
/// path stays as it is; an existing one becomes its real location, which must lie
/// under the root.
pub open spec fn settled(root: Seq<char>, candidate: Seq<char>, p: ProbeModel) -> Result<
    (Seq<char>, Option<EntryKind>),
    ToolErrorModel,
> {
    match p {
        ProbeModel::Missing => Ok((candidate, None)),
        ProbeModel::Failed(m) => Err(ToolErrorModel::ExecutionFailed(m)),
        ProbeModel::Found { canonical, kind } => if within(canonical, root) {
            Ok((canonical, Some(kind)))
        } else {
            Err(ToolErrorModel::InvalidArgs("path outside workspace"@))
        },
    }
}

/// The step of a `read_file` call after event `e` in state `s`.
pub open spec fn read_next(root: Seq<char>, s: PathStateModel, e: PathEventModel) -> (
    PathStateModel,
    PathActionModel,
) {
    match s {
        PathStateModel::Probing { path, candidate } => match e {
            PathEventModel::Probed(p) => match settled(root, candidate, p) {
                Err(err) => path_ends(err),
                Ok((target, kind)) => match read_target_error(path, kind) {
                    Some(m) => path_ends(ToolErrorModel::ExecutionFailed(m)),
                    None => (
                        PathStateModel::Operating { path, target },
                        PathActionModel::Read(target),
                    ),
                },
            },
            _ => (s, PathActionModel::Probe(candidate)),
        },
        PathStateModel::Operating { path, target } => match e {
            PathEventModel::Bytes(b) => match read_output(path, b) {
                Ok(t) => (PathStateModel::Over, PathActionModel::Finish(Ok(t))),
                Err(m) => path_ends(ToolErrorModel::ExecutionFailed(m)),
            },
            PathEventModel::Failed(m) => path_ends(ToolErrorModel::ExecutionFailed(m)),
            _ => (s, PathActionModel::Read(target)),
        },
        PathStateModel::Over => path_ends(ToolErrorModel::ExecutionFailed(Seq::empty())),
    }
}

/// Whether `text` is the listing of `entries`: one line per entry, directories
/// marked with a trailing `/`, in ascending order.
pub open spec fn is_listing(entries: Seq<(String, bool)>, text: Seq<char>) -> bool {
    exists|names: Seq<Seq<char>>|
        {
            &&& texts_sorted(names)
            &&& names.to_multiset() == entry_labels(entries).to_multiset()
            &&& text == join_lines(names)
        }
}

/// The step of a `list_dir` call after event `e` in state `s`. A listing ends the
/// call; its text, which [`is_listing`] gives, is left empty here.
pub open spec fn list_next(root: Seq<char>, s: PathStateModel, e: PathEventModel) -> (
    PathStateModel,
    PathActionModel,
) {
    match s {
        PathStateModel::Probing { path, candidate } => match e {
            PathEventModel::Probed(p) => match settled(root, candidate, p) {
                Err(err) => path_ends(err),
                Ok((target, kind)) => if kind == Some(EntryKind::Dir) {
                    (PathStateModel::Operating { path, target }, PathActionModel::List(target))
                } else {
                    path_ends(ToolErrorModel::ExecutionFailed("not a directory: "@ + path))
                },
            },
            _ => (s, PathActionModel::Probe(candidate)),
        },
        PathStateModel::Operating { .. } => match e {
            PathEventModel::Failed(m) => path_ends(ToolErrorModel::ExecutionFailed(m)),
            _ => (PathStateModel::Over, PathActionModel::Finish(Ok(Seq::empty()))),
        },
        PathStateModel::Over => path_ends(ToolErrorModel::ExecutionFailed(Seq::empty())),
    }
}

/// A `read_file` call reads a file only when the event just received reports
/// what the path is: a file whose real location lies under the root.
pub proof fn lemma_read_only_files_within(root: Seq<char>, s: PathStateModel, e: PathEventModel)
    requires
        path_event_fits(s, e, true),
    ensures
        read_next(root, s, e).1 is Read ==> {
            &&& e matches PathEventModel::Probed(ProbeModel::Found { canonical, kind })
            &&& within(canonical, root)
            &&& kind == EntryKind::File
            &&& read_next(root, s, e).1 == PathActionModel::Read(canonical)
        },
{
}

/// A `list_dir` call lists a directory only when the event just received
/// reports what the path is: a directory whose real location lies under the root.
pub proof fn lemma_list_only_dirs_within(root: Seq<char>, s: PathStateModel, e: PathEventModel)
    requires
        path_event_fits(s, e, false),
    ensures
        list_next(root, s, e).1 is List ==> {
            &&& e matches PathEventModel::Probed(ProbeModel::Found { canonical, kind })
            &&& within(canonical, root)
            &&& kind == EntryKind::Dir
            &&& list_next(root, s, e).1 == PathActionModel::List(canonical)
        },
{
}

/// The call ends with `e`.
fn end_with(e: ToolError) -> (r: (PathState, PathAction))
    ensures
        (r.0@, r.1@) == path_ends(e@),
{
    (PathState::Over, PathAction::Finish(Err(e)))
}

/// The first step of a call: its path is read and found by its text; then it is probed.
fn begin_path(config: &crate::tools::fs::FsConfig, args: &JsonValue) -> (r: (PathState, PathAction))
    ensures
        (r.0@, r.1@) == path_begin(config@, args@),
{
    let path = match require_path_arg(args) {
        Ok(p) => p,
        Err(e) => {
            return end_with(e);
        },
    };
    match config.resolve_lexical(path.as_str()) {
        Err(e) => end_with(e),
        Ok(candidate) => {
            let q = candidate.clone();
            (PathState::Probing { path, candidate }, PathAction::Probe(q))
        },
    }
}

/// Settles the probed candidate.
fn settle_probed(config: &crate::tools::fs::FsConfig, candidate: String, p: Probe) -> (r: Result<
    Resolved,
    ToolError,
>)
    ensures
        match r {
            Ok(t) => settled(config@, candidate@, p@) == Ok::<
                (Seq<char>, Option<EntryKind>),
                ToolErrorModel,
            >((t.path@, t.kind)),
            Err(e) => settled(config@, candidate@, p@) == Err::<
                (Seq<char>, Option<EntryKind>),
                ToolErrorModel,
            >(e@),
        },
{
    config.settle(candidate, p)
}

impl ReadFile {
    /// The first step of a `read_file` call.
    pub fn start_read(&self, args: &JsonValue) -> (r: (PathState, PathAction))
        ensures
            (r.0@, r.1@) == path_begin(self@, args@),
    {
        begin_path(self.config(), args)
    }

    /// The step after `event` in `state`: see [`read_next`].
    pub fn read_step(&self, state: PathState, event: PathEvent) -> (r: (PathState, PathAction))
        requires
            path_event_fits(state@, event@, true),
        ensures
            (r.0@, r.1@) == read_next(self@, state@, event@),
    {
        match state {
            PathState::Probing { path, candidate } => match event {
                PathEvent::Probed(p) => match settle_probed(self.config(), candidate, p) {
                    Err(e) => end_with(e),
                    Ok(t) => match ReadFile::check_target(path.as_str(), &t) {
                        Err(e) => end_with(e),
                        Ok(()) => {
                            let q = t.path.clone();
                            (PathState::Operating { path, target: t.path }, PathAction::Read(q))
                        },
                    },
                },
                _ => vstd::pervasive::unreached(),
            },
            PathState::Operating { path, .. } => match event {
                PathEvent::Bytes(bytes) => match ReadFile::render(path.as_str(), bytes.as_slice()) {
                    Ok(t) => (PathState::Over, PathAction::Finish(Ok(t))),
                    Err(e) => end_with(e),
                },
                PathEvent::Failed(m) => end_with(map_io_error(m)),
                _ => vstd::pervasive::unreached(),
            },
            PathState::Over => vstd::pervasive::unreached(),
        }
    }
}

impl ListDir {
    /// The first step of a `list_dir` call.
    pub fn start_list(&self, args: &JsonValue) -> (r: (PathState, PathAction))
        ensures
            (r.0@, r.1@) == path_begin(self@, args@),
    {
        begin_path(self.config(), args)
    }

    /// The step after `event` in `state`: see [`list_next`]; a listing ends the
    /// call with its text.
    pub fn list_step(&self, state: PathState, event: PathEvent) -> (r: (PathState, PathAction))
        requires
            path_event_fits(state@, event@, false),
        ensures
            match (state@, event@) {
                (PathStateModel::Operating { .. }, PathEventModel::Listing(entries)) => {
                    &&& r.0@ is Over
                    &&& r.1 matches PathAction::Finish(Ok(t)) && is_listing(entries, t@)
                },
                _ => (r.0@, r.1@) == list_next(self@, state@, event@),
            },
    {
        match state {
            PathState::Probing { path, candidate } => match event {
                PathEvent::Probed(p) => match settle_probed(self.config(), candidate, p) {
                    Err(e) => end_with(e),
                    Ok(t) => match ListDir::check_target(path.as_str(), &t) {
                        Err(e) => end_with(e),
                        Ok(()) => {
                            let q = t.path.clone();
                            (PathState::Operating { path, target: t.path }, PathAction::List(q))
                        },
                    },
                },
                _ => vstd::pervasive::unreached(),
            },
            PathState::Operating { .. } => match event {
                PathEvent::Listing(entries) => {
                    let text = ListDir::render(entries);
                    (PathState::Over, PathAction::Finish(Ok(text)))
                },
                PathEvent::Failed(m) => end_with(map_io_error(m)),
                _ => vstd::pervasive::unreached(),
            },
            PathState::Over => vstd::pervasive::unreached(),
        }
    }
}

} // verus!
