//! Workspace-scoped file tools: `read_file`, `write_file` and `list_dir`.
//!
//! Every path is relative to a workspace root, and none may lead outside it. The
//! library decides; the caller performs the file-system operations in between and
//! hands their outcomes in as plain values. Paths use `/` separators.

use vstd::prelude::*;

use crate::error::{is_failure, is_invalid_args, ToolError};
use crate::json::{entries_model, items_model, Json, JsonValue};
use crate::message::{join_lines, lemma_join_push};
use crate::text::{
    chars_of, decimal_text, push_decimal, sort_texts, string_of_chars, texts_of, texts_sorted, trim,
    trim_spec,
};
use crate::tool::{ToolSchema, ToolSchemaModel};

verus! {

broadcast use vstd::string::group_string_axioms;

/// Largest number of bytes that [`ReadFile`] returns; a longer file is cut there
/// (at a character boundary) and a notice is appended.
pub const MAX_READ_BYTES: usize = 512 * 1024;

/// The workspace root every path is resolved against: the canonical path of an
/// existing directory.
#[derive(Debug)]
pub struct FsConfig {
    root: String,
}

/// What a path is on the file system.
#[derive(Debug, Clone, Copy, PartialEq, Eq, Structural)]
pub enum EntryKind {
    Dir,
    File,
    Other,
}

/// What the file system says of a path: nothing there, canonicalisation failed
/// (with the I/O error's message), or the canonical path and what it is.
#[derive(Debug)]
pub enum Probe {
    Missing,
    Failed(String),
    Found { canonical: String, kind: EntryKind },
}

/// Model of a [`Probe`].
pub enum ProbeModel {
    Missing,
    Failed(Seq<char>),
    Found { canonical: Seq<char>, kind: EntryKind },
}

impl View for Probe {
    type V = ProbeModel;

    open spec fn view(&self) -> ProbeModel {
        match self {
            Probe::Missing => ProbeModel::Missing,
            Probe::Failed(m) => ProbeModel::Failed(m@),
            Probe::Found { canonical, kind } => ProbeModel::Found { canonical: canonical@, kind: *kind },
        }
    }
}

/// A path under the workspace root, with what the file system said of it.
#[derive(Debug)]
pub struct Resolved {
    pub path: String,
    pub kind: Option<EntryKind>,
}

/// The tool error for a failed I/O operation: its message, as execution failure.
pub fn map_io_error(message: String) -> (e: ToolError)
    ensures
        e == ToolError::ExecutionFailed(message),
{
    ToolError::ExecutionFailed(message)
}

/// From `e`, step back over continuation bytes (`0b10xxxxxx`) that are not at
/// the start or past the end.
pub open spec fn floor_from(bytes: Seq<u8>, e: int) -> int
    decreases e,
{
    if 0 < e < bytes.len() && vstd::utf8::is_continuation_byte(bytes[e]) {
        floor_from(bytes, e - 1)
    } else {
        e
    }
}

/// The largest character boundary at or below `limit`.
pub open spec fn boundary_floor(bytes: Seq<u8>, limit: int) -> int {
    floor_from(
        bytes,
        if limit < bytes.len() {
            limit
        } else {
            bytes.len() as int
        },
    )
}

/// Largest index `<= limit` that is a UTF-8 character boundary of `bytes`: from
/// `min(limit, len)`, step back over continuation bytes (`0b10xxxxxx`).
pub fn utf8_boundary_floor(bytes: &[u8], limit: usize) -> (r: usize)
    ensures
        r == boundary_floor(bytes@, limit as int),
        vstd::utf8::valid_utf8(bytes@) ==> vstd::utf8::is_char_boundary(bytes@, r as int),
        r <= limit,
        r <= bytes@.len(),
        r == 0 || r == bytes@.len() || !vstd::utf8::is_continuation_byte(bytes@[r as int]),
        forall|k: int|
            r < k <= limit && k <= bytes@.len() ==> k < bytes@.len()
                && vstd::utf8::is_continuation_byte(#[trigger] bytes@[k]),
{
    let mut end: usize = if limit < bytes.len() {
        limit
    } else {
        bytes.len()
    };
    let ghost start = end;
    while end > 0 && end < bytes.len() && (bytes[end] & 0b1100_0000u8) == 0b1000_0000u8
        invariant
            end <= start,
            end < start ==> start < bytes@.len(),
            floor_from(bytes@, start as int) == floor_from(bytes@, end as int),
            start == (if limit < bytes@.len() {
                limit as int
            } else {
                bytes@.len() as int
            }),
            forall|k: int|
                end < k <= start ==> k < bytes@.len() && vstd::utf8::is_continuation_byte(
                    #[trigger] bytes@[k],
                ),
        decreases end,
    {
        let b = bytes[end];
        assert((b & 0b1100_0000u8) == 0b1000_0000u8 ==> 0x80 <= b <= 0xbf) by (bit_vector);
        assert(vstd::utf8::is_continuation_byte(bytes@[end as int]));
        let ghost old_end = end as int;
        end = end - 1;
        assert forall|k: int| end < k <= start implies k < bytes@.len()
            && vstd::utf8::is_continuation_byte(#[trigger] bytes@[k]) by {
            if k == old_end {
            } else {
                assert(old_end < k);
            }
        }
    }
    proof {
        if end > 0 && end < bytes@.len() {
            let b = bytes@[end as int];
            assert((b & 0b1100_0000u8) != 0b1000_0000u8 ==> !(0x80 <= b <= 0xbf)) by (bit_vector);
        }
        if vstd::utf8::valid_utf8(bytes@) {
            lemma_boundary_floor_is_char_boundary(bytes@, limit as int);
        }
        assert forall|k: int| end < k <= limit && k <= bytes@.len() implies k < bytes@.len()
            && vstd::utf8::is_continuation_byte(#[trigger] bytes@[k]) by {
            assert(k <= start);
        }
    }
    end
}

/// The pieces of a path between `/` separators, empty ones included.
pub open spec fn split_slash(s: Seq<char>) -> Seq<Seq<char>>
    decreases s.len(),
{
    if s.len() == 0 {
        seq![Seq::<char>::empty()]
    } else {
        let p = split_slash(s.drop_last());
        if s.last() == '/' {
            p.push(Seq::<char>::empty())
        } else {
            p.update(p.len() - 1, p.last().push(s.last()))
        }
    }
}

pub proof fn lemma_split_slash_len(s: Seq<char>)
    ensures
        split_slash(s).len() >= 1,
    decreases s.len(),
{
    if s.len() > 0 {
        lemma_split_slash_len(s.drop_last());
    }
}

/// A piece that is a path component: not empty and not `.`.
pub open spec fn is_component(part: Seq<char>) -> bool {
    part.len() > 0 && part != seq!['.']
}

/// The pieces that are components, in order.
pub open spec fn components_of(parts: Seq<Seq<char>>) -> Seq<Seq<char>>
    decreases parts.len(),
{
    if parts.len() == 0 {
        Seq::empty()
    } else {
        let k = components_of(parts.drop_last());
        if is_component(parts.last()) {
            k.push(parts.last())
        } else {
            k
        }
    }
}

/// The components of a path, as `Path::components` gives them for a path
/// without a drive prefix: separators and `.` pieces are dropped.
pub open spec fn path_components(s: Seq<char>) -> Seq<Seq<char>> {
    components_of(split_slash(s))
}

/// The models of a sequence of strings.
pub open spec fn strings_view(v: Seq<String>) -> Seq<Seq<char>> {
    v.map_values(|s: String| s@)
}

proof fn lemma_components_push(parts: Seq<Seq<char>>, part: Seq<char>)
    ensures
        components_of(parts.push(part)) == (if is_component(part) {
            components_of(parts).push(part)
        } else {
            components_of(parts)
        }),
{
    assert(parts.push(part).drop_last() =~= parts);
}

/// The components of a path.
pub fn path_components_of(p: &str) -> (r: Vec<String>)
    ensures
        strings_view(r@) == path_components(p@),
{
    let chars = chars_of(p);
    let mut out: Vec<String> = Vec::new();
    let mut cur: Vec<char> = Vec::new();
    let ghost mut done: Seq<Seq<char>> = Seq::empty();
    let mut i: usize = 0;
    assert(p@.take(0) =~= Seq::<char>::empty());
    assert(strings_view(out@) =~= Seq::<Seq<char>>::empty());
    while i < chars.len()
        invariant
            i <= chars@.len(),
            chars@ == p@,
            split_slash(p@.take(i as int)) == done.push(cur@),
            strings_view(out@) == components_of(done),
        decreases chars@.len() - i,
    {
        let c = chars[i];
        assert(p@.take(i + 1).drop_last() =~= p@.take(i as int));
        assert(p@.take(i + 1).last() == c);
        if c == '/' {
            let ghost old_cur = cur@;
            proof {
                lemma_components_push(done, old_cur);
            }
            if cur.len() > 0 && !(cur.len() == 1 && cur[0] == '.') {
                let part = string_of_chars(cur.as_slice());
                let ghost before = out@;
                out.push(part);
                assert(strings_view(out@) =~= strings_view(before).push(part@));
                assert(old_cur != seq!['.']);
            } else {
                assert(!is_component(old_cur)) by {
                    if old_cur.len() == 1 {
                        assert(old_cur =~= seq!['.']);
                    }
                }
            }
            proof {
                done = done.push(old_cur);
            }
            cur = Vec::new();
            assert(split_slash(p@.take(i + 1)) =~= done.push(cur@));
        } else {
            cur.push(c);
            assert(split_slash(p@.take(i + 1)) =~= done.push(cur@));
        }
        i = i + 1;
    }
    assert(p@.take(i as int) =~= p@);
    proof {
        lemma_components_push(done, cur@);
    }
    if cur.len() > 0 && !(cur.len() == 1 && cur[0] == '.') {
        let part = string_of_chars(cur.as_slice());
        let ghost before = out@;
        out.push(part);
        assert(strings_view(out@) =~= strings_view(before).push(part@));
        assert(cur@ != seq!['.']);
    } else {
        assert(!is_component(cur@)) by {
            if cur@.len() == 1 {
                assert(cur@ =~= seq!['.']);
            }
        }
    }
    out
}

/// The components left after walking `parts` down from the root: `..` goes up
/// one level; `None` when it would go above the root.
pub open spec fn walk(parts: Seq<Seq<char>>) -> Option<Seq<Seq<char>>>
    decreases parts.len(),
{
    if parts.len() == 0 {
        Some(Seq::empty())
    } else {
        match walk(parts.drop_last()) {
            None => None,
            Some(e) => if parts.last() == seq!['.', '.'] {
                if e.len() == 0 {
                    None
                } else {
                    Some(e.drop_last())
                }
            } else {
                Some(e.push(parts.last()))
            },
        }
    }
}

proof fn lemma_walk_stays_none(parts: Seq<Seq<char>>, i: int, j: int)
    requires
        0 <= i <= j <= parts.len(),
        walk(parts.take(i)) is None,
    ensures
        walk(parts.take(j)) is None,
    decreases j - i,
{
    if i < j {
        lemma_walk_stays_none(parts, i, j - 1);
        assert(parts.take(j).drop_last() =~= parts.take(j - 1));
    }
}

/// `PathBuf::push` of one component: a separator goes in unless `base` ends with one.
pub open spec fn push_part(base: Seq<char>, part: Seq<char>) -> Seq<char> {
    if base.len() > 0 && base.last() == '/' {
        base + part
    } else {
        base + seq!['/'] + part
    }
}

/// `base` with the components pushed in order.
pub open spec fn join_parts(base: Seq<char>, parts: Seq<Seq<char>>) -> Seq<char>
    decreases parts.len(),
{
    if parts.len() == 0 {
        base
    } else {
        push_part(join_parts(base, parts.drop_last()), parts.last())
    }
}

/// A path that starts at the file-system root.
pub open spec fn is_absolute(p: Seq<char>) -> bool {
    p.len() > 0 && p[0] == '/'
}

/// The relative path a call names, trimmed, or the message that refuses it.
pub open spec fn relative_path(raw: Seq<char>) -> Result<Seq<char>, Seq<char>> {
    let t = trim_spec(raw);
    if t.len() == 0 {
        Err("empty path"@)
    } else if is_absolute(t) {
        Err("path must be relative to workspace root"@)
    } else {
        Ok(t)
    }
}

/// Where a relative path leads from `root` by its text alone, or the message that
/// refuses it.
pub open spec fn lexical_target(root: Seq<char>, raw: Seq<char>) -> Result<Seq<char>, Seq<char>> {
    match relative_path(raw) {
        Err(m) => Err(m),
        Ok(t) => match walk(path_components(t)) {
            None => Err("path outside workspace"@),
            Some(e) => Ok(join_parts(root, e)),
        },
    }
}

/// Whether `path` lies under `root`, comparing whole components as
/// `Path::starts_with` does.
pub open spec fn within(path: Seq<char>, root: Seq<char>) -> bool {
    &&& is_absolute(path) == is_absolute(root)
    &&& path_components(root).is_prefix_of(path_components(path))
}

fn first_is_slash(s: &str) -> (r: bool)
    ensures
        r == is_absolute(s@),
{
    let chars = chars_of(s);
    chars.len() > 0 && chars[0] == '/'
}

fn last_is_slash(s: &str) -> (r: bool)
    ensures
        r == (s@.len() > 0 && s@.last() == '/'),
{
    let chars = chars_of(s);
    chars.len() > 0 && chars[chars.len() - 1] == '/'
}

fn is_parent_marker(s: &String) -> (r: bool)
    ensures
        r == (s@ == seq!['.', '.']),
{
    let chars = chars_of(s.as_str());
    let r = chars.len() == 2 && chars[0] == '.' && chars[1] == '.';
    proof {
        if chars@.len() == 2 && chars@[0] == '.' && chars@[1] == '.' {
            assert(chars@ =~= seq!['.', '.']);
        }
    }
    r
}

fn push_part_onto(base: &mut String, part: &str)
    ensures
        final(base)@ == push_part(old(base)@, part@),
{
    proof {
        reveal_strlit("/");
    }
    if !last_is_slash(base.as_str()) {
        base.append("/");
    }
    base.append(part);
}

fn same_text(a: &String, b: &String) -> (r: bool)
    ensures
        r == (a@ == b@),
{
    *a == *b
}

impl View for FsConfig {
    type V = Seq<char>;

    /// The root path.
    closed spec fn view(&self) -> Seq<char> {
        self.root@
    }
}

impl FsConfig {
    /// The root is an absolute path.
    #[verifier::type_invariant]
    closed spec fn root_is_absolute(&self) -> bool {
        is_absolute(self.root@)
    }

    /// The workspace rooted where `root` leads. The caller canonicalises `root`
    /// and reports the outcome in `probe`: the root must exist and be a
    /// directory, and its canonical path, which is absolute, is kept.
    pub fn new(root: &str, probe: Probe) -> (r: Result<FsConfig, ToolError>)
        ensures
            match probe {
                Probe::Missing => r matches Err(e) && is_failure(
                    e,
                    "workspace root does not exist: "@ + root@,
                ),
                Probe::Failed(m) => r matches Err(e) && is_failure(e, m@),
                Probe::Found { canonical, kind } => if kind != EntryKind::Dir {
                    r matches Err(e) && is_failure(
                        e,
                        "workspace root is not a directory: "@ + canonical@,
                    )
                } else if !is_absolute(canonical@) {
                    r matches Err(e) && is_failure(
                        e,
                        "workspace root is not an absolute path: "@ + canonical@,
                    )
                } else {
                    r matches Ok(c) && c@ == canonical@
                },
            },
    {
        match probe {
            Probe::Missing => {
                let mut m = String::from_str("workspace root does not exist: ");
                m.append(root);
                Err(map_io_error(m))
            },
            Probe::Failed(m) => Err(map_io_error(m)),
            Probe::Found { canonical, kind } => {
                if kind != EntryKind::Dir {
                    let mut m = String::from_str("workspace root is not a directory: ");
                    m.append(canonical.as_str());
                    Err(map_io_error(m))
                } else if !first_is_slash(canonical.as_str()) {
                    let mut m = String::from_str("workspace root is not an absolute path: ");
                    m.append(canonical.as_str());
                    Err(map_io_error(m))
                } else {
                    Ok(FsConfig { root: canonical })
                }
            },
        }
    }

    /// The canonical workspace root, an absolute path.
    pub fn root(&self) -> (r: &str)
        ensures
            r@ == self@,
            is_absolute(r@),
    {
        proof {
            use_type_invariant(self);
        }
        self.root.as_str()
    }

    /// A copy of the configuration.
    pub fn duplicate(&self) -> (r: FsConfig)
        ensures
            r@ == self@,
    {
        proof {
            use_type_invariant(self);
        }
        FsConfig { root: self.root.clone() }
    }

    /// Where a relative path leads under the root, by its text alone: it is
    /// trimmed, must not be empty or absolute, and no `..` may climb above the
    /// root. The caller then probes the path and settles it with [`Self::settle`].
    pub fn resolve_lexical(&self, raw: &str) -> (r: Result<String, ToolError>)
        ensures
            match r {
                Ok(p) => lexical_target(self@, raw@) == Ok::<Seq<char>, Seq<char>>(p@),
                Err(e) => lexical_target(self@, raw@) matches Err(m) && is_invalid_args(e, m),
            },
            r matches Ok(p) ==> within(p@, self@),
    {
        proof {
            use_type_invariant(self);
            lemma_lexical_target_within(self@, raw@);
        }
        let t = trim(raw);
        if t.as_str().is_empty() {
            return Err(ToolError::InvalidArgs(String::from_str("empty path")));
        }
        if first_is_slash(t.as_str()) {
            return Err(
                ToolError::InvalidArgs(String::from_str("path must be relative to workspace root")),
            );
        }
        let comps = path_components_of(t.as_str());
        let ghost cs = strings_view(comps@);
        let mut extra: Vec<String> = Vec::new();
        let mut i: usize = 0;
        assert(cs.take(0) =~= Seq::<Seq<char>>::empty());
        assert(strings_view(extra@) =~= Seq::<Seq<char>>::empty());
        while i < comps.len()
            invariant
                i <= comps@.len(),
                cs == strings_view(comps@),
                cs.len() == comps@.len(),
                cs == path_components(t@),
                relative_path(raw@) == Ok::<Seq<char>, Seq<char>>(t@),
                walk(cs.take(i as int)) == Some(strings_view(extra@)),
            decreases comps@.len() - i,
        {
            assert(cs.take(i + 1).drop_last() =~= cs.take(i as int));
            assert(cs.take(i + 1).last() == comps@[i as int]@);
            if is_parent_marker(&comps[i]) {
                if extra.len() == 0 {
                    proof {
                        assert(strings_view(extra@).len() == 0);
                        assert(walk(cs.take(i + 1)) is None);
                        lemma_walk_stays_none(cs, i + 1, cs.len() as int);
                        assert(cs.take(cs.len() as int) =~= cs);
                    }
                    return Err(ToolError::InvalidArgs(String::from_str("path outside workspace")));
                }
                let ghost before = extra@;
                extra.pop();
                assert(strings_view(extra@) =~= strings_view(before).drop_last());
            } else {
                let ghost before = extra@;
                extra.push(comps[i].clone());
                assert(strings_view(extra@) =~= strings_view(before).push(comps@[i as int]@));
            }
            i = i + 1;
        }
        assert(cs.take(i as int) =~= cs);
        let ghost ev = strings_view(extra@);
        let mut out = self.root.clone();
        let mut j: usize = 0;
        assert(ev.take(0) =~= Seq::<Seq<char>>::empty());
        while j < extra.len()
            invariant
                j <= extra@.len(),
                ev == strings_view(extra@),
                ev.len() == extra@.len(),
                out@ == join_parts(self@, ev.take(j as int)),
            decreases extra@.len() - j,
        {
            assert(ev.take(j + 1).drop_last() =~= ev.take(j as int));
            push_part_onto(&mut out, extra[j].as_str());
            j = j + 1;
        }
        assert(ev.take(j as int) =~= ev);
        Ok(out)
    }

    /// Whether `path` lies under the root, comparing whole components.
    pub fn contains(&self, path: &str) -> (r: bool)
        ensures
            r == within(path@, self@),
    {
        if first_is_slash(path) != first_is_slash(self.root.as_str()) {
            return false;
        }
        let base = path_components_of(self.root.as_str());
        let comps = path_components_of(path);
        let ghost b = strings_view(base@);
        let ghost c = strings_view(comps@);
        if base.len() > comps.len() {
            return false;
        }
        let mut i: usize = 0;
        while i < base.len()
            invariant
                i <= base@.len() <= comps@.len(),
                b == strings_view(base@),
                c == strings_view(comps@),
                b == path_components(self@),
                c == path_components(path@),
                is_absolute(path@) == is_absolute(self@),
                forall|j: int| 0 <= j < i ==> b[j] == c[j],
            decreases base@.len() - i,
        {
            if !same_text(&base[i], &comps[i]) {
                assert(b[i as int] == base@[i as int]@);
                assert(c[i as int] == comps@[i as int]@);
                assert(b[i as int] != c.subrange(0, b.len() as int)[i as int]);
                assert(!(b =~= c.subrange(0, b.len() as int)));
                return false;
            }
            i = i + 1;
        }
        assert(b =~= c.subrange(0, b.len() as int));
        true
    }

    /// Settles a path found by [`Self::resolve_lexical`] with what the file system
    /// says of it: a missing path stays as it is; an existing one is replaced by
    /// its canonical path, which must still lie under the root.
    pub fn settle(&self, candidate: String, probe: Probe) -> (r: Result<Resolved, ToolError>)
        ensures
            match probe {
                Probe::Missing => r matches Ok(t) && t.path@ == candidate@ && t.kind is None,
                Probe::Failed(m) => r matches Err(e) && is_failure(e, m@),
                Probe::Found { canonical, kind } => if within(canonical@, self@) {
                    r matches Ok(t) && t.path@ == canonical@ && t.kind == Some(kind)
                } else {
                    r matches Err(e) && is_invalid_args(e, "path outside workspace"@)
                },
            },
    {
        match probe {
            Probe::Missing => Ok(Resolved { path: candidate, kind: None }),
            Probe::Failed(m) => Err(map_io_error(m)),
            Probe::Found { canonical, kind } => {
                if self.contains(canonical.as_str()) {
                    Ok(Resolved { path: canonical, kind: Some(kind) })
                } else {
                    Err(ToolError::InvalidArgs(String::from_str("path outside workspace")))
                }
            },
        }
    }

    /// Refuses an existing directory whose canonical path has left the root (a
    /// symbolic link leading out of the workspace).
    pub fn ensure_within_root(&self, canonical: &str) -> (r: Result<(), ToolError>)
        ensures
            r is Ok <==> within(canonical@, self@),
            r matches Err(e) ==> is_invalid_args(e, "path outside workspace"@),
    {
        if self.contains(canonical) {
            Ok(())
        } else {
            Err(ToolError::InvalidArgs(String::from_str("path outside workspace")))
        }
    }
}

impl Clone for FsConfig {
    fn clone(&self) -> (r: Self)
        ensures
            r@ == self@,
    {
        self.duplicate()
    }
}

/// `std::str::from_utf8`: the text when the bytes are valid UTF-8.
#[verifier::external_body]
fn utf8_text(bytes: &[u8]) -> (r: Option<String>)
    ensures
        match r {
            Some(t) => vstd::utf8::valid_utf8(bytes@) && t@ == vstd::utf8::decode_utf8(bytes@),
            None => !vstd::utf8::valid_utf8(bytes@),
        },
{
    std::str::from_utf8(bytes).ok().map(|t| t.to_string())
}

/// The `path` argument of a call, or the message refusing the call.
pub open spec fn path_argument(args: Json) -> Result<Seq<char>, Seq<char>> {
    match args.str_field("path"@) {
        Some(p) => Ok(p),
        None => Err("missing required field: path"@),
    }
}

/// The `path` argument of a call.
pub fn require_path_arg(args: &JsonValue) -> (r: Result<String, ToolError>)
    ensures
        match r {
            Ok(p) => path_argument(args@) == Ok::<Seq<char>, Seq<char>>(p@),
            Err(e) => path_argument(args@) matches Err(m) && is_invalid_args(e, m),
        },
{
    match args.get_str("path") {
        Some(p) => Ok(String::from_str(p)),
        None => Err(ToolError::InvalidArgs(String::from_str("missing required field: path"))),
    }
}

/// The error `read_file` gives for what the path is, if any: a directory, or
/// anything but a file (nothing there included).
pub open spec fn read_target_error(path: Seq<char>, kind: Option<EntryKind>) -> Option<Seq<char>> {
    if kind == Some(EntryKind::Dir) {
        Some("is a directory: "@ + path)
    } else if kind != Some(EntryKind::File) {
        Some("file not found: "@ + path)
    } else {
        None
    }
}

/// What `read_file` returns for the bytes of a file: the text, cut at the
/// largest character boundary within [`MAX_READ_BYTES`] bytes with a notice when
/// the file is longer; a message when the kept bytes are not UTF-8.
pub open spec fn read_output(path: Seq<char>, bytes: Seq<u8>) -> Result<Seq<char>, Seq<char>> {
    let truncated = bytes.len() > MAX_READ_BYTES;
    let kept = if truncated {
        bytes.take(boundary_floor(bytes, MAX_READ_BYTES as int))
    } else {
        bytes
    };
    if !vstd::utf8::valid_utf8(kept) {
        Err("not valid UTF-8: "@ + path)
    } else if truncated {
        Ok(
            vstd::utf8::decode_utf8(kept) + "\n[truncated at "@ + decimal_text(MAX_READ_BYTES as nat)
                + " bytes; file size "@ + decimal_text(bytes.len()) + " bytes]"@,
        )
    } else {
        Ok(vstd::utf8::decode_utf8(kept))
    }
}

/// A tool declaration with a single `path` parameter.
pub open spec fn path_parameters(description: Seq<char>) -> Json {
    Json::Object(
        seq![
            ("type"@, Json::Str("object"@)),
            (
                "properties"@,
                Json::Object(
                    seq![
                        (
                            "path"@,
                            Json::Object(
                                seq![
                                    ("type"@, Json::Str("string"@)),
                                    ("description"@, Json::Str(description)),
                                ],
                            ),
                        ),
                    ],
                ),
            ),
            ("required"@, Json::Array(seq![Json::Str("path"@)])),
        ],
    )
}

/// A string-typed property of a parameters schema.
pub(crate) fn string_property(description: &str) -> (r: JsonValue)
    ensures
        r@ == Json::Object(
            seq![("type"@, Json::Str("string"@)), ("description"@, Json::Str(description@))],
        ),
{
    let entries = vec![
        JsonValue::entry("type", JsonValue::string("string")),
        JsonValue::entry("description", JsonValue::string(description)),
    ];
    assert(entries_model(entries@) =~= seq![
        ("type"@, Json::Str("string"@)),
        ("description"@, Json::Str(description@)),
    ]);
    JsonValue::object(entries)
}

fn path_schema(description: &str) -> (r: JsonValue)
    ensures
        r@ == path_parameters(description@),
{
    let prop = string_property(description);
    let props = vec![JsonValue::entry("path", prop)];
    assert(entries_model(props@) =~= seq![("path"@, prop@)]);
    let properties = JsonValue::object(props);
    let req = vec![JsonValue::string("path")];
    assert(items_model(req@) =~= seq![Json::Str("path"@)]);
    let required = JsonValue::array(req);
    let entries = vec![
        JsonValue::entry("type", JsonValue::string("object")),
        JsonValue::entry("properties", properties),
        JsonValue::entry("required", required),
    ];
    assert(entries_model(entries@) =~= seq![
        ("type"@, Json::Str("object"@)),
        ("properties"@, properties@),
        ("required"@, required@),
    ]);
    JsonValue::object(entries)
}

/// Reads UTF-8 text from a file under the workspace root.
#[derive(Debug)]
pub struct ReadFile {
    config: FsConfig,
}

impl View for ReadFile {
    type V = Seq<char>;

    /// The workspace root.
    closed spec fn view(&self) -> Seq<char> {
        self.config@
    }
}

impl ReadFile {
    pub fn new(config: FsConfig) -> (r: ReadFile)
        ensures
            r@ == config@,
    {
        ReadFile { config }
    }

    /// The workspace the tool reads in.
    pub fn config(&self) -> (r: &FsConfig)
        ensures
            r@ == self@,
    {
        &self.config
    }

    /// The declaration handed to the model: `read_file`, taking a `path`.
    pub fn schema(&self) -> (r: ToolSchema)
        ensures
            r@ == (ToolSchemaModel {
                name: "read_file"@,
                description: "Read UTF-8 text from a file path relative to the workspace root."@,
                parameters: path_parameters("File path relative to workspace root"@),
            }),
    {
        ToolSchema {
            name: String::from_str("read_file"),
            description: String::from_str(
                "Read UTF-8 text from a file path relative to the workspace root.",
            ),
            parameters: path_schema("File path relative to workspace root"),
        }
    }

    /// Refuses a path that is a directory or not a file.
    pub fn check_target(path: &str, target: &Resolved) -> (r: Result<(), ToolError>)
        ensures
            match read_target_error(path@, target.kind) {
                None => r is Ok,
                Some(m) => r matches Err(e) && is_failure(e, m),
            },
    {
        match target.kind {
            Some(EntryKind::Dir) => {
                let mut m = String::from_str("is a directory: ");
                m.append(path);
                Err(ToolError::ExecutionFailed(m))
            },
            Some(EntryKind::File) => Ok(()),
            _ => {
                let mut m = String::from_str("file not found: ");
                m.append(path);
                Err(ToolError::ExecutionFailed(m))
            },
        }
    }

    /// The tool's answer for the bytes read from the file.
    pub fn render(path: &str, bytes: &[u8]) -> (r: Result<String, ToolError>)
        ensures
            match r {
                Ok(t) => read_output(path@, bytes@) == Ok::<Seq<char>, Seq<char>>(t@),
                Err(e) => read_output(path@, bytes@) matches Err(m) && is_failure(e, m),
            },
    {
        let truncated = bytes.len() > MAX_READ_BYTES;
        let end = if truncated {
            utf8_boundary_floor(bytes, MAX_READ_BYTES)
        } else {
            bytes.len()
        };
        let (kept, _) = bytes.split_at(end);
        assert(kept@ =~= (if truncated {
            bytes@.take(boundary_floor(bytes@, MAX_READ_BYTES as int))
        } else {
            bytes@
        }));
        match utf8_text(kept) {
            None => {
                let mut m = String::from_str("not valid UTF-8: ");
                m.append(path);
                Err(ToolError::ExecutionFailed(m))
            },
            Some(text) => {
                if truncated {
                    let mut out = text;
                    out.append("\n[truncated at ");
                    push_decimal(&mut out, MAX_READ_BYTES as u64);
                    out.append(" bytes; file size ");
                    push_decimal(&mut out, bytes.len() as u64);
                    out.append(" bytes]");
                    Ok(out)
                } else {
                    Ok(text)
                }
            },
        }
    }
}

impl Clone for ReadFile {
    fn clone(&self) -> (r: Self)
        ensures
            r@ == self@,
    {
        ReadFile { config: self.config.duplicate() }
    }
}

/// The pieces joined with `/` between each two.
pub open spec fn join_slash(parts: Seq<Seq<char>>) -> Seq<char>
    decreases parts.len(),
{
    if parts.len() == 0 {
        Seq::empty()
    } else if parts.len() == 1 {
        parts[0]
    } else {
        join_slash(parts.drop_last()) + seq!['/'] + parts.last()
    }
}

/// `Path::parent` of a path in normal form: the path without its last
/// component; `None` when it has none.
pub open spec fn parent_path(p: Seq<char>) -> Option<Seq<char>> {
    let c = path_components(p);
    if c.len() == 0 {
        None
    } else if is_absolute(p) {
        Some(seq!['/'] + join_slash(c.drop_last()))
    } else {
        Some(join_slash(c.drop_last()))
    }
}

/// The parent directory of a path.
pub fn parent_of(path: &str) -> (r: Option<String>)
    ensures
        match r {
            Some(q) => parent_path(path@) == Some(q@),
            None => parent_path(path@) is None,
        },
{
    let comps = path_components_of(path);
    let ghost c = strings_view(comps@);
    if comps.len() == 0 {
        return None;
    }
    proof {
        reveal_strlit("/");
    }
    let n = comps.len() - 1;
    let mut joined = String::new();
    let mut i: usize = 0;
    assert(c.drop_last().take(0) =~= Seq::<Seq<char>>::empty());
    while i < n
        invariant
            i <= n,
            n == comps@.len() - 1,
            c == strings_view(comps@),
            joined@ == join_slash(c.drop_last().take(i as int)),
            "/"@ == seq!['/'],
        decreases n - i,
    {
        let ghost d = c.drop_last();
        assert(d.take(i + 1).drop_last() =~= d.take(i as int));
        assert(d.take(i + 1).last() == comps@[i as int]@);
        if i > 0 {
            joined.append("/");
        } else {
            assert(d.take(1) =~= seq![comps@[0]@]);
        }
        joined.append(comps[i].as_str());
        i = i + 1;
    }
    assert(c.drop_last().take(n as int) =~= c.drop_last());
    if first_is_slash(path) {
        let mut out = String::from_str("/");
        out.append(joined.as_str());
        Some(out)
    } else {
        Some(joined)
    }
}

/// The arguments of a `write_file` call.
#[derive(Debug)]
pub struct WriteArgs {
    pub path: String,
    pub content: String,
    pub create_dirs: bool,
}

impl View for WriteArgs {
    type V = (Seq<char>, Seq<char>, bool);

    /// The path, the content and whether to create missing parent directories.
    open spec fn view(&self) -> (Seq<char>, Seq<char>, bool) {
        (self.path@, self.content@, self.create_dirs)
    }
}

/// The arguments a `write_file` call gives, or the message refusing it:
/// `path` and `content` are required strings, `create_dirs` a boolean that
/// defaults to `false`.
pub open spec fn write_arguments(args: Json) -> Result<(Seq<char>, Seq<char>, bool), Seq<char>> {
    match path_argument(args) {
        Err(m) => Err(m),
        Ok(p) => match args.str_field("content"@) {
            None => Err("missing required field: content"@),
            Some(c) => Ok(
                (
                    p,
                    c,
                    match args.bool_field("create_dirs"@) {
                        Some(b) => b,
                        None => false,
                    },
                ),
            ),
        },
    }
}

/// The answer of a successful write: how many bytes (of UTF-8) went where.
pub open spec fn write_report(path: Seq<char>, content: Seq<char>) -> Seq<char> {
    "written "@ + decimal_text(vstd::utf8::encode_utf8(content).len()) + " bytes to "@ + path
}

/// Writes UTF-8 text to a file under the workspace root.
#[derive(Debug)]
pub struct WriteFile {
    config: FsConfig,
}

impl View for WriteFile {
    type V = Seq<char>;

    /// The workspace root.
    closed spec fn view(&self) -> Seq<char> {
        self.config@
    }
}

impl WriteFile {
    pub fn new(config: FsConfig) -> (r: WriteFile)
        ensures
            r@ == config@,
    {
        WriteFile { config }
    }

    /// The workspace the tool writes in.
    pub fn config(&self) -> (r: &FsConfig)
        ensures
            r@ == self@,
    {
        &self.config
    }

    /// The declaration handed to the model: `write_file`, taking `path`,
    /// `content` and an optional `create_dirs`.
    pub fn schema(&self) -> (r: ToolSchema)
        ensures
            r@ == (ToolSchemaModel {
                name: "write_file"@,
                description: "Write UTF-8 text to a file path relative to the workspace root (overwrites)."@,
                parameters: write_parameters(),
            }),
    {
        let path = string_property("File path relative to workspace root");
        let content = string_property("Text content to write");
        let flag_entries = vec![
            JsonValue::entry("type", JsonValue::string("boolean")),
            JsonValue::entry(
                "description",
                JsonValue::string("If true, create parent directories. Default false."),
            ),
        ];
        assert(entries_model(flag_entries@) =~= seq![
            ("type"@, Json::Str("boolean"@)),
            ("description"@, Json::Str("If true, create parent directories. Default false."@)),
        ]);
        let flag = JsonValue::object(flag_entries);
        let props = vec![
            JsonValue::entry("path", path),
            JsonValue::entry("content", content),
            JsonValue::entry("create_dirs", flag),
        ];
        assert(entries_model(props@) =~= seq![
            ("path"@, path@),
            ("content"@, content@),
            ("create_dirs"@, flag@),
        ]);
        let properties = JsonValue::object(props);
        let req = vec![JsonValue::string("path"), JsonValue::string("content")];
        assert(items_model(req@) =~= seq![Json::Str("path"@), Json::Str("content"@)]);
        let required = JsonValue::array(req);
        let entries = vec![
            JsonValue::entry("type", JsonValue::string("object")),
            JsonValue::entry("properties", properties),
            JsonValue::entry("required", required),
        ];
        assert(entries_model(entries@) =~= seq![
            ("type"@, Json::Str("object"@)),
            ("properties"@, properties@),
            ("required"@, required@),
        ]);
        ToolSchema {
            name: String::from_str("write_file"),
            description: String::from_str(
                "Write UTF-8 text to a file path relative to the workspace root (overwrites).",
            ),
            parameters: JsonValue::object(entries),
        }
    }

    /// The arguments of a call.
    pub fn parse_args(args: &JsonValue) -> (r: Result<WriteArgs, ToolError>)
        ensures
            match r {
                Ok(w) => write_arguments(args@) == Ok::<(Seq<char>, Seq<char>, bool), Seq<char>>(
                    (w.path@, w.content@, w.create_dirs),
                ),
                Err(e) => write_arguments(args@) matches Err(m) && is_invalid_args(e, m),
            },
    {
        let path = match require_path_arg(args) {
            Ok(p) => p,
            Err(e) => {
                return Err(e);
            },
        };
        let content = match args.get_str("content") {
            Some(c) => String::from_str(c),
            None => {
                return Err(
                    ToolError::InvalidArgs(String::from_str("missing required field: content")),
                );
            },
        };
        let create_dirs = match args.get_bool("create_dirs") {
            Some(b) => b,
            None => false,
        };
        Ok(WriteArgs { path, content, create_dirs })
    }

    /// Refuses to write over a directory.
    pub fn check_target(path: &str, target: &Resolved) -> (r: Result<(), ToolError>)
        ensures
            r is Ok <==> target.kind != Some(EntryKind::Dir),
            r matches Err(e) ==> is_failure(e, "is a directory: "@ + path@),
    {
        match target.kind {
            Some(EntryKind::Dir) => {
                let mut m = String::from_str("is a directory: ");
                m.append(path);
                Err(ToolError::ExecutionFailed(m))
            },
            _ => Ok(()),
        }
    }

    /// What to do about the parent directory: create it (`Ok(true)`) when asked
    /// to, otherwise nothing (`Ok(false)`) when it exists, and an error when it
    /// does not.
    pub fn parent_plan(parent: &str, create_dirs: bool, parent_exists: bool) -> (r: Result<
        bool,
        ToolError,
    >)
        ensures
            create_dirs ==> r == Ok::<bool, ToolError>(true),
            !create_dirs && parent_exists ==> r == Ok::<bool, ToolError>(false),
            !create_dirs && !parent_exists ==> (r matches Err(e) && is_failure(
                e,
                "parent directory does not exist: "@ + parent@,
            )),
    {
        if create_dirs {
            Ok(true)
        } else if !parent_exists {
            let mut m = String::from_str("parent directory does not exist: ");
            m.append(parent);
            Err(ToolError::ExecutionFailed(m))
        } else {
            Ok(false)
        }
    }

    /// The answer once the content is written.
    pub fn report(path: &str, content: &str) -> (r: String)
        requires
            vstd::utf8::encode_utf8(content@).len() <= usize::MAX,
        ensures
            r@ == write_report(path@, content@),
    {
        let mut out = String::from_str("written ");
        push_decimal(&mut out, content.len() as u64);
        out.append(" bytes to ");
        out.append(path);
        out
    }
}

impl Clone for WriteFile {
    fn clone(&self) -> (r: Self)
        ensures
            r@ == self@,
    {
        WriteFile { config: self.config.duplicate() }
    }
}

/// The parameters schema of `write_file`.
pub open spec fn write_parameters() -> Json {
    Json::Object(
        seq![
            ("type"@, Json::Str("object"@)),
            (
                "properties"@,
                Json::Object(
                    seq![
                        (
                            "path"@,
                            Json::Object(
                                seq![
                                    ("type"@, Json::Str("string"@)),
                                    ("description"@, Json::Str("File path relative to workspace root"@)),
                                ],
                            ),
                        ),
                        (
                            "content"@,
                            Json::Object(
                                seq![
                                    ("type"@, Json::Str("string"@)),
                                    ("description"@, Json::Str("Text content to write"@)),
                                ],
                            ),
                        ),
                        (
                            "create_dirs"@,
                            Json::Object(
                                seq![
                                    ("type"@, Json::Str("boolean"@)),
                                    (
                                        "description"@,
                                        Json::Str(
                                            "If true, create parent directories. Default false."@,
                                        ),
                                    ),
                                ],
                            ),
                        ),
                    ],
                ),
            ),
            ("required"@, Json::Array(seq![Json::Str("path"@), Json::Str("content"@)])),
        ],
    )
}

/// How `list_dir` shows an entry: a directory's name ends with `/`.
pub open spec fn entry_label(name: Seq<char>, is_dir: bool) -> Seq<char> {
    if is_dir {
        name + seq!['/']
    } else {
        name
    }
}

/// The labels of directory entries, each a name and whether it is a directory.
pub open spec fn entry_labels(entries: Seq<(String, bool)>) -> Seq<Seq<char>> {
    entries.map_values(|e: (String, bool)| entry_label(e.0@, e.1))
}

/// The texts joined with newlines.
fn join_texts(v: &Vec<String>) -> (r: String)
    ensures
        r@ == join_lines(texts_of(v@)),
{
    let ghost t = texts_of(v@);
    let mut r = String::new();
    let mut i: usize = 0;
    proof {
        reveal_strlit("\n");
    }
    assert(t.take(0) =~= Seq::<Seq<char>>::empty());
    while i < v.len()
        invariant
            i <= v@.len(),
            t == texts_of(v@),
            r@ == join_lines(t.take(i as int)),
            "\n"@ == seq!['\n'],
        decreases v@.len() - i,
    {
        assert(t.take(i + 1) =~= t.take(i as int).push(v@[i as int]@));
        proof {
            lemma_join_push(t.take(i as int), v@[i as int]@);
        }
        if i > 0 {
            r.append("\n");
        }
        r.append(v[i].as_str());
        i = i + 1;
    }
    assert(t.take(i as int) =~= t);
    r
}

/// Lists the entries of a directory under the workspace root (not recursive).
#[derive(Debug)]
pub struct ListDir {
    config: FsConfig,
}

impl View for ListDir {
    type V = Seq<char>;

    /// The workspace root.
    closed spec fn view(&self) -> Seq<char> {
        self.config@
    }
}

impl ListDir {
    pub fn new(config: FsConfig) -> (r: ListDir)
        ensures
            r@ == config@,
    {
        ListDir { config }
    }

    /// The workspace the tool lists in.
    pub fn config(&self) -> (r: &FsConfig)
        ensures
            r@ == self@,
    {
        &self.config
    }

    /// The declaration handed to the model: `list_dir`, taking a `path`.
    pub fn schema(&self) -> (r: ToolSchema)
        ensures
            r@ == (ToolSchemaModel {
                name: "list_dir"@,
                description: "List files and directories at a path relative to the workspace root."@,
                parameters: path_parameters(
                    "Directory path relative to workspace root; use \".\" for root"@,
                ),
            }),
    {
        ToolSchema {
            name: String::from_str("list_dir"),
            description: String::from_str(
                "List files and directories at a path relative to the workspace root.",
            ),
            parameters: path_schema("Directory path relative to workspace root; use \".\" for root"),
        }
    }

    /// Refuses a path that is not a directory.
    pub fn check_target(path: &str, target: &Resolved) -> (r: Result<(), ToolError>)
        ensures
            r is Ok <==> target.kind == Some(EntryKind::Dir),
            r matches Err(e) ==> is_failure(e, "not a directory: "@ + path@),
    {
        match target.kind {
            Some(EntryKind::Dir) => Ok(()),
            _ => {
                let mut m = String::from_str("not a directory: ");
                m.append(path);
                Err(ToolError::ExecutionFailed(m))
            },
        }
    }

    /// The listing: one line per entry, directories marked with a trailing `/`,
    /// in ascending order.
    pub fn render(entries: Vec<(String, bool)>) -> (r: String)
        ensures
            exists|names: Seq<Seq<char>>|
                {
                    &&& texts_sorted(names)
                    &&& names.to_multiset() == entry_labels(entries@).to_multiset()
                    &&& r@ == join_lines(names)
                },
    {
        let mut labels: Vec<String> = Vec::new();
        let mut i: usize = 0;
        proof {
            reveal_strlit("/");
        }
        assert(texts_of(labels@) =~= entry_labels(entries@).take(0));
        while i < entries.len()
            invariant
                i <= entries@.len(),
                texts_of(labels@) == entry_labels(entries@).take(i as int),
                "/"@ == seq!['/'],
            decreases entries@.len() - i,
        {
            let mut label = entries[i].0.clone();
            if entries[i].1 {
                label.append("/");
            }
            assert(label@ == entry_label(entries@[i as int].0@, entries@[i as int].1));
            let ghost before = labels@;
            let ghost l = label@;
            labels.push(label);
            assert(texts_of(labels@) =~= texts_of(before).push(l));
            assert(texts_of(labels@) =~= entry_labels(entries@).take(i + 1));
            i = i + 1;
        }
        assert(entry_labels(entries@).take(i as int) =~= entry_labels(entries@));
        let sorted = sort_texts(labels);
        join_texts(&sorted)
    }
}

impl Clone for ListDir {
    fn clone(&self) -> (r: Self)
        ensures
            r@ == self@,
    {
        ListDir { config: self.config.duplicate() }
    }
}

proof fn lemma_floor_from(bytes: Seq<u8>, e: int)
    requires
        0 <= e <= bytes.len(),
    ensures
        0 <= floor_from(bytes, e) <= e,
        floor_from(bytes, e) == 0 || floor_from(bytes, e) == bytes.len()
            || !vstd::utf8::is_continuation_byte(bytes[floor_from(bytes, e)]),
    decreases e,
{
    if 0 < e < bytes.len() && vstd::utf8::is_continuation_byte(bytes[e]) {
        lemma_floor_from(bytes, e - 1);
    }
}

/// On valid UTF-8 the floor that reads cut at is a character boundary, so the
/// kept bytes never end inside a character.
pub proof fn lemma_boundary_floor_is_char_boundary(bytes: Seq<u8>, limit: int)
    requires
        vstd::utf8::valid_utf8(bytes),
        0 <= limit,
    ensures
        0 <= boundary_floor(bytes, limit) <= bytes.len(),
        boundary_floor(bytes, limit) <= limit,
        vstd::utf8::is_char_boundary(bytes, boundary_floor(bytes, limit)),
{
    let start = if limit < bytes.len() {
        limit
    } else {
        bytes.len() as int
    };
    lemma_floor_from(bytes, start);
    let r = floor_from(bytes, start);
    vstd::utf8::is_char_boundary_start_end_of_seq(bytes);
    if 0 < r < bytes.len() {
        vstd::utf8::is_char_boundary_iff_not_is_continuation_byte(bytes, r);
    }
}

/// Reading a valid UTF-8 file never fails, and the text it returns starts with a
/// prefix of the file's text: the whole text when the file is short enough.
pub proof fn lemma_read_valid_utf8(path: Seq<char>, bytes: Seq<u8>)
    requires
        vstd::utf8::valid_utf8(bytes),
    ensures
        read_output(path, bytes) is Ok,
        bytes.len() <= MAX_READ_BYTES ==> read_output(path, bytes) == Ok::<Seq<char>, Seq<char>>(
            vstd::utf8::decode_utf8(bytes),
        ),
        bytes.len() > MAX_READ_BYTES ==> {
            let kept = vstd::utf8::decode_utf8(bytes.take(boundary_floor(bytes, MAX_READ_BYTES as int)));
            &&& kept.is_prefix_of(vstd::utf8::decode_utf8(bytes))
            &&& read_output(path, bytes) matches Ok(t) && kept.is_prefix_of(t)
        },
{
    if bytes.len() > MAX_READ_BYTES {
        let f = boundary_floor(bytes, MAX_READ_BYTES as int);
        lemma_boundary_floor_is_char_boundary(bytes, MAX_READ_BYTES as int);
        vstd::utf8::valid_utf8_split(bytes, f);
        vstd::utf8::decode_utf8_split(bytes, f);
        assert(bytes.take(f) =~= bytes.subrange(0, f));
        let kept = vstd::utf8::decode_utf8(bytes.take(f));
        let whole = vstd::utf8::decode_utf8(bytes);
        assert(kept =~= whole.subrange(0, kept.len() as int));
        match read_output(path, bytes) {
            Ok(t) => {
                assert(kept =~= t.subrange(0, kept.len() as int));
            },
            Err(_) => {},
        }
    }
}

/// A piece without `/` separators.
pub open spec fn no_slash(part: Seq<char>) -> bool {
    forall|j: int| 0 <= j < part.len() ==> part[j] != '/'
}

proof fn lemma_split_slash_extend(s: Seq<char>, t: Seq<char>)
    requires
        no_slash(t),
    ensures
        split_slash(s + t) == split_slash(s).update(
            split_slash(s).len() - 1,
            split_slash(s).last() + t,
        ),
    decreases t.len(),
{
    lemma_split_slash_len(s);
    if t.len() == 0 {
        assert(s + t =~= s);
        assert(split_slash(s).last() + t =~= split_slash(s).last());
        assert(split_slash(s).update(split_slash(s).len() - 1, split_slash(s).last())
            =~= split_slash(s));
    } else {
        let u = t.drop_last();
        assert(no_slash(u)) by {
            assert forall|j: int| 0 <= j < u.len() implies u[j] != '/' by {
                assert(u[j] == t[j]);
            }
        }
        lemma_split_slash_extend(s, u);
        assert((s + t).drop_last() =~= s + u);
        assert((s + t).last() == t.last());
        assert(t.last() == t[t.len() - 1]);
        assert(t.last() != '/');
        let p = split_slash(s + u);
        assert(split_slash(s + t) == p.update(p.len() - 1, p.last().push(t.last())));
        assert((split_slash(s).last() + u).push(t.last()) =~= split_slash(s).last() + t);
        assert(p.len() == split_slash(s).len());
        assert(p.last() == split_slash(s).last() + u);
        assert(split_slash(s + t) =~= split_slash(s).update(
            split_slash(s).len() - 1,
            split_slash(s).last() + t,
        ));
    }
}

/// Pushing a component onto a path adds exactly that component.
pub proof fn lemma_push_part_components(base: Seq<char>, part: Seq<char>)
    requires
        is_component(part),
        no_slash(part),
    ensures
        path_components(push_part(base, part)) == path_components(base).push(part),
{
    if base.len() > 0 && base.last() == '/' {
        let b0 = base.drop_last();
        assert(base =~= b0 + seq!['/']);
        assert((b0 + seq!['/']).drop_last() =~= b0);
        lemma_split_slash_len(b0);
        lemma_split_slash_extend(base, part);
        assert(split_slash(base) =~= split_slash(b0).push(Seq::<char>::empty()));
        assert(split_slash(base + part) =~= split_slash(b0).push(part));
        lemma_components_push(split_slash(b0), Seq::<char>::empty());
        lemma_components_push(split_slash(b0), part);
    } else {
        let b1 = base + seq!['/'];
        assert(b1.drop_last() =~= base);
        lemma_split_slash_extend(b1, part);
        assert(split_slash(b1) =~= split_slash(base).push(Seq::<char>::empty()));
        assert(push_part(base, part) =~= b1 + part);
        assert(split_slash(b1 + part) =~= split_slash(base).push(part));
        lemma_components_push(split_slash(base), part);
    }
}

/// A component without separators.
pub open spec fn is_clean(part: Seq<char>) -> bool {
    is_component(part) && no_slash(part)
}

/// The parts `walk` keeps are clean and none is `..`.
proof fn lemma_walk_parts(parts: Seq<Seq<char>>)
    requires
        forall|i: int| 0 <= i < parts.len() ==> is_clean(#[trigger] parts[i]),
    ensures
        walk(parts) matches Some(e) ==> forall|i: int|
            0 <= i < e.len() ==> is_clean(#[trigger] e[i]) && e[i] != seq!['.', '.'],
    decreases parts.len(),
{
    if parts.len() > 0 {
        assert forall|i: int| 0 <= i < parts.drop_last().len() implies is_clean(
            #[trigger] parts.drop_last()[i],
        ) by {
            assert(parts.drop_last()[i] == parts[i]);
        }
        lemma_walk_parts(parts.drop_last());
        assert(is_clean(parts[parts.len() - 1]));
    }
}

proof fn lemma_join_parts_components(base: Seq<char>, e: Seq<Seq<char>>)
    requires
        forall|i: int| 0 <= i < e.len() ==> is_clean(#[trigger] e[i]),
    ensures
        path_components(join_parts(base, e)) == path_components(base) + e,
        base.len() > 0 ==> join_parts(base, e).len() > 0 && join_parts(base, e)[0] == base[0],
    decreases e.len(),
{
    if e.len() == 0 {
        assert(path_components(base) + e =~= path_components(base));
    } else {
        assert forall|i: int| 0 <= i < e.drop_last().len() implies is_clean(
            #[trigger] e.drop_last()[i],
        ) by {
            assert(e.drop_last()[i] == e[i]);
        }
        lemma_join_parts_components(base, e.drop_last());
        assert(is_clean(e[e.len() - 1]));
        lemma_push_part_components(join_parts(base, e.drop_last()), e.last());
        assert(path_components(base) + e =~= (path_components(base) + e.drop_last()).push(e.last()));
    }
}

proof fn lemma_split_pieces_clean(s: Seq<char>)
    ensures
        forall|i: int| 0 <= i < split_slash(s).len() ==> no_slash(#[trigger] split_slash(s)[i]),
    decreases s.len(),
{
    if s.len() > 0 {
        lemma_split_pieces_clean(s.drop_last());
        lemma_split_slash_len(s.drop_last());
        let p = split_slash(s.drop_last());
        if s.last() != '/' {
            assert forall|i: int| 0 <= i < split_slash(s).len() implies no_slash(
                #[trigger] split_slash(s)[i],
            ) by {
                if i == p.len() - 1 {
                    let q = p.last().push(s.last());
                    assert(split_slash(s)[i] == q);
                    assert(no_slash(p[i]));
                    assert forall|j: int| 0 <= j < q.len() implies q[j] != '/' by {
                        if j < p.last().len() {
                            assert(q[j] == p[i][j]);
                        }
                    }
                } else {
                    assert(split_slash(s)[i] == p[i]);
                }
            }
        } else {
            assert forall|i: int| 0 <= i < split_slash(s).len() implies no_slash(
                #[trigger] split_slash(s)[i],
            ) by {
                if i < p.len() {
                    assert(split_slash(s)[i] == p[i]);
                }
            }
        }
    }
}

proof fn lemma_components_of_clean(parts: Seq<Seq<char>>)
    requires
        forall|i: int| 0 <= i < parts.len() ==> no_slash(#[trigger] parts[i]),
    ensures
        forall|i: int|
            0 <= i < components_of(parts).len() ==> is_clean(#[trigger] components_of(parts)[i]),
    decreases parts.len(),
{
    if parts.len() > 0 {
        assert forall|i: int| 0 <= i < parts.drop_last().len() implies no_slash(
            #[trigger] parts.drop_last()[i],
        ) by {
            assert(parts.drop_last()[i] == parts[i]);
        }
        lemma_components_of_clean(parts.drop_last());
        assert(no_slash(parts[parts.len() - 1]));
        let k = components_of(parts.drop_last());
        assert(parts.last() == parts[parts.len() - 1]);
        assert(components_of(parts) == (if is_component(parts.last()) {
            k.push(parts.last())
        } else {
            k
        }));
        assert forall|i: int| 0 <= i < components_of(parts).len() implies is_clean(
            #[trigger] components_of(parts)[i],
        ) by {
            if i < k.len() {
                assert(components_of(parts)[i] == k[i]);
            }
        }
    }
}

/// Every piece `path_components` yields is a clean component.
proof fn lemma_components_clean(s: Seq<char>)
    ensures
        forall|i: int|
            0 <= i < path_components(s).len() ==> is_clean(#[trigger] path_components(s)[i]),
{
    lemma_split_pieces_clean(s);
    lemma_components_of_clean(split_slash(s));
}

/// No relative path leads out of the workspace by its text: where
/// [`FsConfig::resolve_lexical`] accepts a path, the result lies under the root.
pub proof fn lemma_lexical_target_within(root: Seq<char>, raw: Seq<char>)
    requires
        root.len() > 0,
    ensures
        lexical_target(root, raw) matches Ok(p) ==> within(p, root),
{
    match relative_path(raw) {
        Err(_) => {},
        Ok(t) => {
            lemma_components_clean(t);
            lemma_walk_parts(path_components(t));
            match walk(path_components(t)) {
                None => {},
                Some(e) => {
                    lemma_join_parts_components(root, e);
                    let p = join_parts(root, e);
                    assert(path_components(root) =~= path_components(p).subrange(
                        0,
                        path_components(root).len() as int,
                    ));
                },
            }
        },
    }
}

} // verus!
