//! Project bookkeeping: the format and version rules of project files, the
//! paths that project files store relative to the project directory, the
//! open-project state and the list of recently opened files.

use vstd::prelude::*;

use crate::node_graph::ops::{GraphNode, SceneGraph};
use crate::node_graph::SceneNode;
use crate::paths::{
    extension, file_name, make_absolute, make_relative, spec_extension, spec_file_name,
    is_normal_absolute, lemma_make_relative_round_trip, same_path, spec_components,
    spec_make_absolute, spec_make_relative,
};
use crate::text::{decimal, push_decimal, string_from_chars, texts};

verus! {

/// Current project file format version.
pub const FORMAT_VERSION: u32 = 1;

/// Maximum number of recent files that are kept.
pub const MAX_RECENT_FILES: usize = 8;

/// Answer to the "Save changes?" prompt.
#[derive(Debug, Clone, Copy, PartialEq, Eq, Structural)]
pub enum SavePromptResult {
    /// Save, then proceed.
    Save,
    /// Discard the changes and proceed.
    Discard,
    /// Abort the action.
    Cancel,
}

/// Encoding of a project file.
#[derive(Debug, Clone, Copy, PartialEq, Eq, Structural)]
pub enum ProjectFormat {
    /// `.bif`: binary, fast, not forward-compatible.
    Binary,
    /// `.bifa` (and any other extension): pretty-printed JSON.
    Json,
}

/// The encoding of the project file at `path`: binary for a `.bif`
/// extension, JSON otherwise.
pub fn project_format(path: &str) -> (f: ProjectFormat)
    ensures
        f == (if spec_extension(path@) == Some("bif"@) {
            ProjectFormat::Binary
        } else {
            ProjectFormat::Json
        }),
{
    proof {
        reveal_strlit("bif");
    }
    match extension(path) {
        Some(e) => {
            if e.len() == 3 && e[0] == 'b' && e[1] == 'i' && e[2] == 'f' {
                assert(e@ == "bif"@);
                ProjectFormat::Binary
            } else {
                assert(e@ != "bif"@) by {
                    if e@ == "bif"@ {
                        assert(e@.len() == 3 && e@[0] == 'b' && e@[1] == 'i' && e@[2] == 'f');
                    }
                }
                ProjectFormat::Json
            }
        },
        None => ProjectFormat::Json,
    }
}

/// A project file written by a newer version of the format.
#[derive(Debug, Clone, Copy, PartialEq, Eq, Structural)]
pub struct VersionError {
    /// Version found in the file.
    pub found: u32,
    /// Newest version this build reads.
    pub supported: u32,
}

/// Message of a version error.
pub open spec fn version_message(found: nat, supported: nat) -> Seq<char> {
    "Project file version "@ + decimal(found) + " is newer than supported version "@ + decimal(
        supported,
    ) + ". Please update BIF."@
}

impl VersionError {
    /// The message shown for the error.
    pub fn message(&self) -> (s: String)
        ensures
            s@ == version_message(self.found as nat, self.supported as nat),
    {
        let mut s = String::from_str("Project file version ");
        push_decimal(&mut s, self.found as u64);
        s.append(" is newer than supported version ");
        push_decimal(&mut s, self.supported as u64);
        s.append(". Please update BIF.");
        s
    }
}

/// Accepts a loaded project's version unless it is newer than
/// [`FORMAT_VERSION`].
pub fn check_project_version(version: u32) -> (r: Result<(), VersionError>)
    ensures
        r is Ok <==> version <= FORMAT_VERSION,
        r matches Err(e) ==> e.found == version && e.supported == FORMAT_VERSION,
{
    if version > FORMAT_VERSION {
        Err(VersionError { found: version, supported: FORMAT_VERSION })
    } else {
        Ok(())
    }
}

/// A file path made relative to the project directory `dir`
/// (`to_relative`), or resolved against it.
pub open spec fn mapped_path(to_relative: bool, dir: Seq<char>, p: Seq<char>) -> Seq<char> {
    if to_relative {
        spec_make_relative(p, dir)
    } else {
        spec_make_absolute(p, dir)
    }
}

/// Whether `b` is node `a` with its file path (the file a node reads, or the
/// file an export node writes) made relative to `dir` (`to_relative`) or
/// resolved against it, and nothing else changed; nodes without a file path
/// are unchanged.
pub open spec fn path_mapped(a: SceneNode, b: SceneNode, to_relative: bool, dir: Seq<char>) -> bool {
    match a {
        SceneNode::UsdRead { file_path, is_loaded, error } => match b {
            SceneNode::UsdRead { file_path: p2, is_loaded: l2, error: e2 } => p2@ == mapped_path(to_relative, dir, file_path@)
                && l2 == is_loaded && e2 == error,
            _ => false,
        },
        SceneNode::HdriEnvironment { file_path, is_loaded, is_loading, show_background, error } =>
            match b {
            SceneNode::HdriEnvironment {
                file_path: p2,
                is_loaded: l2,
                is_loading: g2,
                show_background: s2,
                error: e2,
            } => p2@ == mapped_path(to_relative, dir, file_path@) && l2 == is_loaded && g2 == is_loading && s2 == show_background
                && e2 == error,
            _ => false,
        },
        SceneNode::UsdExport { output_path, as_sublayer, export_root, is_exported, last_result } =>
            match b {
            SceneNode::UsdExport {
                output_path: p2,
                as_sublayer: a2,
                export_root: r2,
                is_exported: x2,
                last_result: l2,
            } => p2@ == mapped_path(to_relative, dir, output_path@) && a2 == as_sublayer && r2 == export_root && x2
                == is_exported && l2 == last_result,
            _ => false,
        },
        _ => b == a,
    }
}

/// The file a node reads or writes: the path of a USD Read or HDRI
/// Environment node, the output path of a USD Export node; none for the rest.
pub open spec fn node_file_path(n: SceneNode) -> Option<Seq<char>> {
    match n {
        SceneNode::UsdRead { file_path, .. } => Some(file_path@),
        SceneNode::HdriEnvironment { file_path, .. } => Some(file_path@),
        SceneNode::UsdExport { output_path, .. } => Some(output_path@),
        _ => None,
    }
}

/// Saving makes the file path of every node that has one (USD Read, HDRI
/// Environment, USD Export) relative to the project directory, loading makes
/// it absolute again; the node keeps its kind, and a node without a file path
/// is left as it is.
pub proof fn lemma_every_file_path_is_mapped(a: SceneNode, b: SceneNode, to_relative: bool, dir: Seq<char>)
    requires
        path_mapped(a, b, to_relative, dir),
    ensures
        node_file_path(b) == match node_file_path(a) {
            Some(p) => Some(
                if to_relative {
                    spec_make_relative(p, dir)
                } else {
                    spec_make_absolute(p, dir)
                },
            ),
            None => None,
        },
        a is UsdRead <==> b is UsdRead,
        a is HdriEnvironment <==> b is HdriEnvironment,
        a is UsdExport <==> b is UsdExport,
        node_file_path(a) is None ==> b == a,
{
}

/// Saving and loading again gives each node back its file path, when that
/// path is an absolute path in normal form that lies below the project
/// directory.
pub proof fn lemma_file_path_survives_save_and_load(
    a: SceneNode,
    saved: SceneNode,
    loaded: SceneNode,
    dir: Seq<char>,
)
    requires
        path_mapped(a, saved, true, dir),
        path_mapped(saved, loaded, false, dir),
        is_normal_absolute(dir),
        node_file_path(a) matches Some(p) && is_normal_absolute(p) && spec_components(p).len()
            >= spec_components(dir).len() && spec_components(p).take(
            spec_components(dir).len() as int,
        ) == spec_components(dir) && spec_components(p) != spec_components(dir),
    ensures
        node_file_path(saved) == Some(spec_make_relative(node_file_path(a)->0, dir)),
        node_file_path(loaded) == node_file_path(a),
{
    let p = node_file_path(a)->0;
    lemma_every_file_path_is_mapped(a, saved, true, dir);
    lemma_every_file_path_is_mapped(saved, loaded, false, dir);
    lemma_make_relative_round_trip(p, dir, dir);
}

/// Maps the file path of one node between absolute and project-relative form.
fn map_node_path(node: SceneNode, project_dir: &str, to_relative: bool) -> (r: SceneNode)
    ensures
        path_mapped(node, r, to_relative, project_dir@),
{
    match node {
        SceneNode::UsdRead { file_path, is_loaded, error } => {
            let p = if to_relative {
                make_relative(file_path.as_str(), project_dir)
            } else {
                make_absolute(file_path.as_str(), project_dir)
            };
            SceneNode::UsdRead { file_path: p, is_loaded, error }
        },
        SceneNode::HdriEnvironment { file_path, is_loaded, is_loading, show_background, error } => {
            let p = if to_relative {
                make_relative(file_path.as_str(), project_dir)
            } else {
                make_absolute(file_path.as_str(), project_dir)
            };
            SceneNode::HdriEnvironment { file_path: p, is_loaded, is_loading, show_background, error }
        },
        SceneNode::UsdExport { output_path, as_sublayer, export_root, is_exported, last_result } => {
            let p = if to_relative {
                make_relative(output_path.as_str(), project_dir)
            } else {
                make_absolute(output_path.as_str(), project_dir)
            };
            SceneNode::UsdExport {
                output_path: p,
                as_sublayer,
                export_root,
                is_exported,
                last_result,
            }
        },
        other => other,
    }
}

/// Maps the file paths of every node of the graph.
fn map_graph_paths(graph: &mut SceneGraph, project_dir: &str, to_relative: bool)
    ensures
        final(graph).wires == old(graph).wires,
        final(graph).nodes@.len() == old(graph).nodes@.len(),
        forall|i: int|
            0 <= i < old(graph).nodes@.len() ==> #[trigger] final(graph).nodes@[i].id == old(
                graph,
            ).nodes@[i].id && path_mapped(
                old(graph).nodes@[i].node,
                final(graph).nodes@[i].node,
                to_relative, project_dir@,
            ),
{
    let ghost n0 = graph.nodes@;
    let mut rest: Vec<GraphNode> = Vec::new();
    std::mem::swap(&mut rest, &mut graph.nodes);
    let mut out: Vec<GraphNode> = Vec::new();
    while rest.len() > 0
        invariant
            out@.len() + rest@.len() == n0.len(),
            rest@ == n0.skip(out@.len() as int),
            forall|i: int|
                0 <= i < out@.len() ==> #[trigger] out@[i].id == n0[i].id && path_mapped(
                    n0[i].node,
                    out@[i].node,
                    to_relative,
                    project_dir@,
                ),
        decreases rest@.len(),
    {
        let ghost k: int = out@.len() as int;
        let ghost before = rest@;
        let gn = rest.remove(0);
        assert(gn == n0[k]);
        assert(rest@ == n0.skip(k + 1)) by {
            assert(before.remove(0) == n0.skip(k + 1));
        }
        let GraphNode { id, node } = gn;
        let mapped = map_node_path(node, project_dir, to_relative);
        let ghost out_old = out@;
        out.push(GraphNode { id, node: mapped });
        assert forall|i: int| 0 <= i < out@.len() implies #[trigger] out@[i].id == n0[i].id && path_mapped(n0[i].node, out@[i].node, to_relative, project_dir@) by {
            if i < out_old.len() {
                assert(out@[i] == out_old[i]);
            }
        }
    }
    graph.nodes = out;
}

/// Turns the absolute file paths of the nodes into paths relative to the
/// project directory (before saving).
pub fn relativize_paths(graph: &mut SceneGraph, project_dir: &str)
    ensures
        final(graph).wires == old(graph).wires,
        final(graph).nodes@.len() == old(graph).nodes@.len(),
        forall|i: int|
            0 <= i < old(graph).nodes@.len() ==> #[trigger] final(graph).nodes@[i].id == old(
                graph,
            ).nodes@[i].id && path_mapped(
                old(graph).nodes@[i].node,
                final(graph).nodes@[i].node,
                true, project_dir@,
            ),
{
    map_graph_paths(graph, project_dir, true);
}

/// Resolves the project-relative file paths of the nodes against the project
/// directory (after loading).
pub fn absolutize_paths(graph: &mut SceneGraph, project_dir: &str)
    ensures
        final(graph).wires == old(graph).wires,
        final(graph).nodes@.len() == old(graph).nodes@.len(),
        forall|i: int|
            0 <= i < old(graph).nodes@.len() ==> #[trigger] final(graph).nodes@[i].id == old(
                graph,
            ).nodes@[i].id && path_mapped(
                old(graph).nodes@[i].node,
                final(graph).nodes@[i].node,
                false, project_dir@,
            ),
{
    map_graph_paths(graph, project_dir, false);
}

/// The open project: its file (none while untitled) and whether it has
/// unsaved changes.
pub struct ProjectState {
    /// Path of the open project file; `None` while untitled.
    pub file_path: Option<String>,
    /// Whether there are unsaved changes.
    pub dirty: bool,
}

/// The window title of a project state.
pub open spec fn title_of(file_path: Option<Seq<char>>, dirty: bool) -> Seq<char> {
    let name = match file_path {
        Some(p) => match spec_file_name(p) {
            Some(n) => n,
            None => "Untitled"@,
        },
        None => "Untitled"@,
    };
    if dirty {
        "BIF - "@ + name + " *"@
    } else {
        "BIF - "@ + name
    }
}

impl ProjectState {
    /// An untitled project without changes.
    pub fn new() -> (s: ProjectState)
        ensures
            s.file_path is None,
            !s.dirty,
    {
        ProjectState { file_path: None, dirty: false }
    }

    /// Records unsaved changes.
    pub fn mark_dirty(&mut self)
        ensures
            final(self).dirty,
            final(self).file_path == old(self).file_path,
    {
        self.dirty = true;
    }

    /// Clears the unsaved-changes flag (after a save).
    pub fn mark_clean(&mut self)
        ensures
            !final(self).dirty,
            final(self).file_path == old(self).file_path,
    {
        self.dirty = false;
    }

    /// Window title: `BIF - <file name>` (`Untitled` without one), with ` *`
    /// after it while there are unsaved changes.
    pub fn window_title(&self) -> (t: String)
        ensures
            t@ == title_of(
                match self.file_path {
                    Some(p) => Some(p@),
                    None => None,
                },
                self.dirty,
            ),
    {
        let name = match &self.file_path {
            Some(p) => match file_name(p.as_str()) {
                Some(n) => string_from_chars(n.as_slice()),
                None => String::from_str("Untitled"),
            },
            None => String::from_str("Untitled"),
        };
        let mut t = String::from_str("BIF - ");
        t.append(name.as_str());
        if self.dirty {
            t.append(" *");
        }
        t
    }
}

impl Default for ProjectState {
    /// An untitled project without changes.
    fn default() -> (s: ProjectState)
        ensures
            s.file_path is None,
            !s.dirty,
    {
        ProjectState::new()
    }
}

/// Recently opened project files, most recent first.
pub struct RecentFiles {
    /// The paths, most recent first, each once, at most [`MAX_RECENT_FILES`].
    pub paths: Vec<String>,
}

/// The paths that are not the same path as `path` (compared by components,
/// as `Path` compares), in order.
pub open spec fn without(paths: Seq<Seq<char>>, path: Seq<char>) -> Seq<Seq<char>>
    decreases paths.len(),
{
    if paths.len() == 0 {
        seq![]
    } else if spec_components(paths.last()) == spec_components(path) {
        without(paths.drop_last(), path)
    } else {
        without(paths.drop_last(), path).push(paths.last())
    }
}

/// The list after opening `path`: `path` first, then the earlier entries
/// without it, cut to [`MAX_RECENT_FILES`].
pub open spec fn recent_after_add(paths: Seq<Seq<char>>, path: Seq<char>) -> Seq<Seq<char>> {
    let l = seq![path] + without(paths, path);
    if l.len() > MAX_RECENT_FILES {
        l.take(MAX_RECENT_FILES as int)
    } else {
        l
    }
}

/// The paths whose flag is set, in order.
pub open spec fn kept_existing(paths: Seq<Seq<char>>, exists: Seq<bool>) -> Seq<Seq<char>>
    decreases paths.len(),
{
    if paths.len() == 0 || exists.len() == 0 {
        seq![]
    } else if exists.last() {
        kept_existing(paths.drop_last(), exists.drop_last()).push(paths.last())
    } else {
        kept_existing(paths.drop_last(), exists.drop_last())
    }
}

impl RecentFiles {
    /// An empty list.
    pub fn new() -> (r: RecentFiles)
        ensures
            r.paths@.len() == 0,
    {
        RecentFiles { paths: Vec::new() }
    }

    /// Puts `path` (already normalized by the caller) first, removing the
    /// earlier entries for the same path (with the same components), and
    /// keeps at most [`MAX_RECENT_FILES`] entries.
    pub fn add(&mut self, path: &str)
        ensures
            texts(final(self).paths@) == recent_after_add(texts(old(self).paths@), path@),
    {
        let ghost p0 = texts(self.paths@);
        let mut kept: Vec<String> = Vec::new();
        kept.push(String::from_str(path));
        let mut i: usize = 0;
        while i < self.paths.len()
            invariant
                p0 == texts(self.paths@),
                i <= self.paths@.len(),
                texts(kept@) == seq![path@] + without(p0.take(i as int), path@),
            decreases self.paths@.len() - i,
        {
            let ghost before = texts(kept@);
            assert(p0.take(i + 1).drop_last() == p0.take(i as int));
            assert(p0.take(i + 1).last() == p0[i as int]);
            if !same_path(self.paths[i].as_str(), path) {
                kept.push(self.paths[i].clone());
                assert(texts(kept@) == before.push(p0[i as int]));
            }
            i = i + 1;
        }
        assert(p0.take(p0.len() as int) == p0);
        if kept.len() > MAX_RECENT_FILES {
            kept.truncate(MAX_RECENT_FILES);
            assert(texts(kept@) == (seq![path@] + without(p0, path@)).take(MAX_RECENT_FILES as int));
        }
        self.paths = kept;
    }

    /// Drops the paths that no longer exist: `exists[i]` tells whether
    /// `paths[i]` exists on disk. The others stay, in order.
    pub fn prune(&mut self, exists: &Vec<bool>)
        requires
            exists@.len() == old(self).paths@.len(),
        ensures
            texts(final(self).paths@) == kept_existing(texts(old(self).paths@), exists@),
    {
        let ghost p0 = texts(self.paths@);
        let mut kept: Vec<String> = Vec::new();
        let mut i: usize = 0;
        while i < self.paths.len()
            invariant
                p0 == texts(self.paths@),
                exists@.len() == p0.len(),
                i <= p0.len(),
                texts(kept@) == kept_existing(p0.take(i as int), exists@.take(i as int)),
            decreases p0.len() - i,
        {
            let ghost before = texts(kept@);
            assert(p0.take(i + 1).drop_last() == p0.take(i as int));
            assert(exists@.take(i + 1).drop_last() == exists@.take(i as int));
            assert(p0.take(i + 1).last() == p0[i as int]);
            assert(exists@.take(i + 1).last() == exists@[i as int]);
            if exists[i] {
                kept.push(self.paths[i].clone());
                assert(texts(kept@) == before.push(p0[i as int]));
            }
            i = i + 1;
        }
        assert(p0.take(p0.len() as int) == p0);
        assert(exists@.take(p0.len() as int) == exists@);
        self.paths = kept;
    }
}

impl Default for RecentFiles {
    /// An empty list.
    fn default() -> (r: RecentFiles)
        ensures
            r.paths@.len() == 0,
    {
        RecentFiles::new()
    }
}

/// Whether no two of the paths are the same path (have the same components).
pub open spec fn distinct_paths(s: Seq<Seq<char>>) -> bool {
    forall|a: int, b: int|
        0 <= a < s.len() && 0 <= b < s.len() && a != b ==> spec_components(#[trigger] s[a])
            != spec_components(#[trigger] s[b])
}

proof fn lemma_without(s: Seq<Seq<char>>, path: Seq<char>)
    ensures
        forall|i: int|
            0 <= i < without(s, path).len() ==> spec_components(#[trigger] without(s, path)[i])
                != spec_components(path) && s.contains(without(s, path)[i]),
        s.no_duplicates() ==> without(s, path).no_duplicates(),
        distinct_paths(s) ==> distinct_paths(without(s, path)),
    decreases s.len(),
{
    if s.len() > 0 {
        let init = s.drop_last();
        lemma_without(init, path);
        let f0 = without(init, path);
        let f = without(s, path);
        assert forall|i: int| 0 <= i < f.len() implies spec_components(#[trigger] f[i]) != spec_components(path) && s.contains(f[i]) by {
            if i < f0.len() {
                assert(f[i] == f0[i]);
                let j = choose|j: int| 0 <= j < init.len() && init[j] == f0[i];
                assert(s[j] == f0[i]);
            } else {
                assert(f[i] == s.last());
                assert(s[s.len() - 1] == s.last());
            }
        }
        if s.no_duplicates() {
            assert(init.no_duplicates()) by {
                assert forall|a: int, b: int| 0 <= a < init.len() && 0 <= b < init.len() && a != b implies init[a] != init[b] by {
                    assert(init[a] == s[a] && init[b] == s[b]);
                }
            }
            if spec_components(s.last()) != spec_components(path) {
                assert(!f0.contains(s.last())) by {
                    if f0.contains(s.last()) {
                        let i = choose|i: int| 0 <= i < f0.len() && f0[i] == s.last();
                        let j = choose|j: int| 0 <= j < init.len() && init[j] == f0[i];
                        assert(s[j] == s[s.len() - 1]);
                    }
                }
                assert forall|a: int, b: int| 0 <= a < f.len() && 0 <= b < f.len() && a != b implies f[a] != f[b] by {
                    if a < f0.len() && b < f0.len() {
                        assert(f[a] == f0[a] && f[b] == f0[b]);
                    } else if a < f0.len() {
                        assert(f0.contains(f0[a]));
                    } else {
                        assert(f0.contains(f0[b]));
                    }
                }
            }
        }
        if distinct_paths(s) {
            assert(distinct_paths(init)) by {
                assert forall|a: int, b: int| 0 <= a < init.len() && 0 <= b < init.len() && a != b implies spec_components(#[trigger] init[a]) != spec_components(#[trigger] init[b]) by {
                    assert(init[a] == s[a] && init[b] == s[b]);
                }
            }
            if spec_components(s.last()) != spec_components(path) {
                assert forall|q: int| 0 <= q < f0.len() implies spec_components(#[trigger] f0[q]) != spec_components(s.last()) by {
                    let j = choose|j: int| 0 <= j < init.len() && init[j] == f0[q];
                    assert(s[j] == f0[q]);
                    assert(s[s.len() - 1] == s.last());
                }
                assert forall|a: int, b: int| 0 <= a < f.len() && 0 <= b < f.len() && a != b implies spec_components(#[trigger] f[a]) != spec_components(#[trigger] f[b]) by {
                    if a < f0.len() && b < f0.len() {
                        assert(f[a] == f0[a] && f[b] == f0[b]);
                    } else if a < f0.len() {
                        assert(f[a] == f0[a]);
                    } else {
                        assert(f[b] == f0[b]);
                    }
                }
            }
        }
    }
}
/// Opening a file puts it first in the recent list, keeps the list at most
/// [`MAX_RECENT_FILES`] long, and, for a list without repeats, leaves no
/// repeat: every path stands at most once, both as text and as a path.
pub proof fn lemma_recent_after_add(paths: Seq<Seq<char>>, path: Seq<char>)
    ensures
        recent_after_add(paths, path).len() >= 1,
        recent_after_add(paths, path)[0] == path,
        recent_after_add(paths, path).len() <= MAX_RECENT_FILES,
        paths.no_duplicates() ==> recent_after_add(paths, path).no_duplicates(),
        distinct_paths(paths) ==> distinct_paths(recent_after_add(paths, path)),
{
    let f = without(paths, path);
    lemma_without(paths, path);
    let l = seq![path] + f;
    assert(l[0] == path);
    if distinct_paths(paths) {
        assert(distinct_paths(l)) by {
            assert forall|a: int, b: int| 0 <= a < l.len() && 0 <= b < l.len() && a != b implies spec_components(#[trigger] l[a]) != spec_components(#[trigger] l[b]) by {
                if a > 0 && b > 0 {
                    assert(l[a] == f[a - 1] && l[b] == f[b - 1]);
                } else if a == 0 {
                    assert(l[b] == f[b - 1]);
                } else {
                    assert(l[a] == f[a - 1]);
                }
            }
        }
        let r = recent_after_add(paths, path);
        if l.len() > MAX_RECENT_FILES {
            assert forall|a: int, b: int| 0 <= a < r.len() && 0 <= b < r.len() && a != b implies spec_components(#[trigger] r[a]) != spec_components(#[trigger] r[b]) by {
                assert(r[a] == l[a] && r[b] == l[b]);
            }
        }
    }
    if paths.no_duplicates() {
        assert(l.no_duplicates()) by {
            assert forall|a: int, b: int| 0 <= a < l.len() && 0 <= b < l.len() && a != b implies l[a] != l[b] by {
                if a > 0 && b > 0 {
                    assert(l[a] == f[a - 1] && l[b] == f[b - 1]);
                } else if a == 0 {
                    assert(l[b] == f[b - 1]);
                } else {
                    assert(l[a] == f[a - 1]);
                }
            }
        }
        let r = recent_after_add(paths, path);
        if l.len() > MAX_RECENT_FILES {
            assert forall|a: int, b: int| 0 <= a < r.len() && 0 <= b < r.len() && a != b implies r[a] != r[b] by {
                assert(r[a] == l[a] && r[b] == l[b]);
            }
        }
    }
}

/// Resolving what was made relative gives the file path back: a node whose
/// file lies below the project directory has, after its paths are made
/// relative for saving and resolved again after loading, its file path and
/// every other field unchanged.
pub proof fn lemma_project_paths_round_trip(
    saved: SceneNode,
    relative: SceneNode,
    loaded: SceneNode,
    base: Seq<Seq<char>>,
    rest: Seq<Seq<char>>,
)
    requires
        crate::paths::good_names(base),
        crate::paths::good_names(rest),
        rest.len() > 0,
        path_mapped(saved, relative, true, crate::paths::abs_path(base)),
        path_mapped(relative, loaded, false, crate::paths::abs_path(base)),
        match saved {
            SceneNode::UsdRead { file_path, .. } => file_path@ == crate::paths::abs_path(base + rest),
            SceneNode::HdriEnvironment { file_path, .. } => file_path@ == crate::paths::abs_path(
                base + rest,
            ),
            SceneNode::UsdExport { output_path, .. } => output_path@ == crate::paths::abs_path(
                base + rest,
            ),
            _ => true,
        },
    ensures
        match (saved, loaded) {
            (
                SceneNode::UsdRead { file_path: a, is_loaded: l1, error: e1 },
                SceneNode::UsdRead { file_path: b, is_loaded: l2, error: e2 },
            ) => a@ == b@ && l1 == l2 && e1 == e2,
            (
                SceneNode::HdriEnvironment {
                    file_path: a,
                    is_loaded: l1,
                    is_loading: g1,
                    show_background: s1,
                    error: e1,
                },
                SceneNode::HdriEnvironment {
                    file_path: b,
                    is_loaded: l2,
                    is_loading: g2,
                    show_background: s2,
                    error: e2,
                },
            ) => a@ == b@ && l1 == l2 && g1 == g2 && s1 == s2 && e1 == e2,
            (
                SceneNode::UsdExport {
                    output_path: a,
                    as_sublayer: a1,
                    export_root: r1,
                    is_exported: x1,
                    last_result: t1,
                },
                SceneNode::UsdExport {
                    output_path: b,
                    as_sublayer: a2,
                    export_root: r2,
                    is_exported: x2,
                    last_result: t2,
                },
            ) => a@ == b@ && a1 == a2 && r1 == r2 && x1 == x2 && t1 == t2,
            _ => loaded == saved,
        },
{
    crate::paths::lemma_relative_round_trip(base, rest);
}

} // verus!
