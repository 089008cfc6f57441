//! Scene browser model: tree expansion and selection state, name filtering,
//! prim display records, the cache of procedural prims, and the providers that
//! merge and filter prim hierarchies.

pub mod cache;
pub mod provider;
pub mod rows;

pub use cache::{
    build_scene_graph_cache, CachedSceneGraph, ProceduralPrim, ProceduralPrimKind,
    ScenePointCloud, ScenePrototype,
};
pub use provider::{
    is_direct_child, CompositeProvider, EmptyPrimProvider, NodeFilteredProvider, PrimDataProvider,
    PrimDisplayInfo,
};

use vstd::prelude::*;

use crate::node_graph::GraphNodeId;
use crate::paths::{split_acc, split_pieces};
use crate::text::{
    chars_of, contains_text, same_text, has_substring, lowercase, push_char, string_from_chars, texts,
    to_lowercase,
};

verus! {

/// Which view the scene browser shows.
#[derive(Clone, Copy, Debug, PartialEq, Eq, Structural)]
pub enum SceneBrowserViewMode {
    /// The full scene graph.
    FullScene,
    /// Only the prims of a node and of the nodes upstream of it.
    NodeContribution(GraphNodeId),
}

/// State of the scene browser.
pub struct SceneBrowserState {
    /// Currently selected prim path, if any.
    pub selected_path: Option<String>,
    /// Expanded prim paths, each once.
    pub expanded_paths: Vec<String>,
    /// Search filter text.
    pub search_filter: String,
    /// Whether inactive prims are shown.
    pub show_inactive: bool,
    /// View mode.
    pub view_mode: SceneBrowserViewMode,
}

/// The non-empty pieces, in order.
pub open spec fn nonempty(pieces: Seq<Seq<char>>) -> Seq<Seq<char>>
    decreases pieces.len(),
{
    if pieces.len() == 0 {
        seq![]
    } else if pieces.last().len() > 0 {
        nonempty(pieces.drop_last()).push(pieces.last())
    } else {
        nonempty(pieces.drop_last())
    }
}

/// The names along a prim path (its non-empty `/`-separated pieces).
pub open spec fn path_segments(path: Seq<char>) -> Seq<Seq<char>> {
    nonempty(split_pieces(path))
}

/// The path made of the first `k` segments: `/s1/s2/.../sk`.
pub open spec fn prefix_path(segs: Seq<Seq<char>>, k: int) -> Seq<char>
    decreases k,
{
    if k <= 0 {
        seq![]
    } else {
        prefix_path(segs, k - 1) + seq!['/'] + segs[k - 1]
    }
}

/// The ancestor paths of a prim path: every prefix path `/s1/.../sk` of its
/// segments, other than the path itself.
pub open spec fn ancestor_paths(path: Seq<char>) -> Set<Seq<char>> {
    Set::new(
        |q: Seq<char>|
            exists|k: int|
                1 <= k <= path_segments(path).len() && q == prefix_path(path_segments(path), k)
                    && q != path,
    )
}

/// The non-empty `/`-separated pieces of a path.
pub fn segments_of(path: &str) -> (r: Vec<Vec<char>>)
    ensures
        crate::paths::views(r@) == path_segments(path@),
{
    let v = chars_of(path);
    let ghost mut done: Seq<Seq<char>> = seq![];
    let mut out: Vec<Vec<char>> = Vec::new();
    let mut cur: Vec<char> = Vec::new();
    let mut i: usize = 0;
    assert(v@.take(0) == Seq::<char>::empty());
    while i < v.len()
        invariant
            v@ == path@,
            i <= v@.len(),
            crate::paths::split_acc(v@.take(i as int)) == (done, cur@),
            crate::paths::views(out@) == nonempty(done),
        decreases v@.len() - i,
    {
        let c = v[i];
        assert(v@.take(i + 1).drop_last() == v@.take(i as int));
        assert(v@.take(i + 1).last() == c);
        if c == '/' {
            proof {
                assert(done.push(cur@).drop_last() == done);
            }
            if cur.len() > 0 {
                let ghost before = out@;
                out.push(cur);
                assert(crate::paths::views(out@) == crate::paths::views(before).push(
                    crate::paths::views(out@).last(),
                ));
            }
            proof {
                done = done.push(cur@);
            }
            cur = Vec::new();
        } else {
            cur.push(c);
        }
        i = i + 1;
    }
    assert(v@.take(v@.len() as int) == v@);
    proof {
        assert(done.push(cur@).drop_last() == done);
    }
    if cur.len() > 0 {
        let ghost before = out@;
        out.push(cur);
        assert(crate::paths::views(out@) == crate::paths::views(before).push(
            crate::paths::views(out@).last(),
        ));
    }
    out
}

impl SceneBrowserState {
    /// The set of expanded paths.
    pub open spec fn expanded(&self) -> Set<Seq<char>> {
        texts(self.expanded_paths@).to_set()
    }

    /// A fresh state: nothing selected or expanded, no filter, inactive prims
    /// shown, full-scene view.
    pub fn new() -> (s: SceneBrowserState)
        ensures
            s.selected_path is None,
            s.expanded_paths@.len() == 0,
            s.search_filter@.len() == 0,
            s.show_inactive,
            s.view_mode == SceneBrowserViewMode::FullScene,
    {
        SceneBrowserState {
            selected_path: None,
            expanded_paths: Vec::new(),
            search_filter: String::new(),
            show_inactive: true,
            view_mode: SceneBrowserViewMode::FullScene,
        }
    }

    /// Whether `path` is expanded.
    pub fn is_expanded(&self, path: &str) -> (b: bool)
        ensures
            b == self.expanded().contains(path@),
    {
        let p = String::from_str(path);
        let mut i: usize = 0;
        while i < self.expanded_paths.len()
            invariant
                p@ == path@,
                i <= self.expanded_paths@.len(),
                forall|j: int| 0 <= j < i ==> self.expanded_paths@[j]@ != path@,
            decreases self.expanded_paths@.len() - i,
        {
            if self.expanded_paths[i] == p {
                assert(texts(self.expanded_paths@)[i as int] == path@);
                return true;
            }
            i = i + 1;
        }
        assert(!texts(self.expanded_paths@).contains(path@)) by {
            if texts(self.expanded_paths@).contains(path@) {
                let j = choose|j: int|
                    0 <= j < texts(self.expanded_paths@).len() && texts(self.expanded_paths@)[j]
                        == path@;
                assert(self.expanded_paths@[j]@ == path@);
            }
        }
        false
    }

    /// Expands `path`: a path not yet expanded is added at the end of the
    /// list; an expanded one leaves the list as it is.
    pub fn expand(&mut self, path: &str)
        ensures
            final(self).expanded() == old(self).expanded().insert(path@),
            old(self).expanded().contains(path@) ==> final(self).expanded_paths@ == old(
                self,
            ).expanded_paths@,
            !old(self).expanded().contains(path@) ==> texts(final(self).expanded_paths@) == texts(
                old(self).expanded_paths@,
            ).push(path@),
            texts(old(self).expanded_paths@).no_duplicates() ==> texts(
                final(self).expanded_paths@,
            ).no_duplicates(),
            final(self).selected_path == old(self).selected_path,
            final(self).search_filter == old(self).search_filter,
            final(self).view_mode == old(self).view_mode,
            final(self).show_inactive == old(self).show_inactive,
    {
        if !self.is_expanded(path) {
            let ghost before = texts(self.expanded_paths@);
            self.expanded_paths.push(String::from_str(path));
            assert(texts(self.expanded_paths@) == before.push(path@));
            assert(!before.contains(path@));
            proof {
            if before.no_duplicates() {
                assert forall|a: int, b: int|
                    0 <= a < before.push(path@).len() && 0 <= b < before.push(path@).len() && a != b
                        implies before.push(path@)[a] != before.push(path@)[b] by {
                    if a < before.len() && b < before.len() {
                    } else if a < before.len() {
                        assert(before[a] != path@) by {
                            if before[a] == path@ {
                                assert(before.contains(path@));
                            }
                        }
                    } else {
                        assert(before[b] != path@) by {
                            if before[b] == path@ {
                                assert(before.contains(path@));
                            }
                        }
                    }
                }
            }
            }
            assert(before.push(path@).to_set() == before.to_set().insert(path@)) by {
                assert forall|t: Seq<char>| #[trigger] before.push(path@).contains(t) <==> before.contains(t) || t == path@ by {
                    if before.push(path@).contains(t) && t != path@ {
                        let j = choose|j: int| 0 <= j < before.push(path@).len() && before.push(path@)[j] == t;
                        assert(before[j] == t);
                    }
                    if before.contains(t) {
                        let j = choose|j: int| 0 <= j < before.len() && before[j] == t;
                        assert(before.push(path@)[j] == t);
                    }
                    if t == path@ {
                        assert(before.push(path@)[before.len() as int] == t);
                    }
                }
            }
        } else {
            assert(self.expanded().insert(path@) == self.expanded());
        }
    }

    /// Collapses `path`.
    pub fn collapse(&mut self, path: &str)
        ensures
            final(self).expanded() == old(self).expanded().remove(path@),
            texts(old(self).expanded_paths@).no_duplicates() ==> texts(
                final(self).expanded_paths@,
            ).no_duplicates(),
            final(self).selected_path == old(self).selected_path,
            final(self).search_filter == old(self).search_filter,
            final(self).view_mode == old(self).view_mode,
            final(self).show_inactive == old(self).show_inactive,
    {
        let p = String::from_str(path);
        let ghost before = texts(self.expanded_paths@);
        let mut kept: Vec<String> = Vec::new();
        let mut i: usize = 0;
        while i < self.expanded_paths.len()
            invariant
                p@ == path@,
                before == texts(self.expanded_paths@),
                i <= self.expanded_paths@.len(),
                before.no_duplicates() ==> texts(kept@).no_duplicates(),
                forall|t: Seq<char>|
                    #[trigger] texts(kept@).contains(t) <==> (exists|j: int|
                        0 <= j < i && before[j] == t) && t != path@,
            decreases self.expanded_paths@.len() - i,
        {
            let ghost k_old = texts(kept@);
            if self.expanded_paths[i] != p {
                kept.push(self.expanded_paths[i].clone());
                assert(texts(kept@) == k_old.push(before[i as int]));
                proof {
                if before.no_duplicates() {
                    assert(!k_old.contains(before[i as int])) by {
                        if k_old.contains(before[i as int]) {
                            let j = choose|j: int| 0 <= j < i && before[j] == before[i as int];
                        }
                    }
                    assert forall|a: int, b: int|
                        0 <= a < texts(kept@).len() && 0 <= b < texts(kept@).len() && a != b
                            implies texts(kept@)[a] != texts(kept@)[b] by {
                        if a < k_old.len() && b < k_old.len() {
                            assert(texts(kept@)[a] == k_old[a] && texts(kept@)[b] == k_old[b]);
                        } else if a < k_old.len() {
                            assert(texts(kept@)[a] == k_old[a]);
                            assert(k_old.contains(k_old[a]));
                        } else {
                            assert(texts(kept@)[b] == k_old[b]);
                            assert(k_old.contains(k_old[b]));
                        }
                    }
                }
                }
            }
            proof {
                assert forall|t: Seq<char>|
                    #[trigger] texts(kept@).contains(t) <==> (exists|j: int|
                        0 <= j < i + 1 && before[j] == t) && t != path@ by {
                    if texts(kept@).contains(t) && !k_old.contains(t) {
                        let q = choose|q: int| 0 <= q < texts(kept@).len() && texts(kept@)[q] == t;
                        assert(q == k_old.len());
                        assert(before[i as int] == t);
                    }
                    if k_old.contains(t) {
                        let q = choose|q: int| 0 <= q < k_old.len() && k_old[q] == t;
                        assert(texts(kept@)[q] == t);
                    }
                    if (exists|j: int| 0 <= j < i + 1 && before[j] == t) && t != path@ {
                        let j = choose|j: int| 0 <= j < i + 1 && before[j] == t;
                        if j == i {
                            assert(texts(kept@)[k_old.len() as int] == t);
                        }
                    }
                }
            }
            i = i + 1;
        }
        self.expanded_paths = kept;
        assert(self.expanded() == before.to_set().remove(path@)) by {
            assert forall|t: Seq<char>| #[trigger] self.expanded().contains(t) <==> before.to_set().remove(path@).contains(t) by {
                if before.contains(t) {
                    let j = choose|j: int| 0 <= j < before.len() && before[j] == t;
                }
            }
        }
    }

    /// Toggles the expansion of `path`.
    pub fn toggle_expanded(&mut self, path: &str)
        ensures
            final(self).expanded() == toggled(old(self).expanded(), path@),
            texts(old(self).expanded_paths@).no_duplicates() ==> texts(
                final(self).expanded_paths@,
            ).no_duplicates(),
            final(self).selected_path == old(self).selected_path,
            final(self).search_filter == old(self).search_filter,
            final(self).view_mode == old(self).view_mode,
            final(self).show_inactive == old(self).show_inactive,
    {
        if self.is_expanded(path) {
            self.collapse(path);
        } else {
            self.expand(path);
        }
    }

    /// Expands every ancestor of `path` (not `path` itself), revealing it.
    pub fn expand_to_path(&mut self, path: &str)
        ensures
            final(self).expanded() == old(self).expanded().union(ancestor_paths(path@)),
            texts(old(self).expanded_paths@).no_duplicates() ==> texts(
                final(self).expanded_paths@,
            ).no_duplicates(),
            final(self).selected_path == old(self).selected_path,
            final(self).search_filter == old(self).search_filter,
            final(self).view_mode == old(self).view_mode,
            final(self).show_inactive == old(self).show_inactive,
    {
        let segs = segments_of(path);
        let target = String::from_str(path);
        let ghost sv = crate::paths::views(segs@);
        let ghost e0 = self.expanded();
        let mut current = String::new();
        let mut k: usize = 0;
        while k < segs.len()
            invariant
                sv == crate::paths::views(segs@),
                sv == path_segments(path@),
                target@ == path@,
                k <= segs@.len(),
                current@ == prefix_path(sv, k as int),
                self.expanded() == e0.union(
                    Set::new(
                        |q: Seq<char>|
                            exists|m: int| 1 <= m <= k && q == prefix_path(sv, m) && q != path@,
                    ),
                ),
                self.selected_path == old(self).selected_path,
                self.search_filter == old(self).search_filter,
                self.view_mode == old(self).view_mode,
                self.show_inactive == old(self).show_inactive,
                texts(old(self).expanded_paths@).no_duplicates() ==> texts(
                    self.expanded_paths@,
                ).no_duplicates(),
            decreases segs@.len() - k,
        {
            let ghost before = self.expanded();
            push_char(&mut current, '/');
            let seg = string_from_chars(segs[k].as_slice());
            current.append(seg.as_str());
            assert(current@ == prefix_path(sv, k + 1));
            if current != target {
                self.expand(current.as_str());
            }
            assert(self.expanded() == e0.union(
                Set::new(
                    |q: Seq<char>|
                        exists|m: int| 1 <= m <= k + 1 && q == prefix_path(sv, m) && q != path@,
                ),
            )) by {
                assert forall|q: Seq<char>| #[trigger] self.expanded().contains(q) == e0.union(
                    Set::new(
                        |q: Seq<char>|
                            exists|m: int| 1 <= m <= k + 1 && q == prefix_path(sv, m) && q != path@,
                    ),
                ).contains(q) by {
                    if exists|m: int| 1 <= m <= k + 1 && q == prefix_path(sv, m) && q != path@ {
                        let m = choose|m: int| 1 <= m <= k + 1 && q == prefix_path(sv, m) && q != path@;
                        if m <= k {
                            assert(exists|m: int| 1 <= m <= k && q == prefix_path(sv, m) && q != path@);
                        }
                    }
                }
            }
            k = k + 1;
        }
    }

    /// Selects `path`.
    pub fn select(&mut self, path: &str)
        ensures
            final(self).selected_path matches Some(p) && p@ == path@,
            final(self).expanded_paths == old(self).expanded_paths,
            final(self).search_filter == old(self).search_filter,
            final(self).view_mode == old(self).view_mode,
            final(self).show_inactive == old(self).show_inactive,
    {
        self.selected_path = Some(String::from_str(path));
    }

    /// Clears the selection.
    pub fn clear_selection(&mut self)
        ensures
            final(self).selected_path is None,
            final(self).expanded_paths == old(self).expanded_paths,
            final(self).search_filter == old(self).search_filter,
            final(self).view_mode == old(self).view_mode,
            final(self).show_inactive == old(self).show_inactive,
    {
        self.selected_path = None;
    }

    /// Whether a prim passes the search filter: an empty filter passes
    /// everything; otherwise the lowercased filter must occur in the
    /// lowercased path or type name.
    pub fn matches_filter(&self, path: &str, prim_type: &str) -> (b: bool)
        ensures
            b == filter_admits(self.search_filter@, path@, prim_type@),
    {
        if self.search_filter.as_str().unicode_len() == 0 {
            return true;
        }
        let filter_lower = to_lowercase(self.search_filter.as_str());
        let p = to_lowercase(path);
        let t = to_lowercase(prim_type);
        lowered_filter_match(filter_lower.as_str(), p.as_str(), t.as_str())
    }
}

/// Whether a lowercased filter occurs in a lowercased path or type name.
pub fn lowered_filter_match(filter_lower: &str, path_lower: &str, type_lower: &str) -> (b: bool)
    ensures
        b == (has_substring(path_lower@, filter_lower@) || has_substring(type_lower@, filter_lower@)),
{
    contains_text(path_lower, filter_lower) || contains_text(type_lower, filter_lower)
}

/// Whether a search filter admits a prim: an empty filter admits everything;
/// otherwise the lowercased filter must occur in the lowercased path or type name.
pub open spec fn filter_admits(filter: Seq<char>, path: Seq<char>, prim_type: Seq<char>) -> bool {
    filter.len() == 0 || has_substring(lowercase(path), lowercase(filter)) || has_substring(
        lowercase(prim_type),
        lowercase(filter),
    )
}

/// The theme colors of prim type icons.
#[derive(Clone, Copy, Debug, PartialEq, Eq, Structural)]
pub enum IconColor {
    /// Scene pin green (meshes).
    PinScene,
    /// Warning amber (transforms).
    StatusWarning,
    /// Primary accent blue (point instancers).
    AccentPrimary,
    /// Secondary text grey.
    TextSecondary,
    /// Informational blue (cameras).
    StatusInfo,
    /// Keyframe amber (lights).
    KeyframeFill,
    /// Success green (materials).
    StatusOk,
}

impl IconColor {
    /// The color's red, green and blue components.
    pub fn rgb(&self) -> (r: (u8, u8, u8))
        ensures
            r == match self {
                IconColor::PinScene => (100u8, 200u8, 100u8),
                IconColor::StatusWarning => (220u8, 170u8, 50u8),
                IconColor::AccentPrimary => (74u8, 144u8, 217u8),
                IconColor::TextSecondary => (140u8, 145u8, 155u8),
                IconColor::StatusInfo => (100u8, 150u8, 220u8),
                IconColor::KeyframeFill => (220u8, 160u8, 40u8),
                IconColor::StatusOk => (60u8, 180u8, 80u8),
            },
    {
        match self {
            IconColor::PinScene => (100, 200, 100),
            IconColor::StatusWarning => (220, 170, 50),
            IconColor::AccentPrimary => (74, 144, 217),
            IconColor::TextSecondary => (140, 145, 155),
            IconColor::StatusInfo => (100, 150, 220),
            IconColor::KeyframeFill => (220, 160, 40),
            IconColor::StatusOk => (60, 180, 80),
        }
    }
}

/// Whether `t` names a light type.
pub open spec fn is_light_type(t: Seq<char>) -> bool {
    t == "Light"@ || t == "DistantLight"@ || t == "DomeLight"@ || t == "SphereLight"@ || t
        == "RectLight"@
}

/// The icon glyph and color of a USD prim type.
pub open spec fn type_icon(t: Seq<char>) -> (Seq<char>, IconColor) {
    if t == "Mesh"@ {
        ("◆"@, IconColor::PinScene)
    } else if t == "Xform"@ {
        ("✦"@, IconColor::StatusWarning)
    } else if t == "PointInstancer"@ {
        ("⊕"@, IconColor::AccentPrimary)
    } else if t == "Scope"@ {
        ("▸"@, IconColor::TextSecondary)
    } else if t == "Camera"@ {
        ("◎"@, IconColor::StatusInfo)
    } else if is_light_type(t) {
        ("✧"@, IconColor::KeyframeFill)
    } else if t == "Material"@ {
        ("●"@, IconColor::StatusOk)
    } else if t == "Shader"@ {
        ("◇"@, IconColor::TextSecondary)
    } else if t == "Skeleton"@ || t == "SkelRoot"@ {
        ("⊞"@, IconColor::TextSecondary)
    } else if t.len() == 0 {
        ("◇"@, IconColor::TextSecondary)
    } else {
        ("○"@, IconColor::TextSecondary)
    }
}

/// The icon glyph and color of a USD prim type.
pub fn prim_type_icon(prim_type: &str) -> (r: (&'static str, IconColor))
    ensures
        (r.0@, r.1) == type_icon(prim_type@),
{
    if same_text(prim_type, "Mesh") {
        ("◆", IconColor::PinScene)
    } else if same_text(prim_type, "Xform") {
        ("✦", IconColor::StatusWarning)
    } else if same_text(prim_type, "PointInstancer") {
        ("⊕", IconColor::AccentPrimary)
    } else if same_text(prim_type, "Scope") {
        ("▸", IconColor::TextSecondary)
    } else if same_text(prim_type, "Camera") {
        ("◎", IconColor::StatusInfo)
    } else if same_text(prim_type, "Light") || same_text(prim_type, "DistantLight") || same_text(
        prim_type,
        "DomeLight",
    ) || same_text(prim_type, "SphereLight") || same_text(prim_type, "RectLight") {
        ("✧", IconColor::KeyframeFill)
    } else if same_text(prim_type, "Material") {
        ("●", IconColor::StatusOk)
    } else if same_text(prim_type, "Shader") {
        ("◇", IconColor::TextSecondary)
    } else if same_text(prim_type, "Skeleton") || same_text(prim_type, "SkelRoot") {
        ("⊞", IconColor::TextSecondary)
    } else if prim_type.unicode_len() == 0 {
        ("◇", IconColor::TextSecondary)
    } else {
        ("○", IconColor::TextSecondary)
    }
}

/// The expanded set after toggling `path`.
pub open spec fn toggled(s: Set<Seq<char>>, path: Seq<char>) -> Set<Seq<char>> {
    if s.contains(path) {
        s.remove(path)
    } else {
        s.insert(path)
    }
}

/// Toggling a path twice restores the expanded set; toggling a path never
/// changes whether any other path is expanded.
pub proof fn lemma_toggle_twice(s: Set<Seq<char>>, path: Seq<char>, other: Seq<char>)
    ensures
        toggled(toggled(s, path), path) == s,
        other != path ==> (toggled(s, path).contains(other) <==> s.contains(other)),
        toggled(s, path).contains(path) != s.contains(path),
{
    assert(toggled(toggled(s, path), path) =~= s);
}

proof fn lemma_split_acc_plain(s: Seq<char>)
    ensures
        !split_acc(s).1.contains('/'),
        forall|i: int|
            0 <= i < split_acc(s).0.len() ==> !(#[trigger] split_acc(s).0[i]).contains('/'),
    decreases s.len(),
{
    if s.len() > 0 {
        lemma_split_acc_plain(s.drop_last());
        let (done, cur) = split_acc(s.drop_last());
        if s.last() == '/' {
            assert forall|i: int| 0 <= i < split_acc(s).0.len() implies !(#[trigger] split_acc(s).0[i]).contains('/') by {
                if i < done.len() {
                    assert(split_acc(s).0[i] == done[i]);
                }
            }
            assert(!Seq::<char>::empty().contains('/'));
        } else {
            assert(!cur.push(s.last()).contains('/')) by {
                if cur.push(s.last()).contains('/') {
                    let j = choose|j: int| 0 <= j < cur.push(s.last()).len() && cur.push(s.last())[j] == '/';
                    if j < cur.len() {
                        assert(cur[j] == '/');
                    }
                }
            }
        }
    }
}

proof fn lemma_nonempty_plain(pieces: Seq<Seq<char>>)
    requires
        forall|i: int| 0 <= i < pieces.len() ==> !(#[trigger] pieces[i]).contains('/'),
    ensures
        crate::paths::plain_names(nonempty(pieces)),
    decreases pieces.len(),
{
    if pieces.len() > 0 {
        let init = pieces.drop_last();
        assert forall|i: int| 0 <= i < init.len() implies !(#[trigger] init[i]).contains('/') by {
            assert(init[i] == pieces[i]);
        }
        lemma_nonempty_plain(init);
        assert(!pieces[pieces.len() - 1].contains('/'));
        let r = nonempty(pieces);
        let r0 = nonempty(init);
        assert forall|i: int| 0 <= i < r.len() implies #[trigger] r[i].len() > 0 && !r[i].contains('/') by {
            if i < r0.len() {
                assert(r[i] == r0[i]);
            }
        }
    }
}

/// The segments of a path are non-empty names without `/`.
proof fn lemma_segments_plain(path: Seq<char>)
    ensures
        crate::paths::plain_names(path_segments(path)),
{
    lemma_split_acc_plain(path);
    let ps = split_pieces(path);
    assert forall|i: int| 0 <= i < ps.len() implies !(#[trigger] ps[i]).contains('/') by {
        if i < split_acc(path).0.len() {
            assert(ps[i] == split_acc(path).0[i]);
        }
    }
    lemma_nonempty_plain(ps);
}

proof fn lemma_nonempty_keeps(t: Seq<Seq<char>>)
    requires
        crate::paths::plain_names(t),
    ensures
        nonempty(seq![seq![]] + t) == t,
    decreases t.len(),
{
    let e: Seq<Seq<char>> = seq![Seq::<char>::empty()];
    if t.len() == 0 {
        assert(e + t == e);
        assert(e.drop_last() == Seq::<Seq<char>>::empty());
        assert(nonempty(Seq::<Seq<char>>::empty()) == Seq::<Seq<char>>::empty());
    } else {
        let init = t.drop_last();
        assert(crate::paths::plain_names(init)) by {
            assert forall|i: int| 0 <= i < init.len() implies #[trigger] init[i].len() > 0 && !init[i].contains('/') by {
                assert(init[i] == t[i]);
            }
        }
        lemma_nonempty_keeps(init);
        assert((e + t).drop_last() == e + init);
        assert((e + t).last() == t.last());
        assert(t[t.len() - 1].len() > 0);
        assert(init.push(t.last()) == t);
    }
}

proof fn lemma_prefix_is_abs(segs: Seq<Seq<char>>, k: int)
    requires
        1 <= k <= segs.len(),
    ensures
        prefix_path(segs, k) == crate::paths::abs_path(segs.take(k)),
    decreases k,
{
    let t = segs.take(k);
    if k == 1 {
        assert(prefix_path(segs, 0) == Seq::<char>::empty());
        assert(t.len() == 1 && t[0] == segs[0]);
        assert(Seq::<char>::empty() + seq!['/'] + segs[0] == seq!['/'] + segs[0]);
    } else {
        lemma_prefix_is_abs(segs, k - 1);
        assert(t.drop_last() == segs.take(k - 1));
        assert(t.last() == segs[k - 1]);
        assert(crate::paths::rel_path(t) == crate::paths::rel_path(t.drop_last()) + seq!['/']
            + t.last());
        assert(seq!['/'] + (crate::paths::rel_path(t.drop_last()) + seq!['/'] + t.last()) == (
        seq!['/'] + crate::paths::rel_path(t.drop_last())) + seq!['/'] + t.last());
    }
}

/// The segments of the prefix path of plain names are those names.
proof fn lemma_segments_of_prefix(segs: Seq<Seq<char>>, k: int)
    requires
        crate::paths::plain_names(segs),
        1 <= k <= segs.len(),
    ensures
        path_segments(prefix_path(segs, k)) == segs.take(k),
{
    let t = segs.take(k);
    assert(crate::paths::plain_names(t)) by {
        assert forall|i: int| 0 <= i < t.len() implies #[trigger] t[i].len() > 0 && !t[i].contains('/') by {
            assert(t[i] == segs[i]);
        }
    }
    lemma_prefix_is_abs(segs, k);
    crate::paths::lemma_split_rel(t);
    assert(split_pieces(crate::paths::abs_path(t)) == seq![Seq::<char>::empty()] + t) by {
        assert((seq![Seq::<char>::empty()] + t.drop_last()).push(t.last()) == seq![
            Seq::<char>::empty(),
        ] + t);
    }
    lemma_nonempty_keeps(t);
}

proof fn lemma_prefix_take(segs: Seq<Seq<char>>, k: int, m: int)
    requires
        0 <= m <= k <= segs.len(),
    ensures
        prefix_path(segs.take(k), m) == prefix_path(segs, m),
    decreases m,
{
    if m > 0 {
        lemma_prefix_take(segs, k, m - 1);
        assert(segs.take(k)[m - 1] == segs[m - 1]);
    }
}

/// An ancestor of an ancestor of a path is an ancestor of the path.
pub proof fn lemma_ancestor_transitive(path: Seq<char>, mid: Seq<char>, top: Seq<char>)
    requires
        ancestor_paths(path).contains(mid),
        ancestor_paths(mid).contains(top),
    ensures
        top == path || ancestor_paths(path).contains(top),
{
    let segs = path_segments(path);
    lemma_segments_plain(path);
    let k = choose|k: int| 1 <= k <= segs.len() && mid == prefix_path(segs, k) && mid != path;
    lemma_segments_of_prefix(segs, k);
    let ms = path_segments(mid);
    assert(ms == segs.take(k));
    let m = choose|m: int| 1 <= m <= ms.len() && top == prefix_path(ms, m) && top != mid;
    lemma_prefix_take(segs, k, m);
    assert(top == prefix_path(segs, m));
    if top != path {
        assert(1 <= m <= segs.len() && top == prefix_path(segs, m) && top != path);
    }
}

} // verus!
