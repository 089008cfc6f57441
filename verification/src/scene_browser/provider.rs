//! Prim display records and the providers of prim hierarchies: the empty one,
//! the one that merges a USD stage with the procedural cache, and the one that
//! keeps only what some nodes contributed.

use vstd::prelude::*;

use crate::node_graph::GraphNodeId;
use crate::prim_path::{find_last_slash, last_slash, lemma_last_slash, sub_chars};
use crate::scene_browser::cache::{kind_type_name, CachedSceneGraph, PrimView};
use crate::scene_browser::{path_segments, prefix_path, prim_type_icon, segments_of, type_icon, IconColor};
use crate::scene_browser::cache::ProceduralPrim;
use crate::text::{
    chars_of, kept_in, lemma_sorted_no_dup, lemma_sorted_texts, list_contains, list_insert, push_all, push_char, sort_dedup,
    sorted_texts, string_from_chars, strictly_sorted, texts,
};

verus! {

/// A prim as the scene browser shows it.
pub struct PrimDisplayInfo {
    /// Full prim path.
    pub path: String,
    /// The prim name: the text after the last `/` of the path.
    pub name: String,
    /// USD type name, such as `Mesh` or `Xform`.
    pub prim_type: String,
    /// Whether the prim is active.
    pub is_active: bool,
    /// Whether the prim has children.
    pub has_children: bool,
    /// Number of children.
    pub child_count: usize,
    /// USD kind metadata (component, assembly, group, ...).
    pub kind: String,
    /// Whether the prim is visible.
    pub is_visible: bool,
    /// The graph node that produced the prim, if known.
    pub source_node: Option<GraphNodeId>,
}

/// Mathematical form of a [`PrimDisplayInfo`].
pub struct PrimInfoView {
    pub path: Seq<char>,
    pub name: Seq<char>,
    pub prim_type: Seq<char>,
    pub is_active: bool,
    pub has_children: bool,
    pub child_count: nat,
    pub kind: Seq<char>,
    pub is_visible: bool,
    pub source_node: Option<GraphNodeId>,
}

impl View for PrimDisplayInfo {
    type V = PrimInfoView;

    open spec fn view(&self) -> PrimInfoView {
        PrimInfoView {
            path: self.path@,
            name: self.name@,
            prim_type: self.prim_type@,
            is_active: self.is_active,
            has_children: self.has_children,
            child_count: self.child_count as nat,
            kind: self.kind@,
            is_visible: self.is_visible,
            source_node: self.source_node,
        }
    }
}

/// The view of an optional display record.
pub open spec fn info_opt(r: Option<PrimDisplayInfo>) -> Option<PrimInfoView> {
    match r {
        Some(i) => Some(i@),
        None => None,
    }
}

/// The name of a prim path: what follows its last `/` (all of it without one).
pub open spec fn prim_name(p: Seq<char>) -> Seq<char> {
    p.skip(last_slash(p) + 1)
}

/// The record of a prim with the given fields.
pub open spec fn info_record(
    path: Seq<char>,
    prim_type: Seq<char>,
    is_active: bool,
    has_children: bool,
    child_count: nat,
    kind: Seq<char>,
    is_visible: bool,
) -> PrimInfoView {
    PrimInfoView {
        path,
        name: prim_name(path),
        prim_type,
        is_active,
        has_children,
        child_count,
        kind,
        is_visible,
        source_node: None,
    }
}

/// The name of a prim path, as a string.
fn name_of(path: &str) -> (r: String)
    ensures
        r@ == prim_name(path@),
{
    let v = chars_of(path);
    proof {
        lemma_last_slash(v@);
    }
    match find_last_slash(&v) {
        Some(i) => {
            let n = v.len();
            assert(i < n);
            let tail = sub_chars(&v, i + 1, n);
            assert(v@.subrange(i + 1, v@.len() as int) == v@.skip(i + 1));
            string_from_chars(tail.as_slice())
        },
        None => {
            assert(v@.skip(0) == v@);
            String::from_str(path)
        },
    }
}

impl PrimDisplayInfo {
    /// A record from a path and type: name from the path, no kind, visible,
    /// of no known node.
    pub fn new(
        path: String,
        prim_type: String,
        is_active: bool,
        has_children: bool,
        child_count: usize,
    ) -> (r: PrimDisplayInfo)
        ensures
            r@ == info_record(
                path@,
                prim_type@,
                is_active,
                has_children,
                child_count as nat,
                seq![],
                true,
            ),
    {
        let name = name_of(path.as_str());
        PrimDisplayInfo {
            path,
            name,
            prim_type,
            is_active,
            has_children,
            child_count,
            kind: String::new(),
            is_visible: true,
            source_node: None,
        }
    }

    /// The icon glyph and color of this prim's type.
    pub fn icon(&self) -> (r: (&'static str, IconColor))
        ensures
            (r.0@, r.1) == type_icon(self.prim_type@),
    {
        prim_type_icon(self.prim_type.as_str())
    }

    /// A record with every field given but the node.
    pub fn with_kind(
        path: String,
        prim_type: String,
        is_active: bool,
        has_children: bool,
        child_count: usize,
        kind: String,
        is_visible: bool,
    ) -> (r: PrimDisplayInfo)
        ensures
            r@ == info_record(
                path@,
                prim_type@,
                is_active,
                has_children,
                child_count as nat,
                kind@,
                is_visible,
            ),
    {
        let name = name_of(path.as_str());
        PrimDisplayInfo {
            path,
            name,
            prim_type,
            is_active,
            has_children,
            child_count,
            kind,
            is_visible,
            source_node: None,
        }
    }
}

/// A source of prim hierarchy data for the scene browser.
///
/// Its answers are functions of its state: the root paths, the record of a
/// prim, and the children of a prim, each path once.
pub trait PrimDataProvider {
    /// The root prim paths.
    spec fn root_set(&self) -> Set<Seq<char>>;

    /// The record of the prim at `path`, if there is one.
    spec fn info_of(&self, path: Seq<char>) -> Option<PrimInfoView>;

    /// The paths of the children of `parent`.
    spec fn children_set(&self, parent: Seq<char>) -> Set<Seq<char>>;

    /// The root prim paths, in the order in which they are listed.
    spec fn root_seq(&self) -> Seq<Seq<char>>;

    /// The paths of the children of `parent`, in the order in which they are listed.
    spec fn children_seq(&self, parent: Seq<char>) -> Seq<Seq<char>>;

    /// The root prim paths, each once.
    fn root_paths(&self) -> (r: Vec<String>)
        ensures
            texts(r@) == self.root_seq(),
            texts(r@).no_duplicates(),
            texts(r@).to_set() == self.root_set(),
    ;

    /// The record of the prim at `path`.
    fn get_prim_info(&self, path: &str) -> (r: Option<PrimDisplayInfo>)
        ensures
            info_opt(r) == self.info_of(path@),
    ;

    /// The paths of the children of `parent_path`, each once.
    fn get_children(&self, parent_path: &str) -> (r: Vec<String>)
        ensures
            texts(r@) == self.children_seq(parent_path@),
            texts(r@).no_duplicates(),
            texts(r@).to_set() == self.children_set(parent_path@),
    ;
}

/// The provider of an empty scene.
pub struct EmptyPrimProvider;

impl PrimDataProvider for EmptyPrimProvider {
    open spec fn root_set(&self) -> Set<Seq<char>> {
        Set::empty()
    }

    open spec fn info_of(&self, path: Seq<char>) -> Option<PrimInfoView> {
        None
    }

    open spec fn children_set(&self, parent: Seq<char>) -> Set<Seq<char>> {
        Set::empty()
    }

    open spec fn root_seq(&self) -> Seq<Seq<char>> {
        seq![]
    }

    open spec fn children_seq(&self, parent: Seq<char>) -> Seq<Seq<char>> {
        seq![]
    }

    fn root_paths(&self) -> (r: Vec<String>) {
        let r: Vec<String> = Vec::new();
        assert(texts(r@).to_set() =~= Set::empty());
        assert(texts(r@) =~= seq![]);
        r
    }

    fn get_prim_info(&self, path: &str) -> (r: Option<PrimDisplayInfo>) {
        None
    }

    fn get_children(&self, parent_path: &str) -> (r: Vec<String>) {
        let r: Vec<String> = Vec::new();
        assert(texts(r@).to_set() =~= Set::empty());
        assert(texts(r@) =~= seq![]);
        r
    }
}

/// Number of `/` characters at the start of `s`.
pub open spec fn leading_slashes(s: Seq<char>) -> nat
    decreases s.len(),
{
    if s.len() > 0 && s[0] == '/' {
        1 + leading_slashes(s.drop_first())
    } else {
        0
    }
}

/// Whether `child` is a direct child of `parent` in the prim hierarchy. The
/// empty parent stands for the pseudo-root, whose children are single-name
/// paths such as `/World`.
pub open spec fn spec_is_direct_child(parent: Seq<char>, child: Seq<char>) -> bool {
    if parent.len() == 0 {
        let t = child.skip(leading_slashes(child) as int);
        t.len() > 0 && !t.contains('/')
    } else {
        &&& parent.is_prefix_of(child)
        &&& child.len() > parent.len() + 1
        &&& child[parent.len() as int] == '/'
        &&& !child.skip(parent.len() + 1int).contains('/')
    }
}

/// Whether `v` from `from` on holds a `/`.
fn has_slash_from(v: &Vec<char>, from: usize) -> (b: bool)
    requires
        from <= v@.len(),
    ensures
        b == v@.skip(from as int).contains('/'),
{
    let mut i = from;
    while i < v.len()
        invariant
            from <= i <= v@.len(),
            forall|j: int| from <= j < i ==> v@[j] != '/',
        decreases v@.len() - i,
    {
        if v[i] == '/' {
            assert(v@.skip(from as int)[i - from] == '/');
            return true;
        }
        i = i + 1;
    }
    assert(!v@.skip(from as int).contains('/')) by {
        if v@.skip(from as int).contains('/') {
            let j = choose|j: int| 0 <= j < v@.skip(from as int).len() && v@.skip(from as int)[j] == '/';
            assert(v@[from + j] == '/');
        }
    }
    false
}

/// Whether `child` is a direct child of `parent` (see [`spec_is_direct_child`]).
pub fn is_direct_child(parent: &str, child: &str) -> (b: bool)
    ensures
        b == spec_is_direct_child(parent@, child@),
{
    let p = chars_of(parent);
    let c = chars_of(child);
    if p.len() == 0 {
        let mut i: usize = 0;
        assert(c@.skip(0) == c@);
        while i < c.len() && c[i] == '/'
            invariant
                i <= c@.len(),
                leading_slashes(c@) == i + leading_slashes(c@.skip(i as int)),
            decreases c@.len() - i,
        {
            assert(c@.skip(i as int).drop_first() == c@.skip(i + 1));
            i = i + 1;
        }
        assert(leading_slashes(c@.skip(i as int)) == 0);
        return i < c.len() && !has_slash_from(&c, i);
    }
    if c.len() == 0 || c.len() - 1 <= p.len() {
        return false;
    }
    let mut i: usize = 0;
    while i < p.len()
        invariant
            i <= p@.len(),
            p@ == parent@,
            c@ == child@,
            p@.len() < c@.len(),
            forall|j: int| 0 <= j < i ==> p@[j] == c@[j],
        decreases p@.len() - i,
    {
        if p[i] != c[i] {
            assert(!p@.is_prefix_of(c@));
            return false;
        }
        i = i + 1;
    }
    assert(p@.is_prefix_of(c@)) by {
        assert(c@.take(p@.len() as int) =~= p@);
    }
    c[p.len()] == '/' && !has_slash_from(&c, p.len() + 1)
}

/// The root paths of an optional stage.
pub open spec fn stage_roots<P: PrimDataProvider>(s: Option<&P>) -> Set<Seq<char>> {
    match s {
        Some(u) => u.root_set(),
        None => Set::empty(),
    }
}

/// The children of `parent` in an optional stage.
pub open spec fn stage_children<P: PrimDataProvider>(s: Option<&P>, parent: Seq<char>) -> Set<
    Seq<char>,
> {
    match s {
        Some(u) => u.children_set(parent),
        None => Set::empty(),
    }
}

/// The record of `path` in an optional stage.
pub open spec fn stage_info<P: PrimDataProvider>(s: Option<&P>, path: Seq<char>) -> Option<
    PrimInfoView,
> {
    match s {
        Some(u) => u.info_of(path),
        None => None,
    }
}

/// The record the scene browser shows for a procedural prim with `n`
/// children.
pub open spec fn procedural_record(v: PrimView, n: nat) -> PrimInfoView {
    PrimInfoView {
        path: v.path,
        name: prim_name(v.path),
        prim_type: kind_type_name(v.kind),
        is_active: true,
        has_children: n > 0,
        child_count: n,
        kind: seq![],
        is_visible: true,
        source_node: v.source_node,
    }
}

/// A sorted list of the union of two lists of texts, each once.
fn sorted_union(a: Vec<String>, b: Option<&Vec<String>>) -> (r: Vec<String>)
    ensures
        strictly_sorted(texts(r@)),
        texts(r@).no_duplicates(),
        texts(r@).to_set() == texts(a@).to_set().union(
            match b {
                Some(l) => texts(l@).to_set(),
                None => Set::empty(),
            },
        ),
{
    let ghost ta = texts(a@);
    let mut all = a;
    match b {
        Some(l) => push_all(&mut all, l),
        None => {},
    }
    let r = sort_dedup(all);
    proof {
        lemma_sorted_no_dup(texts(r@));
        let tb = match b {
            Some(l) => texts(l@),
            None => seq![],
        };
        assert(texts(all@) == ta + tb);
        assert forall|t: Seq<char>| #[trigger] texts(r@).to_set().contains(t) <==> ta.to_set().union(tb.to_set()).contains(t) by {
            if (ta + tb).contains(t) {
                let k = choose|k: int| 0 <= k < (ta + tb).len() && (ta + tb)[k] == t;
                if k < ta.len() {
                    assert(ta[k] == t);
                } else {
                    assert(tb[k - ta.len()] == t);
                }
            }
            if ta.contains(t) {
                let k = choose|k: int| 0 <= k < ta.len() && ta[k] == t;
                assert((ta + tb)[k] == t);
            }
            if tb.contains(t) {
                let k = choose|k: int| 0 <= k < tb.len() && tb[k] == t;
                assert((ta + tb)[ta.len() + k] == t);
            }
        }
        assert(texts(r@).to_set() == ta.to_set().union(tb.to_set()));
        if b is None {
            assert(tb.to_set() =~= Set::<Seq<char>>::empty());
        }
    }
    r
}

/// Merges a USD stage with the cached procedural prims into one hierarchy.
pub struct CompositeProvider<'a, P: PrimDataProvider> {
    usd_stage: Option<&'a P>,
    cache: &'a CachedSceneGraph,
}

impl<'a, P: PrimDataProvider> CompositeProvider<'a, P> {
    #[verifier::type_invariant]
    spec fn inv(&self) -> bool {
        self.cache.wf()
    }

    /// The USD stage, if any.
    pub closed spec fn stage(&self) -> Option<&'a P> {
        self.usd_stage
    }

    /// The procedural cache.
    pub closed spec fn cache_of(&self) -> CachedSceneGraph {
        *self.cache
    }

    /// A provider over a stage (if any) and a well-formed cache.
    pub fn new(usd_stage: Option<&'a P>, cache: &'a CachedSceneGraph) -> (r: Self)
        requires
            cache.wf(),
        ensures
            r.stage() == usd_stage,
            r.cache_of() == *cache,
    {
        CompositeProvider { usd_stage, cache }
    }

    /// The procedural prim at `path`, if the cache holds one.
    pub fn get_procedural_data(&self, path: &str) -> (r: Option<&ProceduralPrim>)
        ensures
            r is None <==> !self.cache_of().has_prim(path@),
            r matches Some(q) ==> q.path@ == path@ && self.cache_of().prim_at(path@) == Some(q@),
    {
        proof {
            use_type_invariant(self);
        }
        self.cache.get_prim(path)
    }
}

impl<'a, P: PrimDataProvider> PrimDataProvider for CompositeProvider<'a, P> {
    /// Roots of the stage and of the cache.
    open spec fn root_set(&self) -> Set<Seq<char>> {
        stage_roots(self.stage()).union(self.cache_of().children_of(seq![]))
    }

    /// A procedural prim's record, else the stage's.
    open spec fn info_of(&self, path: Seq<char>) -> Option<PrimInfoView> {
        if self.cache_of().has_prim(path) {
            Some(procedural_record(self.cache_of().prim_at(path)->0, self.children_set(path).len()))
        } else {
            stage_info(self.stage(), path)
        }
    }

    /// Children in the stage and in the cache.
    open spec fn children_set(&self, parent: Seq<char>) -> Set<Seq<char>> {
        stage_children(self.stage(), parent).union(self.cache_of().children_of(parent))
    }

    /// The roots in text order.
    open spec fn root_seq(&self) -> Seq<Seq<char>> {
        sorted_texts(self.root_set())
    }

    /// The children in text order.
    open spec fn children_seq(&self, parent: Seq<char>) -> Seq<Seq<char>> {
        sorted_texts(self.children_set(parent))
    }

    /// The roots of both, sorted, each once.
    fn root_paths(&self) -> (r: Vec<String>)
        ensures
            strictly_sorted(texts(r@)),
    {
        proof {
            use_type_invariant(self);
        }
        let mut roots: Vec<String> = Vec::new();
        match self.usd_stage {
            Some(u) => {
                roots = u.root_paths();
            },
            None => {
                assert(texts(roots@).to_set() =~= Set::empty());
            },
        }
        let l = self.cache.children_list("");
        proof {
            if l is None {
                assert(self.cache_of().children_of(""@) =~= Set::empty());
            }
            reveal_strlit("");
            assert(""@ == Seq::<char>::empty());
        }
        let r = sorted_union(roots, l);
        proof {
            lemma_sorted_texts(texts(r@));
        }
        r
    }

    fn get_prim_info(&self, path: &str) -> (r: Option<PrimDisplayInfo>) {
        proof {
            use_type_invariant(self);
        }
        match self.cache.get_prim(path) {
            Some(q) => {
                let children = self.get_children(path);
                let n = children.len();
                proof {
                    texts(children@).unique_seq_to_set();
                }
                let mut info = PrimDisplayInfo::new(
                    q.path.clone(),
                    String::from_str(q.kind.usd_type_name()),
                    true,
                    n > 0,
                    n,
                );
                info.source_node = q.source_node;
                Some(info)
            },
            None => match self.usd_stage {
                Some(u) => u.get_prim_info(path),
                None => None,
            },
        }
    }

    /// The children of both, sorted, each once.
    fn get_children(&self, parent_path: &str) -> (r: Vec<String>)
        ensures
            strictly_sorted(texts(r@)),
    {
        proof {
            use_type_invariant(self);
        }
        let mut children: Vec<String> = Vec::new();
        match self.usd_stage {
            Some(u) => {
                children = u.get_children(parent_path);
            },
            None => {
                assert(texts(children@).to_set() =~= Set::empty());
            },
        }
        let l = self.cache.children_list(parent_path);
        proof {
            if l is None {
                assert(self.cache_of().children_of(parent_path@) =~= Set::empty());
            }
        }
        let r = sorted_union(children, l);
        proof {
            lemma_sorted_texts(texts(r@));
        }
        r
    }
}

/// Every prefix path `/s1/.../sk` of the segments of `path`.
pub open spec fn prefix_paths(path: Seq<char>) -> Set<Seq<char>> {
    Set::new(
        |q: Seq<char>|
            exists|m: int|
                1 <= m <= path_segments(path).len() && q == prefix_path(path_segments(path), m),
    )
}

/// Whether one of the nodes `upstream` produced `prim`.
pub open spec fn contributes(prim: ProceduralPrim, upstream: Seq<GraphNodeId>) -> bool {
    prim.source_node matches Some(s) && upstream.contains(s)
}

/// The paths that nodes `upstream` contributed to the cache: the paths of
/// their prims and every prefix path of those.
pub open spec fn contributed_paths(c: CachedSceneGraph, upstream: Seq<GraphNodeId>) -> Set<Seq<char>> {
    Set::new(
        |p: Seq<char>|
            exists|k: int|
                0 <= k < c.procedural_prims@.len() && contributes(#[trigger] c.procedural_prims@[k], upstream) && (p == c.procedural_prims@[k].path@
                    || prefix_paths(c.procedural_prims@[k].path@).contains(p)),
    )
}

/// Keeps the texts of `v` that `allowed` holds, in order.
fn keep_allowed(v: Vec<String>, allowed: &Vec<String>) -> (r: Vec<String>)
    requires
        texts(v@).no_duplicates(),
    ensures
        texts(r@) == kept_in(texts(v@), texts(allowed@).to_set()),
        texts(r@).no_duplicates(),
        texts(r@).to_set() == texts(v@).to_set().intersect(texts(allowed@).to_set()),
{
    let ghost tv = texts(v@);
    let mut r: Vec<String> = Vec::new();
    let mut i: usize = 0;
    while i < v.len()
        invariant
            tv == texts(v@),
            tv.no_duplicates(),
            i <= v@.len(),
            texts(r@) == kept_in(tv.take(i as int), texts(allowed@).to_set()),
            texts(r@).no_duplicates(),
            forall|t: Seq<char>|
                #[trigger] texts(r@).contains(t) <==> (exists|j: int| 0 <= j < i && tv[j] == t)
                    && texts(allowed@).contains(t),
        decreases v@.len() - i,
    {
        let ghost before = texts(r@);
        assert(tv.take(i + 1).drop_last() =~= tv.take(i as int));
        assert(tv.take(i + 1).last() == tv[i as int]);
        if list_contains(allowed, v[i].as_str()) {
            r.push(v[i].clone());
            proof {
                assert(texts(r@) == before.push(tv[i as int]));
                assert forall|a: int, b: int|
                    0 <= a < texts(r@).len() && 0 <= b < texts(r@).len() && a != b implies texts(r@)[a] != texts(r@)[b] by {
                    if a < before.len() && b < before.len() {
                        assert(before[a] != before[b]);
                    } else {
                        let o = if a < before.len() { a } else { b };
                        assert(before.contains(before[o]));
                        let j = choose|j: int| 0 <= j < i && tv[j] == before[o];
                        assert(tv[j] != tv[i as int]);
                    }
                }
            }
        }
        proof {
            assert forall|t: Seq<char>|
                #[trigger] texts(r@).contains(t) <==> (exists|j: int| 0 <= j < i + 1 && tv[j] == t)
                    && texts(allowed@).contains(t) by {
                if texts(r@).contains(t) && !before.contains(t) {
                    let q = choose|q: int| 0 <= q < texts(r@).len() && texts(r@)[q] == t;
                    assert(q == before.len());
                    assert(tv[i as int] == t);
                }
                if before.contains(t) {
                    let q = choose|q: int| 0 <= q < before.len() && before[q] == t;
                    assert(texts(r@)[q] == t);
                }
                if (exists|j: int| 0 <= j < i + 1 && tv[j] == t) && texts(allowed@).contains(t) {
                    let j = choose|j: int| 0 <= j < i + 1 && tv[j] == t;
                    if j == i {
                        assert(texts(r@)[before.len() as int] == t);
                    } else {
                        assert(before.contains(t));
                    }
                }
            }
        }
        i = i + 1;
    }
    proof {
        assert(tv.take(v@.len() as int) =~= tv);
        assert forall|t: Seq<char>| #[trigger] texts(r@).to_set().contains(t) <==> tv.to_set().intersect(texts(allowed@).to_set()).contains(t) by {
            if tv.contains(t) {
                let j = choose|j: int| 0 <= j < tv.len() && tv[j] == t;
            }
        }
    }
    r
}

/// Whether `v` holds `x`.
fn contains_node(v: &Vec<GraphNodeId>, x: GraphNodeId) -> (b: bool)
    ensures
        b == v@.contains(x),
{
    let mut i: usize = 0;
    while i < v.len()
        invariant
            i <= v@.len(),
            forall|j: int| 0 <= j < i ==> v@[j] != x,
        decreases v@.len() - i,
    {
        if v[i] == x {
            assert(v@[i as int] == x);
            return true;
        }
        i = i + 1;
    }
    false
}

/// Shows only what a set of nodes contributed: their prims and the scopes
/// above them, as another provider answers for them.
pub struct NodeFilteredProvider<'a, P: PrimDataProvider> {
    inner: &'a P,
    cache: &'a CachedSceneGraph,
    selected_node: GraphNodeId,
    allowed_paths: Vec<String>,
}

impl<'a, P: PrimDataProvider> NodeFilteredProvider<'a, P> {
    #[verifier::type_invariant]
    spec fn inv(&self) -> bool {
        &&& self.cache.wf()
        &&& texts(self.allowed_paths@).no_duplicates()
    }

    /// The provider that is filtered.
    pub closed spec fn inner_of(&self) -> &'a P {
        self.inner
    }

    /// The procedural cache.
    pub closed spec fn cache_of(&self) -> CachedSceneGraph {
        *self.cache
    }

    /// The node whose contribution is shown.
    pub closed spec fn selected(&self) -> GraphNodeId {
        self.selected_node
    }

    /// The paths that are shown.
    pub closed spec fn allowed(&self) -> Set<Seq<char>> {
        texts(self.allowed_paths@).to_set()
    }

    /// A provider that shows, of `inner`, the prims that `upstream_nodes`
    /// (the selected node among them) contributed and their ancestors.
    pub fn new(
        inner: &'a P,
        cache: &'a CachedSceneGraph,
        selected_node: GraphNodeId,
        upstream_nodes: &Vec<GraphNodeId>,
    ) -> (r: Self)
        requires
            cache.wf(),
        ensures
            r.inner_of() == inner,
            r.cache_of() == *cache,
            r.selected() == selected_node,
            r.allowed() == contributed_paths(*cache, upstream_nodes@),
    {
        let prims = &cache.procedural_prims;
        let mut allowed: Vec<String> = Vec::new();
        let mut k: usize = 0;
        while k < prims.len()
            invariant
                k <= prims@.len(),
                prims@ == cache.procedural_prims@,
                texts(allowed@).no_duplicates(),
                texts(allowed@).to_set() == Set::new(
                    |p: Seq<char>|
                        exists|q: int|
                            0 <= q < k && contributes(#[trigger] prims@[q], upstream_nodes@)
                                && (p == prims@[q].path@
                                || prefix_paths(prims@[q].path@).contains(p)),
                ),
            decreases prims@.len() - k,
        {
            let ghost a0 = texts(allowed@).to_set();
            let ghost added: Set<Seq<char>> = Set::empty();
            let mut take = false;
            if let Some(src) = prims[k].source_node {
                if contains_node(upstream_nodes, src) {
                    take = true;
                }
            }
            if take {
                let path = prims[k].path.as_str();
                list_insert(&mut allowed, path);
                let segs = segments_of(path);
                let ghost sv = crate::paths::views(segs@);
                let mut current = String::new();
                let mut m: usize = 0;
                while m < segs.len()
                    invariant
                        sv == crate::paths::views(segs@),
                        sv == path_segments(path@),
                        m <= segs@.len(),
                        current@ == prefix_path(sv, m as int),
                        texts(allowed@).no_duplicates(),
                        texts(allowed@).to_set() == a0.insert(path@).union(
                            Set::new(|q: Seq<char>| exists|j: int| 1 <= j <= m && q == prefix_path(sv, j)),
                        ),
                    decreases segs@.len() - m,
                {
                    push_char(&mut current, '/');
                    let seg = string_from_chars(segs[m].as_slice());
                    current.append(seg.as_str());
                    assert(current@ == prefix_path(sv, m + 1));
                    list_insert(&mut allowed, current.as_str());
                    proof {
                        let target = a0.insert(path@).union(
                            Set::new(|q: Seq<char>| exists|j: int| 1 <= j <= m + 1 && q == prefix_path(sv, j)),
                        );
                        assert forall|q: Seq<char>| #[trigger] texts(allowed@).to_set().contains(q) <==> target.contains(q) by {
                            if exists|j: int| 1 <= j <= m + 1 && q == prefix_path(sv, j) {
                                let j = choose|j: int| 1 <= j <= m + 1 && q == prefix_path(sv, j);
                                if j <= m {
                                    assert(exists|j: int| 1 <= j <= m && q == prefix_path(sv, j));
                                }
                            }
                            if exists|j: int| 1 <= j <= m && q == prefix_path(sv, j) {
                                let j = choose|j: int| 1 <= j <= m && q == prefix_path(sv, j);
                                assert(exists|j: int| 1 <= j <= m + 1 && q == prefix_path(sv, j));
                            }
                            if q == current@ {
                                assert(q == prefix_path(sv, m + 1));
                                assert(exists|j: int| 1 <= j <= m + 1 && q == prefix_path(sv, j));
                            }
                        }
                        assert(texts(allowed@).to_set() =~= target);
                    }
                    m = m + 1;
                }
                assert(Set::new(|q: Seq<char>| exists|j: int| 1 <= j <= m && q == prefix_path(sv, j)) =~= prefix_paths(path@));
            }
            proof {
                let s_new = Set::new(
                    |p: Seq<char>|
                        exists|q: int|
                            0 <= q < k + 1 && contributes(#[trigger] prims@[q], upstream_nodes@)
                                && (p == prims@[q].path@
                                || prefix_paths(prims@[q].path@).contains(p)),
                );
                assert forall|p: Seq<char>| #[trigger] texts(allowed@).to_set().contains(p) <==> s_new.contains(p) by {
                    if s_new.contains(p) {
                        let q = choose|q: int|
                            0 <= q < k + 1 && contributes(#[trigger] prims@[q], upstream_nodes@)
                                && (p == prims@[q].path@
                                || prefix_paths(prims@[q].path@).contains(p));
                        if q < k {
                            assert(a0.contains(p));
                        }
                    }
                    if a0.contains(p) {
                        let q = choose|q: int|
                            0 <= q < k && contributes(#[trigger] prims@[q], upstream_nodes@)
                                && (p == prims@[q].path@
                                || prefix_paths(prims@[q].path@).contains(p));
                        assert(s_new.contains(p));
                    }
                    if take && !a0.contains(p) && texts(allowed@).to_set().contains(p) {
                        assert(contributes(prims@[k as int], upstream_nodes@));
                        assert(s_new.contains(p));
                    }
                }
                assert(texts(allowed@).to_set() =~= s_new);
            }
            k = k + 1;
        }
        let r = NodeFilteredProvider { inner, cache, selected_node, allowed_paths: allowed };
        assert(r.allowed() =~= contributed_paths(*cache, upstream_nodes@));
        r
    }

    /// Whether the prim at `path` was produced by the selected node.
    pub fn is_from_selected_node(&self, path: &str) -> (b: bool)
        ensures
            b == (self.cache_of().prim_at(path@) matches Some(v) && v.source_node == Some(
                self.selected(),
            )),
    {
        proof {
            use_type_invariant(self);
        }
        match self.cache.get_prim(path) {
            Some(q) => match q.source_node {
                Some(src) => src == self.selected_node,
                None => false,
            },
            None => {
                proof {
                    crate::scene_browser::cache::lemma_prim_lookup(self.cache.procedural_prims@, path@);
                }
                false
            },
        }
    }
}

impl<'a, P: PrimDataProvider> PrimDataProvider for NodeFilteredProvider<'a, P> {
    open spec fn root_set(&self) -> Set<Seq<char>> {
        self.inner_of().root_set().intersect(self.allowed())
    }

    open spec fn info_of(&self, path: Seq<char>) -> Option<PrimInfoView> {
        if self.allowed().contains(path) {
            self.inner_of().info_of(path)
        } else {
            None
        }
    }

    open spec fn children_set(&self, parent: Seq<char>) -> Set<Seq<char>> {
        self.inner_of().children_set(parent).intersect(self.allowed())
    }

    open spec fn root_seq(&self) -> Seq<Seq<char>> {
        kept_in(self.inner_of().root_seq(), self.allowed())
    }

    open spec fn children_seq(&self, parent: Seq<char>) -> Seq<Seq<char>> {
        kept_in(self.inner_of().children_seq(parent), self.allowed())
    }

    fn root_paths(&self) -> (r: Vec<String>) {
        proof {
            use_type_invariant(self);
        }
        keep_allowed(self.inner.root_paths(), &self.allowed_paths)
    }

    fn get_prim_info(&self, path: &str) -> (r: Option<PrimDisplayInfo>) {
        if !list_contains(&self.allowed_paths, path) {
            return None;
        }
        self.inner.get_prim_info(path)
    }

    fn get_children(&self, parent_path: &str) -> (r: Vec<String>) {
        proof {
            use_type_invariant(self);
        }
        keep_allowed(self.inner.get_children(parent_path), &self.allowed_paths)
    }
}

} // verus!
