//! The cache of procedural prims: every prototype and point cloud of the
//! working scene as a prim, the scopes that their paths pass through, and the
//! parent-to-children index of all of them.

use vstd::prelude::*;

use crate::node_graph::GraphNodeId;
use crate::prim_path::{find_last_slash, last_slash, lemma_last_slash, sub_chars};
use crate::scene_browser::{ancestor_paths, path_segments, prefix_path, segments_of};
use crate::text::{chars_of, insert_sorted, push_char, string_from_chars, strictly_sorted, texts};

verus! {

/// What the cache reads of a prototype of the working scene.
pub struct ScenePrototype {
    /// Prototype name; a prim path, with or without its leading `/`.
    pub name: String,
    /// Number of mesh vertices.
    pub vertex_count: usize,
    /// Number of triangle indices.
    pub index_count: usize,
}

/// What the cache reads of a point cloud of the working scene.
pub struct ScenePointCloud {
    /// Cloud name; a prim path, with or without its leading `/`.
    pub name: String,
    /// Number of points.
    pub point_count: usize,
    /// Indices of the prototypes the points instance.
    pub prototype_ids: Vec<usize>,
}

/// Type-specific data of a procedural prim.
pub enum ProceduralPrimKind {
    /// Mesh prototype with geometry counts.
    Mesh { vertex_count: usize, triangle_count: usize },
    /// Point instancer with its point count and prototype paths.
    PointInstancer { point_count: usize, prototype_refs: Vec<String> },
    /// Intermediate scope along the path of another prim.
    Scope,
}

/// Mathematical form of a [`ProceduralPrimKind`].
pub enum PrimKindView {
    Mesh(nat, nat),
    PointInstancer(nat, Seq<Seq<char>>),
    Scope,
}

impl View for ProceduralPrimKind {
    type V = PrimKindView;

    open spec fn view(&self) -> PrimKindView {
        match self {
            ProceduralPrimKind::Mesh { vertex_count, triangle_count } => PrimKindView::Mesh(
                *vertex_count as nat,
                *triangle_count as nat,
            ),
            ProceduralPrimKind::PointInstancer { point_count, prototype_refs } =>
                PrimKindView::PointInstancer(*point_count as nat, texts(prototype_refs@)),
            ProceduralPrimKind::Scope => PrimKindView::Scope,
        }
    }
}

/// The USD type name of a prim kind.
pub open spec fn kind_type_name(k: PrimKindView) -> Seq<char> {
    match k {
        PrimKindView::Mesh(..) => "Mesh"@,
        PrimKindView::PointInstancer(..) => "PointInstancer"@,
        PrimKindView::Scope => "Scope"@,
    }
}

impl ProceduralPrimKind {
    /// USD type name of this kind.
    pub fn usd_type_name(&self) -> (r: &'static str)
        ensures
            r@ == kind_type_name(self@),
    {
        match self {
            ProceduralPrimKind::Mesh { .. } => "Mesh",
            ProceduralPrimKind::PointInstancer { .. } => "PointInstancer",
            ProceduralPrimKind::Scope => "Scope",
        }
    }
}

/// A prim of the cache.
pub struct ProceduralPrim {
    /// Full prim path.
    pub path: String,
    /// Type-specific data.
    pub kind: ProceduralPrimKind,
    /// The graph node that produced the prim (`None` for generated scopes).
    pub source_node: Option<GraphNodeId>,
}

/// Mathematical form of a [`ProceduralPrim`].
pub struct PrimView {
    pub path: Seq<char>,
    pub kind: PrimKindView,
    pub source_node: Option<GraphNodeId>,
}

impl View for ProceduralPrim {
    type V = PrimView;

    open spec fn view(&self) -> PrimView {
        PrimView { path: self.path@, kind: self.kind@, source_node: self.source_node }
    }
}

/// The views of a list of prims.
pub open spec fn prim_views(v: Seq<ProceduralPrim>) -> Seq<PrimView> {
    v.map_values(|q: ProceduralPrim| q@)
}

/// A name as a prim path: with a leading `/` added where it has none.
pub open spec fn rooted(name: Seq<char>) -> Seq<char> {
    if name.len() > 0 && name[0] == '/' {
        name
    } else {
        seq!['/'] + name
    }
}

/// The node that claims prototype `pid`: the last entry of the map whose
/// list holds it.
pub open spec fn proto_owner(map: Seq<(GraphNodeId, Vec<usize>)>, pid: usize) -> Option<GraphNodeId>
    decreases map.len(),
{
    if map.len() == 0 {
        None
    } else if map.last().1@.contains(pid) {
        Some(map.last().0)
    } else {
        proto_owner(map.drop_last(), pid)
    }
}

/// The node that claims point cloud `cid`: the last entry of the map that
/// names it.
pub open spec fn cloud_owner(map: Seq<(GraphNodeId, usize)>, cid: usize) -> Option<GraphNodeId>
    decreases map.len(),
{
    if map.len() == 0 {
        None
    } else if map.last().1 == cid {
        Some(map.last().0)
    } else {
        cloud_owner(map.drop_last(), cid)
    }
}

/// The paths of the prototypes that `ids` names, skipping indices out of range.
pub open spec fn proto_refs(protos: Seq<ScenePrototype>, ids: Seq<usize>) -> Seq<Seq<char>>
    decreases ids.len(),
{
    if ids.len() == 0 {
        seq![]
    } else if ids.last() < protos.len() {
        proto_refs(protos, ids.drop_last()).push(rooted(protos[ids.last() as int].name@))
    } else {
        proto_refs(protos, ids.drop_last())
    }
}

/// The mesh prim of prototype `i`.
pub open spec fn proto_entry(
    protos: Seq<ScenePrototype>,
    pmap: Seq<(GraphNodeId, Vec<usize>)>,
    i: int,
) -> PrimView {
    PrimView {
        path: rooted(protos[i].name@),
        kind: PrimKindView::Mesh(protos[i].vertex_count as nat, (protos[i].index_count / 3) as nat),
        source_node: proto_owner(pmap, i as usize),
    }
}

/// Whether a point cloud becomes a prim: it has points and a name.
pub open spec fn cloud_listed(c: ScenePointCloud) -> bool {
    c.point_count > 0 && c.name@.len() > 0
}

/// The point-instancer prim of cloud `j`.
pub open spec fn cloud_entry(
    protos: Seq<ScenePrototype>,
    clouds: Seq<ScenePointCloud>,
    cmap: Seq<(GraphNodeId, usize)>,
    j: int,
) -> PrimView {
    PrimView {
        path: rooted(clouds[j].name@),
        kind: PrimKindView::PointInstancer(
            clouds[j].point_count as nat,
            proto_refs(protos, clouds[j].prototype_ids@),
        ),
        source_node: cloud_owner(cmap, j as usize),
    }
}

/// The prims of the first `n` clouds, those that are listed, in order.
pub open spec fn cloud_entries(
    protos: Seq<ScenePrototype>,
    clouds: Seq<ScenePointCloud>,
    cmap: Seq<(GraphNodeId, usize)>,
    n: int,
) -> Seq<PrimView>
    decreases n,
{
    if n <= 0 {
        seq![]
    } else if cloud_listed(clouds[n - 1]) {
        cloud_entries(protos, clouds, cmap, n - 1).push(cloud_entry(protos, clouds, cmap, n - 1))
    } else {
        cloud_entries(protos, clouds, cmap, n - 1)
    }
}

/// The prims that the scene yields, in the order they are entered: every
/// prototype, then every listed point cloud.
pub open spec fn scene_entries(
    protos: Seq<ScenePrototype>,
    clouds: Seq<ScenePointCloud>,
    pmap: Seq<(GraphNodeId, Vec<usize>)>,
    cmap: Seq<(GraphNodeId, usize)>,
) -> Seq<PrimView> {
    Seq::new(protos.len(), |i: int| proto_entry(protos, pmap, i)) + cloud_entries(
        protos,
        clouds,
        cmap,
        clouds.len() as int,
    )
}

/// Index of the last entry with path `p`, or -1.
pub open spec fn last_entry(es: Seq<PrimView>, p: Seq<char>) -> int
    decreases es.len(),
{
    if es.len() == 0 {
        -1
    } else if es.last().path == p {
        es.len() - 1
    } else {
        last_entry(es.drop_last(), p)
    }
}

/// Whether the cache built from entries `es` holds a prim at `p`: an entry
/// has that path, or `p` is an ancestor of an entry's path.
pub open spec fn in_cache(es: Seq<PrimView>, p: Seq<char>) -> bool {
    last_entry(es, p) >= 0 || exists|k: int|
        0 <= k < es.len() && #[trigger] ancestor_paths(es[k].path).contains(p)
}

/// The prim the cache holds at `p`: the last entry with that path (a later
/// entry replaces an earlier one), else a scope of no node.
pub open spec fn expected_prim(es: Seq<PrimView>, p: Seq<char>) -> PrimView {
    if last_entry(es, p) >= 0 {
        es[last_entry(es, p)]
    } else {
        PrimView { path: p, kind: PrimKindView::Scope, source_node: None }
    }
}

/// The parent key of a prim path: the text before its last `/` (empty for a
/// root prim or a path without `/`).
pub open spec fn parent_key(p: Seq<char>) -> Seq<char> {
    if last_slash(p) >= 0 {
        p.take(last_slash(p))
    } else {
        seq![]
    }
}

proof fn lemma_last_entry(es: Seq<PrimView>, p: Seq<char>)
    ensures
        -1 <= last_entry(es, p) < es.len(),
        last_entry(es, p) >= 0 ==> es[last_entry(es, p)].path == p,
        forall|j: int| last_entry(es, p) < j < es.len() ==> es[j].path != p,
    decreases es.len(),
{
    if es.len() > 0 && es.last().path != p {
        lemma_last_entry(es.drop_last(), p);
        assert forall|j: int| last_entry(es, p) < j < es.len() implies es[j].path != p by {
            if j < es.len() - 1 {
                assert(es[j] == es.drop_last()[j]);
            }
        }
    }
}

/// Prefixes `/` to a name that lacks it.
fn rooted_string(name: &str) -> (r: String)
    ensures
        r@ == rooted(name@),
{
    let v = chars_of(name);
    if v.len() > 0 && v[0] == '/' {
        String::from_str(name)
    } else {
        let mut r = String::new();
        push_char(&mut r, '/');
        r.append(name);
        r
    }
}

/// Whether `ids` holds `x`.
fn contains_index(ids: &Vec<usize>, x: usize) -> (b: bool)
    ensures
        b == ids@.contains(x),
{
    let mut j: usize = 0;
    while j < ids.len()
        invariant
            j <= ids@.len(),
            forall|k: int| 0 <= k < j ==> ids@[k] != x,
        decreases ids@.len() - j,
    {
        if ids[j] == x {
            assert(ids@[j as int] == x);
            return true;
        }
        j = j + 1;
    }
    false
}

/// The node that claims prototype `pid`.
fn find_proto_owner(map: &Vec<(GraphNodeId, Vec<usize>)>, pid: usize) -> (r: Option<GraphNodeId>)
    ensures
        r == proto_owner(map@, pid),
{
    let mut i = map.len();
    assert(map@.take(i as int) == map@);
    while i > 0
        invariant
            i <= map@.len(),
            proto_owner(map@, pid) == proto_owner(map@.take(i as int), pid),
        decreases i,
    {
        let ghost t = map@.take(i as int);
        assert(t.last() == map@[i - 1]);
        assert(t.drop_last() == map@.take(i - 1));
        if contains_index(&map[i - 1].1, pid) {
            return Some(map[i - 1].0);
        }
        i = i - 1;
    }
    None
}

/// The node that claims point cloud `cid`.
fn find_cloud_owner(map: &Vec<(GraphNodeId, usize)>, cid: usize) -> (r: Option<GraphNodeId>)
    ensures
        r == cloud_owner(map@, cid),
{
    let mut i = map.len();
    assert(map@.take(i as int) == map@);
    while i > 0
        invariant
            i <= map@.len(),
            cloud_owner(map@, cid) == cloud_owner(map@.take(i as int), cid),
        decreases i,
    {
        let ghost t = map@.take(i as int);
        assert(t.last() == map@[i - 1]);
        assert(t.drop_last() == map@.take(i - 1));
        if map[i - 1].1 == cid {
            return Some(map[i - 1].0);
        }
        i = i - 1;
    }
    None
}

/// The paths of the prototypes that `ids` names.
fn prototype_paths(protos: &Vec<ScenePrototype>, ids: &Vec<usize>) -> (r: Vec<String>)
    ensures
        texts(r@) == proto_refs(protos@, ids@),
{
    let mut r: Vec<String> = Vec::new();
    let mut j: usize = 0;
    while j < ids.len()
        invariant
            j <= ids@.len(),
            texts(r@) == proto_refs(protos@, ids@.take(j as int)),
        decreases ids@.len() - j,
    {
        let ghost before = texts(r@);
        assert(ids@.take(j + 1).drop_last() == ids@.take(j as int));
        assert(ids@.take(j + 1).last() == ids@[j as int]);
        let pid = ids[j];
        if pid < protos.len() {
            let p = rooted_string(protos[pid].name.as_str());
            r.push(p);
            assert(texts(r@) == before.push(rooted(protos@[pid as int].name@)));
        }
        j = j + 1;
    }
    assert(ids@.take(ids@.len() as int) == ids@);
    r
}

/// The prims of the scene in the order they are entered.
fn entries_of(
    protos: &Vec<ScenePrototype>,
    clouds: &Vec<ScenePointCloud>,
    node_proto_map: &Vec<(GraphNodeId, Vec<usize>)>,
    node_cloud_map: &Vec<(GraphNodeId, usize)>,
) -> (r: Vec<ProceduralPrim>)
    ensures
        prim_views(r@) == scene_entries(protos@, clouds@, node_proto_map@, node_cloud_map@),
{
    let ghost pe = Seq::new(protos@.len(), |i: int| proto_entry(protos@, node_proto_map@, i));
    let mut r: Vec<ProceduralPrim> = Vec::new();
    let mut i: usize = 0;
    while i < protos.len()
        invariant
            i <= protos@.len(),
            pe == Seq::new(protos@.len(), |i: int| proto_entry(protos@, node_proto_map@, i)),
            prim_views(r@) == pe.take(i as int),
        decreases protos@.len() - i,
    {
        let path = rooted_string(protos[i].name.as_str());
        let owner = find_proto_owner(node_proto_map, i);
        let ghost before = prim_views(r@);
        r.push(
            ProceduralPrim {
                path,
                kind: ProceduralPrimKind::Mesh {
                    vertex_count: protos[i].vertex_count,
                    triangle_count: protos[i].index_count / 3,
                },
                source_node: owner,
            },
        );
        assert(prim_views(r@) == before.push(pe[i as int]));
        assert(pe.take(i + 1) == pe.take(i as int).push(pe[i as int]));
        i = i + 1;
    }
    assert(pe.take(protos@.len() as int) == pe);
    let mut j: usize = 0;
    while j < clouds.len()
        invariant
            j <= clouds@.len(),
            pe == Seq::new(protos@.len(), |i: int| proto_entry(protos@, node_proto_map@, i)),
            prim_views(r@) == pe + cloud_entries(protos@, clouds@, node_cloud_map@, j as int),
        decreases clouds@.len() - j,
    {
        let c = &clouds[j];
        if c.point_count > 0 && c.name.as_str().unicode_len() > 0 {
            let path = rooted_string(c.name.as_str());
            let refs = prototype_paths(protos, &c.prototype_ids);
            let owner = find_cloud_owner(node_cloud_map, j);
            let ghost before = prim_views(r@);
            r.push(
                ProceduralPrim {
                    path,
                    kind: ProceduralPrimKind::PointInstancer {
                        point_count: c.point_count,
                        prototype_refs: refs,
                    },
                    source_node: owner,
                },
            );
            assert(prim_views(r@) == before.push(
                cloud_entry(protos@, clouds@, node_cloud_map@, j as int),
            ));
        }
        j = j + 1;
    }
    r
}

/// The paths of a list of prims.
pub open spec fn paths_of(v: Seq<ProceduralPrim>) -> Seq<Seq<char>> {
    v.map_values(|q: ProceduralPrim| q.path@)
}

/// The parent key of `path`, as a string.
fn parent_string(path: &str) -> (r: String)
    ensures
        r@ == parent_key(path@),
{
    let v = chars_of(path);
    proof {
        lemma_last_slash(v@);
    }
    match find_last_slash(&v) {
        Some(i) => {
            let head = sub_chars(&v, 0, i);
            assert(v@.subrange(0, i as int) == v@.take(i as int));
            string_from_chars(head.as_slice())
        },
        None => String::new(),
    }
}

/// Position of the prim with path `path`, if any.
fn find_prim(prims: &Vec<ProceduralPrim>, path: &str) -> (r: Option<usize>)
    ensures
        match r {
            Some(k) => k < prims@.len() && prims@[k as int].path@ == path@,
            None => !paths_of(prims@).contains(path@),
        },
{
    let p = String::from_str(path);
    let mut k: usize = 0;
    while k < prims.len()
        invariant
            p@ == path@,
            k <= prims@.len(),
            forall|j: int| 0 <= j < k ==> prims@[j].path@ != path@,
        decreases prims@.len() - k,
    {
        if prims[k].path == p {
            return Some(k);
        }
        k = k + 1;
    }
    assert(!paths_of(prims@).contains(path@)) by {
        if paths_of(prims@).contains(path@) {
            let j = choose|j: int| 0 <= j < paths_of(prims@).len() && paths_of(prims@)[j] == path@;
            assert(prims@[j].path@ == path@);
        }
    }
    None
}

/// Keeps, for each path, the last prim entered with it.
fn keep_last(es: Vec<ProceduralPrim>) -> (r: Vec<ProceduralPrim>)
    ensures
        paths_of(r@).no_duplicates(),
        forall|p: Seq<char>|
            #[trigger] paths_of(r@).contains(p) <==> last_entry(prim_views(es@), p) >= 0,
        forall|k: int|
            0 <= k < r@.len() ==> #[trigger] r@[k]@ == prim_views(es@)[last_entry(
                prim_views(es@),
                r@[k].path@,
            )],
{
    let ghost e0 = prim_views(es@);
    let mut es = es;
    let mut r: Vec<ProceduralPrim> = Vec::new();
    while es.len() > 0
        invariant
            es@.len() <= e0.len(),
            prim_views(es@) == e0.take(es@.len() as int),
            paths_of(r@).no_duplicates(),
            forall|p: Seq<char>|
                #[trigger] paths_of(r@).contains(p) <==> exists|j: int|
                    es@.len() <= j < e0.len() && e0[j].path == p,
            forall|k: int|
                0 <= k < r@.len() ==> #[trigger] r@[k]@ == e0[last_entry(e0, r@[k].path@)],
        decreases es@.len(),
    {
        let ghost n = es@.len() - 1;
        let ghost before = es@;
        let e = es.pop().unwrap();
        assert(es@ == before.take(n));
        assert(prim_views(es@) == e0.take(n)) by {
            assert(prim_views(es@) == prim_views(before).take(n));
        }
        assert(e@ == e0[n]) by {
            assert(prim_views(before)[n] == e0.take(n + 1)[n]);
        }
        let found = find_prim(&r, e.path.as_str());
        let ghost r_old = r@;
        if found.is_none() {
            proof {
                lemma_last_entry(e0, e@.path);
                if last_entry(e0, e@.path) > n {
                    let li = last_entry(e0, e@.path);
                    assert(paths_of(r_old).contains(e@.path));
                }
                assert(last_entry(e0, e@.path) == n);
            }
            r.push(e);
            proof {
                assert(paths_of(r@) == paths_of(r_old).push(e@.path));
                assert forall|a: int, b: int|
                    0 <= a < paths_of(r@).len() && 0 <= b < paths_of(r@).len() && a != b implies paths_of(r@)[a] != paths_of(r@)[b] by {
                    if a < r_old.len() && b < r_old.len() {
                        assert(paths_of(r_old)[a] != paths_of(r_old)[b]);
                    } else if a < r_old.len() {
                        assert(paths_of(r_old).contains(paths_of(r_old)[a]));
                    } else {
                        assert(paths_of(r_old).contains(paths_of(r_old)[b]));
                    }
                }
                assert forall|k: int| 0 <= k < r@.len() implies #[trigger] r@[k]@ == e0[last_entry(e0, r@[k].path@)] by {
                    if k < r_old.len() {
                        assert(r@[k] == r_old[k]);
                    }
                }
            }
        }
        proof {
            assert forall|p: Seq<char>|
                #[trigger] paths_of(r@).contains(p) <==> exists|j: int|
                    es@.len() <= j < e0.len() && e0[j].path == p by {
                if paths_of(r@).contains(p) {
                    if paths_of(r_old).contains(p) {
                        let j = choose|j: int| n + 1 <= j < e0.len() && e0[j].path == p;
                        assert(es@.len() <= j < e0.len() && e0[j].path == p);
                    } else {
                        let k = choose|k: int| 0 <= k < paths_of(r@).len() && paths_of(r@)[k] == p;
                        assert(k == r_old.len());
                        assert(e0[n].path == p);
                    }
                }
                if exists|j: int| es@.len() <= j < e0.len() && e0[j].path == p {
                    let j = choose|j: int| es@.len() <= j < e0.len() && e0[j].path == p;
                    if j == n {
                        if found.is_none() {
                            assert(paths_of(r@)[r_old.len() as int] == p);
                        } else {
                            let k = found.unwrap();
                            assert(paths_of(r_old)[k as int] == p);
                        }
                    } else {
                        assert(paths_of(r_old).contains(p));
                        let k = choose|k: int| 0 <= k < paths_of(r_old).len() && paths_of(r_old)[k] == p;
                        assert(paths_of(r@)[k] == p);
                    }
                }
            }
        }
    }
    proof {
        assert forall|p: Seq<char>|
            #[trigger] paths_of(r@).contains(p) <==> last_entry(e0, p) >= 0 by {
            lemma_last_entry(e0, p);
            if paths_of(r@).contains(p) {
                let j = choose|j: int| 0 <= j < e0.len() && e0[j].path == p;
            }
            if last_entry(e0, p) >= 0 {
                assert(e0[last_entry(e0, p)].path == p);
            }
        }
    }
    r
}

/// The view of a generated scope at `p`.
pub open spec fn scope_view(p: Seq<char>) -> PrimView {
    PrimView { path: p, kind: PrimKindView::Scope, source_node: None }
}

/// Adds a scope for every ancestor of a prim's path that holds no prim yet.
fn add_scopes(prims: &mut Vec<ProceduralPrim>)
    requires
        paths_of(old(prims)@).no_duplicates(),
    ensures
        paths_of(final(prims)@).no_duplicates(),
        old(prims)@.len() <= final(prims)@.len(),
        forall|k: int| 0 <= k < old(prims)@.len() ==> #[trigger] final(prims)@[k] == old(prims)@[k],
        forall|k: int|
            old(prims)@.len() <= k < final(prims)@.len() ==> #[trigger] final(prims)@[k]@
                == scope_view(final(prims)@[k].path@),
        forall|p: Seq<char>|
            #[trigger] paths_of(final(prims)@).contains(p) <==> (paths_of(old(prims)@).contains(p)
                || exists|k: int|
                0 <= k < old(prims)@.len() && #[trigger] ancestor_paths(old(prims)@[k].path@).contains(
                    p,
                )),
{
    let ghost p0 = prims@;
    let n0 = prims.len();
    let mut i: usize = 0;
    while i < n0
        invariant
            n0 == p0.len(),
            i <= n0,
            paths_of(prims@).no_duplicates(),
            n0 <= prims@.len(),
            forall|k: int| 0 <= k < n0 ==> #[trigger] prims@[k] == p0[k],
            forall|k: int| n0 <= k < prims@.len() ==> #[trigger] prims@[k]@ == scope_view(prims@[k].path@),
            forall|p: Seq<char>|
                #[trigger] paths_of(prims@).contains(p) <==> (paths_of(p0).contains(p) || exists|k: int|
                    0 <= k < i && #[trigger] ancestor_paths(p0[k].path@).contains(p)),
        decreases n0 - i,
    {
        let target = prims[i].path.clone();
        let segs = segments_of(target.as_str());
        let ghost sv = crate::paths::views(segs@);
        let ghost base = paths_of(prims@);
        let mut current = String::new();
        let mut k: usize = 0;
        while k < segs.len()
            invariant
                n0 == p0.len(),
                i < n0,
                sv == crate::paths::views(segs@),
                sv == path_segments(target@),
                target@ == p0[i as int].path@,
                k <= segs@.len(),
                current@ == prefix_path(sv, k as int),
                paths_of(prims@).no_duplicates(),
                n0 <= prims@.len(),
                forall|q: int| 0 <= q < n0 ==> #[trigger] prims@[q] == p0[q],
                forall|q: int| n0 <= q < prims@.len() ==> #[trigger] prims@[q]@ == scope_view(prims@[q].path@),
                forall|p: Seq<char>|
                    #[trigger] paths_of(prims@).contains(p) <==> (base.contains(p) || exists|m: int|
                        1 <= m <= k && p == prefix_path(sv, m) && p != target@),
            decreases segs@.len() - k,
        {
            push_char(&mut current, '/');
            let seg = string_from_chars(segs[k].as_slice());
            current.append(seg.as_str());
            assert(current@ == prefix_path(sv, k + 1));
            let ghost before = prims@;
            let mut added = false;
            let mut found: Option<usize> = None;
            if current != target {
                found = find_prim(prims, current.as_str());
                if found.is_none() {
                    prims.push(
                        ProceduralPrim {
                            path: current.clone(),
                            kind: ProceduralPrimKind::Scope,
                            source_node: None,
                        },
                    );
                    added = true;
                }
            }
            proof {
                if added {
                    assert(paths_of(prims@) == paths_of(before).push(current@));
                    assert forall|a: int, b: int|
                        0 <= a < paths_of(prims@).len() && 0 <= b < paths_of(prims@).len() && a != b implies paths_of(prims@)[a] != paths_of(prims@)[b] by {
                        if a < before.len() && b < before.len() {
                            assert(paths_of(before)[a] != paths_of(before)[b]);
                        } else if a < before.len() {
                            assert(paths_of(before).contains(paths_of(before)[a]));
                        } else {
                            assert(paths_of(before).contains(paths_of(before)[b]));
                        }
                    }
                    assert forall|q: int| 0 <= q < n0 implies #[trigger] prims@[q] == p0[q] by {
                        assert(prims@[q] == before[q]);
                    }
                    assert forall|q: int| n0 <= q < prims@.len() implies #[trigger] prims@[q]@ == scope_view(prims@[q].path@) by {
                        if q < before.len() {
                            assert(prims@[q] == before[q]);
                        }
                    }
                }
                assert forall|p: Seq<char>|
                    #[trigger] paths_of(prims@).contains(p) <==> (base.contains(p) || exists|m: int|
                        1 <= m <= k + 1 && p == prefix_path(sv, m) && p != target@) by {
                    if paths_of(prims@).contains(p) && !paths_of(before).contains(p) {
                        let q = choose|q: int| 0 <= q < paths_of(prims@).len() && paths_of(prims@)[q] == p;
                        assert(q == before.len());
                        assert(p == prefix_path(sv, k + 1));
                    }
                    if paths_of(before).contains(p) {
                        let q = choose|q: int| 0 <= q < paths_of(before).len() && paths_of(before)[q] == p;
                        assert(paths_of(prims@)[q] == p);
                    }
                    if exists|m: int| 1 <= m <= k + 1 && p == prefix_path(sv, m) && p != target@ {
                        let m = choose|m: int| 1 <= m <= k + 1 && p == prefix_path(sv, m) && p != target@;
                        if m <= k {
                            assert(exists|m: int| 1 <= m <= k && p == prefix_path(sv, m) && p != target@);
                        } else if !added {
                            let fk = found.unwrap();
                            assert(paths_of(before)[fk as int] == p);
                        } else {
                            assert(paths_of(prims@)[before.len() as int] == p);
                        }
                    }
                }
            }
            k = k + 1;
        }
        proof {
            assert forall|p: Seq<char>|
                #[trigger] paths_of(prims@).contains(p) <==> (paths_of(p0).contains(p) || exists|q: int|
                    0 <= q < i + 1 && #[trigger] ancestor_paths(p0[q].path@).contains(p)) by {
                if ancestor_paths(target@).contains(p) {
                    let m = choose|m: int|
                        1 <= m <= path_segments(target@).len() && p == prefix_path(path_segments(target@), m)
                            && p != target@;
                    assert(exists|m: int| 1 <= m <= k && p == prefix_path(sv, m) && p != target@);
                }
                if exists|m: int| 1 <= m <= k && p == prefix_path(sv, m) && p != target@ {
                    assert(ancestor_paths(p0[i as int].path@).contains(p));
                }
                if exists|q: int| 0 <= q < i + 1 && #[trigger] ancestor_paths(p0[q].path@).contains(p) {
                    let q = choose|q: int| 0 <= q < i + 1 && #[trigger] ancestor_paths(p0[q].path@).contains(p);
                    if q < i {
                        assert(exists|q: int| 0 <= q < i && #[trigger] ancestor_paths(p0[q].path@).contains(p));
                    }
                }
            }
        }
        i = i + 1;
    }
}

/// The parent keys of an index.
pub open spec fn index_keys(ci: Seq<(String, Vec<String>)>) -> Seq<Seq<char>> {
    ci.map_values(|e: (String, Vec<String>)| e.0@)
}

/// Whether `ci` indexes the paths of `prims` up to position `m` by parent:
/// each key once, each list strictly sorted, not empty and holding exactly
/// those paths whose parent key is its key; every such parent key present.
pub open spec fn indexes(ci: Seq<(String, Vec<String>)>, prims: Seq<ProceduralPrim>, m: int) -> bool {
    &&& index_keys(ci).no_duplicates()
    &&& forall|i: int|
        0 <= i < ci.len() ==> strictly_sorted(texts(#[trigger] ci[i].1@)) && texts(ci[i].1@).len() > 0
    &&& forall|i: int, t: Seq<char>|
        0 <= i < ci.len() ==> (#[trigger] texts(ci[i].1@).contains(t) <==> exists|q: int|
            0 <= q < m && prims[q].path@ == t && parent_key(t) == ci[i].0@)
    &&& forall|q: int| 0 <= q < m ==> index_keys(ci).contains(parent_key(#[trigger] prims[q].path@))
}

/// Position of `key` among the keys of `ci`, if present.
fn find_key(ci: &Vec<(String, Vec<String>)>, key: &String) -> (r: Option<usize>)
    ensures
        match r {
            Some(i) => i < ci@.len() && ci@[i as int].0@ == key@,
            None => !index_keys(ci@).contains(key@),
        },
{
    let mut i: usize = 0;
    while i < ci.len()
        invariant
            i <= ci@.len(),
            forall|j: int| 0 <= j < i ==> ci@[j].0@ != key@,
        decreases ci@.len() - i,
    {
        if ci[i].0 == *key {
            return Some(i);
        }
        i = i + 1;
    }
    assert(!index_keys(ci@).contains(key@)) by {
        if index_keys(ci@).contains(key@) {
            let j = choose|j: int| 0 <= j < index_keys(ci@).len() && index_keys(ci@)[j] == key@;
            assert(ci@[j].0@ == key@);
        }
    }
    None
}

/// Builds the parent-to-children index of the prims.
fn build_children_index(prims: &Vec<ProceduralPrim>) -> (ci: Vec<(String, Vec<String>)>)
    ensures
        indexes(ci@, prims@, prims@.len() as int),
{
    let mut ci: Vec<(String, Vec<String>)> = Vec::new();
    let mut m: usize = 0;
    while m < prims.len()
        invariant
            m <= prims@.len(),
            indexes(ci@, prims@, m as int),
        decreases prims@.len() - m,
    {
        let path = prims[m].path.clone();
        let parent = parent_string(path.as_str());
        let ghost old_ci = ci@;
        match find_key(&ci, &parent) {
            Some(j) => {
                let mut entry = ci.remove(j);
                let ghost old_list = texts(entry.1@);
                insert_sorted(&mut entry.1, path);
                ci.insert(j, entry);
                proof {
                    assert(ci@ == old_ci.update(j as int, ci@[j as int]));
                    assert(index_keys(ci@) == index_keys(old_ci));
                    assert(texts(ci@[j as int].1@).contains(prims@[m as int].path@));
                    assert(texts(ci@[j as int].1@).len() > 0);
                    assert forall|i: int, t: Seq<char>|
                        0 <= i < ci@.len() implies (#[trigger] texts(ci@[i].1@).contains(t) <==> exists|q: int|
                            0 <= q < m + 1 && prims@[q].path@ == t && parent_key(t) == ci@[i].0@) by {
                        if i != j {
                            assert(ci@[i] == old_ci[i]);
                            assert(texts(old_ci[i].1@).contains(t) <==> exists|q: int|
                                0 <= q < m && prims@[q].path@ == t && parent_key(t) == old_ci[i].0@);
                            if exists|q: int| 0 <= q < m + 1 && prims@[q].path@ == t && parent_key(t) == ci@[i].0@ {
                                let q = choose|q: int| 0 <= q < m + 1 && prims@[q].path@ == t && parent_key(t) == ci@[i].0@;
                                if q == m {
                                    assert(index_keys(old_ci)[i] == index_keys(old_ci)[j as int]);
                                }
                            }
                        } else {
                            assert(texts(old_ci[i].1@).contains(t) <==> exists|q: int|
                                0 <= q < m && prims@[q].path@ == t && parent_key(t) == old_ci[i].0@);
                        }
                    }
                    assert forall|i: int| 0 <= i < ci@.len() implies strictly_sorted(texts(#[trigger] ci@[i].1@)) && texts(ci@[i].1@).len() > 0 by {
                        if i != j {
                            assert(ci@[i] == old_ci[i]);
                        }
                    }
                    assert forall|q: int| 0 <= q < m + 1 implies index_keys(ci@).contains(parent_key(#[trigger] prims@[q].path@)) by {
                        if q == m {
                            assert(index_keys(ci@)[j as int] == parent_key(prims@[q].path@));
                        }
                    }
                }
            },
            None => {
                let mut list: Vec<String> = Vec::new();
                list.push(path);
                let ghost key = parent@;
                ci.push((parent, list));
                proof {
                    let last = ci@.len() - 1;
                    assert(texts(ci@[last].1@) == seq![prims@[m as int].path@]);
                    assert(index_keys(ci@) == index_keys(old_ci).push(key));
                    assert forall|a: int, b: int|
                        0 <= a < index_keys(ci@).len() && 0 <= b < index_keys(ci@).len() && a != b implies index_keys(ci@)[a] != index_keys(ci@)[b] by {
                        if a < old_ci.len() && b < old_ci.len() {
                            assert(index_keys(old_ci)[a] != index_keys(old_ci)[b]);
                        } else if a < old_ci.len() {
                            assert(index_keys(old_ci).contains(index_keys(old_ci)[a]));
                        } else {
                            assert(index_keys(old_ci).contains(index_keys(old_ci)[b]));
                        }
                    }
                    assert forall|i: int, t: Seq<char>|
                        0 <= i < ci@.len() implies (#[trigger] texts(ci@[i].1@).contains(t) <==> exists|q: int|
                            0 <= q < m + 1 && prims@[q].path@ == t && parent_key(t) == ci@[i].0@) by {
                        if i < old_ci.len() {
                            assert(ci@[i] == old_ci[i]);
                            assert(texts(old_ci[i].1@).contains(t) <==> exists|q: int|
                                0 <= q < m && prims@[q].path@ == t && parent_key(t) == old_ci[i].0@);
                            if exists|q: int| 0 <= q < m + 1 && prims@[q].path@ == t && parent_key(t) == ci@[i].0@ {
                                let q = choose|q: int| 0 <= q < m + 1 && prims@[q].path@ == t && parent_key(t) == ci@[i].0@;
                                if q == m {
                                    assert(index_keys(old_ci)[i] == key);
                                    assert(index_keys(old_ci).contains(key));
                                }
                            }
                        } else {
                            if texts(ci@[i].1@).contains(t) {
                                assert(t == prims@[m as int].path@);
                            }
                            if exists|q: int| 0 <= q < m + 1 && prims@[q].path@ == t && parent_key(t) == ci@[i].0@ {
                                let q = choose|q: int| 0 <= q < m + 1 && prims@[q].path@ == t && parent_key(t) == ci@[i].0@;
                                if q < m {
                                    assert(index_keys(old_ci).contains(parent_key(prims@[q].path@)));
                                } else {
                                    assert(texts(ci@[i].1@)[0] == t);
                                }
                            }
                        }
                    }
                    assert forall|i: int| 0 <= i < ci@.len() implies strictly_sorted(texts(#[trigger] ci@[i].1@)) && texts(ci@[i].1@).len() > 0 by {
                        if i < old_ci.len() {
                            assert(ci@[i] == old_ci[i]);
                        }
                    }
                    assert forall|q: int| 0 <= q < m + 1 implies index_keys(ci@).contains(parent_key(#[trigger] prims@[q].path@)) by {
                        if q == m {
                            assert(index_keys(ci@)[last] == key);
                        } else {
                            assert(index_keys(old_ci).contains(parent_key(prims@[q].path@)));
                            let k2 = choose|k2: int| 0 <= k2 < index_keys(old_ci).len() && index_keys(old_ci)[k2] == parent_key(prims@[q].path@);
                            assert(index_keys(ci@)[k2] == parent_key(prims@[q].path@));
                        }
                    }
                }
            },
        }
        m = m + 1;
    }
    ci
}

/// The prim with path `p` (the last one, should there be several).
pub open spec fn prim_lookup(prims: Seq<ProceduralPrim>, p: Seq<char>) -> Option<PrimView>
    decreases prims.len(),
{
    if prims.len() == 0 {
        None
    } else if prims.last().path@ == p {
        Some(prims.last()@)
    } else {
        prim_lookup(prims.drop_last(), p)
    }
}

/// Among prims of distinct paths, the lookup of a prim's path finds it, and
/// the lookup of any other path finds nothing.
pub proof fn lemma_prim_lookup(prims: Seq<ProceduralPrim>, p: Seq<char>)
    requires
        paths_of(prims).no_duplicates(),
    ensures
        paths_of(prims).contains(p) <==> prim_lookup(prims, p) is Some,
        forall|k: int|
            0 <= k < prims.len() && #[trigger] prims[k].path@ == p ==> prim_lookup(prims, p)
                == Some(prims[k]@),
    decreases prims.len(),
{
    if prims.len() > 0 {
        let rest = prims.drop_last();
        assert(paths_of(rest) == paths_of(prims).drop_last());
        lemma_prim_lookup(rest, p);
        assert forall|k: int| 0 <= k < prims.len() && #[trigger] prims[k].path@ == p implies prim_lookup(prims, p) == Some(prims[k]@) by {
            if k < prims.len() - 1 {
                assert(rest[k] == prims[k]);
                if prims.last().path@ == p {
                    assert(paths_of(prims)[k] == paths_of(prims)[prims.len() - 1]);
                }
            }
        }
        if paths_of(prims).contains(p) {
            let k = choose|k: int| 0 <= k < paths_of(prims).len() && paths_of(prims)[k] == p;
            assert(prims[k].path@ == p);
        }
        if prim_lookup(prims, p) is Some {
            if prims.last().path@ == p {
                assert(paths_of(prims)[prims.len() - 1] == p);
            } else {
                let k = choose|k: int| 0 <= k < paths_of(rest).len() && paths_of(rest)[k] == p;
                assert(paths_of(prims)[k] == p);
            }
        }
    }
}

/// Number of prims that `node` produced.
pub open spec fn source_count(prims: Seq<ProceduralPrim>, node: GraphNodeId) -> nat
    decreases prims.len(),
{
    if prims.len() == 0 {
        0
    } else if prims.last().source_node == Some(node) {
        source_count(prims.drop_last(), node) + 1
    } else {
        source_count(prims.drop_last(), node)
    }
}

proof fn lemma_source_count_bound(prims: Seq<ProceduralPrim>, node: GraphNodeId)
    ensures
        source_count(prims, node) <= prims.len(),
    decreases prims.len(),
{
    if prims.len() > 0 {
        lemma_source_count_bound(prims.drop_last(), node);
    }
}

/// Cached scene graph: the procedural prims of the working scene, each path
/// once, and the index from a parent key to its children, sorted.
pub struct CachedSceneGraph {
    /// Procedural prims, each path once.
    pub procedural_prims: Vec<ProceduralPrim>,
    /// Parent key with the sorted paths of its children.
    pub children_index: Vec<(String, Vec<String>)>,
}

impl CachedSceneGraph {
    /// Whether the cache holds a prim at `p`.
    pub open spec fn has_prim(&self, p: Seq<char>) -> bool {
        paths_of(self.procedural_prims@).contains(p)
    }

    /// The prim at `p`.
    pub open spec fn prim_at(&self, p: Seq<char>) -> Option<PrimView> {
        prim_lookup(self.procedural_prims@, p)
    }

    /// The paths of the prims whose parent key is `key`.
    pub open spec fn children_of(&self, key: Seq<char>) -> Set<Seq<char>> {
        Set::new(|p: Seq<char>| self.has_prim(p) && parent_key(p) == key)
    }

    /// Every path once; the index lists exactly the children of each key.
    pub open spec fn wf(&self) -> bool {
        &&& paths_of(self.procedural_prims@).no_duplicates()
        &&& indexes(
            self.children_index@,
            self.procedural_prims@,
            self.procedural_prims@.len() as int,
        )
    }

    /// The prim at `path`, if the cache holds one.
    pub fn get_prim(&self, path: &str) -> (r: Option<&ProceduralPrim>)
        requires
            self.wf(),
        ensures
            r is None <==> !self.has_prim(path@),
            r matches Some(q) ==> q.path@ == path@ && self.prim_at(path@) == Some(q@),
    {
        proof {
            lemma_prim_lookup(self.procedural_prims@, path@);
        }
        match find_prim(&self.procedural_prims, path) {
            Some(k) => Some(&self.procedural_prims[k]),
            None => None,
        }
    }

    /// The sorted children of `key` in the index (`None` where it has none).
    pub fn children_list(&self, key: &str) -> (r: Option<&Vec<String>>)
        requires
            self.wf(),
        ensures
            r is None <==> self.children_of(key@).is_empty(),
            r matches Some(l) ==> strictly_sorted(texts(l@)) && texts(l@).to_set()
                == self.children_of(key@),
    {
        let k = String::from_str(key);
        match find_key(&self.children_index, &k) {
            Some(i) => {
                let l = &self.children_index[i].1;
                proof {
                    let ci = self.children_index@;
                    assert forall|t: Seq<char>| #[trigger] texts(l@).to_set().contains(t) <==> self.children_of(key@).contains(t) by {
                        assert(texts(ci[i as int].1@).contains(t) <==> exists|q: int|
                            0 <= q < self.procedural_prims@.len() && self.procedural_prims@[q].path@ == t
                                && parent_key(t) == ci[i as int].0@);
                        if self.has_prim(t) {
                            let q = choose|q: int| 0 <= q < paths_of(self.procedural_prims@).len() && paths_of(self.procedural_prims@)[q] == t;
                            assert(self.procedural_prims@[q].path@ == t);
                        }
                        if texts(l@).contains(t) {
                            let q = choose|q: int| 0 <= q < self.procedural_prims@.len() && self.procedural_prims@[q].path@ == t
                                && parent_key(t) == ci[i as int].0@;
                            assert(paths_of(self.procedural_prims@)[q] == t);
                        }
                    }
                    assert(texts(l@).to_set() == self.children_of(key@));
                    assert(texts(l@).contains(texts(l@)[0]));
                    assert(self.children_of(key@).contains(texts(l@)[0]));
                }
                Some(l)
            },
            None => {
                proof {
                    if !self.children_of(key@).is_empty() {
                        let t = self.children_of(key@).choose();
                        assert(self.children_of(key@).contains(t));
                        let q = choose|q: int| 0 <= q < paths_of(self.procedural_prims@).len() && paths_of(self.procedural_prims@)[q] == t;
                        assert(index_keys(self.children_index@).contains(parent_key(self.procedural_prims@[q].path@)));
                    }
                }
                None
            },
        }
    }

    /// Number of prims per source node; generated scopes count for no node.
    /// Each node appears once, with a count above zero.
    pub fn prim_count_by_node(&self) -> (r: Vec<(GraphNodeId, usize)>)
        ensures
            forall|i: int|
                0 <= i < r@.len() ==> #[trigger] r@[i].1 as nat == source_count(
                    self.procedural_prims@,
                    r@[i].0,
                ) && r@[i].1 > 0,
            forall|i: int, j: int| 0 <= i < j < r@.len() ==> #[trigger] r@[i].0 != #[trigger] r@[j].0,
            forall|n: GraphNodeId|
                source_count(self.procedural_prims@, n) > 0 ==> exists|i: int|
                    0 <= i < r@.len() && #[trigger] r@[i].0 == n,
    {
        let prims = &self.procedural_prims;
        let mut r: Vec<(GraphNodeId, usize)> = Vec::new();
        let mut m: usize = 0;
        while m < prims.len()
            invariant
                m <= prims@.len(),
                forall|i: int|
                    0 <= i < r@.len() ==> #[trigger] r@[i].1 as nat == source_count(
                        prims@.take(m as int),
                        r@[i].0,
                    ) && r@[i].1 > 0,
                forall|i: int, j: int| 0 <= i < j < r@.len() ==> #[trigger] r@[i].0 != #[trigger] r@[j].0,
                forall|n: GraphNodeId|
                    source_count(prims@.take(m as int), n) > 0 ==> exists|i: int|
                        0 <= i < r@.len() && #[trigger] r@[i].0 == n,
            decreases prims@.len() - m,
        {
            let ghost t0 = prims@.take(m as int);
            let ghost t1 = prims@.take(m + 1);
            assert(t1.drop_last() == t0);
            assert(t1.last() == prims@[m as int]);
            let ghost r_old = r@;
            if let Some(n) = prims[m].source_node {
                let mut j: usize = 0;
                while j < r.len() && r[j].0 != n
                    invariant
                        j <= r@.len(),
                        forall|k: int| 0 <= k < j ==> r@[k].0 != n,
                    decreases r@.len() - j,
                {
                    j = j + 1;
                }
                proof {
                    lemma_source_count_bound(t1, n);
                }
                if j < r.len() {
                    let c = r[j].1;
                    r.set(j, (n, c + 1));
                } else {
                    r.push((n, 1));
                }
                proof {
                    assert forall|i: int|
                        0 <= i < r@.len() implies #[trigger] r@[i].1 as nat == source_count(t1, r@[i].0)
                            && r@[i].1 > 0 by {
                        if i < r_old.len() && i != j {
                            assert(r@[i] == r_old[i]);
                        }
                        if i >= r_old.len() {
                            if source_count(t0, n) > 0 {
                                let k = choose|k: int| 0 <= k < r_old.len() && #[trigger] r_old[k].0 == n;
                                assert(k < j);
                            }
                        }
                    }
                    assert forall|a: int, b: int| 0 <= a < b < r@.len() implies #[trigger] r@[a].0 != #[trigger] r@[b].0 by {
                        if b >= r_old.len() {
                            assert(r_old[a].0 != n);
                        } else if a != j && b != j {
                            assert(r_old[a].0 != r_old[b].0);
                        } else if a == j {
                            assert(r_old[a].0 != r_old[b].0);
                        } else {
                            assert(r_old[a].0 != r_old[b].0);
                        }
                    }
                    assert forall|x: GraphNodeId| source_count(t1, x) > 0 implies exists|i: int|
                        0 <= i < r@.len() && #[trigger] r@[i].0 == x by {
                        if x == n {
                            assert(r@[j as int].0 == x);
                        } else {
                            assert(source_count(t1, x) == source_count(t0, x));
                            let k = choose|k: int| 0 <= k < r_old.len() && #[trigger] r_old[k].0 == x;
                            if j < r_old.len() {
                                assert(r_old[j as int].0 == n);
                            }
                            assert(r@[k] == r_old[k]);
                        }
                    }
                }
            } else {
                proof {
                    assert forall|i: int|
                        0 <= i < r@.len() implies #[trigger] r@[i].1 as nat == source_count(t1, r@[i].0)
                            && r@[i].1 > 0 by {
                    }
                    assert forall|x: GraphNodeId| source_count(t1, x) > 0 implies exists|i: int|
                        0 <= i < r@.len() && #[trigger] r@[i].0 == x by {
                        assert(source_count(t0, x) > 0);
                    }
                }
            }
            m = m + 1;
        }
        assert(prims@.take(prims@.len() as int) == prims@);
        r
    }
}

impl Default for CachedSceneGraph {
    /// An empty cache.
    fn default() -> (c: CachedSceneGraph)
        ensures
            c.procedural_prims@.len() == 0,
            c.children_index@.len() == 0,
            c.wf(),
    {
        CachedSceneGraph { procedural_prims: Vec::new(), children_index: Vec::new() }
    }
}

/// Builds the cache of procedural prims of a scene.
///
/// Every prototype becomes a mesh prim and every point cloud with points and a
/// name a point-instancer prim, at its name with a leading `/` added where
/// missing; a later prim replaces an earlier one at the same path. Every
/// ancestor of their paths that holds no prim becomes a scope. Each prim is
/// tagged with the node that claims its prototype or cloud in the maps.
pub fn build_scene_graph_cache(
    protos: &Vec<ScenePrototype>,
    clouds: &Vec<ScenePointCloud>,
    node_proto_map: &Vec<(GraphNodeId, Vec<usize>)>,
    node_cloud_map: &Vec<(GraphNodeId, usize)>,
) -> (c: CachedSceneGraph)
    ensures
        c.wf(),
        forall|p: Seq<char>|
            #[trigger] c.has_prim(p) <==> in_cache(
                scene_entries(protos@, clouds@, node_proto_map@, node_cloud_map@),
                p,
            ),
        forall|k: int|
            0 <= k < c.procedural_prims@.len() ==> #[trigger] c.procedural_prims@[k]@
                == expected_prim(
                scene_entries(protos@, clouds@, node_proto_map@, node_cloud_map@),
                c.procedural_prims@[k].path@,
            ),
{
    let ghost es = scene_entries(protos@, clouds@, node_proto_map@, node_cloud_map@);
    let entries = entries_of(protos, clouds, node_proto_map, node_cloud_map);
    let mut prims = keep_last(entries);
    let ghost pb = prims@;
    add_scopes(&mut prims);
    let children_index = build_children_index(&prims);
    let c = CachedSceneGraph { procedural_prims: prims, children_index };
    proof {
        assert forall|p: Seq<char>| #[trigger] c.has_prim(p) <==> in_cache(es, p) by {
            lemma_last_entry(es, p);
            if exists|k: int| 0 <= k < pb.len() && #[trigger] ancestor_paths(pb[k].path@).contains(p) {
                let k = choose|k: int| 0 <= k < pb.len() && #[trigger] ancestor_paths(pb[k].path@).contains(p);
                assert(paths_of(pb)[k] == pb[k].path@);
                assert(paths_of(pb).contains(pb[k].path@));
                let q = pb[k].path@;
                lemma_last_entry(es, q);
                let j = last_entry(es, q);
                assert(ancestor_paths(es[j].path).contains(p));
            }
            if exists|j: int| 0 <= j < es.len() && #[trigger] ancestor_paths(es[j].path).contains(p) {
                let j = choose|j: int| 0 <= j < es.len() && #[trigger] ancestor_paths(es[j].path).contains(p);
                let q = es[j].path;
                lemma_last_entry(es, q);
                assert(last_entry(es, q) >= 0);
                assert(paths_of(pb).contains(q));
                let k = choose|k: int| 0 <= k < paths_of(pb).len() && paths_of(pb)[k] == q;
                assert(pb[k].path@ == q);
                assert(ancestor_paths(pb[k].path@).contains(p));
            }
        }
        assert forall|k: int| 0 <= k < c.procedural_prims@.len() implies #[trigger] c.procedural_prims@[k]@
            == expected_prim(es, c.procedural_prims@[k].path@) by {
            let q = c.procedural_prims@[k].path@;
            if k < pb.len() {
                assert(c.procedural_prims@[k] == pb[k]);
                assert(paths_of(pb)[k] == q);
                assert(paths_of(pb).contains(q));
            } else {
                if paths_of(pb).contains(q) {
                    let j = choose|j: int| 0 <= j < paths_of(pb).len() && paths_of(pb)[j] == q;
                    assert(c.procedural_prims@[j] == pb[j]);
                    assert(paths_of(c.procedural_prims@)[j] == paths_of(c.procedural_prims@)[k]);
                }
            }
        }
    }
    c
}

/// The cache holds every ancestor of every prim it holds: scopes fill in each
/// path segment above a prim that no prim of the scene occupies.
pub proof fn lemma_cache_closed_under_ancestors(es: Seq<PrimView>, p: Seq<char>, q: Seq<char>)
    requires
        in_cache(es, p),
        ancestor_paths(p).contains(q),
    ensures
        in_cache(es, q),
{
    if last_entry(es, p) >= 0 {
        lemma_last_entry(es, p);
        let k = last_entry(es, p);
        assert(ancestor_paths(es[k].path).contains(q));
    } else {
        let k = choose|k: int| 0 <= k < es.len() && #[trigger] ancestor_paths(es[k].path).contains(p);
        crate::scene_browser::lemma_ancestor_transitive(es[k].path, p, q);
        if q == es[k].path {
            lemma_last_entry(es, q);
        } else {
            assert(ancestor_paths(es[k].path).contains(q));
        }
    }
}

} // verus!
