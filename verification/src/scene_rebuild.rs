//! What a rebuild of the working scene decides before anything is uploaded:
//! which graph nodes are active under the display flag, which prototypes stay
//! out of the viewport, how the per-triangle material table is laid out, and
//! in which order transform nodes apply to which instances.

use vstd::prelude::*;

use crate::node_graph::ops::{first_source, SceneGraph, Wire};
use crate::node_graph::{GraphNodeId, SceneNode};

verus! {

/// Whether node `n` is active: every node is when no node holds the display
/// flag, otherwise the nodes upstream of the display node are.
pub open spec fn node_active(active: Option<Seq<GraphNodeId>>, n: GraphNodeId) -> bool {
    match active {
        None => true,
        Some(s) => s.contains(n),
    }
}

/// The view of an optional node list.
pub open spec fn active_view(active: Option<Vec<GraphNodeId>>) -> Option<Seq<GraphNodeId>> {
    match active {
        None => None,
        Some(v) => Some(v@),
    }
}

/// The active nodes: none listed (all active) without a display node, else
/// the display node and every node it takes input from.
pub fn active_nodes(graph: &SceneGraph, display: Option<GraphNodeId>) -> (r: Option<Vec<GraphNodeId>>)
    requires
        graph.wf(),
        display matches Some(d) ==> graph.has_node(d),
    ensures
        r is Some <==> display is Some,
        r matches Some(v) ==> v@.no_duplicates() && forall|x: GraphNodeId|
            v@.contains(x) <==> graph.reaches(true, display->0, x),
{
    match display {
        None => None,
        Some(d) => Some(graph.collect_upstream_nodes(d)),
    }
}

fn is_active(active: &Option<Vec<GraphNodeId>>, n: GraphNodeId) -> (b: bool)
    ensures
        b == node_active(active_view(*active), n),
{
    match active {
        None => true,
        Some(v) => {
            let mut i: usize = 0;
            while i < v.len()
                invariant
                    i <= v@.len(),
                    active_view(*active) == Some(v@),
                    forall|j: int| 0 <= j < i ==> v@[j] != n,
                decreases v@.len() - i,
            {
                if v[i] == n {
                    assert(v@[i as int] == n);
                    return true;
                }
                i = i + 1;
            }
            false
        },
    }
}

/// The prototypes instanced by the active instancers among `results`.
pub open spec fn instanced_ids(
    active: Option<Seq<GraphNodeId>>,
    results: Seq<(GraphNodeId, Vec<usize>)>,
) -> Set<usize>
    decreases results.len(),
{
    if results.len() == 0 {
        Set::empty()
    } else {
        instanced_ids(active, results.drop_last()).union(
            if node_active(active, results.last().0) {
                results.last().1@.to_set()
            } else {
                Set::empty()
            },
        )
    }
}

/// The prototypes that active scatter nodes among `surfaces` scatter over.
pub open spec fn surface_ids(active: Option<Seq<GraphNodeId>>, surfaces: Seq<(GraphNodeId, usize)>) -> Set<
    usize,
>
    decreases surfaces.len(),
{
    if surfaces.len() == 0 {
        Set::empty()
    } else if node_active(active, surfaces.last().0) {
        surface_ids(active, surfaces.drop_last()).insert(surfaces.last().1)
    } else {
        surface_ids(active, surfaces.drop_last())
    }
}

/// The prototypes made by the inactive nodes among `protos`.
pub open spec fn inactive_ids(
    active: Option<Seq<GraphNodeId>>,
    protos: Seq<(GraphNodeId, Vec<usize>)>,
) -> Set<usize>
    decreases protos.len(),
{
    if protos.len() == 0 {
        Set::empty()
    } else {
        inactive_ids(active, protos.drop_last()).union(
            if node_active(active, protos.last().0) {
                Set::empty()
            } else {
                protos.last().1@.to_set()
            },
        )
    }
}

/// The prototypes that stay out of the viewport: those an active instancer
/// instanced, those an active scatter node scatters over, and those an
/// inactive node made.
pub open spec fn hidden_ids(
    active: Option<Seq<GraphNodeId>>,
    instancer_results: Seq<(GraphNodeId, Vec<usize>)>,
    scatter_surfaces: Seq<(GraphNodeId, usize)>,
    node_proto_map: Seq<(GraphNodeId, Vec<usize>)>,
) -> Set<usize> {
    instanced_ids(active, instancer_results).union(surface_ids(active, scatter_surfaces)).union(
        inactive_ids(active, node_proto_map),
    )
}

fn push_unique(v: &mut Vec<usize>, x: usize)
    requires
        old(v)@.no_duplicates(),
    ensures
        final(v)@.no_duplicates(),
        final(v)@.to_set() == old(v)@.to_set().insert(x),
{
    let ghost v0 = v@;
    let mut i: usize = 0;
    while i < v.len()
        invariant
            i <= v@.len(),
            v@ == v0,
            v0 == old(v)@,
            v@.no_duplicates(),
            forall|j: int| 0 <= j < i ==> v@[j] != x,
        decreases v@.len() - i,
    {
        if v[i] == x {
            assert(v@.to_set() =~= v0.to_set().insert(x)) by {
                assert(v@[i as int] == x);
            }
            return ;
        }
        i = i + 1;
    }
    let ghost before = v@;
    v.push(x);
    proof {
        before.lemma_push_to_set_commute(x);
        assert forall|a: int, b: int| 0 <= a < v@.len() && 0 <= b < v@.len() && a != b implies v@[a]
            != v@[b] by {
            if a < before.len() && b < before.len() {
                assert(before[a] != before[b]);
            } else if a < before.len() {
                assert(before[a] != x);
            } else {
                assert(before[b] != x);
            }
        }
    }
}

fn push_all_unique(v: &mut Vec<usize>, xs: &Vec<usize>)
    requires
        old(v)@.no_duplicates(),
    ensures
        final(v)@.no_duplicates(),
        final(v)@.to_set() == old(v)@.to_set().union(xs@.to_set()),
{
    let ghost start = v@;
    let mut k: usize = 0;
    assert(xs@.take(0).to_set() =~= Set::empty());
    assert(start.to_set().union(Set::empty()) =~= start.to_set());
    while k < xs.len()
        invariant
            k <= xs@.len(),
            start == old(v)@,
            v@.no_duplicates(),
            v@.to_set() == start.to_set().union(xs@.take(k as int).to_set()),
        decreases xs@.len() - k,
    {
        push_unique(v, xs[k]);
        proof {
            assert(xs@.take(k + 1) =~= xs@.take(k as int).push(xs@[k as int]));
            xs@.take(k as int).lemma_push_to_set_commute(xs@[k as int]);
            assert(v@.to_set() =~= start.to_set().union(xs@.take(k + 1).to_set()));
        }
        k = k + 1;
    }
    assert(xs@.take(xs@.len() as int) =~= xs@);
}

/// The prototypes that stay out of the viewport, each once.
pub fn hidden_prototype_ids(
    active: &Option<Vec<GraphNodeId>>,
    instancer_results: &Vec<(GraphNodeId, Vec<usize>)>,
    scatter_surfaces: &Vec<(GraphNodeId, usize)>,
    node_proto_map: &Vec<(GraphNodeId, Vec<usize>)>,
) -> (r: Vec<usize>)
    ensures
        r@.no_duplicates(),
        r@.to_set() == hidden_ids(
            active_view(*active),
            instancer_results@,
            scatter_surfaces@,
            node_proto_map@,
        ),
{
    let ghost act = active_view(*active);
    let ghost ir = instancer_results@;
    let ghost ss = scatter_surfaces@;
    let ghost np = node_proto_map@;
    let mut r: Vec<usize> = Vec::new();
    let mut i: usize = 0;
    assert(ir.take(0) =~= seq![]);
    assert(r@.to_set() =~= Set::empty());
    while i < instancer_results.len()
        invariant
            i <= ir.len(),
            ir == instancer_results@,
            act == active_view(*active),
            r@.no_duplicates(),
            r@.to_set() == instanced_ids(act, ir.take(i as int)),
        decreases ir.len() - i,
    {
        assert(ir.take(i + 1).drop_last() =~= ir.take(i as int));
        assert(ir.take(i + 1).last() == ir[i as int]);
        if is_active(active, instancer_results[i].0) {
            push_all_unique(&mut r, &instancer_results[i].1);
        } else {
            assert(r@.to_set().union(Set::empty()) =~= r@.to_set());
        }
        i = i + 1;
    }
    assert(ir.take(ir.len() as int) =~= ir);
    let ghost r1 = r@.to_set();
    let mut i: usize = 0;
    assert(ss.take(0) =~= seq![]);
    assert(r1.union(Set::empty()) =~= r1);
    while i < scatter_surfaces.len()
        invariant
            i <= ss.len(),
            ss == scatter_surfaces@,
            act == active_view(*active),
            r@.no_duplicates(),
            r@.to_set() == r1.union(surface_ids(act, ss.take(i as int))),
        decreases ss.len() - i,
    {
        assert(ss.take(i + 1).drop_last() =~= ss.take(i as int));
        assert(ss.take(i + 1).last() == ss[i as int]);
        if is_active(active, scatter_surfaces[i].0) {
            push_unique(&mut r, scatter_surfaces[i].1);
            assert(r@.to_set() =~= r1.union(surface_ids(act, ss.take(i + 1))));
        }
        i = i + 1;
    }
    assert(ss.take(ss.len() as int) =~= ss);
    let ghost r2 = r@.to_set();
    let mut i: usize = 0;
    assert(np.take(0) =~= seq![]);
    assert(r2.union(Set::empty()) =~= r2);
    while i < node_proto_map.len()
        invariant
            i <= np.len(),
            np == node_proto_map@,
            act == active_view(*active),
            r@.no_duplicates(),
            r@.to_set() == r2.union(inactive_ids(act, np.take(i as int))),
        decreases np.len() - i,
    {
        assert(np.take(i + 1).drop_last() =~= np.take(i as int));
        assert(np.take(i + 1).last() == np[i as int]);
        if !is_active(active, node_proto_map[i].0) {
            push_all_unique(&mut r, &node_proto_map[i].1);
            assert(r@.to_set() =~= r2.union(inactive_ids(act, np.take(i + 1))));
        } else {
            assert(r@.to_set() =~= r2.union(inactive_ids(act, np.take(i + 1))));
        }
        i = i + 1;
    }
    assert(np.take(np.len() as int) =~= np);
    r
}

/// Marks a triangle that has no material of its own.
pub const NO_TRIANGLE_MATERIAL: u32 = 0xFFFF_FFFF;

/// What the triangle material table reads of a prototype's mesh.
pub struct ProtoTriangles {
    /// Material index of each triangle, when the mesh has material subsets.
    pub triangle_materials: Option<Vec<u32>>,
    /// Whether the mesh carries a display colour.
    pub has_display_color: bool,
    /// Number of triangles of the mesh.
    pub triangle_count: u32,
}

/// The per-triangle material table of the prototypes, one run of entries per
/// prototype.
pub struct TriangleMaterialLayout {
    /// Where each prototype's entries start in the table.
    pub offsets: Vec<u32>,
    /// The table, cut to what one GPU storage buffer holds.
    pub table: Vec<u32>,
    /// The prototypes that get a flat material made from their display
    /// colour, in order; the `k`-th of them uses material index
    /// `material_count + 1 + k`, past the scene's materials and the default.
    pub display_color_protos: Vec<usize>,
    /// Whether any triangle has a material of its own.
    pub has_triangle_materials: bool,
}

/// `n` copies of `x`.
pub open spec fn repeat(n: nat, x: u32) -> Seq<u32> {
    Seq::new(n, |i: int| x)
}

/// Whether a prototype gets a flat material from its display colour: it has
/// a display colour and no material subsets.
pub open spec fn uses_display_color(p: ProtoTriangles) -> bool {
    p.triangle_materials is None && p.has_display_color
}

/// A prototype's run of entries: its triangles' own materials; else its
/// display-colour material `flat` for each triangle; else no material.
pub open spec fn proto_entries(p: ProtoTriangles, flat: u32) -> Seq<u32> {
    match p.triangle_materials {
        Some(v) => v@,
        None => if p.has_display_color {
            repeat(p.triangle_count as nat, flat)
        } else {
            repeat(p.triangle_count as nat, NO_TRIANGLE_MATERIAL)
        },
    }
}

/// Table, offsets and display-colour prototypes for the first `k` prototypes,
/// the display-colour materials numbered from `first_flat`.
pub open spec fn layout_upto(protos: Seq<ProtoTriangles>, first_flat: nat, k: int) -> (
    Seq<u32>,
    Seq<u32>,
    Seq<usize>,
)
    decreases k,
{
    if k <= 0 {
        (seq![], seq![], seq![])
    } else {
        let prev = layout_upto(protos, first_flat, k - 1);
        let p = protos[k - 1];
        let flat = (first_flat + prev.2.len()) as u32;
        (
            prev.0 + proto_entries(p, flat),
            prev.1.push(prev.0.len() as u32),
            if uses_display_color(p) {
                prev.2.push((k - 1) as usize)
            } else {
                prev.2
            },
        )
    }
}

/// Whether some entry of the table names a material.
pub open spec fn has_own_material(t: Seq<u32>) -> bool {
    exists|i: int| 0 <= i < t.len() && t[i] != NO_TRIANGLE_MATERIAL
}

/// The table as uploaded: never empty (a lone no-material entry stands in),
/// and cut to the entries that fit in `max_bytes` bytes when it is larger.
pub open spec fn uploaded_table(t: Seq<u32>, max_bytes: nat) -> Seq<u32> {
    let padded = if t.len() == 0 {
        seq![NO_TRIANGLE_MATERIAL]
    } else {
        t
    };
    if padded.len() * 4 > max_bytes {
        padded.take((max_bytes / 4) as int)
    } else {
        padded
    }
}

fn push_repeat(t: &mut Vec<u32>, n: u32, x: u32)
    ensures
        final(t)@ == old(t)@ + repeat(n as nat, x),
{
    let ghost t0 = t@;
    let mut i: u32 = 0;
    while i < n
        invariant
            i <= n,
            t@ == t0 + repeat(i as nat, x),
        decreases n - i,
    {
        t.push(x);
        assert(t@ =~= t0 + repeat((i + 1) as nat, x));
        i = i + 1;
    }
}

/// Lays out the per-triangle material table of the prototypes, in order:
/// each prototype's triangles take their own materials, or, without subsets
/// but with a display colour, a flat material of their own, or else none.
/// `material_count` is the number of scene materials; `max_buffer_bytes` is
/// the largest storage buffer the GPU binds.
pub fn layout_triangle_materials(
    protos: &Vec<ProtoTriangles>,
    material_count: u32,
    max_buffer_bytes: usize,
) -> (r: TriangleMaterialLayout)
    requires
        material_count + 1 + protos@.len() <= u32::MAX,
    ensures
        ({
            let full = layout_upto(protos@, (material_count + 1) as nat, protos@.len() as int);
            &&& r.offsets@ == full.1
            &&& r.display_color_protos@ == full.2
            &&& r.has_triangle_materials == has_own_material(full.0)
            &&& r.table@ == uploaded_table(full.0, max_buffer_bytes as nat)
        }),
{
    let first_flat: u32 = material_count + 1;
    let mut table: Vec<u32> = Vec::new();
    let mut offsets: Vec<u32> = Vec::new();
    let mut flat_protos: Vec<usize> = Vec::new();
    let mut k: usize = 0;
    while k < protos.len()
        invariant
            k <= protos@.len(),
            first_flat == material_count + 1,
            material_count + 1 + protos@.len() <= u32::MAX,
            layout_upto(protos@, first_flat as nat, k as int) == (table@, offsets@, flat_protos@),
            flat_protos@.len() <= k,
        decreases protos@.len() - k,
    {
        let p = &protos[k];
        let offset = table.len() as u32;
        offsets.push(offset);
        match &p.triangle_materials {
            Some(v) => {
                let mut j: usize = 0;
                let ghost t0 = table@;
                while j < v.len()
                    invariant
                        j <= v@.len(),
                        table@ == t0 + v@.take(j as int),
                    decreases v@.len() - j,
                {
                    table.push(v[j]);
                    assert(v@.take(j + 1) =~= v@.take(j as int).push(v@[j as int]));
                    assert(table@ =~= t0 + v@.take(j + 1));
                    j = j + 1;
                }
                assert(v@.take(v@.len() as int) =~= v@);
            },
            None => {
                if p.has_display_color {
                    let flat = first_flat + flat_protos.len() as u32;
                    push_repeat(&mut table, p.triangle_count, flat);
                    flat_protos.push(k);
                } else {
                    push_repeat(&mut table, p.triangle_count, NO_TRIANGLE_MATERIAL);
                }
            },
        }
        k = k + 1;
    }
    let mut has = false;
    let mut i: usize = 0;
    while i < table.len()
        invariant
            i <= table@.len(),
            has == exists|j: int| 0 <= j < i && table@[j] != NO_TRIANGLE_MATERIAL,
        decreases table@.len() - i,
    {
        if table[i] != NO_TRIANGLE_MATERIAL {
            has = true;
        }
        i = i + 1;
    }
    let ghost full = table@;
    if table.len() == 0 {
        table.push(NO_TRIANGLE_MATERIAL);
    }
    let cap = max_buffer_bytes / 4;
    if table.len() > cap {
        table.truncate(cap);
    }
    proof {
        let padded = if full.len() == 0 {
            seq![NO_TRIANGLE_MATERIAL]
        } else {
            full
        };
        assert(padded.len() * 4 > max_buffer_bytes <==> padded.len() > cap);
    }
    TriangleMaterialLayout {
        offsets,
        table,
        display_color_protos: flat_protos,
        has_triangle_materials: has,
    }
}

/// Number of transform nodes among the first `k` nodes of the graph, other
/// than `x`, that node `x` takes input from, directly or not.
pub open spec fn upstream_xforms(g: SceneGraph, x: GraphNodeId, k: int) -> nat
    decreases k,
{
    if k <= 0 {
        0
    } else {
        let n = g.nodes@[k - 1];
        upstream_xforms(g, x, k - 1) + if n.id != x && n.node is Xform && g.reaches(true, x, n.id) {
            1nat
        } else {
            0nat
        }
    }
}

/// The depth of transform node `x`: how many other transform nodes it takes
/// input from, directly or not.
pub open spec fn xform_depth(g: SceneGraph, x: GraphNodeId) -> nat {
    upstream_xforms(g, x, g.nodes@.len() as int)
}

/// The active transform nodes among the first `k` nodes, in node order, each
/// with its depth.
pub open spec fn active_xforms(g: SceneGraph, active: Option<Seq<GraphNodeId>>, k: int) -> Seq<
    (GraphNodeId, nat),
>
    decreases k,
{
    if k <= 0 {
        seq![]
    } else {
        let n = g.nodes@[k - 1];
        if n.node is Xform && node_active(active, n.id) {
            active_xforms(g, active, k - 1).push((n.id, xform_depth(g, n.id)))
        } else {
            active_xforms(g, active, k - 1)
        }
    }
}

/// The entries of depth `d`, in order.
pub open spec fn with_depth(s: Seq<(GraphNodeId, nat)>, d: nat) -> Seq<(GraphNodeId, nat)>
    decreases s.len(),
{
    if s.len() == 0 {
        seq![]
    } else if s.last().1 == d {
        with_depth(s.drop_last(), d).push(s.last())
    } else {
        with_depth(s.drop_last(), d)
    }
}

/// The entries of depth at most `d`: those of depth 0 first, then depth 1,
/// and so on, entries of one depth in their order in `s`.
pub open spec fn by_depth(s: Seq<(GraphNodeId, nat)>, d: nat) -> Seq<(GraphNodeId, nat)>
    decreases d,
{
    if d == 0 {
        with_depth(s, 0)
    } else {
        by_depth(s, (d - 1) as nat) + with_depth(s, d)
    }
}

/// The prototypes made by those of `protos`' nodes that `src` takes input
/// from (`src` among them).
pub open spec fn upstream_protos(g: SceneGraph, src: GraphNodeId, protos: Seq<(GraphNodeId, Vec<usize>)>) -> Set<
    usize,
>
    decreases protos.len(),
{
    if protos.len() == 0 {
        Set::empty()
    } else {
        upstream_protos(g, src, protos.drop_last()).union(
            if g.reaches(true, src, protos.last().0) {
                protos.last().1@.to_set()
            } else {
                Set::empty()
            },
        )
    }
}

/// The positions, in order, of the instances whose prototype is in `ps`.
pub open spec fn instances_of(proto_ids: Seq<usize>, ps: Set<usize>) -> Seq<usize>
    decreases proto_ids.len(),
{
    if proto_ids.len() == 0 {
        seq![]
    } else if ps.contains(proto_ids.last()) {
        instances_of(proto_ids.drop_last(), ps).push((proto_ids.len() - 1) as usize)
    } else {
        instances_of(proto_ids.drop_last(), ps)
    }
}

/// The instances transform node `x` applies to: those whose prototype was
/// made upstream of the node feeding its scene input. None when that input
/// is not connected or nothing upstream made a prototype.
pub open spec fn xform_targets(
    g: SceneGraph,
    protos: Seq<(GraphNodeId, Vec<usize>)>,
    proto_ids: Seq<usize>,
    x: GraphNodeId,
) -> Option<Seq<usize>> {
    match first_source(g.wires@, x, 0) {
        None => None,
        Some(src) => {
            let ps = upstream_protos(g, src, protos);
            if ps == Set::<usize>::empty() {
                None
            } else {
                Some(instances_of(proto_ids, ps))
            }
        },
    }
}

/// The steps for the transform nodes of `order`, in that order, leaving out
/// those that apply to nothing.
pub open spec fn plan_of(
    g: SceneGraph,
    protos: Seq<(GraphNodeId, Vec<usize>)>,
    proto_ids: Seq<usize>,
    order: Seq<(GraphNodeId, nat)>,
) -> Seq<(GraphNodeId, Seq<usize>)>
    decreases order.len(),
{
    if order.len() == 0 {
        seq![]
    } else {
        let prev = plan_of(g, protos, proto_ids, order.drop_last());
        match xform_targets(g, protos, proto_ids, order.last().0) {
            Some(t) => prev.push((order.last().0, t)),
            None => prev,
        }
    }
}

/// A transform node and the positions of the instances it applies to.
pub struct XformStep {
    pub node: GraphNodeId,
    pub instances: Vec<usize>,
}

/// The views of a list of steps.
pub open spec fn step_views(v: Seq<XformStep>) -> Seq<(GraphNodeId, Seq<usize>)> {
    v.map_values(|st: XformStep| (st.node, st.instances@))
}

proof fn lemma_first_source_wire(ws: Seq<Wire>, to: GraphNodeId, input: int)
    ensures
        first_source(ws, to, input) matches Some(f) ==> exists|k: int| 0 <= k < ws.len() && #[trigger] ws[k].from == f,
    decreases ws.len(),
{
    if ws.len() > 0 && !(ws[0].to == to && ws[0].input == input) {
        lemma_first_source_wire(ws.drop_first(), to, input);
        if first_source(ws, to, input) is Some {
            let f = first_source(ws, to, input)->0;
            let k = choose|k: int| 0 <= k < ws.drop_first().len() && #[trigger] ws.drop_first()[k].from == f;
            assert(ws[k + 1].from == f);
        }
    } else if ws.len() > 0 {
        assert(ws[0].from == first_source(ws, to, input)->0);
    }
}

fn contains_node(v: &Vec<GraphNodeId>, x: GraphNodeId) -> (b: bool)
    ensures
        b == v@.contains(x),
{
    let mut i: usize = 0;
    while i < v.len()
        invariant
            i <= v@.len(),
            forall|j: int| 0 <= j < i ==> v@[j] != x,
        decreases v@.len() - i,
    {
        if v[i] == x {
            assert(v@[i as int] == x);
            return true;
        }
        i = i + 1;
    }
    false
}

fn xform_depth_of(graph: &SceneGraph, x: GraphNodeId) -> (d: usize)
    requires
        graph.wf(),
        graph.has_node(x),
    ensures
        d == xform_depth(*graph, x),
        d <= graph.nodes@.len(),
{
    let up = graph.collect_upstream_nodes(x);
    let mut d: usize = 0;
    let mut k: usize = 0;
    while k < graph.nodes.len()
        invariant
            k <= graph.nodes@.len(),
            forall|y: GraphNodeId| up@.contains(y) <==> graph.reaches(true, x, y),
            d == upstream_xforms(*graph, x, k as int),
            d <= k,
        decreases graph.nodes@.len() - k,
    {
        let n = &graph.nodes[k];
        let is_x = match n.node {
            SceneNode::Xform { .. } => true,
            _ => false,
        };
        if n.id != x && is_x && contains_node(&up, n.id) {
            d = d + 1;
        }
        k = k + 1;
    }
    d
}

fn protos_upstream_of(graph: &SceneGraph, src: GraphNodeId, protos: &Vec<(GraphNodeId, Vec<usize>)>) -> (r: Vec<
    usize,
>)
    requires
        graph.wf(),
        graph.has_node(src),
    ensures
        r@.no_duplicates(),
        r@.to_set() == upstream_protos(*graph, src, protos@),
{
    let up = graph.collect_upstream_nodes(src);
    let ghost ps = protos@;
    let mut r: Vec<usize> = Vec::new();
    let mut i: usize = 0;
    assert(ps.take(0) =~= seq![]);
    assert(r@.to_set() =~= Set::empty());
    while i < protos.len()
        invariant
            i <= ps.len(),
            ps == protos@,
            forall|y: GraphNodeId| up@.contains(y) <==> graph.reaches(true, src, y),
            r@.no_duplicates(),
            r@.to_set() == upstream_protos(*graph, src, ps.take(i as int)),
        decreases ps.len() - i,
    {
        assert(ps.take(i + 1).drop_last() =~= ps.take(i as int));
        assert(ps.take(i + 1).last() == ps[i as int]);
        if contains_node(&up, protos[i].0) {
            push_all_unique(&mut r, &protos[i].1);
        } else {
            assert(r@.to_set().union(Set::empty()) =~= r@.to_set());
        }
        i = i + 1;
    }
    assert(ps.take(ps.len() as int) =~= ps);
    r
}

fn contains_id(v: &Vec<usize>, x: usize) -> (b: bool)
    ensures
        b == v@.contains(x),
{
    let mut i: usize = 0;
    while i < v.len()
        invariant
            i <= v@.len(),
            forall|j: int| 0 <= j < i ==> v@[j] != x,
        decreases v@.len() - i,
    {
        if v[i] == x {
            assert(v@[i as int] == x);
            return true;
        }
        i = i + 1;
    }
    false
}

fn append_with_depth(order: &mut Vec<(GraphNodeId, usize)>, entries: &Vec<(GraphNodeId, usize)>, d: usize)
    ensures
        final(order)@.map_values(|e: (GraphNodeId, usize)| (e.0, e.1 as nat)) == old(order)@.map_values(
            |e: (GraphNodeId, usize)| (e.0, e.1 as nat),
        ) + with_depth(entries@.map_values(|e: (GraphNodeId, usize)| (e.0, e.1 as nat)), d as nat),
{
    let ghost ev = entries@.map_values(|e: (GraphNodeId, usize)| (e.0, e.1 as nat));
    let ghost base = order@.map_values(|e: (GraphNodeId, usize)| (e.0, e.1 as nat));
    let mut j: usize = 0;
    assert(ev.take(0) =~= seq![]);
    assert(base + seq![] =~= base);
    while j < entries.len()
        invariant
            j <= entries@.len(),
            ev == entries@.map_values(|e: (GraphNodeId, usize)| (e.0, e.1 as nat)),
            base == old(order)@.map_values(|e: (GraphNodeId, usize)| (e.0, e.1 as nat)),
            order@.map_values(|e: (GraphNodeId, usize)| (e.0, e.1 as nat)) == base + with_depth(
                ev.take(j as int),
                d as nat,
            ),
        decreases entries@.len() - j,
    {
        assert(ev.take(j + 1).drop_last() =~= ev.take(j as int));
        assert(ev.take(j + 1).last() == ev[j as int]);
        if entries[j].1 == d {
            let ghost before = order@;
            order.push(entries[j]);
            assert(order@.map_values(|e: (GraphNodeId, usize)| (e.0, e.1 as nat)) =~= before.map_values(
                |e: (GraphNodeId, usize)| (e.0, e.1 as nat),
            ).push(ev[j as int]));
        }
        j = j + 1;
    }
    assert(ev.take(entries@.len() as int) =~= ev);
}

/// In which order the active transform nodes apply, and to which instances:
/// upstream transforms before the ones that take input from them (by depth,
/// ties in node order), each applying to the instances whose prototype was
/// made upstream of the node feeding its scene input. `proto_ids` holds the
/// prototype of each instance. A transform with its input unconnected, or
/// with no prototype made upstream, is left out; so is, by the caller, one
/// whose matrix is the identity.
pub fn xform_plan(
    graph: &SceneGraph,
    active: &Option<Vec<GraphNodeId>>,
    protos: &Vec<(GraphNodeId, Vec<usize>)>,
    proto_ids: &Vec<usize>,
) -> (steps: Vec<XformStep>)
    requires
        graph.wf(),
    ensures
        step_views(steps@) == plan_of(
            *graph,
            protos@,
            proto_ids@,
            by_depth(
                active_xforms(*graph, active_view(*active), graph.nodes@.len() as int),
                graph.nodes@.len() as nat,
            ),
        ),
{
    let n = graph.nodes.len();
    let ghost act = active_view(*active);
    // The active transform nodes in node order, with their depths.
    let mut entries: Vec<(GraphNodeId, usize)> = Vec::new();
    let mut k: usize = 0;
    while k < n
        invariant
            k <= n,
            n == graph.nodes@.len(),
            graph.wf(),
            act == active_view(*active),
            entries@.map_values(|e: (GraphNodeId, usize)| (e.0, e.1 as nat)) == active_xforms(
                *graph,
                act,
                k as int,
            ),
        decreases n - k,
    {
        let id = graph.nodes[k].id;
        let is_x = match graph.nodes[k].node {
            SceneNode::Xform { .. } => true,
            _ => false,
        };
        if is_x && is_active(active, id) {
            assert(graph.has_node(id)) by {
                assert(graph.nodes@[k as int].id == id);
            }
            let d = xform_depth_of(graph, id);
            let ghost before = entries@;
            entries.push((id, d));
            assert(entries@.map_values(|e: (GraphNodeId, usize)| (e.0, e.1 as nat)) =~= before.map_values(
                |e: (GraphNodeId, usize)| (e.0, e.1 as nat),
            ).push((id, d as nat)));
        }
        k = k + 1;
    }
    let ghost ev = entries@.map_values(|e: (GraphNodeId, usize)| (e.0, e.1 as nat));
    // Ordered by depth, ties in node order.
    let mut order: Vec<(GraphNodeId, usize)> = Vec::new();
    append_with_depth(&mut order, &entries, 0);
    assert(order@.map_values(|e: (GraphNodeId, usize)| (e.0, e.1 as nat)) =~= by_depth(ev, 0));
    let mut d: usize = 0;
    while d < n
        invariant
            d <= n,
            ev == entries@.map_values(|e: (GraphNodeId, usize)| (e.0, e.1 as nat)),
            order@.map_values(|e: (GraphNodeId, usize)| (e.0, e.1 as nat)) == by_depth(ev, d as nat),
        decreases n - d,
    {
        append_with_depth(&mut order, &entries, d + 1);
        d = d + 1;
    }
    let ghost ov = order@.map_values(|e: (GraphNodeId, usize)| (e.0, e.1 as nat));
    assert(ov == by_depth(ev, n as nat));
    // The instances each one applies to.
    let mut steps: Vec<XformStep> = Vec::new();
    let mut i: usize = 0;
    assert(ov.take(0) =~= seq![]);
    while i < order.len()
        invariant
            i <= order@.len(),
            graph.wf(),
            ov == order@.map_values(|e: (GraphNodeId, usize)| (e.0, e.1 as nat)),
            step_views(steps@) == plan_of(*graph, protos@, proto_ids@, ov.take(i as int)),
        decreases order@.len() - i,
    {
        assert(ov.take(i + 1).drop_last() =~= ov.take(i as int));
        assert(ov.take(i + 1).last() == ov[i as int]);
        let x = order[i].0;
        proof {
            lemma_first_source_wire(graph.wires@, x, 0);
        }
        match graph.input_source(x, 0) {
            None => {},
            Some(src) => {
                proof {
                    let k = choose|k: int| 0 <= k < graph.wires@.len() && #[trigger] graph.wires@[k].from == src;
                    assert(graph.has_node(graph.wires@[k].from));
                }
                let ps = protos_upstream_of(graph, src, protos);
                if ps.len() == 0 {
                    assert(ps@.to_set() =~= Set::<usize>::empty());
                } else {
                    assert(ps@.to_set().contains(ps@[0]));
                    let mut inst: Vec<usize> = Vec::new();
                    let mut m: usize = 0;
                    assert(proto_ids@.take(0) =~= seq![]);
                    while m < proto_ids.len()
                        invariant
                            m <= proto_ids@.len(),
                            inst@ == instances_of(proto_ids@.take(m as int), ps@.to_set()),
                        decreases proto_ids@.len() - m,
                    {
                        assert(proto_ids@.take(m + 1).drop_last() =~= proto_ids@.take(m as int));
                        assert(proto_ids@.take(m + 1).last() == proto_ids@[m as int]);
                        if contains_id(&ps, proto_ids[m]) {
                            inst.push(m);
                        }
                        m = m + 1;
                    }
                    assert(proto_ids@.take(proto_ids@.len() as int) =~= proto_ids@);
                    let ghost before = steps@;
                    steps.push(XformStep { node: x, instances: inst });
                    assert(step_views(steps@) =~= step_views(before).push((x, inst@)));
                }
            },
        }
        i = i + 1;
    }
    assert(ov.take(order@.len() as int) =~= ov);
    steps
}

/// Taking input from a node that takes input from a third takes input from the third.
pub proof fn lemma_reaches_transitive(g: SceneGraph, up: bool, a: GraphNodeId, b: GraphNodeId, c: GraphNodeId)
    requires
        g.reaches(up, a, b),
        g.reaches(up, b, c),
    ensures
        g.reaches(up, a, c),
{
    let p = choose|p: Seq<GraphNodeId>| #[trigger] g.is_walk(up, p) && p[0] == a && p.last() == b;
    let q = choose|q: Seq<GraphNodeId>| #[trigger] g.is_walk(up, q) && q[0] == b && q.last() == c;
    let r = p + q.subrange(1, q.len() as int);
    assert forall|i: int| 0 <= i < r.len() - 1 implies g.linked(up, #[trigger] r[i], r[i + 1]) by {
        if i < p.len() - 1 {
            assert(r[i] == p[i] && r[i + 1] == p[i + 1]);
        } else if i == p.len() - 1 {
            assert(r[i] == q[0] && r[i + 1] == q[1]);
        } else {
            let j = i - p.len() + 1;
            assert(r[i] == q[j] && r[i + 1] == q[j + 1]);
        }
    }
    assert(g.is_walk(up, r));
    if q.len() == 1 {
        assert(r.last() == p.last());
    } else {
        assert(r.last() == q.last());
    }
}

proof fn lemma_upstream_xforms_grow(g: SceneGraph, a: GraphNodeId, b: GraphNodeId, k: int)
    requires
        g.wf(),
        0 <= k <= g.nodes@.len(),
        a != b,
        g.reaches(true, b, a),
        !g.reaches(true, a, b),
    ensures
        upstream_xforms(g, a, k) + (if exists|i: int|
            0 <= i < k && #[trigger] g.nodes@[i].id == a && g.nodes@[i].node is Xform {
            1int
        } else {
            0int
        }) <= upstream_xforms(g, b, k),
    decreases k,
{
    if k > 0 {
        lemma_upstream_xforms_grow(g, a, b, k - 1);
        let n = g.nodes@[k - 1];
        if n.id != a && n.node is Xform && g.reaches(true, a, n.id) {
            lemma_reaches_transitive(g, true, b, a, n.id);
        }
        if exists|i: int| 0 <= i < k && #[trigger] g.nodes@[i].id == a && g.nodes@[i].node is Xform {
            let i = choose|i: int| 0 <= i < k && #[trigger] g.nodes@[i].id == a && g.nodes@[i].node is Xform;
            if i < k - 1 {
                assert(exists|i: int|
                    0 <= i < k - 1 && #[trigger] g.nodes@[i].id == a && g.nodes@[i].node is Xform);
                assert(n.id != a);
            } else {
                assert(!exists|i: int|
                    0 <= i < k - 1 && #[trigger] g.nodes@[i].id == a && g.nodes@[i].node is Xform);
            }
        }
    }
}

/// A transform node that another transform node takes input from, without
/// taking input from it in turn, is shallower, so it applies first.
pub proof fn lemma_upstream_xform_shallower(g: SceneGraph, a: GraphNodeId, b: GraphNodeId)
    requires
        g.wf(),
        g.has_node(a),
        g.node_at(a) is Xform,
        a != b,
        g.reaches(true, b, a),
        !g.reaches(true, a, b),
    ensures
        xform_depth(g, a) < xform_depth(g, b),
{
    let i = g.index_of(a);
    assert(g.nodes@[i].id == a && g.nodes@[i].node is Xform);
    lemma_upstream_xforms_grow(g, a, b, g.nodes@.len() as int);
}

proof fn lemma_with_depth_members(s: Seq<(GraphNodeId, nat)>, d: nat)
    ensures
        forall|k: int| 0 <= k < with_depth(s, d).len() ==> (#[trigger] with_depth(s, d)[k]).1 == d,
        forall|e: (GraphNodeId, nat)| s.contains(e) && e.1 == d ==> with_depth(s, d).contains(e),
    decreases s.len(),
{
    if s.len() > 0 {
        lemma_with_depth_members(s.drop_last(), d);
        let w = with_depth(s.drop_last(), d);
        assert forall|e: (GraphNodeId, nat)| s.contains(e) && e.1 == d implies with_depth(
            s,
            d,
        ).contains(e) by {
            let k = choose|k: int| 0 <= k < s.len() && s[k] == e;
            if k < s.len() - 1 {
                assert(s.drop_last()[k] == e);
                assert(s.drop_last().contains(e));
                assert(w.contains(e));
                let m = choose|m: int| 0 <= m < w.len() && w[m] == e;
                if s.last().1 == d {
                    assert(with_depth(s, d) == w.push(s.last()));
                    assert(with_depth(s, d)[m] == e);
                } else {
                    assert(with_depth(s, d) == w);
                }
            } else {
                assert(with_depth(s, d)[w.len() as int] == e);
            }
        }
    }
}

proof fn lemma_by_depth_prefix(s: Seq<(GraphNodeId, nat)>, d: nat, e: nat)
    requires
        d <= e,
    ensures
        by_depth(s, d).len() <= by_depth(s, e).len(),
        forall|k: int| 0 <= k < by_depth(s, d).len() ==> #[trigger] by_depth(s, e)[k] == by_depth(s, d)[k],
    decreases e,
{
    if d < e {
        lemma_by_depth_prefix(s, d, (e - 1) as nat);
    }
}

/// Entries of smaller depth come before entries of larger depth.
proof fn lemma_by_depth_order(s: Seq<(GraphNodeId, nat)>, x: (GraphNodeId, nat), y: (GraphNodeId, nat), bound: nat)
    requires
        s.contains(x),
        s.contains(y),
        x.1 < y.1 <= bound,
    ensures
        exists|i: int, j: int|
            0 <= i < j < by_depth(s, bound).len() && by_depth(s, bound)[i] == x && by_depth(s, bound)[j] == y,
{
    lemma_with_depth_members(s, x.1);
    lemma_with_depth_members(s, y.1);
    let wx = with_depth(s, x.1);
    let wy = with_depth(s, y.1);
    let i0 = choose|m: int| 0 <= m < wx.len() && wx[m] == x;
    let j0 = choose|m: int| 0 <= m < wy.len() && wy[m] == y;
    let before_x = if x.1 == 0 {
        seq![]
    } else {
        by_depth(s, (x.1 - 1) as nat)
    };
    assert(by_depth(s, x.1) == before_x + wx);
    let i = before_x.len() + i0;
    assert(by_depth(s, x.1)[i] == x);
    let py = by_depth(s, (y.1 - 1) as nat);
    assert(by_depth(s, y.1) == py + wy);
    let j = py.len() + j0;
    assert(by_depth(s, y.1)[j] == y);
    lemma_by_depth_prefix(s, x.1, (y.1 - 1) as nat);
    assert(i < py.len());
    assert(by_depth(s, y.1)[i] == x);
    lemma_by_depth_prefix(s, y.1, bound);
    assert(by_depth(s, bound)[i] == x && by_depth(s, bound)[j] == y);
}

proof fn lemma_upstream_xforms_bounded(g: SceneGraph, x: GraphNodeId, k: int)
    requires
        0 <= k,
    ensures
        upstream_xforms(g, x, k) <= k,
    decreases k,
{
    if k > 0 {
        lemma_upstream_xforms_bounded(g, x, k - 1);
    }
}

proof fn lemma_active_xforms_members(g: SceneGraph, active: Option<Seq<GraphNodeId>>, k: int)
    requires
        0 <= k <= g.nodes@.len(),
    ensures
        forall|i: int|
            0 <= i < k && g.nodes@[i].node is Xform && node_active(active, #[trigger] g.nodes@[i].id)
                ==> active_xforms(g, active, k).contains((g.nodes@[i].id, xform_depth(g, g.nodes@[i].id))),
    decreases k,
{
    if k > 0 {
        lemma_active_xforms_members(g, active, k - 1);
        let prev = active_xforms(g, active, k - 1);
        assert forall|i: int|
            0 <= i < k && g.nodes@[i].node is Xform && node_active(active, #[trigger] g.nodes@[i].id)
                implies active_xforms(g, active, k).contains((g.nodes@[i].id, xform_depth(g, g.nodes@[i].id))) by {
            let e = (g.nodes@[i].id, xform_depth(g, g.nodes@[i].id));
            if i < k - 1 {
                let m = choose|m: int| 0 <= m < prev.len() && prev[m] == e;
                assert(active_xforms(g, active, k)[m] == e);
            } else {
                assert(active_xforms(g, active, k)[prev.len() as int] == e);
            }
        }
    }
}

/// Of two active transform nodes, the one that the other takes input from
/// (without taking input from it in turn) applies first.
pub proof fn lemma_upstream_xform_applies_first(
    g: SceneGraph,
    active: Option<Seq<GraphNodeId>>,
    a: GraphNodeId,
    b: GraphNodeId,
)
    requires
        g.wf(),
        g.has_node(a),
        g.has_node(b),
        g.node_at(a) is Xform,
        g.node_at(b) is Xform,
        node_active(active, a),
        node_active(active, b),
        a != b,
        g.reaches(true, b, a),
        !g.reaches(true, a, b),
    ensures
        ({
            let order = by_depth(
                active_xforms(g, active, g.nodes@.len() as int),
                g.nodes@.len() as nat,
            );
            exists|i: int, j: int|
                0 <= i < j < order.len() && order[i].0 == a && order[j].0 == b
        }),
{
    let n = g.nodes@.len() as int;
    let s = active_xforms(g, active, n);
    lemma_upstream_xform_shallower(g, a, b);
    lemma_active_xforms_members(g, active, n);
    let ia = g.index_of(a);
    let ib = g.index_of(b);
    assert(g.nodes@[ia].id == a && g.nodes@[ib].id == b);
    let x = (a, xform_depth(g, a));
    let y = (b, xform_depth(g, b));
    assert(s.contains(x));
    assert(s.contains(y));
    lemma_upstream_xforms_bounded(g, b, n);
    lemma_by_depth_order(s, x, y, n as nat);
    let order = by_depth(s, n as nat);
    let (i, j) = choose|i: int, j: int| 0 <= i < j < order.len() && order[i] == x && order[j] == y;
    assert(order[i].0 == a && order[j].0 == b);
}

proof fn lemma_inactive_ids_all_active(protos: Seq<(GraphNodeId, Vec<usize>)>)
    ensures
        inactive_ids(None, protos) == Set::<usize>::empty(),
    decreases protos.len(),
{
    if protos.len() > 0 {
        lemma_inactive_ids_all_active(protos.drop_last());
        assert(Set::<usize>::empty().union(Set::<usize>::empty()) =~= Set::<usize>::empty());
    }
}

/// Without a display node no prototype is hidden for belonging to an
/// inactive node: only those consumed by instancers and scatter surfaces are.
pub proof fn lemma_no_display_hides_only_consumed(
    instancer_results: Seq<(GraphNodeId, Vec<usize>)>,
    scatter_surfaces: Seq<(GraphNodeId, usize)>,
    node_proto_map: Seq<(GraphNodeId, Vec<usize>)>,
)
    ensures
        hidden_ids(None, instancer_results, scatter_surfaces, node_proto_map) == instanced_ids(
            None,
            instancer_results,
        ).union(surface_ids(None, scatter_surfaces)),
{
    lemma_inactive_ids_all_active(node_proto_map);
    let a = instanced_ids(None, instancer_results).union(surface_ids(None, scatter_surfaces));
    assert(a.union(Set::<usize>::empty()) =~= a);
}

} // verus!
