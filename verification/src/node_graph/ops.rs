//! The wired graph of scene nodes, and the graph walks over it: dirty
//! propagation downstream and collection of the upstream subgraph.

use vstd::prelude::*;

use super::eval::{
    lemma_auto_never_dirty, lemma_evaluate_settles, lemma_non_auto_only_invalidates, spec_evaluate, spec_mark_dirty, EvalCtx,
    EvalEvent,
};
use super::EvalMode;
use super::{
    spec_input_count, spec_input_pin, spec_output_count, spec_output_pin, GraphNodeId, PinType, SceneNode,
};

verus! {

/// A node together with its identifier.
pub struct GraphNode {
    pub id: GraphNodeId,
    pub node: SceneNode,
}

/// A connection from output pin `output` of node `from` to input pin
/// `input` of node `to`.
#[derive(Clone, Copy, Debug, PartialEq, Eq, Structural)]
pub struct Wire {
    pub from: GraphNodeId,
    pub output: usize,
    pub to: GraphNodeId,
    pub input: usize,
}

/// Nodes and the wires between their pins.
pub struct SceneGraph {
    pub nodes: Vec<GraphNode>,
    pub wires: Vec<Wire>,
}

impl SceneGraph {
    /// Whether a node with identifier `id` is in the graph.
    pub open spec fn has_node(&self, id: GraphNodeId) -> bool {
        exists|i: int| 0 <= i < self.nodes@.len() && self.nodes@[i].id == id
    }

    /// Position of the node with identifier `id`.
    pub open spec fn index_of(&self, id: GraphNodeId) -> int {
        choose|i: int| 0 <= i < self.nodes@.len() && self.nodes@[i].id == id
    }

    /// The node with identifier `id`.
    pub open spec fn node_at(&self, id: GraphNodeId) -> SceneNode {
        self.nodes@[self.index_of(id)].node
    }

    /// Identifiers are unique and every wire joins two nodes of the graph.
    pub open spec fn wf(&self) -> bool {
        &&& forall|i: int, j: int|
            0 <= i < self.nodes@.len() && 0 <= j < self.nodes@.len() && i != j
                ==> self.nodes@[i].id != self.nodes@[j].id
        &&& forall|k: int|
            0 <= k < self.wires@.len() ==> self.has_node(#[trigger] self.wires@[k].from)
                && self.has_node(self.wires@[k].to)
    }

    /// One step of a walk: downstream (`upstream == false`) from `a` along a
    /// wire leaving one of its output pins to `b`, or upstream from `a` along
    /// a wire entering one of its input pins from `b`.
    pub open spec fn linked(&self, upstream: bool, a: GraphNodeId, b: GraphNodeId) -> bool {
        exists|k: int|
            0 <= k < self.wires@.len() && #[trigger] self.wire_links(upstream, self.wires@[k], a, b)
    }

    /// Whether wire `w` is a step from `a` to `b` in the given direction.
    pub open spec fn wire_links(
        &self,
        upstream: bool,
        w: Wire,
        a: GraphNodeId,
        b: GraphNodeId,
    ) -> bool {
        if upstream {
            w.to == a && w.from == b && w.input < spec_input_count(self.node_at(a))
        } else {
            w.from == a && w.to == b && w.output < spec_output_count(self.node_at(a))
        }
    }

    /// `p` is a walk: consecutive entries are linked in the given direction.
    pub open spec fn is_walk(&self, upstream: bool, p: Seq<GraphNodeId>) -> bool {
        &&& p.len() >= 1
        &&& forall|i: int| 0 <= i < p.len() - 1 ==> self.linked(upstream, #[trigger] p[i], p[i + 1])
    }

    /// `b` can be reached from `a` in the given direction (in zero or more steps).
    pub open spec fn reaches(&self, upstream: bool, a: GraphNodeId, b: GraphNodeId) -> bool {
        exists|p: Seq<GraphNodeId>| #[trigger] self.is_walk(upstream, p) && p[0] == a && p.last() == b
    }

    /// Position of the node with identifier `id`, if present.
    pub fn find_node(&self, id: GraphNodeId) -> (r: Option<usize>)
        requires
            self.wf(),
        ensures
            match r {
                Some(i) => i < self.nodes@.len() && self.nodes@[i as int].id == id
                    && self.index_of(id) == i,
                None => !self.has_node(id),
            },
    {
        let mut i: usize = 0;
        while i < self.nodes.len()
            invariant
                self.wf(),
                i <= self.nodes@.len(),
                forall|j: int| 0 <= j < i ==> self.nodes@[j].id != id,
            decreases self.nodes@.len() - i,
        {
            if self.nodes[i].id == id {
                proof {
                    self.lemma_index_of(id, i as int);
                }
                return Some(i);
            }
            i = i + 1;
        }
        None
    }

    /// In a well-formed graph the only position holding `id` is `index_of(id)`.
    pub proof fn lemma_index_of(&self, id: GraphNodeId, i: int)
        requires
            self.wf(),
            0 <= i < self.nodes@.len(),
            self.nodes@[i].id == id,
        ensures
            self.index_of(id) == i,
    {
        let j = self.index_of(id);
        assert(0 <= j < self.nodes@.len() && self.nodes@[j].id == id);
    }

    /// A duplicate-free list of node identifiers is no longer than the graph.
    proof fn lemma_ids_bounded(&self, s: Seq<GraphNodeId>)
        requires
            self.wf(),
            s.no_duplicates(),
            forall|x: GraphNodeId| s.contains(x) ==> self.has_node(x),
        ensures
            s.len() <= self.nodes@.len(),
    {
        let ids = self.nodes@.map_values(|n: GraphNode| n.id);
        s.unique_seq_to_set();
        ids.lemma_cardinality_of_set();
        assert forall|x: GraphNodeId| s.to_set().contains(x) implies ids.to_set().contains(x) by {
            assert(s.contains(x));
            let i = choose|i: int| 0 <= i < self.nodes@.len() && self.nodes@[i].id == x;
            assert(ids[i] == x);
        }
        vstd::set_lib::lemma_len_subset(s.to_set(), ids.to_set());
    }

    /// Every node on a walk that starts in a set closed under steps is in
    /// the set.
    proof fn lemma_closed_contains_walks(&self, upstream: bool, s: Seq<GraphNodeId>, p: Seq<
        GraphNodeId,
    >)
        requires
            self.is_walk(upstream, p),
            s.contains(p[0]),
            forall|x: GraphNodeId, y: GraphNodeId|
                s.contains(x) && #[trigger] self.linked(upstream, x, y) ==> s.contains(y),
        ensures
            s.contains(p.last()),
        decreases p.len(),
    {
        if p.len() > 1 {
            let q = p.drop_last();
            assert(self.is_walk(upstream, q)) by {
                assert forall|i: int| 0 <= i < q.len() - 1 implies self.linked(
                    upstream,
                    #[trigger] q[i],
                    q[i + 1],
                ) by {
                    assert(q[i] == p[i] && q[i + 1] == p[i + 1]);
                }
            }
            self.lemma_closed_contains_walks(upstream, s, q);
            assert(self.linked(upstream, p[p.len() - 2], p[p.len() - 1]));
        }
    }

    /// A walk to `a` followed by a step from `a` to `b` is a walk to `b`.
    proof fn lemma_reaches_step(&self, upstream: bool, start: GraphNodeId, a: GraphNodeId, b:
        GraphNodeId)
        requires
            self.reaches(upstream, start, a),
            self.linked(upstream, a, b),
        ensures
            self.reaches(upstream, start, b),
    {
        let p = choose|p: Seq<GraphNodeId>|
            #[trigger] self.is_walk(upstream, p) && p[0] == start && p.last() == a;
        let q = p.push(b);
        assert forall|i: int| 0 <= i < q.len() - 1 implies self.linked(
            upstream,
            #[trigger] q[i],
            q[i + 1],
        ) by {
            if i < p.len() - 1 {
                assert(q[i] == p[i] && q[i + 1] == p[i + 1]);
            }
        }
        assert(self.is_walk(upstream, q));
    }

    /// Every node reachable from `start` in the given direction, `start`
    /// first, each once (breadth-first order).
    fn reachable_from(&self, start: GraphNodeId, upstream: bool) -> (r: Vec<GraphNodeId>)
        requires
            self.wf(),
            self.has_node(start),
        ensures
            r@.no_duplicates(),
            r@.len() >= 1 && r@[0] == start,
            forall|x: GraphNodeId| r@.contains(x) <==> self.reaches(upstream, start, x),
    {
        let mut visited: Vec<GraphNodeId> = Vec::new();
        visited.push(start);
        assert(self.is_walk(upstream, seq![start]));
        proof {
            self.lemma_ids_bounded(visited@);
        }
        let mut h: usize = 0;
        while h < visited.len()
            invariant
                self.wf(),
                visited@.no_duplicates(),
                visited@.len() >= 1 && visited@[0] == start,
                visited@.len() <= self.nodes@.len(),
                h <= visited@.len(),
                forall|x: GraphNodeId|
                    #[trigger] visited@.contains(x) ==> self.has_node(x) && self.reaches(upstream, start, x),
                forall|i: int, y: GraphNodeId|
                    0 <= i < h && #[trigger] self.linked(upstream, visited@[i], y)
                        ==> visited@.contains(y),
            decreases self.nodes@.len() - h,
        {
            let current = visited[h];
            assert(visited@.contains(current));
            let idx = match self.find_node(current) {
                Some(i) => i,
                None => {
                    assert(false);
                    0
                },
            };
            let count = if upstream {
                self.nodes[idx].node.input_count()
            } else {
                self.nodes[idx].node.output_count()
            };
            let ghost before = visited@;
            let mut k: usize = 0;
            while k < self.wires.len()
                invariant
                    self.wf(),
                    h < before.len(),
                    current == before[h as int],
                    idx < self.nodes@.len() && self.nodes@[idx as int].id == current,
                    self.index_of(current) == idx,
                    count as nat == (if upstream {
                        spec_input_count(self.node_at(current))
                    } else {
                        spec_output_count(self.node_at(current))
                    }),
                    visited@.no_duplicates(),
                    visited@.len() <= self.nodes@.len(),
                    visited@.len() >= before.len(),
                    visited@.subrange(0, before.len() as int) == before,
                    forall|x: GraphNodeId|
                        #[trigger] visited@.contains(x) ==> self.has_node(x) && self.reaches(
                            upstream,
                            start,
                            x,
                        ),
                    forall|j: int, y: GraphNodeId|
                        0 <= j < k && #[trigger] self.wire_links(
                            upstream,
                            self.wires@[j],
                            current,
                            y,
                        ) ==> visited@.contains(y),
                    k <= self.wires@.len(),
                decreases self.wires@.len() - k,
            {
                let ghost v_old = visited@;
                let w = self.wires[k];
                let hit = if upstream {
                    w.to == current && w.input < count
                } else {
                    w.from == current && w.output < count
                };
                let next = if upstream {
                    w.from
                } else {
                    w.to
                };
                if hit {
                    assert(self.wire_links(upstream, self.wires@[k as int], current, next));
                    if !contains_id(&visited, next) {
                        proof {
                            assert(self.has_node(next));
                            assert(self.linked(upstream, current, next));
                            assert(before.contains(current));
                            assert(visited@[h as int] == current);
                            assert(visited@.contains(current));
                            self.lemma_reaches_step(upstream, start, current, next);
                            assert forall|x: GraphNodeId|
                                v_old.push(next).contains(x) implies self.has_node(x) by {
                                if x != next {
                                    let i = choose|i: int|
                                        0 <= i < v_old.push(next).len() && v_old.push(next)[i]
                                            == x;
                                    assert(v_old[i] == x);
                                    assert(v_old.contains(x));
                                }
                            }
                            self.lemma_ids_bounded(v_old.push(next));
                        }
                        visited.push(next);
                        proof {
                            assert(visited@ == v_old.push(next));
                            assert forall|x: GraphNodeId| visited@.contains(x) implies self.has_node(
                                x,
                            ) && self.reaches(upstream, start, x) by {
                                if x != next {
                                    let i = choose|i: int|
                                        0 <= i < visited@.len() && visited@[i] == x;
                                    assert(v_old[i] == x);
                                    assert(v_old.contains(x));
                                }
                            }
                            assert(visited@.subrange(0, before.len() as int) == v_old.subrange(
                                0,
                                before.len() as int,
                            ));
                        }
                    }
                }
                proof {
                    assert forall|x: GraphNodeId| #[trigger] visited@.contains(x) implies self.has_node(x) && self.reaches(upstream, start, x) by {
                        if visited@ == v_old {
                            assert(v_old.contains(x));
                        }
                    }
                    assert(visited@.len() >= v_old.len());
                    assert(visited@.subrange(0, v_old.len() as int) == v_old);
                    assert forall|j: int, y: GraphNodeId|
                        0 <= j < k + 1 && #[trigger] self.wire_links(
                            upstream,
                            self.wires@[j],
                            current,
                            y,
                        ) implies visited@.contains(y) by {
                        if j == k {
                            assert(hit);
                            assert(y == next);
                            if visited@.len() > v_old.len() {
                                assert(visited@[visited@.len() - 1] == next);
                            }
                        } else {
                            assert(v_old.contains(y));
                            let q = choose|q: int| 0 <= q < v_old.len() && v_old[q] == y;
                            assert(visited@.subrange(0, v_old.len() as int)[q] == y);
                        }
                    }
                }
                k = k + 1;
            }
            proof {
                assert forall|i: int, y: GraphNodeId|
                    0 <= i < h + 1 && #[trigger] self.linked(upstream, visited@[i], y)
                        implies visited@.contains(y) by {
                    assert(visited@[i] == before[i]);
                    if i == h {
                        let j = choose|j: int|
                            0 <= j < self.wires@.len() && #[trigger] self.wire_links(
                                upstream,
                                self.wires@[j],
                                current,
                                y,
                            );
                    } else {
                        assert(self.linked(upstream, before[i], y));
                        assert(before.contains(y));
                        let q = choose|q: int| 0 <= q < before.len() && before[q] == y;
                        assert(visited@[q] == y);
                    }
                }
            }
            h = h + 1;
        }
        proof {
            assert(h == visited@.len());
            assert forall|x: GraphNodeId| self.reaches(upstream, start, x) implies visited@.contains(
                x,
            ) by {
                let p = choose|p: Seq<GraphNodeId>|
                    #[trigger] self.is_walk(upstream, p) && p[0] == start && p.last() == x;
                assert forall|a: GraphNodeId, b: GraphNodeId|
                    visited@.contains(a) && #[trigger] self.linked(upstream, a, b)
                        implies visited@.contains(b) by {
                    let i = choose|i: int| 0 <= i < visited@.len() && visited@[i] == a;
                    assert(self.linked(upstream, visited@[i], b));
                }
                assert(visited@.contains(start));
                self.lemma_closed_contains_walks(upstream, visited@, p);
            }
            assert forall|x: GraphNodeId| visited@.contains(x) implies self.reaches(
                upstream,
                start,
                x,
            ) by {}
        }
        visited
    }

    /// The node `start` and every node it (transitively) takes input from.
    pub fn collect_upstream_nodes(&self, start: GraphNodeId) -> (r: Vec<GraphNodeId>)
        requires
            self.wf(),
            self.has_node(start),
        ensures
            r@.no_duplicates(),
            forall|x: GraphNodeId| r@.contains(x) <==> self.reaches(true, start, x),
    {
        self.reachable_from(start, true)
    }

    /// Marks every node downstream of `start` dirty; `start` itself is left
    /// as it is, and so is every node not downstream of it.
    pub fn propagate_dirty(&mut self, start: GraphNodeId)
        requires
            old(self).wf(),
            old(self).has_node(start),
        ensures
            final(self).wires@ == old(self).wires@,
            final(self).nodes@.len() == old(self).nodes@.len(),
            forall|i: int|
                0 <= i < old(self).nodes@.len() ==> (#[trigger] final(self).nodes@[i]).id == old(
                    self,
                ).nodes@[i].id && final(self).nodes@[i].node == (if old(self).nodes@[i].id
                    != start && old(self).reaches(false, start, old(self).nodes@[i].id) {
                    spec_mark_dirty(old(self).nodes@[i].node)
                } else {
                    old(self).nodes@[i].node
                }),
    {
        let downstream = self.reachable_from(start, false);
        let ghost g0 = *self;
        let mut i: usize = 0;
        while i < self.nodes.len()
            invariant
                self.wires@ == g0.wires@,
                self.nodes@.len() == g0.nodes@.len(),
                forall|x: GraphNodeId| downstream@.contains(x) <==> g0.reaches(false, start, x),
                i <= self.nodes@.len(),
                forall|j: int|
                    i <= j < self.nodes@.len() ==> #[trigger] self.nodes@[j] == g0.nodes@[j],
                forall|j: int|
                    0 <= j < i ==> (#[trigger] self.nodes@[j]).id == g0.nodes@[j].id
                        && self.nodes@[j].node == (if g0.nodes@[j].id != start && g0.reaches(
                        false,
                        start,
                        g0.nodes@[j].id,
                    ) {
                        spec_mark_dirty(g0.nodes@[j].node)
                    } else {
                        g0.nodes@[j].node
                    }),
            decreases self.nodes@.len() - i,
        {
            let id = self.nodes[i].id;
            if id != start && contains_id(&downstream, id) {
                self.nodes[i].node.mark_dirty();
            }
            i = i + 1;
        }
    }
}

/// The upstream node of the first wire entering input pin `input` of node `to`.
pub open spec fn first_source(ws: Seq<Wire>, to: GraphNodeId, input: int) -> Option<GraphNodeId>
    decreases ws.len(),
{
    if ws.len() == 0 {
        None
    } else if ws[0].to == to && ws[0].input == input {
        Some(ws[0].from)
    } else {
        first_source(ws.drop_first(), to, input)
    }
}

/// The upstream source of each input pin of `node` (identified by `id`).
pub open spec fn inputs_for(ws: Seq<Wire>, id: GraphNodeId, node: SceneNode) -> Seq<
    Option<GraphNodeId>,
> {
    Seq::new(spec_input_count(node), |i: int| first_source(ws, id, i))
}

/// What evaluating the node at position `i` of `nodes` emits, given the wires.
pub open spec fn node_outcome(ws: Seq<Wire>, nodes: Seq<GraphNode>, i: int, mode: EvalMode) -> (
    SceneNode,
    Seq<EvalEvent>,
    bool,
) {
    spec_evaluate(nodes[i].node, nodes[i].id, inputs_for(ws, nodes[i].id, nodes[i].node), mode)
}

/// The nodes after one evaluation pass in `mode`, each evaluated against the wires.
pub open spec fn nodes_after_pass(ws: Seq<Wire>, nodes: Seq<GraphNode>, mode: EvalMode) -> Seq<
    GraphNode,
> {
    Seq::new(
        nodes.len(),
        |i: int| GraphNode { id: nodes[i].id, node: node_outcome(ws, nodes, i, mode).0 },
    )
}

/// The events of one evaluation pass in `mode`: those of each node, in graph order.
pub open spec fn pass_events(ws: Seq<Wire>, nodes: Seq<GraphNode>, mode: EvalMode) -> Seq<
    EvalEvent,
> {
    Seq::new(nodes.len(), |i: int| node_outcome(ws, nodes, i, mode).1).flatten()
}

/// Every element of a flattened sequence comes from one of its parts.
proof fn lemma_flatten_element(ss: Seq<Seq<EvalEvent>>, k: int)
    requires
        0 <= k < ss.flatten().len(),
    ensures
        exists|i: int, j: int|
            0 <= i < ss.len() && 0 <= j < ss[i].len() && ss.flatten()[k] == #[trigger] ss[i][j],
    decreases ss.len(),
{
    if ss.len() == 0 {
        assert(ss.flatten().len() == 0);
    } else if k < ss[0].len() {
        assert(ss.flatten()[k] == ss[0][k]);
    } else {
        let rest = ss.drop_first();
        lemma_flatten_element(rest, k - ss[0].len());
        let (i, j) = choose|i: int, j: int|
            0 <= i < rest.len() && 0 <= j < rest[i].len() && rest.flatten()[k - ss[0].len()]
                == #[trigger] rest[i][j];
        assert(ss[i + 1][j] == rest[i][j]);
    }
}

/// A pass over the graph settles it: a second pass in the same mode, with the
/// wires unchanged, emits no events and changes no node.
pub proof fn lemma_pass_settles(ws: Seq<Wire>, nodes: Seq<GraphNode>, mode: EvalMode)
    ensures
        pass_events(ws, nodes_after_pass(ws, nodes, mode), mode).len() == 0,
        nodes_after_pass(ws, nodes_after_pass(ws, nodes, mode), mode) == nodes_after_pass(
            ws,
            nodes,
            mode,
        ),
{
    let n1 = nodes_after_pass(ws, nodes, mode);
    assert forall|i: int| 0 <= i < n1.len() implies (#[trigger] node_outcome(ws, n1, i, mode)).1.len()
        == 0 && node_outcome(ws, n1, i, mode).0 == n1[i].node by {
        let inputs = inputs_for(ws, nodes[i].id, nodes[i].node);
        assert(inputs_for(ws, n1[i].id, n1[i].node) == inputs);
        lemma_evaluate_settles(nodes[i].node, nodes[i].id, inputs, mode);
    }
    let parts = Seq::new(n1.len(), |i: int| node_outcome(ws, n1, i, mode).1);
    if parts.flatten().len() > 0 {
        lemma_flatten_element(parts, 0);
        let (i, j) = choose|i: int, j: int|
            0 <= i < parts.len() && 0 <= j < parts[i].len() && parts.flatten()[0]
                == #[trigger] parts[i][j];
        assert(node_outcome(ws, n1, i, mode).1.len() == 0);
    }
    assert(nodes_after_pass(ws, n1, mode) =~= n1);
}

/// An Auto pass leaves no node of the graph dirty, so it adds nothing to the
/// dirty list.
pub proof fn lemma_auto_pass_leaves_nothing_dirty(ws: Seq<Wire>, nodes: Seq<GraphNode>)
    ensures
        forall|i: int| 0 <= i < nodes.len() ==> !(#[trigger] node_outcome(ws, nodes, i, EvalMode::Auto)).2,
{
    assert forall|i: int| 0 <= i < nodes.len() implies !(#[trigger] node_outcome(
        ws,
        nodes,
        i,
        EvalMode::Auto,
    )).2 by {
        lemma_auto_never_dirty(nodes[i].node, nodes[i].id, inputs_for(ws, nodes[i].id, nodes[i].node));
    }
}

/// Outside Auto mode a pass over the graph starts no computation: each event it
/// emits invalidates an instancer of the graph whose inputs were disconnected.
pub proof fn lemma_non_auto_pass_only_invalidates(
    ws: Seq<Wire>,
    nodes: Seq<GraphNode>,
    mode: EvalMode,
    k: int,
)
    requires
        mode != EvalMode::Auto,
        0 <= k < pass_events(ws, nodes, mode).len(),
    ensures
        exists|i: int|
            0 <= i < nodes.len() && #[trigger] pass_events(ws, nodes, mode)[k]
                == (EvalEvent::InstancerInvalidate { node_id: nodes[i].id }),
{
    let parts = Seq::new(nodes.len(), |i: int| node_outcome(ws, nodes, i, mode).1);
    lemma_flatten_element(parts, k);
    let (i, j) = choose|i: int, j: int|
        0 <= i < parts.len() && 0 <= j < parts[i].len() && parts.flatten()[k]
            == #[trigger] parts[i][j];
    lemma_non_auto_only_invalidates(
        nodes[i].node,
        nodes[i].id,
        inputs_for(ws, nodes[i].id, nodes[i].node),
        mode,
    );
    assert(parts[i][j] == (EvalEvent::InstancerInvalidate { node_id: nodes[i].id }));
}

impl SceneGraph {
    /// The upstream node of the first wire entering input pin `input` of `to`.
    pub fn input_source(&self, to: GraphNodeId, input: usize) -> (r: Option<GraphNodeId>)
        ensures
            r == first_source(self.wires@, to, input as int),
    {
        let mut k: usize = 0;
        assert(self.wires@.skip(0) == self.wires@);
        while k < self.wires.len()
            invariant
                k <= self.wires@.len(),
                first_source(self.wires@, to, input as int) == first_source(
                    self.wires@.skip(k as int),
                    to,
                    input as int,
                ),
            decreases self.wires@.len() - k,
        {
            assert(self.wires@.skip(k as int).drop_first() == self.wires@.skip(k + 1));
            let w = self.wires[k];
            if w.to == to && w.input == input {
                return Some(w.from);
            }
            k = k + 1;
        }
        None
    }

    /// The evaluation context of the node at position `idx`: the upstream
    /// source of each of its input pins.
    pub fn eval_ctx(&self, idx: usize) -> (c: EvalCtx)
        requires
            idx < self.nodes@.len(),
        ensures
            c.input_sources@ == inputs_for(
                self.wires@,
                self.nodes@[idx as int].id,
                self.nodes@[idx as int].node,
            ),
    {
        let id = self.nodes[idx].id;
        let n = self.nodes[idx].node.input_count();
        let mut sources: Vec<Option<GraphNodeId>> = Vec::new();
        let mut i: usize = 0;
        while i < n
            invariant
                i <= n,
                n as nat == spec_input_count(self.nodes@[idx as int].node),
                id == self.nodes@[idx as int].id,
                idx < self.nodes@.len(),
                sources@.len() == i,
                forall|j: int| 0 <= j < i ==> sources@[j] == first_source(self.wires@, id, j),
            decreases n - i,
        {
            let s = self.input_source(id, i);
            sources.push(s);
            i = i + 1;
        }
        assert(sources@ == inputs_for(self.wires@, id, self.nodes@[idx as int].node));
        EvalCtx::new(sources)
    }

    /// Evaluates every node for auto-compute readiness, in graph order.
    /// Updates the nodes' status flags, adds the nodes left dirty to
    /// `dirty_nodes`, and returns the events of all nodes in order.
    pub fn collect_auto_compute_events(&mut self, mode: EvalMode, dirty_nodes: &mut Vec<
        GraphNodeId,
    >) -> (events: Vec<EvalEvent>)
        requires
            old(dirty_nodes)@.no_duplicates(),
        ensures
            final(self).wires@ == old(self).wires@,
            final(self).nodes@.len() == old(self).nodes@.len(),
            forall|i: int|
                0 <= i < old(self).nodes@.len() ==> (#[trigger] final(self).nodes@[i]).id == old(
                    self,
                ).nodes@[i].id && final(self).nodes@[i].node == node_outcome(
                    old(self).wires@,
                    old(self).nodes@,
                    i,
                    mode,
                ).0,
            final(self).nodes@ == nodes_after_pass(old(self).wires@, old(self).nodes@, mode),
            events@ == pass_events(old(self).wires@, old(self).nodes@, mode),
            final(dirty_nodes)@.no_duplicates(),
            forall|x: GraphNodeId|
                #[trigger] final(dirty_nodes)@.contains(x) <==> (old(dirty_nodes)@.contains(x)
                    || exists|i: int|
                    0 <= i < old(self).nodes@.len() && old(self).nodes@[i].id == x && node_outcome(
                        old(self).wires@,
                        old(self).nodes@,
                        i,
                        mode,
                    ).2),
    {
        let ghost g0_nodes = self.nodes@;
        let ghost ws = self.wires@;
        let ghost d0 = dirty_nodes@;
        let ghost outs = Seq::new(
            g0_nodes.len(),
            |i: int| node_outcome(ws, g0_nodes, i, mode).1,
        );
        let mut events: Vec<EvalEvent> = Vec::new();
        let mut i: usize = 0;
        while i < self.nodes.len()
            invariant
                self.wires@ == ws,
                self.nodes@.len() == g0_nodes.len(),
                outs.len() == g0_nodes.len(),
                forall|j: int| 0 <= j < outs.len() ==> #[trigger] outs[j] == node_outcome(ws, g0_nodes, j, mode).1,
                i <= self.nodes@.len(),
                forall|j: int| i <= j < self.nodes@.len() ==> #[trigger] self.nodes@[j] == g0_nodes[j],
                forall|j: int|
                    0 <= j < i ==> (#[trigger] self.nodes@[j]).id == g0_nodes[j].id
                        && self.nodes@[j].node == node_outcome(ws, g0_nodes, j, mode).0,
                events@ == outs.take(i as int).flatten_alt(),
                dirty_nodes@.no_duplicates(),
                forall|x: GraphNodeId|
                    #[trigger] dirty_nodes@.contains(x) <==> (d0.contains(x) || exists|j: int|
                        0 <= j < i && g0_nodes[j].id == x && node_outcome(ws, g0_nodes, j, mode).2),
            decreases self.nodes@.len() - i,
        {
            let ctx = self.eval_ctx(i);
            let id = self.nodes[i].id;
            let out = self.nodes[i].node.evaluate(id, &ctx, mode);
            let ghost prev = events@;
            let mut evs = out.events;
            events.append(&mut evs);
            proof {
                assert(outs.take(i + 1).drop_last() == outs.take(i as int));
                assert(outs.take(i + 1).last() == outs[i as int]);
            }
            let ghost d_before = dirty_nodes@;
            if out.dirty && !contains_id(dirty_nodes, id) {
                dirty_nodes.push(id);
            }
            proof {
                assert forall|x: GraphNodeId| #[trigger] dirty_nodes@.contains(x) <==> (d0.contains(x)
                    || exists|j: int|
                    0 <= j < i + 1 && g0_nodes[j].id == x && node_outcome(ws, g0_nodes, j, mode).2) by {
                    if dirty_nodes@.contains(x) && !d_before.contains(x) {
                        assert(x == id);
                        assert(g0_nodes[i as int].id == x);
                    }
                    if exists|j: int|
                        0 <= j < i + 1 && g0_nodes[j].id == x && node_outcome(ws, g0_nodes, j, mode).2 {
                        let j = choose|j: int|
                            0 <= j < i + 1 && g0_nodes[j].id == x && node_outcome(ws, g0_nodes, j, mode).2;
                        if j == i {
                            if !d_before.contains(x) {
                                assert(dirty_nodes@.last() == x);
                            }
                        }
                    }
                    if d_before.contains(x) {
                        let q = choose|q: int| 0 <= q < d_before.len() && d_before[q] == x;
                        assert(dirty_nodes@[q] == x);
                    }
                }
            }
            i = i + 1;
        }
        proof {
            assert(outs.take(outs.len() as int) == outs);
            outs.lemma_flatten_and_flatten_alt_are_equivalent();
            assert(self.nodes@ =~= nodes_after_pass(ws, g0_nodes, mode));
        }
        events
    }
}

impl SceneGraph {
    /// An empty graph.
    pub fn new() -> (g: SceneGraph)
        ensures
            g.nodes@.len() == 0,
            g.wires@.len() == 0,
            g.wf(),
    {
        SceneGraph { nodes: Vec::new(), wires: Vec::new() }
    }

    /// Whether the graph holds a node with identifier `id`.
    pub fn contains_node(&self, id: GraphNodeId) -> (b: bool)
        requires
            self.wf(),
        ensures
            b == self.has_node(id),
    {
        self.find_node(id).is_some()
    }

    /// Inserts `node` under the smallest identifier not in use, and returns it.
    pub fn add_node(&mut self, node: SceneNode) -> (id: GraphNodeId)
        requires
            old(self).wf(),
        ensures
            !old(self).has_node(id),
            forall|c: u64| c < id.0 ==> old(self).has_node(GraphNodeId(c)),
            final(self).nodes@ == old(self).nodes@.push(GraphNode { id, node }),
            final(self).wires@ == old(self).wires@,
            final(self).wf(),
    {
        let mut c: u64 = 0;
        let n = self.nodes.len();
        loop
            invariant
                self.wf(),
                n == self.nodes@.len(),
                forall|d: u64| d < c ==> self.has_node(GraphNodeId(d)),
                c <= self.nodes@.len(),
            ensures
                !self.has_node(GraphNodeId(c)),
                forall|d: u64| d < c ==> self.has_node(GraphNodeId(d)),
            decreases self.nodes@.len() - c,
        {
            if !self.contains_node(GraphNodeId(c)) {
                break;
            }
            proof {
                let s = Seq::new((c + 1) as nat, |i: int| GraphNodeId(i as u64));
                assert forall|x: GraphNodeId| s.contains(x) implies self.has_node(x) by {
                    let i = choose|i: int| 0 <= i < s.len() && s[i] == x;
                    assert(x == GraphNodeId(i as u64));
                    if i < c {
                        assert(self.has_node(GraphNodeId(i as u64)));
                    }
                }
                assert(s.no_duplicates());
                self.lemma_ids_bounded(s);
                assert(c + 1 <= self.nodes@.len());
                assert(c + 1 <= n);
            }
            c = c + 1;
        }
        let id = GraphNodeId(c);
        let ghost old_g = *self;
        self.nodes.push(GraphNode { id, node });
        proof {
            assert forall|k: int| 0 <= k < self.wires@.len() implies self.has_node(
                #[trigger] self.wires@[k].from,
            ) && self.has_node(self.wires@[k].to) by {
                let a = old_g.index_of(self.wires@[k].from);
                let b = old_g.index_of(self.wires@[k].to);
                assert(self.nodes@[a] == old_g.nodes@[a]);
                assert(self.nodes@[b] == old_g.nodes@[b]);
            }
            assert forall|i: int, j: int|
                0 <= i < self.nodes@.len() && 0 <= j < self.nodes@.len() && i != j
                    implies self.nodes@[i].id != self.nodes@[j].id by {
                if i == old_g.nodes@.len() as int {
                    assert(!old_g.has_node(id));
                    assert(self.nodes@[j] == old_g.nodes@[j]);
                } else if j == old_g.nodes@.len() as int {
                    assert(self.nodes@[i] == old_g.nodes@[i]);
                }
            }
        }
        id
    }

    /// Removes the node `id` and every wire attached to it.
    pub fn remove_node(&mut self, id: GraphNodeId)
        requires
            old(self).wf(),
        ensures
            final(self).wf(),
            forall|x: GraphNodeId|
                #[trigger] final(self).has_node(x) <==> (old(self).has_node(x) && x != id),
            forall|x: GraphNodeId|
                #[trigger] final(self).has_node(x) ==> final(self).node_at(x) == old(self).node_at(
                    x,
                ),
            forall|w: Wire|
                #[trigger] final(self).wires@.contains(w) <==> (old(self).wires@.contains(w)
                    && w.from != id && w.to != id),
    {
        let ghost g0 = *self;
        match self.find_node(id) {
            Some(i) => {
                self.nodes.remove(i);
                proof {
                    assert forall|x: GraphNodeId| self.has_node(x) <==> (g0.has_node(x) && x != id) by {
                        if self.has_node(x) {
                            let j = choose|j: int| 0 <= j < self.nodes@.len() && self.nodes@[j].id == x;
                            if j < i {
                                assert(g0.nodes@[j].id == x);
                            } else {
                                assert(g0.nodes@[j + 1].id == x);
                            }
                        }
                        if g0.has_node(x) && x != id {
                            let j = choose|j: int| 0 <= j < g0.nodes@.len() && g0.nodes@[j].id == x;
                            if j < i {
                                assert(self.nodes@[j].id == x);
                            } else {
                                assert(self.nodes@[j - 1].id == x);
                            }
                        }
                    }
                }
            },
            None => {},
        }
        let ghost mid = self.nodes@;
        let mut kept: Vec<Wire> = Vec::new();
        let mut k: usize = 0;
        while k < self.wires.len()
            invariant
                self.wires@ == g0.wires@,
                self.nodes@ == mid,
                k <= self.wires@.len(),
                forall|w: Wire|
                    #[trigger] kept@.contains(w) <==> (exists|j: int|
                        0 <= j < k && g0.wires@[j] == w) && w.from != id && w.to != id,
            decreases self.wires@.len() - k,
        {
            let w = self.wires[k];
            let ghost before = kept@;
            if w.from != id && w.to != id {
                kept.push(w);
            }
            proof {
                assert forall|v: Wire|
                    #[trigger] kept@.contains(v) <==> (exists|j: int|
                        0 <= j < k + 1 && g0.wires@[j] == v) && v.from != id && v.to != id by {
                    if kept@.contains(v) && !before.contains(v) {
                        assert(v == w);
                        assert(g0.wires@[k as int] == v);
                    }
                    if (exists|j: int| 0 <= j < k + 1 && g0.wires@[j] == v) && v.from != id && v.to
                        != id {
                        let j = choose|j: int| 0 <= j < k + 1 && g0.wires@[j] == v;
                        if j == k {
                            if !before.contains(v) {
                                assert(kept@.last() == v);
                            }
                        }
                    }
                    if before.contains(v) {
                        let q = choose|q: int| 0 <= q < before.len() && before[q] == v;
                        assert(kept@[q] == v);
                    }
                }
            }
            k = k + 1;
        }
        self.wires = kept;
        proof {
            assert forall|w: Wire| #[trigger] self.wires@.contains(w) <==> (g0.wires@.contains(w)
                && w.from != id && w.to != id) by {
                if g0.wires@.contains(w) {
                    let j = choose|j: int| 0 <= j < g0.wires@.len() && g0.wires@[j] == w;
                }
            }
            assert forall|i: int, j: int|
                0 <= i < self.nodes@.len() && 0 <= j < self.nodes@.len() && i != j
                    implies self.nodes@[i].id != self.nodes@[j].id by {
                let (a, b) = g0.lemma_removed_positions(self.nodes@, i, j);
            }
            assert forall|x: GraphNodeId| #[trigger] self.has_node(x) implies self.node_at(x)
                == g0.node_at(x) by {
                let p = self.index_of(x);
                let (a, b) = g0.lemma_removed_positions(self.nodes@, p, p);
                g0.lemma_index_of(x, a);
            }
            assert forall|k: int| 0 <= k < self.wires@.len() implies self.has_node(
                #[trigger] self.wires@[k].from,
            ) && self.has_node(self.wires@[k].to) by {
                let w = self.wires@[k];
                assert(self.wires@.contains(w));
                let j = choose|j: int| 0 <= j < g0.wires@.len() && g0.wires@[j] == w;
                assert(g0.has_node(g0.wires@[j].from));
            }
        }
    }

    /// Whether wire `w` joins an existing output pin to an existing input pin
    /// of the same pin type.
    pub open spec fn pins_compatible(&self, w: Wire) -> bool {
        match (
            spec_output_pin(self.node_at(w.from), w.output as int),
            spec_input_pin(self.node_at(w.to), w.input as int),
        ) {
            (Some((_, a)), Some((_, b))) => a == b,
            _ => false,
        }
    }

    /// A scene output can be wired to any of the four inputs of a Graft
    /// Branches node.
    pub proof fn lemma_scene_output_fits_every_graft_branch(&self, w: Wire)
        requires
            self.node_at(w.to) is GraftBranches,
            w.input < 4,
            spec_output_pin(self.node_at(w.from), w.output as int) matches Some((_, t)) && t
                == PinType::Scene,
        ensures
            self.pins_compatible(w),
    {
    }

    /// The graph after node `id` has been marked dirty.
    pub open spec fn dirtied(&self, id: GraphNodeId, nodes: Seq<GraphNode>) -> bool {
        &&& nodes.len() == self.nodes@.len()
        &&& forall|i: int|
            0 <= i < nodes.len() ==> (#[trigger] nodes[i]).id == self.nodes@[i].id && nodes[i].node
                == (if self.nodes@[i].id == id {
                spec_mark_dirty(self.nodes@[i].node)
            } else {
                self.nodes@[i].node
            })
    }

    /// Marks the node `id` dirty.
    fn mark_node_dirty(&mut self, id: GraphNodeId)
        requires
            old(self).wf(),
            old(self).has_node(id),
        ensures
            old(self).dirtied(id, final(self).nodes@),
            final(self).wires@ == old(self).wires@,
            final(self).wf(),
    {
        let ghost g0 = *self;
        let idx = match self.find_node(id) {
            Some(i) => i,
            None => {
                assert(false);
                0
            },
        };
        self.nodes[idx].node.mark_dirty();
        proof {
            assert forall|i: int| 0 <= i < self.nodes@.len() implies (#[trigger] self.nodes@[i]).id
                == g0.nodes@[i].id && self.nodes@[i].node == (if g0.nodes@[i].id == id {
                spec_mark_dirty(g0.nodes@[i].node)
            } else {
                g0.nodes@[i].node
            }) by {
                if i != idx && g0.nodes@[i].id == id {
                    assert(g0.nodes@[idx as int].id == id);
                }
            }
            self.lemma_same_ids_wf(g0);
        }
    }

    /// A graph with the same identifiers, position by position, and the same
    /// wires as a well-formed graph is well formed.
    pub proof fn lemma_same_ids_wf(&self, g0: SceneGraph)
        requires
            g0.wf(),
            self.wires@ == g0.wires@,
            self.nodes@.len() == g0.nodes@.len(),
            forall|i: int| 0 <= i < self.nodes@.len() ==> #[trigger] self.nodes@[i].id == g0.nodes@[i].id,
        ensures
            self.wf(),
            forall|x: GraphNodeId| #[trigger] self.has_node(x) == g0.has_node(x),
            forall|x: GraphNodeId| #[trigger] self.has_node(x) ==> self.index_of(x) == g0.index_of(x),
    {
        assert forall|x: GraphNodeId| #[trigger] self.has_node(x) == g0.has_node(x) by {
            if g0.has_node(x) {
                let i = choose|i: int| 0 <= i < g0.nodes@.len() && g0.nodes@[i].id == x;
                assert(self.nodes@[i].id == x);
            }
            if self.has_node(x) {
                let i = choose|i: int| 0 <= i < self.nodes@.len() && self.nodes@[i].id == x;
                assert(g0.nodes@[i].id == x);
            }
        }
        assert forall|k: int| 0 <= k < self.wires@.len() implies self.has_node(
            #[trigger] self.wires@[k].from,
        ) && self.has_node(self.wires@[k].to) by {
            assert(g0.has_node(g0.wires@[k].from));
        }
        assert forall|x: GraphNodeId| #[trigger] self.has_node(x) implies self.index_of(x)
            == g0.index_of(x) by {
            let i = self.index_of(x);
            assert(g0.nodes@[i].id == x);
            g0.lemma_index_of(x, i);
        }
    }

    /// Connects an output pin to an input pin when both pins exist and carry
    /// the same pin type; the receiving node is then marked dirty so that
    /// auto-compute re-runs. Returns whether the connection was made.
    pub fn connect(&mut self, w: Wire) -> (ok: bool)
        requires
            old(self).wf(),
            old(self).has_node(w.from),
            old(self).has_node(w.to),
        ensures
            ok == old(self).pins_compatible(w),
            final(self).wf(),
            ok ==> final(self).wires@ == wires_after_connect(old(self).wires@, w) && old(
                self,
            ).dirtied(w.to, final(self).nodes@),
            !ok ==> final(self).wires@ == old(self).wires@ && final(self).nodes@ == old(
                self,
            ).nodes@,
    {
        let fi = match self.find_node(w.from) {
            Some(i) => i,
            None => {
                assert(false);
                0
            },
        };
        let ti = match self.find_node(w.to) {
            Some(i) => i,
            None => {
                assert(false);
                0
            },
        };
        let out_pin = self.nodes[fi].node.output_pin(w.output);
        let in_pin = self.nodes[ti].node.input_pin(w.input);
        let compatible = match (out_pin, in_pin) {
            (Some((_, a)), Some((_, b))) => a == b,
            _ => false,
        };
        if !compatible {
            return false;
        }
        let ghost g0 = *self;
        if !self.has_wire(w) {
            self.wires.push(w);
            proof {
                assert forall|k: int| 0 <= k < self.wires@.len() implies self.has_node(
                    #[trigger] self.wires@[k].from,
                ) && self.has_node(self.wires@[k].to) by {
                    if k < g0.wires@.len() {
                        assert(self.wires@[k] == g0.wires@[k]);
                    }
                }
            }
        }
        let ghost g1 = *self;
        proof {
            assert(g1.nodes@ == g0.nodes@);
            assert(g1.has_node(w.to));
        }
        self.mark_node_dirty(w.to);
        proof {
            assert forall|i: int| 0 <= i < self.nodes@.len() implies (#[trigger] self.nodes@[i]).id
                == g0.nodes@[i].id && self.nodes@[i].node == (if g0.nodes@[i].id == w.to {
                spec_mark_dirty(g0.nodes@[i].node)
            } else {
                g0.nodes@[i].node
            }) by {
                assert(g1.nodes@[i] == g0.nodes@[i]);
            }
        }
        true
    }

    /// Whether `w` is one of the wires.
    pub fn has_wire(&self, w: Wire) -> (b: bool)
        ensures
            b == self.wires@.contains(w),
    {
        let mut k: usize = 0;
        while k < self.wires.len()
            invariant
                k <= self.wires@.len(),
                forall|j: int| 0 <= j < k ==> self.wires@[j] != w,
            decreases self.wires@.len() - k,
        {
            if self.wires[k] == w {
                assert(self.wires@[k as int] == w);
                return true;
            }
            k = k + 1;
        }
        false
    }

    /// Removes the wire `w` (every copy of it).
    fn remove_wire(&mut self, w: Wire)
        requires
            old(self).wf(),
        ensures
            final(self).nodes@ == old(self).nodes@,
            forall|v: Wire|
                #[trigger] final(self).wires@.contains(v) <==> (old(self).wires@.contains(v) && v
                    != w),
            final(self).wf(),
    {
        let ghost g0 = *self;
        let mut kept: Vec<Wire> = Vec::new();
        let mut k: usize = 0;
        while k < self.wires.len()
            invariant
                self.wires@ == g0.wires@,
                self.nodes@ == g0.nodes@,
                k <= self.wires@.len(),
                forall|v: Wire|
                    #[trigger] kept@.contains(v) <==> (exists|j: int|
                        0 <= j < k && g0.wires@[j] == v) && v != w,
            decreases self.wires@.len() - k,
        {
            let x = self.wires[k];
            let ghost before = kept@;
            if x != w {
                kept.push(x);
            }
            proof {
                assert forall|v: Wire|
                    #[trigger] kept@.contains(v) <==> (exists|j: int|
                        0 <= j < k + 1 && g0.wires@[j] == v) && v != w by {
                    if kept@.contains(v) && !before.contains(v) {
                        assert(g0.wires@[k as int] == v);
                    }
                    if (exists|j: int| 0 <= j < k + 1 && g0.wires@[j] == v) && v != w {
                        let j = choose|j: int| 0 <= j < k + 1 && g0.wires@[j] == v;
                        if j == k && !before.contains(v) {
                            assert(kept@.last() == v);
                        }
                    }
                    if before.contains(v) {
                        let q = choose|q: int| 0 <= q < before.len() && before[q] == v;
                        assert(kept@[q] == v);
                    }
                }
            }
            k = k + 1;
        }
        self.wires = kept;
        proof {
            assert forall|v: Wire| #[trigger] self.wires@.contains(v) <==> (g0.wires@.contains(v)
                && v != w) by {
                if g0.wires@.contains(v) {
                    let j = choose|j: int| 0 <= j < g0.wires@.len() && g0.wires@[j] == v;
                }
            }
            assert forall|k: int| 0 <= k < self.wires@.len() implies self.has_node(
                #[trigger] self.wires@[k].from,
            ) && self.has_node(self.wires@[k].to) by {
                let v = self.wires@[k];
                assert(self.wires@.contains(v));
                let j = choose|j: int| 0 <= j < g0.wires@.len() && g0.wires@[j] == v;
                assert(g0.has_node(g0.wires@[j].from));
            }
        }
    }

    /// Disconnects wire `w` and marks its receiving node dirty. When that node
    /// is an instancer holding results, the returned event asks for them to be
    /// dropped.
    pub fn disconnect(&mut self, w: Wire) -> (events: Vec<EvalEvent>)
        requires
            old(self).wf(),
            old(self).has_node(w.to),
        ensures
            events@ == (if old(self).node_at(w.to) matches SceneNode::PointInstancer {
                is_instanced,
                ..
            } && is_instanced {
                seq![EvalEvent::InstancerInvalidate { node_id: w.to }]
            } else {
                seq![]
            }),
            forall|v: Wire|
                #[trigger] final(self).wires@.contains(v) <==> (old(self).wires@.contains(v) && v
                    != w),
            old(self).dirtied(w.to, final(self).nodes@),
            final(self).wf(),
    {
        let ti = match self.find_node(w.to) {
            Some(i) => i,
            None => {
                assert(false);
                0
            },
        };
        let instanced = match &self.nodes[ti].node {
            SceneNode::PointInstancer { is_instanced, .. } => *is_instanced,
            _ => false,
        };
        let mut events: Vec<EvalEvent> = Vec::new();
        if instanced {
            events.push(EvalEvent::InstancerInvalidate { node_id: w.to });
        }
        let ghost g0 = *self;
        self.remove_wire(w);
        let ghost g1 = *self;
        proof {
            assert(g1.nodes@ == g0.nodes@);
            let i = g0.index_of(w.to);
            assert(g1.nodes@[i].id == w.to);
        }
        self.mark_node_dirty(w.to);
        proof {
            assert forall|i: int| 0 <= i < self.nodes@.len() implies (#[trigger] self.nodes@[i]).id
                == g0.nodes@[i].id && self.nodes@[i].node == (if g0.nodes@[i].id == w.to {
                spec_mark_dirty(g0.nodes@[i].node)
            } else {
                g0.nodes@[i].node
            }) by {
                assert(g1.nodes@[i] == g0.nodes@[i]);
            }
        }
        events
    }

    /// Positions in `nodes` (this graph with at most one node removed, in
    /// order) correspond to positions of this graph holding the same node.
    proof fn lemma_removed_positions(&self, nodes: Seq<GraphNode>, i: int, j: int) -> (r: (
        int,
        int,
    ))
        requires
            self.wf(),
            0 <= i < nodes.len(),
            0 <= j < nodes.len(),
            nodes == self.nodes@ || exists|p: int|
                0 <= p < self.nodes@.len() && nodes == self.nodes@.remove(p),
        ensures
            0 <= r.0 < self.nodes@.len() && self.nodes@[r.0] == nodes[i],
            0 <= r.1 < self.nodes@.len() && self.nodes@[r.1] == nodes[j],
            i != j ==> r.0 != r.1,
    {
        if nodes == self.nodes@ {
            (i, j)
        } else {
            let p = choose|p: int| 0 <= p < self.nodes@.len() && nodes == self.nodes@.remove(p);
            let a = if i < p {
                i
            } else {
                i + 1
            };
            let b = if j < p {
                j
            } else {
                j + 1
            };
            (a, b)
        }
    }
}

/// Whether `x` occurs in `v`.
pub fn contains_id(v: &Vec<GraphNodeId>, x: GraphNodeId) -> (b: bool)
    ensures
        b == v@.contains(x),
{
    let mut i: usize = 0;
    while i < v.len()
        invariant
            i <= v@.len(),
            forall|j: int| 0 <= j < i ==> v@[j] != x,
        decreases v@.len() - i,
    {
        if v[i] == x {
            assert(v@[i as int] == x);
            return true;
        }
        i = i + 1;
    }
    false
}

/// The wires after connecting `w`: unchanged when it is already there.
pub open spec fn wires_after_connect(ws: Seq<Wire>, w: Wire) -> Seq<Wire> {
    if ws.contains(w) {
        ws
    } else {
        ws.push(w)
    }
}

/// Disconnecting a wire undoes connecting it: after both, the graph holds
/// exactly the wires it held before, other than that one.
pub proof fn lemma_disconnect_undoes_connect(ws: Seq<Wire>, w: Wire)
    ensures
        forall|v: Wire|
            (#[trigger] wires_after_connect(ws, w).contains(v) && v != w) <==> (ws.contains(v) && v
                != w),
{
    assert forall|v: Wire|
        (#[trigger] wires_after_connect(ws, w).contains(v) && v != w) <==> (ws.contains(v) && v
            != w) by {
        if !ws.contains(w) {
            if ws.push(w).contains(v) && v != w {
                let k = choose|k: int| 0 <= k < ws.push(w).len() && ws.push(w)[k] == v;
                assert(k < ws.len());
                assert(ws[k] == v);
            }
            if ws.contains(v) {
                let k = choose|k: int| 0 <= k < ws.len() && ws[k] == v;
                assert(ws.push(w)[k] == v);
            }
        }
    }
}

/// Removing a node just added restores the graph: the same nodes, with the
/// same contents, and the same wires.
pub proof fn lemma_remove_undoes_add(
    g0: SceneGraph,
    g1: SceneGraph,
    g2: SceneGraph,
    id: GraphNodeId,
    node: SceneNode,
)
    requires
        g0.wf(),
        !g0.has_node(id),
        g1.nodes@ == g0.nodes@.push(GraphNode { id, node }),
        g1.wires@ == g0.wires@,
        forall|x: GraphNodeId| #[trigger] g2.has_node(x) <==> (g1.has_node(x) && x != id),
        forall|x: GraphNodeId| #[trigger] g2.has_node(x) ==> g2.node_at(x) == g1.node_at(x),
        forall|v: Wire|
            #[trigger] g2.wires@.contains(v) <==> (g1.wires@.contains(v) && v.from != id && v.to
                != id),
    ensures
        forall|x: GraphNodeId| #[trigger] g2.has_node(x) <==> g0.has_node(x),
        forall|x: GraphNodeId| #[trigger] g2.has_node(x) ==> g2.node_at(x) == g0.node_at(x),
        forall|v: Wire| #[trigger] g2.wires@.contains(v) <==> g0.wires@.contains(v),
{
    assert(g1.wf()) by {
        assert forall|i: int, j: int|
            0 <= i < g1.nodes@.len() && 0 <= j < g1.nodes@.len() && i != j implies g1.nodes@[i].id
            != g1.nodes@[j].id by {
            if i < g0.nodes@.len() && j < g0.nodes@.len() {
                assert(g1.nodes@[i] == g0.nodes@[i] && g1.nodes@[j] == g0.nodes@[j]);
            } else if i < g0.nodes@.len() {
                assert(g1.nodes@[i] == g0.nodes@[i]);
            } else {
                assert(g1.nodes@[j] == g0.nodes@[j]);
            }
        }
        assert forall|k: int| 0 <= k < g1.wires@.len() implies g1.has_node(
            #[trigger] g1.wires@[k].from,
        ) && g1.has_node(g1.wires@[k].to) by {
            let a = choose|i: int| 0 <= i < g0.nodes@.len() && g0.nodes@[i].id == g0.wires@[k].from;
            let b = choose|i: int| 0 <= i < g0.nodes@.len() && g0.nodes@[i].id == g0.wires@[k].to;
            assert(g1.nodes@[a] == g0.nodes@[a]);
            assert(g1.nodes@[b] == g0.nodes@[b]);
        }
    }
    assert forall|x: GraphNodeId| #[trigger] g2.has_node(x) <==> g0.has_node(x) by {
        if g0.has_node(x) {
            let i = choose|i: int| 0 <= i < g0.nodes@.len() && g0.nodes@[i].id == x;
            assert(g1.nodes@[i] == g0.nodes@[i]);
            assert(g1.has_node(x));
        }
        if g1.has_node(x) && x != id {
            let i = choose|i: int| 0 <= i < g1.nodes@.len() && g1.nodes@[i].id == x;
            assert(i < g0.nodes@.len());
            assert(g0.nodes@[i] == g1.nodes@[i]);
        }
    }
    assert forall|x: GraphNodeId| #[trigger] g2.has_node(x) implies g2.node_at(x) == g0.node_at(x) by {
        let i = g0.index_of(x);
        assert(g1.nodes@[i] == g0.nodes@[i]);
        g1.lemma_index_of(x, i);
    }
    assert forall|v: Wire| #[trigger] g2.wires@.contains(v) <==> g0.wires@.contains(v) by {
        if g0.wires@.contains(v) {
            let k = choose|k: int| 0 <= k < g0.wires@.len() && g0.wires@[k] == v;
            assert(g0.has_node(g0.wires@[k].from) && g0.has_node(g0.wires@[k].to));
        }
    }
}

} // verus!
