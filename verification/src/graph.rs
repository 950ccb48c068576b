//! The mathematical content of an event graph: which nodes it holds, which
//! wires join their pins, what it means for one node to reach another, and
//! the facts about reachability that the rest of the crate builds on.

use vstd::prelude::*;

use crate::node::Node;

verus! {

/// Identifier of a node: stable, and unique while the node lives.
#[derive(Debug, Clone, Copy, PartialEq, Eq, Structural)]
pub struct NodeId(pub usize);

/// An output pin: a node and the index of one of its outputs.
#[derive(Debug, Clone, Copy, PartialEq, Eq, Structural)]
pub struct OutPinId {
    pub node: NodeId,
    pub output: usize,
}

/// An input pin: a node and the index of one of its inputs.
#[derive(Debug, Clone, Copy, PartialEq, Eq, Structural)]
pub struct InPinId {
    pub node: NodeId,
    pub input: usize,
}

/// A directed connection from an output pin to an input pin.
#[derive(Debug, Clone, Copy, PartialEq, Eq, Structural)]
pub struct Wire {
    pub out_pin: OutPinId,
    pub in_pin: InPinId,
}

/// What a graph holds: the kind of each node, the set of wires, and the
/// place at which each node is drawn.
pub struct Graph {
    pub nodes: Map<NodeId, Node>,
    pub wires: Set<Wire>,
    pub places: Map<NodeId, (int, int)>,
}

impl Graph {
    /// The graph with no node and no wire.
    pub open spec fn empty() -> Graph {
        Graph { nodes: Map::empty(), wires: Set::empty(), places: Map::empty() }
    }

    /// The node exists and has an output with this index.
    pub open spec fn has_out_pin(self, pin: OutPinId) -> bool {
        self.nodes.contains_key(pin.node) && pin.output < self.nodes[pin.node].output_count()
    }

    /// The node exists and has an input with this index.
    pub open spec fn has_in_pin(self, pin: InPinId) -> bool {
        self.nodes.contains_key(pin.node) && pin.input < self.nodes[pin.node].input_count()
    }

    /// Every wire joins two nodes that exist.
    pub open spec fn wf(self) -> bool {
        forall|w: Wire| #[trigger]
            self.wires.contains(w) ==> self.nodes.contains_key(w.out_pin.node)
                && self.nodes.contains_key(w.in_pin.node)
    }

    /// The input pins wired to an output pin.
    pub open spec fn remotes_of(self, pin: OutPinId) -> Set<InPinId> {
        Set::new(|to: InPinId| self.wires.contains(Wire { out_pin: pin, in_pin: to }))
    }

    /// The output pins wired to an input pin.
    pub open spec fn sources_of(self, pin: InPinId) -> Set<OutPinId> {
        Set::new(|from: OutPinId| self.wires.contains(Wire { out_pin: from, in_pin: pin }))
    }

    /// A wire starts at the output pin.
    pub open spec fn out_wired(self, pin: OutPinId) -> bool {
        exists|w: Wire| #[trigger] self.wires.contains(w) && w.out_pin == pin
    }

    /// A wire ends in the input pin.
    pub open spec fn in_wired(self, pin: InPinId) -> bool {
        exists|w: Wire| #[trigger] self.wires.contains(w) && w.in_pin == pin
    }

    /// A wire leads from the output pin to some input of the node.
    pub open spec fn wired(self, pin: OutPinId, node: NodeId) -> bool {
        exists|w: Wire| #[trigger] self.wires.contains(w) && w.out_pin == pin && w.in_pin.node == node
    }

    /// A wire leads from an output pin that `a` has to some input of `b`. A
    /// wire that starts at an index past the outputs of its node is no
    /// edge: a search through the outputs of the node does not meet it.
    pub open spec fn edge(self, a: NodeId, b: NodeId) -> bool {
        exists|w: Wire| #[trigger]
            self.wires.contains(w) && w.out_pin.node == a && w.in_pin.node == b
                && self.has_out_pin(w.out_pin)
    }

    /// `p` is a walk from `a` to `b`: it starts at `a`, ends at `b`, and an
    /// edge leads from each of its nodes to the next.
    pub open spec fn walk(self, p: Seq<NodeId>, a: NodeId, b: NodeId) -> bool {
        &&& p.len() > 0
        &&& p[0] == a
        &&& p[p.len() - 1] == b
        &&& forall|i: int| 0 <= i < p.len() - 1 ==> #[trigger] self.edge(p[i], p[i + 1])
    }

    /// `b` can be reached from `a` along edges; every node reaches itself.
    pub open spec fn reaches(self, a: NodeId, b: NodeId) -> bool {
        exists|p: Seq<NodeId>| #[trigger] self.walk(p, a, b)
    }

    /// No edge closes a cycle: the target of an edge never reaches its source.
    pub open spec fn acyclic(self) -> bool {
        forall|a: NodeId, b: NodeId| #[trigger] self.edge(a, b) ==> !self.reaches(b, a)
    }

    /// The graph with one more node, drawn at `(x, y)`.
    pub open spec fn with_node(self, id: NodeId, kind: Node, x: int, y: int) -> Graph {
        Graph {
            nodes: self.nodes.insert(id, kind),
            wires: self.wires,
            places: self.places.insert(id, (x, y)),
        }
    }

    /// The graph without the wires that end in `pin`.
    pub open spec fn without_inputs(self, pin: InPinId) -> Graph {
        Graph {
            nodes: self.nodes,
            wires: self.wires.filter(|w: Wire| w.in_pin != pin),
            places: self.places,
        }
    }

    /// The graph with one more wire.
    pub open spec fn with_wire(self, from: OutPinId, to: InPinId) -> Graph {
        Graph {
            nodes: self.nodes,
            wires: self.wires.insert(Wire { out_pin: from, in_pin: to }),
            places: self.places,
        }
    }

    /// The wire from `from` becomes the only wire into `to`.
    pub open spec fn rewired(self, from: OutPinId, to: InPinId) -> Graph {
        self.without_inputs(to).with_wire(from, to)
    }

    /// A set of nodes that no edge leaves.
    pub open spec fn closed(self, s: Set<NodeId>) -> bool {
        forall|a: NodeId, b: NodeId| s.contains(a) && #[trigger] self.edge(a, b) ==> s.contains(b)
    }

    /// The other graph has the same nodes and at least the same wires.
    pub open spec fn within(self, other: Graph) -> bool {
        self.nodes == other.nodes && self.wires.subset_of(other.wires)
    }
}

/// Every node reaches itself.
pub proof fn lemma_reaches_self(g: Graph, a: NodeId)
    ensures
        g.reaches(a, a),
{
    assert(g.walk(seq![a], a, a));
}

/// A walk can be extended by one edge.
pub proof fn lemma_reaches_step(g: Graph, a: NodeId, b: NodeId, c: NodeId)
    requires
        g.reaches(a, b),
        g.edge(b, c),
    ensures
        g.reaches(a, c),
{
    let p = choose|p: Seq<NodeId>| #[trigger] g.walk(p, a, b);
    let q = p.push(c);
    assert forall|i: int| 0 <= i < q.len() - 1 implies #[trigger] g.edge(q[i], q[i + 1]) by {
        if i < p.len() - 1 {
            assert(g.edge(p[i], p[i + 1]));
        }
    }
    assert(g.walk(q, a, c));
}

/// Reachability is transitive.
pub proof fn lemma_reaches_trans(g: Graph, a: NodeId, b: NodeId, c: NodeId)
    requires
        g.reaches(a, b),
        g.reaches(b, c),
    ensures
        g.reaches(a, c),
{
    let q = choose|q: Seq<NodeId>| #[trigger] g.walk(q, b, c);
    lemma_walk_after(g, a, b, c, q);
}

proof fn lemma_walk_after(g: Graph, a: NodeId, b: NodeId, c: NodeId, q: Seq<NodeId>)
    requires
        g.reaches(a, b),
        g.walk(q, b, c),
    ensures
        g.reaches(a, c),
    decreases q.len(),
{
    if q.len() > 1 {
        let r = q.drop_last();
        let m = q[q.len() - 2];
        assert forall|i: int| 0 <= i < r.len() - 1 implies #[trigger] g.edge(r[i], r[i + 1]) by {
            assert(g.edge(q[i], q[i + 1]));
        }
        assert(g.walk(r, b, m));
        lemma_walk_after(g, a, b, m, r);
        assert(g.edge(q[q.len() - 2], q[q.len() - 2 + 1]));
        lemma_reaches_step(g, a, m, c);
    }
}

proof fn lemma_walk_in_closed(g: Graph, s: Set<NodeId>, p: Seq<NodeId>, a: NodeId, b: NodeId)
    requires
        g.closed(s),
        s.contains(a),
        g.walk(p, a, b),
    ensures
        s.contains(b),
    decreases p.len(),
{
    if p.len() > 1 {
        let r = p.drop_last();
        let m = p[p.len() - 2];
        assert forall|i: int| 0 <= i < r.len() - 1 implies #[trigger] g.edge(r[i], r[i + 1]) by {
            assert(g.edge(p[i], p[i + 1]));
        }
        assert(g.walk(r, a, m));
        lemma_walk_in_closed(g, s, r, a, m);
        assert(g.edge(p[p.len() - 2], p[p.len() - 2 + 1]));
    }
}

/// What a node reaches lies in every closed set that holds the node.
pub proof fn lemma_closed_holds_reachable(g: Graph, s: Set<NodeId>, a: NodeId, b: NodeId)
    requires
        g.closed(s),
        s.contains(a),
        g.reaches(a, b),
    ensures
        s.contains(b),
{
    let p = choose|p: Seq<NodeId>| #[trigger] g.walk(p, a, b);
    lemma_walk_in_closed(g, s, p, a, b);
}

/// An edge of a graph is an edge of every graph that has its wires too.
pub proof fn lemma_edge_within(g: Graph, h: Graph, a: NodeId, b: NodeId)
    requires
        g.within(h),
        g.edge(a, b),
    ensures
        h.edge(a, b),
{
    let w = choose|w: Wire| #[trigger]
        g.wires.contains(w) && w.out_pin.node == a && w.in_pin.node == b && g.has_out_pin(
            w.out_pin,
        );
    assert(h.wires.contains(w));
}

proof fn lemma_walk_within(g: Graph, h: Graph, p: Seq<NodeId>, a: NodeId, b: NodeId)
    requires
        g.within(h),
        g.walk(p, a, b),
    ensures
        h.walk(p, a, b),
{
    assert forall|i: int| 0 <= i < p.len() - 1 implies #[trigger] h.edge(p[i], p[i + 1]) by {
        assert(g.edge(p[i], p[i + 1]));
        lemma_edge_within(g, h, p[i], p[i + 1]);
    }
}

/// Taking wires away adds no way from one node to another.
pub proof fn lemma_reaches_within(g: Graph, h: Graph, a: NodeId, b: NodeId)
    requires
        g.within(h),
        g.reaches(a, b),
    ensures
        h.reaches(a, b),
{
    let p = choose|p: Seq<NodeId>| #[trigger] g.walk(p, a, b);
    lemma_walk_within(g, h, p, a, b);
}

/// Taking wires away from a graph without cycles leaves it without cycles.
pub proof fn lemma_acyclic_within(g: Graph, h: Graph)
    requires
        g.within(h),
        h.acyclic(),
    ensures
        g.acyclic(),
{
    assert forall|a: NodeId, b: NodeId| #[trigger] g.edge(a, b) implies !g.reaches(b, a) by {
        lemma_edge_within(g, h, a, b);
        if g.reaches(b, a) {
            lemma_reaches_within(g, h, b, a);
        }
    }
}

/// An edge of the graph with one more wire is an edge of the graph, or the
/// edge that the new wire makes.
pub proof fn lemma_edge_with_wire(g: Graph, from: OutPinId, to: InPinId, a: NodeId, b: NodeId)
    requires
        g.with_wire(from, to).edge(a, b),
    ensures
        g.edge(a, b) || (a == from.node && b == to.node),
{
    let h = g.with_wire(from, to);
    let w = choose|w: Wire| #[trigger]
        h.wires.contains(w) && w.out_pin.node == a && w.in_pin.node == b && h.has_out_pin(
            w.out_pin,
        );
    if w != (Wire { out_pin: from, in_pin: to }) {
        assert(g.wires.contains(w));
    }
}

proof fn lemma_walk_with_wire(
    g: Graph,
    from: OutPinId,
    to: InPinId,
    p: Seq<NodeId>,
    a: NodeId,
    b: NodeId,
)
    requires
        g.with_wire(from, to).walk(p, a, b),
    ensures
        g.reaches(a, b) || (g.reaches(a, from.node) && g.reaches(to.node, b)),
    decreases p.len(),
{
    let h = g.with_wire(from, to);
    if p.len() == 1 {
        lemma_reaches_self(g, a);
    } else {
        let r = p.drop_last();
        let m = p[p.len() - 2];
        assert forall|i: int| 0 <= i < r.len() - 1 implies #[trigger] h.edge(r[i], r[i + 1]) by {
            assert(h.edge(p[i], p[i + 1]));
        }
        assert(h.walk(r, a, m));
        lemma_walk_with_wire(g, from, to, r, a, m);
        assert(h.edge(p[p.len() - 2], p[p.len() - 2 + 1]));
        lemma_edge_with_wire(g, from, to, m, b);
        if g.edge(m, b) {
            if g.reaches(a, m) {
                lemma_reaches_step(g, a, m, b);
            } else {
                lemma_reaches_step(g, to.node, m, b);
            }
        } else {
            lemma_reaches_self(g, to.node);
            if !g.reaches(a, m) {
                // the walk passed the new wire before; it comes back to its source
                assert(g.reaches(a, from.node));
            }
        }
    }
}

/// A way through the graph with one more wire is a way through the graph,
/// or it passes the new wire: then the graph leads to the wire's source and
/// on from its target.
pub proof fn lemma_reaches_with_wire(g: Graph, from: OutPinId, to: InPinId, a: NodeId, b: NodeId)
    requires
        g.with_wire(from, to).reaches(a, b),
    ensures
        g.reaches(a, b) || (g.reaches(a, from.node) && g.reaches(to.node, b)),
{
    let h = g.with_wire(from, to);
    let p = choose|p: Seq<NodeId>| #[trigger] h.walk(p, a, b);
    lemma_walk_with_wire(g, from, to, p, a, b);
}

/// A wire whose target does not reach its source closes no cycle.
pub proof fn lemma_acyclic_with_wire(g: Graph, from: OutPinId, to: InPinId)
    requires
        g.acyclic(),
        !g.reaches(to.node, from.node),
    ensures
        g.with_wire(from, to).acyclic(),
{
    let h = g.with_wire(from, to);
    assert forall|a: NodeId, b: NodeId| #[trigger] h.edge(a, b) implies !h.reaches(b, a) by {
        if h.reaches(b, a) {
            lemma_edge_with_wire(g, from, to, a, b);
            lemma_reaches_with_wire(g, from, to, b, a);
            if g.edge(a, b) {
                if !g.reaches(b, a) {
                    lemma_reaches_step(g, to.node, a, b);
                    lemma_reaches_trans(g, to.node, b, from.node);
                }
            }
        }
    }
}

/// A wire between two nodes that exist leaves a sound graph sound.
pub proof fn lemma_rewired_is_sound(g: Graph, from: OutPinId, to: InPinId)
    requires
        g.wf(),
        g.nodes.contains_key(from.node),
        g.nodes.contains_key(to.node),
    ensures
        g.rewired(from, to).wf(),
{
    let h = g.rewired(from, to);
    assert forall|w: Wire| #[trigger] h.wires.contains(w) implies h.nodes.contains_key(
        w.out_pin.node,
    ) && h.nodes.contains_key(w.in_pin.node) by {
        if w != (Wire { out_pin: from, in_pin: to }) {
            assert(g.wires.contains(w));
        }
    }
}

/// A new node joined by no wire closes no cycle.
pub proof fn lemma_with_node_is_sound(g: Graph, id: NodeId, kind: Node, x: int, y: int)
    requires
        g.wf(),
        g.acyclic(),
        !g.nodes.contains_key(id),
    ensures
        g.with_node(id, kind, x, y).wf(),
        g.with_node(id, kind, x, y).acyclic(),
{
    let h = g.with_node(id, kind, x, y);
    assert forall|a: NodeId, b: NodeId| #[trigger] h.edge(a, b) implies g.edge(a, b) by {
        let w = choose|w: Wire| #[trigger]
            h.wires.contains(w) && w.out_pin.node == a && w.in_pin.node == b && h.has_out_pin(
                w.out_pin,
            );
        assert(g.wires.contains(w));
    }
    assert forall|a: NodeId, b: NodeId| #[trigger] h.edge(a, b) implies !h.reaches(b, a) by {
        if h.reaches(b, a) {
            let p = choose|p: Seq<NodeId>| #[trigger] h.walk(p, b, a);
            assert forall|i: int| 0 <= i < p.len() - 1 implies #[trigger] g.edge(p[i], p[i + 1]) by {
                assert(h.edge(p[i], p[i + 1]));
            }
            assert(g.walk(p, b, a));
        }
    }
}

/// A graph whose every edge leads to a node of higher rank has no cycle.
pub proof fn lemma_ranked_is_acyclic(g: Graph, rank: spec_fn(NodeId) -> int)
    requires
        forall|a: NodeId, b: NodeId| #[trigger] g.edge(a, b) ==> rank(a) < rank(b),
    ensures
        g.acyclic(),
{
    assert forall|a: NodeId, b: NodeId| #[trigger] g.edge(a, b) implies !g.reaches(b, a) by {
        if g.reaches(b, a) {
            let s = Set::new(|n: NodeId| rank(b) <= rank(n));
            assert(g.closed(s));
            lemma_closed_holds_reachable(g, s, b, a);
        }
    }
}

} // verus!
