//! The connection editor: the one way to make a wire that cannot close a
//! cycle, and what the editor shows of each node and pin.

use vstd::prelude::*;

use crate::graph::{
    lemma_acyclic_with_wire, lemma_acyclic_within, lemma_closed_holds_reachable,
    lemma_reaches_self, lemma_reaches_step, lemma_reaches_within, lemma_rewired_is_sound, Graph,
    InPinId, NodeId, OutPinId, Wire,
};
use crate::node::Node;
use crate::snarl::{
    graph_of, snarl_connect, snarl_drop_inputs, snarl_get_node, snarl_node_ids, snarl_out_pin,
};
use crate::state::PlayingState;
use crate::store::{in_pin, input_count, out_pin, output_count};

verus! {

/// The systems of the graph editor and of the graph at work.
pub struct NodeEditorPlugin;

impl NodeEditorPlugin {
    /// The editor's window is shown while the player edits.
    pub fn shows_editor(&self, state: PlayingState) -> (active: bool)
        ensures
            active == (state == PlayingState::Editor),
    {
        state == PlayingState::Editor
    }

    /// Events travel through the graph while the player shoots.
    pub fn propagates(&self, state: PlayingState) -> (active: bool)
        ensures
            active == (state == PlayingState::ShootyTime),
    {
        state == PlayingState::ShootyTime
    }
}

/// How a request to connect two pins ended.
#[derive(Debug, Clone, Copy, PartialEq, Eq, Structural)]
pub enum Connection {
    /// The wire was made; it is now the only wire into its input pin.
    Connected,
    /// The wire would have closed a cycle; the graph is as it was.
    Refused,
    /// One of the two nodes does not exist; the graph is as it was.
    Missing,
}

impl Graph {
    /// How the editor answers a request to wire `from` to `to`: a path back
    /// from the target's node to the source's node is the one reason to
    /// refuse a wire between two nodes that exist.
    pub open spec fn connection(self, from: OutPinId, to: InPinId) -> Connection {
        if !(self.nodes.contains_key(from.node) && self.nodes.contains_key(to.node)) {
            Connection::Missing
        } else if self.reaches(to.node, from.node) {
            Connection::Refused
        } else {
            Connection::Connected
        }
    }

    /// The graph after the editor has handled a request to wire `from` to
    /// `to`.
    pub open spec fn connected(self, from: OutPinId, to: InPinId) -> Graph {
        if self.connection(from, to) is Connected {
            self.rewired(from, to)
        } else {
            self
        }
    }

    /// The graph after the editor has handled the requests one after the
    /// other.
    pub open spec fn connected_all(self, requests: Seq<(OutPinId, InPinId)>) -> Graph
        decreases requests.len(),
    {
        if requests.len() == 0 {
            self
        } else {
            let last = requests[requests.len() - 1];
            self.connected_all(requests.drop_last()).connected(last.0, last.1)
        }
    }
}

/// What the editor shows of a pin.
#[derive(Debug, Clone, Copy, PartialEq, Eq)]
pub struct PinView {
    /// The label beside the pin; none where the pin does not exist.
    pub label: Option<&'static str>,
    /// Whether a wire ends or starts at the pin.
    pub connected: bool,
}

/// The editor's view of the graph, and its rule for new wires.
pub struct Viewer;

/// The node exists and its outgoing wires have been followed.
spec fn visited(g: Graph, unvisited: Seq<NodeId>, id: NodeId) -> bool {
    g.nodes.contains_key(id) && !unvisited.contains(id)
}

/// The search needs not look at the node again: it was visited, or it is
/// missing and is not the goal.
spec fn settled(g: Graph, unvisited: Seq<NodeId>, goal: NodeId, id: NodeId) -> bool {
    visited(g, unvisited, id) || (!g.nodes.contains_key(id) && id != goal)
}

proof fn lemma_remove_distinct(s: Seq<NodeId>, k: int)
    requires
        s.no_duplicates(),
        0 <= k < s.len(),
    ensures
        s.remove(k).no_duplicates(),
        forall|id: NodeId| s.remove(k).contains(id) <==> (s.contains(id) && id != s[k]),
{
    let r = s.remove(k);
    assert forall|i: int, j: int| 0 <= i < r.len() && 0 <= j < r.len() && i != j implies r[i]
        != r[j] by {
        let si = if i < k { i } else { i + 1 };
        let sj = if j < k { j } else { j + 1 };
        assert(r[i] == s[si] && r[j] == s[sj]);
    }
    assert forall|id: NodeId| r.contains(id) <==> (s.contains(id) && id != s[k]) by {
        if r.contains(id) {
            let i = choose|i: int| 0 <= i < r.len() && r[i] == id;
            let si = if i < k { i } else { i + 1 };
            assert(s[si] == id);
        }
        if s.contains(id) && id != s[k] {
            let i = choose|i: int| 0 <= i < s.len() && s[i] == id;
            let ri = if i < k { i } else { i - 1 };
            assert(r[ri] == id);
        }
    }
}

/// Where `id` stands in `ids`, if it does.
fn position(ids: &Vec<NodeId>, id: NodeId) -> (at: Option<usize>)
    ensures
        match at {
            Some(k) => k < ids.len() && ids[k as int] == id,
            None => !ids@.contains(id),
        },
{
    let mut k: usize = 0;
    while k < ids.len()
        invariant
            k <= ids.len(),
            forall|i: int| 0 <= i < k ==> ids[i] != id,
        decreases ids.len() - k,
    {
        if ids[k] == id {
            return Some(k);
        }
        k += 1;
    }
    None
}

impl Viewer {
    /// Title of a node of this kind.
    pub fn title(&mut self, node: &Node) -> (title: String)
        ensures
            title@ == node.title_text(),
    {
        match node {
            Node::OnShoot => "On shoot".to_owned(),
            Node::SpawnBullet => "Spawn Bullet".to_owned(),
            Node::Explosion => "Spawn Explosion".to_owned(),
            Node::Repeating => "Repeat".to_owned(),
            Node::DealDmg => "Dmg".to_owned(),
            Node::Spread => "Spread".to_owned(),
        }
    }

    /// Number of output pins of a node of this kind.
    pub fn outputs(&mut self, node: &Node) -> (count: usize)
        ensures
            count == node.output_count(),
    {
        output_count(*node)
    }

    /// Number of input pins of a node of this kind.
    pub fn inputs(&mut self, node: &Node) -> (count: usize)
        ensures
            count == node.input_count(),
    {
        input_count(*node)
    }

    /// Label and occupancy of an input pin.
    pub fn show_input(&mut self, pin: InPinId, snarl: &egui_snarl::Snarl<Node>) -> (shown: PinView)
        ensures
            shown.connected == graph_of(*snarl).in_wired(pin),
            match shown.label {
                Some(label) => graph_of(*snarl).has_in_pin(pin) && label@
                    == graph_of(*snarl).nodes[pin.node].input_label(),
                None => !graph_of(*snarl).has_in_pin(pin),
            },
    {
        let label = match snarl_get_node(snarl, pin.node) {
            Some(node) => if pin.input < self.inputs(&node) {
                Some(
                    match node {
                        Node::OnShoot => "",
                        Node::SpawnBullet => "Spawn",
                        Node::Explosion => "Spawn",
                        Node::Repeating => "Event",
                        Node::DealDmg => "Target",
                        Node::Spread => "",
                    },
                )
            } else {
                None
            },
            None => None,
        };
        let remotes = in_pin(snarl, pin);
        proof {
            let g = graph_of(*snarl);
            if remotes.len() > 0 {
                assert(remotes@.to_set().contains(remotes@[0]));
                assert(g.wires.contains(Wire { out_pin: remotes@[0], in_pin: pin }));
            }
            if g.in_wired(pin) {
                let w = choose|w: Wire| #[trigger] g.wires.contains(w) && w.in_pin == pin;
                assert(w == Wire { out_pin: w.out_pin, in_pin: pin });
                assert(remotes@.to_set().contains(w.out_pin));
            }
        }
        PinView { label, connected: remotes.len() > 0 }
    }

    /// Label and occupancy of an output pin.
    pub fn show_output(&mut self, pin: OutPinId, snarl: &egui_snarl::Snarl<Node>) -> (shown:
        PinView)
        ensures
            shown.connected == graph_of(*snarl).out_wired(pin),
            match shown.label {
                Some(label) => graph_of(*snarl).has_out_pin(pin) && label@
                    == graph_of(*snarl).nodes[pin.node].output_label(pin.output),
                None => !graph_of(*snarl).has_out_pin(pin),
            },
    {
        let label = match snarl_get_node(snarl, pin.node) {
            Some(node) => if pin.output < self.outputs(&node) {
                Some(
                    match node {
                        Node::OnShoot => "Hit",
                        Node::SpawnBullet => if pin.output == 0 {
                            "Hit"
                        } else {
                            "Despawned"
                        },
                        Node::Explosion => "Hit",
                        Node::Repeating => "Event",
                        Node::DealDmg => "Fatal",
                        Node::Spread => "",
                    },
                )
            } else {
                None
            },
            None => None,
        };
        let remotes = out_pin(snarl, pin);
        proof {
            let g = graph_of(*snarl);
            if remotes.len() > 0 {
                assert(remotes@.to_set().contains(remotes@[0]));
                assert(g.wires.contains(Wire { out_pin: pin, in_pin: remotes@[0] }));
            }
            if g.out_wired(pin) {
                let w = choose|w: Wire| #[trigger] g.wires.contains(w) && w.out_pin == pin;
                assert(w == Wire { out_pin: pin, in_pin: w.in_pin });
                assert(remotes@.to_set().contains(w.in_pin));
            }
        }
        PinView { label, connected: remotes.len() > 0 }
    }

    /// Whether `goal` can be reached from `start` along the wires: a
    /// depth-first search that follows the wires of each node once.
    #[verifier::loop_isolation(false)]
    pub fn reaches(&mut self, snarl: &egui_snarl::Snarl<Node>, start: NodeId, goal: NodeId) -> (found:
        bool)
        ensures
            found == graph_of(*snarl).reaches(start, goal),
    {
        let ghost g = graph_of(*snarl);
        let mut unvisited = snarl_node_ids(snarl);
        let mut stack: Vec<NodeId> = Vec::new();
        stack.push(start);
        proof {
            lemma_reaches_self(g, start);
            assert(stack@[0] == start);
        }
        while stack.len() > 0
            invariant
                unvisited@.no_duplicates(),
                forall|id: NodeId| unvisited@.contains(id) ==> g.nodes.contains_key(id),
                forall|i: int| 0 <= i < stack.len() ==> g.reaches(start, #[trigger] stack[i]),
                forall|id: NodeId| visited(g, unvisited@, id) ==> id != goal,
                stack@.contains(start) || settled(g, unvisited@, goal, start),
                forall|a: NodeId, b: NodeId|
                    visited(g, unvisited@, a) && #[trigger] g.edge(a, b) ==> stack@.contains(b)
                        || settled(g, unvisited@, goal, b),
            decreases unvisited.len(), stack.len(),
        {
            let ghost before = stack@;
            let ghost left = unvisited@;
            let node_id = stack.pop().unwrap();
            let ghost base = stack@;
            assert(forall|id: NodeId|
                before.contains(id) ==> id == node_id || base.contains(id)) by {
                assert forall|id: NodeId| before.contains(id) implies id == node_id
                    || base.contains(id) by {
                    let i = choose|i: int| 0 <= i < before.len() && before[i] == id;
                    if i < base.len() {
                        assert(base[i] == id);
                    }
                }
            }
            assert(g.reaches(start, node_id)) by {
                assert(before[before.len() - 1] == node_id);
            }
            if node_id == goal {
                return true;
            }
            let at = position(&unvisited, node_id);
            let node = snarl_get_node(snarl, node_id);
            if let (Some(k), Some(kind)) = (at, node) {
                let count = self.outputs(&kind);
                let mut output: usize = 0;
                while output < count
                    invariant
                        output <= count,
                        unvisited@ == left,
                        stack.len() >= base.len(),
                        forall|i: int| 0 <= i < base.len() ==> stack[i] == base[i],
                        forall|i: int| 0 <= i < stack.len() ==> g.reaches(start, #[trigger] stack[i]),
                        forall|w: Wire| #[trigger]
                            g.wires.contains(w) && w.out_pin.node == node_id && w.out_pin.output
                                < output ==> stack@.contains(w.in_pin.node),
                    decreases count - output,
                {
                    let pin = OutPinId { node: node_id, output };
                    let remotes = snarl_out_pin(snarl, pin);
                    let mut next: usize = 0;
                    while next < remotes.len()
                        invariant
                            next <= remotes.len(),
                            unvisited@ == left,
                            stack.len() >= base.len(),
                            forall|i: int| 0 <= i < base.len() ==> stack[i] == base[i],
                            forall|i: int|
                                0 <= i < stack.len() ==> g.reaches(start, #[trigger] stack[i]),
                            forall|w: Wire| #[trigger]
                                g.wires.contains(w) && w.out_pin.node == node_id
                                    && w.out_pin.output < output ==> stack@.contains(
                                    w.in_pin.node,
                                ),
                            forall|i: int|
                                0 <= i < next ==> stack@.contains((#[trigger] remotes[i]).node),
                        decreases remotes.len() - next,
                    {
                        let remote = remotes[next];
                        let ghost grown = stack@;
                        proof {
                            assert(remotes@.contains(remote));
                            let w = Wire { out_pin: pin, in_pin: remote };
                            assert(g.wires.contains(w));
                            assert(g.edge(node_id, remote.node));
                            lemma_reaches_step(g, start, node_id, remote.node);
                        }
                        stack.push(remote.node);
                        proof {
                            assert(stack@[grown.len() as int] == remote.node);
                            assert forall|id: NodeId| grown.contains(id) implies stack@.contains(
                                id,
                            ) by {
                                let i = choose|i: int| 0 <= i < grown.len() && grown[i] == id;
                                assert(stack@[i] == id);
                            }
                        }
                        next += 1;
                    }
                    proof {
                        assert forall|w: Wire| #[trigger]
                            g.wires.contains(w) && w.out_pin.node == node_id && w.out_pin.output
                                < output + 1 implies stack@.contains(w.in_pin.node) by {
                            if w.out_pin.output == output {
                                assert(w == Wire { out_pin: pin, in_pin: w.in_pin });
                                assert(remotes@.contains(w.in_pin));
                                let i = choose|i: int|
                                    0 <= i < remotes.len() && remotes[i] == w.in_pin;
                                assert(stack@.contains(remotes[i].node));
                            }
                        }
                    }
                    output += 1;
                }
                unvisited.remove(k);
                proof {
                    lemma_remove_distinct(left, k as int);
                    assert forall|id: NodeId| unvisited@.contains(id) implies g.nodes.contains_key(
                        id,
                    ) by {
                        assert(left.contains(id));
                    }
                    assert forall|id: NodeId| visited(g, unvisited@, id) implies id != goal by {
                        if id != node_id {
                            assert(visited(g, left, id));
                        }
                    }
                    assert forall|id: NodeId| base.contains(id) implies stack@.contains(id) by {
                        let i = choose|i: int| 0 <= i < base.len() && base[i] == id;
                        assert(stack[i] == id);
                    }
                    assert(visited(g, unvisited@, node_id));
                    assert forall|a: NodeId, b: NodeId|
                        visited(g, unvisited@, a) && #[trigger] g.edge(a, b) implies stack@.contains(
                        b,
                    ) || settled(g, unvisited@, goal, b) by {
                        if a == node_id {
                            let w = choose|w: Wire| #[trigger]
                                g.wires.contains(w) && w.out_pin.node == a && w.in_pin.node == b
                                    && g.has_out_pin(w.out_pin);
                            assert(stack@.contains(w.in_pin.node));
                        } else {
                            assert(visited(g, left, a));
                        }
                    }
                }
            } else {
                proof {
                    assert(settled(g, unvisited@, goal, node_id));
                }
            }
        }
        proof {
            let done = Set::new(|id: NodeId| settled(g, unvisited@, goal, id));
            assert(stack@ =~= Seq::empty());
            assert(g.closed(done)) by {
                assert forall|a: NodeId, b: NodeId|
                    done.contains(a) && #[trigger] g.edge(a, b) implies done.contains(b) by {
                    assert(visited(g, unvisited@, a));
                }
            }
            if g.reaches(start, goal) {
                lemma_closed_holds_reachable(g, done, start, goal);
            }
        }
        false
    }

    /// Wires `from` to `to` unless that would close a cycle. The wire is
    /// refused where `to`'s node already reaches `from`'s node, and that
    /// includes every wire from a node to itself; nothing else refuses a
    /// wire between two nodes that exist. A wire that is made takes the
    /// place of whatever was wired into `to` before.
    pub fn connect(
        &mut self,
        from: OutPinId,
        to: InPinId,
        snarl: &mut egui_snarl::Snarl<Node>,
    ) -> (outcome: Connection)
        ensures
            outcome == graph_of(*old(snarl)).connection(from, to),
            graph_of(*final(snarl)) == graph_of(*old(snarl)).connected(from, to),
            graph_of(*old(snarl)).wf() && graph_of(*old(snarl)).acyclic() ==> graph_of(
                *final(snarl),
            ).wf() && graph_of(*final(snarl)).acyclic(),
    {
        proof {
            if graph_of(*snarl).wf() && graph_of(*snarl).acyclic() {
                lemma_connected_is_sound(graph_of(*snarl), from, to);
            }
        }
        if snarl_get_node(snarl, from.node).is_none() || snarl_get_node(snarl, to.node).is_none() {
            return Connection::Missing;
        }
        if self.reaches(snarl, to.node, from.node) {
            return Connection::Refused;
        }
        snarl_drop_inputs(snarl, to);
        snarl_connect(snarl, from, to);
        Connection::Connected
    }
}

/// Whatever is asked of the editor, a graph without cycles stays without
/// cycles, and its wires keep joining nodes that exist.
pub proof fn lemma_connected_is_sound(g: Graph, from: OutPinId, to: InPinId)
    requires
        g.wf(),
        g.acyclic(),
    ensures
        g.connected(from, to).wf(),
        g.connected(from, to).acyclic(),
{
    if g.connection(from, to) is Connected {
        let cut = g.without_inputs(to);
        lemma_acyclic_within(cut, g);
        if cut.reaches(to.node, from.node) {
            lemma_reaches_within(cut, g, to.node, from.node);
        }
        lemma_acyclic_with_wire(cut, from, to);
        lemma_rewired_is_sound(g, from, to);
    }
}

/// However many requests the editor handles, and in whatever order, a graph
/// without cycles stays without cycles.
pub proof fn lemma_connected_all_is_sound(g: Graph, requests: Seq<(OutPinId, InPinId)>)
    requires
        g.wf(),
        g.acyclic(),
    ensures
        g.connected_all(requests).wf(),
        g.connected_all(requests).acyclic(),
    decreases requests.len(),
{
    if requests.len() > 0 {
        let last = requests[requests.len() - 1];
        lemma_connected_all_is_sound(g, requests.drop_last());
        lemma_connected_is_sound(g.connected_all(requests.drop_last()), last.0, last.1);
    }
}

/// A wire from a node to one of its own inputs is never made.
pub proof fn lemma_self_loop_refused(g: Graph, from: OutPinId, to: InPinId)
    requires
        from.node == to.node,
    ensures
        !(g.connection(from, to) is Connected),
        g.connected(from, to) == g,
{
    lemma_reaches_self(g, to.node);
}

/// After a wire into `to` is made, it is the only wire into `to`: whatever
/// was wired into `to` before is gone.
pub proof fn lemma_last_connection_wins(g: Graph, first: OutPinId, second: OutPinId, to: InPinId)
    requires
        g.connected(first, to).connection(second, to) is Connected,
    ensures
        g.connected(first, to).connected(second, to).sources_of(to) == Set::<OutPinId>::empty().insert(second),
{
    let h = g.connected(first, to).connected(second, to);
    assert(h.wires.contains(Wire { out_pin: second, in_pin: to }));
    assert(h.sources_of(to) =~= Set::<OutPinId>::empty().insert(second));
}

/// A wire that is made joins the wires that its output pin has already:
/// an output pin fans out to as many input pins as are wired to it.
pub proof fn lemma_connection_adds_to_fan_out(g: Graph, from: OutPinId, to: InPinId)
    requires
        g.connection(from, to) is Connected,
    ensures
        g.connected(from, to).remotes_of(from) == g.remotes_of(from).insert(to),
{
    let h = g.connected(from, to);
    assert forall|pin: InPinId| h.remotes_of(from).contains(pin) <==> g.remotes_of(from).insert(
        to,
    ).contains(pin) by {
        let w = Wire { out_pin: from, in_pin: pin };
        if pin != to {
            assert(h.wires.contains(w) <==> g.wires.contains(w));
        }
    }
    assert(h.remotes_of(from) =~= g.remotes_of(from).insert(to));
}

/// A wire that is made takes the input pin from every other output pin, and
/// takes nothing else from it.
pub proof fn lemma_connection_frees_other_outputs(
    g: Graph,
    from: OutPinId,
    to: InPinId,
    other: OutPinId,
)
    requires
        g.connection(from, to) is Connected,
        other != from,
    ensures
        g.connected(from, to).remotes_of(other) == g.remotes_of(other).remove(to),
{
    let h = g.connected(from, to);
    assert forall|pin: InPinId| h.remotes_of(other).contains(pin) <==> g.remotes_of(other).remove(
        to,
    ).contains(pin) by {
        let w = Wire { out_pin: other, in_pin: pin };
        assert(h.wires.contains(w) <==> (g.wires.contains(w) && pin != to));
    }
    assert(h.remotes_of(other) =~= g.remotes_of(other).remove(to));
}

} // verus!
