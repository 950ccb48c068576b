//! The graph store: lookup of nodes and pins, insertion of nodes, and the
//! unchecked mutation of wires. Nothing here looks for cycles.

use vstd::prelude::*;

use crate::graph::{
    lemma_acyclic_within, lemma_ranked_is_acyclic, lemma_rewired_is_sound,
    lemma_with_node_is_sound, Graph, InPinId, NodeId, OutPinId, Wire,
};
use crate::node::Node;
use crate::snarl::{
    graph_of, snarl_connect, snarl_drop_inputs, snarl_get_node, snarl_in_pin, snarl_insert_node,
    snarl_new, snarl_out_pin,
};

verus! {

/// Number of output pins of a node of this kind.
pub fn output_count(kind: Node) -> (count: usize)
    ensures
        count == kind.output_count(),
{
    match kind {
        Node::SpawnBullet | Node::Spread => 2,
        Node::Explosion | Node::Repeating | Node::DealDmg | Node::OnShoot => 1,
    }
}

/// Number of input pins of a node of this kind.
pub fn input_count(kind: Node) -> (count: usize)
    ensures
        count == kind.input_count(),
{
    match kind {
        Node::OnShoot => 0,
        Node::SpawnBullet | Node::Explosion | Node::Repeating | Node::DealDmg | Node::Spread => 1,
    }
}

/// The kind of a node, or nothing where the identifier names no node.
pub fn get_node(snarl: &egui_snarl::Snarl<Node>, id: NodeId) -> (node: Option<Node>)
    ensures
        node == if graph_of(*snarl).nodes.contains_key(id) {
            Some(graph_of(*snarl).nodes[id])
        } else {
            None
        },
{
    snarl_get_node(snarl, id)
}

/// Stores a node of the given kind, drawn at `(x, y)`, under a fresh
/// identifier. A sound graph without cycles stays so.
pub fn insert_node(snarl: &mut egui_snarl::Snarl<Node>, kind: Node, x: i16, y: i16) -> (id: NodeId)
    ensures
        !graph_of(*old(snarl)).nodes.contains_key(id),
        graph_of(*final(snarl)) == graph_of(*old(snarl)).with_node(id, kind, x as int, y as int),
        graph_of(*old(snarl)).wf() && graph_of(*old(snarl)).acyclic() ==> graph_of(
            *final(snarl),
        ).wf() && graph_of(*final(snarl)).acyclic(),
{
    let id = snarl_insert_node(snarl, x, y, kind);
    proof {
        let g = graph_of(*old(snarl));
        if g.wf() && g.acyclic() {
            lemma_with_node_is_sound(g, id, kind, x as int, y as int);
        }
    }
    id
}

/// Whether the output pin exists: its node does, and has that many outputs.
pub fn has_out_pin(snarl: &egui_snarl::Snarl<Node>, pin: OutPinId) -> (found: bool)
    ensures
        found == graph_of(*snarl).has_out_pin(pin),
{
    match snarl_get_node(snarl, pin.node) {
        Some(kind) => pin.output < output_count(kind),
        None => false,
    }
}

/// Whether the input pin exists: its node does, and has that many inputs.
pub fn has_in_pin(snarl: &egui_snarl::Snarl<Node>, pin: InPinId) -> (found: bool)
    ensures
        found == graph_of(*snarl).has_in_pin(pin),
{
    match snarl_get_node(snarl, pin.node) {
        Some(kind) => pin.input < input_count(kind),
        None => false,
    }
}

/// The input pins wired to an output pin, each once; none where the pin is
/// not connected.
pub fn out_pin(snarl: &egui_snarl::Snarl<Node>, pin: OutPinId) -> (remotes: Vec<InPinId>)
    ensures
        remotes@.no_duplicates(),
        remotes@.to_set() == graph_of(*snarl).remotes_of(pin),
{
    let remotes = snarl_out_pin(snarl, pin);
    assert(remotes@.to_set() =~= graph_of(*snarl).remotes_of(pin));
    remotes
}

/// The output pins wired to an input pin, each once; none where the pin is
/// not connected.
pub fn in_pin(snarl: &egui_snarl::Snarl<Node>, pin: InPinId) -> (remotes: Vec<OutPinId>)
    ensures
        remotes@.no_duplicates(),
        remotes@.to_set() == graph_of(*snarl).sources_of(pin),
{
    let remotes = snarl_in_pin(snarl, pin);
    assert(remotes@.to_set() =~= graph_of(*snarl).sources_of(pin));
    remotes
}

/// Removes every wire that ends in `pin`. Where the pin's node is missing
/// nothing is done. Removing wires breaks nothing: a sound graph stays
/// sound, and a graph without cycles stays without cycles.
pub fn drop_inputs(snarl: &mut egui_snarl::Snarl<Node>, pin: InPinId)
    ensures
        graph_of(*final(snarl)) == if graph_of(*old(snarl)).nodes.contains_key(pin.node) {
            graph_of(*old(snarl)).without_inputs(pin)
        } else {
            graph_of(*old(snarl))
        },
        graph_of(*old(snarl)).wf() ==> graph_of(*final(snarl)).wf(),
        graph_of(*old(snarl)).acyclic() ==> graph_of(*final(snarl)).acyclic(),
{
    if snarl_get_node(snarl, pin.node).is_some() {
        snarl_drop_inputs(snarl, pin);
        proof {
            if graph_of(*old(snarl)).acyclic() {
                lemma_acyclic_within(graph_of(*snarl), graph_of(*old(snarl)));
            }
        }
    }
}

/// Makes the wire from `from` the only wire into `to`, whatever the two
/// indices are and without looking for cycles. Where one of the two nodes
/// is missing nothing is done, and the result says so. A sound graph stays
/// sound; it may get a cycle.
pub fn connect(snarl: &mut egui_snarl::Snarl<Node>, from: OutPinId, to: InPinId) -> (done: bool)
    ensures
        done == (graph_of(*old(snarl)).nodes.contains_key(from.node) && graph_of(
            *old(snarl),
        ).nodes.contains_key(to.node)),
        graph_of(*final(snarl)) == if done {
            graph_of(*old(snarl)).rewired(from, to)
        } else {
            graph_of(*old(snarl))
        },
        graph_of(*old(snarl)).wf() ==> graph_of(*final(snarl)).wf(),
{
    if snarl_get_node(snarl, from.node).is_some() && snarl_get_node(snarl, to.node).is_some() {
        snarl_drop_inputs(snarl, to);
        snarl_connect(snarl, from, to);
        proof {
            if graph_of(*old(snarl)).wf() {
                lemma_rewired_is_sound(graph_of(*old(snarl)), from, to);
            }
        }
        true
    } else {
        false
    }
}

/// The graph together with the node at which a shot enters it.
pub struct SnarlContainer {
    pub snarl: egui_snarl::Snarl<Node>,
    pub shoot_trigger: NodeId,
}

impl View for SnarlContainer {
    type V = Graph;

    open spec fn view(&self) -> Graph {
        graph_of(self.snarl)
    }
}

/// The graph that a session starts with: a shot spawns a bullet, and the
/// bullet's end, its second output, deals damage; two more bullet nodes and
/// a spread node stand unconnected.
pub open spec fn is_seed(
    g: Graph,
    shoot: NodeId,
    bullet: NodeId,
    second: NodeId,
    third: NodeId,
    spread: NodeId,
    dmg: NodeId,
) -> bool {
    &&& seq![shoot, bullet, second, third, spread, dmg].no_duplicates()
    &&& g.nodes == Map::<NodeId, Node>::empty().insert(shoot, Node::OnShoot).insert(
        bullet,
        Node::SpawnBullet,
    ).insert(second, Node::SpawnBullet).insert(third, Node::SpawnBullet).insert(
        spread,
        Node::Spread,
    ).insert(dmg, Node::DealDmg)
    &&& g.places == Map::<NodeId, (int, int)>::empty().insert(shoot, (0, 0)).insert(
        bullet,
        (150, 0),
    ).insert(second, (150, 0)).insert(third, (150, 0)).insert(spread, (-150, 0)).insert(
        dmg,
        (150, 100),
    )
    &&& g.wires == Set::<Wire>::empty().insert(
        Wire {
            out_pin: OutPinId { node: shoot, output: 0 },
            in_pin: InPinId { node: bullet, input: 0 },
        },
    ).insert(
        Wire {
            out_pin: OutPinId { node: bullet, output: 1 },
            in_pin: InPinId { node: dmg, input: 0 },
        },
    )
}

/// The starting graph has no cycle, and each of its wires joins two nodes
/// that exist.
pub proof fn lemma_seed_is_sound(
    g: Graph,
    shoot: NodeId,
    bullet: NodeId,
    second: NodeId,
    third: NodeId,
    spread: NodeId,
    dmg: NodeId,
)
    requires
        is_seed(g, shoot, bullet, second, third, spread, dmg),
    ensures
        g.wf(),
        g.acyclic(),
{
    let ids = seq![shoot, bullet, second, third, spread, dmg];
    assert(ids[0] == shoot && ids[1] == bullet && ids[2] == second && ids[3] == third && ids[4]
        == spread && ids[5] == dmg);
    let rank = |n: NodeId|
        if n == bullet {
            1int
        } else if n == dmg {
            2int
        } else {
            0int
        };
    assert forall|a: NodeId, b: NodeId| #[trigger] g.edge(a, b) implies rank(a) < rank(b) by {
        let w = choose|w: Wire| #[trigger]
            g.wires.contains(w) && w.out_pin.node == a && w.in_pin.node == b && g.has_out_pin(
                w.out_pin,
            );
        assert(g.wires.contains(w));
    }
    lemma_ranked_is_acyclic(g, rank);
}

impl Default for SnarlContainer {
    /// Builds the starting graph.
    fn default() -> (container: Self)
        ensures
            exists|bullet: NodeId, second: NodeId, third: NodeId, spread: NodeId, dmg: NodeId|
                #[trigger] is_seed(
                    container@,
                    container.shoot_trigger,
                    bullet,
                    second,
                    third,
                    spread,
                    dmg,
                ),
            container@.wf(),
            container@.acyclic(),
    {
        let mut snarl = snarl_new();

        let shoot = insert_node(&mut snarl, Node::OnShoot, 0, 0);
        let bullet = insert_node(&mut snarl, Node::SpawnBullet, 150, 0);
        let second = insert_node(&mut snarl, Node::SpawnBullet, 150, 0);
        let third = insert_node(&mut snarl, Node::SpawnBullet, 150, 0);
        let spread = insert_node(&mut snarl, Node::Spread, -150, 0);
        let dmg = insert_node(&mut snarl, Node::DealDmg, 150, 100);

        let ghost ids = seq![shoot, bullet, second, third, spread, dmg];
        assert(ids.no_duplicates()) by {
            assert(ids[0] == shoot && ids[1] == bullet && ids[2] == second && ids[3] == third
                && ids[4] == spread && ids[5] == dmg);
        }

        connect(
            &mut snarl,
            OutPinId { node: shoot, output: 0 },
            InPinId { node: bullet, input: 0 },
        );
        connect(&mut snarl, OutPinId { node: bullet, output: 1 }, InPinId { node: dmg, input: 0 });

        let container = SnarlContainer { snarl, shoot_trigger: shoot };
        proof {
            assert(container@.wires =~= Set::<Wire>::empty().insert(
                Wire {
                    out_pin: OutPinId { node: shoot, output: 0 },
                    in_pin: InPinId { node: bullet, input: 0 },
                },
            ).insert(
                Wire {
                    out_pin: OutPinId { node: bullet, output: 1 },
                    in_pin: InPinId { node: dmg, input: 0 },
                },
            ));
            assert(is_seed(
                container@,
                container.shoot_trigger,
                bullet,
                second,
                third,
                spread,
                dmg,
            ));
            lemma_seed_is_sound(container@, shoot, bullet, second, third, spread, dmg);
        }
        container
    }
}

} // verus!
