//! Propagation of events through the graph, one layer per tick.
//!
//! An output that fires activates the nodes wired to it; an activated node
//! is interpreted by its kind and asks something of the world, or fires its
//! own outputs. What one tick produces is read by the next tick and not
//! before.

use vstd::pervasive::unreached;
use vstd::prelude::*;

use crate::events::{NodeEventData, NodeOutputTrigger, NodeTrigger, WorldEvent};
use crate::graph::{Graph, InPinId, NodeId, OutPinId, Wire};
use crate::node::Node;
use crate::snarl::{graph_of, snarl_get_node, snarl_out_pin};
use crate::store::output_count;

verus! {

/// The activation that a payload causes at the node of an input pin.
pub open spec fn activation(data: NodeEventData, pin: InPinId) -> NodeTrigger {
    NodeTrigger { data, node: pin.node }
}

/// The activations that a payload causes at the nodes of these input pins,
/// in their order.
pub open spec fn fan_out(data: NodeEventData, remotes: Seq<InPinId>) -> Seq<NodeTrigger> {
    remotes.map_values(|pin: InPinId| activation(data, pin))
}

/// The outputs of a node of this kind, each fired with the same payload.
pub open spec fn refire(data: NodeEventData, node: NodeId, kind: Node) -> Seq<NodeOutputTrigger> {
    Seq::new(
        kind.output_count(),
        |i: int| NodeOutputTrigger { data, node, output_index: i as usize },
    )
}

impl Graph {
    /// `out` is what one fired output causes: one activation for each input
    /// pin wired to it, in some order, each with the payload that was fired.
    pub open spec fn fans_out(self, fired: NodeOutputTrigger, out: Seq<NodeTrigger>) -> bool {
        exists|remotes: Seq<InPinId>|
            remotes.no_duplicates() && remotes.to_set() == self.remotes_of(fired.pin())
                && #[trigger] fan_out(fired.data, remotes) == out
    }

    /// `out` is what the fired outputs cause, one after the other: what the
    /// first causes comes first.
    pub open spec fn activates(self, fired: Seq<NodeOutputTrigger>, out: Seq<NodeTrigger>) -> bool
        decreases fired.len(),
    {
        if fired.len() == 0 {
            out.len() == 0
        } else {
            exists|k: int|
                0 <= k <= out.len() && self.activates(
                    fired.drop_last(),
                    #[trigger] out.subrange(0, k),
                ) && self.fans_out(fired[fired.len() - 1], out.subrange(k, out.len() as int))
        }
    }

    /// The activated node is of a kind that the interpreter does not know.
    pub open spec fn rejects(self, trigger: NodeTrigger) -> bool {
        self.nodes.contains_key(trigger.node) && !self.nodes[trigger.node].interpreted()
    }

    /// What an activated node asks of the world. A bullet node asks for a
    /// bullet; a damage node asks for damage where the payload names a
    /// target; a missing node and every other kind ask for nothing.
    pub open spec fn world_of(self, trigger: NodeTrigger) -> Seq<WorldEvent> {
        if !self.nodes.contains_key(trigger.node) {
            seq![]
        } else {
            match self.nodes[trigger.node] {
                Node::SpawnBullet => seq![
                    WorldEvent::SpawnBullet {
                        loc: trigger.data.loc,
                        dir: trigger.data.dir,
                        id: trigger.node,
                    },
                ],
                Node::DealDmg => if trigger.data.target is Some {
                    seq![WorldEvent::DealDmg { target: trigger.data.target, id: trigger.node }]
                } else {
                    seq![]
                },
                _ => seq![],
            }
        }
    }

    /// The outputs that an activated node fires in turn: a spread node
    /// fires its own, every other node none.
    pub open spec fn refired_of(self, trigger: NodeTrigger) -> Seq<NodeOutputTrigger> {
        if self.nodes.contains_key(trigger.node) && self.nodes[trigger.node] is Spread {
            refire(trigger.data, trigger.node, Node::Spread)
        } else {
            seq![]
        }
    }

    /// What the activated nodes ask of the world, in the order of their
    /// activation.
    pub open spec fn world_of_all(self, triggers: Seq<NodeTrigger>) -> Seq<WorldEvent>
        decreases triggers.len(),
    {
        if triggers.len() == 0 {
            seq![]
        } else {
            self.world_of_all(triggers.drop_last()) + self.world_of(triggers[triggers.len() - 1])
        }
    }

    /// The outputs that the activated nodes fire in turn, in the order of
    /// their activation.
    pub open spec fn refired_of_all(self, triggers: Seq<NodeTrigger>) -> Seq<NodeOutputTrigger>
        decreases triggers.len(),
    {
        if triggers.len() == 0 {
            seq![]
        } else {
            self.refired_of_all(triggers.drop_last()) + self.refired_of(
                triggers[triggers.len() - 1],
            )
        }
    }

    /// The interpreter has a rule for every one of the activated nodes.
    pub open spec fn accepts_all(self, triggers: Seq<NodeTrigger>) -> bool {
        forall|i: int| 0 <= i < triggers.len() ==> !self.rejects(#[trigger] triggers[i])
    }

    /// The activation at `at` is the first that the interpreter rejects.
    pub open spec fn first_rejected(self, triggers: Seq<NodeTrigger>, at: int) -> bool {
        &&& 0 <= at < triggers.len()
        &&& self.rejects(triggers[at])
        &&& forall|i: int| 0 <= i < at ==> !self.rejects(#[trigger] triggers[i])
    }
}

/// An activated node of a kind that the interpreter does not know.
#[derive(Clone, Copy, Debug, PartialEq, Eq)]
pub struct Unsupported {
    pub node: NodeId,
    pub kind: Node,
}

/// What the interpretation of activated nodes gives: requests to the world,
/// and outputs that fire in turn.
#[derive(Debug, PartialEq)]
pub struct Interpreted {
    pub world: Vec<WorldEvent>,
    pub fired: Vec<NodeOutputTrigger>,
}

/// The activations that a payload causes at the nodes of these input pins.
pub fn activations(data: NodeEventData, remotes: &Vec<InPinId>) -> (out: Vec<NodeTrigger>)
    ensures
        out@ == fan_out(data, remotes@),
{
    let mut out: Vec<NodeTrigger> = Vec::new();
    let mut next: usize = 0;
    while next < remotes.len()
        invariant
            next <= remotes.len(),
            out.len() == next,
            forall|i: int| 0 <= i < next ==> out[i] == activation(data, remotes[i]),
        decreases remotes.len() - next,
    {
        out.push(NodeTrigger { data, node: remotes[next].node });
        next += 1;
    }
    assert(out@ =~= fan_out(data, remotes@));
    out
}

/// The outputs of a node of this kind, each fired with the same payload.
pub fn fire_outputs(data: NodeEventData, node: NodeId, kind: Node) -> (out: Vec<NodeOutputTrigger>)
    ensures
        out@ == refire(data, node, kind),
{
    let count = output_count(kind);
    let mut out: Vec<NodeOutputTrigger> = Vec::new();
    let mut output: usize = 0;
    while output < count
        invariant
            output <= count,
            count == kind.output_count(),
            out.len() == output,
            forall|i: int|
                0 <= i < output ==> out[i] == (NodeOutputTrigger {
                    data,
                    node,
                    output_index: i as usize,
                }),
        decreases count - output,
    {
        out.push(NodeOutputTrigger { data, node, output_index: output });
        output += 1;
    }
    assert(out@ =~= refire(data, node, kind));
    out
}

/// Turns outputs that fired into activations: each fired output activates
/// the node of every input pin wired to it, with the payload unchanged. An
/// output that nothing is wired to activates nothing.
pub fn activate_nodes(
    output_triggers: &Vec<NodeOutputTrigger>,
    snarl: &egui_snarl::Snarl<Node>,
) -> (node_triggers: Vec<NodeTrigger>)
    ensures
        graph_of(*snarl).activates(output_triggers@, node_triggers@),
{
    let ghost g = graph_of(*snarl);
    let mut node_triggers: Vec<NodeTrigger> = Vec::new();
    let mut next: usize = 0;
    assert(output_triggers@.take(0) =~= Seq::empty());
    while next < output_triggers.len()
        invariant
            next <= output_triggers.len(),
            g == graph_of(*snarl),
            g.activates(output_triggers@.take(next as int), node_triggers@),
        decreases output_triggers.len() - next,
    {
        let event = output_triggers[next];
        let pin = OutPinId { node: event.node, output: event.output_index };
        let remotes = snarl_out_pin(snarl, pin);
        let mut batch = activations(event.data, &remotes);
        let ghost before = node_triggers@;
        let ghost added = batch@;
        node_triggers.append(&mut batch);
        proof {
            let upto = output_triggers@.take(next + 1);
            let k = before.len() as int;
            assert(upto.drop_last() =~= output_triggers@.take(next as int));
            assert(upto[upto.len() - 1] == event);
            assert(node_triggers@.subrange(0, k) =~= before);
            assert(node_triggers@.subrange(k, node_triggers@.len() as int) =~= added);
            assert(remotes@.to_set() =~= g.remotes_of(event.pin()));
            assert(fan_out(event.data, remotes@) == added);
            assert(g.fans_out(event, added));
        }
        next += 1;
    }
    assert(output_triggers@.take(next as int) =~= output_triggers@);
    node_triggers
}

/// The first activated node of a kind for which the interpreter has no
/// rule, if there is one. Such an activation must not reach the
/// interpreter: whoever finds one is to stop, loudly.
pub fn first_unsupported(node_triggers: &Vec<NodeTrigger>, snarl: &egui_snarl::Snarl<Node>) -> (found:
    Option<Unsupported>)
    ensures
        match found {
            None => graph_of(*snarl).accepts_all(node_triggers@),
            Some(unsupported) => exists|at: int| #[trigger]
                graph_of(*snarl).first_rejected(node_triggers@, at) && unsupported == (Unsupported {
                    node: node_triggers[at].node,
                    kind: graph_of(*snarl).nodes[node_triggers[at].node],
                }),
        },
{
    let ghost g = graph_of(*snarl);
    let mut next: usize = 0;
    while next < node_triggers.len()
        invariant
            next <= node_triggers.len(),
            g == graph_of(*snarl),
            forall|i: int| 0 <= i < next ==> !g.rejects(#[trigger] node_triggers[i]),
        decreases node_triggers.len() - next,
    {
        let event = node_triggers[next];
        match snarl_get_node(snarl, event.node) {
            Some(Node::Repeating) => {
                assert(g.first_rejected(node_triggers@, next as int));
                return Some(Unsupported { node: event.node, kind: Node::Repeating });
            },
            Some(Node::Explosion) => {
                assert(g.first_rejected(node_triggers@, next as int));
                return Some(Unsupported { node: event.node, kind: Node::Explosion });
            },
            _ => {},
        }
        next += 1;
    }
    None
}

/// Interprets activated nodes by their kind, in the order of activation.
/// An activation of a missing node is passed over, and so is that of a
/// trigger node. No activated node may be of a kind without a rule;
/// `first_unsupported` tells.
pub fn do_world_events(node_triggers: &Vec<NodeTrigger>, snarl: &egui_snarl::Snarl<Node>) -> (done:
    Interpreted)
    requires
        graph_of(*snarl).accepts_all(node_triggers@),
    ensures
        done.world@ == graph_of(*snarl).world_of_all(node_triggers@),
        done.fired@ == graph_of(*snarl).refired_of_all(node_triggers@),
{
    let ghost g = graph_of(*snarl);
    let mut world: Vec<WorldEvent> = Vec::new();
    let mut fired: Vec<NodeOutputTrigger> = Vec::new();
    let mut next: usize = 0;
    assert(node_triggers@.take(0) =~= Seq::empty());
    while next < node_triggers.len()
        invariant
            next <= node_triggers.len(),
            g == graph_of(*snarl),
            g.accepts_all(node_triggers@),
            world@ == g.world_of_all(node_triggers@.take(next as int)),
            fired@ == g.refired_of_all(node_triggers@.take(next as int)),
        decreases node_triggers.len() - next,
    {
        let event = node_triggers[next];
        let ghost world_before = world@;
        let ghost fired_before = fired@;
        assert(!g.rejects(node_triggers@[next as int]));
        match snarl_get_node(snarl, event.node) {
            None => {},
            Some(node) => {
                match node {
                    Node::SpawnBullet => {
                        world.push(
                            WorldEvent::SpawnBullet {
                                loc: event.data.loc,
                                dir: event.data.dir,
                                id: event.node,
                            },
                        );
                    },
                    Node::DealDmg => {
                        if event.data.target.is_some() {
                            world.push(
                                WorldEvent::DealDmg { target: event.data.target, id: event.node },
                            );
                        }
                    },
                    Node::Spread => {
                        let mut again = fire_outputs(event.data, event.node, node);
                        fired.append(&mut again);
                    },
                    Node::OnShoot => {},
                    Node::Repeating | Node::Explosion => unreached(),
                }
            },
        }
        proof {
            let upto = node_triggers@.take(next + 1);
            assert(upto.drop_last() =~= node_triggers@.take(next as int));
            assert(upto[upto.len() - 1] == event);
            assert(world@ =~= world_before + g.world_of(event));
            assert(fired@ =~= fired_before + g.refired_of(event));
        }
        next += 1;
    }
    assert(node_triggers@.take(next as int) =~= node_triggers@);
    Interpreted { world, fired }
}

/// The events that wait for the next tick.
#[derive(Debug, PartialEq)]
pub struct Propagation {
    /// Outputs that fired and have not been turned into activations.
    pub fired: Vec<NodeOutputTrigger>,
    /// Nodes that were activated and have not been interpreted.
    pub activated: Vec<NodeTrigger>,
}

impl Propagation {
    /// Nothing waits.
    pub fn new() -> (queues: Self)
        ensures
            queues.fired@.len() == 0,
            queues.activated@.len() == 0,
    {
        Propagation { fired: Vec::new(), activated: Vec::new() }
    }

    /// Queues an output that fired. It activates nothing before the next
    /// tick.
    pub fn fire(&mut self, event: NodeOutputTrigger)
        ensures
            final(self).fired@ == old(self).fired@.push(event),
            final(self).activated@ == old(self).activated@,
    {
        self.fired.push(event);
    }

    /// The first node waiting to be interpreted that is of a kind without a
    /// rule, if there is one. A tick must not be made while there is.
    pub fn unsupported(&self, snarl: &egui_snarl::Snarl<Node>) -> (found: Option<Unsupported>)
        ensures
            match found {
                None => graph_of(*snarl).accepts_all(self.activated@),
                Some(unsupported) => exists|at: int| #[trigger]
                    graph_of(*snarl).first_rejected(self.activated@, at) && unsupported
                        == (Unsupported {
                        node: self.activated[at].node,
                        kind: graph_of(*snarl).nodes[self.activated[at].node],
                    }),
            },
    {
        first_unsupported(&self.activated, snarl)
    }

    /// One tick. The nodes activated by the tick before are interpreted:
    /// their requests to the world are returned, and the outputs that they
    /// fire wait for the next tick. The outputs that fired since the tick
    /// before are turned into activations, which wait for the next tick too.
    /// No node waiting to be interpreted may be of a kind without a rule;
    /// `unsupported` tells.
    pub fn tick(&mut self, snarl: &egui_snarl::Snarl<Node>) -> (world: Vec<WorldEvent>)
        requires
            graph_of(*snarl).accepts_all(old(self).activated@),
        ensures
            world@ == graph_of(*snarl).world_of_all(old(self).activated@),
            final(self).fired@ == graph_of(*snarl).refired_of_all(old(self).activated@),
            graph_of(*snarl).activates(old(self).fired@, final(self).activated@),
    {
        let interpreted = do_world_events(&self.activated, snarl);
        let activated = activate_nodes(&self.fired, snarl);
        self.fired = interpreted.fired;
        self.activated = activated;
        interpreted.world
    }
}

/// A fired output causes one activation for each input pin wired to it, no
/// more and no fewer, and each carries the payload that was fired, field
/// for field.
pub proof fn lemma_fan_out_one_per_wire(g: Graph, fired: NodeOutputTrigger, out: Seq<NodeTrigger>)
    requires
        g.fans_out(fired, out),
    ensures
        g.remotes_of(fired.pin()).finite(),
        out.len() == g.remotes_of(fired.pin()).len(),
        forall|i: int| 0 <= i < out.len() ==> (#[trigger] out[i]).data == fired.data,
        forall|i: int| 0 <= i < out.len() ==> g.wired(fired.pin(), (#[trigger] out[i]).node),
        forall|to: InPinId| #[trigger]
            g.remotes_of(fired.pin()).contains(to) ==> exists|i: int|
                0 <= i < out.len() && out[i].node == to.node,
{
    let remotes = choose|remotes: Seq<InPinId>|
        remotes.no_duplicates() && remotes.to_set() == g.remotes_of(fired.pin())
            && #[trigger] fan_out(fired.data, remotes) == out;
    remotes.unique_seq_to_set();
    vstd::seq_lib::seq_to_set_is_finite(remotes);
    assert forall|i: int| 0 <= i < out.len() implies g.wired(
        fired.pin(),
        (#[trigger] out[i]).node,
    ) by {
        assert(remotes.to_set().contains(remotes[i]));
        assert(g.wires.contains(Wire { out_pin: fired.pin(), in_pin: remotes[i] }));
    }
    assert forall|to: InPinId| #[trigger]
        g.remotes_of(fired.pin()).contains(to) implies exists|i: int|
        0 <= i < out.len() && out[i].node == to.node by {
        assert(remotes.to_set().contains(to));
        let i = choose|i: int| 0 <= i < remotes.len() && remotes[i] == to;
        assert(out[i].node == to.node);
    }
}

/// An output that nothing is wired to activates nothing.
pub proof fn lemma_unwired_activates_nothing(
    g: Graph,
    fired: NodeOutputTrigger,
    out: Seq<NodeTrigger>,
)
    requires
        g.fans_out(fired, out),
        forall|to: InPinId| !g.remotes_of(fired.pin()).contains(to),
    ensures
        out.len() == 0,
{
    let remotes = choose|remotes: Seq<InPinId>|
        remotes.no_duplicates() && remotes.to_set() == g.remotes_of(fired.pin())
            && #[trigger] fan_out(fired.data, remotes) == out;
    if remotes.len() > 0 {
        assert(remotes.to_set().contains(remotes[0]));
    }
}

/// Every activation that fired outputs cause carries the payload of one of
/// them, and goes to a node that a wire leads to from the output that
/// fired.
pub proof fn lemma_activation_has_cause(
    g: Graph,
    fired: Seq<NodeOutputTrigger>,
    out: Seq<NodeTrigger>,
    i: int,
)
    requires
        g.activates(fired, out),
        0 <= i < out.len(),
    ensures
        exists|k: int|
            0 <= k < fired.len() && out[i].data == fired[k].data && #[trigger] g.wired(
                fired[k].pin(),
                out[i].node,
            ),
    decreases fired.len(),
{
    if fired.len() > 0 {
        let k = choose|k: int|
            0 <= k <= out.len() && g.activates(fired.drop_last(), #[trigger] out.subrange(0, k))
                && g.fans_out(fired[fired.len() - 1], out.subrange(k, out.len() as int));
        if i < k {
            let head = out.subrange(0, k);
            let before = fired.drop_last();
            lemma_activation_has_cause(g, before, head, i);
            let j = choose|j: int|
                0 <= j < before.len() && head[i].data == before[j].data && #[trigger] g.wired(
                    before[j].pin(),
                    head[i].node,
                );
            assert(g.wired(fired[j].pin(), out[i].node));
        } else {
            let last = fired[fired.len() - 1];
            let tail = out.subrange(k, out.len() as int);
            lemma_fan_out_one_per_wire(g, last, tail);
            assert(tail[i - k] == out[i]);
            assert(g.wired(fired[fired.len() - 1].pin(), out[i].node));
        }
    }
}

} // verus!
