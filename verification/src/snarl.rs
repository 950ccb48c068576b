//! The node container of `egui_snarl`, as far as the graph logic uses it.
//!
//! Nothing in this file is proved. Each function calls one method of
//! `egui_snarl::Snarl` and states what that method does to the nodes and
//! wires that the container holds.

use vstd::prelude::*;

use crate::graph::{Graph, InPinId, NodeId, OutPinId, Wire};
use crate::node::Node;

verus! {

/// `egui_snarl::Snarl`, taken as it is: what it holds is known through
/// `snarl_nodes`, `snarl_wires` and `snarl_places` alone.
#[verifier::external_type_specification]
#[verifier::external_body]
#[verifier::reject_recursive_types(T)]
pub struct ExSnarl<T>(egui_snarl::Snarl<T>);

/// The nodes that a container holds, each with its kind.
pub uninterp spec fn snarl_nodes(snarl: egui_snarl::Snarl<Node>) -> Map<NodeId, Node>;

/// The wires that a container holds.
pub uninterp spec fn snarl_wires(snarl: egui_snarl::Snarl<Node>) -> Set<Wire>;

/// Where the nodes that a container holds are drawn: for each node whose
/// two coordinates are whole numbers, those numbers. A node at any other
/// place has no entry.
pub uninterp spec fn snarl_places(snarl: egui_snarl::Snarl<Node>) -> Map<NodeId, (int, int)>;

/// The graph that a container holds.
pub open spec fn graph_of(snarl: egui_snarl::Snarl<Node>) -> Graph {
    Graph { nodes: snarl_nodes(snarl), wires: snarl_wires(snarl), places: snarl_places(snarl) }
}

/// `Snarl::new`: a container without nodes and without wires.
#[verifier::external_body]
pub(crate) fn snarl_new() -> (made: egui_snarl::Snarl<Node>)
    ensures
        snarl_nodes(made) == Graph::empty().nodes,
        snarl_wires(made) == Graph::empty().wires,
        snarl_places(made) == Graph::empty().places,
{
    egui_snarl::Snarl::new()
}

/// `Snarl::insert_node`: stores the node, drawn at `(x, y)`, under an
/// identifier that no node of the container has, and returns it. The wires
/// and the other nodes stay as they are.
#[verifier::external_body]
pub(crate) fn snarl_insert_node(
    snarl: &mut egui_snarl::Snarl<Node>,
    x: i16,
    y: i16,
    node: Node,
) -> (id: NodeId)
    ensures
        !snarl_nodes(*old(snarl)).contains_key(id),
        snarl_nodes(*final(snarl)) == snarl_nodes(*old(snarl)).insert(id, node),
        snarl_wires(*final(snarl)) == snarl_wires(*old(snarl)),
        snarl_places(*final(snarl)) == snarl_places(*old(snarl)).insert(id, (x as int, y as int)),
{
    NodeId(snarl.insert_node(egui::Pos2::new(x.into(), y.into()), node).0)
}

/// `Snarl::get_node`: the kind of the node with this identifier, if the
/// container holds one.
#[verifier::external_body]
pub(crate) fn snarl_get_node(snarl: &egui_snarl::Snarl<Node>, id: NodeId) -> (node: Option<Node>)
    ensures
        node == if snarl_nodes(*snarl).contains_key(id) {
            Some(snarl_nodes(*snarl)[id])
        } else {
            None
        },
{
    snarl.get_node(egui_snarl::NodeId(id.0)).copied()
}

/// `Snarl::node_ids`: the identifiers of the nodes that the container holds,
/// each once.
#[verifier::external_body]
pub(crate) fn snarl_node_ids(snarl: &egui_snarl::Snarl<Node>) -> (ids: Vec<NodeId>)
    ensures
        ids@.no_duplicates(),
        forall|id: NodeId| ids@.contains(id) <==> snarl_nodes(*snarl).contains_key(id),
{
    snarl.node_ids().map(|(id, _)| NodeId(id.0)).collect()
}

/// `Snarl::out_pin`: the input pins that a wire joins to this output pin,
/// each once, in no stated order.
#[verifier::external_body]
pub(crate) fn snarl_out_pin(snarl: &egui_snarl::Snarl<Node>, pin: OutPinId) -> (remotes: Vec<
    InPinId,
>)
    ensures
        remotes@.no_duplicates(),
        forall|to: InPinId|
            remotes@.contains(to) <==> snarl_wires(*snarl).contains(
                Wire { out_pin: pin, in_pin: to },
            ),
{
    let id = egui_snarl::OutPinId { node: egui_snarl::NodeId(pin.node.0), output: pin.output };
    snarl.out_pin(id).remotes.iter().map(
        |to| InPinId { node: NodeId(to.node.0), input: to.input },
    ).collect()
}

/// `Snarl::in_pin`: the output pins that a wire joins to this input pin,
/// each once, in no stated order.
#[verifier::external_body]
pub(crate) fn snarl_in_pin(snarl: &egui_snarl::Snarl<Node>, pin: InPinId) -> (remotes: Vec<
    OutPinId,
>)
    ensures
        remotes@.no_duplicates(),
        forall|from: OutPinId|
            remotes@.contains(from) <==> snarl_wires(*snarl).contains(
                Wire { out_pin: from, in_pin: pin },
            ),
{
    let id = egui_snarl::InPinId { node: egui_snarl::NodeId(pin.node.0), input: pin.input };
    snarl.in_pin(id).remotes.iter().map(
        |from| OutPinId { node: NodeId(from.node.0), output: from.output },
    ).collect()
}

/// `Snarl::connect`: adds the wire between two pins of nodes that the
/// container holds, and tells whether it was new. The nodes stay as they
/// are. The method panics where one of the nodes is missing.
#[verifier::external_body]
pub(crate) fn snarl_connect(snarl: &mut egui_snarl::Snarl<Node>, from: OutPinId, to: InPinId) -> (added:
    bool)
    requires
        snarl_nodes(*old(snarl)).contains_key(from.node),
        snarl_nodes(*old(snarl)).contains_key(to.node),
    ensures
        snarl_nodes(*final(snarl)) == snarl_nodes(*old(snarl)),
        snarl_places(*final(snarl)) == snarl_places(*old(snarl)),
        snarl_wires(*final(snarl)) == snarl_wires(*old(snarl)).insert(
            Wire { out_pin: from, in_pin: to },
        ),
        added == !snarl_wires(*old(snarl)).contains(Wire { out_pin: from, in_pin: to }),
{
    let from = egui_snarl::OutPinId { node: egui_snarl::NodeId(from.node.0), output: from.output };
    let to = egui_snarl::InPinId { node: egui_snarl::NodeId(to.node.0), input: to.input };
    snarl.connect(from, to)
}

/// `Snarl::drop_inputs`: removes every wire that ends in this input pin of
/// a node that the container holds. The nodes stay as they are. The method
/// panics where the node is missing.
#[verifier::external_body]
pub(crate) fn snarl_drop_inputs(snarl: &mut egui_snarl::Snarl<Node>, pin: InPinId)
    requires
        snarl_nodes(*old(snarl)).contains_key(pin.node),
    ensures
        snarl_nodes(*final(snarl)) == snarl_nodes(*old(snarl)),
        snarl_places(*final(snarl)) == snarl_places(*old(snarl)),
        snarl_wires(*final(snarl)) == snarl_wires(*old(snarl)).filter(|w: Wire| w.in_pin != pin),
{
    let pin = egui_snarl::InPinId { node: egui_snarl::NodeId(pin.node.0), input: pin.input };
    snarl.drop_inputs(pin);
}

} // verus!
