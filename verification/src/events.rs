//! The events that travel through the graph and leave it: the payload, an
//! output that fired, a node that was activated, and what the world is
//! asked to do.

use vstd::prelude::*;

use crate::graph::{NodeId, OutPinId};

verus! {

/// `bevy::math::Vec2`, a point or direction of the plane. It is carried
/// through, never looked into.
#[verifier::external_type_specification]
#[verifier::external_body]
pub struct ExVec2(bevy::math::Vec2);

/// `bevy::ecs::entity::Entity`, the name of something in the world. It is
/// carried through, never looked into.
#[verifier::external_type_specification]
#[verifier::external_body]
pub struct ExEntity(bevy::ecs::entity::Entity);

/// What an event carries. A field is absent where the event does not know
/// it; nothing on the way through the graph adds or removes a field.
#[derive(Clone, Copy, Debug, PartialEq)]
pub struct NodeEventData {
    pub loc: Option<bevy::math::Vec2>,
    pub dir: Option<bevy::math::Vec2>,
    pub target: Option<bevy::ecs::entity::Entity>,
}

impl Default for NodeEventData {
    /// The payload that knows nothing.
    fn default() -> (data: Self)
        ensures
            data == (NodeEventData { loc: None, dir: None, target: None }),
    {
        NodeEventData { loc: None, dir: None, target: None }
    }
}

/// An output pin fired.
#[derive(Clone, Copy, Debug, PartialEq)]
pub struct NodeOutputTrigger {
    pub data: NodeEventData,
    pub node: NodeId,
    pub output_index: usize,
}

impl NodeOutputTrigger {
    /// The pin that fired.
    pub open spec fn pin(self) -> OutPinId {
        OutPinId { node: self.node, output: self.output_index }
    }
}

/// A node was activated through one of its input pins.
#[derive(Clone, Copy, Debug, PartialEq)]
pub struct NodeTrigger {
    pub data: NodeEventData,
    pub node: NodeId,
}

/// What the graph asks of the world. Each request names the node that it
/// comes from, so that whoever carries it out can fire that node's outputs
/// later.
#[derive(Clone, Copy, Debug, PartialEq)]
pub enum WorldEvent {
    SpawnBullet { loc: Option<bevy::math::Vec2>, dir: Option<bevy::math::Vec2>, id: NodeId },
    DealDmg { target: Option<bevy::ecs::entity::Entity>, id: NodeId },
}

} // verus!
