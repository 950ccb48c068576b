//! The kinds of node and what each kind exposes: its title, its pins and
//! their labels.

use vstd::prelude::*;

verus! {

/// Kind of a node of the event graph.
#[derive(Debug, Clone, Copy, PartialEq, Eq, Structural)]
pub enum Node {
    OnShoot,
    SpawnBullet,
    DealDmg,
    Spread,
    Repeating,
    Explosion,
}

impl Node {
    /// Number of output pins of a node of this kind.
    pub open spec fn output_count(self) -> nat {
        match self {
            Node::SpawnBullet => 2,
            Node::Spread => 2,
            _ => 1,
        }
    }

    /// Number of input pins of a node of this kind.
    pub open spec fn input_count(self) -> nat {
        match self {
            Node::OnShoot => 0,
            _ => 1,
        }
    }

    /// Title shown on a node of this kind.
    pub open spec fn title_text(self) -> Seq<char> {
        match self {
            Node::OnShoot => "On shoot"@,
            Node::SpawnBullet => "Spawn Bullet"@,
            Node::Explosion => "Spawn Explosion"@,
            Node::Repeating => "Repeat"@,
            Node::DealDmg => "Dmg"@,
            Node::Spread => "Spread"@,
        }
    }

    /// Label shown beside an input pin of a node of this kind.
    pub open spec fn input_label(self) -> Seq<char> {
        match self {
            Node::OnShoot => ""@,
            Node::SpawnBullet => "Spawn"@,
            Node::Explosion => "Spawn"@,
            Node::Repeating => "Event"@,
            Node::DealDmg => "Target"@,
            Node::Spread => ""@,
        }
    }

    /// Label shown beside the output pin with this index of a node of this
    /// kind: a bullet node tells a hit, its first output, from the bullet's
    /// end, its second.
    pub open spec fn output_label(self, output: usize) -> Seq<char> {
        match self {
            Node::OnShoot => "Hit"@,
            Node::SpawnBullet => if output == 0 {
                "Hit"@
            } else {
                "Despawned"@
            },
            Node::Explosion => "Hit"@,
            Node::Repeating => "Event"@,
            Node::DealDmg => "Fatal"@,
            Node::Spread => ""@,
        }
    }

    /// The interpreter knows what to do when a node of this kind is
    /// activated.
    pub open spec fn interpreted(self) -> bool {
        !(self is Repeating) && !(self is Explosion)
    }
}

} // verus!
