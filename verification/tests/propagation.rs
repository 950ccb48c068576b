use bevy::ecs::entity::Entity;
use bevy::math::Vec2;
use egui_snarl::Snarl;
use shoot_graph::editor::{Connection, Viewer};
use shoot_graph::events::{NodeEventData, NodeOutputTrigger, NodeTrigger, WorldEvent};
use shoot_graph::graph::{InPinId, NodeId, OutPinId};
use shoot_graph::node::Node;
use shoot_graph::propagation::{
    activate_nodes, activations, do_world_events, fire_outputs, first_unsupported, Propagation,
    Unsupported,
};
use shoot_graph::store::{connect, insert_node, out_pin, SnarlContainer};

fn out(node: NodeId, output: usize) -> OutPinId {
    OutPinId { node, output }
}

fn inp(node: NodeId, input: usize) -> InPinId {
    InPinId { node, input }
}

fn shot() -> NodeEventData {
    NodeEventData { loc: Some(Vec2::new(0.0, 0.0)), dir: Some(Vec2::new(1.0, 0.0)), target: None }
}

fn fired(node: NodeId, output_index: usize, data: NodeEventData) -> NodeOutputTrigger {
    NodeOutputTrigger { data, node, output_index }
}

#[test]
fn default_payload_knows_nothing() {
    let data = NodeEventData::default();
    assert_eq!(data.loc, None);
    assert_eq!(data.dir, None);
    assert_eq!(data.target, None);
}

#[test]
fn activations_keep_order_and_payload() {
    let data = shot();
    let remotes = vec![inp(NodeId(4), 0), inp(NodeId(2), 0), inp(NodeId(9), 1)];
    let out = activations(data, &remotes);
    assert_eq!(
        out,
        vec![
            NodeTrigger { data, node: NodeId(4) },
            NodeTrigger { data, node: NodeId(2) },
            NodeTrigger { data, node: NodeId(9) },
        ]
    );
    assert!(activations(data, &Vec::new()).is_empty());
}

#[test]
fn fire_outputs_fires_each_output_once() {
    let data = shot();
    assert_eq!(
        fire_outputs(data, NodeId(3), Node::Spread),
        vec![fired(NodeId(3), 0, data), fired(NodeId(3), 1, data)]
    );
    assert_eq!(
        fire_outputs(data, NodeId(3), Node::SpawnBullet),
        vec![fired(NodeId(3), 0, data), fired(NodeId(3), 1, data)]
    );
    assert_eq!(fire_outputs(data, NodeId(3), Node::DealDmg), vec![fired(NodeId(3), 0, data)]);
}

#[test]
fn fan_out_to_three_targets() {
    let mut snarl = Snarl::new();
    let p = insert_node(&mut snarl, Node::OnShoot, 0, 0);
    let x = insert_node(&mut snarl, Node::SpawnBullet, 0, 0);
    let y = insert_node(&mut snarl, Node::DealDmg, 0, 0);
    let z = insert_node(&mut snarl, Node::Spread, 0, 0);
    for target in [x, y, z] {
        assert_eq!(Viewer.connect(out(p, 0), inp(target, 0), &mut snarl), Connection::Connected);
    }
    let data = NodeEventData {
        loc: Some(Vec2::new(3.5, -2.0)),
        dir: Some(Vec2::new(0.0, 1.0)),
        target: Some(Entity::from_raw(7)),
    };

    let mut queues = Propagation::new();
    queues.fire(fired(p, 0, data));
    assert!(queues.activated.is_empty());
    assert_eq!(queues.fired, vec![fired(p, 0, data)]);

    assert_eq!(queues.tick(&snarl), Vec::<WorldEvent>::new());
    assert!(queues.fired.is_empty());
    assert_eq!(queues.activated.len(), 3);
    for target in [x, y, z] {
        let hits: Vec<&NodeTrigger> =
            queues.activated.iter().filter(|t| t.node == target).collect();
        assert_eq!(hits.len(), 1);
        assert_eq!(hits[0].data, data);
    }
}

#[test]
fn unconnected_output_fires_nothing() {
    let mut snarl = Snarl::new();
    let p = insert_node(&mut snarl, Node::SpawnBullet, 0, 0);
    assert!(activate_nodes(&vec![fired(p, 1, shot())], &snarl).is_empty());
    assert!(activate_nodes(&vec![fired(NodeId(40), 0, shot())], &snarl).is_empty());
    assert!(activate_nodes(&Vec::new(), &snarl).is_empty());

    let mut queues = Propagation::new();
    queues.fire(fired(p, 0, shot()));
    assert_eq!(queues.tick(&snarl), Vec::<WorldEvent>::new());
    assert!(queues.activated.is_empty());
    assert!(queues.fired.is_empty());
    assert_eq!(queues.tick(&snarl), Vec::<WorldEvent>::new());
}

#[test]
fn activations_come_in_the_order_of_firing() {
    let mut snarl = Snarl::new();
    let a = insert_node(&mut snarl, Node::OnShoot, 0, 0);
    let b = insert_node(&mut snarl, Node::OnShoot, 0, 0);
    let x = insert_node(&mut snarl, Node::DealDmg, 0, 0);
    let y = insert_node(&mut snarl, Node::DealDmg, 0, 0);
    assert!(connect(&mut snarl, out(a, 0), inp(x, 0)));
    assert!(connect(&mut snarl, out(b, 0), inp(y, 0)));
    let first = NodeEventData { loc: Some(Vec2::new(1.0, 1.0)), dir: None, target: None };
    let second = NodeEventData { loc: Some(Vec2::new(2.0, 2.0)), dir: None, target: None };
    let out = activate_nodes(&vec![fired(b, 0, first), fired(a, 0, second)], &snarl);
    assert_eq!(
        out,
        vec![NodeTrigger { data: first, node: y }, NodeTrigger { data: second, node: x }]
    );
}

#[test]
fn interpretation_by_kind() {
    let mut snarl = Snarl::new();
    let shoot = insert_node(&mut snarl, Node::OnShoot, 0, 0);
    let bullet = insert_node(&mut snarl, Node::SpawnBullet, 0, 0);
    let dmg = insert_node(&mut snarl, Node::DealDmg, 0, 0);
    let spread = insert_node(&mut snarl, Node::Spread, 0, 0);
    let victim = Entity::from_raw(11);
    let aimed = NodeEventData { loc: None, dir: None, target: Some(victim) };
    let data = shot();

    let done = do_world_events(&vec![NodeTrigger { data, node: shoot }], &snarl);
    assert!(done.world.is_empty());
    assert!(done.fired.is_empty());

    let done = do_world_events(&vec![NodeTrigger { data, node: bullet }], &snarl);
    assert_eq!(done.world, vec![WorldEvent::SpawnBullet { loc: data.loc, dir: data.dir, id: bullet }]);
    assert!(done.fired.is_empty());

    let done = do_world_events(&vec![NodeTrigger { data: aimed, node: bullet }], &snarl);
    assert_eq!(done.world, vec![WorldEvent::SpawnBullet { loc: None, dir: None, id: bullet }]);

    let done = do_world_events(&vec![NodeTrigger { data: aimed, node: dmg }], &snarl);
    assert_eq!(done.world, vec![WorldEvent::DealDmg { target: Some(victim), id: dmg }]);
    assert!(done.fired.is_empty());

    let done = do_world_events(&vec![NodeTrigger { data, node: dmg }], &snarl);
    assert!(done.world.is_empty());
    assert!(done.fired.is_empty());

    let done = do_world_events(&vec![NodeTrigger { data, node: spread }], &snarl);
    assert!(done.world.is_empty());
    assert_eq!(done.fired, vec![fired(spread, 0, data), fired(spread, 1, data)]);

    let done = do_world_events(&vec![NodeTrigger { data, node: NodeId(70) }], &snarl);
    assert!(done.world.is_empty());
    assert!(done.fired.is_empty());
}

#[test]
fn interpretation_keeps_the_order_of_activation() {
    let mut snarl = Snarl::new();
    let bullet = insert_node(&mut snarl, Node::SpawnBullet, 0, 0);
    let dmg = insert_node(&mut snarl, Node::DealDmg, 0, 0);
    let spread = insert_node(&mut snarl, Node::Spread, 0, 0);
    let victim = Entity::from_raw(5);
    let aimed = NodeEventData { loc: None, dir: None, target: Some(victim) };
    let data = shot();
    let done = do_world_events(
        &vec![
            NodeTrigger { data: aimed, node: dmg },
            NodeTrigger { data, node: spread },
            NodeTrigger { data, node: NodeId(99) },
            NodeTrigger { data, node: bullet },
            NodeTrigger { data: aimed, node: spread },
        ],
        &snarl,
    );
    assert_eq!(
        done.world,
        vec![
            WorldEvent::DealDmg { target: Some(victim), id: dmg },
            WorldEvent::SpawnBullet { loc: data.loc, dir: data.dir, id: bullet },
        ]
    );
    assert_eq!(
        done.fired,
        vec![
            fired(spread, 0, data),
            fired(spread, 1, data),
            fired(spread, 0, aimed),
            fired(spread, 1, aimed),
        ]
    );
}

#[test]
fn unknown_kinds_are_found_before_they_are_interpreted() {
    let mut snarl = Snarl::new();
    let bullet = insert_node(&mut snarl, Node::SpawnBullet, 0, 0);
    let repeat = insert_node(&mut snarl, Node::Repeating, 0, 0);
    let boom = insert_node(&mut snarl, Node::Explosion, 0, 0);
    let data = shot();
    assert_eq!(first_unsupported(&Vec::new(), &snarl), None);
    assert_eq!(
        first_unsupported(
            &vec![NodeTrigger { data, node: bullet }, NodeTrigger { data, node: NodeId(80) }],
            &snarl
        ),
        None
    );
    assert_eq!(
        first_unsupported(&vec![NodeTrigger { data, node: repeat }], &snarl),
        Some(Unsupported { node: repeat, kind: Node::Repeating })
    );
    assert_eq!(
        first_unsupported(
            &vec![
                NodeTrigger { data, node: bullet },
                NodeTrigger { data, node: boom },
                NodeTrigger { data, node: repeat },
            ],
            &snarl
        ),
        Some(Unsupported { node: boom, kind: Node::Explosion })
    );
}

#[test]
fn queues_tell_when_a_tick_must_not_be_made() {
    let mut snarl = Snarl::new();
    let shoot = insert_node(&mut snarl, Node::OnShoot, 0, 0);
    let repeat = insert_node(&mut snarl, Node::Repeating, 0, 0);
    assert!(connect(&mut snarl, out(shoot, 0), inp(repeat, 0)));
    let data = shot();
    let mut queues = Propagation::new();
    queues.fire(fired(shoot, 0, data));
    assert_eq!(queues.unsupported(&snarl), None);
    assert_eq!(queues.tick(&snarl), Vec::<WorldEvent>::new());
    assert_eq!(queues.activated, vec![NodeTrigger { data, node: repeat }]);
    assert_eq!(
        queues.unsupported(&snarl),
        Some(Unsupported { node: repeat, kind: Node::Repeating })
    );
    assert_eq!(queues.activated, vec![NodeTrigger { data, node: repeat }]);
}

#[test]
fn spread_passes_the_event_on_one_layer_per_tick() {
    let mut snarl = Snarl::new();
    let shoot = insert_node(&mut snarl, Node::OnShoot, 0, 0);
    let spread = insert_node(&mut snarl, Node::Spread, 0, 0);
    let bullet = insert_node(&mut snarl, Node::SpawnBullet, 0, 0);
    let other = insert_node(&mut snarl, Node::SpawnBullet, 0, 0);
    assert_eq!(Viewer.connect(out(shoot, 0), inp(spread, 0), &mut snarl), Connection::Connected);
    assert_eq!(Viewer.connect(out(spread, 0), inp(bullet, 0), &mut snarl), Connection::Connected);
    assert_eq!(Viewer.connect(out(spread, 1), inp(other, 0), &mut snarl), Connection::Connected);
    let data = shot();
    let mut queues = Propagation::new();
    queues.fire(fired(shoot, 0, data));

    assert_eq!(queues.tick(&snarl), Vec::<WorldEvent>::new());
    assert_eq!(queues.activated, vec![NodeTrigger { data, node: spread }]);
    assert!(queues.fired.is_empty());

    assert_eq!(queues.tick(&snarl), Vec::<WorldEvent>::new());
    assert!(queues.activated.is_empty());
    assert_eq!(queues.fired, vec![fired(spread, 0, data), fired(spread, 1, data)]);

    assert_eq!(queues.tick(&snarl), Vec::<WorldEvent>::new());
    assert_eq!(
        queues.activated,
        vec![NodeTrigger { data, node: bullet }, NodeTrigger { data, node: other }]
    );
    assert!(queues.fired.is_empty());

    assert_eq!(
        queues.tick(&snarl),
        vec![
            WorldEvent::SpawnBullet { loc: data.loc, dir: data.dir, id: bullet },
            WorldEvent::SpawnBullet { loc: data.loc, dir: data.dir, id: other },
        ]
    );
    assert!(queues.activated.is_empty());
    assert!(queues.fired.is_empty());
}

#[test]
fn trigger_bullet_damage_scenario() {
    let mut snarl = Snarl::new();
    let a = insert_node(&mut snarl, Node::OnShoot, 0, 0);
    let b = insert_node(&mut snarl, Node::SpawnBullet, 150, 0);
    let c = insert_node(&mut snarl, Node::DealDmg, 150, 100);
    assert_eq!(Viewer.connect(out(a, 0), inp(b, 0), &mut snarl), Connection::Connected);
    assert_eq!(Viewer.connect(out(b, 1), inp(c, 0), &mut snarl), Connection::Connected);

    let data = shot();
    let mut queues = Propagation::new();
    queues.fire(fired(a, 0, data));
    assert!(queues.activated.is_empty());

    assert_eq!(queues.tick(&snarl), Vec::<WorldEvent>::new());
    assert_eq!(queues.activated, vec![NodeTrigger { data, node: b }]);

    assert_eq!(
        queues.tick(&snarl),
        vec![WorldEvent::SpawnBullet {
            loc: Some(Vec2::new(0.0, 0.0)),
            dir: Some(Vec2::new(1.0, 0.0)),
            id: b
        }]
    );
    assert!(queues.activated.is_empty());

    let gone = NodeEventData { loc: Some(Vec2::new(500.0, 0.0)), dir: None, target: None };
    queues.fire(fired(b, 1, gone));
    assert_eq!(queues.tick(&snarl), Vec::<WorldEvent>::new());
    assert_eq!(queues.activated, vec![NodeTrigger { data: gone, node: c }]);

    assert_eq!(queues.tick(&snarl), Vec::<WorldEvent>::new());
    assert!(queues.activated.is_empty());
    assert!(queues.fired.is_empty());

    assert_eq!(Viewer.connect(out(c, 0), inp(a, 0), &mut snarl), Connection::Refused);
    assert!(out_pin(&snarl, out(c, 0)).is_empty());
}

#[test]
fn seed_graph_shot_reaches_bullet_then_damage() {
    let container = SnarlContainer::default();
    let shoot = container.shoot_trigger;
    let bullet = out_pin(&container.snarl, out(shoot, 0))[0].node;
    let dmg = out_pin(&container.snarl, out(bullet, 1))[0].node;
    let data = shot();
    let mut queues = Propagation::new();
    queues.fire(fired(shoot, 0, data));
    assert_eq!(queues.tick(&container.snarl), Vec::<WorldEvent>::new());
    assert_eq!(queues.activated, vec![NodeTrigger { data, node: bullet }]);
    assert_eq!(
        queues.tick(&container.snarl),
        vec![WorldEvent::SpawnBullet { loc: data.loc, dir: data.dir, id: bullet }]
    );

    let gone = NodeEventData { loc: Some(Vec2::new(3.0, 4.0)), dir: None, target: None };
    assert_eq!(
        activate_nodes(&vec![fired(bullet, 1, gone)], &container.snarl),
        vec![NodeTrigger { data: gone, node: dmg }]
    );
    queues.fire(fired(bullet, 1, gone));
    assert_eq!(queues.tick(&container.snarl), Vec::<WorldEvent>::new());
    assert_eq!(queues.activated, vec![NodeTrigger { data: gone, node: dmg }]);
    assert_eq!(queues.tick(&container.snarl), Vec::<WorldEvent>::new());

    let victim = Entity::from_raw(3);
    let hit = NodeEventData { loc: data.loc, dir: None, target: Some(victim) };
    queues.fire(fired(bullet, 1, hit));
    assert_eq!(queues.tick(&container.snarl), Vec::<WorldEvent>::new());
    assert_eq!(
        queues.tick(&container.snarl),
        vec![WorldEvent::DealDmg { target: Some(victim), id: dmg }]
    );

    queues.fire(fired(bullet, 0, hit));
    assert_eq!(queues.tick(&container.snarl), Vec::<WorldEvent>::new());
    assert!(queues.activated.is_empty());
}
