use bevy::math::Vec2;
use shoot_graph::background::{
    can_move, move_background, spawn_background, BackgroundPlugin, CurrentSize, Drift, Tile,
};
use shoot_graph::editor::NodeEditorPlugin;
use shoot_graph::events::{NodeEventData, NodeOutputTrigger, WorldEvent};
use shoot_graph::gameplay::{
    despawn_event, do_animation, do_timer_despawning, move_player, next_frame,
    set_player_animation, shoot_action, spawn_bullet, spawn_player, Animation, GamePlayPlugin,
    MovingDirection, ZIndex,
};
use shoot_graph::graph::NodeId;
use shoot_graph::state::{set_cursor_visibility, swap_mode, MainState, PlayingState};
use shoot_graph::store::SnarlContainer;

const MILLI: u64 = 1_000_000;

#[test]
fn states_start_idle() {
    assert_eq!(MainState::default(), MainState::Loading);
    assert_eq!(PlayingState::default(), PlayingState::Idle);
}

#[test]
fn swap_mode_alternates() {
    assert_eq!(swap_mode(PlayingState::Idle), PlayingState::Idle);
    assert_eq!(swap_mode(PlayingState::ShootyTime), PlayingState::Editor);
    assert_eq!(swap_mode(PlayingState::Editor), PlayingState::ShootyTime);
    for state in [PlayingState::Idle, PlayingState::ShootyTime, PlayingState::Editor] {
        assert_eq!(swap_mode(swap_mode(state)), state);
    }
}

#[test]
fn cursor_shows_in_the_editor_only() {
    assert!(set_cursor_visibility(false, PlayingState::Editor));
    assert!(set_cursor_visibility(true, PlayingState::Editor));
    assert!(!set_cursor_visibility(true, PlayingState::ShootyTime));
    assert!(!set_cursor_visibility(false, PlayingState::ShootyTime));
    assert!(set_cursor_visibility(true, PlayingState::Idle));
    assert!(!set_cursor_visibility(false, PlayingState::Idle));
}

#[test]
fn plugins_run_in_their_states() {
    assert!(NodeEditorPlugin.shows_editor(PlayingState::Editor));
    assert!(!NodeEditorPlugin.shows_editor(PlayingState::ShootyTime));
    assert!(!NodeEditorPlugin.shows_editor(PlayingState::Idle));
    assert!(NodeEditorPlugin.propagates(PlayingState::ShootyTime));
    assert!(!NodeEditorPlugin.propagates(PlayingState::Editor));
    assert!(!NodeEditorPlugin.propagates(PlayingState::Idle));
    assert!(GamePlayPlugin.runs(PlayingState::ShootyTime));
    assert!(!GamePlayPlugin.runs(PlayingState::Editor));
    assert!(!GamePlayPlugin.runs(PlayingState::Idle));
    assert!(GamePlayPlugin.spawns_on_enter(MainState::Playing));
    assert!(!GamePlayPlugin.spawns_on_enter(MainState::Loading));
    assert!(GamePlayPlugin.sets_cursor_on_enter(PlayingState::ShootyTime));
    assert!(GamePlayPlugin.sets_cursor_on_enter(PlayingState::Editor));
    assert!(!GamePlayPlugin.sets_cursor_on_enter(PlayingState::Idle));
    assert!(BackgroundPlugin.runs(MainState::Playing));
    assert!(!BackgroundPlugin.runs(MainState::Loading));
}

#[test]
fn layers_are_ten_apart() {
    assert_eq!(ZIndex::Background.depth(), 0);
    assert_eq!(ZIndex::Bullet.depth(), 10);
    assert_eq!(ZIndex::Player.depth(), 20);
    assert_eq!(ZIndex::Cursor.depth(), 30);
}

#[test]
fn next_frame_wraps_within_the_row() {
    assert_eq!(next_frame(0, 8, 8, 0, false), 0);
    assert_eq!(next_frame(0, 8, 8, 0, true), 1);
    assert_eq!(next_frame(0, 8, 8, 7, true), 0);
    assert_eq!(next_frame(0, 8, 8, 7, false), 7);
    assert_eq!(next_frame(1, 8, 4, 8, true), 9);
    assert_eq!(next_frame(1, 8, 4, 11, true), 8);
    assert_eq!(next_frame(1, 8, 4, 11, false), 11);
    // a frame of the other row, seen after the row has changed
    assert_eq!(next_frame(1, 8, 4, 3, false), 8);
    assert_eq!(next_frame(1, 8, 4, 3, true), 9);
    assert_eq!(next_frame(0, 8, 4, 9, false), 1);
    assert_eq!(next_frame(0, 8, 4, 9, true), 2);
    assert_eq!(next_frame(0, 8, 1, 5, true), 0);
    assert_eq!(next_frame(0, 8, 8, usize::MAX, true), 0);
    assert_eq!(next_frame(0, 8, 8, usize::MAX, false), 7);
}

#[test]
fn animation_remembers_its_frame_time() {
    let animation = Animation::new(1, 8, 4, 75);
    assert_eq!(animation.timer.millis(), 75);
    assert!(animation.timer.repeats());
    assert_eq!((animation.row, animation.col_size, animation.anim_lenth), (1, 8, 4));
}

#[test]
fn animation_fits_when_its_frames_have_indices() {
    assert!(Animation::new(0, 8, 8, 150).fits());
    assert!(Animation::new(1, 8, 4, 150).fits());
    assert!(!Animation::new(0, 8, 0, 150).fits());
    assert!(!Animation::new(usize::MAX, 2, 1, 150).fits());
    assert!(!Animation::new(usize::MAX, 1, 1, 150).fits());
    assert!(Animation::new(usize::MAX - 1, 1, 1, 150).fits());
}

#[test]
fn animation_advances_when_the_frame_time_is_over() {
    let mut animation = Animation::new(0, 8, 8, 150);
    let mut index = 0;
    index = do_animation(&mut animation, index, 100 * MILLI);
    assert_eq!(index, 0);
    index = do_animation(&mut animation, index, 50 * MILLI);
    assert_eq!(index, 1);
    index = do_animation(&mut animation, index, 149 * MILLI);
    assert_eq!(index, 1);
    index = do_animation(&mut animation, index, MILLI);
    assert_eq!(index, 2);
    for _ in 0..5 {
        index = do_animation(&mut animation, index, 150 * MILLI);
    }
    assert_eq!(index, 7);
    index = do_animation(&mut animation, index, 150 * MILLI);
    assert_eq!(index, 0);
    assert_eq!((animation.row, animation.col_size, animation.anim_lenth), (0, 8, 8));
}

#[test]
fn player_direction_from_keys() {
    assert_eq!(move_player(false, false, false, false), MovingDirection { x: 0, y: 0 });
    assert_eq!(move_player(true, false, false, false), MovingDirection { x: 1, y: 0 });
    assert_eq!(move_player(false, true, false, false), MovingDirection { x: -1, y: 0 });
    assert_eq!(move_player(true, true, false, false), MovingDirection { x: 0, y: 0 });
    assert_eq!(move_player(false, false, true, false), MovingDirection { x: 0, y: 1 });
    assert_eq!(move_player(false, false, false, true), MovingDirection { x: 0, y: -1 });
    assert_eq!(move_player(false, false, true, true), MovingDirection { x: 0, y: 0 });
    assert_eq!(move_player(true, false, false, true), MovingDirection { x: 1, y: -1 });
    assert_eq!(move_player(true, true, true, true), MovingDirection { x: 0, y: 0 });
}

#[test]
fn player_animation_follows_the_direction() {
    let mut animation = Animation::new(0, 8, 8, 150);
    let mut flip = false;
    set_player_animation(&mut animation, &mut flip, &MovingDirection { x: 1, y: 0 });
    assert_eq!((animation.row, animation.col_size, animation.anim_lenth, flip), (1, 8, 4, true));
    set_player_animation(&mut animation, &mut flip, &MovingDirection { x: 0, y: 1 });
    assert_eq!((animation.row, animation.col_size, animation.anim_lenth, flip), (1, 8, 4, true));
    set_player_animation(&mut animation, &mut flip, &MovingDirection { x: -1, y: -1 });
    assert_eq!((animation.row, animation.col_size, animation.anim_lenth, flip), (1, 8, 4, false));
    set_player_animation(&mut animation, &mut flip, &MovingDirection { x: 0, y: -1 });
    assert_eq!((animation.row, animation.col_size, animation.anim_lenth, flip), (1, 8, 4, false));
    set_player_animation(&mut animation, &mut flip, &MovingDirection { x: 0, y: 0 });
    assert_eq!((animation.row, animation.col_size, animation.anim_lenth, flip), (0, 8, 8, false));
    flip = true;
    set_player_animation(&mut animation, &mut flip, &MovingDirection { x: 0, y: 0 });
    assert_eq!((animation.row, animation.col_size, animation.anim_lenth, flip), (0, 8, 8, true));
}

#[test]
fn player_as_spawned() {
    let player = spawn_player();
    assert_eq!(player.layer, ZIndex::Player);
    assert_eq!(player.scale, 4);
    assert_eq!(player.moving, MovingDirection { x: 0, y: 0 });
    assert_eq!(
        (player.animation.row, player.animation.col_size, player.animation.anim_lenth),
        (0, 8, 8)
    );
    assert!(player.animation.fits());
    assert_eq!(player.animation.timer.millis(), 150);
    assert!(player.animation.timer.repeats());
    let mut animation = player.animation;
    assert_eq!(do_animation(&mut animation, 3, 149 * MILLI), 3);
    assert_eq!(do_animation(&mut animation, 3, MILLI), 4);
}

#[test]
fn shot_fires_the_entry_node() {
    let container = SnarlContainer::default();
    let loc = Vec2::new(12.0, -4.0);
    let dir = Vec2::new(0.0, 1.0);
    let event = shoot_action(&container, loc, dir);
    assert_eq!(
        event,
        NodeOutputTrigger {
            data: NodeEventData { loc: Some(loc), dir: Some(dir), target: None },
            node: container.shoot_trigger,
            output_index: 0,
        }
    );
}

#[test]
fn bullet_is_spawned_where_the_event_names_a_place() {
    let loc = Vec2::new(1.0, 2.0);
    let dir = Vec2::new(0.0, -1.0);
    let bundle =
        spawn_bullet(&WorldEvent::SpawnBullet { loc: Some(loc), dir: Some(dir), id: NodeId(4) })
            .unwrap();
    assert_eq!(bundle.loc, loc);
    assert_eq!(bundle.bullet.dir, Some(dir));
    assert_eq!(bundle.source, NodeId(4));
    assert_eq!(bundle.layer, ZIndex::Bullet);
    assert_eq!(bundle.scale, 2);
    assert_eq!(
        (bundle.animation.row, bundle.animation.col_size, bundle.animation.anim_lenth),
        (0, 4, 4)
    );
    assert_eq!(bundle.bullet.lifetime.millis(), 1000);
    assert!(!bundle.bullet.lifetime.repeats());
    assert_eq!(bundle.animation.timer.millis(), 100);
    assert!(bundle.animation.timer.repeats());
    let mut animation = bundle.animation;
    assert_eq!(do_animation(&mut animation, 3, 99 * MILLI), 3);
    assert_eq!(do_animation(&mut animation, 3, MILLI), 0);
    assert_eq!(animation.timer.millis(), 100);
    assert!(animation.timer.repeats());

    let bundle =
        spawn_bullet(&WorldEvent::SpawnBullet { loc: Some(loc), dir: None, id: NodeId(4) })
            .unwrap();
    assert_eq!(bundle.bullet.dir, None);

    assert!(spawn_bullet(&WorldEvent::SpawnBullet { loc: None, dir: Some(dir), id: NodeId(4) })
        .is_none());
    assert!(spawn_bullet(&WorldEvent::DealDmg { target: None, id: NodeId(4) }).is_none());
}

#[test]
fn bullet_fires_its_second_output_when_its_time_is_over() {
    let start = Vec2::new(0.0, 0.0);
    let end = Vec2::new(500.0, 0.0);
    let bundle =
        spawn_bullet(&WorldEvent::SpawnBullet { loc: Some(start), dir: None, id: NodeId(6) })
            .unwrap();
    let mut bullet = bundle.bullet;
    assert_eq!(do_timer_despawning(&mut bullet, bundle.source, end, 999 * MILLI), None);
    assert_eq!(bullet.lifetime.millis(), 1000);
    assert!(!bullet.lifetime.repeats());
    assert_eq!(
        do_timer_despawning(&mut bullet, bundle.source, end, MILLI),
        Some(NodeOutputTrigger {
            data: NodeEventData { loc: Some(end), dir: None, target: None },
            node: NodeId(6),
            output_index: 1,
        })
    );
    assert_eq!(despawn_event(false, NodeId(6), end), None);
    assert_eq!(
        despawn_event(true, NodeId(2), start),
        Some(NodeOutputTrigger {
            data: NodeEventData { loc: Some(start), dir: None, target: None },
            node: NodeId(2),
            output_index: 1,
        })
    );
}

#[test]
fn background_grid_is_built_column_by_column() {
    let mut size = CurrentSize::default();
    assert_eq!(size, CurrentSize { x: 0, y: 0 });
    let tiles = spawn_background(&mut size, 2, 3).unwrap();
    assert_eq!(size, CurrentSize { x: 2, y: 3 });
    assert_eq!(
        tiles,
        vec![
            Tile { x: 0, y: 0 },
            Tile { x: 0, y: 1 },
            Tile { x: 0, y: 2 },
            Tile { x: 1, y: 0 },
            Tile { x: 1, y: 1 },
            Tile { x: 1, y: 2 },
        ]
    );
    assert_eq!(spawn_background(&mut size, 2, 3), None);
    assert_eq!(size, CurrentSize { x: 2, y: 3 });
    assert_eq!(spawn_background(&mut size, 3, 3).unwrap().len(), 9);
    assert_eq!(spawn_background(&mut size, 0, 3), Some(Vec::new()));
    assert_eq!(size, CurrentSize { x: 0, y: 3 });
    assert_eq!(spawn_background(&mut size, -1, 3), Some(Vec::new()));
    assert_eq!(size, CurrentSize { x: -1, y: 3 });
}

#[test]
fn tiles_wrap_to_the_other_side() {
    let size = CurrentSize { x: 23, y: 15 };
    let mut tile = Tile { x: 22, y: 0 };
    assert_eq!(move_background(&mut tile, &size, Drift::Ahead, Drift::Inside), (-1, 0));
    assert_eq!(tile, Tile { x: -1, y: 0 });
    assert_eq!(move_background(&mut tile, &size, Drift::Behind, Drift::Behind), (1, 1));
    assert_eq!(tile, Tile { x: 22, y: 15 });
    assert_eq!(move_background(&mut tile, &size, Drift::Inside, Drift::Ahead), (0, -1));
    assert_eq!(tile, Tile { x: 22, y: 0 });
    assert_eq!(move_background(&mut tile, &size, Drift::Inside, Drift::Inside), (0, 0));
    assert_eq!(tile, Tile { x: 22, y: 0 });
}

#[test]
fn tiles_at_the_edge_of_the_range_cannot_wrap() {
    let size = CurrentSize { x: 10, y: 10 };
    assert!(can_move(&Tile { x: 5, y: 5 }, &size, Drift::Ahead, Drift::Behind));
    assert!(!can_move(&Tile { x: i32::MAX - 3, y: 5 }, &size, Drift::Behind, Drift::Inside));
    assert!(can_move(&Tile { x: i32::MAX - 3, y: 5 }, &size, Drift::Ahead, Drift::Inside));
    assert!(can_move(&Tile { x: i32::MAX - 3, y: 5 }, &size, Drift::Inside, Drift::Inside));
    assert!(!can_move(&Tile { x: 5, y: i32::MIN + 9 }, &size, Drift::Inside, Drift::Ahead));
    assert!(can_move(&Tile { x: 5, y: i32::MIN + 10 }, &size, Drift::Inside, Drift::Ahead));
}
