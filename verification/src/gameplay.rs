//! The rules of play around the graph: the sprite animations, the player's
//! direction, what is spawned, and the events that the player and the
//! bullets feed into the graph.

use vstd::prelude::*;

use crate::events::{NodeEventData, NodeOutputTrigger, WorldEvent};
use crate::graph::NodeId;
use crate::state::{MainState, PlayingState};
use crate::store::SnarlContainer;

verus! {

/// `bevy::time::Timer`. What is known of a timer here is how it was made,
/// what ticks it has had, and what these give: `timer_made`, `timer_ticked`
/// and `timer_done`.
#[verifier::external_type_specification]
#[verifier::external_body]
pub struct ExTimer(bevy::time::Timer);

/// Whether a timer stops when it has run out or starts over.
#[derive(Debug, Clone, Copy, PartialEq, Eq, Structural)]
pub enum TimerKind {
    Once,
    Repeating,
}

/// The timer that runs for so many milliseconds, over and over or once,
/// and has not run yet.
pub uninterp spec fn timer_made(millis: u64, repeating: bool) -> bevy::time::Timer;

/// The timer after so many more nanoseconds have passed for it.
pub uninterp spec fn timer_ticked(timer: bevy::time::Timer, delta_nanos: u64) -> bevy::time::Timer;

/// Whether the timer had run out at its last tick.
pub uninterp spec fn timer_done(timer: bevy::time::Timer) -> bool;

/// `Timer::new`: a timer that runs for so many milliseconds.
#[verifier::external_body]
fn timer_new(millis: u64, kind: TimerKind) -> (timer: bevy::time::Timer)
    ensures
        timer == timer_made(millis, kind == TimerKind::Repeating),
{
    let mode = match kind {
        TimerKind::Once => bevy::time::TimerMode::Once,
        TimerKind::Repeating => bevy::time::TimerMode::Repeating,
    };
    bevy::time::Timer::new(core::time::Duration::from_millis(millis), mode)
}

/// `Timer::tick`: lets so many nanoseconds pass for the timer. What the
/// timer is afterwards depends on what it was and on the time that passed,
/// and on nothing else.
#[verifier::external_body]
fn timer_tick(timer: &mut bevy::time::Timer, delta_nanos: u64)
    ensures
        *final(timer) == timer_ticked(*old(timer), delta_nanos),
{
    timer.tick(core::time::Duration::from_nanos(delta_nanos));
}

/// `Timer::finished`: whether the timer had run out at its last tick.
#[verifier::external_body]
fn timer_finished(timer: &bevy::time::Timer) -> (done: bool)
    ensures
        done == timer_done(*timer),
{
    timer.finished()
}

/// A timer that runs for a set time, once or over and over. It remembers
/// what it was made with.
pub struct Clock {
    millis: u64,
    kind: TimerKind,
    timer: bevy::time::Timer,
}

impl Clock {
    /// A clock that runs for `millis` milliseconds.
    pub(crate) fn new(millis: u64, kind: TimerKind) -> (clock: Self)
        ensures
            clock == Clock::made(millis, kind),
            clock.span() == millis,
            clock.kind() == kind,
    {
        Clock { millis, kind, timer: timer_new(millis, kind) }
    }

    /// Lets `delta_nanos` nanoseconds pass and tells whether the clock has
    /// run out.
    pub(crate) fn tick(&mut self, delta_nanos: u64) -> (finished: bool)
        ensures
            *final(self) == old(self).ticked(delta_nanos),
            finished == old(self).runs_out(delta_nanos),
            final(self).span() == old(self).span(),
            final(self).kind() == old(self).kind(),
    {
        timer_tick(&mut self.timer, delta_nanos);
        timer_finished(&self.timer)
    }

    /// The clock that runs for `millis` milliseconds and has not run yet.
    pub closed spec fn made(millis: u64, kind: TimerKind) -> Clock {
        Clock { millis, kind, timer: timer_made(millis, kind == TimerKind::Repeating) }
    }

    /// The clock after `delta_nanos` more nanoseconds have passed for it.
    pub closed spec fn ticked(self, delta_nanos: u64) -> Clock {
        Clock { millis: self.millis, kind: self.kind, timer: timer_ticked(self.timer, delta_nanos) }
    }

    /// Whether the clock had run out at its last tick.
    pub closed spec fn done(self) -> bool {
        timer_done(self.timer)
    }

    /// Whether the clock will have run out when `delta_nanos` more
    /// nanoseconds have passed for it.
    pub open spec fn runs_out(self, delta_nanos: u64) -> bool {
        self.ticked(delta_nanos).done()
    }

    /// The time that the clock was made to run for, in milliseconds.
    pub closed spec fn span(self) -> u64 {
        self.millis
    }

    /// Whether the clock was made to run once or over and over.
    pub closed spec fn kind(self) -> TimerKind {
        self.kind
    }

    /// The time that the clock was made to run for, in milliseconds.
    pub fn millis(&self) -> (millis: u64)
        ensures
            millis == self.span(),
    {
        self.millis
    }

    /// Whether the clock starts over when it has run out.
    pub fn repeats(&self) -> (repeats: bool)
        ensures
            repeats == (self.kind() == TimerKind::Repeating),
    {
        self.kind == TimerKind::Repeating
    }
}

/// The gameplay systems.
pub struct GamePlayPlugin;

impl GamePlayPlugin {
    /// The player and the camera are spawned when play begins.
    pub fn spawns_on_enter(&self, state: MainState) -> (active: bool)
        ensures
            active == (state == MainState::Playing),
    {
        state == MainState::Playing
    }

    /// The cursor is shown or hidden when the player starts to shoot or to
    /// edit.
    pub fn sets_cursor_on_enter(&self, state: PlayingState) -> (active: bool)
        ensures
            active == (state == PlayingState::ShootyTime || state == PlayingState::Editor),
    {
        state == PlayingState::ShootyTime || state == PlayingState::Editor
    }

    /// The world moves while the player shoots, and stands still otherwise.
    pub fn runs(&self, state: PlayingState) -> (active: bool)
        ensures
            active == (state == PlayingState::ShootyTime),
    {
        state == PlayingState::ShootyTime
    }
}

/// The layers of the picture, from the back to the front.
#[derive(Debug, Clone, Copy, PartialEq, Eq, Structural)]
pub enum ZIndex {
    Background,
    Bullet,
    Player,
    Cursor,
}

impl ZIndex {
    /// Place of the layer, counted from the back.
    pub open spec fn rank(self) -> nat {
        match self {
            ZIndex::Background => 0,
            ZIndex::Bullet => 1,
            ZIndex::Player => 2,
            ZIndex::Cursor => 3,
        }
    }

    /// Depth at which the layer is drawn: ten for each layer behind it.
    pub fn depth(self) -> (depth: u32)
        ensures
            depth == self.rank() * 10,
    {
        match self {
            ZIndex::Background => 0,
            ZIndex::Bullet => 10,
            ZIndex::Player => 20,
            ZIndex::Cursor => 30,
        }
    }
}

/// The frames of a sprite sheet that an animation runs through: the frames
/// of one row, from its first on.
pub struct Animation {
    /// Row of the sheet.
    pub row: usize,
    /// Frames in each row of the sheet.
    pub col_size: usize,
    /// Frames that the animation runs through.
    pub anim_lenth: usize,
    /// Runs out when the frame's time is over.
    pub timer: Clock,
}

/// The frame that follows `index` in an animation: the frame's place in the
/// row, one further where the frame's time is over, wrapped to the length
/// of the animation. An index from before the row counts as the row's first
/// frame.
pub open spec fn frame_after(
    row: usize,
    col_size: usize,
    anim_lenth: usize,
    index: usize,
    finished: bool,
) -> int {
    let first = row * col_size;
    let place = if index >= first {
        index - first
    } else {
        0
    };
    let step = if finished {
        1int
    } else {
        0int
    };
    first + (place + step) % (anim_lenth as int)
}

/// The frame that follows `index`; see `frame_after`.
pub fn next_frame(row: usize, col_size: usize, anim_lenth: usize, index: usize, finished: bool) -> (next:
    usize)
    requires
        anim_lenth > 0,
        row * col_size + anim_lenth <= usize::MAX,
    ensures
        next == frame_after(row, col_size, anim_lenth, index, finished),
{
    assert(row * col_size >= 0) by (nonlinear_arith);
    let first = row * col_size;
    let place = index.saturating_sub(first) % anim_lenth;
    let step: usize = if finished {
        1
    } else {
        0
    };
    proof {
        let before = if index >= first {
            index - first
        } else {
            0
        };
        vstd::arithmetic::div_mod::lemma_add_mod_noop_right(
            step as int,
            before as int,
            anim_lenth as int,
        );
    }
    first + (place + step) % anim_lenth
}

impl Animation {
    /// The animation has a frame, and its last frame has an index.
    pub open spec fn wf(self) -> bool {
        self.anim_lenth > 0 && self.row * self.col_size + self.anim_lenth <= usize::MAX
    }

    /// An animation through `anim_lenth` frames of a row, each shown for
    /// `frame_millis` milliseconds.
    pub fn new(row: usize, col_size: usize, anim_lenth: usize, frame_millis: u64) -> (animation:
        Self)
        ensures
            animation.row == row,
            animation.col_size == col_size,
            animation.anim_lenth == anim_lenth,
            animation.timer == Clock::made(frame_millis, TimerKind::Repeating),
            animation.timer.span() == frame_millis,
            animation.timer.kind() == TimerKind::Repeating,
    {
        Animation { row, col_size, anim_lenth, timer: Clock::new(frame_millis, TimerKind::Repeating) }
    }

    /// Whether the animation is well formed.
    pub fn fits(&self) -> (fits: bool)
        ensures
            fits == self.wf(),
    {
        if self.anim_lenth == 0 {
            return false;
        }
        assert(self.row * self.col_size >= 0) by (nonlinear_arith);
        match self.row.checked_mul(self.col_size) {
            Some(first) => first.checked_add(self.anim_lenth).is_some(),
            None => false,
        }
    }
}

/// Lets `delta_nanos` nanoseconds pass for an animation whose sprite shows
/// the frame `index`, and returns the frame to show now: the next one where
/// the frame's time is over by then, else the same.
pub fn do_animation(animation: &mut Animation, index: usize, delta_nanos: u64) -> (next: usize)
    requires
        old(animation).wf(),
    ensures
        final(animation).row == old(animation).row,
        final(animation).col_size == old(animation).col_size,
        final(animation).anim_lenth == old(animation).anim_lenth,
        final(animation).timer == old(animation).timer.ticked(delta_nanos),
        final(animation).timer.span() == old(animation).timer.span(),
        final(animation).timer.kind() == old(animation).timer.kind(),
        next == frame_after(
            old(animation).row,
            old(animation).col_size,
            old(animation).anim_lenth,
            index,
            old(animation).timer.runs_out(delta_nanos),
        ),
{
    let finished = animation.timer.tick(delta_nanos);
    next_frame(animation.row, animation.col_size, animation.anim_lenth, index, finished)
}

/// The direction in which the player walks, by the keys that are held:
/// each axis is -1, 0 or 1.
#[derive(Debug, Clone, Copy, PartialEq, Eq, Structural)]
pub struct MovingDirection {
    pub x: i8,
    pub y: i8,
}

/// The player's direction from the four keys: opposite keys cancel.
pub fn move_player(right: bool, left: bool, up: bool, down: bool) -> (moving: MovingDirection)
    ensures
        moving.x == (if right { 1int } else { 0 }) - (if left { 1int } else { 0 }),
        moving.y == (if up { 1int } else { 0 }) - (if down { 1int } else { 0 }),
{
    let x: i8 = if right == left {
        0
    } else if right {
        1
    } else {
        -1
    };
    let y: i8 = if up == down {
        0
    } else if up {
        1
    } else {
        -1
    };
    MovingDirection { x, y }
}

/// Picks the player's animation by the direction: standing still shows the
/// eight frames of the first row, walking the four frames of the second.
/// Walking to the right flips the sprite, walking to the left unflips it,
/// and walking straight up or down leaves it as it was.
pub fn set_player_animation(animation: &mut Animation, flip_x: &mut bool, moving: &MovingDirection)
    ensures
        final(animation).col_size == old(animation).col_size,
        final(animation).timer == old(animation).timer,
        final(animation).row == if moving.x == 0 && moving.y == 0 { 0usize } else { 1usize },
        final(animation).anim_lenth == if moving.x == 0 && moving.y == 0 { 8usize } else { 4usize },
        *final(flip_x) == if moving.x == 0 && moving.y == 0 {
            *old(flip_x)
        } else if moving.x > 0 {
            true
        } else if moving.x < 0 {
            false
        } else {
            *old(flip_x)
        },
{
    if moving.x == 0 && moving.y == 0 {
        animation.row = 0;
        animation.anim_lenth = 8;
    } else {
        animation.row = 1;
        animation.anim_lenth = 4;

        if moving.x > 0 {
            *flip_x = true;
        } else if moving.x < 0 {
            *flip_x = false;
        }
    }
}

/// What the player starts with.
pub struct PlayerBundle {
    pub layer: ZIndex,
    pub scale: u32,
    pub animation: Animation,
    pub moving: MovingDirection,
}

/// The player as spawned: four times the sprite's size, on the player's
/// layer, standing still, with the animation of standing still at 150
/// milliseconds a frame.
pub fn spawn_player() -> (player: PlayerBundle)
    ensures
        player.layer == ZIndex::Player,
        player.scale == 4,
        player.animation.row == 0,
        player.animation.col_size == 8,
        player.animation.anim_lenth == 8,
        player.animation.timer == Clock::made(150, TimerKind::Repeating),
        player.animation.timer.span() == 150,
        player.animation.timer.kind() == TimerKind::Repeating,
        player.animation.wf(),
        player.moving == (MovingDirection { x: 0, y: 0 }),
{
    assert(0usize * 8usize + 8usize <= usize::MAX) by (nonlinear_arith);
    PlayerBundle {
        layer: ZIndex::Player,
        scale: 4,
        animation: Animation::new(0, 8, 8, 150),
        moving: MovingDirection { x: 0, y: 0 },
    }
}

/// A shot: the output of the graph's entry node fires, with the place of
/// the shot and its direction.
pub fn shoot_action(
    snarl: &SnarlContainer,
    loc: bevy::math::Vec2,
    dir: bevy::math::Vec2,
) -> (event: NodeOutputTrigger)
    ensures
        event == (NodeOutputTrigger {
            data: NodeEventData { loc: Some(loc), dir: Some(dir), target: None },
            node: snarl.shoot_trigger,
            output_index: 0,
        }),
{
    NodeOutputTrigger {
        data: NodeEventData { loc: Some(loc), dir: Some(dir), target: None },
        node: snarl.shoot_trigger,
        output_index: 0,
    }
}

/// A bullet in flight.
pub struct Bullet {
    /// Direction of flight; none where the event gave none and one is still
    /// to be picked.
    pub dir: Option<bevy::math::Vec2>,
    /// Runs out when the bullet is to be removed.
    pub lifetime: Clock,
}

/// What a bullet starts with.
pub struct BulletBundle {
    pub loc: bevy::math::Vec2,
    pub bullet: Bullet,
    /// The node that asked for the bullet.
    pub source: NodeId,
    pub layer: ZIndex,
    pub scale: u32,
    pub animation: Animation,
}

/// The bullet that a request to the world asks for, if it asks for one: a
/// request for a bullet that names a place. The bullet lives for a second
/// and remembers the node that asked for it.
pub fn spawn_bullet(event: &WorldEvent) -> (spawned: Option<BulletBundle>)
    ensures
        match (*event, spawned) {
            (WorldEvent::SpawnBullet { loc: Some(loc), dir, id }, Some(bundle)) => {
                &&& bundle.loc == loc
                &&& bundle.bullet.dir == dir
                &&& bundle.bullet.lifetime == Clock::made(1000, TimerKind::Once)
                &&& bundle.bullet.lifetime.span() == 1000
                &&& bundle.bullet.lifetime.kind() == TimerKind::Once
                &&& bundle.source == id
                &&& bundle.layer == ZIndex::Bullet
                &&& bundle.scale == 2
                &&& bundle.animation.row == 0
                &&& bundle.animation.col_size == 4
                &&& bundle.animation.anim_lenth == 4
                &&& bundle.animation.timer == Clock::made(100, TimerKind::Repeating)
                &&& bundle.animation.timer.span() == 100
                &&& bundle.animation.timer.kind() == TimerKind::Repeating
                &&& bundle.animation.wf()
            },
            (WorldEvent::SpawnBullet { loc: Some(_), dir: _, id: _ }, None) => false,
            (_, Some(_)) => false,
            (_, None) => true,
        },
{
    match *event {
        WorldEvent::SpawnBullet { loc: Some(loc), dir, id } => {
            assert(0usize * 4usize + 4usize <= usize::MAX) by (nonlinear_arith);
            Some(
                BulletBundle {
                    loc,
                    bullet: Bullet { dir, lifetime: Clock::new(1000, TimerKind::Once) },
                    source: id,
                    layer: ZIndex::Bullet,
                    scale: 2,
                    animation: Animation::new(0, 4, 4, 100),
                },
            )
        },
        _ => None,
    }
}

/// The event of a bullet that has or has not run out of time: a bullet
/// whose time is over fires the second output of the node that asked for
/// it, with the place where it ended.
pub fn despawn_event(finished: bool, source: NodeId, loc: bevy::math::Vec2) -> (event: Option<
    NodeOutputTrigger,
>)
    ensures
        event == if finished {
            Some(
                NodeOutputTrigger {
                    data: NodeEventData { loc: Some(loc), dir: None, target: None },
                    node: source,
                    output_index: 1,
                },
            )
        } else {
            None
        },
{
    if finished {
        Some(
            NodeOutputTrigger {
                data: NodeEventData { loc: Some(loc), dir: None, target: None },
                node: source,
                output_index: 1,
            },
        )
    } else {
        None
    }
}

/// Lets `delta_nanos` nanoseconds pass for a bullet at `loc`. Where its
/// time is over by then the bullet is to be removed, and the event to send
/// for it is returned: the second output of the node that asked for the
/// bullet fires, with the place where the bullet ended.
pub fn do_timer_despawning(
    bullet: &mut Bullet,
    source: NodeId,
    loc: bevy::math::Vec2,
    delta_nanos: u64,
) -> (event: Option<NodeOutputTrigger>)
    ensures
        final(bullet).dir == old(bullet).dir,
        final(bullet).lifetime == old(bullet).lifetime.ticked(delta_nanos),
        final(bullet).lifetime.span() == old(bullet).lifetime.span(),
        final(bullet).lifetime.kind() == old(bullet).lifetime.kind(),
        event == if old(bullet).lifetime.runs_out(delta_nanos) {
            Some(
                NodeOutputTrigger {
                    data: NodeEventData { loc: Some(loc), dir: None, target: None },
                    node: source,
                    output_index: 1,
                },
            )
        } else {
            None
        },
{
    let finished = bullet.lifetime.tick(delta_nanos);
    despawn_event(finished, source, loc)
}

} // verus!
