//! The player's state and the decisions its systems take each frame.
//!
//! A frame of movement runs in phases, with reads of the physics world and
//! of the player's timers in between: [`start_frame`] decides on climbing;
//! a climbing player then moves by [`climb_motion`]; otherwise [`steer`]
//! reads the keys, the wall ahead is probed in the steered direction, and
//! [`ground_step`] decides on sliding, running and jumping. A jump that is
//! still rising gets its boost by [`jump_boost`].

use crate::entity::common::{Direction, TimerCommand};
use vstd::prelude::*;

verus! {

/// What the player is doing. A climbing player holds the column of the vine
/// it climbs: the bit pattern of that `f32` world coordinate, which this
/// library carries but never computes with.
#[derive(Clone, Copy, PartialEq, Eq, Structural, Debug)]
pub enum PlayerState {
    Idle,
    Walking,
    WallSliding,
    Climbing { x: u32 },
}

impl Default for PlayerState {
    fn default() -> (s: Self)
        ensures
            s == PlayerState::Idle,
    {
        PlayerState::Idle
    }
}

/// The keys that steer the player during one frame.
#[derive(Clone, Copy, Debug)]
pub struct MovementKeys {
    /// `A` or the left arrow is held.
    pub left: bool,
    /// `D` or the right arrow is held.
    pub right: bool,
    /// `W` or the up arrow is held.
    pub up: bool,
    /// `S` or the down arrow is held.
    pub down: bool,
    /// Space is held.
    pub space_held: bool,
    /// Space went down this frame.
    pub space_pressed: bool,
    /// `W` or the up arrow went down this frame.
    pub up_pressed: bool,
}

impl MovementKeys {
    /// A jump key (space, `W` or the up arrow) went down this frame.
    pub open spec fn spec_jump_pressed(self) -> bool {
        self.space_pressed || self.up_pressed
    }

    /// A jump key (space, `W` or the up arrow) is held.
    pub open spec fn spec_jump_held(self) -> bool {
        self.space_held || self.up
    }
}

/// The coyote timer lets a player jump for a moment after walking off a
/// ledge. Leaving the ground starts it; landing ends it.
pub fn coyote_timer_command(grounded: bool) -> (command: TimerCommand)
    ensures
        command == (if grounded {
            TimerCommand::Finish
        } else {
            TimerCommand::Reset
        }),
{
    if !grounded {
        TimerCommand::Reset
    } else {
        TimerCommand::Finish
    }
}

/// What happens to climbing at the start of a frame.
#[derive(Clone, Copy, PartialEq, Eq, Structural, Debug)]
pub enum ClimbStep {
    /// The player neither climbs nor starts to.
    Off,
    /// The player grabs the vine at column `x`: gravity off, state climbing.
    Grab { x: u32 },
    /// The player keeps climbing the vine at column `x`.
    Hold { x: u32 },
    /// The player lets go of the vine: gravity back, state idle; with a jump
    /// (coyote timer finished, jump timer reset, upward impulse) when `jump`.
    Release { jump: bool },
}

impl ClimbStep {
    /// The player climbs for the rest of the frame.
    pub open spec fn spec_climbing(self) -> bool {
        self is Grab || self is Hold
    }

    pub fn climbing(&self) -> (c: bool)
        ensures
            c == self.spec_climbing(),
    {
        match self {
            ClimbStep::Grab { .. } | ClimbStep::Hold { .. } => true,
            _ => false,
        }
    }
}

/// The first decisions of a frame of movement.
#[derive(Clone, Copy, Debug)]
pub struct FrameStart {
    /// Finish the coyote timer: a player moving upwards cannot use it.
    pub finish_coyote: bool,
    pub climb: ClimbStep,
    /// Gravity is off for the rest of the frame: exactly while climbing.
    pub gravity_off: bool,
}

/// `start` begins the frame of a player in `state`, as [`start_frame`] does.
pub open spec fn is_frame_start(
    state: PlayerState,
    rising: bool,
    vine_x: Option<u32>,
    jump_finished: bool,
    keys: MovementKeys,
    start: FrameStart,
) -> bool {
    &&& start.finish_coyote == rising
    &&& start.gravity_off == start.climb.spec_climbing()
    &&& start.climb == (match state {
        PlayerState::Climbing { x } => if vine_x is None || keys.space_pressed {
            ClimbStep::Release { jump: keys.space_pressed }
        } else {
            ClimbStep::Hold { x }
        },
        _ => if vine_x is Some && jump_finished && (keys.up || keys.down) {
            ClimbStep::Grab { x: vine_x->0 }
        } else {
            ClimbStep::Off
        },
    })
}

/// Starts a frame of movement. `rising` is whether the player moves
/// upwards, `vine_x` the column of a vine the player overlaps, if any, and
/// `jump_finished` whether the jump timer has run out. A climber lets go when
/// it leaves the vines or presses space; a player that overlaps a vine grabs
/// it by pressing up or down, once the last jump's timer has run out.
pub fn start_frame(
    state: PlayerState,
    rising: bool,
    vine_x: Option<u32>,
    jump_finished: bool,
    keys: &MovementKeys,
) -> (start: FrameStart)
    ensures
        is_frame_start(state, rising, vine_x, jump_finished, *keys, start),
{
    let climb = match state {
        PlayerState::Climbing { x } => {
            if vine_x.is_none() || keys.space_pressed {
                ClimbStep::Release { jump: keys.space_pressed }
            } else {
                ClimbStep::Hold { x }
            }
        },
        _ => {
            match vine_x {
                Some(vx) => {
                    if jump_finished && (keys.up || keys.down) {
                        ClimbStep::Grab { x: vx }
                    } else {
                        ClimbStep::Off
                    }
                },
                None => ClimbStep::Off,
            }
        },
    };
    let gravity_off = climb.climbing();
    FrameStart { finish_coyote: rising, climb, gravity_off }
}

/// A player grabs a vine only when it overlaps one, is not climbing yet,
/// holds up or down and the last jump's timer has run out, and then grabs
/// the vine it overlaps. A climber keeps its vine while it overlaps vines and
/// does not press space, and lets go otherwise, jumping off exactly when
/// space went down. Gravity is off exactly while the player climbs, and
/// the coyote timer is finished exactly for a rising player.
pub proof fn lemma_climbing_rules(
    state: PlayerState,
    rising: bool,
    vine_x: Option<u32>,
    jump_finished: bool,
    keys: MovementKeys,
    start: FrameStart,
)
    requires
        is_frame_start(state, rising, vine_x, jump_finished, keys, start),
    ensures
        start.finish_coyote == rising,
        start.gravity_off <==> (start.climb is Grab || start.climb is Hold),
        start.climb is Grab ==> !(state is Climbing) && vine_x == Some(start.climb->Grab_x)
            && jump_finished && (keys.up || keys.down),
        !(state is Climbing) && vine_x is Some && jump_finished && (keys.up || keys.down)
            ==> start.climb == (ClimbStep::Grab { x: vine_x->0 }),
        !(state is Climbing) ==> !(start.climb is Hold) && !(start.climb is Release),
        start.climb is Hold ==> state == (PlayerState::Climbing { x: start.climb->Hold_x })
            && vine_x is Some && !keys.space_pressed,
        state is Climbing ==> (start.climb is Release <==> (vine_x is None
            || keys.space_pressed)) && !(start.climb is Grab) && !(start.climb is Off),
        start.climb is Release ==> start.climb->jump == keys.space_pressed,
{
}

/// How a climber moves this frame.
#[derive(Clone, Copy, Debug)]
pub struct ClimbMotion {
    /// Up (1), down (-1) or still (0), in units of the climbing speed.
    pub vertical: i8,
    pub direction: Direction,
}

/// `m` moves a climber that faced `direction`, as [`climb_motion`] does.
pub open spec fn is_climb_motion(direction: Direction, keys: MovementKeys, m: ClimbMotion) -> bool {
    &&& m.vertical == (if keys.up {
        1int
    } else {
        0int
    }) - (if keys.down {
        1int
    } else {
        0int
    })
    &&& m.direction == (if keys.right {
        Direction::Right
    } else if keys.left {
        Direction::Left
    } else {
        direction
    })
}

/// Moves a climber: up and down keys move it along the vine (both cancel),
/// left and right keys only turn it (right wins when both are held).
pub fn climb_motion(direction: Direction, keys: &MovementKeys) -> (m: ClimbMotion)
    ensures
        is_climb_motion(direction, *keys, m),
{
    let mut vertical: i8 = 0;
    if keys.up {
        vertical = vertical + 1;
    }
    if keys.down {
        vertical = vertical - 1;
    }
    let mut facing = direction;
    if keys.left {
        facing = Direction::Left;
    }
    if keys.right {
        facing = Direction::Right;
    }
    ClimbMotion { vertical, direction: facing }
}

/// A climber moves up while only up is held, down while only down is held,
/// and stays put otherwise; it faces right whenever right is held, left when
/// only left is, and keeps its facing when neither is.
pub proof fn lemma_climb_motion_follows_keys(direction: Direction, keys: MovementKeys, m: ClimbMotion)
    requires
        is_climb_motion(direction, keys, m),
    ensures
        keys.up && !keys.down ==> m.vertical == 1,
        keys.down && !keys.up ==> m.vertical == -1,
        keys.up == keys.down ==> m.vertical == 0,
        keys.right ==> m.direction == Direction::Right,
        keys.left && !keys.right ==> m.direction == Direction::Left,
        !keys.left && !keys.right ==> m.direction == direction,
{
}

/// The horizontal intent of a player on foot.
#[derive(Clone, Copy, Debug)]
pub struct Steering {
    /// Left (-1), right (1) or none (0), in units of the running speed.
    pub horizontal: i8,
    pub direction: Direction,
    pub state: PlayerState,
    /// A wall jump is still pushing the airborne player: keys are ignored.
    pub locked: bool,
}

/// `s` steers a player on foot that faced `direction`, as [`steer`] does.
pub open spec fn is_steering(
    direction: Direction,
    wall_jump_finished: bool,
    on_ground: bool,
    keys: MovementKeys,
    s: Steering,
) -> bool {
    &&& s.locked == (!wall_jump_finished && !on_ground)
    &&& s.locked ==> s.horizontal == 0 && s.direction == direction && s.state
        == PlayerState::Walking
    &&& !s.locked ==> s.horizontal == (if keys.right {
        1int
    } else {
        0int
    }) - (if keys.left {
        1int
    } else {
        0int
    })
    &&& !s.locked ==> s.direction == (if keys.right {
        Direction::Right
    } else if keys.left {
        Direction::Left
    } else {
        direction
    })
    &&& !s.locked ==> s.state == (if keys.left || keys.right {
        PlayerState::Walking
    } else {
        PlayerState::Idle
    })
}

/// Reads the left and right keys of a player on foot. Right wins the facing
/// when both are held, and the two cancel out in motion. Right after a wall
/// jump, while the wall-jump timer runs and the player is in the air, the
/// keys are ignored and the player counts as walking.
pub fn steer(
    direction: Direction,
    wall_jump_finished: bool,
    on_ground: bool,
    keys: &MovementKeys,
) -> (s: Steering)
    ensures
        is_steering(direction, wall_jump_finished, on_ground, *keys, s),
{
    let mut horizontal: i8 = 0;
    let mut state = PlayerState::Idle;
    let mut facing = direction;
    let locked = !wall_jump_finished && !on_ground;
    if locked {
        state = PlayerState::Walking;
    } else {
        if keys.left {
            horizontal = horizontal - 1;
            facing = Direction::Left;
            state = PlayerState::Walking;
        }
        if keys.right {
            horizontal = horizontal + 1;
            facing = Direction::Right;
            state = PlayerState::Walking;
        }
    }
    Steering { horizontal, direction: facing, state, locked }
}

/// Unless a wall jump locks it, a player on foot faces the way it is
/// steered: right whenever the right key is held, left when only the left
/// key is, and as before when neither is. It moves one step in the held
/// direction (none when both or neither are held), walks exactly when a key
/// is held, and when it moves, it moves the way it faces.
pub proof fn lemma_steering_follows_keys(
    direction: Direction,
    wall_jump_finished: bool,
    on_ground: bool,
    keys: MovementKeys,
    s: Steering,
)
    requires
        is_steering(direction, wall_jump_finished, on_ground, keys, s),
    ensures
        s.locked <==> (!wall_jump_finished && !on_ground),
        !s.locked && keys.right ==> s.direction == Direction::Right,
        !s.locked && keys.left && !keys.right ==> s.direction == Direction::Left,
        !s.locked && !keys.left && !keys.right ==> s.direction == direction,
        !s.locked && keys.right && !keys.left ==> s.horizontal == 1,
        !s.locked && keys.left && !keys.right ==> s.horizontal == -1,
        !s.locked && keys.left == keys.right ==> s.horizontal == 0,
        s.horizontal == 1 ==> s.direction == Direction::Right,
        s.horizontal == -1 ==> s.direction == Direction::Left,
        !s.locked ==> (s.state == PlayerState::Walking <==> (keys.left || keys.right)),
        !s.locked && !(keys.left || keys.right) ==> s.state == PlayerState::Idle,
        s.locked ==> s.horizontal == 0 && s.direction == direction,
{
}

/// A jump and where it goes.
#[derive(Clone, Copy, PartialEq, Eq, Structural, Debug)]
pub enum Jump {
    /// An upward jump from the ground, or while the coyote timer runs.
    Ground,
    /// A jump off the wall the player slides down: the wall-jump timer is
    /// reset, vertical speed cancelled, and the player pushed sideways by
    /// `push` (1 right, -1 left) times three quarters of the running speed.
    Wall { push: i8 },
}

/// The decisions for a player on foot, once the wall ahead is known.
#[derive(Clone, Copy, Debug)]
pub struct GroundStep {
    /// The player slides down a wall: an upward impulse slows the fall.
    pub wall_sliding: bool,
    /// Set the horizontal speed to the steered direction times the running
    /// speed (possibly stopping the player).
    pub run: bool,
    /// Jump: finish the coyote timer, reset the jump timer, set the upward
    /// impulse; and for a wall jump, more as [`Jump::Wall`] says.
    pub jump: Option<Jump>,
    pub state: PlayerState,
}

/// `g` decides the frame of a player on foot, as [`ground_step`] does.
pub open spec fn is_ground_step(
    steering: Steering,
    facing: Direction,
    on_ground: bool,
    against_wall: bool,
    slow_vertical: bool,
    coyote_finished: bool,
    jump_finished: bool,
    keys: MovementKeys,
    g: GroundStep,
) -> bool {
    &&& g.wall_sliding == (against_wall && !on_ground && slow_vertical && steering.horizontal != 0)
    &&& g.state == (if g.wall_sliding {
        PlayerState::WallSliding
    } else {
        steering.state
    })
    &&& g.run == (!g.wall_sliding && !against_wall && !steering.locked)
    &&& (g.jump is Some) == ((on_ground || g.wall_sliding || !coyote_finished)
        && keys.spec_jump_pressed() && jump_finished)
    &&& g.jump is Some ==> g.jump->0 == (if g.wall_sliding {
        Jump::Wall {
            push: if facing is Left {
                1i8
            } else {
                -1i8
            },
        }
    } else {
        Jump::Ground
    })
}

/// Right after a wall jump, while the wall-jump timer runs and the player
/// is in the air, it neither slides down a wall nor runs, and counts as
/// walking, whatever keys are held.
pub proof fn lemma_wall_jump_lock(
    direction: Direction,
    facing: Direction,
    on_ground: bool,
    against_wall: bool,
    slow_vertical: bool,
    coyote_finished: bool,
    jump_finished: bool,
    keys: MovementKeys,
    s: Steering,
    g: GroundStep,
)
    requires
        is_steering(direction, false, on_ground, keys, s),
        is_ground_step(
            s,
            facing,
            on_ground,
            against_wall,
            slow_vertical,
            coyote_finished,
            jump_finished,
            keys,
            g,
        ),
        !on_ground,
    ensures
        !g.wall_sliding,
        !g.run,
        g.state == PlayerState::Walking,
{
}

/// A wall jump pushes the player away from the way it faced: right when it
/// faced left, left when it faced right. It only happens off a wall that the
/// airborne player slides down.
pub proof fn lemma_wall_jump_direction(
    steering: Steering,
    facing: Direction,
    on_ground: bool,
    against_wall: bool,
    slow_vertical: bool,
    coyote_finished: bool,
    jump_finished: bool,
    keys: MovementKeys,
    g: GroundStep,
)
    requires
        is_ground_step(
            steering,
            facing,
            on_ground,
            against_wall,
            slow_vertical,
            coyote_finished,
            jump_finished,
            keys,
            g,
        ),
        g.jump matches Some(Jump::Wall { .. }),
    ensures
        g.wall_sliding,
        !on_ground,
        against_wall,
        jump_finished,
        g.jump == Some(Jump::Wall { push: if facing is Left { 1i8 } else { -1i8 } }),
{
}

/// Decides the frame of a player on foot. `facing` is the direction the
/// player faced before this frame, `against_wall` whether a wall touches the
/// player in the steered direction, `slow_vertical` whether its vertical
/// speed is below a small upward threshold, and the timer flags tell which
/// timers have run out. A player slides down a wall when airborne, pushing
/// into a wall, and not moving up fast; it runs when nothing blocks it; it
/// jumps when a jump key went down, the last jump's timer ran out, and it
/// stands, slides, or still has coyote time.
pub fn ground_step(
    steering: &Steering,
    facing: Direction,
    on_ground: bool,
    against_wall: bool,
    slow_vertical: bool,
    coyote_finished: bool,
    jump_finished: bool,
    keys: &MovementKeys,
) -> (g: GroundStep)
    ensures
        is_ground_step(
            *steering,
            facing,
            on_ground,
            against_wall,
            slow_vertical,
            coyote_finished,
            jump_finished,
            *keys,
            g,
        ),
        g.wall_sliding ==> !on_ground,
{
    let wall_sliding = against_wall && !on_ground && slow_vertical && steering.horizontal != 0;
    let state = if wall_sliding {
        PlayerState::WallSliding
    } else {
        steering.state
    };
    let run = !wall_sliding && !against_wall && !steering.locked;
    let jump_pressed = keys.space_pressed || keys.up_pressed;
    let jump = if (on_ground || wall_sliding || !coyote_finished) && jump_pressed && jump_finished {
        if wall_sliding {
            let push: i8 = match facing {
                Direction::Left => 1,
                Direction::Right => -1,
            };
            Some(Jump::Wall { push })
        } else {
            Some(Jump::Ground)
        }
    } else {
        None
    };
    GroundStep { wall_sliding, run, jump, state }
}

/// A player on foot jumps only in a frame in which a jump key (space, `W`
/// or the up arrow) went down, never from a key that is merely held, and only
/// once the last jump's timer has run out. A player standing on the ground
/// that presses a jump key with that timer run out always jumps, and jumps
/// upwards unless it slides down a wall.
pub proof fn lemma_jump_needs_a_press(
    steering: Steering,
    facing: Direction,
    on_ground: bool,
    against_wall: bool,
    slow_vertical: bool,
    coyote_finished: bool,
    jump_finished: bool,
    keys: MovementKeys,
    g: GroundStep,
)
    requires
        is_ground_step(
            steering,
            facing,
            on_ground,
            against_wall,
            slow_vertical,
            coyote_finished,
            jump_finished,
            keys,
            g,
        ),
    ensures
        g.jump is Some ==> keys.space_pressed || keys.up_pressed,
        g.jump is Some ==> jump_finished,
        g.jump is Some ==> on_ground || !coyote_finished || (against_wall && slow_vertical),
        on_ground && (keys.space_pressed || keys.up_pressed) && jump_finished ==> g.jump == Some(
            Jump::Ground,
        ),
        !keys.space_pressed && !keys.up_pressed ==> g.jump is None,
{
}

/// A player on foot never ends its frame climbing.
pub proof fn lemma_ground_step_never_climbs(
    direction: Direction,
    wall_jump_finished: bool,
    facing: Direction,
    on_ground: bool,
    against_wall: bool,
    slow_vertical: bool,
    coyote_finished: bool,
    jump_finished: bool,
    keys: MovementKeys,
    s: Steering,
    g: GroundStep,
)
    requires
        is_steering(direction, wall_jump_finished, on_ground, keys, s),
        is_ground_step(
            s,
            facing,
            on_ground,
            against_wall,
            slow_vertical,
            coyote_finished,
            jump_finished,
            keys,
            g,
        ),
    ensures
        !(g.state is Climbing),
{
}

/// The player's state at the end of a frame that started with `start`: the
/// vine's column while climbing, otherwise what the ground step decided.
pub open spec fn state_after_frame(start: FrameStart, ground: GroundStep) -> PlayerState {
    match start.climb {
        ClimbStep::Grab { x } => PlayerState::Climbing { x },
        ClimbStep::Hold { x } => PlayerState::Climbing { x },
        _ => ground.state,
    }
}

/// A player ends each frame climbing exactly when gravity is off for it:
/// climbing players hang on their vine, all others fall. (`ground` matters
/// only for a frame on foot, when it is the ground step of that frame;
/// `jump_finished_at_start` is the jump timer as the frame started.)
pub proof fn lemma_climbing_iff_gravity_off(
    state: PlayerState,
    rising: bool,
    vine_x: Option<u32>,
    jump_finished_at_start: bool,
    start: FrameStart,
    direction: Direction,
    wall_jump_finished: bool,
    facing: Direction,
    on_ground: bool,
    against_wall: bool,
    slow_vertical: bool,
    coyote_finished: bool,
    jump_finished: bool,
    keys: MovementKeys,
    s: Steering,
    ground: GroundStep,
)
    requires
        is_frame_start(state, rising, vine_x, jump_finished_at_start, keys, start),
        !start.climb.spec_climbing() ==> is_steering(direction, wall_jump_finished, on_ground, keys, s),
        !start.climb.spec_climbing() ==> is_ground_step(
            s,
            facing,
            on_ground,
            against_wall,
            slow_vertical,
            coyote_finished,
            jump_finished,
            keys,
            ground,
        ),
    ensures
        (state_after_frame(start, ground) is Climbing) <==> start.gravity_off,
{
    if !start.climb.spec_climbing() {
        lemma_ground_step_never_climbs(
            direction,
            wall_jump_finished,
            facing,
            on_ground,
            against_wall,
            slow_vertical,
            coyote_finished,
            jump_finished,
            keys,
            s,
            ground,
        );
    }
}

/// A rising jump is boosted this frame, as [`jump_boost`] decides.
pub open spec fn boosted(keys: MovementKeys, jump_finished: bool) -> bool {
    keys.spec_jump_held() && !jump_finished
}

/// A held jump key keeps pushing the player up while the jump timer runs,
/// the push fading as the timer advances.
pub fn jump_boost(keys: &MovementKeys, jump_finished: bool) -> (boost: bool)
    ensures
        boost == boosted(*keys, jump_finished),
{
    (keys.space_held || keys.up) && !jump_finished
}

/// A rising jump is boosted exactly while space, `W` or the up arrow is held
/// and the jump timer runs: a short tap gives a short hop, and the other
/// keys never matter. Two frames whose jump keys and timer agree get the same
/// boost, whatever else is held.
pub proof fn lemma_boost_only_from_jump_keys(
    keys: MovementKeys,
    other: MovementKeys,
    jump_finished: bool,
    boost: bool,
    other_boost: bool,
)
    requires
        boost == boosted(keys, jump_finished),
        other_boost == boosted(other, jump_finished),
    ensures
        boost ==> (keys.space_held || keys.up) && !jump_finished,
        (keys.space_held || keys.up) && !jump_finished ==> boost,
        jump_finished ==> !boost,
        other.space_held == keys.space_held && other.up == keys.up ==> other_boost == boost,
{
}

/// The frame after `index` in the two-frame walking animation.
pub open spec fn next_walk_frame(index: usize, idle_sprite: usize, moving_sprite: usize) -> usize {
    if index == idle_sprite {
        moving_sprite
    } else {
        idle_sprite
    }
}

/// What the player's sprite shows next.
#[derive(Clone, Copy, Debug)]
pub struct SpriteFrame {
    /// The index into the sprite sheet.
    pub index: usize,
    /// A new horizontal mirroring, if the sprite needs one.
    pub flip_x: Option<bool>,
}

/// `frame` is what the sprite of a player in `state` shows next, as
/// [`animation_frame`] decides.
pub open spec fn is_animation_frame(
    state: PlayerState,
    direction: Direction,
    index: usize,
    idle_sprite: usize,
    moving_sprite: usize,
    timer_just_finished: bool,
    frame: SpriteFrame,
) -> bool {
    &&& frame.index == (match state {
        PlayerState::Walking => if timer_just_finished {
            next_walk_frame(index, idle_sprite, moving_sprite)
        } else {
            index
        },
        _ => idle_sprite,
    })
    &&& frame.flip_x == (if state is WallSliding {
        Some(!(direction is Left))
    } else {
        None::<bool>
    })
}

/// The player's sprite for its state. A walking player alternates between
/// the idle and the moving frame each time the animation timer runs out; a
/// player sliding down a wall shows the idle frame, mirrored to face away
/// from the wall; any other player shows the idle frame.
pub fn animation_frame(
    state: &PlayerState,
    direction: Direction,
    index: usize,
    idle_sprite: usize,
    moving_sprite: usize,
    timer_just_finished: bool,
) -> (frame: SpriteFrame)
    ensures
        is_animation_frame(*state, direction, index, idle_sprite, moving_sprite, timer_just_finished, frame),
{
    match state {
        PlayerState::Idle => SpriteFrame { index: idle_sprite, flip_x: None },
        PlayerState::Walking => {
            if !timer_just_finished {
                SpriteFrame { index, flip_x: None }
            } else {
                let next = if index == idle_sprite {
                    moving_sprite
                } else {
                    idle_sprite
                };
                SpriteFrame { index: next, flip_x: None }
            }
        },
        PlayerState::WallSliding => SpriteFrame { index: idle_sprite, flip_x: Some(!direction.flip()) },
        PlayerState::Climbing { .. } => SpriteFrame { index: idle_sprite, flip_x: None },
    }
}

/// Only a walking player animates: its frame changes only when the
/// animation timer has just run out, and then from the idle frame to the
/// moving one and from any other frame to the idle one. Every other player
/// shows the idle frame. The sprite's mirroring is set only for a player
/// sliding down a wall, which is drawn facing away from the way it faced:
/// mirrored exactly when it faced right.
pub proof fn lemma_animation_rules(
    state: PlayerState,
    direction: Direction,
    index: usize,
    idle_sprite: usize,
    moving_sprite: usize,
    timer_just_finished: bool,
    frame: SpriteFrame,
)
    requires
        is_animation_frame(state, direction, index, idle_sprite, moving_sprite, timer_just_finished, frame),
    ensures
        state != PlayerState::Walking ==> frame.index == idle_sprite,
        state == PlayerState::Walking && !timer_just_finished ==> frame.index == index,
        state == PlayerState::Walking && timer_just_finished && index == idle_sprite ==> frame.index
            == moving_sprite,
        state == PlayerState::Walking && timer_just_finished && index != idle_sprite ==> frame.index
            == idle_sprite,
        frame.flip_x is Some <==> state == PlayerState::WallSliding,
        state == PlayerState::WallSliding ==> frame.flip_x == Some(direction == Direction::Right),
{
}

/// The walking animation only ever shows the idle and the moving frame, and
/// two steps of it bring either frame back.
pub proof fn lemma_walk_cycle(index: usize, idle_sprite: usize, moving_sprite: usize)
    ensures
        next_walk_frame(index, idle_sprite, moving_sprite) == idle_sprite || next_walk_frame(
            index,
            idle_sprite,
            moving_sprite,
        ) == moving_sprite,
        (index == idle_sprite || index == moving_sprite) ==> next_walk_frame(
            next_walk_frame(index, idle_sprite, moving_sprite),
            idle_sprite,
            moving_sprite,
        ) == index,
{
}

} // verus!
