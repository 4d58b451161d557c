use game::entity::common::{Direction, Groundedness, TimerCommand};
use game::entity::player::{
    animation_frame, climb_motion, coyote_timer_command, ground_step, jump_boost, start_frame, steer,
    ClimbStep, Jump, MovementKeys, PlayerState,
};
use game::entity::spring::{sprite_index, spring_step, SpringStep};

fn no_keys() -> MovementKeys {
    MovementKeys {
        left: false,
        right: false,
        up: false,
        down: false,
        space_held: false,
        space_pressed: false,
        up_pressed: false,
    }
}

#[test]
fn direction_flip() {
    assert!(Direction::Left.flip());
    assert!(!Direction::Right.flip());
}

#[test]
fn groundedness_reads_back_what_was_set() {
    let mut g = Groundedness::default();
    assert!(!*g.as_ref());
    g.set(true);
    assert!(*g.as_ref());
    g.set(false);
    assert!(!*g.as_ref());
}

#[test]
fn groundedness_updates_only_on_change() {
    let g = Groundedness::new(true);
    assert!(!g.needs_update(true));
    assert!(g.needs_update(false));
}

#[test]
fn coyote_timer_follows_ground_contact() {
    assert_eq!(coyote_timer_command(true), TimerCommand::Finish);
    assert_eq!(coyote_timer_command(false), TimerCommand::Reset);
}

#[test]
fn default_state_is_idle() {
    assert_eq!(PlayerState::default(), PlayerState::Idle);
}

#[test]
fn grabbing_a_vine_needs_up_or_down_and_a_finished_jump() {
    let up = MovementKeys { up: true, ..no_keys() };
    let s = start_frame(PlayerState::Idle, false, Some(42), true, &up);
    assert_eq!(s.climb, ClimbStep::Grab { x: 42 });
    let s = start_frame(PlayerState::Walking, false, Some(42), false, &up);
    assert_eq!(s.climb, ClimbStep::Off);
    let s = start_frame(PlayerState::Idle, false, Some(42), true, &no_keys());
    assert_eq!(s.climb, ClimbStep::Off);
    let s = start_frame(PlayerState::Idle, false, None, true, &up);
    assert_eq!(s.climb, ClimbStep::Off);
}

#[test]
fn climbing_holds_until_leaving_the_vines_or_jumping() {
    let climbing = PlayerState::Climbing { x: 7 };
    let s = start_frame(climbing, false, Some(99), true, &no_keys());
    assert_eq!(s.climb, ClimbStep::Hold { x: 7 });
    assert!(s.climb.climbing());
    let s = start_frame(climbing, false, None, true, &no_keys());
    assert_eq!(s.climb, ClimbStep::Release { jump: false });
    assert!(!s.climb.climbing());
    let space = MovementKeys { space_pressed: true, ..no_keys() };
    let s = start_frame(climbing, false, Some(7), true, &space);
    assert_eq!(s.climb, ClimbStep::Release { jump: true });
}

#[test]
fn rising_finishes_the_coyote_timer() {
    assert!(start_frame(PlayerState::Idle, true, None, true, &no_keys()).finish_coyote);
    assert!(!start_frame(PlayerState::Idle, false, None, true, &no_keys()).finish_coyote);
}

#[test]
fn climb_motion_follows_the_keys() {
    let keys = MovementKeys { up: true, left: true, ..no_keys() };
    let m = climb_motion(Direction::Right, &keys);
    assert_eq!(m.vertical, 1);
    assert_eq!(m.direction, Direction::Left);
    let keys = MovementKeys { up: true, down: true, left: true, right: true, ..no_keys() };
    let m = climb_motion(Direction::Left, &keys);
    assert_eq!(m.vertical, 0);
    assert_eq!(m.direction, Direction::Right);
    let m = climb_motion(Direction::Left, &MovementKeys { down: true, ..no_keys() });
    assert_eq!(m.vertical, -1);
    assert_eq!(m.direction, Direction::Left);
}

#[test]
fn steering_reads_left_and_right() {
    let s = steer(Direction::Right, true, true, &MovementKeys { left: true, ..no_keys() });
    assert_eq!(s.horizontal, -1);
    assert_eq!(s.direction, Direction::Left);
    assert_eq!(s.state, PlayerState::Walking);
    assert!(!s.locked);
    let s = steer(Direction::Left, true, false, &MovementKeys { left: true, right: true, ..no_keys() });
    assert_eq!(s.horizontal, 0);
    assert_eq!(s.direction, Direction::Right);
    assert_eq!(s.state, PlayerState::Walking);
    let s = steer(Direction::Left, true, true, &no_keys());
    assert_eq!(s.horizontal, 0);
    assert_eq!(s.state, PlayerState::Idle);
}

#[test]
fn wall_jump_locks_steering_in_the_air() {
    let keys = MovementKeys { right: true, ..no_keys() };
    let s = steer(Direction::Left, false, false, &keys);
    assert!(s.locked);
    assert_eq!(s.horizontal, 0);
    assert_eq!(s.direction, Direction::Left);
    assert_eq!(s.state, PlayerState::Walking);
    // On the ground the lock does not hold.
    let s = steer(Direction::Left, false, true, &keys);
    assert!(!s.locked);
    assert_eq!(s.horizontal, 1);
}

#[test]
fn sliding_down_a_wall() {
    let keys = MovementKeys { right: true, ..no_keys() };
    let s = steer(Direction::Right, true, false, &keys);
    let g = ground_step(&s, Direction::Right, false, true, true, true, true, &keys);
    assert!(g.wall_sliding);
    assert!(!g.run);
    assert_eq!(g.state, PlayerState::WallSliding);
    assert_eq!(g.jump, None);
    // Moving up fast: no slide.
    let g = ground_step(&s, Direction::Right, false, true, false, true, true, &keys);
    assert!(!g.wall_sliding);
    assert!(!g.run);
    assert_eq!(g.state, PlayerState::Walking);
}

#[test]
fn running_when_nothing_blocks() {
    let keys = MovementKeys { left: true, ..no_keys() };
    let s = steer(Direction::Right, true, true, &keys);
    let g = ground_step(&s, Direction::Right, true, false, true, true, true, &keys);
    assert!(g.run);
    assert!(!g.wall_sliding);
    assert_eq!(g.state, PlayerState::Walking);
}

#[test]
fn jumps_from_ground_coyote_time_and_walls() {
    let jump = MovementKeys { space_pressed: true, ..no_keys() };
    let s = steer(Direction::Right, true, true, &jump);
    let g = ground_step(&s, Direction::Right, true, false, true, true, true, &jump);
    assert_eq!(g.jump, Some(Jump::Ground));
    // In the air with coyote time left.
    let g = ground_step(&s, Direction::Right, false, false, true, false, true, &jump);
    assert_eq!(g.jump, Some(Jump::Ground));
    // In the air without coyote time.
    let g = ground_step(&s, Direction::Right, false, false, true, true, true, &jump);
    assert_eq!(g.jump, None);
    // The last jump's timer still runs.
    let g = ground_step(&s, Direction::Right, true, false, true, true, false, &jump);
    assert_eq!(g.jump, None);
    // Off a wall: pushed away from the way the player faced.
    let keys = MovementKeys { left: true, up_pressed: true, ..no_keys() };
    let s = steer(Direction::Left, true, false, &keys);
    let g = ground_step(&s, Direction::Left, false, true, true, true, true, &keys);
    assert!(g.wall_sliding);
    assert_eq!(g.jump, Some(Jump::Wall { push: 1 }));
    let keys = MovementKeys { right: true, space_pressed: true, ..no_keys() };
    let s = steer(Direction::Right, true, false, &keys);
    let g = ground_step(&s, Direction::Right, false, true, true, true, true, &keys);
    assert_eq!(g.jump, Some(Jump::Wall { push: -1 }));
}

#[test]
fn held_jump_boosts_while_the_timer_runs() {
    assert!(jump_boost(&MovementKeys { space_held: true, ..no_keys() }, false));
    assert!(jump_boost(&MovementKeys { up: true, ..no_keys() }, false));
    assert!(!jump_boost(&MovementKeys { space_held: true, ..no_keys() }, true));
    assert!(!jump_boost(&no_keys(), false));
}

#[test]
fn walking_animation_alternates() {
    let f = animation_frame(&PlayerState::Walking, Direction::Left, 91, 91, 92, true);
    assert_eq!(f.index, 92);
    assert_eq!(f.flip_x, None);
    let f = animation_frame(&PlayerState::Walking, Direction::Left, 92, 91, 92, true);
    assert_eq!(f.index, 91);
    let f = animation_frame(&PlayerState::Walking, Direction::Left, 92, 91, 92, false);
    assert_eq!(f.index, 92);
    // An unknown frame goes back to idle.
    let f = animation_frame(&PlayerState::Walking, Direction::Left, 5, 91, 92, true);
    assert_eq!(f.index, 91);
}

#[test]
fn other_states_show_the_idle_frame() {
    let f = animation_frame(&PlayerState::Idle, Direction::Left, 92, 91, 92, true);
    assert_eq!(f.index, 91);
    assert_eq!(f.flip_x, None);
    let f = animation_frame(&PlayerState::Climbing { x: 0 }, Direction::Left, 92, 91, 92, false);
    assert_eq!(f.index, 91);
    assert_eq!(f.flip_x, None);
    let f = animation_frame(&PlayerState::WallSliding, Direction::Left, 92, 91, 92, false);
    assert_eq!(f.index, 91);
    assert_eq!(f.flip_x, Some(false));
    let f = animation_frame(&PlayerState::WallSliding, Direction::Right, 92, 91, 92, false);
    assert_eq!(f.flip_x, Some(true));
}

#[test]
fn spring_steps() {
    assert_eq!(spring_step(true, true, true), SpringStep::Release);
    assert_eq!(spring_step(true, true, false), SpringStep::Release);
    assert_eq!(spring_step(false, true, true), SpringStep::Press);
    assert_eq!(spring_step(false, true, false), SpringStep::Wait);
    assert_eq!(spring_step(false, false, true), SpringStep::Wait);
}

#[test]
fn sprite_indices_convert_like_as() {
    assert_eq!(sprite_index(30), 30);
    assert_eq!(sprite_index(15), 15);
    assert_eq!(sprite_index(-1), usize::MAX);
}

#[test]
fn walking_animation_returns_after_two_steps() {
    let once = animation_frame(&PlayerState::Walking, Direction::Right, 91, 91, 92, true);
    let twice = animation_frame(&PlayerState::Walking, Direction::Right, once.index, 91, 92, true);
    assert_eq!(twice.index, 91);
}

#[test]
fn locked_player_neither_slides_nor_runs() {
    let keys = MovementKeys { right: true, space_pressed: true, ..no_keys() };
    let s = steer(Direction::Left, false, false, &keys);
    let g = ground_step(&s, Direction::Left, false, true, true, true, true, &keys);
    assert!(!g.wall_sliding);
    assert!(!g.run);
    assert_eq!(g.state, PlayerState::Walking);
    assert_eq!(g.jump, None);
}

#[test]
fn gravity_is_off_exactly_while_climbing() {
    let up = MovementKeys { up: true, ..no_keys() };
    assert!(start_frame(PlayerState::Idle, false, Some(3), true, &up).gravity_off);
    assert!(start_frame(PlayerState::Climbing { x: 3 }, false, Some(3), true, &no_keys()).gravity_off);
    assert!(!start_frame(PlayerState::Climbing { x: 3 }, false, None, true, &no_keys()).gravity_off);
    assert!(!start_frame(PlayerState::Walking, false, None, true, &up).gravity_off);
}
