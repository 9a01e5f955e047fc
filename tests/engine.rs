use boxfish::boxfish::{
    fits_body, Boxfish, Motion, MoveOutcome, PlayerCollidedAnimation, ResultManager, BOUNCE_FRAMES,
};
use boxfish::collision::{collide_with, Collision};
use boxfish::coords::TileCoords;
use boxfish::gate::{
    apply_gate_to, process_gate_effect_for_each_bit, BoxfishRegister, LogiKind, LogiRegister,
};
use boxfish::stage_manager::StageInfo;
use boxfish::travel::{player_input, Direction, Travel};

fn c(x: i32, y: i32) -> TileCoords {
    TileCoords::from_ivec2(x, y)
}

fn tx(amount: i32) -> Travel {
    Travel { direction: Direction::X, amount }
}

fn ty(amount: i32) -> Travel {
    Travel { direction: Direction::Y, amount }
}

fn gate(x: i32, y: i32, boolean: bool, logikind: LogiKind) -> LogiRegister {
    LogiRegister { coords: c(x, y), boolean, logikind }
}

fn stage(walls: Vec<TileCoords>, gates: Vec<LogiRegister>) -> StageInfo {
    let semis = gates.iter().map(|g| g.coords).collect();
    StageInfo {
        collisions: Collision::from(walls),
        semicollisions: Collision::from(semis),
        gates,
        goals: Vec::new(),
    }
}

fn fish(x: i32, y: i32, bits: &[bool]) -> Boxfish {
    let mut b = Boxfish::spawn_boxfishs_head();
    b.update_player_to_just_loaded_stage(c(x, y), &bits.to_vec());
    b
}

fn values(b: &Boxfish) -> Vec<bool> {
    b.registers.iter().map(|r| r.boolean).collect()
}

#[test]
fn route_runs_along_the_axis() {
    assert_eq!(tx(3).get_route(c(0, 0)), vec![c(1, 0), c(2, 0), c(3, 0)]);
    assert_eq!(tx(-2).get_route(c(0, 0)), vec![c(-1, 0), c(-2, 0)]);
}

#[test]
fn route_along_y_and_of_zero() {
    assert_eq!(ty(2).get_route(c(4, 5)), vec![c(4, 6), c(4, 7)]);
    assert_eq!(ty(-1).get_route(c(4, 5)), vec![c(4, 4)]);
    assert!(tx(0).get_route(c(4, 5)).is_empty());
    assert_eq!(tx(-3).into_ivec2(), (-3, 0));
    assert_eq!(ty(2).into_ivec2(), (0, 2));
}

#[test]
fn sweep_finds_the_first_blocker() {
    let hard = Collision::from(vec![c(2, 0)]);
    assert!(hard.do_collide(&c(0, 0), &tx(3)));
    assert_eq!(hard.collide_at(&c(0, 0), &tx(3)), Some(c(2, 0)));
    assert!(!hard.do_collide(&c(0, 0), &tx(1)));
    assert_eq!(hard.collide_at(&c(0, 0), &tx(-3)), None);
    let two = Collision::from(vec![c(3, 0), c(1, 0)]);
    assert_eq!(two.collide_at(&c(0, 0), &tx(5)), Some(c(1, 0)));
    assert!(collide_with(&c(0, 0), &tx(3), &c(2, 0)));
    assert!(!collide_with(&c(0, 0), &tx(3), &c(0, 0)));
}

#[test]
fn union_keeps_each_cell_once_in_first_order() {
    let a = Collision::from(vec![c(0, 0), c(1, 0), c(0, 0)]);
    let b = Collision::from(vec![c(2, 0), c(1, 0)]);
    let u = a.add(b);
    assert_eq!(u.cells(), &vec![c(0, 0), c(1, 0), c(2, 0)]);
    assert!(u.contains(&c(2, 0)));
    assert!(!u.contains(&c(3, 0)));
}

#[test]
fn gates_apply_their_operators() {
    let mut r = BoxfishRegister::new(true);
    assert!(!apply_gate_to(&mut r, &gate(0, 0, false, LogiKind::And)));
    assert_eq!((r.boolean, r.history.clone()), (false, vec![true]));

    let mut r = BoxfishRegister::new(true);
    apply_gate_to(&mut r, &gate(0, 0, false, LogiKind::Or));
    assert_eq!((r.boolean, r.history.clone()), (true, vec![true]));

    let mut r = BoxfishRegister::new(true);
    apply_gate_to(&mut r, &gate(0, 0, true, LogiKind::Xor));
    assert_eq!((r.boolean, r.history.clone()), (false, vec![true]));

    let mut r = BoxfishRegister::new(false);
    apply_gate_to(&mut r, &gate(0, 0, true, LogiKind::Not));
    assert_eq!((r.boolean, r.history.clone()), (true, vec![false]));

    let mut r = BoxfishRegister::new(false);
    apply_gate_to(&mut r, &gate(0, 0, false, LogiKind::Not));
    assert_eq!((r.boolean, r.history.clone()), (false, vec![]));
}

#[test]
fn undo_gate_restores_and_equal_gate_checks() {
    let mut r = BoxfishRegister::new(true);
    apply_gate_to(&mut r, &gate(0, 0, false, LogiKind::And));
    apply_gate_to(&mut r, &gate(0, 0, false, LogiKind::Undo));
    assert_eq!((r.boolean, r.history.len()), (true, 0));
    apply_gate_to(&mut r, &gate(0, 0, false, LogiKind::Undo));
    assert_eq!((r.boolean, r.history.len()), (true, 0));
    assert!(apply_gate_to(&mut r, &gate(0, 0, false, LogiKind::Equal)));
    assert!(!apply_gate_to(&mut r, &gate(0, 0, true, LogiKind::Equal)));
    assert_eq!((r.boolean, r.history.len()), (true, 0));
}

#[test]
fn each_bit_passes_the_gates_on_its_route_in_order() {
    let gates = vec![
        gate(4, 2, true, LogiKind::Xor),
        gate(4, 1, false, LogiKind::And),
        gate(9, 9, false, LogiKind::And),
    ];
    // register 1 sat two tiles behind a head at (6, 0): at (4, 0)
    let mut r = BoxfishRegister::new(true);
    let veto = process_gate_effect_for_each_bit(1, c(6, 0), &gates, &ty(2), &mut r);
    assert_eq!(veto, None);
    // AND at (4, 1) first, then XOR at (4, 2)
    assert_eq!((r.boolean, r.history.clone()), (true, vec![true, false]));

    let eq = vec![gate(4, 1, true, LogiKind::Equal), gate(4, 2, false, LogiKind::Equal)];
    let mut r = BoxfishRegister::new(false);
    let veto = process_gate_effect_for_each_bit(1, c(6, 0), &eq, &ty(2), &mut r);
    assert_eq!(veto, Some(c(4, 1)));
}

#[test]
fn equal_mismatch_vetoes_the_whole_move() {
    let st = stage(vec![], vec![gate(-1, 1, true, LogiKind::Equal)]);
    let mut b = fish(0, 0, &[false]);
    let mut result = ResultManager::new();
    b.get_expand_input(&st);
    let out = b.boxfish_moving(&st, &ty(1), &mut result);
    assert_eq!(out, MoveOutcome::Vetoed(c(-1, 1)));
    assert_eq!(b.head.tile, c(0, 0));
    assert!(b.head.history.is_empty());
    assert_eq!(values(&b), vec![false]);
    assert_eq!(b.motion, Motion::Settled);
    // a vetoed move is still counted
    assert_eq!(result.steps, 1);
}

#[test]
fn equal_match_lets_the_move_through() {
    let st = stage(vec![], vec![gate(-1, 1, true, LogiKind::Equal)]);
    let mut b = fish(0, 0, &[true]);
    let mut result = ResultManager::new();
    b.get_expand_input(&st);
    assert_eq!(b.boxfish_moving(&st, &ty(1), &mut result), MoveOutcome::Moved);
    assert_eq!(b.head.tile, c(0, 1));
    assert_eq!(b.motion, Motion::Interpolating);
}

#[test]
fn undo_round_trip_after_and_gate() {
    let st = stage(vec![], vec![gate(-1, 1, false, LogiKind::And)]);
    let mut b = fish(0, 0, &[true, true]);
    let mut result = ResultManager::new();
    b.get_expand_input(&st);
    assert_eq!(b.boxfish_moving(&st, &ty(1), &mut result), MoveOutcome::Moved);
    assert_eq!(b.head.tile, c(0, 1));
    assert_eq!(values(&b), vec![false, true]);
    assert_eq!(result.steps, 1);
    b.undo();
    assert_eq!(b.head.tile, c(0, 0));
    assert_eq!(values(&b), vec![true, true]);
    assert_eq!(result.steps, 1);
}

#[test]
fn undo_with_empty_history_changes_nothing() {
    let mut b = fish(3, 4, &[true, false]);
    b.undo();
    assert_eq!(b.head.tile, c(3, 4));
    assert!(b.head.history.is_empty());
    assert_eq!(values(&b), vec![true, false]);
}

#[test]
fn contracted_boxfish_is_blocked_by_gates() {
    let st = stage(vec![], vec![gate(1, 0, true, LogiKind::And)]);
    let mut b = fish(0, 0, &[true]);
    let mut result = ResultManager::new();
    assert_eq!(b.boxfish_moving(&st, &tx(1), &mut result), MoveOutcome::Blocked);
    assert_eq!(b.head.tile, c(0, 0));
    assert_eq!(result.steps, 0);
}

#[test]
fn expansion_stops_next_to_the_wall() {
    let st = stage(vec![c(8, 5)], vec![]);
    let mut b = fish(10, 5, &[true, false]);
    b.get_expand_input(&st);
    assert!(b.head.is_expanding);
    assert_eq!(b.expanding.unwrap().collided_at, Some(2));
    // the tail (segment 2) rests on the cell next to the wall
    assert_eq!(b.segment_ideal_offset(2), 1);
    assert_eq!(b.segment_ideal_offset(0), 0);
    assert_eq!(b.segment_ideal_offset(1), 0);
    assert!(b.on_expanding());
    assert!(!b.head.is_expanding);
    assert_eq!(
        b.motion,
        Motion::Collided(PlayerCollidedAnimation { travel: tx(1), progress: 0 })
    );
}

#[test]
fn free_expansion_stretches_every_segment() {
    let st = stage(vec![c(0, 5)], vec![]);
    let mut b = fish(10, 5, &[true, false]);
    assert_eq!(b.segment_ideal_offset(0), 1);
    assert_eq!(b.segment_ideal_offset(2), 2);
    b.get_expand_input(&st);
    assert_eq!(b.expanding.unwrap().collided_at, None);
    assert_eq!(b.segment_ideal_offset(0), 1);
    assert_eq!(b.segment_ideal_offset(1), 2);
    assert_eq!(b.segment_ideal_offset(2), 3);
    assert!(!b.on_expanding());
    assert!(b.head.is_expanding);
    b.end_expansion();
    assert!(!b.head.is_expanding);
    assert_eq!(b.expanding, None);
}

#[test]
fn blocked_move_is_not_counted() {
    let st = stage(vec![c(1, 0)], vec![]);
    let mut b = fish(0, 0, &[true]);
    let mut result = ResultManager::new();
    assert_eq!(b.boxfish_moving(&st, &tx(1), &mut result), MoveOutcome::Blocked);
    assert_eq!(result.steps, 0);
    assert_eq!(b.head.tile, c(0, 0));
    assert_eq!(
        b.motion,
        Motion::Collided(PlayerCollidedAnimation { travel: tx(1), progress: 0 })
    );
    // while bouncing, input is ignored
    assert_eq!(b.boxfish_moving(&st, &ty(1), &mut result), MoveOutcome::Idle);
}

#[test]
fn body_behind_the_head_is_swept_too() {
    // the wall lies above the tail, two tiles behind the head
    let st = stage(vec![c(-2, 1)], vec![]);
    let mut b = fish(0, 0, &[true]);
    let mut result = ResultManager::new();
    assert_eq!(b.boxfish_moving(&st, &ty(1), &mut result), MoveOutcome::Blocked);
    // but not three tiles behind it
    let st = stage(vec![c(-3, 1)], vec![]);
    let mut b = fish(0, 0, &[true]);
    assert_eq!(b.boxfish_moving(&st, &ty(1), &mut result), MoveOutcome::Moved);
}

#[test]
fn bounce_lasts_its_frames() {
    let st = stage(vec![c(1, 0)], vec![]);
    let mut b = fish(0, 0, &[]);
    let mut result = ResultManager::new();
    b.boxfish_moving(&st, &tx(1), &mut result);
    for k in 0..BOUNCE_FRAMES {
        let frame = b.collided_animation().unwrap();
        assert_eq!(frame.progress, k);
    }
    assert_eq!(b.collided_animation(), None);
    assert_eq!(b.motion, Motion::Settled);
}

#[test]
fn moving_then_arriving_then_moving() {
    let st = stage(vec![], vec![]);
    let mut b = fish(0, 0, &[false]);
    let mut result = ResultManager::new();
    assert_eq!(b.boxfish_moving(&st, &tx(1), &mut result), MoveOutcome::Moved);
    assert_eq!(b.boxfish_moving(&st, &tx(1), &mut result), MoveOutcome::Idle);
    b.arrive();
    assert_eq!(b.boxfish_moving(&st, &tx(0), &mut result), MoveOutcome::Idle);
    assert_eq!(b.boxfish_moving(&st, &tx(1), &mut result), MoveOutcome::Moved);
    assert_eq!(b.head.tile, c(2, 0));
    assert_eq!(b.head.history, vec![c(0, 0), c(1, 0)]);
    assert_eq!(result.steps, 2);
    result.reset_result();
    assert_eq!(result.steps, 0);
}

#[test]
fn goals_are_reached_by_the_occupied_cells() {
    let mut b = fish(5, 0, &[true, true, true]);
    assert!(b.goal_detection_system(&vec![c(4, 0)]));
    assert!(!b.goal_detection_system(&vec![c(3, 0), c(5, 1)]));
    let st = stage(vec![], vec![]);
    b.get_expand_input(&st);
    assert!(b.goal_detection_system(&vec![c(2, 0)]));
    assert!(!b.goal_detection_system(&vec![c(1, 0)]));
}

#[test]
fn direction_keys_map_to_unit_travels() {
    assert_eq!(player_input(true, true, true, true), ty(1));
    assert_eq!(player_input(false, true, true, false), ty(-1));
    assert_eq!(player_input(false, false, true, true), tx(-1));
    assert_eq!(player_input(false, false, false, true), tx(1));
    assert_eq!(player_input(false, false, false, false), tx(0));
}

#[test]
fn world_position_is_sixteen_pixels_per_tile() {
    assert_eq!(c(2, 3).into_vec2(), (32, 48));
    assert_eq!(TileCoords::ivec2_to_vec2(c(-1, 0)), (-16, 0));
}

#[test]
fn collision_picture_puts_the_top_row_first() {
    let set = Collision::from(vec![c(0, 0), c(2, 1)]);
    assert_eq!(set.fmt(), "  #\n#  \n".to_string());
    let frame = Collision::from(vec![c(-1, -1), c(0, -1), c(-1, 0)]);
    assert_eq!(frame.fmt(), "# \n##\n".to_string());
    assert_eq!(Collision::new().fmt(), " \n".to_string());
}

#[test]
fn face_follows_the_state() {
    let st = stage(vec![c(-2, 0)], vec![]);
    let mut b = fish(0, 0, &[true]);
    assert_eq!(b.face_manager(), 0);
    b.get_expand_input(&st);
    assert_eq!(b.face_manager(), 1);
    assert!(b.on_expanding());
    assert_eq!(b.face_manager(), 2);
}

#[test]
fn routes_reach_the_ends_of_the_i32_range() {
    let top = i32::MAX;
    assert_eq!(tx(2).get_route(c(top - 2, 0)), vec![c(top - 1, 0), c(top, 0)]);
    assert_eq!(ty(-2).get_route(c(0, i32::MIN + 2)), vec![c(0, i32::MIN + 1), c(0, i32::MIN)]);
    let far = Collision::from(vec![c(top, 7)]);
    assert_eq!(far.collide_at(&c(top - 3, 7), &tx(3)), Some(c(top, 7)));
    assert!(far.do_collide(&c(top - 3, 7), &tx(3)));
}

#[test]
fn far_away_boxfish_moves_freely() {
    let st = stage(vec![], vec![]);
    let mut b = fish(2_000_000_000, -2_000_000_000, &[true, false]);
    let mut result = ResultManager::new();
    assert_eq!(b.boxfish_moving(&st, &ty(-1), &mut result), MoveOutcome::Moved);
    assert_eq!(b.head.tile, c(2_000_000_000, -2_000_000_001));
    b.undo();
    assert_eq!(b.head.tile, c(2_000_000_000, -2_000_000_000));
}

#[test]
fn moves_past_the_i32_range_are_blocked() {
    let st = stage(vec![], vec![]);
    let mut result = ResultManager::new();
    let mut b = fish(i32::MAX, 0, &[true]);
    assert_eq!(b.boxfish_moving(&st, &tx(1), &mut result), MoveOutcome::Blocked);
    assert_eq!(b.head.tile, c(i32::MAX, 0));
    let mut b = fish(0, i32::MAX, &[true]);
    assert_eq!(b.boxfish_moving(&st, &ty(1), &mut result), MoveOutcome::Blocked);
    // the tail one past the last register would fall below i32::MIN
    let mut b = fish(i32::MIN + 3, 0, &[true]);
    assert_eq!(b.boxfish_moving(&st, &tx(-1), &mut result), MoveOutcome::Blocked);
    assert_eq!(b.boxfish_moving(&st, &tx(1), &mut result), MoveOutcome::Idle);
    b.collided_animation();
    let mut b = fish(i32::MIN + 3, 0, &[true]);
    assert_eq!(b.boxfish_moving(&st, &tx(1), &mut result), MoveOutcome::Moved);
    assert_eq!(result.steps, 1);
}

#[test]
fn body_must_fit_behind_the_head() {
    assert!(fits_body(c(i32::MIN + 3, 0), 1));
    assert!(!fits_body(c(i32::MIN + 2, 0), 1));
    assert!(fits_body(c(i32::MAX, 0), 1_000_000_000));
}
