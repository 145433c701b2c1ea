use pav_ecs_game::geometry::{EntityId, IVec2};
use pav_ecs_game::grid::MapGrid;
use pav_ecs_game::resolution::{
    claim_for, colliders_own_their_cells, pass_moves, resolve_collect, resolve_commit, resolve_unmap, CollisionEvent, MapMove,
    MoveClaim, Resolution,
};
use pav_ecs_game::simulation::{
    commit_move, decay_axis, friction, key_direction, move_commands, movement, player_input, recharge_tokens, relative_position,
    simulation_busy, update_direction, BoundState, BoundTo, MoveCommand, MoveKeys, Mover, PendingPos, Tokens,
    TurnPacing, TurnState, WorkItem,
};

fn entity(index: u32) -> EntityId {
    EntityId { index, generation: 0 }
}

fn claim(e: EntityId, from: Option<IVec2>, dest: IVec2) -> MoveClaim {
    MoveClaim { entity: e, from, dest, blocks_vision: false }
}

/// One resolve pass: collect, leave old cells, enter new ones.
fn pass(grid: &mut MapGrid, claims: &Vec<MoveClaim>) -> Resolution {
    let resolution = resolve_collect(grid, claims);
    let moves = pass_moves(claims, &resolution.granted);
    resolve_unmap(grid, &moves);
    resolve_commit(grid, &moves);
    resolution
}

fn direct_intents_scenario() {
    let mut grid = MapGrid::new(8, 8);
    let mover = entity(0);
    let newcomer = entity(1);
    grid.set(IVec2::new(1, 1), mover);
    let claims = vec![
        claim(mover, Some(IVec2::new(1, 1)), IVec2::new(-1, 9)),
        claim(newcomer, None, IVec2::new(8, 0)),
    ];
    let r = pass(&mut grid, &claims);
    assert_eq!(r.granted[0], Some(IVec2::new(7, 1)));
    assert_eq!(grid.get(IVec2::new(7, 1)), Some(mover));
    assert_eq!(grid.get(IVec2::new(1, 1)), None);
    assert_eq!(r.granted[1], Some(IVec2::zero()));
    assert_eq!(grid.get(IVec2::zero()), Some(newcomer));
}

#[test]
fn direct_intents_wrap_before_commit_and_first_placement() {
    direct_intents_scenario();
}

#[test]
fn direct_intents_wrap_and_support_first_placement() {
    direct_intents_scenario();
}

fn recharge_scenario() {
    let mut tokens = vec![Tokens { count: 0, recharge: 1 }];
    // Nobody holds a token: the all-spent path recharges.
    assert!(recharge_tokens(&mut tokens, true, false));
    assert_eq!(tokens[0].count, 1, "recharge assigns the waiter value");
}

#[test]
fn sim_token_recharge_assigns_instead_of_adding() {
    recharge_scenario();
}

#[test]
fn tests_token_recharge_assigns_instead_of_adding() {
    recharge_scenario();
}

fn swap_scenario() {
    let mut grid = MapGrid::new(8, 8);
    let a = entity(0);
    let b = entity(1);
    grid.set(IVec2::new(1, 1), a);
    grid.set(IVec2::new(2, 1), b);
    let claims = vec![
        claim(a, Some(IVec2::new(1, 1)), IVec2::new(2, 1)),
        claim(b, Some(IVec2::new(2, 1)), IVec2::new(1, 1)),
    ];
    let r = pass(&mut grid, &claims);
    // Both blocked: intents consumed, cells kept.
    assert_eq!(r.granted, vec![None, None]);
    assert_eq!(grid.get(IVec2::new(1, 1)), Some(a));
    assert_eq!(grid.get(IVec2::new(2, 1)), Some(b));
    // ...and two collision events were recorded.
    assert_eq!(r.collisions.len(), 2);
    assert_eq!(r.collisions[0], CollisionEvent { source: a, target: b });
}

#[test]
fn swap_and_follow_are_blocked_conservatively() {
    swap_scenario();
}

#[test]
fn swaps_are_blocked_conservatively() {
    swap_scenario();
}

fn single_winner_scenario() {
    let mut grid = MapGrid::new(8, 8);
    let first = entity(0);
    let second = entity(1);
    grid.set(IVec2::new(0, 0), first);
    grid.set(IVec2::new(2, 0), second);
    let claims = vec![
        claim(first, Some(IVec2::new(0, 0)), IVec2::new(1, 0)),
        claim(second, Some(IVec2::new(2, 0)), IVec2::new(1, 0)),
    ];
    let r = pass(&mut grid, &claims);
    let winner = grid.get(IVec2::new(1, 0)).expect("a winner occupies the cell");
    assert!(winner == first || winner == second, "winner must be one claimant");
    let loser = if winner == first { second } else { first };
    let loser_home = if loser == first { IVec2::new(0, 0) } else { IVec2::new(2, 0) };
    // Loser kept its old cell.
    assert_eq!(grid.get(loser_home), Some(loser));
    assert_eq!(r.collisions.len(), 1);
}

#[test]
fn single_winner_for_one_free_cell() {
    single_winner_scenario();
}

#[test]
fn one_claimant_wins_a_free_cell() {
    single_winner_scenario();
}

fn destruction_scenario() {
    let mut grid = MapGrid::new(8, 8);
    let e = entity(0);
    grid.set(IVec2::new(3, 3), e);
    let doomed = vec![MapMove { entity: e, from: Some(IVec2::new(3, 3)), to: None, blocks_vision: true }];
    resolve_unmap(&mut grid, &doomed);
    assert_eq!(grid.get(IVec2::new(3, 3)), None);
}

#[test]
fn destroy_removes_from_map_before_despawn() {
    destruction_scenario();
}

#[test]
fn destruction_clears_the_map() {
    destruction_scenario();
}

#[test]
fn claims_are_processed_in_creation_order() {
    let mut grid = MapGrid::new(4, 4);
    let older = EntityId { index: 1, generation: 0 };
    let newer = EntityId { index: 5, generation: 0 };
    // Listed newest first; the older entity still wins.
    let claims = vec![claim(newer, None, IVec2::new(2, 2)), claim(older, None, IVec2::new(2, 2))];
    let r = pass(&mut grid, &claims);
    assert_eq!(r.order, vec![1, 0]);
    assert_eq!(r.granted, vec![None, Some(IVec2::new(2, 2))]);
    assert_eq!(grid.get(IVec2::new(2, 2)), Some(older));
    assert_eq!(r.collisions, vec![CollisionEvent { source: newer, target: older }]);
}

#[test]
fn entering_a_cell_vacated_in_the_same_pass_is_blocked() {
    let mut grid = MapGrid::new(8, 8);
    let leader = entity(0);
    let follower = entity(1);
    grid.set(IVec2::new(2, 0), leader);
    grid.set(IVec2::new(1, 0), follower);
    let claims = vec![
        claim(leader, Some(IVec2::new(2, 0)), IVec2::new(3, 0)),
        claim(follower, Some(IVec2::new(1, 0)), IVec2::new(2, 0)),
    ];
    let r = pass(&mut grid, &claims);
    assert_eq!(r.granted, vec![Some(IVec2::new(3, 0)), None]);
    assert_eq!(grid.get(IVec2::new(2, 0)), None);
    assert_eq!(grid.get(IVec2::new(1, 0)), Some(follower));
    let bodies = vec![(leader, IVec2::new(3, 0)), (follower, IVec2::new(1, 0))];
    assert!(colliders_own_their_cells(&grid, &bodies));
    assert!(!colliders_own_their_cells(&grid, &vec![(leader, IVec2::new(2, 0))]));
}

#[test]
fn commands_need_a_token_and_spend_one() {
    let step = MoveCommand { target: IVec2::new(1, 0), relative: true, active: true };
    let mut movers = vec![
        Mover { command: step, speed: IVec2::zero(), tokens: Tokens { count: 1, recharge: 1 } },
        Mover { command: step, speed: IVec2::zero(), tokens: Tokens { count: 0, recharge: 1 } },
    ];
    assert!(move_commands(&mut movers));
    assert_eq!(movers[0].speed, IVec2::new(1, 0));
    assert_eq!(movers[0].tokens.count, 0);
    assert!(!movers[0].command.active);
    // Without a token the command waits.
    assert_eq!(movers[1].speed, IVec2::zero());
    assert!(movers[1].command.active);
    assert!(!move_commands(&mut movers[..1].to_vec()));
}

#[test]
fn speed_becomes_a_wrapped_move_intent() {
    let grid = MapGrid::new(8, 8);
    assert_eq!(
        movement(&grid, IVec2::new(7, 0), IVec2::new(1, 0), PendingPos::Stay),
        PendingPos::MoveTo(IVec2::new(0, 0))
    );
    assert_eq!(movement(&grid, IVec2::new(3, 3), IVec2::zero(), PendingPos::Stay), PendingPos::Stay);
    assert_eq!(
        movement(&grid, IVec2::new(3, 3), IVec2::new(0, 1), PendingPos::RemoveFromMap),
        PendingPos::RemoveFromMap
    );
}

#[test]
fn friction_decays_toward_zero() {
    assert_eq!(decay_axis(3, 1), 2);
    assert_eq!(decay_axis(-3, 1), -2);
    assert_eq!(decay_axis(1, 1), 0);
    assert_eq!(decay_axis(-1, 5), 0);
    assert_eq!(friction(IVec2::new(1, -2), 1), IVec2::new(0, -1));
    assert_eq!(friction(IVec2::new(4, 0), 0), IVec2::new(4, 0));
}

#[test]
fn facing_follows_speed() {
    assert_eq!(update_direction(IVec2::new(0, 1), IVec2::new(1, 0)), IVec2::new(0, 1));
    assert_eq!(update_direction(IVec2::zero(), IVec2::new(1, 0)), IVec2::new(1, 0));
}

#[test]
fn bound_marker_stays_ahead_of_its_parent() {
    let bound = BoundTo { offset: IVec2::new(1, 0), offset_dir: IVec2::new(1, 0) };
    let state = BoundState { pos: IVec2::new(5, 5), prev: IVec2::new(5, 5), facing: IVec2::new(1, 0) };
    // Parent at (4, 5) facing down: the marker goes below it.
    let next = relative_position(IVec2::new(4, 5), IVec2::new(0, 1), bound, state);
    assert_eq!(next.pos, IVec2::new(4, 6));
    assert_eq!(next.prev, IVec2::new(5, 5));
    assert_eq!(next.facing, IVec2::new(0, 1));
    // Facing left puts it on the left.
    let left = relative_position(IVec2::new(4, 5), IVec2::new(-1, 0), bound, next);
    assert_eq!(left.pos, IVec2::new(3, 5));
    assert_eq!(left.prev, IVec2::new(4, 6));
}

#[test]
fn recharge_waits_for_the_timer_while_tokens_remain() {
    let mut tokens = vec![Tokens { count: 1, recharge: 1 }, Tokens { count: 0, recharge: 2 }];
    assert!(!recharge_tokens(&mut tokens, true, false));
    assert_eq!(tokens[1].count, 0);
    assert!(!recharge_tokens(&mut tokens, false, true));
    assert!(recharge_tokens(&mut tokens, true, true));
    assert_eq!((tokens[0].count, tokens[1].count), (1, 2));
}

#[test]
fn turn_phase_follows_remaining_work() {
    let idle = WorkItem { command_ready: false, moving: false, pending: false, doomed: false };
    assert!(!simulation_busy(&vec![idle, idle]));
    assert!(simulation_busy(&vec![idle, WorkItem { moving: true, ..idle }]));
    let mut turn = TurnState::new();
    turn.turn_tick();
    assert_eq!(turn.tick, 1);
    assert_eq!(turn.phase_name(), "TickUpdate");
    turn.simulation = true;
    turn.turn_tick();
    assert_eq!(turn.tick, 1);
    assert_eq!(turn.phase_name(), "Simulation");
}

#[test]
fn pacing_holds_turns_apart() {
    let mut pacing = TurnPacing::new(100);
    assert!(pacing.can_advance());
    pacing.started();
    pacing.tick(60);
    assert!(!pacing.can_advance());
    pacing.tick(40);
    assert!(pacing.can_advance());
}

#[test]
fn keys_queue_steps_only_when_the_turn_allows() {
    let up = MoveKeys { up: true, down: false, left: true, right: false };
    assert_eq!(key_direction(up), Some(IVec2::new(0, -1)));
    let idle = MoveCommand::idle();
    let with_token = Tokens { count: 1, recharge: 1 };
    let queued = player_input(up, false, idle, with_token);
    assert_eq!(queued, MoveCommand { target: IVec2::new(0, -1), relative: true, active: true });
    assert_eq!(player_input(up, true, idle, with_token), idle);
    assert_eq!(player_input(up, false, idle, Tokens { count: 0, recharge: 1 }), idle);
}

#[test]
fn tokenless_commands_never_hold_the_turn() {
    let order = MoveCommand { target: IVec2::new(1, 0), relative: true, active: true };
    assert!(!simulation_busy(&vec![WorkItem::for_command(order, Tokens { count: 0, recharge: 1 })]));
    assert!(simulation_busy(&vec![WorkItem::for_command(order, Tokens { count: 1, recharge: 1 })]));
    assert!(!simulation_busy(&vec![WorkItem::for_speed(IVec2::zero()), WorkItem::for_pending(PendingPos::Stay)]));
    assert!(simulation_busy(&vec![WorkItem::for_pending(PendingPos::RemoveFromMap)]));
    assert!(simulation_busy(&vec![WorkItem::for_doomed()]));
}

#[test]
fn only_live_colliders_claim_cells() {
    let e = entity(3);
    let from = Some(IVec2::new(1, 1));
    let to = PendingPos::MoveTo(IVec2::new(2, 1));
    assert_eq!(
        claim_for(e, from, to, true, false, true),
        Some(MoveClaim { entity: e, from, dest: IVec2::new(2, 1), blocks_vision: false })
    );
    assert_eq!(claim_for(e, from, to, true, false, false).map(|c| c.blocks_vision), Some(true));
    assert_eq!(claim_for(e, from, to, false, false, true), None);
    assert_eq!(claim_for(e, from, to, true, true, true), None);
    assert_eq!(claim_for(e, from, PendingPos::Stay, true, false, true), None);
}

#[test]
fn a_resolved_intent_moves_and_remembers() {
    let here = IVec2::new(4, 4);
    let before = IVec2::new(3, 4);
    assert_eq!(commit_move(here, before, PendingPos::Stay), (here, before, PendingPos::Stay));
    assert_eq!(
        commit_move(here, before, PendingPos::MoveTo(IVec2::new(5, 4))),
        (IVec2::new(5, 4), here, PendingPos::Stay)
    );
    assert_eq!(commit_move(here, before, PendingPos::RemoveFromMap), (here, here, PendingPos::Stay));
}

#[test]
fn moving_actors_keep_the_blocker_revision() {
    let mut grid = MapGrid::new(8, 8);
    let a = entity(0);
    let b = entity(1);
    grid.set_with_blocking(IVec2::new(1, 1), a, false);
    grid.set_with_blocking(IVec2::new(4, 4), b, false);
    let before = grid.blocker_revision;
    let claims = vec![
        claim(a, Some(IVec2::new(1, 1)), IVec2::new(2, 1)),
        claim(b, Some(IVec2::new(4, 4)), IVec2::new(4, 5)),
    ];
    pass(&mut grid, &claims);
    assert_eq!(grid.get(IVec2::new(2, 1)), Some(a));
    assert_eq!(grid.blocker_revision, before);
    // A sight-blocking body that moves does change the layout.
    let wall = entity(2);
    grid.set(IVec2::new(6, 6), wall);
    let before = grid.blocker_revision;
    let moving_wall = vec![MoveClaim { entity: wall, from: Some(IVec2::new(6, 6)), dest: IVec2::new(6, 7), blocks_vision: true }];
    pass(&mut grid, &moving_wall);
    assert_eq!(grid.blocker_revision, before + 2);
}
