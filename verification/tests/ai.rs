use pav_ecs_game::ai::{carry_out, decide, enemy_tick, perceive, sees, EnemyAct, EnemyMind, EnemyView};
use pav_ecs_game::geometry::{EntityId, IVec2};
use pav_ecs_game::grid::MapGrid;
use pav_ecs_game::simulation::{MoveCommand, Tokens};
use rand::rngs::StdRng;
use rand::SeedableRng;

const ENEMY: IVec2 = IVec2 { x: 1, y: 1 };
const PLAYER: IVec2 = IVec2 { x: 5, y: 1 };
const PLAYER_ID: EntityId = EntityId { index: 0, generation: 1 };

struct Scene {
    grid: MapGrid,
    rng: StdRng,
    mind: EnemyMind,
    act: Option<EnemyAct>,
    command: MoveCommand,
    tokens: i32,
}

fn headless(tokens: i32) -> Scene {
    Scene {
        grid: MapGrid::new(8, 8),
        rng: StdRng::seed_from_u64(42),
        mind: EnemyMind::new(),
        act: None,
        command: MoveCommand::idle(),
        tokens,
    }
}

fn wall_at(scene: &mut Scene, pos: IVec2, index: u32) {
    scene.grid.set_with_blocking(pos, EntityId { index, generation: 1 }, true);
}

/// One frame of the enemy's turn: perceive, tick, and act on the decision.
fn update(scene: &mut Scene) {
    let view = EnemyView { pos: ENEMY, tokens: Tokens { count: scene.tokens, recharge: 1 }, doomed: false };
    perceive(&scene.grid, false, Some((PLAYER_ID, PLAYER)), view, &mut scene.mind, &mut scene.rng);
    scene.act = enemy_tick(&scene.mind, scene.act);
    if let Some(act) = scene.act {
        scene.command = carry_out(act, &scene.mind, scene.command);
    }
}

#[test]
fn a_visible_player_is_hunted() {
    let mut scene = headless(1);
    update(&mut scene);
    assert_eq!(scene.act, Some(EnemyAct::Hunt(IVec2::new(1, 0))));
    assert!(scene.command.active && scene.command.relative);
    assert_eq!(scene.command.target, IVec2::new(1, 0));
}

#[test]
fn a_wall_between_hides_the_player() {
    let mut scene = headless(1);
    wall_at(&mut scene, IVec2::new(3, 1), 7);
    update(&mut scene);
    assert!(matches!(scene.act, Some(EnemyAct::Wander(_))));
}

#[test]
fn a_lost_player_is_searched_for_where_last_seen() {
    let mut scene = headless(1);
    update(&mut scene);
    wall_at(&mut scene, IVec2::new(3, 1), 7);
    update(&mut scene);
    assert_eq!(scene.act, Some(EnemyAct::Search(IVec2::new(1, 0))));
    assert_eq!(scene.mind.last_seen, Some(PLAYER));
}

#[test]
fn an_enemy_without_a_token_is_not_ticked() {
    let mut scene = headless(0);
    update(&mut scene);
    assert_eq!(scene.act, None);
    assert!(!scene.command.active);
}

#[test]
fn sight_ends_at_the_radius() {
    let grid = MapGrid::new(20, 3);
    assert!(sees(&grid, IVec2::new(1, 1), IVec2::new(9, 1)));
    assert!(!sees(&grid, IVec2::new(1, 1), IVec2::new(10, 1)));
}

#[test]
fn the_wandering_roll_is_one_of_the_five_choices() {
    let mut scene = headless(1);
    wall_at(&mut scene, IVec2::new(3, 1), 7);
    for _ in 0..20 {
        update(&mut scene);
        let roll = scene.mind.roll;
        assert!(roll.x.abs() + roll.y.abs() <= 1);
    }
}

#[test]
fn search_is_forgotten_on_arrival() {
    let mut mind = EnemyMind::new();
    mind.has_turn = true;
    mind.pos = IVec2::new(2, 2);
    mind.last_seen = Some(IVec2::new(2, 2));
    mind.roll = IVec2::new(0, 1);
    mind.open = [true; 4];
    // Standing on the remembered cell there is no closing step: wander.
    assert_eq!(decide(&mind), EnemyAct::Wander(IVec2::new(0, 1)));
}

#[test]
fn pursuit_prefers_the_longer_axis_then_the_other() {
    let mut mind = EnemyMind::new();
    mind.has_turn = true;
    mind.pos = IVec2::new(0, 0);
    mind.player = Some(IVec2::new(3, -1));
    mind.open = [true, true, true, true];
    assert_eq!(decide(&mind), EnemyAct::Hunt(IVec2::new(1, 0)));
    // +X blocked: the shorter axis (-Y) is taken.
    mind.open = [false, true, true, true];
    assert_eq!(decide(&mind), EnemyAct::Hunt(IVec2::new(0, -1)));
    // Both closing steps blocked: fall back to the roll.
    mind.open = [false, true, true, false];
    mind.roll = IVec2::new(-1, 0);
    assert_eq!(decide(&mind), EnemyAct::Wander(IVec2::new(-1, 0)));
}

#[test]
fn a_standing_act_is_kept_without_a_turn() {
    let mind = EnemyMind::new();
    let act = Some(EnemyAct::Search(IVec2::new(0, 1)));
    assert_eq!(enemy_tick(&mind, act), act);
    let command = MoveCommand::idle();
    assert_eq!(carry_out(EnemyAct::Hunt(IVec2::new(1, 0)), &mind, command), command);
}
