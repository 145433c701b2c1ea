use pav_ecs_game::agent::{palette_name, ready_for_input, request_move, visual_rows, MoveDirection, MoveRejection};
use pav_ecs_game::autotile::{direction_glyph, tile_masks, wall_glyph};
use pav_ecs_game::content::{blueprint, place_colliders, player_marker, DirectionRuleKind};
use pav_ecs_game::frame::{compose_frame, Glyph, GlyphAt, RenderBuffers, Vis};
use pav_ecs_game::geometry::{EntityId, IVec2};
use pav_ecs_game::grid::MapGrid;
use pav_ecs_game::lighting::{LightCell, LightKind, GRAY, RED, WHITE};
use pav_ecs_game::map::{parse_map, SpawnCell, SpawnKind};
use pav_ecs_game::simulation::{player_input, MoveCommand, MoveKeys, Tokens};
use pav_ecs_game::tiles::{DirectionTileRule, TileRule};

const WALL_RULE: &str = "╔═╦═╗.≡.╞╡.╥..\n║.║.║......╨..\n╠═╬═╣.........\n║.║.║.........\n╚═╩═╝.........\n..............\n";

fn id(index: u32) -> EntityId {
    EntityId { index, generation: 1 }
}

#[test]
fn the_grid_reads_back_what_was_placed() {
    let mut grid = MapGrid::new(4, 3);
    assert_eq!((grid.width, grid.height), (4, 3));
    grid.set_with_blocking(IVec2::new(1, 2), id(9), false);
    assert_eq!(grid.get(IVec2::new(1, 2)), Some(id(9)));
    assert!(!grid.blocks_vision(IVec2::new(1, 2)));
    assert_eq!(grid.revision, 1);
    assert_eq!(grid.blocker_revision, 0);
    grid.set(IVec2::new(1, 2), id(9));
    assert!(grid.blocks_vision(IVec2::new(1, 2)));
    assert_eq!(grid.blocker_revision, 1);
    // Placing the same occupant again changes nothing.
    grid.set(IVec2::new(1, 2), id(9));
    assert_eq!(grid.revision, 2);
    grid.clear(IVec2::new(1, 2));
    assert_eq!(grid.get(IVec2::new(1, 2)), None);
    assert_eq!((grid.revision, grid.blocker_revision), (3, 2));
    // Off the grid nothing happens.
    grid.set(IVec2::new(4, 0), id(1));
    assert_eq!(grid.revision, 3);
    assert_eq!(grid.get(IVec2::new(-1, 0)), None);
}

#[test]
fn positions_wrap_around_the_grid() {
    let grid = MapGrid::new(0, -3);
    assert_eq!((grid.width, grid.height), (1, 1));
    let grid = MapGrid::new(5, 4);
    assert_eq!(grid.safe_pos(IVec2::new(-1, 4)), IVec2::new(4, 0));
    assert_eq!(grid.safe_pos(IVec2::new(12, -9)), IVec2::new(2, 3));
    assert_eq!(grid.idx(IVec2::new(2, 3)), Some(17));
    assert_eq!(grid.idx(IVec2::new(5, 0)), None);
    assert!(grid.is_valid(IVec2::new(4, 3)));
}

#[test]
fn a_requested_move_is_queued_relative() {
    let mut command = MoveCommand::idle();
    let tokens = Tokens { count: 1, recharge: 1 };
    assert_eq!(request_move(false, &mut command, tokens, MoveDirection::Right), Ok(()));
    assert_eq!(command, MoveCommand { target: IVec2::new(1, 0), relative: true, active: true });
    assert_eq!(MoveDirection::Up.vector(), IVec2::new(0, -1));
    assert_eq!(MoveDirection::Wait.vector(), IVec2::new(0, 0));
}

#[test]
fn each_refusal_has_its_reason() {
    let tokens = Tokens { count: 1, recharge: 1 };
    let mut command = MoveCommand::idle();
    assert_eq!(request_move(true, &mut command, tokens, MoveDirection::Left), Err(MoveRejection::SimulationBusy));
    assert_eq!(command, MoveCommand::idle());
    let mut pending = MoveCommand { target: IVec2::new(0, 1), relative: true, active: true };
    assert_eq!(request_move(false, &mut pending, tokens, MoveDirection::Left), Err(MoveRejection::CommandPending));
    assert_eq!(pending.target, IVec2::new(0, 1));
    let empty = Tokens { count: 0, recharge: 1 };
    assert_eq!(request_move(false, &mut command, empty, MoveDirection::Left), Err(MoveRejection::NoTokens));
    assert_eq!(MoveRejection::SimulationBusy.reason(), "simulation_busy");
    assert_eq!(MoveRejection::CommandPending.reason(), "command_pending");
    assert_eq!(MoveRejection::NoTokens.reason(), "no_tokens");
}

#[test]
fn readiness_needs_a_token_and_no_pending_command() {
    assert!(ready_for_input(false, 1, false));
    assert!(!ready_for_input(true, 1, false));
    assert!(!ready_for_input(false, 0, false));
    assert!(!ready_for_input(false, 1, true));
}

#[test]
fn the_visual_grid_has_one_row_per_map_row() {
    let mut buffers = RenderBuffers::new(3, 2);
    // Everything is known; only the player's cell is in sight, so empty
    // floor shows only on hex cells.
    let mut vis = vec![Vis::known_only(); 6];
    vis[5] = Vis::visible_and_known();
    let light = vec![LightCell { value: 255, kind: LightKind::Neutral }; 6];
    let glyphs = vec![GlyphAt { pos: IVec2::new(2, 1), glyph: Glyph::new('@', 1, WHITE), moves: true }];
    compose_frame(&mut buffers, &vis, &light, &glyphs);
    let (rows, colors) = visual_rows(&buffers);
    assert_eq!(rows.len(), 2);
    assert_eq!(rows[0], vec!['.', ' ', '.']);
    assert_eq!(rows[1], vec![' ', '.', '@']);
    assert_eq!(colors[1][2], WHITE);
    assert_eq!(colors.len(), 2);
}

#[test]
fn walls_block_and_lights_do_not() {
    let wall = blueprint(SpawnKind::Wall);
    assert!(wall.collider && wall.blocks_vision && wall.wall_tile);
    assert_eq!(wall.glyph, Glyph::new('#', 1, GRAY));
    let player = blueprint(SpawnKind::Player);
    assert!(player.collider && player.player && player.mobile && !player.blocks_vision);
    assert_eq!(player.sensor_radius, Some(16));
    assert_eq!(player.tokens_recharge, Some(1));
    let enemy = blueprint(SpawnKind::Enemy);
    assert!(enemy.enemy && enemy.collider);
    assert_eq!(enemy.glyph, Glyph::new('\u{263a}', 1, RED));
    assert_eq!(enemy.direction_rule, Some(DirectionRuleKind::V));
    let lamp = blueprint(SpawnKind::Light);
    assert!(!lamp.collider && !lamp.blocks_vision);
    assert_eq!(lamp.light.map(|l| (l.radius, l.kind, l.value)), Some((16, LightKind::Fire, 196)));
    assert_eq!(blueprint(SpawnKind::Acid).light.map(|l| l.kind), Some(LightKind::Acid));
    assert_eq!(blueprint(SpawnKind::Electricity).glyph.ch, '\u{3a9}');
    let (bound, glyph, rule) = player_marker();
    assert_eq!(bound.offset, IVec2::new(1, 0));
    assert_eq!(glyph.ch, 'i');
    assert_eq!(rule, DirectionRuleKind::Triangle);
}

#[test]
fn wall_masks_count_wrapped_neighbours() {
    let grid = MapGrid::new(4, 3);
    // A horizontal bar of three walls plus one below its middle.
    let tiles = vec![IVec2::new(0, 0), IVec2::new(1, 0), IVec2::new(2, 0), IVec2::new(1, 1)];
    let masks = tile_masks(&grid, &tiles);
    // (0,0): right neighbour; its left neighbour wraps to (3,0), empty.
    assert_eq!(masks[0], 1);
    // (1,0): right, below and left.
    assert_eq!(masks[1], 1 | 2 | 4);
    // (2,0): left only.
    assert_eq!(masks[2], 4);
    // (1,1): above only.
    assert_eq!(masks[3], 8);
    let rule = TileRule::parse(WALL_RULE);
    assert_eq!(wall_glyph(&rule, masks[1]), '╦');
    assert_eq!(wall_glyph(&rule, 0), '≡');
    assert_eq!(wall_glyph(&rule, 15 + 16), '╬');
}

#[test]
fn walls_wrap_across_the_edge() {
    let grid = MapGrid::new(3, 1);
    let tiles = vec![IVec2::new(0, 0), IVec2::new(2, 0)];
    let masks = tile_masks(&grid, &tiles);
    // Each sees the other across the wrap, and itself above and below.
    assert_eq!(masks[0], 4 | 2 | 8);
    assert_eq!(masks[1], 1 | 2 | 8);
}

#[test]
fn facing_picks_the_direction_glyph() {
    let rule = DirectionTileRule::parse(".^.\n<x>\n.V.\n").unwrap();
    assert_eq!(direction_glyph(&rule, IVec2::new(1, 0)), '>');
    assert_eq!(direction_glyph(&rule, IVec2::new(-2, 1)), '<');
    assert_eq!(direction_glyph(&rule, IVec2::new(0, 1)), 'V');
    assert_eq!(direction_glyph(&rule, IVec2::new(0, -1)), '^');
    assert_eq!(direction_glyph(&rule, IVec2::new(0, 0)), 'x');
}

#[test]
fn palette_indices_have_client_names() {
    assert_eq!(palette_name(0), "black");
    assert_eq!(palette_name(4), "dark_red");
    assert_eq!(palette_name(8), "dark_gray");
    assert_eq!(palette_name(15), "white");
}

#[test]
fn spawned_colliders_own_their_cells() {
    let (width, height, cells) = parse_map("Xp.\n~ie\n");
    let mut grid = MapGrid::new(width, height);
    let placed: Vec<(EntityId, SpawnCell)> = cells.iter().enumerate().map(|(i, c)| (id(i as u32), *c)).collect();
    place_colliders(&mut grid, &placed);
    assert_eq!(grid.get(IVec2::new(0, 0)), Some(id(0)));
    assert!(grid.blocks_vision(IVec2::new(0, 0)));
    assert_eq!(grid.get(IVec2::new(1, 0)), Some(id(1)));
    assert!(!grid.blocks_vision(IVec2::new(1, 0)));
    // Lights and fields do not occupy their cells.
    assert_eq!(grid.get(IVec2::new(0, 1)), None);
    assert_eq!(grid.get(IVec2::new(1, 1)), None);
    assert_eq!(grid.get(IVec2::new(2, 1)), Some(id(4)));
    // Three cells changed; only the wall's blocks sight.
    assert_eq!(grid.revision, 3);
    assert_eq!(grid.blocker_revision, 1);
}

#[test]
fn remote_moves_queue_what_the_keyboard_queues() {
    let tokens = Tokens { count: 1, recharge: 1 };
    let mut remote = MoveCommand::idle();
    assert_eq!(request_move(false, &mut remote, tokens, MoveDirection::Down), Ok(()));
    let keys = MoveKeys { up: false, down: true, left: false, right: false };
    assert_eq!(player_input(keys, false, MoveCommand::idle(), tokens), remote);
}
