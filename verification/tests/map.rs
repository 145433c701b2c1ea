use pav_ecs_game::content::{blueprint, DirectionRuleKind};
use pav_ecs_game::geometry::IVec2;
use pav_ecs_game::map::{parse_map, spawn_kind_of, SpawnCell, SpawnKind};

#[test]
fn parses_all_six_entity_types() {
    let (w, h, cells) = parse_map("Xpx\n~i%\ne..");
    assert_eq!((w, h), (3, 3));
    for (pos, kind) in [
        (IVec2::new(0, 0), SpawnKind::Wall),
        (IVec2::new(1, 0), SpawnKind::Player),
        (IVec2::new(2, 0), SpawnKind::Wall),
        (IVec2::new(0, 1), SpawnKind::Electricity),
        (IVec2::new(1, 1), SpawnKind::Light),
        (IVec2::new(2, 1), SpawnKind::Acid),
        (IVec2::new(0, 2), SpawnKind::Enemy),
    ] {
        assert!(cells.contains(&SpawnCell { pos, kind }), "missing {kind:?} at {pos:?}");
    }
    // '.' and unknown chars spawn nothing
    assert_eq!(cells.len(), 7);
}

#[test]
fn handles_bom_and_crlf() {
    let (w, h, cells) = parse_map("\u{feff}Xp\r\neX");
    assert_eq!((w, h), (2, 2));
    assert_eq!(cells.len(), 4);
}

#[test]
fn empty_input_yields_empty_world() {
    let (w, h, cells) = parse_map("");
    assert_eq!((w, h), (0, 0));
    assert!(cells.is_empty());
}

#[test]
fn map_width_is_the_longest_row_and_cells_are_row_major() {
    let (w, h, cells) = parse_map("p\n..e\n\nX\n");
    assert_eq!((w, h), (3, 4));
    assert_eq!(
        cells,
        vec![
            SpawnCell { pos: IVec2::new(0, 0), kind: SpawnKind::Player },
            SpawnCell { pos: IVec2::new(2, 1), kind: SpawnKind::Enemy },
            SpawnCell { pos: IVec2::new(0, 3), kind: SpawnKind::Wall },
        ]
    );
}

#[test]
fn a_lone_carriage_return_ends_the_last_row() {
    let (w, h, _) = parse_map("XX\r");
    assert_eq!((w, h), (2, 1));
}

#[test]
fn glyph_table() {
    assert_eq!(spawn_kind_of('x'), Some(SpawnKind::Wall));
    assert_eq!(spawn_kind_of('X'), Some(SpawnKind::Wall));
    assert_eq!(spawn_kind_of('%'), Some(SpawnKind::Acid));
    assert_eq!(spawn_kind_of('#'), None);
}

#[test]
fn only_walls_stop_sight_and_actors_occupy_cells() {
    let wall = blueprint(SpawnKind::Wall);
    assert!(wall.collider && wall.blocks_vision && wall.wall_tile);
    assert_eq!(wall.glyph.ch, '#');
    let player = blueprint(SpawnKind::Player);
    assert!(player.collider && !player.blocks_vision && player.mobile);
    assert_eq!(player.sensor_radius, Some(16));
    let enemy = blueprint(SpawnKind::Enemy);
    assert_eq!(enemy.direction_rule, Some(DirectionRuleKind::V));
    assert_eq!(enemy.glyph.ch, '☺');
    let lamp = blueprint(SpawnKind::Light);
    assert!(!lamp.collider);
    assert_eq!(lamp.light.unwrap().value, 196);
}
