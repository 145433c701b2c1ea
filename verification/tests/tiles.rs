use pav_ecs_game::geometry::Direction;
use pav_ecs_game::tiles::{DirectionTileRule, TileRule};

/// Wall rule drawing: every connectivity mask appears once.
const WALL_RULE: &str = "╔═╦═╗.≡.╞╡.╥..\n║.║.║......╨..\n╠═╬═╣.........\n║.║.║.........\n╚═╩═╝.........\n..............\n";
const ARROW_RULE: &str = ".↑.\n←.→\n.↓.\n";
const TRIANGLE_RULE: &str = ".▲.\n◄●►\n.▼.\n";
const V_RULE: &str = ".^.\n<x>\n.V.\n";

#[test]
fn wall_rule_covers_all_16_masks() {
    let rule = TileRule::parse(WALL_RULE);
    // Every mask resolves to a non-placeholder wall glyph.
    for (i, s) in rule.symbols.iter().enumerate() {
        assert!(*s != ' ' && *s != '.', "mask {i} has no glyph");
    }
    // Isolated wall (mask 0) is the lone glyph from the file.
    assert_eq!(rule.symbol(0), '≡');
    // Fully connected cross is the center glyph.
    assert_eq!(rule.symbol(0b1111), '╬');
}

#[test]
fn direction_rules_map_five_slots() {
    // File rows run top to bottom while game Y grows downward, so
    // visually-up glyphs land on `Down` and vice versa.
    let arrow = DirectionTileRule::parse(ARROW_RULE).expect("arrow rule");
    assert_eq!(arrow.symbol(Direction::Right), '→');
    assert_eq!(arrow.symbol(Direction::Up), '↓');
    assert_eq!(arrow.symbol(Direction::Left), '←');
    assert_eq!(arrow.symbol(Direction::Down), '↑');

    let tri = DirectionTileRule::parse(TRIANGLE_RULE).expect("triangle rule");
    assert_eq!(tri.symbol(Direction::Right), '►');
    assert_eq!(tri.symbol(Direction::Up), '▼');
    assert_eq!(tri.symbol(Direction::Left), '◄');
    assert_eq!(tri.symbol(Direction::Down), '▲');
    assert_eq!(tri.symbol(Direction::Still), '●');

    let v = DirectionTileRule::parse(V_RULE).expect("v rule");
    assert_eq!(v.symbol(Direction::Right), '>');
    assert_eq!(v.symbol(Direction::Up), 'V');
    assert_eq!(v.symbol(Direction::Left), '<');
    assert_eq!(v.symbol(Direction::Down), '^');
    assert_eq!(v.symbol(Direction::Still), 'x');
}

#[test]
fn rejects_non_3x3_direction_input() {
    assert!(DirectionTileRule::parse("ab\ncd").is_none());
}

#[test]
fn every_wall_symbol_selects_its_mask_mesh() {
    let rule = TileRule::parse(WALL_RULE);
    for (mask, symbol) in rule.symbols.iter().enumerate() {
        assert_eq!(
            rule.symbols.iter().position(|candidate| candidate == symbol),
            Some(mask),
            "wall glyphs must uniquely identify their connectivity"
        );
    }
}

#[test]
fn wall_rule_ignores_a_byte_order_mark_and_crlf() {
    let with_bom = format!("\u{feff}{}", WALL_RULE.replace('\n', "\r\n"));
    assert!(TileRule::can_parse(&with_bom));
    assert_eq!(TileRule::parse(&with_bom), TileRule::parse(WALL_RULE));
}

#[test]
fn wall_rule_masks_follow_neighbours() {
    // A horizontal pair: the left cell links right, the right cell links left.
    let rule = TileRule::parse("ab.\n...\n");
    assert_eq!(rule.symbol(1), 'a');
    assert_eq!(rule.symbol(4), 'b');
    // Only the low four bits of a mask count.
    assert_eq!(rule.symbol(0x11), 'a');
    assert_eq!(rule.symbol(0), ' ');
}

#[test]
fn ragged_wall_rules_are_refused() {
    // The wall cell at (1, 0) has no cell below it.
    assert!(!TileRule::can_parse("ab.\na\n"));
    assert!(TileRule::can_parse(""));
}

#[test]
fn direction_rule_keeps_the_last_glyph_of_a_slot() {
    let rule = DirectionTileRule::parse("abc\n...\n...").expect("3x3");
    assert_eq!(rule.symbol(Direction::Down), 'c');
    assert!(DirectionTileRule::parse("abc\n...\n....").is_none());
    assert!(DirectionTileRule::parse("abc\n...").is_none());
}

#[test]
fn a_wall_on_the_table_edge_loads_when_nothing_is_marked_beyond_it() {
    // Column 31 is the last column of the mask table; a '.' right of it
    // and below it marks nothing outside the table.
    let edge = format!("{}a.\n{}\n", ".".repeat(31), ".".repeat(33));
    assert!(TileRule::can_parse(&edge));
    assert_eq!(TileRule::parse(&edge).symbol(0), 'a');
    // A wall right of it would be marked in column 32: refused.
    let beyond = format!("{}ab.\n{}\n", ".".repeat(31), ".".repeat(34));
    assert!(!TileRule::can_parse(&beyond));
    // So would a wall below a wall in row 31.
    let mut rows: Vec<String> = (0..31).map(|_| "...".to_string()).collect();
    rows.push("a..".to_string());
    rows.push("a..".to_string());
    rows.push("...".to_string());
    assert!(!TileRule::can_parse(&rows.join("\n")));
    rows[32] = "...".to_string();
    assert!(TileRule::can_parse(&rows.join("\n")));
}
