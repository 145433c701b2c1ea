use pav_ecs_game::frame::{changed_cells, compose_frame, Glyph, GlyphAt, RenderBuffers, RenderCell, Vis};
use pav_ecs_game::geometry::{EntityId, IVec2};
use pav_ecs_game::lighting::{
    merge_amount, LightCell, LightContext, LightKind, LightSource, StaticLight, DARK_RED, GRAY, WHITE,
};

const GRID_WIDTH: i32 = 8;

fn visibility(cells: &[(IVec2, Vis)]) -> Vec<Vis> {
    let mut data = vec![Vis::empty(); 64];
    for (pos, value) in cells {
        data[(pos.y * GRID_WIDTH + pos.x) as usize] = *value;
    }
    data
}

fn dark_layer() -> Vec<LightCell> {
    vec![LightCell::dark(); 64]
}

fn at(x: i32, y: i32, ch: char, depth: u8, color: u8, moves: bool) -> GlyphAt {
    GlyphAt { pos: IVec2::new(x, y), glyph: Glyph::new(ch, depth, color), moves }
}

#[test]
fn render_static_decor_renders_when_known_but_unseen() {
    let mut buffers = RenderBuffers::new(8, 8);
    let vis = visibility(&[
        (IVec2::new(0, 0), Vis::visible_and_known()),
        (IVec2::new(1, 0), Vis::known_only()),
        (IVec2::new(2, 0), Vis::known_only()),
    ]);
    let glyphs = vec![
        // Speedless decor on a known-but-unseen cell renders...
        at(1, 0, '#', 1, GRAY, false),
        // ...a moving actor there does not...
        at(2, 0, 'e', 1, 12, true),
        // ...and nothing renders on unknown cells.
        at(3, 0, '#', 1, GRAY, false),
    ];
    compose_frame(&mut buffers, &vis, &dark_layer(), &glyphs);
    assert_eq!(buffers.current[0].ch, '.');
    assert_eq!(buffers.current[1].ch, '#');
    assert_eq!(buffers.current[2].ch, '.');
    assert_eq!(buffers.current[3].ch, '?');
}

#[test]
fn tests_static_decor_renders_when_known_but_unseen() {
    let mut buffers = RenderBuffers::new(8, 8);
    let vis = visibility(&[
        (IVec2::new(0, 0), Vis::visible_and_known()),
        (IVec2::new(1, 0), Vis::known_only()),
        (IVec2::new(2, 0), Vis::known_only()),
    ]);
    let glyphs = vec![at(1, 0, '#', 1, GRAY, false), at(2, 0, 'e', 1, 12, true)];
    compose_frame(&mut buffers, &vis, &dark_layer(), &glyphs);
    let frame = &buffers.current;
    assert_eq!((frame[0].ch, frame[1].ch, frame[2].ch, frame[3].ch), ('.', '#', '.', '?'));
}

/// A static lamp with a flat field of view over the 8x8 grid.
struct Lamp {
    entity: EntityId,
    pos: IVec2,
    light: LightSource,
    fov_revision: u64,
    fov: Vec<f32>,
}

/// Blend one source's field into a layer (float falloff, as the game does).
fn blend_source(layer: &mut [LightCell], lamp: &Lamp) {
    let context = LightContext::new((lamp.pos.x, lamp.pos.y), lamp.light.radius, lamp.light.value, lamp.light.kind);
    for (index, sample) in lamp.fov.iter().enumerate() {
        if *sample <= 0.0 || index >= layer.len() {
            continue;
        }
        let x = index as i32 % GRID_WIDTH;
        let y = index as i32 / GRID_WIDTH;
        if !context.reaches(x, y) {
            continue;
        }
        let inv_radius_sq = 1.0 / context.radius_sq as f32;
        let falloff = 1.0 - context.distance_sq(x, y) as f32 * inv_radius_sq;
        let amount = (*sample * falloff * context.base_value as f32) as u8;
        merge_amount(&mut layer[index], amount, context.kind);
    }
}

fn render_light_layers(layer: &mut StaticLight, dynamic: &mut Vec<LightCell>, lamps: &[Lamp]) -> bool {
    if layer.data.len() != 64 {
        layer.resize(8, 8);
    }
    let current = lamps.iter().map(|l| (l.entity, l.fov_revision)).collect();
    let rebuilt = layer.sync_sources(current, false);
    if rebuilt {
        for lamp in lamps {
            blend_source(&mut layer.data, lamp);
        }
    }
    dynamic.clone_from(&layer.data);
    rebuilt
}

fn lamp() -> Lamp {
    Lamp {
        entity: EntityId { index: 5, generation: 1 },
        pos: IVec2::new(4, 4),
        light: LightSource { radius: 2, kind: LightKind::Fire, value: 100 },
        fov_revision: 0,
        fov: vec![1.0; 64],
    }
}

#[test]
fn render_static_light_rebuilds_only_on_change() {
    let mut layer = StaticLight::new();
    let mut dynamic = dark_layer();
    let mut lamps = vec![lamp()];
    assert!(render_light_layers(&mut layer, &mut dynamic, &lamps));
    let lit = dynamic[(4 * 8 + 4) as usize];
    assert_eq!(lit.value, 100);
    assert_eq!(lit.kind, LightKind::Fire);
    // Second run: no rebuild (dirty flag cleared, revisions match).
    assert!(!render_light_layers(&mut layer, &mut dynamic, &lamps));
    // Bumping the source revision forces a rebuild.
    lamps[0].fov_revision = 7;
    assert!(render_light_layers(&mut layer, &mut dynamic, &lamps));
    assert_eq!(layer.last_seen_revisions, vec![(lamps[0].entity, 7)]);
    // Cells beyond the lamp's reach keep the faint neutral glow.
    assert_eq!(dynamic[0], LightCell { value: 1, kind: LightKind::Neutral });
}

#[test]
fn tests_static_light_rebuilds_only_on_change() {
    let mut layer = StaticLight::new();
    let mut dynamic = dark_layer();
    let mut lamps = vec![lamp()];
    render_light_layers(&mut layer, &mut dynamic, &lamps);
    assert_eq!(dynamic[36].value, 100);
    lamps[0].fov_revision = 7;
    render_light_layers(&mut layer, &mut dynamic, &lamps);
    assert_eq!(layer.last_seen_revisions, vec![(lamps[0].entity, 7)]);
}

#[test]
fn the_deepest_glyph_wins_and_ties_go_to_the_later() {
    let mut buffers = RenderBuffers::new(4, 1);
    let vis = vec![Vis::visible_and_known(); 4];
    let light = vec![LightCell { value: 255, kind: LightKind::Neutral }; 4];
    let glyphs = vec![
        at(1, 0, 'a', 2, 1, true),
        at(1, 0, 'b', 1, 1, true),
        at(2, 0, 'c', 1, 1, false),
        at(2, 0, 'd', 1, 1, false),
        at(9, 0, 'z', 9, 1, false),
    ];
    compose_frame(&mut buffers, &vis, &light, &glyphs);
    assert_eq!(buffers.current[1].ch, 'a');
    assert_eq!(buffers.current[2].ch, 'd');
    // Known cells take the light palette.
    assert_eq!(buffers.current[1].color, WHITE);
    assert_eq!(buffers.current[1].depth, 2);
}

#[test]
fn unknown_cells_away_from_the_known_world_stay_blank() {
    let mut buffers = RenderBuffers::new(4, 4);
    let mut vis = vec![Vis::empty(); 16];
    vis[0] = Vis::known_only();
    compose_frame(&mut buffers, &vis, &vec![LightCell::dark(); 16], &vec![]);
    // (0, 0) is a known hex cell: floor.
    assert_eq!(buffers.current[0].ch, '.');
    // Its right and lower neighbours border it.
    assert_eq!(buffers.current[1], RenderCell { ch: '?', color: DARK_RED, depth: 0 });
    assert_eq!(buffers.current[4].ch, '?');
    // Farther cells stay blank.
    assert_eq!(buffers.current[5], RenderCell::blank());
    assert_eq!(buffers.current[15], RenderCell::blank());
}

#[test]
fn known_floor_off_the_hex_grid_shows_only_when_visible() {
    let mut buffers = RenderBuffers::new(2, 1);
    let vis = vec![Vis::known_only(), Vis::known_only()];
    compose_frame(&mut buffers, &vis, &vec![LightCell::dark(); 2], &vec![]);
    assert_eq!(buffers.current[0].ch, '.');
    assert_eq!(buffers.current[1].ch, '\0');
    let vis = vec![Vis::known_only(), Vis::visible_and_known()];
    compose_frame(&mut buffers, &vis, &vec![LightCell::dark(); 2], &vec![]);
    assert_eq!(buffers.current[1].ch, '.');
}

#[test]
fn the_previous_frame_is_kept_and_changes_are_listed() {
    let mut buffers = RenderBuffers::new(3, 1);
    let vis = vec![Vis::visible_and_known(); 3];
    let light = vec![LightCell::dark(); 3];
    compose_frame(&mut buffers, &vis, &light, &vec![at(1, 0, '@', 3, 15, true)]);
    compose_frame(&mut buffers, &vis, &light, &vec![at(2, 0, '@', 3, 15, true)]);
    assert_eq!(buffers.previous[1].ch, '@');
    assert_eq!(buffers.current[2].ch, '@');
    assert_eq!(changed_cells(&buffers), vec![1, 2]);
    buffers.swap();
    assert_eq!(buffers.previous[2].ch, '@');
}
