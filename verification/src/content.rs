//! What each map glyph spawns: its look, whether it occupies and blocks a
//! cell, its budget and motion, its senses, its light and its rules.
use vstd::prelude::*;
use crate::geometry::{EntityId, IVec2};
use crate::frame::Glyph;
use crate::grid::{MapGrid, Occupant, law_get_after_set, law_set_is_local};
use crate::lighting::{LightKind, LightSource, GRAY, RED, WHITE};
use crate::map::{SpawnCell, SpawnKind, row_major_lt};
use crate::simulation::BoundTo;

verus! {

/// The direction rule a glyph follows.
#[derive(Clone, Copy, Debug, PartialEq, Eq, Structural)]
pub enum DirectionRuleKind {
    Triangle,
    V,
}

/// The initial make-up of a spawned entity.
#[derive(Clone, Copy, Debug, PartialEq, Eq, Structural)]
pub struct Blueprint {
    pub glyph: Glyph,
    /// Occupies its cell in the occupancy grid.
    pub collider: bool,
    /// Its cell stops sight.
    pub blocks_vision: bool,
    /// Moves: has speed, a command, a move intent and a facing that follows speed.
    pub mobile: bool,
    pub player: bool,
    pub enemy: bool,
    pub tokens_recharge: Option<i32>,
    pub friction: Option<i32>,
    pub sensor_radius: Option<i32>,
    pub light: Option<LightSource>,
    pub direction_rule: Option<DirectionRuleKind>,
    /// Autotiled with the wall rule.
    pub wall_tile: bool,
}

pub open spec fn plain(glyph: Glyph) -> Blueprint {
    Blueprint {
        glyph,
        collider: false,
        blocks_vision: false,
        mobile: false,
        player: false,
        enemy: false,
        tokens_recharge: None,
        friction: None,
        sensor_radius: None,
        light: None,
        direction_rule: None,
        wall_tile: false,
    }
}

pub open spec fn spec_blueprint(kind: SpawnKind) -> Blueprint {
    match kind {
        SpawnKind::Wall => Blueprint {
            collider: true,
            blocks_vision: true,
            wall_tile: true,
            ..plain(Glyph { ch: '#', depth: 1, color: GRAY })
        },
        SpawnKind::Player => Blueprint {
            collider: true,
            mobile: true,
            player: true,
            tokens_recharge: Some(1),
            friction: Some(1),
            sensor_radius: Some(16),
            light: Some(LightSource { radius: 16, kind: LightKind::Neutral, value: 32 }),
            ..plain(Glyph { ch: '@', depth: 1, color: WHITE })
        },
        SpawnKind::Enemy => Blueprint {
            collider: true,
            mobile: true,
            enemy: true,
            tokens_recharge: Some(1),
            friction: Some(1),
            direction_rule: Some(DirectionRuleKind::V),
            ..plain(Glyph { ch: '\u{263a}', depth: 1, color: RED })
        },
        SpawnKind::Electricity => Blueprint {
            light: Some(LightSource { radius: 3, kind: LightKind::Electricity, value: 32 }),
            ..plain(Glyph { ch: '\u{3a9}', depth: 0, color: WHITE })
        },
        SpawnKind::Light => Blueprint {
            light: Some(LightSource { radius: 16, kind: LightKind::Fire, value: 196 }),
            ..plain(Glyph { ch: 'i', depth: 0, color: WHITE })
        },
        SpawnKind::Acid => Blueprint {
            light: Some(LightSource { radius: 4, kind: LightKind::Acid, value: 32 }),
            ..plain(Glyph { ch: '\u{2592}', depth: 0, color: WHITE })
        },
    }
}

/// The make-up of what `kind` spawns.
pub fn blueprint(kind: SpawnKind) -> (r: Blueprint)
    ensures
        r == spec_blueprint(kind),
{
    let base = Blueprint {
        glyph: Glyph { ch: ' ', depth: 0, color: 0 },
        collider: false,
        blocks_vision: false,
        mobile: false,
        player: false,
        enemy: false,
        tokens_recharge: None,
        friction: None,
        sensor_radius: None,
        light: None,
        direction_rule: None,
        wall_tile: false,
    };
    match kind {
        SpawnKind::Wall => Blueprint {
            glyph: Glyph { ch: '#', depth: 1, color: GRAY },
            collider: true,
            blocks_vision: true,
            wall_tile: true,
            ..base
        },
        SpawnKind::Player => Blueprint {
            glyph: Glyph { ch: '@', depth: 1, color: WHITE },
            collider: true,
            mobile: true,
            player: true,
            tokens_recharge: Some(1),
            friction: Some(1),
            sensor_radius: Some(16),
            light: Some(LightSource { radius: 16, kind: LightKind::Neutral, value: 32 }),
            ..base
        },
        SpawnKind::Enemy => Blueprint {
            glyph: Glyph { ch: '\u{263a}', depth: 1, color: RED },
            collider: true,
            mobile: true,
            enemy: true,
            tokens_recharge: Some(1),
            friction: Some(1),
            direction_rule: Some(DirectionRuleKind::V),
            ..base
        },
        SpawnKind::Electricity => Blueprint {
            glyph: Glyph { ch: '\u{3a9}', depth: 0, color: WHITE },
            light: Some(LightSource { radius: 3, kind: LightKind::Electricity, value: 32 }),
            ..base
        },
        SpawnKind::Light => Blueprint {
            glyph: Glyph { ch: 'i', depth: 0, color: WHITE },
            light: Some(LightSource { radius: 16, kind: LightKind::Fire, value: 196 }),
            ..base
        },
        SpawnKind::Acid => Blueprint {
            glyph: Glyph { ch: '\u{2592}', depth: 0, color: WHITE },
            light: Some(LightSource { radius: 4, kind: LightKind::Acid, value: 32 }),
            ..base
        },
    }
}

/// The direction marker bound to the player: one cell ahead in the
/// player's facing, drawn under actors with the triangle rule.
pub fn player_marker() -> (r: (BoundTo, Glyph, DirectionRuleKind))
    ensures
        r.0 == (BoundTo { offset: IVec2 { x: 1, y: 0 }, offset_dir: IVec2 { x: 1, y: 0 } }),
        r.1 == (Glyph { ch: 'i', depth: 0, color: WHITE }),
        r.2 == DirectionRuleKind::Triangle,
{
    (
        BoundTo { offset: IVec2 { x: 1, y: 0 }, offset_dir: IVec2 { x: 1, y: 0 } },
        Glyph { ch: 'i', depth: 0, color: WHITE },
        DirectionRuleKind::Triangle,
    )
}

/// Entry `k` of the spawned entities occupies a cell.
pub open spec fn claims_cell(placed: Seq<(EntityId, SpawnCell)>, k: int) -> bool {
    spec_blueprint(placed[k].1.kind).collider
}

/// No occupying entry after `k` and before `n` stands on `k`'s cell.
pub open spec fn last_on_cell(placed: Seq<(EntityId, SpawnCell)>, k: int, n: int) -> bool {
    forall|j: int| k < j < n ==> !(claims_cell(placed, j) && #[trigger] placed[j].1.pos == placed[k].1.pos)
}

/// The occupant entry `k` places on its cell.
pub open spec fn occupant_of(placed: Seq<(EntityId, SpawnCell)>, k: int) -> Occupant {
    Occupant { entity: placed[k].0, blocks_vision: spec_blueprint(placed[k].1.kind).blocks_vision }
}

/// The last occupying entry before `k` that stands on `p`.
pub open spec fn last_claim_on(placed: Seq<(EntityId, SpawnCell)>, p: IVec2, k: int) -> Option<int>
    decreases k,
{
    if k <= 0 {
        None
    } else if claims_cell(placed, k - 1) && placed[k - 1].1.pos == p {
        Some(k - 1)
    } else {
        last_claim_on(placed, p, k - 1)
    }
}

/// What stands on `p` once the first `k` entries are placed on `grid`.
pub open spec fn cell_after_placing(grid: &MapGrid, placed: Seq<(EntityId, SpawnCell)>, p: IVec2, k: int) -> Option<Occupant> {
    match last_claim_on(placed, p, k) {
        Some(j) => Some(occupant_of(placed, j)),
        None => grid.spec_cell(p),
    }
}

/// Placing entry `k` changes its cell.
pub open spec fn placing_changes(grid: &MapGrid, placed: Seq<(EntityId, SpawnCell)>, k: int) -> bool {
    claims_cell(placed, k) && grid.spec_is_valid(placed[k].1.pos)
        && cell_after_placing(grid, placed, placed[k].1.pos, k) != Some(occupant_of(placed, k))
}

/// Placing entry `k` changes whether its cell blocks sight.
pub open spec fn placing_flips(grid: &MapGrid, placed: Seq<(EntityId, SpawnCell)>, k: int) -> bool {
    placing_changes(grid, placed, k) && match cell_after_placing(grid, placed, placed[k].1.pos, k) {
        Some(o) => o.blocks_vision,
        None => false,
    } != occupant_of(placed, k).blocks_vision
}

/// How many of the first `n` entries change their cell.
pub open spec fn placing_count(grid: &MapGrid, placed: Seq<(EntityId, SpawnCell)>, n: int) -> nat
    decreases n,
{
    if n <= 0 { 0 } else { placing_count(grid, placed, n - 1) + if placing_changes(grid, placed, n - 1) { 1nat } else { 0nat } }
}

/// How many of the first `n` entries change whether a cell blocks sight.
pub open spec fn placing_flip_count(grid: &MapGrid, placed: Seq<(EntityId, SpawnCell)>, n: int) -> nat
    decreases n,
{
    if n <= 0 { 0 } else { placing_flip_count(grid, placed, n - 1) + if placing_flips(grid, placed, n - 1) { 1nat } else { 0nat } }
}

/// `after` is `before` with the spawned colliders placed in order: each
/// occupying entity stands on its cell unless a later one took it, and the
/// cells no collider stands on are as they were.
pub open spec fn placed_by(before: &MapGrid, placed: Seq<(EntityId, SpawnCell)>, after: &MapGrid) -> bool {
    &&& after.wf()
    &&& after.width == before.width
    &&& after.height == before.height
    &&& forall|k: int| 0 <= k < placed.len() && claims_cell(placed, k) && after.spec_is_valid(placed[k].1.pos)
        && last_on_cell(placed, k, placed.len() as int) ==>
        #[trigger] after.spec_cell(placed[k].1.pos) == Some(occupant_of(placed, k))
    &&& forall|q: IVec2| (forall|k: int| 0 <= k < placed.len() && claims_cell(placed, k) ==> #[trigger] placed[k].1.pos != q)
        ==> #[trigger] after.spec_cell(q) == before.spec_cell(q)
}

/// Let the spawned colliders own their cells, in spawn order: walls block
/// sight, the player and enemies do not. Each occupying entity ends up on
/// its cell unless a later one took it; cells no collider stands on are
/// left as they were.
pub fn place_colliders(grid: &mut MapGrid, placed: &Vec<(EntityId, SpawnCell)>)
    requires
        old(grid).wf(),
        old(grid).revision + placed@.len() <= u64::MAX,
        old(grid).blocker_revision + placed@.len() <= u64::MAX,
    ensures
        placed_by(&*old(grid), placed@, &*final(grid)),
        final(grid).revision == old(grid).revision + placing_count(&*old(grid), placed@, placed@.len() as int),
        final(grid).blocker_revision == old(grid).blocker_revision + placing_flip_count(&*old(grid), placed@, placed@.len() as int),
{
    let ghost start = *grid;
    let mut i: usize = 0;
    while i < placed.len()
        invariant
            i <= placed@.len(),
            grid.wf(),
            grid.width == start.width,
            grid.height == start.height,
            grid.revision <= start.revision + i,
            grid.blocker_revision <= start.blocker_revision + i,
            start.revision + placed@.len() <= u64::MAX,
            start.blocker_revision + placed@.len() <= u64::MAX,
            forall|k: int| 0 <= k < i && claims_cell(placed@, k) && grid.spec_is_valid(placed@[k].1.pos)
                && last_on_cell(placed@, k, i as int) ==>
                #[trigger] grid.spec_cell(placed@[k].1.pos) == Some(Occupant {
                    entity: placed@[k].0,
                    blocks_vision: spec_blueprint(placed@[k].1.kind).blocks_vision,
                }),
            forall|q: IVec2| (forall|k: int| 0 <= k < i && claims_cell(placed@, k) ==> #[trigger] placed@[k].1.pos != q)
                ==> #[trigger] grid.spec_cell(q) == start.spec_cell(q),
            forall|q: IVec2| start.spec_is_valid(q) ==> #[trigger] grid.spec_cell(q) == cell_after_placing(&start, placed@, q, i as int),
            grid.revision == start.revision + placing_count(&start, placed@, i as int),
            grid.blocker_revision == start.blocker_revision + placing_flip_count(&start, placed@, i as int),
        decreases placed@.len() - i,
    {
        let (entity, cell) = placed[i];
        let bp = blueprint(cell.kind);
        proof {
            assert(placed@[i as int] == (entity, cell));
        }
        if bp.collider {
            let ghost before = *grid;
            proof {
                if start.spec_is_valid(cell.pos) {
                    assert(before.spec_cell(cell.pos) == cell_after_placing(&start, placed@, cell.pos, i as int));
                }
            }
            grid.set_with_blocking(cell.pos, entity, bp.blocks_vision);
            proof {
                let after = *grid;
                if before.spec_is_valid(cell.pos) {
                    crate::resolution::lemma_cells_after_set(before, after, cell.pos, entity, bp.blocks_vision);
                }
                assert forall|q: IVec2| start.spec_is_valid(q) implies #[trigger] after.spec_cell(q)
                    == cell_after_placing(&start, placed@, q, i + 1) by {
                    if q != cell.pos {
                        law_set_is_local(before, after, cell.pos, q, entity, bp.blocks_vision);
                    }
                }
                assert forall|k: int| 0 <= k < i + 1 && claims_cell(placed@, k) && after.spec_is_valid(placed@[k].1.pos)
                    && last_on_cell(placed@, k, i + 1) implies
                    #[trigger] after.spec_cell(placed@[k].1.pos) == Some(Occupant {
                        entity: placed@[k].0,
                        blocks_vision: spec_blueprint(placed@[k].1.kind).blocks_vision,
                    }) by {
                    if k == i {
                        law_get_after_set(before, after, cell.pos, entity, bp.blocks_vision);
                    } else {
                        assert(placed@[i as int].1.pos != placed@[k].1.pos);
                        assert(last_on_cell(placed@, k, i as int));
                        law_set_is_local(before, after, cell.pos, placed@[k].1.pos, entity, bp.blocks_vision);
                    }
                }
                assert forall|q: IVec2| (forall|k: int| 0 <= k < i + 1 && claims_cell(placed@, k) ==> #[trigger] placed@[k].1.pos != q)
                    implies #[trigger] after.spec_cell(q) == start.spec_cell(q) by {
                    assert(placed@[i as int].1.pos != q);
                    law_set_is_local(before, after, cell.pos, q, entity, bp.blocks_vision);
                    assert(forall|k: int| 0 <= k < i && claims_cell(placed@, k) ==> #[trigger] placed@[k].1.pos != q);
                }
            }
        } else {
            proof {
                assert forall|k: int| 0 <= k < i + 1 && claims_cell(placed@, k) && grid.spec_is_valid(placed@[k].1.pos)
                    && last_on_cell(placed@, k, i + 1) implies
                    #[trigger] grid.spec_cell(placed@[k].1.pos) == Some(Occupant {
                        entity: placed@[k].0,
                        blocks_vision: spec_blueprint(placed@[k].1.kind).blocks_vision,
                    }) by {
                    assert(last_on_cell(placed@, k, i as int));
                }
                assert forall|q: IVec2| (forall|k: int| 0 <= k < i + 1 && claims_cell(placed@, k) ==> #[trigger] placed@[k].1.pos != q)
                    implies #[trigger] grid.spec_cell(q) == start.spec_cell(q) by {
                    assert(forall|k: int| 0 <= k < i && claims_cell(placed@, k) ==> #[trigger] placed@[k].1.pos != q);
                }
            }
        }
        i += 1;
    }
}

/// A map's colliders all own their cells once placed: spawns in strict
/// row-major order (as a parsed map lists them) within the grid each keep
/// their cell, with the blueprint's blocking.
pub proof fn law_map_colliders_own_their_cells(before: MapGrid, placed: Seq<(EntityId, SpawnCell)>, after: MapGrid, k: int)
    requires
        before.wf(),
        placed_by(&before, placed, &after),
        forall|a: int, b: int| 0 <= a < b < placed.len()
            ==> row_major_lt((#[trigger] placed[a]).1.pos, (#[trigger] placed[b]).1.pos),
        forall|j: int| 0 <= j < placed.len() ==> before.spec_is_valid((#[trigger] placed[j]).1.pos),
        0 <= k < placed.len(),
        claims_cell(placed, k),
    ensures
        after.spec_get(placed[k].1.pos) == Some(placed[k].0),
        after.spec_blocks_vision(placed[k].1.pos) == spec_blueprint(placed[k].1.kind).blocks_vision,
{
    assert(before.spec_is_valid(placed[k].1.pos));
    assert forall|j: int| k < j < placed.len() implies !(claims_cell(placed, j) && #[trigger] placed[j].1.pos == placed[k].1.pos) by {
        assert(row_major_lt(placed[k].1.pos, placed[j].1.pos));
    }
    assert(last_on_cell(placed, k, placed.len() as int));
}

/// Only walls stop sight, and only walls, the player and enemies occupy cells.
pub proof fn law_only_walls_block_sight(kind: SpawnKind)
    ensures
        spec_blueprint(kind).blocks_vision <==> kind == SpawnKind::Wall,
        spec_blueprint(kind).collider <==> (kind == SpawnKind::Wall || kind == SpawnKind::Player || kind == SpawnKind::Enemy),
        spec_blueprint(kind).blocks_vision ==> spec_blueprint(kind).collider,
{
}

} // verus!
