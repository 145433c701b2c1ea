//! Deriving glyphs from rules: wall masks from neighbouring wall tiles and
//! direction glyphs from facing.
use vstd::prelude::*;
use crate::geometry::{Direction, IVec2, spec_direction_of};
use crate::grid::MapGrid;
use crate::tiles::{DirectionTileRule, TileRule};

verus! {

/// The neighbour offsets of the mask bits: `+X`, `+Y`, `-X`, `-Y`.
pub open spec fn mask_offsets() -> Seq<IVec2> {
    seq![IVec2 { x: 1, y: 0 }, IVec2 { x: 0, y: 1 }, IVec2 { x: -1i32, y: 0 }, IVec2 { x: 0, y: -1i32 }]
}

fn mask_offset(b: usize) -> (r: IVec2)
    requires
        b < 4,
    ensures
        r == mask_offsets()[b as int],
{
    if b == 0 {
        IVec2 { x: 1, y: 0 }
    } else if b == 1 {
        IVec2 { x: 0, y: 1 }
    } else if b == 2 {
        IVec2 { x: -1, y: 0 }
    } else {
        IVec2 { x: 0, y: -1 }
    }
}

/// Some wall tile stands on `q`.
pub open spec fn tile_at(tiles: Seq<IVec2>, q: IVec2) -> bool {
    exists|t: int| 0 <= t < tiles.len() && tiles[t] == q
}

/// Mask bit `b` of a wall at `pos`: a wall tile on the wrapped neighbour.
pub open spec fn mask_bit(grid: &MapGrid, tiles: Seq<IVec2>, pos: IVec2, b: int) -> int {
    if tile_at(tiles, grid.spec_safe_pos(pos.spec_add(mask_offsets()[b]))) { 1 } else { 0 }
}

/// The neighbour mask of a wall at `pos`.
pub open spec fn spec_tile_mask(grid: &MapGrid, tiles: Seq<IVec2>, pos: IVec2) -> int {
    mask_bit(grid, tiles, pos, 0) + 2 * mask_bit(grid, tiles, pos, 1)
        + 4 * mask_bit(grid, tiles, pos, 2) + 8 * mask_bit(grid, tiles, pos, 3)
}

/// Positions that stay within `i32` one step in every direction.
pub open spec fn inner_position(p: IVec2) -> bool {
    i32::MIN < p.x < i32::MAX && i32::MIN < p.y < i32::MAX
}

/// The neighbour mask of every wall tile, computed from one snapshot of the
/// tiled positions (a wall's mask does not depend on the order of tiles).
pub fn tile_masks(grid: &MapGrid, tiles: &Vec<IVec2>) -> (r: Vec<u8>)
    requires
        grid.wf(),
        forall|t: int| 0 <= t < tiles@.len() ==> inner_position(#[trigger] tiles@[t]),
    ensures
        r@.len() == tiles@.len(),
        forall|t: int| 0 <= t < tiles@.len() ==> #[trigger] r@[t] == spec_tile_mask(grid, tiles@, tiles@[t]),
{
    // Phase 1: snapshot which cells hold a tile.
    let n = grid.cells.len();
    let mut present: Vec<bool> = vec![false; n];
    proof {
        assert forall|q: IVec2| grid.spec_is_valid(q) implies !(#[trigger] present@[grid.spec_idx(q)]) by {
            crate::grid::lemma_index_in_bounds(grid.width as int, grid.height as int, q.x as int, q.y as int);
        }
    }
    let mut t: usize = 0;
    while t < tiles.len()
        invariant
            grid.wf(),
            n == grid.cells_view().len(),
            present@.len() == n,
            t <= tiles@.len(),
            forall|q: IVec2| grid.spec_is_valid(q) ==> (#[trigger] present@[grid.spec_idx(q)]
                <==> exists|u: int| 0 <= u < t && tiles@[u] == q),
        decreases tiles@.len() - t,
    {
        let p = tiles[t];
        match grid.idx(p) {
            Some(i) => {
                present.set(i, true);
            },
            None => {},
        }
        proof {
            assert forall|q: IVec2| grid.spec_is_valid(q) implies (#[trigger] present@[grid.spec_idx(q)]
                <==> exists|u: int| 0 <= u < t + 1 && tiles@[u] == q) by {
                crate::grid::lemma_index_in_bounds(grid.width as int, grid.height as int, q.x as int, q.y as int);
                if grid.spec_is_valid(p) {
                    crate::grid::lemma_index_in_bounds(grid.width as int, grid.height as int, p.x as int, p.y as int);
                    if grid.spec_idx(q) == grid.spec_idx(p) {
                        crate::grid::lemma_index_injective(grid.width as int, q.x as int, q.y as int, p.x as int, p.y as int);
                    }
                }
                if q == p {
                    assert(tiles@[t as int] == q);
                }
            }
        }
        t += 1;
    }
    // Phase 2: every mask from the snapshot.
    let mut masks: Vec<u8> = Vec::new();
    let mut k: usize = 0;
    while k < tiles.len()
        invariant
            grid.wf(),
            n == grid.cells_view().len(),
            present@.len() == n,
            forall|t: int| 0 <= t < tiles@.len() ==> inner_position(#[trigger] tiles@[t]),
            forall|q: IVec2| grid.spec_is_valid(q) ==> (#[trigger] present@[grid.spec_idx(q)] <==> tile_at(tiles@, q)),
            k <= tiles@.len(),
            masks@.len() == k,
            forall|u: int| 0 <= u < k ==> #[trigger] masks@[u] == spec_tile_mask(grid, tiles@, tiles@[u]),
        decreases tiles@.len() - k,
    {
        let pos = tiles[k];
        let mut mask: u8 = 0;
        let mut weight: u8 = 1;
        let mut b: usize = 0;
        while b < 4
            invariant
                grid.wf(),
                n == grid.cells_view().len(),
                present@.len() == n,
                inner_position(pos),
                forall|q: IVec2| grid.spec_is_valid(q) ==> (#[trigger] present@[grid.spec_idx(q)] <==> tile_at(tiles@, q)),
                b <= 4,
                weight == if b == 0 { 1u8 } else if b == 1 { 2u8 } else if b == 2 { 4u8 } else if b == 3 { 8u8 } else { 16u8 },
                mask == (if b > 0 { mask_bit(grid, tiles@, pos, 0) } else { 0 })
                    + (if b > 1 { 2 * mask_bit(grid, tiles@, pos, 1) } else { 0 })
                    + (if b > 2 { 4 * mask_bit(grid, tiles@, pos, 2) } else { 0 })
                    + (if b > 3 { 8 * mask_bit(grid, tiles@, pos, 3) } else { 0 }),
            decreases 4 - b,
        {
            let q = grid.safe_pos(pos.add(mask_offset(b)));
            let i = grid.idx(q).unwrap();
            if present[i] {
                mask = mask + weight;
            }
            weight = weight * 2;
            b += 1;
        }
        masks.push(mask);
        k += 1;
    }
    masks
}

proof fn lemma_wrap_step_back(x: int, w: int)
    requires
        0 <= x < w,
    ensures
        ((x + 1) % w - 1) % w == x,
{
    if x + 1 < w {
        assert((x + 1) % w == x + 1) by (nonlinear_arith) requires 0 <= x + 1 < w;
        assert(x % w == x) by (nonlinear_arith) requires 0 <= x < w;
    } else {
        assert((x + 1) % w == 0) by (nonlinear_arith) requires x + 1 == w, w > 0;
        assert((-1int) % w == w - 1) by (nonlinear_arith) requires w > 0;
    }
}

/// Wall links are symmetric: when a wall counts a wall to its right (or
/// below), that wall counts it to its left (or above).
pub proof fn law_wall_links_are_symmetric(grid: &MapGrid, tiles: Seq<IVec2>, a: IVec2)
    requires
        grid.wf(),
        grid.spec_is_valid(a),
        tile_at(tiles, a),
    ensures
        mask_bit(grid, tiles, a, 0) == 1 ==> mask_bit(grid, tiles, grid.spec_safe_pos(a.spec_add(mask_offsets()[0])), 2) == 1,
        mask_bit(grid, tiles, a, 1) == 1 ==> mask_bit(grid, tiles, grid.spec_safe_pos(a.spec_add(mask_offsets()[1])), 3) == 1,
{
    let w = grid.width as int;
    let h = grid.height as int;
    lemma_wrap_step_back(a.x as int, w);
    lemma_wrap_step_back(a.y as int, h);
    assert(0 <= (a.x + 1) % w < w) by (nonlinear_arith) requires w > 0;
    assert(0 <= (a.y + 1) % h < h) by (nonlinear_arith) requires h > 0;
    assert((a.y as int) % h == a.y) by (nonlinear_arith) requires 0 <= a.y < h;
    assert((a.x as int) % w == a.x) by (nonlinear_arith) requires 0 <= a.x < w;
    let b = grid.spec_safe_pos(a.spec_add(mask_offsets()[0]));
    assert(grid.spec_safe_pos(b.spec_add(mask_offsets()[2])) == a);
    let c = grid.spec_safe_pos(a.spec_add(mask_offsets()[1]));
    assert(grid.spec_safe_pos(c.spec_add(mask_offsets()[3])) == a);
}

/// The glyph of a direction rule for a facing.
pub fn direction_glyph(rule: &DirectionTileRule, facing: IVec2) -> (r: char)
    ensures
        r == rule.symbols@[spec_direction_of(facing).spec_index() as int],
{
    rule.symbol(Direction::of(facing))
}

/// The wall glyph for a mask.
pub fn wall_glyph(rule: &TileRule, mask: u8) -> (r: char)
    ensures
        r == rule.symbols@[(mask % 16) as int],
{
    rule.symbol(mask)
}

} // verus!
