//! Field of view bookkeeping: the square rings walked around an observer,
//! which cells stop sight, where a sample lands on the grid, when a cached
//! field must be recomputed, and the player's visibility layer, in which
//! cells once seen stay known.
use vstd::prelude::*;
use crate::geometry::{EntityId, IVec2, abs};
use crate::grid::MapGrid;
use crate::frame::{Vis, VISIBLE_BIT, KNOWN_BIT};

verus! {

/// Point `k` of the square ring of Chebyshev radius `r`, walked as the top
/// row left to right, the right column top to bottom, the bottom row right
/// to left and the left column bottom to top, each side starting at a corner.
pub open spec fn ring_point(r: int, k: int) -> IVec2 {
    let side = 2 * r;
    let t = k % side - r;
    if k < side {
        IVec2 { x: t as i32, y: -r as i32 }
    } else if k < 2 * side {
        IVec2 { x: r as i32, y: t as i32 }
    } else if k < 3 * side {
        IVec2 { x: -t as i32, y: r as i32 }
    } else {
        IVec2 { x: -r as i32, y: -t as i32 }
    }
}

/// The square ring of radius `r` around the origin (`8r` cells).
pub fn ring_points(r: i32) -> (out: Vec<IVec2>)
    requires
        0 <= r <= 0x0fff_ffff,
    ensures
        out@.len() == 8 * r,
        forall|k: int| 0 <= k < out@.len() ==> #[trigger] out@[k] == ring_point(r as int, k),
{
    let mut out: Vec<IVec2> = Vec::new();
    let side: i32 = 2 * r;
    let mut side_index: i32 = 0;
    while side_index < 4
        invariant
            0 <= r <= 0x0fff_ffff,
            side == 2 * r,
            0 <= side_index <= 4,
            out@.len() == side_index * side,
            forall|k: int| 0 <= k < out@.len() ==> #[trigger] out@[k] == ring_point(r as int, k),
        decreases 4 - side_index,
    {
        let mut i: i32 = -r;
        while i < r
            invariant
                0 <= r <= 0x0fff_ffff,
                side == 2 * r,
                0 <= side_index < 4,
                -r <= i <= r,
                out@.len() == side_index * side + (i + r),
                forall|k: int| 0 <= k < out@.len() ==> #[trigger] out@[k] == ring_point(r as int, k),
            decreases r - i,
        {
            let p = if side_index == 0 {
                IVec2 { x: i, y: -r }
            } else if side_index == 1 {
                IVec2 { x: r, y: i }
            } else if side_index == 2 {
                IVec2 { x: -i, y: r }
            } else {
                IVec2 { x: -r, y: -i }
            };
            proof {
                let k: int = side_index * side + (i + r);
                let sd: int = side as int;
                assert(k % sd == i + r) by (nonlinear_arith)
                    requires k == side_index * sd + (i + r), 0 <= i + r < sd, sd > 0, 0 <= side_index;
                assert(side_index * side <= k < side_index * side + side);
                if side_index == 0 {
                    assert(k < side);
                } else if side_index == 1 {
                    assert(side <= k < 2 * side) by (nonlinear_arith) requires k == side + (i + r), 0 <= i + r < side;
                } else if side_index == 2 {
                    assert(2 * side <= k < 3 * side) by (nonlinear_arith) requires k == 2 * side + (i + r), 0 <= i + r < side;
                } else {
                    assert(3 * side <= k) by (nonlinear_arith) requires k == 3 * side + (i + r), 0 <= i + r;
                }
                assert(p == ring_point(r as int, k));
            }
            out.push(p);
            i += 1;
        }
        assert(side_index * side + side == (side_index + 1) * side) by (nonlinear_arith);
        side_index += 1;
    }
    out
}

/// The square ring of radius `r` as a sequence.
pub open spec fn ring_seq(r: int) -> Seq<IVec2> {
    Seq::new((8 * r) as nat, |k: int| ring_point(r, k))
}

/// Rings computed once and reused.
#[derive(Debug)]
pub struct RingCache {
    pub rings: Vec<Vec<IVec2>>,
}

impl RingCache {
    /// Each cached ring is empty (not computed yet) or the ring of its radius.
    pub open spec fn wf(&self) -> bool {
        forall|r: int| 0 <= r < self.rings@.len() ==> (#[trigger] self.rings@[r])@.len() == 0
            || self.rings@[r]@ == ring_seq(r)
    }

    pub fn new() -> (r: RingCache)
        ensures
            r.wf(),
    {
        RingCache { rings: Vec::new() }
    }

    /// The ring of `radius` (empty for a radius of 0 or less), computed on
    /// first use.
    pub fn ring(&mut self, radius: i32) -> (out: Vec<IVec2>)
        requires
            old(self).wf(),
            radius <= 0x0fff_ffff,
        ensures
            final(self).wf(),
            out@ == if radius <= 0 { Seq::<IVec2>::empty() } else { ring_seq(radius as int) },
    {
        let r: usize = if radius < 0 { 0 } else { radius as usize };
        while self.rings.len() <= r
            invariant
                self.wf(),
            decreases r + 1 - self.rings@.len(),
        {
            self.rings.push(Vec::new());
        }
        if self.rings[r].len() == 0 && r > 0 {
            let points = ring_points(radius);
            assert(points@ =~= ring_seq(r as int));
            self.rings.set(r, points);
        }
        if r == 0 {
            return Vec::new();
        }
        let out = self.rings[r].clone();
        proof {
            assert(self.rings@[r as int]@ == ring_seq(r as int));
            assert(out@ =~= ring_seq(r as int)) by {
                assert forall|k: int| 0 <= k < out@.len() implies out@[k] == ring_seq(r as int)[k] by {
                    assert(cloned::<IVec2>(self.rings@[r as int]@[k], out@[k]));
                }
            }
        }
        out
    }
}

/// Every ring point lies at Chebyshev distance exactly `r`.
pub proof fn law_ring_points_lie_on_the_ring(r: int, k: int)
    requires
        1 <= r <= 0x0fff_ffff,
        0 <= k < 8 * r,
    ensures
        ({
            let p = ring_point(r, k);
            (abs(p.x as int) == r && abs(p.y as int) <= r) || (abs(p.y as int) == r && abs(p.x as int) <= r)
        }),
{
    let side = 2 * r;
    assert(0 <= k % side < side) by (nonlinear_arith) requires side > 0;
}

/// What stops sight from `origin` at `delta`: off the grid, or a
/// vision-blocking occupant.
pub open spec fn spec_fov_obstacle(grid: &MapGrid, origin: IVec2, delta: IVec2) -> bool {
    let p = origin.spec_add(delta);
    !grid.spec_is_valid(p) || grid.spec_blocks_vision(p)
}

pub fn fov_obstacle(grid: &MapGrid, origin: IVec2, delta: IVec2) -> (r: bool)
    requires
        grid.wf(),
        origin.can_add(delta),
    ensures
        r == spec_fov_obstacle(grid, origin, delta),
{
    let p = origin.add(delta);
    if !grid.is_valid(p) {
        return true;
    }
    let wrapped = grid.safe_pos(p);
    proof {
        assert(p.x as int % grid.width as int == p.x) by (nonlinear_arith) requires 0 <= p.x < grid.width;
        assert(p.y as int % grid.height as int == p.y) by (nonlinear_arith) requires 0 <= p.y < grid.height;
    }
    grid.blocks_vision(wrapped)
}

/// Where a sample at `delta` from `origin` is recorded: the grid cell, when
/// it is on the grid and within the round radius.
pub open spec fn spec_sample_index(grid: &MapGrid, origin: IVec2, delta: IVec2, radius: i32) -> Option<int> {
    let p = origin.spec_add(delta);
    if !grid.spec_is_valid(p) || delta.x * delta.x + delta.y * delta.y > radius * radius {
        None
    } else {
        Some(grid.spec_idx(p))
    }
}

pub fn fov_sample_index(grid: &MapGrid, origin: IVec2, delta: IVec2, radius: i32) -> (r: Option<usize>)
    requires
        grid.wf(),
        origin.can_add(delta),
    ensures
        r matches Some(i) ==> i < grid.cells_view().len(),
        r == match spec_sample_index(grid, origin, delta, radius) {
            Some(i) => Some(i as usize),
            None => None::<usize>,
        },
{
    let p = origin.add(delta);
    if !grid.is_valid(p) {
        return None;
    }
    let dx = delta.x as i128;
    let dy = delta.y as i128;
    let rr = radius as i128;
    assert(dx * dx >= 0 && dy * dy >= 0 && rr * rr >= 0) by (nonlinear_arith);
    assert(dx * dx <= 0x4000_0000_0000_0000 && dy * dy <= 0x4000_0000_0000_0000 && rr * rr <= 0x4000_0000_0000_0000)
        by (nonlinear_arith)
        requires -0x8000_0000 <= dx < 0x8000_0000, -0x8000_0000 <= dy < 0x8000_0000, -0x8000_0000 <= rr < 0x8000_0000;
    if dx * dx + dy * dy > rr * rr {
        return None;
    }
    grid.idx(p)
}

/// The radius a field of view is computed with: the sensor's, else the
/// light's, else 0.
pub fn fov_radius(sensor: Option<i32>, light: Option<i32>) -> (r: i32)
    ensures
        r == match sensor {
            Some(s) => s,
            None => match light {
                Some(l) => l,
                None => 0,
            },
        },
{
    match sensor {
        Some(s) => s,
        None => match light {
            Some(l) => l,
            None => 0,
        },
    }
}

/// The key of a cached field of view: where, how far, and under which
/// obstacle layout it was computed, plus how often it was refreshed.
#[derive(Clone, Copy, Debug, PartialEq, Eq, Structural)]
pub struct FovCache {
    pub revision: u64,
    pub obstacle_revision: u64,
    pub pos: IVec2,
    pub radius: i32,
}

impl FovCache {
    /// A cache that matches no observer yet.
    pub fn stale() -> (r: FovCache)
        ensures
            r.revision == 0,
            r.obstacle_revision == u64::MAX,
            r.pos == (IVec2 { x: i32::MIN, y: i32::MIN }),
            r.radius == -1,
    {
        FovCache { revision: 0, obstacle_revision: u64::MAX, pos: IVec2 { x: i32::MIN, y: i32::MIN }, radius: -1 }
    }

    /// The field must be recomputed when the observer moved, its radius
    /// changed or the obstacle layout changed.
    pub open spec fn spec_needs_refresh(&self, pos: IVec2, radius: i32, blocker_revision: u64) -> bool {
        !(self.pos == pos && self.radius == radius && self.obstacle_revision == blocker_revision)
    }

    pub fn needs_refresh(&self, pos: IVec2, radius: i32, blocker_revision: u64) -> (r: bool)
        ensures
            r == self.spec_needs_refresh(pos, radius, blocker_revision),
    {
        !(self.pos == pos && self.radius == radius && self.obstacle_revision == blocker_revision)
    }

    /// The cache after a recomputation: the revision advances (wrapping)
    /// and the key becomes the new one.
    pub open spec fn spec_refreshed(&self, pos: IVec2, radius: i32, blocker_revision: u64) -> FovCache {
        FovCache {
            revision: if self.revision == u64::MAX { 0 } else { (self.revision + 1) as u64 },
            obstacle_revision: blocker_revision,
            pos,
            radius,
        }
    }

    pub fn refreshed(&mut self, pos: IVec2, radius: i32, blocker_revision: u64)
        ensures
            *final(self) == old(self).spec_refreshed(pos, radius, blocker_revision),
    {
        self.revision = self.revision.wrapping_add(1);
        self.obstacle_revision = blocker_revision;
        self.pos = pos;
        self.radius = radius;
    }
}

/// A field recomputed for an observer stays valid until the observer moves,
/// its radius changes or the obstacle layout changes; each recomputation
/// changes the revision that layers derived from it compare against.
pub proof fn law_refresh_settles(cache: FovCache, pos: IVec2, radius: i32, blocker_revision: u64)
    ensures
        !cache.spec_refreshed(pos, radius, blocker_revision).spec_needs_refresh(pos, radius, blocker_revision),
        cache.spec_refreshed(pos, radius, blocker_revision).revision != cache.revision,
{
}

/// A cell's flags after one visibility update: seen cells become visible
/// and known; other cells lose visibility only.
pub open spec fn updated_vis(v: Vis, seen: bool) -> Vis {
    if seen { Vis { bits: v.bits | 3 } } else { Vis { bits: v.bits & 254 } }
}

/// The player's visibility layer and the field revision it reflects.
#[derive(Debug)]
pub struct VisibilityMap {
    pub revision: u64,
    pub data: Vec<Vis>,
}

impl VisibilityMap {
    /// An empty layer of `cells` cells, not yet synchronised with any field.
    pub fn new(cells: usize) -> (r: VisibilityMap)
        ensures
            r.revision == u64::MAX,
            r.data@.len() == cells,
            forall|i: int| 0 <= i < cells ==> #[trigger] r.data@[i] == (Vis { bits: 0 }),
    {
        VisibilityMap { revision: u64::MAX, data: vec![Vis::empty(); cells] }
    }
}

/// Update the layer from a field of view when the field changed: the layer
/// is sized to `cells`, each cell the field marks as seen becomes visible
/// and known, every other cell within the field loses visibility, and the
/// layer records the field's revision.
pub fn player_visibility(vis: &mut VisibilityMap, fov_revision: u64, seen: &Vec<bool>, cells: usize)
    ensures
        old(vis).revision == fov_revision ==> final(vis).data@ == old(vis).data@ && final(vis).revision == old(vis).revision,
        old(vis).revision != fov_revision ==> {
            &&& final(vis).revision == fov_revision
            &&& final(vis).data@.len() == cells
            &&& forall|i: int| 0 <= i < cells ==> #[trigger] final(vis).data@[i] == {
                let before = if i < old(vis).data@.len() { old(vis).data@[i] } else { Vis { bits: 0 } };
                if i < seen@.len() { updated_vis(before, seen@[i]) } else { before }
            }
        },
{
    if vis.revision == fov_revision {
        return;
    }
    let ghost start = vis.data@;
    vis.data.resize(cells, Vis::empty());
    let mut i: usize = 0;
    while i < seen.len() && i < vis.data.len()
        invariant
            vis.data@.len() == cells,
            i <= cells,
            forall|j: int| 0 <= j < cells ==> #[trigger] vis.data@[j] == {
                let before = if j < start.len() { start[j] } else { Vis { bits: 0 } };
                if j < i && j < seen@.len() { updated_vis(before, seen@[j]) } else { before }
            },
        decreases cells - i,
    {
        let v = vis.data[i];
        let next = if seen[i] { Vis { bits: v.bits | (VISIBLE_BIT | KNOWN_BIT) } } else { Vis { bits: v.bits & !VISIBLE_BIT } };
        proof {
            let b = v.bits;
            assert((b | (1u8 | 2u8)) == (b | 3u8) && (b & !1u8) == (b & 254u8)) by (bit_vector);
        }
        vis.data.set(i, next);
        i += 1;
    }
    vis.revision = fov_revision;
}

/// Once seen, a cell stays known; it is visible exactly when seen now.
pub proof fn law_known_persists(v: Vis, seen: bool)
    ensures
        v.is_known() ==> updated_vis(v, seen).is_known(),
        updated_vis(v, seen).is_visible() == seen,
        seen ==> updated_vis(v, seen).is_known(),
{
    let b = v.bits;
    assert((b & 2u8 != 0) ==> ((b | 3u8) & 2u8 != 0) && ((b & 254u8) & 2u8 != 0)) by (bit_vector);
    assert(((b | 3u8) & 1u8 != 0) && ((b & 254u8) & 1u8 == 0) && ((b | 3u8) & 2u8 != 0)) by (bit_vector);
}

/// Whether the static light layer must be rebuilt: it is marked dirty, the
/// static sources' field revisions differ from those it was built from, or
/// a static source changed.
pub fn static_light_needs_rebuild(dirty: bool, current: &Vec<(EntityId, u64)>, last_seen: &Vec<(EntityId, u64)>, source_changed: bool) -> (r: bool)
    ensures
        r == (dirty || current@ != last_seen@ || source_changed),
{
    if dirty || source_changed {
        return true;
    }
    if current.len() != last_seen.len() {
        return true;
    }
    let mut i: usize = 0;
    while i < current.len()
        invariant
            i <= current@.len(),
            current@.len() == last_seen@.len(),
            forall|j: int| 0 <= j < i ==> #[trigger] current@[j] == last_seen@[j],
        decreases current@.len() - i,
    {
        let (e1, r1) = current[i];
        let (e2, r2) = last_seen[i];
        if !(e1 == e2 && r1 == r2) {
            return true;
        }
        i += 1;
    }
    assert(current@ =~= last_seen@);
    false
}

} // verus!
