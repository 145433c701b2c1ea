//! The occupancy grid: one collider per cell, with change revisions.
use vstd::prelude::*;
use crate::geometry::{EntityId, IVec2};

verus! {

/// What stands in an occupied cell.
#[derive(Clone, Copy, Debug, PartialEq, Eq, Structural)]
pub struct Occupant {
    pub entity: EntityId,
    pub blocks_vision: bool,
}

/// Occupancy grid of colliders. `revision` counts every occupancy change;
/// `blocker_revision` counts only changes of the vision-blocking layout, so
/// moving actors do not invalidate every cached field of view.
#[derive(Debug)]
pub struct MapGrid {
    pub width: i32,
    pub height: i32,
    pub revision: u64,
    pub blocker_revision: u64,
    pub cells: Vec<Option<Occupant>>,
}

pub open spec fn at_least_one(v: i32) -> int {
    if v < 1 { 1 } else { v as int }
}

impl MapGrid {
    /// Row-major cell contents.
    pub open spec fn cells_view(&self) -> Seq<Option<Occupant>> {
        self.cells@
    }

    pub open spec fn wf(&self) -> bool {
        &&& 1 <= self.width
        &&& 1 <= self.height
        &&& self.width * self.height <= i32::MAX
        &&& self.cells_view().len() == self.width * self.height
    }

    pub open spec fn spec_is_valid(&self, p: IVec2) -> bool {
        0 <= p.x < self.width && 0 <= p.y < self.height
    }

    pub open spec fn spec_idx(&self, p: IVec2) -> int {
        p.y * self.width + p.x
    }

    pub open spec fn spec_cell(&self, p: IVec2) -> Option<Occupant> {
        if self.spec_is_valid(p) {
            self.cells_view()[self.spec_idx(p)]
        } else {
            None
        }
    }

    pub open spec fn spec_get(&self, p: IVec2) -> Option<EntityId> {
        match self.spec_cell(p) {
            Some(o) => Some(o.entity),
            None => None,
        }
    }

    pub open spec fn spec_blocks_vision(&self, p: IVec2) -> bool {
        match self.spec_cell(p) {
            Some(o) => o.blocks_vision,
            None => false,
        }
    }

    /// The toroidal wrap of `p` (Euclidean remainder on each axis).
    pub open spec fn spec_safe_pos(&self, p: IVec2) -> IVec2 {
        IVec2 { x: (p.x as int % self.width as int) as i32, y: (p.y as int % self.height as int) as i32 }
    }

    /// The grid after `set_with_blocking(p, entity, blocks)` on `self`.
    pub open spec fn after_set(&self, p: IVec2, entity: EntityId, blocks: bool, after: &MapGrid) -> bool {
        let next = Some(Occupant { entity, blocks_vision: blocks });
        &&& after.width == self.width
        &&& after.height == self.height
        &&& if !self.spec_is_valid(p) || self.spec_cell(p) == next {
            &&& after.cells_view() == self.cells_view()
            &&& after.revision == self.revision
            &&& after.blocker_revision == self.blocker_revision
        } else {
            &&& after.cells_view() == self.cells_view().update(self.spec_idx(p), next)
            &&& after.revision == self.revision + 1
            &&& after.blocker_revision == self.blocker_revision
                + if self.spec_blocks_vision(p) != blocks { 1int } else { 0int }
        }
    }

    /// The grid after `clear(p)` on `self`.
    pub open spec fn after_clear(&self, p: IVec2, after: &MapGrid) -> bool {
        &&& after.width == self.width
        &&& after.height == self.height
        &&& match self.spec_cell(p) {
            None => {
                &&& after.cells_view() == self.cells_view()
                &&& after.revision == self.revision
                &&& after.blocker_revision == self.blocker_revision
            },
            Some(old) => {
                &&& after.cells_view() == self.cells_view().update(self.spec_idx(p), None)
                &&& after.revision == self.revision + 1
                &&& after.blocker_revision == self.blocker_revision
                    + if old.blocks_vision { 1int } else { 0int }
            },
        }
    }

    /// An empty grid; each dimension is raised to at least 1.
    pub fn new(width: i32, height: i32) -> (r: MapGrid)
        requires
            at_least_one(width) * at_least_one(height) <= i32::MAX,
        ensures
            r.wf(),
            r.width == at_least_one(width),
            r.height == at_least_one(height),
            r.revision == 0,
            r.blocker_revision == 0,
            forall|i: int| 0 <= i < r.cells_view().len() ==> r.cells_view()[i] is None,
    {
        let w: i32 = if width < 1 { 1 } else { width };
        let h: i32 = if height < 1 { 1 } else { height };
        assert(w * h >= 1) by (nonlinear_arith) requires w >= 1, h >= 1;
        let n: usize = (w * h) as usize;
        let mut cells: Vec<Option<Occupant>> = Vec::with_capacity(n);
        let mut i: usize = 0;
        while i < n
            invariant
                i <= n,
                cells@.len() == i,
                forall|j: int| 0 <= j < i ==> cells@[j] is None,
            decreases n - i,
        {
            cells.push(None);
            i += 1;
        }
        MapGrid { width: w, height: h, revision: 0, blocker_revision: 0, cells }
    }

    pub fn is_valid(&self, p: IVec2) -> (r: bool)
        ensures
            r == self.spec_is_valid(p),
    {
        p.x >= 0 && p.y >= 0 && p.x < self.width && p.y < self.height
    }

    /// Toroidal wrap of a position onto the grid.
    pub fn safe_pos(&self, p: IVec2) -> (r: IVec2)
        requires
            self.wf(),
        ensures
            r == self.spec_safe_pos(p),
            self.spec_is_valid(r),
    {
        let x = match p.x.checked_rem_euclid(self.width) {
            Some(v) => v,
            None => 0,
        };
        let y = match p.y.checked_rem_euclid(self.height) {
            Some(v) => v,
            None => 0,
        };
        IVec2 { x, y }
    }

    pub fn idx(&self, p: IVec2) -> (r: Option<usize>)
        requires
            self.wf(),
        ensures
            r == (if self.spec_is_valid(p) { Some(self.spec_idx(p) as usize) } else { None::<usize> }),
            r matches Some(i) ==> i < self.cells_view().len() && i == self.spec_idx(p),
    {
        if self.is_valid(p) {
            proof { lemma_index_in_bounds(self.width as int, self.height as int, p.x as int, p.y as int); }
            Some((p.y * self.width + p.x) as usize)
        } else {
            None
        }
    }

    pub fn get(&self, p: IVec2) -> (r: Option<EntityId>)
        requires
            self.wf(),
        ensures
            r == self.spec_get(p),
    {
        match self.idx(p) {
            Some(i) => match self.cells[i] {
                Some(o) => Some(o.entity),
                None => None,
            },
            None => None,
        }
    }

    pub fn blocks_vision(&self, p: IVec2) -> (r: bool)
        requires
            self.wf(),
        ensures
            r == self.spec_blocks_vision(p),
    {
        match self.idx(p) {
            Some(i) => match self.cells[i] {
                Some(o) => o.blocks_vision,
                None => false,
            },
            None => false,
        }
    }

    /// Insert a vision-blocking obstacle.
    pub fn set(&mut self, p: IVec2, entity: EntityId)
        requires
            old(self).wf(),
            old(self).revision < u64::MAX,
            old(self).blocker_revision < u64::MAX,
        ensures
            final(self).wf(),
            old(self).after_set(p, entity, true, &*final(self)),
    {
        self.set_with_blocking(p, entity, true);
    }

    /// Place `entity` on `p` (no effect off the grid or when the cell already
    /// holds exactly this occupant).
    pub fn set_with_blocking(&mut self, p: IVec2, entity: EntityId, blocks_vision: bool)
        requires
            old(self).wf(),
            old(self).revision < u64::MAX,
            old(self).blocker_revision < u64::MAX,
        ensures
            final(self).wf(),
            old(self).after_set(p, entity, blocks_vision, &*final(self)),
    {
        let i = match self.idx(p) {
            Some(i) => i,
            None => return,
        };
        let next = Some(Occupant { entity, blocks_vision });
        let current = self.cells[i];
        let same = match current {
            Some(o) => o.entity == entity && o.blocks_vision == blocks_vision,
            None => false,
        };
        if !same {
            let old_blocks = match current {
                Some(o) => o.blocks_vision,
                None => false,
            };
            self.cells.set(i, next);
            self.revision = self.revision + 1;
            if old_blocks != blocks_vision {
                self.blocker_revision = self.blocker_revision + 1;
            }
        }
    }

    /// Empty the cell at `p` (no effect off the grid or on an empty cell).
    pub fn clear(&mut self, p: IVec2)
        requires
            old(self).wf(),
            old(self).revision < u64::MAX,
            old(self).blocker_revision < u64::MAX,
        ensures
            final(self).wf(),
            old(self).after_clear(p, &*final(self)),
    {
        let i = match self.idx(p) {
            Some(i) => i,
            None => return,
        };
        match self.cells[i] {
            Some(old) => {
                self.cells.set(i, None);
                self.revision = self.revision + 1;
                if old.blocks_vision {
                    self.blocker_revision = self.blocker_revision + 1;
                }
            },
            None => {},
        }
    }
}

pub proof fn lemma_index_in_bounds(w: int, h: int, x: int, y: int)
    requires
        0 <= x < w,
        0 <= y < h,
    ensures
        0 <= y * w + x < w * h,
{
    assert(0 <= y * w + x < w * h) by (nonlinear_arith)
        requires 0 <= x < w, 0 <= y < h;
}

pub proof fn lemma_index_injective(w: int, x1: int, y1: int, x2: int, y2: int)
    requires
        0 <= x1 < w,
        0 <= x2 < w,
        0 <= y1,
        0 <= y2,
        y1 * w + x1 == y2 * w + x2,
    ensures
        x1 == x2,
        y1 == y2,
{
    if y1 < y2 {
        assert(y1 * w + w <= y2 * w) by (nonlinear_arith) requires y1 < y2, w > 0;
    } else if y2 < y1 {
        assert(y2 * w + w <= y1 * w) by (nonlinear_arith) requires y2 < y1, w > 0;
    }
}

/// Reading a cell gives back what was last written there.
pub proof fn law_get_after_set(before: MapGrid, after: MapGrid, p: IVec2, entity: EntityId, blocks: bool)
    requires
        before.wf(),
        before.after_set(p, entity, blocks, &after),
        before.spec_is_valid(p),
    ensures
        after.spec_get(p) == Some(entity),
        after.spec_blocks_vision(p) == blocks,
{
    lemma_index_in_bounds(before.width as int, before.height as int, p.x as int, p.y as int);
}

/// Writing a cell leaves every other cell as it was.
pub proof fn law_set_is_local(before: MapGrid, after: MapGrid, p: IVec2, q: IVec2, entity: EntityId, blocks: bool)
    requires
        before.wf(),
        before.after_set(p, entity, blocks, &after),
        p != q,
    ensures
        after.spec_cell(q) == before.spec_cell(q),
{
    if before.spec_is_valid(p) && before.spec_is_valid(q) {
        lemma_index_in_bounds(before.width as int, before.height as int, p.x as int, p.y as int);
        lemma_index_in_bounds(before.width as int, before.height as int, q.x as int, q.y as int);
        if before.spec_idx(p) == before.spec_idx(q) {
            lemma_index_injective(before.width as int, p.x as int, p.y as int, q.x as int, q.y as int);
        }
    }
}

/// Reading a cleared cell gives nothing back.
pub proof fn law_get_after_clear(before: MapGrid, after: MapGrid, p: IVec2)
    requires
        before.wf(),
        before.after_clear(p, &after),
    ensures
        after.spec_get(p) is None,
{
    if before.spec_is_valid(p) {
        lemma_index_in_bounds(before.width as int, before.height as int, p.x as int, p.y as int);
    }
}

/// Moving actors (non-blocking occupants) never change the blocker revision.
pub proof fn law_non_blockers_keep_blocker_revision(before: MapGrid, after: MapGrid, p: IVec2, entity: EntityId)
    requires
        before.wf(),
        before.after_set(p, entity, false, &after),
        !before.spec_blocks_vision(p),
    ensures
        after.blocker_revision == before.blocker_revision,
{
}

} // verus!
