//! Two-phase movement resolution. Claims are collected against a snapshot
//! of the occupancy grid in creation order: a claim on a cell held by
//! another collider fails (so swaps and entering a cell vacated in the same
//! pass are blocked), and of several claims on one free cell only the first
//! wins. Every failed claim records a collision with the blocker or winner.
use vstd::prelude::*;
use crate::geometry::{EntityId, IVec2};
use crate::grid::{MapGrid, Occupant, lemma_index_in_bounds, lemma_index_injective};

verus! {

/// A collider's intent to move to `dest` (wrapped onto the grid before it is
/// checked). `from` is empty for a collider that stands nowhere yet.
#[derive(Clone, Copy, Debug, PartialEq, Eq, Structural)]
pub struct MoveClaim {
    pub entity: EntityId,
    pub from: Option<IVec2>,
    pub dest: IVec2,
    /// Whether the collider blocks vision once it stands on its new cell.
    pub blocks_vision: bool,
}

/// A failed claim: `source` could not enter the cell held or won by `target`.
#[derive(Clone, Copy, Debug, PartialEq, Eq, Structural)]
pub struct CollisionEvent {
    pub source: EntityId,
    pub target: EntityId,
}

/// The outcome of collecting one pass of claims.
#[derive(Debug)]
pub struct Resolution {
    /// Claim indices in processing order.
    pub order: Vec<usize>,
    /// For each claim (by its index in the input), the wrapped destination
    /// it won, or nothing when it lost.
    pub granted: Vec<Option<IVec2>>,
    /// Collisions in processing order.
    pub collisions: Vec<CollisionEvent>,
}

/// The claim an entity makes this pass: a collider that is not being
/// destroyed and intends to move claims its destination; it blocks vision
/// once placed when it cannot move itself.
pub open spec fn spec_claim_for(entity: EntityId, from: Option<IVec2>, pending: crate::simulation::PendingPos,
    collider: bool, doomed: bool, mobile: bool) -> Option<MoveClaim> {
    match pending {
        crate::simulation::PendingPos::MoveTo(dest) => if collider && !doomed {
            Some(MoveClaim { entity, from, dest, blocks_vision: !mobile })
        } else {
            None
        },
        _ => None,
    }
}

pub fn claim_for(entity: EntityId, from: Option<IVec2>, pending: crate::simulation::PendingPos,
    collider: bool, doomed: bool, mobile: bool) -> (r: Option<MoveClaim>)
    ensures
        r == spec_claim_for(entity, from, pending, collider, doomed, mobile),
{
    match pending {
        crate::simulation::PendingPos::MoveTo(dest) => if collider && !doomed {
            Some(MoveClaim { entity, from, dest, blocks_vision: !mobile })
        } else {
            None
        },
        _ => None,
    }
}

/// Strict creation order of entities.
pub open spec fn key_lt(a: EntityId, b: EntityId) -> bool {
    a.index < b.index || (a.index == b.index && a.generation < b.generation)
}

/// Processing order of claims `i` and `j`: by entity, then by position in
/// the input (a stable sort).
pub open spec fn claim_before(claims: Seq<MoveClaim>, i: int, j: int) -> bool {
    key_lt(claims[i].entity, claims[j].entity)
        || (claims[i].entity == claims[j].entity && i <= j)
}

/// `order` lists every claim index once, sorted by `claim_before`.
pub open spec fn is_processing_order(claims: Seq<MoveClaim>, order: Seq<usize>) -> bool {
    &&& order.len() == claims.len()
    &&& forall|k: int| 0 <= k < order.len() ==> order[k] < claims.len()
    &&& forall|a: int, b: int| 0 <= a < b < order.len() ==> order[a] != order[b]
    &&& forall|a: int, b: int| 0 <= a < b < order.len() ==> claim_before(claims, order[a] as int, order[b] as int)
    &&& forall|c: int| 0 <= c < claims.len() ==> #[trigger] lists_index(order, c)
}

/// Some position of `order` holds `c`.
pub open spec fn lists_index(order: Seq<usize>, c: int) -> bool {
    exists|k: int| 0 <= k < order.len() && order[k] == c
}

/// The claims in processing order.
pub open spec fn ordered(claims: Seq<MoveClaim>, order: Seq<usize>) -> Seq<MoveClaim> {
    Seq::new(order.len(), |k: int| claims[order[k] as int])
}

/// The wrapped destination of a claim.
pub open spec fn dest_of(grid: &MapGrid, c: MoveClaim) -> IVec2 {
    grid.spec_safe_pos(c.dest)
}

/// The snapshot allows the claim: its destination is empty or its own.
pub open spec fn passes(grid: &MapGrid, c: MoveClaim) -> bool {
    match grid.spec_get(dest_of(grid, c)) {
        None => true,
        Some(e) => e == c.entity,
    }
}

/// The first of the first `n` claims of `s` that passes the snapshot on `to`.
pub open spec fn first_winner(grid: &MapGrid, s: Seq<MoveClaim>, to: IVec2, n: int) -> Option<int>
    decreases n,
{
    if n <= 0 {
        None
    } else {
        match first_winner(grid, s, to, n - 1) {
            Some(j) => Some(j),
            None => if dest_of(grid, s[n - 1]) == to && passes(grid, s[n - 1]) {
                Some(n - 1)
            } else {
                None
            },
        }
    }
}

/// Claim `k` (in processing order) wins its destination.
pub open spec fn wins(grid: &MapGrid, s: Seq<MoveClaim>, k: int) -> bool {
    passes(grid, s[k]) && first_winner(grid, s, dest_of(grid, s[k]), k) is None
}

/// The collision recorded for claim `k` (in processing order), if any.
pub open spec fn collision_of(grid: &MapGrid, s: Seq<MoveClaim>, k: int) -> Option<CollisionEvent> {
    let to = dest_of(grid, s[k]);
    if !passes(grid, s[k]) {
        Some(CollisionEvent { source: s[k].entity, target: grid.spec_get(to)->0 })
    } else {
        match first_winner(grid, s, to, k) {
            Some(j) => if s[j].entity != s[k].entity {
                Some(CollisionEvent { source: s[k].entity, target: s[j].entity })
            } else {
                None
            },
            None => None,
        }
    }
}

/// The collisions of the first `n` claims, in processing order.
pub open spec fn collisions_upto(grid: &MapGrid, s: Seq<MoveClaim>, n: int) -> Seq<CollisionEvent>
    decreases n,
{
    if n <= 0 {
        Seq::empty()
    } else {
        collisions_upto(grid, s, n - 1) + match collision_of(grid, s, n - 1) {
            Some(c) => seq![c],
            None => Seq::empty(),
        }
    }
}

proof fn lemma_first_winner(grid: &MapGrid, s: Seq<MoveClaim>, to: IVec2, n: int)
    requires
        n <= s.len(),
    ensures
        match first_winner(grid, s, to, n) {
            Some(j) => 0 <= j < n && dest_of(grid, s[j]) == to && passes(grid, s[j])
                && forall|i: int| 0 <= i < j ==> !(dest_of(grid, s[i]) == to && passes(grid, s[i])),
            None => forall|i: int| 0 <= i < n ==> !(dest_of(grid, s[i]) == to && passes(grid, s[i])),
        },
    decreases n,
{
    if n > 0 {
        lemma_first_winner(grid, s, to, n - 1);
    }
}

proof fn lemma_first_winner_stable(grid: &MapGrid, s: Seq<MoveClaim>, to: IVec2, j: int, n: int)
    requires
        0 <= j <= n <= s.len(),
        first_winner(grid, s, to, j) is Some,
    ensures
        first_winner(grid, s, to, n) == first_winner(grid, s, to, j),
    decreases n - j,
{
    if n > j {
        lemma_first_winner_stable(grid, s, to, j, n - 1);
    }
}

/// Sort claim indices into processing order (stable insertion sort).
fn processing_order(claims: &Vec<MoveClaim>) -> (order: Vec<usize>)
    ensures
        is_processing_order(claims@, order@),
{
    let n = claims.len();
    let mut order: Vec<usize> = Vec::new();
    let mut i: usize = 0;
    while i < n
        invariant
            i <= n,
            n == claims@.len(),
            order@.len() == i,
            forall|k: int| 0 <= k < order@.len() ==> order@[k] < i,
            forall|a: int, b: int| 0 <= a < b < order@.len() ==> order@[a] != order@[b],
            forall|a: int, b: int| 0 <= a < b < order@.len()
                ==> claim_before(claims@, order@[a] as int, order@[b] as int),
            forall|c: int| 0 <= c < i ==> #[trigger] lists_index(order@, c),
        decreases n - i,
    {
        let e = claims[i].entity;
        // Insert before the first claim whose entity comes strictly later.
        let mut pos: usize = 0;
        while pos < order.len()
            invariant
                pos <= order@.len(),
                i < n,
                n == claims@.len(),
                e == claims@[i as int].entity,
                forall|k: int| 0 <= k < order@.len() ==> order@[k] < i,
                forall|k: int| 0 <= k < pos ==> !key_lt(e, claims@[order@[k] as int].entity),
            ensures
                pos <= order@.len(),
                forall|k: int| 0 <= k < pos ==> !key_lt(e, claims@[order@[k] as int].entity),
                pos < order@.len() ==> key_lt(e, claims@[order@[pos as int] as int].entity),
            decreases order@.len() - pos,
        {
            let other = claims[order[pos]].entity;
            if e.index < other.index || (e.index == other.index && e.generation < other.generation) {
                break;
            }
            pos += 1;
        }
        let ghost before = order@;
        proof {
            // Everything after `pos` comes strictly after `e`, since the
            // order is sorted and the claim at `pos` does.
            assert forall|k: int| pos <= k < before.len() implies key_lt(e, claims@[before[k] as int].entity) by {
                if k > pos {
                    assert(claim_before(claims@, before[pos as int] as int, before[k] as int));
                }
            }
        }
        order.insert(pos, i);
        proof {
            assert forall|a: int, b: int| 0 <= a < b < order@.len()
                implies claim_before(claims@, order@[a] as int, order@[b] as int) by {
                if a < pos && b == pos {
                    assert(!key_lt(e, claims@[before[a] as int].entity));
                    assert(order@[b] == i);
                } else if a == pos {
                    assert(key_lt(e, claims@[before[b - 1] as int].entity));
                } else if a < pos && b > pos {
                    assert(claim_before(claims@, before[a] as int, before[b - 1] as int));
                } else if a > pos {
                    assert(claim_before(claims@, before[a - 1] as int, before[b - 1] as int));
                }
            }
            assert forall|c: int| 0 <= c < i + 1 implies #[trigger] lists_index(order@, c) by {
                if c == i {
                    assert(order@[pos as int] == c);
                } else {
                    assert(lists_index(before, c));
                    let k0 = choose|k: int| 0 <= k < before.len() && before[k] == c;
                    if k0 < pos {
                        assert(order@[k0] == c);
                    } else {
                        assert(order@[k0 + 1] == c);
                    }
                }
            }
            assert forall|a: int, b: int| 0 <= a < b < order@.len() implies order@[a] != order@[b] by {
                if a == pos {
                    assert(before[b - 1] < i);
                } else if b == pos {
                    assert(before[a] < i);
                }
            }
        }
        i += 1;
    }
    order
}

/// `order` and `granted` are the outcome of collecting `claims` against `grid`.
pub open spec fn collected(grid: &MapGrid, claims: Seq<MoveClaim>, order: Seq<usize>, granted: Seq<Option<IVec2>>) -> bool {
    &&& is_processing_order(claims, order)
    &&& granted.len() == claims.len()
    &&& forall|k: int| 0 <= k < claims.len() ==> #[trigger] granted[order[k] as int] == (
        if wins(grid, ordered(claims, order), k) {
            Some(dest_of(grid, claims[order[k] as int]))
        } else {
            None
        })
}

/// Collect the claims of one pass against the snapshot `grid`.
pub fn resolve_collect(grid: &MapGrid, claims: &Vec<MoveClaim>) -> (r: Resolution)
    requires
        grid.wf(),
    ensures
        collected(grid, claims@, r.order@, r.granted@),
        r.collisions@ == collisions_upto(grid, ordered(claims@, r.order@), claims@.len() as int),
{
    let order = processing_order(claims);
    let n = claims.len();
    let ghost s = ordered(claims@, order@);
    let cell_count: usize = (grid.width * grid.height) as usize;
    let mut reserved: Vec<Option<usize>> = vec![None; cell_count];
    let mut granted: Vec<Option<IVec2>> = vec![None; n];
    let mut collisions: Vec<CollisionEvent> = Vec::new();
    let mut k: usize = 0;
    while k < n
        invariant
            grid.wf(),
            n == claims@.len(),
            is_processing_order(claims@, order@),
            s == ordered(claims@, order@),
            k <= n,
            reserved@.len() == grid.cells_view().len(),
            granted@.len() == n,
            // A reserved cell holds the first winner so far on it.
            forall|ci: int| 0 <= ci < reserved@.len() ==> (#[trigger] reserved@[ci] matches Some(w) ==> {
                &&& w < k
                &&& grid.spec_idx(dest_of(grid, s[w as int])) == ci
                &&& passes(grid, s[w as int])
                &&& first_winner(grid, s, dest_of(grid, s[w as int]), k as int) == Some(w as int)
            }),
            forall|j: int| 0 <= j < k && passes(grid, s[j]) ==>
                (#[trigger] reserved@[grid.spec_idx(dest_of(grid, s[j]))]) is Some,
            forall|j: int| 0 <= j < n ==> #[trigger] granted@[order@[j] as int] == (
                if j < k && wins(grid, s, j) { Some(dest_of(grid, s[j])) } else { None }),
            collisions@ == collisions_upto(grid, s, k as int),
        decreases n - k,
    {
        let ci = order[k];
        let claim = claims[ci];
        assert(claim == s[k as int]);
        let to = grid.safe_pos(claim.dest);
        let index = match grid.idx(to) {
            Some(index) => index,
            None => 0,
        };
        proof {
            lemma_first_winner(grid, s, to, k as int);
            lemma_index_in_bounds(grid.width as int, grid.height as int, to.x as int, to.y as int);
        }
        let ghost prev_reserved = reserved@;
        let occupant = grid.get(to);
        let blocked = match occupant {
            Some(other) => other != claim.entity,
            None => false,
        };
        if blocked {
            collisions.push(CollisionEvent { source: claim.entity, target: occupant.unwrap() });
            proof {
                assert(collision_of(grid, s, k as int) == Some(CollisionEvent { source: claim.entity, target: occupant.unwrap() }));
            }
        } else {
            match reserved[index] {
                Some(w) => {
                    let winner = claims[order[w]].entity;
                    proof {
                        let dw = dest_of(grid, s[w as int]);
                        lemma_index_in_bounds(grid.width as int, grid.height as int, dw.x as int, dw.y as int);
                        lemma_index_injective(grid.width as int, dw.x as int, dw.y as int, to.x as int, to.y as int);
                        assert(s[w as int] == claims@[order@[w as int] as int]);
                    }
                    if winner != claim.entity {
                        collisions.push(CollisionEvent { source: claim.entity, target: winner });
                    }
                    proof {
                        assert(first_winner(grid, s, to, k as int) == Some(w as int));
                    }
                },
                None => {
                    proof {
                        if first_winner(grid, s, to, k as int) is Some {
                            let j = first_winner(grid, s, to, k as int)->0;
                            assert(reserved@[grid.spec_idx(dest_of(grid, s[j]))] is Some);
                        }
                    }
                    reserved.set(index, Some(k));
                    granted.set(ci, Some(to));
                },
            }
        }
        proof {
            let s2 = s;
            assert(collisions@ == collisions_upto(grid, s, k as int + 1));
            // Reservations and first winners advance together.
            assert forall|c: int| 0 <= c < reserved@.len() implies (#[trigger] reserved@[c] matches Some(w) ==> {
                &&& w < k + 1
                &&& grid.spec_idx(dest_of(grid, s[w as int])) == c
                &&& passes(grid, s[w as int])
                &&& first_winner(grid, s, dest_of(grid, s[w as int]), k + 1) == Some(w as int)
            }) by {
                if let Some(w) = reserved@[c] {
                    if prev_reserved[c] is Some {
                        lemma_first_winner_stable(grid, s, dest_of(grid, s[w as int]), k as int, k + 1);
                    }
                }
            }
            assert forall|j: int| 0 <= j < k + 1 && passes(grid, s[j]) implies
                (#[trigger] reserved@[grid.spec_idx(dest_of(grid, s[j]))]) is Some by {
                let dj = dest_of(grid, s[j]);
                lemma_index_in_bounds(grid.width as int, grid.height as int, dj.x as int, dj.y as int);
            }
            assert forall|j: int| 0 <= j < n implies #[trigger] granted@[order@[j] as int] == (
                if j < k + 1 && wins(grid, s, j) { Some(dest_of(grid, s[j])) } else { None }) by {
                if j != k {
                    assert(order@[j] != order@[k as int]);
                }
            }
        }
        k += 1;
    }
    Resolution { order, granted, collisions }
}

/// Of two winning claims, no two share a destination: one winner per cell.
pub proof fn law_one_winner_per_cell(grid: &MapGrid, s: Seq<MoveClaim>, a: int, b: int)
    requires
        0 <= a < b < s.len(),
        wins(grid, s, a),
        wins(grid, s, b),
    ensures
        dest_of(grid, s[a]) != dest_of(grid, s[b]),
{
    lemma_first_winner(grid, s, dest_of(grid, s[b]), b);
}

/// A claim on a cell that another collider holds in the snapshot loses and
/// records a collision with that collider. This blocks swaps and entering a
/// cell vacated in the same pass.
pub proof fn law_held_cell_refuses(grid: &MapGrid, s: Seq<MoveClaim>, k: int, holder: EntityId)
    requires
        0 <= k < s.len(),
        grid.spec_get(dest_of(grid, s[k])) == Some(holder),
        holder != s[k].entity,
    ensures
        !wins(grid, s, k),
        collision_of(grid, s, k) == Some(CollisionEvent { source: s[k].entity, target: holder }),
{
}

/// Two colliders that try to trade cells both stay put.
pub proof fn law_swaps_are_blocked(grid: &MapGrid, s: Seq<MoveClaim>, a: int, b: int, pa: IVec2, pb: IVec2)
    requires
        grid.wf(),
        0 <= a < s.len(),
        0 <= b < s.len(),
        s[a].entity != s[b].entity,
        grid.spec_get(pa) == Some(s[a].entity),
        grid.spec_get(pb) == Some(s[b].entity),
        dest_of(grid, s[a]) == pb,
        dest_of(grid, s[b]) == pa,
    ensures
        !wins(grid, s, a),
        !wins(grid, s, b),
{
}

/// Whenever some claim on a cell passes the snapshot, exactly one claim
/// wins that cell: the first such claim in processing order.
pub proof fn law_free_cell_gets_one_winner(grid: &MapGrid, s: Seq<MoveClaim>, k: int)
    requires
        0 <= k < s.len(),
        passes(grid, s[k]),
    ensures
        exists|w: int| 0 <= w <= k && wins(grid, s, w) && dest_of(grid, s[w]) == dest_of(grid, s[k]),
{
    let to = dest_of(grid, s[k]);
    lemma_first_winner(grid, s, to, k);
    match first_winner(grid, s, to, k) {
        Some(j) => {
            lemma_first_winner(grid, s, to, j);
            assert(wins(grid, s, j));
        },
        None => {
            assert(wins(grid, s, k));
        },
    }
}

/// The occupancy moves of a pass: each claim that won leaves its old cell
/// and enters its destination; a claim that lost does nothing.
pub open spec fn spec_pass_moves(claims: Seq<MoveClaim>, granted: Seq<Option<IVec2>>) -> Seq<MapMove> {
    Seq::new(claims.len(), |c: int| match granted[c] {
        Some(d) => MapMove { entity: claims[c].entity, from: claims[c].from, to: Some(d), blocks_vision: claims[c].blocks_vision },
        None => MapMove { entity: claims[c].entity, from: None, to: None, blocks_vision: claims[c].blocks_vision },
    })
}

/// Build the occupancy moves of a pass from its claims and their outcome.
pub fn pass_moves(claims: &Vec<MoveClaim>, granted: &Vec<Option<IVec2>>) -> (r: Vec<MapMove>)
    requires
        granted@.len() == claims@.len(),
    ensures
        r@ == spec_pass_moves(claims@, granted@),
{
    let mut r: Vec<MapMove> = Vec::new();
    let mut c: usize = 0;
    while c < claims.len()
        invariant
            c <= claims@.len(),
            granted@.len() == claims@.len(),
            r@ == spec_pass_moves(claims@, granted@).take(c as int),
        decreases claims@.len() - c,
    {
        let claim = claims[c];
        let m = match granted[c] {
            Some(d) => MapMove { entity: claim.entity, from: claim.from, to: Some(d), blocks_vision: claim.blocks_vision },
            None => MapMove { entity: claim.entity, from: None, to: None, blocks_vision: claim.blocks_vision },
        };
        r.push(m);
        proof {
            assert(spec_pass_moves(claims@, granted@).take(c as int + 1)
                == spec_pass_moves(claims@, granted@).take(c as int).push(m));
        }
        c += 1;
    }
    proof {
        assert(spec_pass_moves(claims@, granted@).take(claims@.len() as int) == spec_pass_moves(claims@, granted@));
    }
    r
}

/// One collider's part in the occupancy update of a pass: leave `from`
/// (if it holds it) and enter `to` (`None` removes it from the map).
#[derive(Clone, Copy, Debug, PartialEq, Eq, Structural)]
pub struct MapMove {
    pub entity: EntityId,
    pub from: Option<IVec2>,
    pub to: Option<IVec2>,
    pub blocks_vision: bool,
}

/// Some move leaves `p`, which its entity holds in `grid`.
pub open spec fn vacated(grid: &MapGrid, moves: Seq<MapMove>, p: IVec2) -> bool {
    exists|i: int| 0 <= i < moves.len() && moves[i].from == Some(p)
        && grid.spec_get(p) == Some(moves[i].entity)
}

/// The last of the first `n` moves that enters `p`.
pub open spec fn last_entering(moves: Seq<MapMove>, p: IVec2, n: int) -> Option<int>
    decreases n,
{
    if n <= 0 {
        None
    } else if moves[n - 1].to == Some(p) {
        Some(n - 1)
    } else {
        last_entering(moves, p, n - 1)
    }
}

proof fn lemma_last_entering(moves: Seq<MapMove>, p: IVec2, n: int)
    requires
        n <= moves.len(),
    ensures
        match last_entering(moves, p, n) {
            Some(i) => 0 <= i < n && moves[i].to == Some(p)
                && forall|j: int| i < j < n ==> moves[j].to != Some(p),
            None => forall|j: int| 0 <= j < n ==> moves[j].to != Some(p),
        },
    decreases n,
{
    if n > 0 {
        lemma_last_entering(moves, p, n - 1);
    }
}

pub(crate) proof fn lemma_cells_after_set(before: MapGrid, after: MapGrid, p: IVec2, entity: EntityId, blocks: bool)
    requires
        before.wf(),
        before.after_set(p, entity, blocks, &after),
        before.spec_is_valid(p),
    ensures
        forall|q: IVec2| #[trigger] after.spec_cell(q) == if q == p {
            Some(Occupant { entity, blocks_vision: blocks })
        } else {
            before.spec_cell(q)
        },
{
    assert forall|q: IVec2| #[trigger] after.spec_cell(q) == if q == p {
        Some(Occupant { entity, blocks_vision: blocks })
    } else {
        before.spec_cell(q)
    } by {
        if q == p {
            crate::grid::law_get_after_set(before, after, p, entity, blocks);
            lemma_index_in_bounds(before.width as int, before.height as int, p.x as int, p.y as int);
        } else {
            crate::grid::law_set_is_local(before, after, p, q, entity, blocks);
        }
    }
}

proof fn lemma_cells_after_clear(before: MapGrid, after: MapGrid, p: IVec2)
    requires
        before.wf(),
        before.after_clear(p, &after),
    ensures
        forall|q: IVec2| #[trigger] after.spec_cell(q) == if q == p { None } else { before.spec_cell(q) },
{
    assert forall|q: IVec2| #[trigger] after.spec_cell(q) == if q == p { None } else { before.spec_cell(q) } by {
        if before.spec_is_valid(q) {
            lemma_index_in_bounds(before.width as int, before.height as int, q.x as int, q.y as int);
        }
        if before.spec_is_valid(p) {
            lemma_index_in_bounds(before.width as int, before.height as int, p.x as int, p.y as int);
        }
        if q != p && before.spec_is_valid(p) && before.spec_is_valid(q) && before.spec_idx(p) == before.spec_idx(q) {
            lemma_index_injective(before.width as int, p.x as int, p.y as int, q.x as int, q.y as int);
        }
    }
}

/// `after` is `before` with every cell vacated by `moves` emptied.
pub open spec fn unmapped_by(before: &MapGrid, moves: Seq<MapMove>, after: &MapGrid) -> bool {
    &&& after.wf()
    &&& after.width == before.width
    &&& after.height == before.height
    &&& forall|p: IVec2| #[trigger] after.spec_cell(p)
        == if vacated(before, moves, p) { None } else { before.spec_cell(p) }
    // Vacating only cells that do not block sight keeps the blocking layout.
    &&& (forall|p: IVec2| vacated(before, moves, p) ==> !before.spec_blocks_vision(p))
        ==> after.blocker_revision == before.blocker_revision
}

/// `after` is `before` with every cell entered by `moves` taken by the last
/// move entering it.
pub open spec fn committed_by(before: &MapGrid, moves: Seq<MapMove>, after: &MapGrid) -> bool {
    &&& after.wf()
    &&& after.width == before.width
    &&& after.height == before.height
    &&& forall|p: IVec2| before.spec_is_valid(p) ==> #[trigger] after.spec_cell(p)
        == match last_entering(moves, p, moves.len() as int) {
            Some(i) => Some(Occupant { entity: moves[i].entity, blocks_vision: moves[i].blocks_vision }),
            None => before.spec_cell(p),
        }
    // Entering only cells that do not block sight, without blocking it,
    // keeps the blocking layout.
    &&& non_blocking_entries(before, moves) ==> after.blocker_revision == before.blocker_revision
}

/// Every move that enters a cell neither blocks sight nor enters a cell
/// that blocks it.
pub open spec fn non_blocking_entries(before: &MapGrid, moves: Seq<MapMove>) -> bool {
    forall|i: int| 0 <= i < moves.len() && #[trigger] moves[i].to is Some
        ==> !moves[i].blocks_vision && !before.spec_blocks_vision(moves[i].to->0)
}

/// Move `i` is the first to leave its cell: its entity holds the cell in
/// `before` and no earlier move has left it.
pub open spec fn first_vacates(before: &MapGrid, moves: Seq<MapMove>, i: int) -> bool {
    match moves[i].from {
        Some(p) => before.spec_get(p) == Some(moves[i].entity) && !vacated(before, moves.take(i), p),
        None => false,
    }
}

/// How many of the first `n` moves empty a cell (each cell is emptied once).
pub open spec fn vacate_count(before: &MapGrid, moves: Seq<MapMove>, n: int) -> nat
    decreases n,
{
    if n <= 0 {
        0
    } else {
        vacate_count(before, moves, n - 1) + if first_vacates(before, moves, n - 1) { 1nat } else { 0nat }
    }
}

/// How many of the first `n` moves empty a cell that blocks sight.
pub open spec fn blocking_vacate_count(before: &MapGrid, moves: Seq<MapMove>, n: int) -> nat
    decreases n,
{
    if n <= 0 {
        0
    } else {
        blocking_vacate_count(before, moves, n - 1)
            + if first_vacates(before, moves, n - 1) && before.spec_blocks_vision(moves[n - 1].from->0) { 1nat } else { 0nat }
    }
}

/// Resolve phase B: every move leaves the cell it holds.
pub fn resolve_unmap(grid: &mut MapGrid, moves: &Vec<MapMove>)
    requires
        old(grid).wf(),
        old(grid).revision + moves@.len() < u64::MAX,
        old(grid).blocker_revision + moves@.len() < u64::MAX,
    ensures
        unmapped_by(&*old(grid), moves@, &*final(grid)),
        final(grid).revision == old(grid).revision + vacate_count(&*old(grid), moves@, moves@.len() as int),
        final(grid).blocker_revision == old(grid).blocker_revision + blocking_vacate_count(&*old(grid), moves@, moves@.len() as int),
        final(grid).revision <= old(grid).revision + moves@.len(),
        final(grid).blocker_revision <= old(grid).blocker_revision + moves@.len(),
{
    let ghost start = *grid;
    let mut i: usize = 0;
    while i < moves.len()
        invariant
            grid.wf(),
            start.wf(),
            grid.width == start.width,
            grid.height == start.height,
            i <= moves@.len(),
            grid.revision <= start.revision + i,
            grid.blocker_revision <= start.blocker_revision + i,
            start.revision + moves@.len() < u64::MAX,
            start.blocker_revision + moves@.len() < u64::MAX,
            forall|p: IVec2| #[trigger] grid.spec_cell(p)
                == if vacated(&start, moves@.take(i as int), p) { None } else { start.spec_cell(p) },
            (forall|p: IVec2| vacated(&start, moves@, p) ==> !start.spec_blocks_vision(p))
                ==> grid.blocker_revision == start.blocker_revision,
            grid.revision == start.revision + vacate_count(&start, moves@, i as int),
            grid.blocker_revision == start.blocker_revision + blocking_vacate_count(&start, moves@, i as int),
        decreases moves@.len() - i,
    {
        let m = moves[i];
        let ghost before = *grid;
        proof {
            assert(moves@[i as int] == m);
            match m.from {
                Some(p) => {
                    assert(before.spec_cell(p) == if vacated(&start, moves@.take(i as int), p) { None } else { start.spec_cell(p) });
                    assert(first_vacates(&start, moves@, i as int) == (before.spec_get(p) == Some(m.entity)));
                },
                None => {},
            }
        }
        if let Some(p) = m.from {
            let holder = grid.get(p);
            if holder == Some(m.entity) {
                proof {
                    assert(before.spec_cell(p) == start.spec_cell(p));
                    assert(moves@[i as int] == m);
                    assert(vacated(&start, moves@, p));
                    if forall|q: IVec2| vacated(&start, moves@, q) ==> !start.spec_blocks_vision(q) {
                        assert(!start.spec_blocks_vision(p));
                        assert(!before.spec_blocks_vision(p));
                    }
                }
                grid.clear(p);
                proof { lemma_cells_after_clear(before, *grid, p); }
            }
        }
        proof {
            let t = moves@.take(i as int + 1);
            assert forall|p: IVec2| #[trigger] grid.spec_cell(p)
                == if vacated(&start, t, p) { None } else { start.spec_cell(p) } by {
                assert(before.spec_cell(p) == if vacated(&start, moves@.take(i as int), p) { None } else { start.spec_cell(p) });
                if vacated(&start, t, p) {
                    let j = choose|j: int| 0 <= j < t.len() && t[j].from == Some(p)
                        && start.spec_get(p) == Some(t[j].entity);
                    if j < i {
                        assert(moves@.take(i as int)[j] == t[j]);
                    }
                } else {
                    assert forall|j: int| 0 <= j < i implies !(moves@.take(i as int)[j].from == Some(p)
                        && start.spec_get(p) == Some(moves@.take(i as int)[j].entity)) by {
                        assert(moves@.take(i as int)[j] == t[j]);
                    }
                    assert(t[i as int] == m);
                }
            }
        }
        i += 1;
    }
    proof {
        assert(moves@.take(moves@.len() as int) == moves@);
    }
}

/// What stands on `d` when move `i` enters it: the last earlier move
/// entering `d`, else what stood there in `before`.
pub open spec fn occupant_before_entry(before: &MapGrid, moves: Seq<MapMove>, i: int, d: IVec2) -> Option<Occupant> {
    match last_entering(moves, d, i) {
        Some(j) => Some(Occupant { entity: moves[j].entity, blocks_vision: moves[j].blocks_vision }),
        None => before.spec_cell(d),
    }
}

/// Move `i` changes its destination cell.
pub open spec fn entry_changes(before: &MapGrid, moves: Seq<MapMove>, i: int) -> bool {
    match moves[i].to {
        Some(d) => before.spec_is_valid(d) && occupant_before_entry(before, moves, i, d)
            != Some(Occupant { entity: moves[i].entity, blocks_vision: moves[i].blocks_vision }),
        None => false,
    }
}

/// Move `i` changes whether its destination cell blocks sight.
pub open spec fn entry_flips(before: &MapGrid, moves: Seq<MapMove>, i: int) -> bool {
    entry_changes(before, moves, i) && match occupant_before_entry(before, moves, i, moves[i].to->0) {
        Some(o) => o.blocks_vision,
        None => false,
    } != moves[i].blocks_vision
}

/// How many of the first `n` moves change their destination cell.
pub open spec fn enter_count(before: &MapGrid, moves: Seq<MapMove>, n: int) -> nat
    decreases n,
{
    if n <= 0 {
        0
    } else {
        enter_count(before, moves, n - 1) + if entry_changes(before, moves, n - 1) { 1nat } else { 0nat }
    }
}

/// How many of the first `n` moves change whether a cell blocks sight.
pub open spec fn flip_count(before: &MapGrid, moves: Seq<MapMove>, n: int) -> nat
    decreases n,
{
    if n <= 0 {
        0
    } else {
        flip_count(before, moves, n - 1) + if entry_flips(before, moves, n - 1) { 1nat } else { 0nat }
    }
}

/// Resolve phase C: every move enters its destination, the later of two
/// moves into one cell prevailing.
pub fn resolve_commit(grid: &mut MapGrid, moves: &Vec<MapMove>)
    requires
        old(grid).wf(),
        old(grid).revision + moves@.len() < u64::MAX,
        old(grid).blocker_revision + moves@.len() < u64::MAX,
    ensures
        committed_by(&*old(grid), moves@, &*final(grid)),
        final(grid).revision == old(grid).revision + enter_count(&*old(grid), moves@, moves@.len() as int),
        final(grid).blocker_revision == old(grid).blocker_revision + flip_count(&*old(grid), moves@, moves@.len() as int),
        final(grid).revision <= old(grid).revision + moves@.len(),
        final(grid).blocker_revision <= old(grid).blocker_revision + moves@.len(),
{
    let ghost start = *grid;
    let mut i: usize = 0;
    while i < moves.len()
        invariant
            grid.wf(),
            start.wf(),
            grid.width == start.width,
            grid.height == start.height,
            i <= moves@.len(),
            grid.revision <= start.revision + i,
            grid.blocker_revision <= start.blocker_revision + i,
            start.revision + moves@.len() < u64::MAX,
            start.blocker_revision + moves@.len() < u64::MAX,
            forall|p: IVec2| start.spec_is_valid(p) ==> #[trigger] grid.spec_cell(p)
                == match last_entering(moves@, p, i as int) {
                    Some(j) => Some(Occupant { entity: moves@[j].entity, blocks_vision: moves@[j].blocks_vision }),
                    None => start.spec_cell(p),
                },
            non_blocking_entries(&start, moves@) ==> grid.blocker_revision == start.blocker_revision,
            grid.revision == start.revision + enter_count(&start, moves@, i as int),
            grid.blocker_revision == start.blocker_revision + flip_count(&start, moves@, i as int),
        decreases moves@.len() - i,
    {
        let m = moves[i];
        let ghost before = *grid;
        proof {
            assert(moves@[i as int] == m);
            match m.to {
                Some(d) => {
                    if start.spec_is_valid(d) {
                        assert(before.spec_cell(d) == occupant_before_entry(&start, moves@, i as int, d));
                    }
                },
                None => {},
            }
        }
        if let Some(d) = m.to {
            proof {
                if non_blocking_entries(&start, moves@) && start.spec_is_valid(d) {
                    assert(moves@[i as int] == m);
                    lemma_last_entering(moves@, d, i as int);
                    assert(!before.spec_blocks_vision(d));
                }
            }
            grid.set_with_blocking(d, m.entity, m.blocks_vision);
            proof {
                if before.spec_is_valid(d) {
                    lemma_cells_after_set(before, *grid, d, m.entity, m.blocks_vision);
                } else {
                    assert forall|q: IVec2| start.spec_is_valid(q) implies #[trigger] grid.spec_cell(q) == before.spec_cell(q) by {}
                }
            }
        }
        i += 1;
    }
}

/// Where a collider standing on `p` stands after a pass: the destination a
/// claim of it won, else `p`.
pub open spec fn position_after(claims: Seq<MoveClaim>, granted: Seq<Option<IVec2>>, e: EntityId, p: IVec2) -> IVec2 {
    if exists|c: int| 0 <= c < claims.len() && claims[c].entity == e && granted[c] is Some {
        granted[choose|c: int| 0 <= c < claims.len() && claims[c].entity == e && granted[c] is Some]->0
    } else {
        p
    }
}

/// A pass keeps the map consistent: a collider that held its cell before
/// collecting, unmapping and committing holds the cell it stands on after.
pub proof fn law_pass_keeps_colliders_on_their_cells(
    snapshot: MapGrid,
    claims: Seq<MoveClaim>,
    order: Seq<usize>,
    granted: Seq<Option<IVec2>>,
    unmapped: MapGrid,
    committed: MapGrid,
    e: EntityId,
    p: IVec2,
)
    requires
        snapshot.wf(),
        collected(&snapshot, claims, order, granted),
        unmapped_by(&snapshot, spec_pass_moves(claims, granted), &unmapped),
        committed_by(&unmapped, spec_pass_moves(claims, granted), &committed),
        snapshot.spec_get(p) == Some(e),
    ensures
        committed.spec_get(position_after(claims, granted, e, p)) == Some(e),
{
    let moves = spec_pass_moves(claims, granted);
    let s = ordered(claims, order);
    let n = claims.len() as int;
    if exists|c: int| 0 <= c < claims.len() && claims[c].entity == e && granted[c] is Some {
        let c = choose|c: int| 0 <= c < claims.len() && claims[c].entity == e && granted[c] is Some;
        let d = granted[c]->0;
        assert(lists_index(order, c));
        let k = choose|k: int| 0 <= k < order.len() && order[k] == c;
        assert(granted[order[k] as int] == granted[c]);
        assert(wins(&snapshot, s, k));
        assert(d == dest_of(&snapshot, s[k]));
        assert(moves[c].to == Some(d));
        lemma_last_entering(moves, d, n);
        match last_entering(moves, d, n) {
            Some(i) => {
                if i != c {
                    // A second winner on `d` contradicts a single winner per cell.
                    assert(lists_index(order, i));
                    let k2 = choose|k2: int| 0 <= k2 < order.len() && order[k2] == i;
                    assert(granted[order[k2] as int] == granted[i]);
                    assert(wins(&snapshot, s, k2));
                    if k < k2 {
                        law_one_winner_per_cell(&snapshot, s, k, k2);
                    } else if k2 < k {
                        law_one_winner_per_cell(&snapshot, s, k2, k);
                    }
                    assert(false);
                }
            },
            None => {},
        }
        assert(unmapped.spec_is_valid(d));
    } else {
        // Nothing of `e` moved, so nothing left `p` and nothing entered it.
        assert(!vacated(&snapshot, moves, p)) by {
            if vacated(&snapshot, moves, p) {
                let i = choose|i: int| 0 <= i < moves.len() && moves[i].from == Some(p)
                    && snapshot.spec_get(p) == Some(moves[i].entity);
                assert(granted[i] is Some);
            }
        }
        lemma_last_entering(moves, p, n);
        match last_entering(moves, p, n) {
            Some(i) => {
                assert(granted[i] is Some);
                assert(lists_index(order, i));
                let k = choose|k: int| 0 <= k < order.len() && order[k] == i;
                assert(granted[order[k] as int] == granted[i]);
                assert(wins(&snapshot, s, k));
                assert(passes(&snapshot, s[k]));
                assert(claims[i].entity == e);
                assert(false);
            },
            None => {},
        }
    }
}

/// Moving actors do not disturb the vision-blocking layout: a pass whose
/// claimants neither block sight nor hold a cell that blocks it leaves the
/// blocker revision, and with it every cached field of view, as it was.
pub proof fn law_moving_actors_keep_blocker_revision(
    snapshot: MapGrid,
    claims: Seq<MoveClaim>,
    order: Seq<usize>,
    granted: Seq<Option<IVec2>>,
    unmapped: MapGrid,
    committed: MapGrid,
)
    requires
        snapshot.wf(),
        collected(&snapshot, claims, order, granted),
        unmapped_by(&snapshot, spec_pass_moves(claims, granted), &unmapped),
        committed_by(&unmapped, spec_pass_moves(claims, granted), &committed),
        forall|c: int| 0 <= c < claims.len() ==> !(#[trigger] claims[c]).blocks_vision,
        forall|c: int, p: IVec2| 0 <= c < claims.len() && snapshot.spec_get(p) == Some((#[trigger] claims[c]).entity)
            ==> !#[trigger] snapshot.spec_blocks_vision(p),
    ensures
        committed.blocker_revision == snapshot.blocker_revision,
{
    let moves = spec_pass_moves(claims, granted);
    let s = ordered(claims, order);
    assert forall|p: IVec2| vacated(&snapshot, moves, p) implies !snapshot.spec_blocks_vision(p) by {
        let i = choose|i: int| 0 <= i < moves.len() && moves[i].from == Some(p)
            && snapshot.spec_get(p) == Some(moves[i].entity);
        assert(granted[i] is Some);
        assert(moves[i].entity == claims[i].entity);
    }
    assert(unmapped.blocker_revision == snapshot.blocker_revision);
    assert forall|i: int| 0 <= i < moves.len() && #[trigger] moves[i].to is Some
        implies !moves[i].blocks_vision && !unmapped.spec_blocks_vision(moves[i].to->0) by {
        let d = moves[i].to->0;
        assert(granted[i] == Some(d));
        assert(lists_index(order, i));
        let k = choose|k: int| 0 <= k < order.len() && order[k] == i;
        assert(s[k] == claims[i]);
        assert(wins(&snapshot, s, k));
        assert(d == dest_of(&snapshot, claims[i]));
        assert(passes(&snapshot, claims[i]));
        if vacated(&snapshot, moves, d) {
            assert(unmapped.spec_cell(d) is None);
        } else {
            assert(unmapped.spec_cell(d) == snapshot.spec_cell(d));
            match snapshot.spec_get(d) {
                None => {},
                Some(e) => {
                    assert(e == claims[i].entity);
                    assert(!snapshot.spec_blocks_vision(d));
                },
            }
        }
    }
    assert(non_blocking_entries(&unmapped, moves));
}

/// Whether every collider holds the cell it stands on.
pub fn colliders_own_their_cells(grid: &MapGrid, bodies: &Vec<(EntityId, IVec2)>) -> (r: bool)
    requires
        grid.wf(),
    ensures
        r == forall|i: int| 0 <= i < bodies@.len() ==> grid.spec_get((#[trigger] bodies@[i]).1) == Some(bodies@[i].0),
{
    let mut i: usize = 0;
    while i < bodies.len()
        invariant
            grid.wf(),
            i <= bodies@.len(),
            forall|j: int| 0 <= j < i ==> grid.spec_get((#[trigger] bodies@[j]).1) == Some(bodies@[j].0),
        decreases bodies@.len() - i,
    {
        let (e, p) = bodies[i];
        match grid.get(p) {
            Some(o) => {
                if o != e {
                    return false;
                }
            },
            None => {
                return false;
            },
        }
        i += 1;
    }
    true
}

} // verus!
