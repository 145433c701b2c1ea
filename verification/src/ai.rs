//! Enemy decisions. Each turn an enemy with a token perceives the world into
//! its `EnemyMind`: where it is, whether the player is in sight, where the
//! player was last seen, which neighbouring cells are open and a random
//! walk step. Its decision hunts the player in sight, else searches where it
//! was last seen, else wanders; the decision becomes an ordinary command.
use vstd::prelude::*;
use rand::RngExt;
use rand::rngs::StdRng;
use crate::geometry::{EntityId, IVec2, abs};
use crate::grid::MapGrid;
use crate::line::{line_cells, line_clear, line_fits, trace};
use crate::simulation::{MoveCommand, Tokens};

verus! {

#[verifier::external_type_specification]
#[verifier::external_body]
pub struct ExStdRng(StdRng);

/// `rand::RngExt::random_range` on `0..n`: a number below `n` drawn from
/// the generator (which advances; the value depends on its state).
#[verifier::external_body]
fn random_below(rng: &mut StdRng, n: usize) -> (r: usize)
    requires
        n > 0,
    ensures
        r < n,
{
    rng.random_range(0..n)
}

/// Cells an enemy can see the player across, given a clear line.
pub const ENEMY_SIGHT_RADIUS: i32 = 8;

/// The four steps an enemy can take, in the order of `EnemyMind::open`:
/// `+X`, `-X`, `+Y`, `-Y`.
pub open spec fn spec_steps() -> Seq<IVec2> {
    seq![IVec2 { x: 1, y: 0 }, IVec2 { x: -1i32, y: 0 }, IVec2 { x: 0, y: 1 }, IVec2 { x: 0, y: -1i32 }]
}

pub fn step_at(i: usize) -> (r: IVec2)
    requires
        i < 4,
    ensures
        r == spec_steps()[i as int],
{
    if i == 0 {
        IVec2 { x: 1, y: 0 }
    } else if i == 1 {
        IVec2 { x: -1, y: 0 }
    } else if i == 2 {
        IVec2 { x: 0, y: 1 }
    } else {
        IVec2 { x: 0, y: -1 }
    }
}

/// The random-walk choices: wait, `+X`, `-X`, `+Y`, `-Y`.
pub open spec fn spec_wander() -> Seq<IVec2> {
    seq![IVec2 { x: 0, y: 0 }, IVec2 { x: 1, y: 0 }, IVec2 { x: -1i32, y: 0 }, IVec2 { x: 0, y: 1 }, IVec2 { x: 0, y: -1i32 }]
}

pub fn wander_at(i: usize) -> (r: IVec2)
    requires
        i < 5,
    ensures
        r == spec_wander()[i as int],
{
    if i == 0 { IVec2 { x: 0, y: 0 } } else { step_at(i - 1) }
}

/// What an enemy's decision reads: its view of the world this turn.
#[derive(Clone, Copy, Debug, PartialEq, Eq)]
pub struct EnemyMind {
    pub pos: IVec2,
    /// A token is available and the turn accepts commands.
    pub has_turn: bool,
    /// The player's cell, while in sight.
    pub player: Option<IVec2>,
    /// Where the player was last seen; cleared on arrival.
    pub last_seen: Option<IVec2>,
    /// Neighbours free to step into (empty or the player), indexed like the steps.
    pub open: [bool; 4],
    /// A random-walk step rolled for this turn, zero to wait.
    pub roll: IVec2,
}

pub open spec fn signum(v: int) -> int {
    crate::line::sign(v)
}

impl EnemyMind {
    pub fn new() -> (r: EnemyMind)
        ensures
            r.pos == (IVec2 { x: 0, y: 0 }),
            !r.has_turn,
            r.player is None,
            r.last_seen is None,
            forall|i: int| 0 <= i < 4 ==> !r.open@[i],
            r.roll == (IVec2 { x: 0, y: 0 }),
    {
        EnemyMind {
            pos: IVec2 { x: 0, y: 0 },
            has_turn: false,
            player: None,
            last_seen: None,
            open: [false; 4],
            roll: IVec2 { x: 0, y: 0 },
        }
    }

    /// The step is one of the four steps and its neighbour is open.
    pub open spec fn spec_is_open(&self, step: IVec2) -> bool {
        exists|i: int| 0 <= i < 4 && spec_steps()[i] == step && self.open@[i]
    }

    pub fn is_open(&self, step: IVec2) -> (r: bool)
        ensures
            r == self.spec_is_open(step),
    {
        let mut i: usize = 0;
        while i < 4
            invariant
                i <= 4,
                forall|j: int| 0 <= j < i ==> !(spec_steps()[j] == step && self.open@[j]),
            decreases 4 - i,
        {
            let s = step_at(i);
            if s == step {
                // The steps are distinct, so this is the only match.
                proof {
                    assert forall|j: int| 0 <= j < 4 && spec_steps()[j] == step implies j == i by {}
                }
                return self.open[i];
            }
            i += 1;
        }
        false
    }

    /// The open step that closes on `target`, trying the longer axis first.
    pub open spec fn spec_step_toward(&self, target: IVec2) -> Option<IVec2> {
        let dx = target.x - self.pos.x;
        let dy = target.y - self.pos.y;
        let along_x = IVec2 { x: signum(dx) as i32, y: 0 };
        let along_y = IVec2 { x: 0, y: signum(dy) as i32 };
        let first = if abs(dx) >= abs(dy) { along_x } else { along_y };
        let second = if abs(dx) >= abs(dy) { along_y } else { along_x };
        if !first.is_zero() && self.spec_is_open(first) {
            Some(first)
        } else if !second.is_zero() && self.spec_is_open(second) {
            Some(second)
        } else {
            None
        }
    }

    /// One open step that closes the distance to `target`, preferring the
    /// longer axis, or nothing when neither closing step is open.
    pub fn step_toward(&self, target: IVec2) -> (r: Option<IVec2>)
        ensures
            r == self.spec_step_toward(target),
    {
        let dx: i64 = target.x as i64 - self.pos.x as i64;
        let dy: i64 = target.y as i64 - self.pos.y as i64;
        let sx: i32 = if dx > 0 { 1 } else if dx < 0 { -1 } else { 0 };
        let sy: i32 = if dy > 0 { 1 } else if dy < 0 { -1 } else { 0 };
        let along_x = IVec2 { x: sx, y: 0 };
        let along_y = IVec2 { x: 0, y: sy };
        let ax: i64 = if dx < 0 { -dx } else { dx };
        let ay: i64 = if dy < 0 { -dy } else { dy };
        let (first, second) = if ax >= ay { (along_x, along_y) } else { (along_y, along_x) };
        if (first.x != 0 || first.y != 0) && self.is_open(first) {
            Some(first)
        } else if (second.x != 0 || second.y != 0) && self.is_open(second) {
            Some(second)
        } else {
            None
        }
    }
}

/// What an enemy is doing: one step per turn, tagged with why.
#[derive(Clone, Copy, Debug, PartialEq, Eq, Structural)]
pub enum EnemyAct {
    /// Closing on the visible player.
    Hunt(IVec2),
    /// Heading to where the player was last seen.
    Search(IVec2),
    /// Random walk; zero waits.
    Wander(IVec2),
}

impl EnemyAct {
    pub open spec fn spec_step(self) -> IVec2 {
        match self {
            EnemyAct::Hunt(s) => s,
            EnemyAct::Search(s) => s,
            EnemyAct::Wander(s) => s,
        }
    }

    pub fn step(self) -> (r: IVec2)
        ensures
            r == self.spec_step(),
    {
        match self {
            EnemyAct::Hunt(s) => s,
            EnemyAct::Search(s) => s,
            EnemyAct::Wander(s) => s,
        }
    }
}

/// The decision: hunt the player in sight when a step closes on it, else
/// search where it was last seen when a step closes on that, else wander.
pub open spec fn spec_decide(mind: EnemyMind) -> EnemyAct {
    if mind.player is Some && mind.spec_step_toward(mind.player->0) is Some {
        EnemyAct::Hunt(mind.spec_step_toward(mind.player->0)->0)
    } else if mind.last_seen is Some && mind.spec_step_toward(mind.last_seen->0) is Some {
        EnemyAct::Search(mind.spec_step_toward(mind.last_seen->0)->0)
    } else {
        EnemyAct::Wander(mind.roll)
    }
}

pub fn decide(mind: &EnemyMind) -> (r: EnemyAct)
    ensures
        r == spec_decide(*mind),
{
    if let Some(target) = mind.player {
        if let Some(step) = mind.step_toward(target) {
            return EnemyAct::Hunt(step);
        }
    }
    if let Some(target) = mind.last_seen {
        if let Some(step) = mind.step_toward(target) {
            return EnemyAct::Search(step);
        }
    }
    EnemyAct::Wander(mind.roll)
}

/// The act after a tick: decided afresh on a turn the enemy can act in,
/// otherwise the standing act is kept.
pub fn enemy_tick(mind: &EnemyMind, current: Option<EnemyAct>) -> (r: Option<EnemyAct>)
    ensures
        r == if mind.has_turn { Some(spec_decide(*mind)) } else { current },
{
    if mind.has_turn { Some(decide(mind)) } else { current }
}

/// Turn an act into a move command on a turn the enemy can act in.
pub fn carry_out(act: EnemyAct, mind: &EnemyMind, command: MoveCommand) -> (r: MoveCommand)
    ensures
        r == if mind.has_turn { MoveCommand { target: act.spec_step(), relative: true, active: true } } else { command },
{
    if !mind.has_turn {
        return command;
    }
    MoveCommand { target: act.step(), relative: true, active: true }
}

/// The player is within sight radius of `from`.
pub open spec fn within_sight(from: IVec2, target: IVec2) -> bool {
    (target.x - from.x) * (target.x - from.x) + (target.y - from.y) * (target.y - from.y)
        <= ENEMY_SIGHT_RADIUS * ENEMY_SIGHT_RADIUS
}

/// The player in view of an enemy at `pos`: within sight radius and with no
/// vision-blocking cell strictly between them.
pub open spec fn spec_sees(grid: &MapGrid, pos: IVec2, target: IVec2) -> bool {
    within_sight(pos, target) && forall|k: int| 0 <= k < line_cells(pos, target).len() - 1
        ==> !grid.spec_blocks_vision(#[trigger] line_cells(pos, target)[k])
}

/// Whether an enemy at `pos` sees `target`.
pub fn sees(grid: &MapGrid, pos: IVec2, target: IVec2) -> (r: bool)
    requires
        grid.wf(),
        line_fits(pos, target),
    ensures
        r == spec_sees(grid, pos, target),
{
    let dx: i64 = target.x as i64 - pos.x as i64;
    let dy: i64 = target.y as i64 - pos.y as i64;
    assert(dx * dx >= 0 && dy * dy >= 0) by (nonlinear_arith);
    assert(dx * dx < 0x4000_0000_0000_0000 && dy * dy < 0x4000_0000_0000_0000) by (nonlinear_arith)
        requires -0x8000_0000 < dx < 0x8000_0000, -0x8000_0000 < dy < 0x8000_0000;
    if dx * dx + dy * dy > (ENEMY_SIGHT_RADIUS * ENEMY_SIGHT_RADIUS) as i64 {
        return false;
    }
    let clear = line_clear(pos, target, |p: IVec2| -> (b: bool)
        ensures b == grid.spec_blocks_vision(p)
        { grid.blocks_vision(p) });
    clear
}

/// The state of an enemy's world that perception reads.
#[derive(Clone, Copy, Debug, PartialEq, Eq, Structural)]
pub struct EnemyView {
    pub pos: IVec2,
    pub tokens: Tokens,
    pub doomed: bool,
}

/// Cells up to one step from `pos` stay within `i32`, and lines to the
/// player can be traced.
pub open spec fn perceivable(pos: IVec2, player: Option<(EntityId, IVec2)>) -> bool {
    &&& i32::MIN < pos.x < i32::MAX
    &&& i32::MIN < pos.y < i32::MAX
    &&& player matches Some(pl) ==> line_fits(pos, pl.1)
}

/// The open flags for the four steps from `pos`: on the grid and empty or
/// held by the player.
pub open spec fn spec_open_at(grid: &MapGrid, pos: IVec2, player_entity: Option<EntityId>, i: int) -> bool {
    let at = pos.spec_add(spec_steps()[i]);
    grid.spec_is_valid(at) && match grid.spec_get(at) {
        None => true,
        Some(e) => Some(e) == player_entity,
    }
}

/// The mind after perception, for a given roll index into the wander steps.
pub open spec fn spec_perceived(grid: &MapGrid, simulation: bool, player: Option<(EntityId, IVec2)>, view: EnemyView, mind: EnemyMind, r: EnemyMind) -> bool {
    let has_turn = !simulation && !view.doomed && view.tokens.count > 0;
    &&& r.pos == view.pos
    &&& r.has_turn == has_turn
    &&& if !has_turn {
        r.player == mind.player && r.last_seen == mind.last_seen && r.open == mind.open && r.roll == mind.roll
    } else {
        let seen = match player {
            Some(pl) => if spec_sees(grid, view.pos, pl.1) { Some(pl.1) } else { None },
            None => None,
        };
        &&& r.player == seen
        &&& r.last_seen == if seen is Some { seen } else if mind.last_seen == Some(view.pos) { None } else { mind.last_seen }
        &&& forall|i: int| 0 <= i < 4 ==> #[trigger] r.open@[i] == spec_open_at(grid, view.pos,
            match player { Some(pl) => Some(pl.0), None => None }, i)
        &&& exists|k: int| 0 <= k < 5 && r.roll == spec_wander()[k]
    }
}

/// Fill an enemy's mind for this frame. On a turn it can act in, it looks
/// for the player, remembers where it was seen (forgetting on arrival),
/// marks the open steps and rolls a random-walk step from `rng`.
pub fn perceive(grid: &MapGrid, simulation: bool, player: Option<(EntityId, IVec2)>, view: EnemyView, mind: &mut EnemyMind, rng: &mut StdRng)
    requires
        grid.wf(),
        perceivable(view.pos, player),
    ensures
        spec_perceived(grid, simulation, player, view, *old(mind), *final(mind)),
{
    mind.pos = view.pos;
    mind.has_turn = !simulation && !view.doomed && view.tokens.count > 0;
    if !mind.has_turn {
        return;
    }
    mind.player = match player {
        Some(pl) => if sees(grid, view.pos, pl.1) { Some(pl.1) } else { None },
        None => None,
    };
    if mind.player.is_some() {
        mind.last_seen = mind.player;
    } else if mind.last_seen == Some(view.pos) {
        mind.last_seen = None;
    }
    let player_entity = match player { Some(pl) => Some(pl.0), None => None };
    let mut open_steps: [bool; 4] = [false; 4];
    let mut i: usize = 0;
    while i < 4
        invariant
            i <= 4,
            grid.wf(),
            perceivable(view.pos, player),
            player_entity == match player { Some(pl) => Some(pl.0), None => None::<EntityId> },
            forall|j: int| 0 <= j < i ==> #[trigger] open_steps@[j] == spec_open_at(grid, view.pos, player_entity, j),
        decreases 4 - i,
    {
        let at = view.pos.add(step_at(i));
        let open = grid.is_valid(at) && match grid.get(at) {
            None => true,
            Some(e) => Some(e) == player_entity,
        };
        open_steps[i] = open;
        i += 1;
    }
    mind.open = open_steps;
    let k = random_below(rng, 5);
    mind.roll = wander_at(k);
    proof {
        assert(mind.roll == spec_wander()[k as int]);
    }
}

/// After perception on a turn the enemy can act in, a neighbouring step is
/// open exactly when its cell is on the grid and is empty or held by the
/// player; in particular stepping onto the player (the attack bump) is
/// always open, and a cell held by anything else is closed.
pub proof fn law_steps_onto_the_player_are_open(
    grid: &MapGrid,
    simulation: bool,
    player: Option<(EntityId, IVec2)>,
    view: EnemyView,
    mind: EnemyMind,
    r: EnemyMind,
    i: int,
)
    requires
        spec_perceived(grid, simulation, player, view, mind, r),
        !simulation && !view.doomed && view.tokens.count > 0,
        0 <= i < 4,
    ensures
        ({
            let at = IVec2 { x: (view.pos.x + spec_steps()[i].x) as i32, y: (view.pos.y + spec_steps()[i].y) as i32 };
            &&& r.open@[i] <==> grid.spec_is_valid(at) && (grid.spec_get(at) is None
                || (player matches Some(pl) && grid.spec_get(at) == Some(pl.0)))
            &&& (player matches Some(pl) && grid.spec_is_valid(at) && grid.spec_get(at) == Some(pl.0)) ==> r.open@[i]
            &&& (grid.spec_get(at) matches Some(e) && !(player matches Some(pl) && pl.0 == e)) ==> !r.open@[i]
        }),
{
    assert(r.open@[i] == spec_open_at(grid, view.pos, match player { Some(pl) => Some(pl.0), None => None }, i));
}

/// An enemy next to the player, on a turn it can act in, bumps it: when the
/// player stands on (and holds) a neighbouring cell, perception sees it and
/// the decision is to hunt with the step onto the player.
pub proof fn law_a_neighbouring_player_is_bumped(
    grid: &MapGrid,
    player: (EntityId, IVec2),
    view: EnemyView,
    mind: EnemyMind,
    r: EnemyMind,
    i: int,
)
    requires
        grid.wf(),
        spec_perceived(grid, false, Some(player), view, mind, r),
        !view.doomed && view.tokens.count > 0,
        0 <= i < 4,
        player.1 == (IVec2 { x: (view.pos.x + spec_steps()[i].x) as i32, y: (view.pos.y + spec_steps()[i].y) as i32 }),
        view.pos.x + spec_steps()[i].x == player.1.x,
        view.pos.y + spec_steps()[i].y == player.1.y,
        grid.spec_is_valid(player.1),
        grid.spec_get(player.1) == Some(player.0),
    ensures
        r.player == Some(player.1),
        spec_decide(r) == EnemyAct::Hunt(spec_steps()[i]),
{
    let pos = view.pos;
    let to = player.1;
    reveal_with_fuel(trace, 2);
    assert(line_cells(pos, to).len() == 1);
    let dx = to.x - pos.x;
    let dy = to.y - pos.y;
    assert(-1 <= dx <= 1 && -1 <= dy <= 1);
    assert(dx * dx + dy * dy <= 64) by (nonlinear_arith)
        requires -1 <= dx <= 1, -1 <= dy <= 1;
    assert(within_sight(pos, to));
    assert(spec_sees(grid, pos, to));
    law_steps_onto_the_player_are_open(grid, false, Some(player), view, mind, r, i);
    assert(r.open@[i]);
    assert(r.spec_is_open(spec_steps()[i]));
}

/// A hunting or searching enemy only ever steps into an open neighbour.
pub proof fn law_pursuit_steps_are_open(mind: EnemyMind)
    ensures
        match spec_decide(mind) {
            EnemyAct::Hunt(s) => mind.spec_is_open(s),
            EnemyAct::Search(s) => mind.spec_is_open(s),
            EnemyAct::Wander(s) => s == mind.roll,
        },
{
}

/// A pursuit step closes the distance to its target by one cell.
pub proof fn law_pursuit_closes_in(mind: EnemyMind, target: IVec2)
    requires
        mind.spec_step_toward(target) is Some,
    ensures
        ({
            let s = mind.spec_step_toward(target)->0;
            abs(target.x - (mind.pos.x + s.x)) + abs(target.y - (mind.pos.y + s.y))
                == abs(target.x - mind.pos.x) + abs(target.y - mind.pos.y) - 1
        }),
{
}

/// A visible player preempts everything else: whenever a step closes on
/// the player in sight, the enemy hunts.
pub proof fn law_visible_player_is_hunted(mind: EnemyMind)
    requires
        mind.player is Some,
        mind.spec_step_toward(mind.player->0) is Some,
    ensures
        spec_decide(mind) == EnemyAct::Hunt(mind.spec_step_toward(mind.player->0)->0),
{
}

} // verus!
