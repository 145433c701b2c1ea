//! Per-pass simulation rules: commands spend tokens and set speed, speed
//! becomes a move intent, friction decays speed, bound decorations follow
//! their parent, tokens recharge by assignment, and the turn stays in its
//! simulation phase while work remains.
use vstd::prelude::*;
use crate::geometry::{IVec2, spec_rotate, rotate, is_unit};
use crate::grid::MapGrid;

verus! {

/// Movement intent: none, move to a cell, or leave the map.
#[derive(Clone, Copy, Debug, PartialEq, Eq, Structural)]
pub enum PendingPos {
    Stay,
    MoveTo(IVec2),
    RemoveFromMap,
}

/// Action budget: `count` is assigned from `recharge`, never added to.
#[derive(Clone, Copy, Debug, PartialEq, Eq, Structural)]
pub struct Tokens {
    pub count: i32,
    pub recharge: i32,
}

impl Tokens {
    pub fn new(recharge: i32) -> (r: Tokens)
        ensures
            r.count == 0,
            r.recharge == recharge,
    {
        Tokens { count: 0, recharge }
    }
}

/// A queued step from input or a decision.
#[derive(Clone, Copy, Debug, PartialEq, Eq, Structural)]
pub struct MoveCommand {
    pub target: IVec2,
    pub relative: bool,
    pub active: bool,
}

impl MoveCommand {
    pub fn idle() -> (r: MoveCommand)
        ensures
            r.target == (IVec2 { x: 0, y: 0 }),
            !r.relative,
            !r.active,
    {
        MoveCommand { target: IVec2 { x: 0, y: 0 }, relative: false, active: false }
    }
}

/// The command, speed and tokens of one entity that takes commands.
#[derive(Clone, Copy, Debug, PartialEq, Eq, Structural)]
pub struct Mover {
    pub command: MoveCommand,
    pub speed: IVec2,
    pub tokens: Tokens,
}

/// A mover after its command is considered: an active command with a token
/// in hand spends the token, and a relative one sets the speed.
pub open spec fn commanded(m: Mover) -> Mover {
    if m.command.active && m.tokens.count > 0 {
        Mover {
            command: MoveCommand { active: false, ..m.command },
            speed: if m.command.relative { m.command.target } else { m.speed },
            tokens: Tokens { count: (m.tokens.count - 1) as i32, ..m.tokens },
        }
    } else {
        m
    }
}

/// Apply every mover's command. Returns whether any command was carried out.
pub fn move_commands(movers: &mut Vec<Mover>) -> (r: bool)
    ensures
        final(movers)@.len() == old(movers)@.len(),
        forall|i: int| 0 <= i < old(movers)@.len() ==> #[trigger] final(movers)@[i] == commanded(old(movers)@[i]),
        r == exists|i: int| 0 <= i < old(movers)@.len() && #[trigger] old(movers)@[i].command.active
            && old(movers)@[i].tokens.count > 0,
{
    let mut committed = false;
    let mut i: usize = 0;
    while i < movers.len()
        invariant
            i <= movers@.len(),
            movers@.len() == old(movers)@.len(),
            forall|j: int| 0 <= j < i ==> #[trigger] movers@[j] == commanded(old(movers)@[j]),
            forall|j: int| i <= j < movers@.len() ==> #[trigger] movers@[j] == old(movers)@[j],
            committed == exists|j: int| 0 <= j < i && #[trigger] old(movers)@[j].command.active
                && old(movers)@[j].tokens.count > 0,
        decreases movers@.len() - i,
    {
        let m = movers[i];
        if m.command.active && m.tokens.count > 0 {
            let speed = if m.command.relative { m.command.target } else { m.speed };
            movers.set(i, Mover {
                command: MoveCommand { target: m.command.target, relative: m.command.relative, active: false },
                speed,
                tokens: Tokens { count: m.tokens.count - 1, recharge: m.tokens.recharge },
            });
            committed = true;
        }
        i += 1;
    }
    committed
}

/// A command is carried out only with a token in hand, and spends exactly
/// one token; without one it stays queued.
pub proof fn law_commands_spend_one_token(m: Mover)
    ensures
        m.command.active && m.tokens.count > 0 ==> commanded(m).tokens.count == m.tokens.count - 1 && !commanded(m).command.active,
        !(m.command.active && m.tokens.count > 0) ==> commanded(m) == m,
        commanded(m).tokens.recharge == m.tokens.recharge,
{
}

/// The move intent from a speed: a moving entity without an intent heads
/// for its position plus speed, wrapped onto the grid.
pub open spec fn spec_movement(grid: &MapGrid, pos: IVec2, speed: IVec2, pending: PendingPos) -> PendingPos {
    if !speed.is_zero() && pending == PendingPos::Stay {
        PendingPos::MoveTo(grid.spec_safe_pos(pos.spec_add(speed)))
    } else {
        pending
    }
}

pub fn movement(grid: &MapGrid, pos: IVec2, speed: IVec2, pending: PendingPos) -> (r: PendingPos)
    requires
        grid.wf(),
        pos.can_add(speed),
    ensures
        r == spec_movement(grid, pos, speed, pending),
{
    if (speed.x != 0 || speed.y != 0) && pending == PendingPos::Stay {
        PendingPos::MoveTo(grid.safe_pos(pos.add(speed)))
    } else {
        pending
    }
}

pub open spec fn spec_decay_axis(v: int, friction: int) -> int {
    if crate::geometry::abs(v) > friction {
        if v > 0 { v - friction } else { v + friction }
    } else {
        0
    }
}

/// One axis of friction: move `value` toward zero by `friction`, stopping at
/// zero.
pub fn decay_axis(value: i32, friction: i32) -> (r: i32)
    requires
        value > i32::MIN,
        friction >= 0,
    ensures
        r == spec_decay_axis(value as int, friction as int),
{
    let a = if value < 0 { -value } else { value };
    if a > friction {
        if value > 0 { value - friction } else { value + friction }
    } else {
        0
    }
}

/// Friction decays a speed toward zero without reversing it.
pub proof fn law_friction_never_reverses(v: int, friction: int)
    requires
        friction >= 0,
    ensures
        crate::geometry::abs(spec_decay_axis(v, friction)) <= crate::geometry::abs(v),
        spec_decay_axis(v, friction) == 0 || crate::line::sign(spec_decay_axis(v, friction)) == crate::line::sign(v),
        friction > 0 && v != 0 ==> crate::geometry::abs(spec_decay_axis(v, friction)) < crate::geometry::abs(v),
{
}

/// Speed after one pass of friction (unchanged when still or frictionless).
pub open spec fn spec_friction(speed: IVec2, f: i32) -> IVec2 {
    if speed.is_zero() || f == 0 {
        speed
    } else {
        IVec2 {
            x: spec_decay_axis(speed.x as int, f as int) as i32,
            y: spec_decay_axis(speed.y as int, f as int) as i32,
        }
    }
}

pub fn friction(speed: IVec2, f: i32) -> (r: IVec2)
    requires
        speed.x > i32::MIN,
        speed.y > i32::MIN,
        f >= 0,
    ensures
        r == spec_friction(speed, f),
{
    if (speed.x == 0 && speed.y == 0) || f == 0 {
        return speed;
    }
    IVec2 { x: decay_axis(speed.x, f), y: decay_axis(speed.y, f) }
}

/// Facing follows a nonzero speed.
pub fn update_direction(speed: IVec2, facing: IVec2) -> (r: IVec2)
    ensures
        r == if speed.is_zero() { facing } else { speed },
{
    if speed.x != 0 || speed.y != 0 { speed } else { facing }
}

/// A decoration bound to a parent: an offset and a facing given in the
/// parent's frame.
#[derive(Clone, Copy, Debug, PartialEq, Eq, Structural)]
pub struct BoundTo {
    pub offset: IVec2,
    pub offset_dir: IVec2,
}

/// Position, previous position and facing of a bound decoration.
#[derive(Clone, Copy, Debug, PartialEq, Eq, Structural)]
pub struct BoundState {
    pub pos: IVec2,
    pub prev: IVec2,
    pub facing: IVec2,
}

pub open spec fn spec_relative_position(parent_pos: IVec2, parent_facing: IVec2, bound: BoundTo, state: BoundState) -> BoundState {
    let new_pos = parent_pos.spec_add(spec_rotate(bound.offset, parent_facing));
    BoundState {
        pos: new_pos,
        prev: if state.pos != new_pos { state.pos } else { state.prev },
        facing: spec_rotate(bound.offset_dir, parent_facing),
    }
}

/// Place a bound decoration at its parent's position plus its offset rotated
/// by the parent's facing; the previous position is kept when it moves.
pub fn relative_position(parent_pos: IVec2, parent_facing: IVec2, bound: BoundTo, state: BoundState) -> (r: BoundState)
    requires
        parent_facing.is_zero() || is_unit(parent_facing),
        bound.offset.x > i32::MIN,
        bound.offset.y > i32::MIN,
        bound.offset_dir.x > i32::MIN,
        bound.offset_dir.y > i32::MIN,
        parent_pos.can_add(spec_rotate(bound.offset, parent_facing)),
    ensures
        r == spec_relative_position(parent_pos, parent_facing, bound, state),
{
    let new_pos = parent_pos.add(rotate(bound.offset, parent_facing));
    let prev = if state.pos != new_pos { state.pos } else { state.prev };
    BoundState { pos: new_pos, prev, facing: rotate(bound.offset_dir, parent_facing) }
}

/// Whether tokens recharge this frame: once the minimum turn interval has
/// passed, when the recharge timer fires or nobody holds a token.
pub open spec fn spec_should_recharge(can_advance: bool, timer_finished: bool, tokens: Seq<Tokens>) -> bool {
    can_advance && (timer_finished || !(exists|i: int| 0 <= i < tokens.len() && #[trigger] tokens[i].count > 0))
}

pub fn any_tokens_left(tokens: &Vec<Tokens>) -> (r: bool)
    ensures
        r == exists|i: int| 0 <= i < tokens@.len() && #[trigger] tokens@[i].count > 0,
{
    let mut i: usize = 0;
    while i < tokens.len()
        invariant
            i <= tokens@.len(),
            forall|j: int| 0 <= j < i ==> #[trigger] tokens@[j].count <= 0,
        decreases tokens@.len() - i,
    {
        if tokens[i].count > 0 {
            return true;
        }
        i += 1;
    }
    false
}

/// Every holder's count set to its recharge value.
pub open spec fn recharged(tokens: Seq<Tokens>) -> Seq<Tokens> {
    Seq::new(tokens.len(), |i: int| Tokens { count: tokens[i].recharge, recharge: tokens[i].recharge })
}

/// Recharge the token holders when due: every holder's count is set to its
/// recharge value. Returns whether they were recharged.
pub fn recharge_tokens(tokens: &mut Vec<Tokens>, can_advance: bool, timer_finished: bool) -> (r: bool)
    ensures
        r == spec_should_recharge(can_advance, timer_finished, old(tokens)@),
        final(tokens)@ == if r { recharged(old(tokens)@) } else { old(tokens)@ },
{
    let any_left = any_tokens_left(tokens);
    if can_advance && (timer_finished || !any_left) {
        let mut i: usize = 0;
        while i < tokens.len()
            invariant
                i <= tokens@.len(),
                tokens@.len() == old(tokens)@.len(),
                forall|j: int| 0 <= j < i ==> #[trigger] tokens@[j] == recharged(old(tokens)@)[j],
                forall|j: int| i <= j < tokens@.len() ==> #[trigger] tokens@[j] == old(tokens)@[j],
            decreases tokens@.len() - i,
        {
            let t = tokens[i];
            tokens.set(i, Tokens { count: t.recharge, recharge: t.recharge });
            i += 1;
        }
        assert(tokens@ =~= recharged(old(tokens)@));
        true
    } else {
        false
    }
}

/// Recharging assigns: what a holder has left makes no difference to what
/// it holds afterwards.
pub proof fn law_recharge_assigns(a: Seq<Tokens>, b: Seq<Tokens>)
    requires
        a.len() == b.len(),
        forall|i: int| 0 <= i < a.len() ==> #[trigger] a[i].recharge == b[i].recharge,
    ensures
        recharged(a) == recharged(b),
{
    assert(recharged(a) =~= recharged(b));
}

/// What keeps a turn in its simulation phase, per entity.
#[derive(Clone, Copy, Debug, PartialEq, Eq, Structural)]
pub struct WorkItem {
    /// An active command on an entity with a token in hand.
    pub command_ready: bool,
    pub moving: bool,
    pub pending: bool,
    pub doomed: bool,
}

pub open spec fn has_work(w: WorkItem) -> bool {
    w.command_ready || w.moving || w.pending || w.doomed
}

impl WorkItem {
    /// An entity with a command: work while the command is active and a
    /// token is in hand (a tokenless command never holds the turn).
    pub fn for_command(command: MoveCommand, tokens: Tokens) -> (r: WorkItem)
        ensures
            r == (WorkItem { command_ready: command.active && tokens.count > 0, moving: false, pending: false, doomed: false }),
    {
        WorkItem { command_ready: command.active && tokens.count > 0, moving: false, pending: false, doomed: false }
    }

    /// An entity with a speed: work while it moves.
    pub fn for_speed(speed: IVec2) -> (r: WorkItem)
        ensures
            r == (WorkItem { command_ready: false, moving: !speed.is_zero(), pending: false, doomed: false }),
    {
        WorkItem { command_ready: false, moving: speed.x != 0 || speed.y != 0, pending: false, doomed: false }
    }

    /// An entity with a move intent: work while the intent is unresolved.
    pub fn for_pending(pending: PendingPos) -> (r: WorkItem)
        ensures
            r == (WorkItem { command_ready: false, moving: false, pending: pending != PendingPos::Stay, doomed: false }),
    {
        let open = match pending {
            PendingPos::Stay => false,
            _ => true,
        };
        WorkItem { command_ready: false, moving: false, pending: open, doomed: false }
    }

    /// An entity marked for destruction: work until it is gone.
    pub fn for_doomed() -> (r: WorkItem)
        ensures
            r == (WorkItem { command_ready: false, moving: false, pending: false, doomed: true }),
    {
        WorkItem { command_ready: false, moving: false, pending: false, doomed: true }
    }
}

/// A resolved intent carried out on an entity's position: it records where
/// it stood and moves to its destination (leaving the map keeps the
/// position); the intent is then spent.
pub open spec fn spec_commit_move(pos: IVec2, prev: IVec2, pending: PendingPos) -> (IVec2, IVec2, PendingPos) {
    match pending {
        PendingPos::Stay => (pos, prev, PendingPos::Stay),
        PendingPos::MoveTo(d) => (d, pos, PendingPos::Stay),
        PendingPos::RemoveFromMap => (pos, pos, PendingPos::Stay),
    }
}

pub fn commit_move(pos: IVec2, prev: IVec2, pending: PendingPos) -> (r: (IVec2, IVec2, PendingPos))
    ensures
        r == spec_commit_move(pos, prev, pending),
{
    match pending {
        PendingPos::Stay => (pos, prev, PendingPos::Stay),
        PendingPos::MoveTo(d) => (d, pos, PendingPos::Stay),
        PendingPos::RemoveFromMap => (pos, pos, PendingPos::Stay),
    }
}

/// Whether the turn stays in simulation: some entity still has work.
pub fn simulation_busy(work: &Vec<WorkItem>) -> (r: bool)
    ensures
        r == exists|i: int| 0 <= i < work@.len() && has_work(#[trigger] work@[i]),
{
    let mut i: usize = 0;
    while i < work.len()
        invariant
            i <= work@.len(),
            forall|j: int| 0 <= j < i ==> !has_work(#[trigger] work@[j]),
        decreases work@.len() - i,
    {
        let w = work[i];
        if w.command_ready || w.moving || w.pending || w.doomed {
            return true;
        }
        i += 1;
    }
    false
}

/// Turn counter and phase.
#[derive(Clone, Copy, Debug, PartialEq, Eq, Structural)]
pub struct TurnState {
    pub tick: u64,
    pub simulation: bool,
}

impl TurnState {
    pub fn new() -> (r: TurnState)
        ensures
            r.tick == 0,
            !r.simulation,
    {
        TurnState { tick: 0, simulation: false }
    }

    /// Name of the current phase.
    pub fn phase_name(&self) -> (r: &'static str)
        ensures
            r@ == if self.simulation { "Simulation"@ } else { "TickUpdate"@ },
    {
        if self.simulation { "Simulation" } else { "TickUpdate" }
    }

    /// Count a quiet frame.
    pub fn turn_tick(&mut self)
        requires
            old(self).tick < u64::MAX,
        ensures
            final(self).simulation == old(self).simulation,
            final(self).tick == if old(self).simulation { old(self).tick } else { (old(self).tick + 1) as u64 },
    {
        if !self.simulation {
            self.tick = self.tick + 1;
        }
    }
}

/// Minimum pacing between turns: a new turn starts only once
/// `minimum_interval_ms` has passed since the last one started.
#[derive(Clone, Copy, Debug, PartialEq, Eq, Structural)]
pub struct TurnPacing {
    pub minimum_interval_ms: u64,
    pub elapsed_ms: u64,
    pub action_pending: bool,
}

impl TurnPacing {
    /// Pacing with the given minimum interval, ready to start a turn.
    pub fn new(minimum_interval_ms: u64) -> (r: TurnPacing)
        ensures
            r.minimum_interval_ms == minimum_interval_ms,
            r.elapsed_ms == minimum_interval_ms,
            !r.action_pending,
    {
        TurnPacing { minimum_interval_ms, elapsed_ms: minimum_interval_ms, action_pending: false }
    }

    /// Let `delta_ms` pass (saturating).
    pub fn tick(&mut self, delta_ms: u64)
        ensures
            final(self).minimum_interval_ms == old(self).minimum_interval_ms,
            final(self).action_pending == old(self).action_pending,
            final(self).elapsed_ms == if old(self).elapsed_ms + delta_ms > u64::MAX { u64::MAX } else { (old(self).elapsed_ms + delta_ms) as u64 },
    {
        self.elapsed_ms = self.elapsed_ms.saturating_add(delta_ms);
    }

    pub fn can_advance(&self) -> (r: bool)
        ensures
            r == (self.elapsed_ms >= self.minimum_interval_ms),
    {
        self.elapsed_ms >= self.minimum_interval_ms
    }

    /// A turn started now.
    pub fn started(&mut self)
        ensures
            final(self).minimum_interval_ms == old(self).minimum_interval_ms,
            final(self).elapsed_ms == 0,
            !final(self).action_pending,
    {
        self.elapsed_ms = 0;
        self.action_pending = false;
    }

    /// An action was committed this turn.
    pub fn action_committed(&mut self)
        ensures
            final(self).minimum_interval_ms == old(self).minimum_interval_ms,
            final(self).elapsed_ms == old(self).elapsed_ms,
            final(self).action_pending,
    {
        self.action_pending = true;
    }
}

/// Which movement keys are held.
#[derive(Clone, Copy, Debug, PartialEq, Eq, Structural)]
pub struct MoveKeys {
    pub up: bool,
    pub down: bool,
    pub left: bool,
    pub right: bool,
}

pub open spec fn spec_key_direction(keys: MoveKeys) -> Option<IVec2> {
    if keys.up {
        Some(IVec2 { x: 0, y: -1i32 })
    } else if keys.down {
        Some(IVec2 { x: 0, y: 1 })
    } else if keys.left {
        Some(IVec2 { x: -1i32, y: 0 })
    } else if keys.right {
        Some(IVec2 { x: 1, y: 0 })
    } else {
        None
    }
}

/// The step for the held keys, in priority up, down, left, right.
pub fn key_direction(keys: MoveKeys) -> (r: Option<IVec2>)
    ensures
        r == spec_key_direction(keys),
{
    if keys.up {
        Some(IVec2 { x: 0, y: -1 })
    } else if keys.down {
        Some(IVec2 { x: 0, y: 1 })
    } else if keys.left {
        Some(IVec2 { x: -1, y: 0 })
    } else if keys.right {
        Some(IVec2 { x: 1, y: 0 })
    } else {
        None
    }
}

/// Held keys step the way they name, on screen (game Y grows downward):
/// nothing is queued without a movement key; otherwise the step is one cell
/// up `(0, -1)`, down `(0, 1)`, left `(-1, 0)` or right `(1, 0)`, and the
/// key naming that step is held. A key held alone gives its own step, and
/// with a token in hand outside the simulation phase that step is what the
/// player queues.
pub proof fn law_keys_step_the_way_they_name(keys: MoveKeys, command: MoveCommand, tokens: Tokens)
    ensures
        spec_key_direction(keys) is None <==> !(keys.up || keys.down || keys.left || keys.right),
        spec_key_direction(keys) matches Some(v) ==> {
            &&& (v == IVec2 { x: 0, y: -1i32 } && keys.up)
                || (v == IVec2 { x: 0, y: 1 } && keys.down)
                || (v == IVec2 { x: -1i32, y: 0 } && keys.left)
                || (v == IVec2 { x: 1, y: 0 } && keys.right)
        },
        keys.left && !keys.up && !keys.down ==> spec_key_direction(keys) == Some(IVec2 { x: -1i32, y: 0 }),
        keys.right && !keys.up && !keys.down && !keys.left ==> spec_key_direction(keys) == Some(IVec2 { x: 1, y: 0 }),
        keys.up ==> spec_key_direction(keys) == Some(IVec2 { x: 0, y: -1i32 }),
        keys.down && !keys.up ==> spec_key_direction(keys) == Some(IVec2 { x: 0, y: 1 }),
        tokens.count > 0 && spec_key_direction(keys) is Some ==>
            spec_player_input(keys, false, command, tokens)
                == (MoveCommand { target: spec_key_direction(keys)->0, relative: true, active: true }),
        spec_key_direction(keys) is None ==> spec_player_input(keys, false, command, tokens) == command,
{
}

/// A player's command after input: outside the simulation phase, a held
/// movement key queues a relative step for a player holding a token.
pub open spec fn spec_player_input(keys: MoveKeys, simulation: bool, command: MoveCommand, tokens: Tokens) -> MoveCommand {
    match spec_key_direction(keys) {
        Some(d) => if !simulation && tokens.count > 0 {
            MoveCommand { target: d, relative: true, active: true }
        } else {
            command
        },
        None => command,
    }
}

pub fn player_input(keys: MoveKeys, simulation: bool, command: MoveCommand, tokens: Tokens) -> (r: MoveCommand)
    ensures
        r == spec_player_input(keys, simulation, command, tokens),
{
    if simulation {
        return command;
    }
    match key_direction(keys) {
        Some(d) => if tokens.count > 0 {
            MoveCommand { target: d, relative: true, active: true }
        } else {
            command
        },
        None => command,
    }
}

} // verus!
