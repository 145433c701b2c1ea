//! Decisions behind the remote control interface: accepting a move request,
//! readiness for input, and the composed frame as rows of glyphs and colours.
use vstd::prelude::*;
use crate::geometry::IVec2;
use crate::frame::{RenderBuffers, RenderCell};
use crate::simulation::{MoveCommand, MoveKeys, Tokens, spec_key_direction, spec_player_input};

verus! {

/// A requested step.
#[derive(Clone, Copy, Debug, PartialEq, Eq, Structural)]
pub enum MoveDirection {
    Up,
    Down,
    Left,
    Right,
    Wait,
}

impl MoveDirection {
    pub open spec fn spec_vector(self) -> IVec2 {
        match self {
            MoveDirection::Up => IVec2 { x: 0, y: -1i32 },
            MoveDirection::Down => IVec2 { x: 0, y: 1 },
            MoveDirection::Left => IVec2 { x: -1i32, y: 0 },
            MoveDirection::Right => IVec2 { x: 1, y: 0 },
            MoveDirection::Wait => IVec2 { x: 0, y: 0 },
        }
    }

    /// The step as a grid offset (Y grows downward; `Wait` is zero).
    pub fn vector(&self) -> (r: IVec2)
        ensures
            r == self.spec_vector(),
    {
        match self {
            MoveDirection::Up => IVec2 { x: 0, y: -1 },
            MoveDirection::Down => IVec2 { x: 0, y: 1 },
            MoveDirection::Left => IVec2 { x: -1, y: 0 },
            MoveDirection::Right => IVec2 { x: 1, y: 0 },
            MoveDirection::Wait => IVec2 { x: 0, y: 0 },
        }
    }
}

/// Why a move request was refused.
#[derive(Clone, Copy, Debug, PartialEq, Eq, Structural)]
pub enum MoveRejection {
    SimulationBusy,
    CommandPending,
    NoTokens,
}

impl MoveRejection {
    /// The reason as reported to the client.
    pub fn reason(&self) -> (r: &'static str)
        ensures
            r@ == match self {
                MoveRejection::SimulationBusy => "simulation_busy"@,
                MoveRejection::CommandPending => "command_pending"@,
                MoveRejection::NoTokens => "no_tokens"@,
            },
    {
        match self {
            MoveRejection::SimulationBusy => "simulation_busy",
            MoveRejection::CommandPending => "command_pending",
            MoveRejection::NoTokens => "no_tokens",
        }
    }
}

/// The outcome of a move request: refused while the simulation runs, while
/// a command is pending, or without a token; otherwise queued as a relative
/// step through the normal turn pipeline.
pub open spec fn spec_request_move(simulation: bool, command: MoveCommand, tokens: Tokens) -> Result<(), MoveRejection> {
    if simulation {
        Err(MoveRejection::SimulationBusy)
    } else if command.active {
        Err(MoveRejection::CommandPending)
    } else if tokens.count <= 0 {
        Err(MoveRejection::NoTokens)
    } else {
        Ok(())
    }
}

pub fn request_move(simulation: bool, command: &mut MoveCommand, tokens: Tokens, direction: MoveDirection) -> (r: Result<(), MoveRejection>)
    ensures
        r == spec_request_move(simulation, *old(command), tokens),
        r is Ok ==> *final(command) == (MoveCommand { target: direction.spec_vector(), relative: true, active: true }),
        r is Err ==> *final(command) == *old(command),
{
    if simulation {
        return Err(MoveRejection::SimulationBusy);
    }
    if command.active {
        return Err(MoveRejection::CommandPending);
    }
    if tokens.count <= 0 {
        return Err(MoveRejection::NoTokens);
    }
    *command = MoveCommand { target: direction.vector(), relative: true, active: true };
    Ok(())
}

/// The player can act: the turn accepts input, a token is in hand and no
/// command is pending.
pub fn ready_for_input(simulation: bool, tokens: i32, command_pending: bool) -> (r: bool)
    ensures
        r == (!simulation && tokens > 0 && !command_pending),
{
    !simulation && tokens > 0 && !command_pending
}

/// A request is accepted exactly when the player is ready for input.
pub proof fn law_accepted_iff_ready(simulation: bool, command: MoveCommand, tokens: Tokens)
    ensures
        spec_request_move(simulation, command, tokens) is Ok == (!simulation && tokens.count > 0 && !command.active),
{
}

/// Accepted remote moves use the normal turn pipeline: the command queued
/// for an accepted request is the one the keyboard queues for the same step.
pub proof fn law_remote_moves_match_keyboard(command: MoveCommand, tokens: Tokens, direction: MoveDirection, keys: MoveKeys)
    requires
        spec_request_move(false, command, tokens) is Ok,
        spec_key_direction(keys) == Some(direction.spec_vector()),
    ensures
        spec_player_input(keys, false, command, tokens)
            == (MoveCommand { target: direction.spec_vector(), relative: true, active: true }),
{
}

/// The names of the sixteen palette indices, as reported to the client.
pub open spec fn palette_names() -> Seq<&'static str> {
    seq![
        "black", "dark_blue", "dark_green", "dark_cyan", "dark_red", "dark_magenta", "dark_yellow", "gray",
        "dark_gray", "blue", "green", "cyan", "red", "magenta", "yellow", "white",
    ]
}

/// The name of a palette index.
pub fn palette_name(index: u8) -> (r: &'static str)
    requires
        index < 16,
    ensures
        r == palette_names()[index as int],
{
    match index {
        0 => "black",
        1 => "dark_blue",
        2 => "dark_green",
        3 => "dark_cyan",
        4 => "dark_red",
        5 => "dark_magenta",
        6 => "dark_yellow",
        7 => "gray",
        8 => "dark_gray",
        9 => "blue",
        10 => "green",
        11 => "cyan",
        12 => "red",
        13 => "magenta",
        14 => "yellow",
        _ => "white",
    }
}

/// The glyph shown for a composed cell (an unset cell shows a space).
pub open spec fn shown_char(c: RenderCell) -> char {
    if c.ch == '\0' { ' ' } else { c.ch }
}

/// The composed frame as rows of glyphs and rows of palette indices.
pub fn visual_rows(buffers: &RenderBuffers) -> (r: (Vec<Vec<char>>, Vec<Vec<u8>>))
    requires
        buffers.wf(),
    ensures
        r.0@.len() == buffers.height,
        r.1@.len() == buffers.height,
        forall|y: int| 0 <= y < buffers.height ==> #[trigger] r.0@[y]@.len() == buffers.width && r.1@[y]@.len() == buffers.width,
        forall|y: int, x: int| 0 <= y < buffers.height && 0 <= x < buffers.width ==>
            r.0@[y]@[x] == shown_char(buffers.current@[y * buffers.width + x])
            && r.1@[y]@[x] == buffers.current@[y * buffers.width + x].color,
{
    let w = buffers.width;
    let h = buffers.height;
    let mut rows: Vec<Vec<char>> = Vec::new();
    let mut colors: Vec<Vec<u8>> = Vec::new();
    let mut y: i32 = 0;
    while y < h
        invariant
            buffers.wf(),
            w == buffers.width,
            h == buffers.height,
            0 <= y <= h,
            rows@.len() == y,
            colors@.len() == y,
            forall|yy: int| 0 <= yy < y ==> #[trigger] rows@[yy]@.len() == w && colors@[yy]@.len() == w,
            forall|yy: int, x: int| 0 <= yy < y && 0 <= x < w ==>
                rows@[yy]@[x] == shown_char(buffers.current@[yy * w + x])
                && colors@[yy]@[x] == buffers.current@[yy * w + x].color,
        decreases h - y,
    {
        let mut row: Vec<char> = Vec::new();
        let mut row_colors: Vec<u8> = Vec::new();
        let mut x: i32 = 0;
        while x < w
            invariant
                buffers.wf(),
                w == buffers.width,
                h == buffers.height,
                0 <= y < h,
                0 <= x <= w,
                row@.len() == x,
                row_colors@.len() == x,
                forall|xx: int| 0 <= xx < x ==> #[trigger] row@[xx] == shown_char(buffers.current@[y * w + xx])
                    && row_colors@[xx] == buffers.current@[y * w + xx].color,
            decreases w - x,
        {
            proof { crate::grid::lemma_index_in_bounds(w as int, h as int, x as int, y as int); }
            let i = (y * w + x) as usize;
            assert(i as int == y * w + x);
            let cell = buffers.current[i];
            let shown = if cell.ch == '\0' { ' ' } else { cell.ch };
            assert(shown == shown_char(cell));
            assert(cell == buffers.current@[y * w + x]);
            row.push(shown);
            row_colors.push(cell.color);
            x += 1;
        }
        rows.push(row);
        colors.push(row_colors);
        y += 1;
    }
    (rows, colors)
}

} // verus!
