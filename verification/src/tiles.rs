//! Tile-rule loaders. A wall rule is a drawing of connected wall glyphs: each
//! non-`.` cell gets a four-bit neighbour mask and the glyph drawn with that
//! mask becomes the wall symbol for it. A direction rule is a 3x3 drawing
//! whose non-`.` cells give the glyph for the direction from the centre.
use vstd::prelude::*;
use crate::geometry::Direction;
use crate::text::{lines, lines_view, strip_bom, text_lines};

verus! {

/// 16-entry wall autotile table indexed by neighbour mask.
///
/// Bit layout: bit0 = +X neighbour, bit1 = +Y neighbour, bit2 = -X, bit3 = -Y.
#[derive(Clone, Copy, Debug, PartialEq, Eq)]
pub struct TileRule {
    pub symbols: [char; 16],
}

/// 5-entry direction table indexed by [`Direction::index`]:
/// `[Still, Right, Up, Left, Down]`.
#[derive(Clone, Copy, Debug, PartialEq, Eq)]
pub struct DirectionTileRule {
    pub symbols: [char; 5],
}

/// Number of cells of row `y` the wall loader visits (all but the last).
pub open spec fn visited_width(l: Seq<Seq<char>>, y: int) -> int {
    if l[y].len() >= 1 { l[y].len() - 1 } else { 0 }
}

/// Cell `(x, y)` of the drawing is a wall cell the loader records.
pub open spec fn is_wall_cell(l: Seq<Seq<char>>, x: int, y: int) -> bool {
    0 <= y < l.len() - 1 && 0 <= x < visited_width(l, y) && l[y][x] != '.'
}

/// The neighbour mask of wall cell `(x, y)` when the loader records it: a
/// right or lower neighbour counts when it is not `.`; a left or upper
/// neighbour counts when it is itself a recorded wall cell.
pub open spec fn wall_mask(l: Seq<Seq<char>>, x: int, y: int) -> int {
    (if l[y][x + 1] != '.' { 1int } else { 0 })
        + (if l[y + 1][x] != '.' { 2int } else { 0 })
        + (if x > 0 && l[y][x - 1] != '.' { 4int } else { 0 })
        + (if y > 0 && x < visited_width(l, y - 1) && l[y - 1][x] != '.' { 8int } else { 0 })
}

/// The drawing can be loaded: every recorded wall cell has a cell below it
/// and lies within the loader's 32x32 mask table, and so does its right
/// (lower) neighbour when that neighbour is not `.` (the loader marks it).
pub open spec fn wall_cell_loadable(l: Seq<Seq<char>>, x: int, y: int) -> bool {
    &&& x < l[y + 1].len()
    &&& x < 32
    &&& y < 32
    &&& l[y][x + 1] != '.' ==> x + 1 < 32
    &&& l[y + 1][x] != '.' ==> y + 1 < 32
}

/// Every recorded wall cell of the drawing can be loaded.
pub open spec fn wall_rule_loadable(l: Seq<Seq<char>>) -> bool {
    forall|x: int, y: int| #[trigger] is_wall_cell(l, x, y) ==> wall_cell_loadable(l, x, y)
}

/// The symbol for `mask` after the loader has visited every cell of rows
/// before `y` and the first `x` cells of row `y`: the glyph of the last such
/// wall cell with that mask, or `' '`.
pub open spec fn wall_symbol_upto(l: Seq<Seq<char>>, mask: int, y: int, x: int) -> char
    decreases y, x,
{
    if y <= 0 && x <= 0 {
        ' '
    } else if x <= 0 {
        wall_symbol_upto(l, mask, y - 1, visited_width(l, y - 1))
    } else {
        if is_wall_cell(l, x - 1, y) && wall_mask(l, x - 1, y) == mask {
            l[y][x - 1]
        } else {
            wall_symbol_upto(l, mask, y, x - 1)
        }
    }
}

/// The wall symbol the loader stores for `mask`.
pub open spec fn wall_symbol(l: Seq<Seq<char>>, mask: int) -> char {
    if l.len() == 0 { ' ' } else { wall_symbol_upto(l, mask, l.len() - 1, 0) }
}

/// The direction slot of cell `(x, y)` of a 3x3 drawing: the centre is 0;
/// otherwise the dominant axis from the centre decides, ties going to the
/// vertical slots (2 for the lower row, 4 for the upper).
pub open spec fn direction_slot(x: int, y: int) -> int {
    let dx = x - 1;
    let dy = y - 1;
    if dx == 0 && dy == 0 {
        0
    } else if crate::geometry::abs(dx) > crate::geometry::abs(dy) {
        if dx > 0 { 1 } else { 3 }
    } else if dy > 0 {
        2
    } else {
        4
    }
}

/// The glyph stored in `slot` after visiting the first `k` cells of a 3x3
/// drawing in row-major order: the last non-`.` one in that slot, or `' '`.
pub open spec fn direction_symbol_upto(l: Seq<Seq<char>>, slot: int, k: int) -> char
    decreases k,
{
    if k <= 0 {
        ' '
    } else {
        let x = (k - 1) % 3;
        let y = (k - 1) / 3;
        if l[y][x] != '.' && direction_slot(x, y) == slot {
            l[y][x]
        } else {
            direction_symbol_upto(l, slot, k - 1)
        }
    }
}

/// A drawing of exactly three lines of three characters.
pub open spec fn is_3x3(l: Seq<Seq<char>>) -> bool {
    l.len() == 3 && forall|y: int| 0 <= y < 3 ==> #[trigger] l[y].len() == 3
}

proof fn lemma_wall_symbol_row_start(l: Seq<Seq<char>>, mask: int, y: int)
    requires
        y >= 1,
    ensures
        wall_symbol_upto(l, mask, y, 0) == wall_symbol_upto(l, mask, y - 1, visited_width(l, y - 1)),
{
}

impl TileRule {
    pub open spec fn spec_symbols(&self) -> Seq<char> {
        self.symbols@
    }

    /// Whether `parse` accepts `text` (the loader rejects drawings whose
    /// wall cells lack a cell below, or that mark a cell outside its 32x32
    /// table).
    pub fn can_parse(text: &str) -> (r: bool)
        ensures
            r == wall_rule_loadable(lines(strip_bom(text@))),
    {
        let l = text_lines(text);
        let ghost ls = lines(strip_bom(text@));
        let n = l.len();
        if n == 0 {
            return true;
        }
        let mut y: usize = 0;
        while y < n - 1
            invariant
                n == l@.len(),
                n >= 1,
                y <= n - 1,
                ls == lines_view(l@),
                ls == lines(strip_bom(text@)),
                forall|xx: int, yy: int| 0 <= yy < y && #[trigger] is_wall_cell(ls, xx, yy)
                    ==> wall_cell_loadable(ls, xx, yy),
            decreases n - 1 - y,
        {
            let row = &l[y];
            let w = if row.len() >= 1 { row.len() - 1 } else { 0 };
            let mut x: usize = 0;
            while x < w
                invariant
                    n == l@.len(),
                    y < n - 1,
                    x <= w,
                    ls == lines_view(l@),
                    ls == lines(strip_bom(text@)),
                    row@ == ls[y as int],
                    w == visited_width(ls, y as int),
                    forall|xx: int, yy: int| 0 <= yy < y && #[trigger] is_wall_cell(ls, xx, yy)
                        ==> wall_cell_loadable(ls, xx, yy),
                    forall|xx: int| 0 <= xx < x && #[trigger] is_wall_cell(ls, xx, y as int)
                        ==> wall_cell_loadable(ls, xx, y as int),
                decreases w - x,
            {
                if row[x] != '.' {
                    assert(l@[y + 1]@ == ls[y + 1]);
                    let below = &l[y + 1];
                    let fits = x < below.len() && x < 32 && y < 32
                        && (row[x + 1] == '.' || x + 1 < 32)
                        && (below[x] == '.' || y + 1 < 32);
                    if !fits {
                        assert(is_wall_cell(ls, x as int, y as int));
                        assert(!wall_cell_loadable(ls, x as int, y as int));
                        return false;
                    }
                }
                x += 1;
            }
            y += 1;
        }
        true
    }

    /// Load a wall rule drawing (a leading byte-order mark is ignored).
    pub fn parse(text: &str) -> (r: TileRule)
        requires
            wall_rule_loadable(lines(strip_bom(text@))),
        ensures
            forall|m: int| 0 <= m < 16 ==> #[trigger] r.symbols@[m] == wall_symbol(lines(strip_bom(text@)), m),
    {
        let l = text_lines(text);
        let ghost ls = lines(strip_bom(text@));
        let mut result: [char; 16] = [' '; 16];
        let n = l.len();
        if n == 0 {
            return TileRule { symbols: result };
        }
        let mut y: usize = 0;
        while y < n - 1
            invariant
                n == l@.len(),
                n >= 1,
                y <= n - 1,
                ls == lines_view(l@),
                wall_rule_loadable(ls),
                forall|m: int| 0 <= m < 16 ==> #[trigger] result@[m] == wall_symbol_upto(ls, m, y as int, 0),
            decreases n - 1 - y,
        {
            let row = &l[y];
            let below = &l[y + 1];
            let w = if row.len() >= 1 { row.len() - 1 } else { 0 };
            let mut x: usize = 0;
            while x < w
                invariant
                    n == l@.len(),
                    y < n - 1,
                    x <= w,
                    ls == lines_view(l@),
                    wall_rule_loadable(ls),
                    row@ == ls[y as int],
                    below@ == ls[y + 1],
                    w == visited_width(ls, y as int),
                    y > 0 ==> l@[y - 1]@ == ls[y - 1],
                    forall|m: int| 0 <= m < 16 ==> #[trigger] result@[m] == wall_symbol_upto(ls, m, y as int, x as int),
                decreases w - x,
            {
                let c = row[x];
                if c != '.' {
                    assert(is_wall_cell(ls, x as int, y as int));
                    let mut mask: usize = 0;
                    if row[x + 1] != '.' {
                        mask = mask + 1;
                    }
                    if below[x] != '.' {
                        mask = mask + 2;
                    }
                    if x > 0 && row[x - 1] != '.' {
                        mask = mask + 4;
                    }
                    if y > 0 {
                        let above = &l[y - 1];
                        if above.len() >= 1 && x < above.len() - 1 && above[x] != '.' {
                            mask = mask + 8;
                        }
                    }
                    assert(mask == wall_mask(ls, x as int, y as int));
                    result[mask] = c;
                }
                x += 1;
            }
            proof {
                assert forall|m: int| 0 <= m < 16 implies #[trigger] result@[m] == wall_symbol_upto(ls, m, y + 1, 0) by {
                    lemma_wall_symbol_row_start(ls, m, y + 1);
                }
            }
            y += 1;
        }
        TileRule { symbols: result }
    }

    /// The wall glyph for a neighbour mask (only its low four bits count).
    pub fn symbol(&self, mask: u8) -> (r: char)
        ensures
            r == self.symbols@[(mask % 16) as int],
    {
        let i: u8 = mask & 15;
        assert(mask & 15 == mask % 16) by (bit_vector);
        self.symbols[i as usize]
    }
}

impl DirectionTileRule {
    /// Load a 3x3 direction drawing (a leading byte-order mark is ignored);
    /// anything but exactly three lines of three characters is refused.
    pub fn parse(text: &str) -> (r: Option<DirectionTileRule>)
        ensures
            r is Some <==> is_3x3(lines(strip_bom(text@))),
            r matches Some(rule) ==> forall|slot: int| 0 <= slot < 5 ==>
                #[trigger] rule.symbols@[slot] == direction_symbol_upto(lines(strip_bom(text@)), slot, 9),
    {
        let l = text_lines(text);
        let ghost ls = lines(strip_bom(text@));
        if l.len() != 3 {
            return None;
        }
        let mut y: usize = 0;
        while y < 3
            invariant
                l@.len() == 3,
                ls == lines_view(l@),
                ls == lines(strip_bom(text@)),
                y <= 3,
                forall|yy: int| 0 <= yy < y ==> #[trigger] ls[yy].len() == 3,
            decreases 3 - y,
        {
            assert(l@[y as int]@ == ls[y as int]);
            if l[y].len() != 3 {
                assert(!is_3x3(ls));
                return None;
            }
            y += 1;
        }
        let mut result: [char; 5] = [' '; 5];
        let mut k: usize = 0;
        while k < 9
            invariant
                l@.len() == 3,
                ls == lines_view(l@),
                is_3x3(ls),
                k <= 9,
                forall|slot: int| 0 <= slot < 5 ==> #[trigger] result@[slot] == direction_symbol_upto(ls, slot, k as int),
            decreases 9 - k,
        {
            let x = k % 3;
            let y = k / 3;
            assert(l@[y as int]@ == ls[y as int]);
            let c = l[y][x];
            if c != '.' {
                let dx: i32 = x as i32 - 1;
                let dy: i32 = y as i32 - 1;
                let ax: i32 = if dx < 0 { -dx } else { dx };
                let ay: i32 = if dy < 0 { -dy } else { dy };
                let slot: usize = if dx == 0 && dy == 0 {
                    0
                } else if ax > ay {
                    if dx > 0 { 1 } else { 3 }
                } else if dy > 0 {
                    2
                } else {
                    4
                };
                assert(slot == direction_slot(x as int, y as int));
                result[slot] = c;
            }
            k += 1;
        }
        Some(DirectionTileRule { symbols: result })
    }

    /// The glyph for a direction.
    pub fn symbol(&self, dir: Direction) -> (r: char)
        ensures
            r == self.symbols@[dir.spec_index() as int],
    {
        self.symbols[dir.index()]
    }
}

} // verus!
