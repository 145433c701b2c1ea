//! ASCII map parsing: `X`/`x` wall, `p` player, `e` enemy, `~` electricity,
//! `i` light, `%` acid; anything else is empty floor.
use vstd::prelude::*;
use crate::geometry::IVec2;
use crate::text::{chars_of, bom_len, lines, split_lines, strip_bom, strip_cr, lines_view};

verus! {

/// What a map glyph spawns.
#[derive(Clone, Copy, Debug, PartialEq, Eq, Structural)]
pub enum SpawnKind {
    Wall,
    Player,
    Enemy,
    Electricity,
    Light,
    Acid,
}

/// One parsed cell that spawns an entity.
#[derive(Clone, Copy, Debug, PartialEq, Eq, Structural)]
pub struct SpawnCell {
    pub pos: IVec2,
    pub kind: SpawnKind,
}

pub open spec fn spec_spawn_kind_of(c: char) -> Option<SpawnKind> {
    if c == 'X' || c == 'x' {
        Some(SpawnKind::Wall)
    } else if c == 'p' {
        Some(SpawnKind::Player)
    } else if c == 'e' {
        Some(SpawnKind::Enemy)
    } else if c == '~' {
        Some(SpawnKind::Electricity)
    } else if c == 'i' {
        Some(SpawnKind::Light)
    } else if c == '%' {
        Some(SpawnKind::Acid)
    } else {
        None
    }
}

pub fn spawn_kind_of(c: char) -> (r: Option<SpawnKind>)
    ensures
        r == spec_spawn_kind_of(c),
{
    if c == 'X' || c == 'x' {
        Some(SpawnKind::Wall)
    } else if c == 'p' {
        Some(SpawnKind::Player)
    } else if c == 'e' {
        Some(SpawnKind::Enemy)
    } else if c == '~' {
        Some(SpawnKind::Electricity)
    } else if c == 'i' {
        Some(SpawnKind::Light)
    } else if c == '%' {
        Some(SpawnKind::Acid)
    } else {
        None
    }
}

/// The map's rows: the lines of the text (one leading byte-order mark
/// ignored), each without a trailing carriage return.
pub open spec fn map_rows(text: Seq<char>) -> Seq<Seq<char>> {
    let l = lines(strip_bom(text));
    Seq::new(l.len(), |i: int| strip_cr(l[i]))
}

/// The spawn cells among the first `n` characters of row `y`.
pub open spec fn row_cells(row: Seq<char>, y: int, n: int) -> Seq<SpawnCell>
    decreases n,
{
    if n <= 0 {
        Seq::empty()
    } else {
        row_cells(row, y, n - 1) + match spec_spawn_kind_of(row[n - 1]) {
            Some(kind) => seq![SpawnCell { pos: IVec2 { x: (n - 1) as i32, y: y as i32 }, kind }],
            None => Seq::empty(),
        }
    }
}

/// The spawn cells of the first `n` rows, in row-major order.
pub open spec fn map_cells(rows: Seq<Seq<char>>, n: int) -> Seq<SpawnCell>
    decreases n,
{
    if n <= 0 {
        Seq::empty()
    } else {
        map_cells(rows, n - 1) + row_cells(rows[n - 1], n - 1, rows[n - 1].len() as int)
    }
}

/// The longest of the first `n` rows (0 when there are none).
pub open spec fn max_width(rows: Seq<Seq<char>>, n: int) -> int
    decreases n,
{
    if n <= 0 {
        0
    } else {
        let w = max_width(rows, n - 1);
        if rows[n - 1].len() > w { rows[n - 1].len() as int } else { w }
    }
}

proof fn lemma_max_width_bounded(rows: Seq<Seq<char>>, n: int, bound: int)
    requires
        0 <= n <= rows.len(),
        bound >= 0,
        forall|i: int| 0 <= i < n ==> #[trigger] rows[i].len() <= bound,
    ensures
        0 <= max_width(rows, n) <= bound,
    decreases n,
{
    if n > 0 {
        lemma_max_width_bounded(rows, n - 1, bound);
    }
}

/// `a` comes before `b` in row-major order.
pub open spec fn row_major_lt(a: IVec2, b: IVec2) -> bool {
    a.y < b.y || (a.y == b.y && a.x < b.x)
}

proof fn lemma_row_cells(row: Seq<char>, y: int, m: int)
    requires
        0 <= m <= row.len(),
        row.len() <= i32::MAX,
        0 <= y <= i32::MAX,
    ensures
        forall|k: int| 0 <= k < row_cells(row, y, m).len() ==> (#[trigger] row_cells(row, y, m)[k]).pos.y == y
            && 0 <= row_cells(row, y, m)[k].pos.x < m,
        forall|a: int, b: int| 0 <= a < b < row_cells(row, y, m).len()
            ==> (#[trigger] row_cells(row, y, m)[a]).pos.x < (#[trigger] row_cells(row, y, m)[b]).pos.x,
    decreases m,
{
    if m > 0 {
        lemma_row_cells(row, y, m - 1);
        let prev = row_cells(row, y, m - 1);
        let cur = row_cells(row, y, m);
        assert forall|k: int| 0 <= k < prev.len() implies cur[k] == prev[k] by {}
    }
}

proof fn lemma_max_width_covers(rows: Seq<Seq<char>>, n: int, i: int)
    requires
        0 <= i < n <= rows.len(),
    ensures
        rows[i].len() <= max_width(rows, n),
    decreases n,
{
    if i < n - 1 {
        lemma_max_width_covers(rows, n - 1, i);
    }
}

proof fn lemma_map_cells(rows: Seq<Seq<char>>, n: int)
    requires
        0 <= n <= rows.len(),
        rows.len() <= i32::MAX,
        forall|i: int| 0 <= i < rows.len() ==> #[trigger] rows[i].len() <= i32::MAX,
    ensures
        forall|k: int| 0 <= k < map_cells(rows, n).len() ==> 0 <= (#[trigger] map_cells(rows, n)[k]).pos.y < n
            && 0 <= map_cells(rows, n)[k].pos.x < max_width(rows, n),
        forall|a: int, b: int| 0 <= a < b < map_cells(rows, n).len()
            ==> row_major_lt((#[trigger] map_cells(rows, n)[a]).pos, (#[trigger] map_cells(rows, n)[b]).pos),
    decreases n,
{
    if n > 0 {
        lemma_map_cells(rows, n - 1);
        let prev = map_cells(rows, n - 1);
        let row = row_cells(rows[n - 1], n - 1, rows[n - 1].len() as int);
        lemma_row_cells(rows[n - 1], n - 1, rows[n - 1].len() as int);
        lemma_max_width_covers(rows, n, n - 1);
        let cur = map_cells(rows, n);
        assert(cur == prev + row);
        assert(max_width(rows, n - 1) <= max_width(rows, n));
        assert forall|k: int| 0 <= k < cur.len() implies 0 <= (#[trigger] cur[k]).pos.y < n
            && 0 <= cur[k].pos.x < max_width(rows, n) by {
            if k >= prev.len() {
                assert(cur[k] == row[k - prev.len()]);
            }
        }
        assert forall|a: int, b: int| 0 <= a < b < cur.len() implies row_major_lt((#[trigger] cur[a]).pos, (#[trigger] cur[b]).pos) by {
            if b < prev.len() {
                assert(cur[a] == prev[a] && cur[b] == prev[b]);
            } else if a < prev.len() {
                assert(cur[a] == prev[a]);
                assert(cur[b] == row[b - prev.len()]);
            } else {
                assert(cur[a] == row[a - prev.len()]);
                assert(cur[b] == row[b - prev.len()]);
            }
        }
    }
}

/// Parse a map: its width (the longest row), its height (the number of
/// rows) and its spawn cells in row-major order.
pub fn parse_map(text: &str) -> (r: (i32, i32, Vec<SpawnCell>))
    requires
        text@.len() < i32::MAX,
    ensures
        r.0 == max_width(map_rows(text@), map_rows(text@).len() as int),
        r.1 == map_rows(text@).len(),
        r.2@ == map_cells(map_rows(text@), map_rows(text@).len() as int),
        forall|k: int| 0 <= k < r.2@.len() ==> 0 <= (#[trigger] r.2@[k]).pos.x < r.0 && 0 <= r.2@[k].pos.y < r.1,
        forall|a: int, b: int| 0 <= a < b < r.2@.len() ==> row_major_lt((#[trigger] r.2@[a]).pos, (#[trigger] r.2@[b]).pos),
{
    let chars = chars_of(text);
    let start = bom_len(&chars);
    let l = split_lines(&chars, start);
    let ghost ls = lines(strip_bom(text@));
    let ghost rows = map_rows(text@);
    proof {
        crate::text::lemma_lines_bounded(strip_bom(text@));
    }
    let mut width: usize = 0;
    let mut cells: Vec<SpawnCell> = Vec::new();
    let mut y: usize = 0;
    while y < l.len()
        invariant
            ls == lines_view(l@),
            rows == map_rows(text@),
            ls == lines(strip_bom(text@)),
            rows.len() == ls.len(),
            ls.len() <= text@.len() + 1,
            text@.len() < i32::MAX,
            forall|i: int| 0 <= i < ls.len() ==> #[trigger] ls[i].len() <= strip_bom(text@).len(),
            y <= l@.len(),
            width == max_width(rows, y as int),
            cells@ == map_cells(rows, y as int),
        decreases l@.len() - y,
    {
        let line = &l[y];
        assert(line@ == ls[y as int]);
        // Drop one trailing carriage return.
        let mut len = line.len();
        if len > 0 && line[len - 1] == '\r' {
            len = len - 1;
        }
        assert(len == rows[y as int].len());
        if len > width {
            width = len;
        }
        let mut x: usize = 0;
        let ghost before = cells@;
        while x < len
            invariant
                x <= len,
                len == rows[y as int].len(),
                len <= line@.len(),
                line@ == ls[y as int],
                rows == map_rows(text@),
                ls == lines(strip_bom(text@)),
                rows.len() == ls.len(),
                y < rows.len(),
                rows.len() <= text@.len() + 1,
                len <= text@.len(),
                text@.len() < i32::MAX,
                cells@ == before + row_cells(rows[y as int], y as int, x as int),
            decreases len - x,
        {
            assert(rows[y as int][x as int] == line@[x as int]);
            match spawn_kind_of(line[x]) {
                Some(kind) => {
                    cells.push(SpawnCell { pos: IVec2 { x: x as i32, y: y as i32 }, kind });
                },
                None => {},
            }
            proof {
                assert(cells@ == before + row_cells(rows[y as int], y as int, x + 1));
            }
            x += 1;
        }
        y += 1;
    }
    proof {
        lemma_max_width_bounded(rows, rows.len() as int, text@.len() as int);
        assert forall|i: int| 0 <= i < rows.len() implies #[trigger] rows[i].len() <= i32::MAX by {
            assert(ls[i].len() <= strip_bom(text@).len());
        }
        lemma_map_cells(rows, rows.len() as int);
    }
    (width as i32, l.len() as i32, cells)
}

} // verus!
