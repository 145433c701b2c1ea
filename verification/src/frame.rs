//! Frame composition: glyphs drawn by visibility and depth, known cells lit
//! through the light palette, known empty floor shown as `.` where visible or
//! on hex cells, and unknown cells bordering known floor marked `?`.
use vstd::prelude::*;
use crate::geometry::{IVec2, spec_is_hex_pos, is_hex_pos};
use crate::grid::{lemma_index_in_bounds, lemma_index_injective};
use crate::lighting::{LightCell, LightKind, spec_light_to_palette, light_to_palette, DARK_RED};

verus! {

/// Visibility flags of one cell: bit 1 visible now, bit 2 known (seen once).
#[derive(Clone, Copy, Debug, PartialEq, Eq, Structural)]
pub struct Vis {
    pub bits: u8,
}

pub const VISIBLE_BIT: u8 = 1;
pub const KNOWN_BIT: u8 = 2;

impl Vis {
    pub fn empty() -> (r: Vis)
        ensures
            r.bits == 0,
    {
        Vis { bits: 0 }
    }

    pub fn visible_and_known() -> (r: Vis)
        ensures
            r.bits == 3,
    {
        Vis { bits: 3 }
    }

    pub fn known_only() -> (r: Vis)
        ensures
            r.bits == 2,
    {
        Vis { bits: 2 }
    }

    pub open spec fn is_visible(self) -> bool {
        self.bits & VISIBLE_BIT != 0
    }

    pub open spec fn is_known(self) -> bool {
        self.bits & KNOWN_BIT != 0
    }

    pub fn visible(self) -> (r: bool)
        ensures
            r == self.is_visible(),
    {
        self.bits & VISIBLE_BIT != 0
    }

    pub fn known(self) -> (r: bool)
        ensures
            r == self.is_known(),
    {
        self.bits & KNOWN_BIT != 0
    }
}

/// A drawable glyph; a greater depth draws over a lesser one.
#[derive(Clone, Copy, Debug, PartialEq, Eq, Structural)]
pub struct Glyph {
    pub ch: char,
    pub depth: u8,
    /// Palette index 0..16.
    pub color: u8,
}

impl Glyph {
    pub fn new(ch: char, depth: u8, color: u8) -> (r: Glyph)
        ensures
            r == (Glyph { ch, depth, color }),
    {
        Glyph { ch, depth, color }
    }
}

/// One composed cell.
#[derive(Clone, Copy, Debug, PartialEq, Eq, Structural)]
pub struct RenderCell {
    pub ch: char,
    pub color: u8,
    pub depth: u8,
}

pub open spec fn blank_cell() -> RenderCell {
    RenderCell { ch: '\0', color: 0, depth: 0 }
}

impl RenderCell {
    pub fn blank() -> (r: RenderCell)
        ensures
            r == blank_cell(),
    {
        RenderCell { ch: '\0', color: 0, depth: 0 }
    }
}

/// A glyph standing on a cell; `moves` marks actors (entities with a speed).
#[derive(Clone, Copy, Debug, PartialEq, Eq, Structural)]
pub struct GlyphAt {
    pub pos: IVec2,
    pub glyph: Glyph,
    pub moves: bool,
}

/// The current and the previous composed frame.
#[derive(Debug)]
pub struct RenderBuffers {
    pub width: i32,
    pub height: i32,
    pub current: Vec<RenderCell>,
    pub previous: Vec<RenderCell>,
}

impl RenderBuffers {
    pub open spec fn wf(&self) -> bool {
        &&& 1 <= self.width
        &&& 1 <= self.height
        &&& self.width * self.height <= i32::MAX
        &&& self.current@.len() == self.width * self.height
        &&& self.previous@.len() == self.width * self.height
    }

    pub open spec fn spec_is_valid(&self, p: IVec2) -> bool {
        0 <= p.x < self.width && 0 <= p.y < self.height
    }

    pub open spec fn spec_idx(&self, p: IVec2) -> int {
        p.y * self.width + p.x
    }

    /// Blank buffers; each dimension is raised to at least 1.
    pub fn new(width: i32, height: i32) -> (r: RenderBuffers)
        requires
            crate::grid::at_least_one(width) * crate::grid::at_least_one(height) <= i32::MAX,
        ensures
            r.wf(),
            r.width == crate::grid::at_least_one(width),
            r.height == crate::grid::at_least_one(height),
            forall|i: int| 0 <= i < r.current@.len() ==> r.current@[i] == blank_cell() && r.previous@[i] == blank_cell(),
    {
        let w: i32 = if width < 1 { 1 } else { width };
        let h: i32 = if height < 1 { 1 } else { height };
        assert(w * h >= 1) by (nonlinear_arith) requires w >= 1, h >= 1;
        let n: usize = (w * h) as usize;
        let current = vec![RenderCell::blank(); n];
        let previous = vec![RenderCell::blank(); n];
        RenderBuffers { width: w, height: h, current, previous }
    }

    pub fn idx(&self, p: IVec2) -> (r: Option<usize>)
        requires
            self.wf(),
        ensures
            r == (if self.spec_is_valid(p) { Some(self.spec_idx(p) as usize) } else { None::<usize> }),
            r matches Some(i) ==> i < self.current@.len() && i == self.spec_idx(p),
    {
        if p.x >= 0 && p.y >= 0 && p.x < self.width && p.y < self.height {
            proof { lemma_index_in_bounds(self.width as int, self.height as int, p.x as int, p.y as int); }
            Some((p.y * self.width + p.x) as usize)
        } else {
            None
        }
    }

    /// Exchange the current and the previous frame.
    pub fn swap(&mut self)
        ensures
            final(self).width == old(self).width,
            final(self).height == old(self).height,
            final(self).current@ == old(self).previous@,
            final(self).previous@ == old(self).current@,
    {
        std::mem::swap(&mut self.current, &mut self.previous);
    }

    /// The cell at `p`.
    pub open spec fn cell_at(&self, p: IVec2) -> RenderCell {
        self.current@[self.spec_idx(p)]
    }
}

/// Visibility of cell `i`, empty beyond the layer.
pub open spec fn vis_at(vis: Seq<Vis>, i: int) -> Vis {
    if 0 <= i < vis.len() { vis[i] } else { Vis { bits: 0 } }
}

/// Light of cell `i`, dark beyond the layer.
pub open spec fn light_at(light: Seq<LightCell>, i: int) -> LightCell {
    if 0 <= i < light.len() { light[i] } else { LightCell { value: 0, kind: LightKind::Neutral } }
}

/// A glyph is drawn when its cell is visible, or known and the glyph is
/// static scenery.
pub open spec fn drawable(g: GlyphAt, v: Vis) -> bool {
    v.is_visible() || (!g.moves && v.is_known())
}

/// Cell `i` after drawing the first `n` glyphs: each drawable glyph on the
/// cell replaces it unless the cell already holds a deeper one.
pub open spec fn drawn_cell(b: &RenderBuffers, vis: Seq<Vis>, glyphs: Seq<GlyphAt>, i: int, n: int) -> RenderCell
    decreases n,
{
    if n <= 0 {
        blank_cell()
    } else {
        let prev = drawn_cell(b, vis, glyphs, i, n - 1);
        let g = glyphs[n - 1];
        if b.spec_is_valid(g.pos) && b.spec_idx(g.pos) == i && drawable(g, vis_at(vis, i))
            && prev.depth <= g.glyph.depth {
            RenderCell { ch: g.glyph.ch, color: g.glyph.color, depth: g.glyph.depth }
        } else {
            prev
        }
    }
}

/// Neighbour `d` of `p` is known and holds no glyph after drawing.
pub open spec fn known_background(b: &RenderBuffers, vis: Seq<Vis>, glyphs: Seq<GlyphAt>, p: IVec2, d: IVec2) -> bool {
    let q = IVec2 { x: (p.x + d.x) as i32, y: (p.y + d.y) as i32 };
    &&& b.spec_is_valid(q)
    &&& vis_at(vis, b.spec_idx(q)).is_known()
    &&& drawn_cell(b, vis, glyphs, b.spec_idx(q), glyphs.len() as int).depth == 0
}

/// An unknown cell borders known background above, left, right or below.
pub open spec fn borders_known(b: &RenderBuffers, vis: Seq<Vis>, glyphs: Seq<GlyphAt>, p: IVec2) -> bool {
    ||| known_background(b, vis, glyphs, p, IVec2 { x: 0, y: -1i32 })
    ||| known_background(b, vis, glyphs, p, IVec2 { x: -1i32, y: 0 })
    ||| known_background(b, vis, glyphs, p, IVec2 { x: 1, y: 0 })
    ||| known_background(b, vis, glyphs, p, IVec2 { x: 0, y: 1 })
}

/// The post effect on a drawn cell: known cells take the light palette and
/// known empty floor shows `.` where visible or on hex cells; unknown cells
/// bordering known background become `?`.
pub open spec fn post_effect(cell: RenderCell, v: Vis, light: LightCell, hex: bool, border: bool) -> RenderCell {
    if v.is_known() {
        if cell.ch == ' ' || cell.ch == '\0' {
            if v.is_visible() || hex {
                RenderCell { ch: '.', color: spec_light_to_palette(light), depth: cell.depth }
            } else {
                cell
            }
        } else {
            RenderCell { ch: cell.ch, color: spec_light_to_palette(light), depth: cell.depth }
        }
    } else if border {
        RenderCell { ch: '?', color: DARK_RED, depth: 0 }
    } else {
        cell
    }
}

/// The composed cell at `p`.
pub open spec fn composed_cell(b: &RenderBuffers, vis: Seq<Vis>, light: Seq<LightCell>, glyphs: Seq<GlyphAt>, p: IVec2) -> RenderCell {
    let i = b.spec_idx(p);
    post_effect(
        drawn_cell(b, vis, glyphs, i, glyphs.len() as int),
        vis_at(vis, i),
        light_at(light, i),
        spec_is_hex_pos(p),
        borders_known(b, vis, glyphs, p),
    )
}

proof fn lemma_drawn_cell_frame(b1: &RenderBuffers, b2: &RenderBuffers, vis: Seq<Vis>, glyphs: Seq<GlyphAt>, i: int, n: int)
    requires
        b1.width == b2.width,
        b1.height == b2.height,
    ensures
        drawn_cell(b1, vis, glyphs, i, n) == drawn_cell(b2, vis, glyphs, i, n),
    decreases n,
{
    if n > 0 {
        lemma_drawn_cell_frame(b1, b2, vis, glyphs, i, n - 1);
    }
}

/// Whether neighbour `d` of `p` is known background in the frame as drawn
/// so far.
fn background_at(b: &RenderBuffers, vis: &Vec<Vis>, p: IVec2, d: IVec2) -> (r: bool)
    requires
        b.wf(),
        0 <= p.x < b.width,
        0 <= p.y < b.height,
        -1 <= d.x <= 1,
        -1 <= d.y <= 1,
    ensures
        r == {
            let q = IVec2 { x: (p.x + d.x) as i32, y: (p.y + d.y) as i32 };
            b.spec_is_valid(q) && vis_at(vis@, b.spec_idx(q)).is_known() && b.current@[b.spec_idx(q)].depth == 0
        },
{
    let q = IVec2 { x: p.x + d.x, y: p.y + d.y };
    match b.idx(q) {
        Some(i) => {
            let v = if i < vis.len() { vis[i] } else { Vis::empty() };
            v.known() && b.current[i].depth == 0
        },
        None => false,
    }
}

/// Compose the frame: the current frame becomes the previous one and the
/// current frame is drawn from the glyphs, the visibility layer and the
/// light layer.
pub fn compose_frame(buffers: &mut RenderBuffers, vis: &Vec<Vis>, light: &Vec<LightCell>, glyphs: &Vec<GlyphAt>)
    requires
        old(buffers).wf(),
    ensures
        final(buffers).wf(),
        final(buffers).width == old(buffers).width,
        final(buffers).height == old(buffers).height,
        final(buffers).previous@ == old(buffers).current@,
        forall|p: IVec2| #![trigger final(buffers).cell_at(p)] final(buffers).spec_is_valid(p) ==>
            final(buffers).cell_at(p) == composed_cell(&*final(buffers), vis@, light@, glyphs@, p),
{
    buffers.swap();
    let n = buffers.current.len();
    let mut i: usize = 0;
    while i < n
        invariant
            buffers.wf(),
            n == buffers.current@.len(),
            i <= n,
            buffers.previous@ == old(buffers).current@,
            buffers.width == old(buffers).width,
            buffers.height == old(buffers).height,
            forall|j: int| 0 <= j < i ==> buffers.current@[j] == blank_cell(),
        decreases n - i,
    {
        buffers.current.set(i, RenderCell::blank());
        i += 1;
    }
    // Forward pass: draw glyphs by visibility and depth.
    let ghost frame = *buffers;
    let mut k: usize = 0;
    while k < glyphs.len()
        invariant
            buffers.wf(),
            n == buffers.current@.len(),
            buffers.previous@ == old(buffers).current@,
            buffers.width == old(buffers).width,
            buffers.height == old(buffers).height,
            frame.width == buffers.width,
            frame.height == buffers.height,
            k <= glyphs@.len(),
            forall|j: int| 0 <= j < n ==> #[trigger] buffers.current@[j] == drawn_cell(&frame, vis@, glyphs@, j, k as int),
        decreases glyphs@.len() - k,
    {
        let g = glyphs[k];
        match buffers.idx(g.pos) {
            Some(index) => {
                let v = if index < vis.len() { vis[index] } else { Vis::empty() };
                if v.visible() || (!g.moves && v.known()) {
                    let cell = buffers.current[index];
                    if cell.depth <= g.glyph.depth {
                        buffers.current.set(index, RenderCell { ch: g.glyph.ch, color: g.glyph.color, depth: g.glyph.depth });
                    }
                }
            },
            None => {},
        }
        k += 1;
    }
    // Post effects, cell by cell in row-major order.
    let ghost drawn = buffers.current@;
    let w = buffers.width;
    let h = buffers.height;
    let mut y: i32 = 0;
    while y < h
        invariant
            buffers.wf(),
            n == buffers.current@.len(),
            drawn.len() == n,
            buffers.previous@ == old(buffers).current@,
            buffers.width == old(buffers).width,
            buffers.height == old(buffers).height,
            frame.width == buffers.width,
            frame.height == buffers.height,
            w == buffers.width,
            h == buffers.height,
            0 <= y <= h,
            forall|j: int| 0 <= j < n ==> #[trigger] drawn[j] == drawn_cell(&frame, vis@, glyphs@, j, glyphs@.len() as int),
            forall|j: int| 0 <= j < n && j < y * w ==> vis_at(vis@, j).is_known() ==> #[trigger] buffers.current@[j].depth == drawn[j].depth,
            forall|j: int| y * w <= j < n ==> #[trigger] buffers.current@[j] == drawn[j],
            forall|p: IVec2| 0 <= p.x < w && 0 <= p.y < h && p.y * w + p.x < y * w ==>
                #[trigger] buffers.current@[p.y * w + p.x] == composed_cell(&frame, vis@, light@, glyphs@, p),
        decreases h - y,
    {
        let mut x: i32 = 0;
        while x < w
            invariant
                buffers.wf(),
                n == buffers.current@.len(),
                drawn.len() == n,
                buffers.previous@ == old(buffers).current@,
                buffers.width == old(buffers).width,
                buffers.height == old(buffers).height,
                frame.width == buffers.width,
                frame.height == buffers.height,
                w == buffers.width,
                h == buffers.height,
                0 <= y < h,
                0 <= x <= w,
                forall|j: int| 0 <= j < n ==> #[trigger] drawn[j] == drawn_cell(&frame, vis@, glyphs@, j, glyphs@.len() as int),
                forall|j: int| 0 <= j < n && j < y * w + x ==> vis_at(vis@, j).is_known() ==> #[trigger] buffers.current@[j].depth == drawn[j].depth,
                forall|j: int| y * w + x <= j < n ==> #[trigger] buffers.current@[j] == drawn[j],
                forall|p: IVec2| 0 <= p.x < w && 0 <= p.y < h && p.y * w + p.x < y * w + x ==>
                    #[trigger] buffers.current@[p.y * w + p.x] == composed_cell(&frame, vis@, light@, glyphs@, p),
            decreases w - x,
        {
            let p = IVec2 { x, y };
            proof { lemma_index_in_bounds(w as int, h as int, x as int, y as int); }
            let index = (y * w + x) as usize;
            let v = if index < vis.len() { vis[index] } else { Vis::empty() };
            let ghost before = buffers.current@;
            if v.known() {
                let l = if index < light.len() { light[index] } else { LightCell::dark() };
                let cell = buffers.current[index];
                if cell.ch == ' ' || cell.ch == '\0' {
                    if v.visible() || is_hex_pos(p) {
                        buffers.current.set(index, RenderCell { ch: '.', color: light_to_palette(&l), depth: cell.depth });
                    }
                } else {
                    buffers.current.set(index, RenderCell { ch: cell.ch, color: light_to_palette(&l), depth: cell.depth });
                }
            } else {
                let up = background_at(buffers, vis, p, IVec2 { x: 0, y: -1 });
                let left = background_at(buffers, vis, p, IVec2 { x: -1, y: 0 });
                let right = background_at(buffers, vis, p, IVec2 { x: 1, y: 0 });
                let down = background_at(buffers, vis, p, IVec2 { x: 0, y: 1 });
                proof {
                    // Neighbours already post-processed keep their depth
                    // where known, so the border test sees the drawn frame.
                    assert forall|d: IVec2| #![trigger known_background(&frame, vis@, glyphs@, p, d)] -1 <= d.x <= 1 && -1 <= d.y <= 1 implies {
                        let q = IVec2 { x: (p.x + d.x) as i32, y: (p.y + d.y) as i32 };
                        (frame.spec_is_valid(q) && vis_at(vis@, frame.spec_idx(q)).is_known()
                            && before[frame.spec_idx(q)].depth == 0)
                        == known_background(&frame, vis@, glyphs@, p, d)
                    } by {
                        let q = IVec2 { x: (p.x + d.x) as i32, y: (p.y + d.y) as i32 };
                        if frame.spec_is_valid(q) {
                            lemma_index_in_bounds(w as int, h as int, q.x as int, q.y as int);
                        }
                    }
                }
                if up || left || right || down {
                    buffers.current.set(index, RenderCell { ch: '?', color: DARK_RED, depth: 0 });
                }
            }
            proof {
                lemma_drawn_cell_frame(&frame, &*buffers, vis@, glyphs@, index as int, glyphs@.len() as int);
                assert(buffers.current@[index as int] == composed_cell(&frame, vis@, light@, glyphs@, p));
                assert forall|q: IVec2| 0 <= q.x < w && 0 <= q.y < h && q.y * w + q.x < y * w + x + 1 implies
                    #[trigger] buffers.current@[q.y * w + q.x] == composed_cell(&frame, vis@, light@, glyphs@, q) by {
                    if q.y * w + q.x == y * w + x {
                        lemma_index_injective(w as int, q.x as int, q.y as int, x as int, y as int);
                    }
                }
            }
            x += 1;
        }
        assert((y + 1) * w == y * w + w) by (nonlinear_arith);
        y += 1;
    }
    assert(h * w == w * h) by (nonlinear_arith);
    proof {
        assert forall|p: IVec2| #![trigger buffers.cell_at(p)] buffers.spec_is_valid(p) implies
            buffers.cell_at(p) == composed_cell(&*buffers, vis@, light@, glyphs@, p) by {
            lemma_index_in_bounds(w as int, h as int, p.x as int, p.y as int);
            assert(buffers.current@[p.y * w + p.x] == composed_cell(&frame, vis@, light@, glyphs@, p));
            lemma_drawn_cell_frame(&frame, &*buffers, vis@, glyphs@, buffers.spec_idx(p), glyphs@.len() as int);
            assert forall|d: IVec2| #![trigger known_background(&frame, vis@, glyphs@, p, d)] known_background(&frame, vis@, glyphs@, p, d) == known_background(&*buffers, vis@, glyphs@, p, d) by {
                let q = IVec2 { x: (p.x + d.x) as i32, y: (p.y + d.y) as i32 };
                lemma_drawn_cell_frame(&frame, &*buffers, vis@, glyphs@, frame.spec_idx(q), glyphs@.len() as int);
            }
        }
    }
}

/// The rendering of a glyph in a cell.
pub open spec fn render_of(g: GlyphAt) -> RenderCell {
    RenderCell { ch: g.glyph.ch, color: g.glyph.color, depth: g.glyph.depth }
}

/// Glyph `k` is drawable on cell `i`.
pub open spec fn drawable_on(b: &RenderBuffers, vis: Seq<Vis>, glyphs: Seq<GlyphAt>, i: int, k: int) -> bool {
    b.spec_is_valid(glyphs[k].pos) && b.spec_idx(glyphs[k].pos) == i && drawable(glyphs[k], vis_at(vis, i))
}

/// Deeper glyphs win: a drawn cell is blank or shows one of its drawable
/// glyphs, and no drawable glyph on it is deeper than what it shows.
pub proof fn law_deepest_glyph_wins(b: &RenderBuffers, vis: Seq<Vis>, glyphs: Seq<GlyphAt>, i: int, n: int)
    requires
        0 <= n <= glyphs.len(),
    ensures
        drawn_cell(b, vis, glyphs, i, n) == blank_cell()
            || exists|k: int| 0 <= k < n && drawable_on(b, vis, glyphs, i, k)
                && drawn_cell(b, vis, glyphs, i, n) == render_of(glyphs[k]),
        forall|k: int| 0 <= k < n && drawable_on(b, vis, glyphs, i, k)
            ==> glyphs[k].glyph.depth <= drawn_cell(b, vis, glyphs, i, n).depth,
    decreases n,
{
    if n > 0 {
        law_deepest_glyph_wins(b, vis, glyphs, i, n - 1);
        let prev = drawn_cell(b, vis, glyphs, i, n - 1);
        if drawable_on(b, vis, glyphs, i, n - 1) && prev.depth <= glyphs[n - 1].glyph.depth {
            assert(drawn_cell(b, vis, glyphs, i, n) == render_of(glyphs[n - 1]));
        } else if prev != blank_cell() {
            let k = choose|k: int| 0 <= k < n - 1 && drawable_on(b, vis, glyphs, i, k)
                && prev == render_of(glyphs[k]);
            assert(drawable_on(b, vis, glyphs, i, k));
        }
    }
}

/// On a cell that is known but not in view, moving actors are not drawn:
/// the drawn cell is blank or shows static scenery.
pub proof fn law_unseen_actors_are_hidden(b: &RenderBuffers, vis: Seq<Vis>, glyphs: Seq<GlyphAt>, i: int, n: int)
    requires
        0 <= n <= glyphs.len(),
        !vis_at(vis, i).is_visible(),
    ensures
        drawn_cell(b, vis, glyphs, i, n) == blank_cell()
            || exists|k: int| 0 <= k < n && !glyphs[k].moves && drawable_on(b, vis, glyphs, i, k)
                && drawn_cell(b, vis, glyphs, i, n) == render_of(glyphs[k]),
{
    law_deepest_glyph_wins(b, vis, glyphs, i, n);
}

/// An unexplored cell reveals nothing: it is blank or the `?` border mark.
pub proof fn law_unknown_cells_reveal_nothing(b: &RenderBuffers, vis: Seq<Vis>, light: Seq<LightCell>, glyphs: Seq<GlyphAt>, p: IVec2)
    requires
        !vis_at(vis, b.spec_idx(p)).is_known(),
        !vis_at(vis, b.spec_idx(p)).is_visible(),
    ensures
        composed_cell(b, vis, light, glyphs, p) == blank_cell()
            || composed_cell(b, vis, light, glyphs, p) == (RenderCell { ch: '?', color: DARK_RED, depth: 0 }),
{
    let i = b.spec_idx(p);
    law_deepest_glyph_wins(b, vis, glyphs, i, glyphs.len() as int);
}

proof fn lemma_unoccupied_cell_is_blank(b: &RenderBuffers, vis: Seq<Vis>, glyphs: Seq<GlyphAt>, q: IVec2, n: int)
    requires
        b.spec_is_valid(q),
        0 <= n <= glyphs.len(),
        forall|g: int| 0 <= g < glyphs.len() ==> (#[trigger] glyphs[g]).pos != q,
    ensures
        drawn_cell(b, vis, glyphs, b.spec_idx(q), n) == blank_cell(),
    decreases n,
{
    if n > 0 {
        lemma_unoccupied_cell_is_blank(b, vis, glyphs, q, n - 1);
        let p = glyphs[n - 1].pos;
        if b.spec_is_valid(p) && b.spec_idx(p) == b.spec_idx(q) {
            lemma_index_injective(b.width as int, p.x as int, p.y as int, q.x as int, q.y as int);
        }
    }
}

/// An unexplored cell next to explored empty floor is marked: when any of
/// its four orthogonal neighbours (above, left, right or below) lies on the
/// grid, is known, and has no glyph standing on it, the unknown cell is
/// drawn as `?` in dark red at depth 0.
pub proof fn law_unknown_cells_next_to_known_floor_are_marked(
    b: &RenderBuffers,
    vis: Seq<Vis>,
    light: Seq<LightCell>,
    glyphs: Seq<GlyphAt>,
    p: IVec2,
    dx: int,
    dy: int,
)
    requires
        b.spec_is_valid(p),
        (dx == 0 && (dy == 1 || dy == -1)) || (dy == 0 && (dx == 1 || dx == -1)),
        0 <= p.x + dx < b.width,
        0 <= p.y + dy < b.height,
        !vis_at(vis, b.spec_idx(p)).is_known(),
        vis_at(vis, (p.y + dy) * b.width + (p.x + dx)).is_known(),
        forall|g: int| 0 <= g < glyphs.len() ==> (#[trigger] glyphs[g]).pos != (IVec2 { x: (p.x + dx) as i32, y: (p.y + dy) as i32 }),
    ensures
        composed_cell(b, vis, light, glyphs, p) == (RenderCell { ch: '?', color: DARK_RED, depth: 0 }),
{
    let q = IVec2 { x: (p.x + dx) as i32, y: (p.y + dy) as i32 };
    lemma_unoccupied_cell_is_blank(b, vis, glyphs, q, glyphs.len() as int);
    let d = IVec2 { x: dx as i32, y: dy as i32 };
    assert(known_background(b, vis, glyphs, p, d));
}

/// Indices of the cells whose composed content differs from the previous
/// frame, in order.
pub fn changed_cells(buffers: &RenderBuffers) -> (r: Vec<usize>)
    requires
        buffers.wf(),
    ensures
        forall|k: int| 0 <= k < r@.len() ==> #[trigger] r@[k] < buffers.current@.len()
            && buffers.current@[r@[k] as int] != buffers.previous@[r@[k] as int],
        forall|i: int| 0 <= i < buffers.current@.len() && buffers.current@[i] != buffers.previous@[i]
            ==> r@.contains(i as usize),
        forall|a: int, b: int| 0 <= a < b < r@.len() ==> r@[a] < r@[b],
{
    let mut r: Vec<usize> = Vec::new();
    let n = buffers.current.len();
    let mut i: usize = 0;
    while i < n
        invariant
            buffers.wf(),
            n == buffers.current@.len(),
            i <= n,
            forall|k: int| 0 <= k < r@.len() ==> #[trigger] r@[k] < i
                && buffers.current@[r@[k] as int] != buffers.previous@[r@[k] as int],
            forall|j: int| 0 <= j < i && buffers.current@[j] != buffers.previous@[j] ==> r@.contains(j as usize),
            forall|a: int, b: int| 0 <= a < b < r@.len() ==> r@[a] < r@[b],
        decreases n - i,
    {
        let c = buffers.current[i];
        let p = buffers.previous[i];
        let ghost before = r@;
        if !(c.ch == p.ch && c.color == p.color && c.depth == p.depth) {
            r.push(i);
            proof {
                assert(r@[r@.len() - 1] == i);
            }
        }
        proof {
            assert forall|j: int| 0 <= j < i + 1 && buffers.current@[j] != buffers.previous@[j] implies r@.contains(j as usize) by {
                if j == i {
                    assert(c != p);
                    assert(r@[r@.len() - 1] == i);
                } else {
                    assert(before.contains(j as usize));
                    let k = choose|k: int| 0 <= k < before.len() && before[k] == j as usize;
                    assert(r@[k] == j as usize);
                }
            }
        }
        i += 1;
    }
    r
}

} // verus!
