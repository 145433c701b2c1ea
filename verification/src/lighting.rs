//! Light accumulation and palettes.
//!
//! Merge rules: a light reaches cells within `(radius + 1)^2` squared
//! distance; lights of the same kind add with saturation at 255; a light of
//! a different kind takes a cell only when strictly brighter. A light value
//! maps to a palette entry through `table[len * value / 256]`.
use vstd::prelude::*;

verus! {

/// Kind of light; kinds are disjoint bit flags (`Neutral` has no bit).
#[derive(Clone, Copy, Debug, PartialEq, Eq, Structural)]
pub enum LightKind {
    Neutral,
    Fire,
    Electricity,
    Acid,
}

impl LightKind {
    pub open spec fn spec_bits(self) -> u8 {
        match self {
            LightKind::Neutral => 0,
            LightKind::Fire => 1,
            LightKind::Electricity => 2,
            LightKind::Acid => 4,
        }
    }

    pub fn bits(self) -> (r: u8)
        ensures
            r == self.spec_bits(),
    {
        match self {
            LightKind::Neutral => 0,
            LightKind::Fire => 1,
            LightKind::Electricity => 2,
            LightKind::Acid => 4,
        }
    }

    pub open spec fn spec_overlaps(self, other: LightKind) -> bool {
        self.spec_bits() & other.spec_bits() != 0
    }

    /// The two kinds share a bit.
    pub fn overlaps(self, other: LightKind) -> (r: bool)
        ensures
            r == self.spec_overlaps(other),
    {
        (self.bits() & other.bits()) != 0
    }
}

/// Kinds overlap exactly when they are the same non-neutral kind.
pub proof fn law_overlap_is_same_kind(a: LightKind, b: LightKind)
    ensures
        a.spec_overlaps(b) <==> (a == b && a != LightKind::Neutral),
{
    let x = a.spec_bits();
    let y = b.spec_bits();
    assert((x & y != 0) <==> (x == y && x != 0)) by (bit_vector)
        requires
            x == 0 || x == 1 || x == 2 || x == 4,
            y == 0 || y == 1 || y == 2 || y == 4;
}

/// Light source emitter: radius, kind and base brightness.
#[derive(Clone, Copy, Debug, PartialEq, Eq, Structural)]
pub struct LightSource {
    pub radius: i32,
    pub kind: LightKind,
    pub value: u8,
}

/// Accumulated light of one cell.
#[derive(Clone, Copy, Debug, PartialEq, Eq, Structural)]
pub struct LightCell {
    pub value: u8,
    pub kind: LightKind,
}

impl LightCell {
    /// Unlit: zero value, neutral kind.
    pub fn dark() -> (r: LightCell)
        ensures
            r.value == 0,
            r.kind == LightKind::Neutral,
    {
        LightCell { value: 0, kind: LightKind::Neutral }
    }
}

/// Context of one contributing light: its centre, the squared reach
/// `(radius + 1)^2`, its base brightness and kind.
#[derive(Clone, Copy, Debug, PartialEq, Eq, Structural)]
pub struct LightContext {
    pub center_x: i32,
    pub center_y: i32,
    pub radius_sq: i32,
    pub base_value: u8,
    pub kind: LightKind,
}

impl LightContext {
    pub fn new(center: (i32, i32), radius: i32, base_value: u8, kind: LightKind) -> (r: LightContext)
        requires
            i32::MIN <= radius + 1 <= i32::MAX,
            (radius + 1) * (radius + 1) <= i32::MAX,
        ensures
            r.center_x == center.0,
            r.center_y == center.1,
            r.radius_sq == (radius + 1) * (radius + 1),
            r.base_value == base_value,
            r.kind == kind,
    {
        let r1 = radius + 1;
        assert(r1 * r1 >= 0) by (nonlinear_arith);
        LightContext { center_x: center.0, center_y: center.1, radius_sq: r1 * r1, base_value, kind }
    }

    /// Squared distance of `(x, y)` from the centre.
    pub open spec fn spec_distance_sq(&self, x: i32, y: i32) -> int {
        (x - self.center_x) * (x - self.center_x) + (y - self.center_y) * (y - self.center_y)
    }

    /// The squared distance is computable in `i32`.
    pub open spec fn distance_fits(&self, x: i32, y: i32) -> bool {
        &&& i32::MIN <= x - self.center_x <= i32::MAX
        &&& i32::MIN <= y - self.center_y <= i32::MAX
        &&& self.spec_distance_sq(x, y) <= i32::MAX
    }

    pub fn distance_sq(&self, x: i32, y: i32) -> (r: i32)
        requires
            self.distance_fits(x, y),
        ensures
            r == self.spec_distance_sq(x, y),
    {
        let dx = x - self.center_x;
        let dy = y - self.center_y;
        assert(0 <= dx * dx && 0 <= dy * dy) by (nonlinear_arith);
        dx * dx + dy * dy
    }

    /// Whether the light reaches `(x, y)`.
    pub fn reaches(&self, x: i32, y: i32) -> (r: bool)
        requires
            self.distance_fits(x, y),
        ensures
            r == (self.spec_distance_sq(x, y) <= self.radius_sq),
    {
        self.distance_sq(x, y) <= self.radius_sq
    }
}

/// The cell after merging `amount` of light of `kind` into `target`.
pub open spec fn merged(target: LightCell, amount: u8, kind: LightKind) -> LightCell {
    if target.kind.spec_overlaps(kind) {
        LightCell { value: if target.value + amount > 255 { 255 } else { (target.value + amount) as u8 }, kind: target.kind }
    } else if amount > target.value {
        LightCell { value: amount, kind }
    } else {
        target
    }
}

/// Merge `amount` of light of `kind` into `target`: same kinds add with
/// saturation; a different kind replaces the cell only when brighter.
pub fn merge_amount(target: &mut LightCell, amount: u8, kind: LightKind)
    ensures
        *final(target) == merged(*old(target), amount, kind),
{
    if target.kind.overlaps(kind) {
        target.value = target.value.saturating_add(amount);
    } else if amount > target.value {
        target.value = amount;
        target.kind = kind;
    }
}

/// Same-kind light accumulates and saturates at 255.
pub proof fn law_same_kind_saturates(target: LightCell, amount: u8)
    requires
        target.kind != LightKind::Neutral,
    ensures
        merged(target, amount, target.kind).value == if target.value + amount > 255 { 255 } else { target.value + amount },
        merged(target, amount, target.kind).kind == target.kind,
{
    law_overlap_is_same_kind(target.kind, target.kind);
}

/// A different kind of light takes a cell only when strictly brighter, and
/// a merge never dims a cell.
pub proof fn law_different_kind_wins_only_when_brighter(target: LightCell, amount: u8, kind: LightKind)
    requires
        kind != target.kind || kind == LightKind::Neutral,
    ensures
        merged(target, amount, kind) == if amount > target.value { LightCell { value: amount, kind } } else { target },
        merged(target, amount, kind).value >= target.value,
{
    law_overlap_is_same_kind(target.kind, kind);
}

pub const BLACK: u8 = 0;
pub const DARK_BLUE: u8 = 1;
pub const DARK_GREEN: u8 = 2;
pub const DARK_CYAN: u8 = 3;
pub const DARK_RED: u8 = 4;
pub const DARK_MAGENTA: u8 = 5;
pub const DARK_YELLOW: u8 = 6;
pub const GRAY: u8 = 7;
pub const DARK_GRAY: u8 = 8;
pub const BLUE: u8 = 9;
pub const GREEN: u8 = 10;
pub const CYAN: u8 = 11;
pub const RED: u8 = 12;
pub const MAGENTA: u8 = 13;
pub const YELLOW: u8 = 14;
pub const WHITE: u8 = 15;

/// Fire ramp: seven dark yellows, eight yellows, white.
pub open spec fn fire_ramp() -> Seq<u8> {
    seq![DARK_YELLOW, DARK_YELLOW, DARK_YELLOW, DARK_YELLOW, DARK_YELLOW, DARK_YELLOW, DARK_YELLOW,
        YELLOW, YELLOW, YELLOW, YELLOW, YELLOW, YELLOW, YELLOW, YELLOW, WHITE]
}

pub open spec fn electricity_ramp() -> Seq<u8> {
    seq![DARK_BLUE, DARK_CYAN, BLUE, CYAN]
}

pub open spec fn acid_ramp() -> Seq<u8> {
    seq![DARK_GREEN, GREEN]
}

/// Neutral ramp: dark gray, thirteen grays, white.
pub open spec fn neutral_ramp() -> Seq<u8> {
    seq![DARK_GRAY, GRAY, GRAY, GRAY, GRAY, GRAY, GRAY, GRAY, GRAY, GRAY, GRAY, GRAY, GRAY, GRAY, WHITE]
}

fn fire_table() -> (r: [u8; 16])
    ensures
        r@ == fire_ramp(),
{
    let r = [DARK_YELLOW, DARK_YELLOW, DARK_YELLOW, DARK_YELLOW, DARK_YELLOW, DARK_YELLOW, DARK_YELLOW,
        YELLOW, YELLOW, YELLOW, YELLOW, YELLOW, YELLOW, YELLOW, YELLOW, WHITE];
    assert(r@ =~= fire_ramp());
    r
}

fn electricity_table() -> (r: [u8; 4])
    ensures
        r@ == electricity_ramp(),
{
    let r = [DARK_BLUE, DARK_CYAN, BLUE, CYAN];
    assert(r@ =~= electricity_ramp());
    r
}

fn acid_table() -> (r: [u8; 2])
    ensures
        r@ == acid_ramp(),
{
    let r = [DARK_GREEN, GREEN];
    assert(r@ =~= acid_ramp());
    r
}

fn neutral_table() -> (r: [u8; 15])
    ensures
        r@ == neutral_ramp(),
{
    let r = [DARK_GRAY, GRAY, GRAY, GRAY, GRAY, GRAY, GRAY, GRAY, GRAY, GRAY, GRAY, GRAY, GRAY, GRAY, WHITE];
    assert(r@ =~= neutral_ramp());
    r
}

pub open spec fn spec_by_rate(table: Seq<u8>, value: u8) -> u8 {
    table[table.len() * value / 256]
}

/// The table entry for a brightness: `table[len * value / 256]`.
pub fn by_rate(table: &[u8], value: u8) -> (r: u8)
    requires
        table@.len() > 0,
        table@.len() * 256 <= usize::MAX,
    ensures
        r == spec_by_rate(table@, value),
{
    let len = table.len();
    assert(len * value <= len * 255) by (nonlinear_arith) requires value <= 255;
    assert(len * value / 256 < len) by (nonlinear_arith) requires len * value <= len * 255, len > 0;
    table[len * (value as usize) / 256]
}

pub open spec fn spec_light_to_palette(cell: LightCell) -> u8 {
    if cell.value == 0 {
        BLACK
    } else {
        match cell.kind {
            LightKind::Fire => spec_by_rate(fire_ramp(), cell.value),
            LightKind::Electricity => spec_by_rate(electricity_ramp(), cell.value),
            LightKind::Acid => spec_by_rate(acid_ramp(), cell.value),
            LightKind::Neutral => spec_by_rate(neutral_ramp(), cell.value),
        }
    }
}

/// Palette index of a lit cell: black when unlit, else the kind's ramp.
pub fn light_to_palette(cell: &LightCell) -> (r: u8)
    ensures
        r == spec_light_to_palette(*cell),
        r < 16,
{
    if cell.value == 0 {
        return BLACK;
    }
    let r = match cell.kind {
        LightKind::Fire => by_rate(fire_table().as_slice(), cell.value),
        LightKind::Electricity => by_rate(electricity_table().as_slice(), cell.value),
        LightKind::Acid => by_rate(acid_table().as_slice(), cell.value),
        LightKind::Neutral => by_rate(neutral_table().as_slice(), cell.value),
    };
    proof {
        let v = cell.value;
        assert(16 * v / 256 < 16 && 4 * v / 256 < 4 && 2 * v / 256 < 2 && 15 * v / 256 < 15) by (nonlinear_arith)
            requires v <= 255;
    }
    r
}

/// Each light kind is coloured from its own ramp, brighter light never
/// taking a darker entry: unlit cells are black; fire is dark yellow below
/// 112, yellow below 240, then white; electricity runs dark blue, dark
/// cyan, blue, cyan in quarters of 64; acid is dark green below 128, then
/// green; neutral light is dark gray up to 17, white from 239, gray between.
pub proof fn law_each_kind_has_its_own_ramp(value: u8)
    ensures
        forall|kind: LightKind| #[trigger] spec_light_to_palette(LightCell { value: 0, kind }) == BLACK,
        value > 0 ==> spec_light_to_palette(LightCell { value, kind: LightKind::Fire })
            == if value < 112 { DARK_YELLOW } else if value < 240 { YELLOW } else { WHITE },
        value > 0 ==> spec_light_to_palette(LightCell { value, kind: LightKind::Electricity })
            == if value < 64 { DARK_BLUE } else if value < 128 { DARK_CYAN } else if value < 192 { BLUE } else { CYAN },
        value > 0 ==> spec_light_to_palette(LightCell { value, kind: LightKind::Acid })
            == if value < 128 { DARK_GREEN } else { GREEN },
        value > 0 ==> spec_light_to_palette(LightCell { value, kind: LightKind::Neutral })
            == if value <= 17 { DARK_GRAY } else if value >= 239 { WHITE } else { GRAY },
{
    let v = value as int;
    assert(16 * v / 256 == v / 16);
    assert(v < 112 <==> v / 16 < 7);
    assert(v < 240 <==> v / 16 < 15);
    assert(v < 64 <==> 4 * v / 256 == 0);
    assert(64 <= v < 128 <==> 4 * v / 256 == 1);
    assert(128 <= v < 192 <==> 4 * v / 256 == 2);
    assert(192 <= v <==> 4 * v / 256 == 3) by { assert(v <= 255); }
    assert(v < 128 <==> 2 * v / 256 == 0);
    assert(v <= 17 <==> 15 * v / 256 == 0);
    assert(v >= 239 <==> 15 * v / 256 == 14) by { assert(v <= 255); }
    assert(0 <= 15 * v / 256 <= 14) by { assert(v <= 255); }
}

/// The static light layer, the flag that it must be rebuilt, and the field
/// revisions of the static sources it was built from.
#[derive(Debug)]
pub struct StaticLight {
    pub width: i32,
    pub height: i32,
    pub data: Vec<LightCell>,
    pub dirty: bool,
    pub last_seen_revisions: Vec<(crate::geometry::EntityId, u64)>,
    pub current_revisions: Vec<(crate::geometry::EntityId, u64)>,
}

impl StaticLight {
    /// A 1x1 dark layer, marked for rebuilding.
    pub fn new() -> (r: StaticLight)
        ensures
            r.width == 1,
            r.height == 1,
            r.data@ == seq![LightCell { value: 0, kind: LightKind::Neutral }],
            r.dirty,
            r.last_seen_revisions@.len() == 0,
            r.current_revisions@.len() == 0,
    {
        let mut data: Vec<LightCell> = Vec::new();
        data.push(LightCell::dark());
        StaticLight { width: 1, height: 1, data, dirty: true, last_seen_revisions: Vec::new(), current_revisions: Vec::new() }
    }

    /// Resize to a dark `width` x `height` layer (each at least 1), marked
    /// for rebuilding, forgetting the revisions it was built from.
    pub fn resize(&mut self, width: i32, height: i32)
        requires
            crate::grid::at_least_one(width) * crate::grid::at_least_one(height) <= i32::MAX,
        ensures
            final(self).width == crate::grid::at_least_one(width),
            final(self).height == crate::grid::at_least_one(height),
            final(self).data@.len() == final(self).width * final(self).height,
            forall|i: int| 0 <= i < final(self).data@.len() ==> #[trigger] final(self).data@[i] == (LightCell { value: 0, kind: LightKind::Neutral }),
            final(self).dirty,
            final(self).last_seen_revisions@.len() == 0,
            final(self).current_revisions@.len() == 0,
    {
        let w: i32 = if width < 1 { 1 } else { width };
        let h: i32 = if height < 1 { 1 } else { height };
        assert(w * h >= 1) by (nonlinear_arith) requires w >= 1, h >= 1;
        self.width = w;
        self.height = h;
        self.data = vec![LightCell::dark(); (w * h) as usize];
        self.dirty = true;
        self.last_seen_revisions.clear();
        self.current_revisions.clear();
    }

    /// Take this frame's static source revisions and decide whether the
    /// layer is rebuilt: when it is dirty, the revisions differ from those it
    /// was built from, or a source changed. On a rebuild the layer becomes
    /// clean, is built from the new revisions (the old ones are kept as the
    /// current list) and every cell is reset to a faint neutral glow, ready
    /// for the sources to be blended in. Otherwise only the current list is
    /// replaced.
    pub fn sync_sources(&mut self, current: Vec<(crate::geometry::EntityId, u64)>, source_changed: bool) -> (r: bool)
        ensures
            r == (old(self).dirty || current@ != old(self).last_seen_revisions@ || source_changed),
            final(self).width == old(self).width,
            final(self).height == old(self).height,
            final(self).data@.len() == old(self).data@.len(),
            r ==> {
                &&& !final(self).dirty
                &&& final(self).last_seen_revisions@ == current@
                &&& final(self).current_revisions@ == old(self).last_seen_revisions@
                &&& forall|i: int| 0 <= i < final(self).data@.len() ==>
                    #[trigger] final(self).data@[i] == (LightCell { value: 1, kind: LightKind::Neutral })
            },
            !r ==> {
                &&& final(self).dirty == old(self).dirty
                &&& final(self).last_seen_revisions@ == old(self).last_seen_revisions@
                &&& final(self).current_revisions@ == current@
                &&& final(self).data@ == old(self).data@
            },
    {
        self.current_revisions = current;
        let rebuild = crate::vision::static_light_needs_rebuild(
            self.dirty,
            &self.current_revisions,
            &self.last_seen_revisions,
            source_changed,
        );
        if !rebuild {
            return false;
        }
        self.dirty = false;
        std::mem::swap(&mut self.last_seen_revisions, &mut self.current_revisions);
        let n = self.data.len();
        let ghost before = *self;
        let mut i: usize = 0;
        while i < n
            invariant
                self.width == before.width,
                self.height == before.height,
                !self.dirty,
                self.last_seen_revisions@ == before.last_seen_revisions@,
                self.current_revisions@ == before.current_revisions@,
                self.data@.len() == n,
                i <= n,
                forall|j: int| 0 <= j < i ==> #[trigger] self.data@[j] == (LightCell { value: 1, kind: LightKind::Neutral }),
            decreases n - i,
        {
            self.data.set(i, LightCell { value: 1, kind: LightKind::Neutral });
            i += 1;
        }
        true
    }
}

} // verus!
