use vstd::prelude::*;

use crate::move_generator::models::push_str;
use crate::text::{int_dec, push_int_dec};

verus! {

/// The score of a position, in centipawns from white's point of view, by component.
#[derive(Debug, Clone, Copy)]
pub struct Evaluation {
    pub material: i16,
    pub pst: i16,
    pub pawn_structure: i16,
    pub space: i16,
    pub king_dist: i16,
}

/// The quotient of an integer division that rounds toward zero, as Rust's `/` does.
pub open spec fn trunc_div(x: int, d: int) -> int {
    if x >= 0 {
        x / d
    } else {
        -((-x) / d)
    }
}

/// Scales a component by `factor` percent: `(x * factor / 100) as i16`.
pub open spec fn scaled(x: i16, factor: i32) -> i16 {
    trunc_div(x * factor, 100) as i16
}

/// Whether a component can be scaled by `factor` without overflowing `i32`.
pub open spec fn scale_fits(x: i16, factor: i32) -> bool {
    i32::MIN <= x * factor <= i32::MAX
}

/// Whether two evaluations can be added component by component within `i16`.
pub open spec fn add_fits(a: Evaluation, b: Evaluation) -> bool {
    &&& i16::MIN <= a.material + b.material <= i16::MAX
    &&& i16::MIN <= a.pst + b.pst <= i16::MAX
    &&& i16::MIN <= a.pawn_structure + b.pawn_structure <= i16::MAX
    &&& i16::MIN <= a.space + b.space <= i16::MAX
    &&& i16::MIN <= a.king_dist + b.king_dist <= i16::MAX
}

/// Whether one evaluation can be subtracted from another component by component within
/// `i16`.
pub open spec fn sub_fits(a: Evaluation, b: Evaluation) -> bool {
    &&& i16::MIN <= a.material - b.material <= i16::MAX
    &&& i16::MIN <= a.pst - b.pst <= i16::MAX
    &&& i16::MIN <= a.pawn_structure - b.pawn_structure <= i16::MAX
    &&& i16::MIN <= a.space - b.space <= i16::MAX
    &&& i16::MIN <= a.king_dist - b.king_dist <= i16::MAX
}

fn scale(x: i16, factor: i32) -> (res: i16)
    requires
        scale_fits(x, factor),
    ensures
        res == scaled(x, factor),
{
    let p: i32 = x as i32 * factor;
    let q: i32 = if p >= 0 {
        p / 100
    } else {
        let n: i64 = 0i64 - p as i64;
        (0i64 - n / 100) as i32
    };
    q as i16
}

/// The evaluation with every component equal to `v`.
pub open spec fn all_components(v: i16) -> Evaluation {
    Evaluation { material: v, pst: v, pawn_structure: v, space: v, king_dist: v }
}

impl Evaluation {
    /// The sum of the components.
    pub open spec fn spec_total(self) -> int {
        self.material + self.pst + self.pawn_structure + self.space + self.king_dist
    }

    /// The sum of the components.
    pub fn total(self) -> (res: i32)
        ensures
            res == self.spec_total(),
    {
        self.material as i32 + self.pst as i32 + self.pawn_structure as i32 + self.space as i32
            + self.king_dist as i32
    }

    /// The evaluation with every component zero.
    pub fn new() -> (res: Self)
        ensures
            res.material == 0 && res.pst == 0 && res.pawn_structure == 0 && res.space == 0
                && res.king_dist == 0,
    {
        Self { material: 0, pst: 0, pawn_structure: 0, space: 0, king_dist: 0 }
    }

    /// The evaluation with its positional components (piece-square tables, pawn structure,
    /// space) scaled by `factor` percent.
    pub open spec fn spec_with_positional_factor(self, factor: i32) -> Evaluation {
        Evaluation {
            material: self.material,
            pst: scaled(self.pst, factor),
            pawn_structure: scaled(self.pawn_structure, factor),
            space: scaled(self.space, factor),
            king_dist: self.king_dist,
        }
    }

    /// The evaluation with its positional components (piece-square tables, pawn structure,
    /// space) scaled by `factor` percent.
    pub fn with_positional_factor(self, factor: i32) -> (res: Self)
        requires
            scale_fits(self.pst, factor),
            scale_fits(self.pawn_structure, factor),
            scale_fits(self.space, factor),
        ensures
            res == self.spec_with_positional_factor(factor),
    {
        Self {
            material: self.material,
            pst: scale(self.pst, factor),
            pawn_structure: scale(self.pawn_structure, factor),
            space: scale(self.space, factor),
            king_dist: self.king_dist,
        }
    }

    /// The largest evaluation, every component at its maximum.
    pub fn max() -> (res: Evaluation)
        ensures
            res == (Evaluation { material: i16::MAX, pst: i16::MAX, pawn_structure: i16::MAX, space: i16::MAX, king_dist: i16::MAX }),
    {
        Evaluation { material: 32767, pst: 32767, pawn_structure: 32767, space: 32767, king_dist: 32767 }
    }

    /// The smallest evaluation, every component at its minimum.
    pub fn min() -> (res: Evaluation)
        ensures
            res == (Evaluation { material: i16::MIN, pst: i16::MIN, pawn_structure: i16::MIN, space: i16::MIN, king_dist: i16::MIN }),
    {
        Evaluation { material: -32768, pst: -32768, pawn_structure: -32768, space: -32768, king_dist: -32768 }
    }

    /// The largest material score, with nothing else.
    pub fn max_material() -> (res: Evaluation)
        ensures
            res == (Evaluation { material: i16::MAX, pst: 0, pawn_structure: 0, space: 0, king_dist: 0 }),
    {
        Evaluation { material: 32767, pst: 0, pawn_structure: 0, space: 0, king_dist: 0 }
    }

    /// The smallest material score, with nothing else.
    pub fn min_material() -> (res: Evaluation)
        ensures
            res == (Evaluation { material: i16::MIN, pst: 0, pawn_structure: 0, space: 0, king_dist: 0 }),
    {
        Evaluation { material: -32768, pst: 0, pawn_structure: 0, space: 0, king_dist: 0 }
    }

    pub open spec fn spec_add(self, rhs: Self) -> Self {
        Evaluation {
            material: (self.material + rhs.material) as i16,
            pst: (self.pst + rhs.pst) as i16,
            pawn_structure: (self.pawn_structure + rhs.pawn_structure) as i16,
            space: (self.space + rhs.space) as i16,
            king_dist: (self.king_dist + rhs.king_dist) as i16,
        }
    }

    pub open spec fn spec_sub(self, rhs: Self) -> Self {
        Evaluation {
            material: (self.material - rhs.material) as i16,
            pst: (self.pst - rhs.pst) as i16,
            pawn_structure: (self.pawn_structure - rhs.pawn_structure) as i16,
            space: (self.space - rhs.space) as i16,
            king_dist: (self.king_dist - rhs.king_dist) as i16,
        }
    }

    /// The component-wise sum.
    pub fn add(self, rhs: Self) -> (res: Self)
        requires
            add_fits(self, rhs),
        ensures
            res == self.spec_add(rhs),
            res.spec_total() == self.spec_total() + rhs.spec_total(),
    {
        Self {
            material: self.material + rhs.material,
            pst: self.pst + rhs.pst,
            pawn_structure: self.pawn_structure + rhs.pawn_structure,
            space: self.space + rhs.space,
            king_dist: self.king_dist + rhs.king_dist,
        }
    }

    /// Adds another evaluation, component by component.
    pub fn add_assign(&mut self, rhs: Self)
        requires
            add_fits(*old(self), rhs),
        ensures
            *final(self) == old(self).spec_add(rhs),
    {
        self.material = self.material + rhs.material;
        self.pst = self.pst + rhs.pst;
        self.pawn_structure = self.pawn_structure + rhs.pawn_structure;
        self.space = self.space + rhs.space;
        self.king_dist = self.king_dist + rhs.king_dist;
    }

    /// The component-wise difference.
    pub fn sub(self, rhs: Self) -> (res: Self)
        requires
            sub_fits(self, rhs),
        ensures
            res == self.spec_sub(rhs),
            res.spec_total() == self.spec_total() - rhs.spec_total(),
    {
        Self {
            material: self.material - rhs.material,
            pst: self.pst - rhs.pst,
            pawn_structure: self.pawn_structure - rhs.pawn_structure,
            space: self.space - rhs.space,
            king_dist: self.king_dist - rhs.king_dist,
        }
    }

    /// Subtracts another evaluation, component by component.
    pub fn sub_assign(&mut self, rhs: Self)
        requires
            sub_fits(*old(self), rhs),
        ensures
            *final(self) == old(self).spec_sub(rhs),
    {
        self.material = self.material - rhs.material;
        self.pst = self.pst - rhs.pst;
        self.pawn_structure = self.pawn_structure - rhs.pawn_structure;
        self.space = self.space - rhs.space;
        self.king_dist = self.king_dist - rhs.king_dist;
    }

    /// Compares two evaluations by their totals: `-1`, `0` or `1`.
    pub fn compare(&self, other: &Self) -> (res: i8)
        ensures
            res == -1 <==> self.spec_total() < other.spec_total(),
            res == 0 <==> self.spec_total() == other.spec_total(),
            res == 1 <==> self.spec_total() > other.spec_total(),
    {
        let a = self.total();
        let b = other.total();
        if a < b {
            -1
        } else if a == b {
            0
        } else {
            1
        }
    }
}

/// An evaluation as text, component by component with the total.
pub open spec fn evaluation_text(e: Evaluation) -> Seq<char> {
    "material: "@ + int_dec(e.material as int) + ", piece-square tables: "@ + int_dec(
        e.pst as int,
    ) + ", pawn structure: "@ + int_dec(e.pawn_structure as int) + ", space: "@ + int_dec(
        e.space as int,
    ) + ", king distance: "@ + int_dec(e.king_dist as int) + ", TOTAL: "@ + int_dec(
        e.spec_total(),
    )
}

impl Evaluation {
    /// The evaluation as text, component by component with the total.
    pub fn to_string(&self) -> (res: String)
        ensures
            res@ == evaluation_text(*self),
    {
        let mut s = String::new();
        push_str(&mut s, "material: ");
        push_int_dec(&mut s, self.material as i32);
        push_str(&mut s, ", piece-square tables: ");
        push_int_dec(&mut s, self.pst as i32);
        push_str(&mut s, ", pawn structure: ");
        push_int_dec(&mut s, self.pawn_structure as i32);
        push_str(&mut s, ", space: ");
        push_int_dec(&mut s, self.space as i32);
        push_str(&mut s, ", king distance: ");
        push_int_dec(&mut s, self.king_dist as i32);
        push_str(&mut s, ", TOTAL: ");
        push_int_dec(&mut s, self.total());
        assert(s@ =~= evaluation_text(*self));
        s
    }
}

} // verus!
