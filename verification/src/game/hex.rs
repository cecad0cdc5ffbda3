//! Axial hex coordinates.

use vstd::prelude::*;

verus! {

/// A cell of the hex grid in axial coordinates `(q, r)`; the third cube
/// coordinate is `s = -q - r`.
#[derive(Clone, Copy, Debug, PartialEq, Eq, Hash, Structural)]
pub struct Hex(pub i32, pub i32);

/// Absolute value of an integer.
pub open spec fn abs_int(x: int) -> int {
    if x < 0 { -x } else { x }
}

/// Largest of three integers.
pub open spec fn max3(a: int, b: int, c: int) -> int {
    if a >= b && a >= c { a } else if b >= c { b } else { c }
}

/// The three axis directions, in the order `Hex::axes` returns them.
pub open spec fn axes_spec() -> Seq<Hex> {
    seq![Hex(1, 0), Hex(0, 1), Hex(1, -1i32)]
}

/// The hex (cube) distance between `a` and `b`.
pub open spec fn hex_dist(a: Hex, b: Hex) -> int {
    let dq = a.0 - b.0;
    let dr = a.1 - b.1;
    let ds = (-a.0 - a.1) - (-b.0 - b.1);
    max3(abs_int(dq), abs_int(dr), abs_int(ds))
}

/// `x` fits in `i32`.
pub open spec fn fits_i32(x: int) -> bool {
    i32::MIN <= x <= i32::MAX
}

/// An `i32` value whose negation is again an `i32`.
pub open spec fn negatable(x: int) -> bool {
    -0x7fff_ffff <= x <= 0x7fff_ffff
}

/// Every intermediate value of `Hex::distance(a, b)` fits in `i32`
/// (and no absolute value of `i32::MIN` is taken).
pub open spec fn distance_defined(a: Hex, b: Hex) -> bool {
    &&& negatable(a.0 - b.0)
    &&& negatable(a.1 - b.1)
    &&& negatable(a.0 as int)
    &&& negatable(b.0 as int)
    &&& fits_i32(-a.0 - a.1)
    &&& fits_i32(-b.0 - b.1)
    &&& negatable((-a.0 - a.1) - (-b.0 - b.1))
}

impl Hex {
    pub open spec fn spec_add(self, rhs: Hex) -> Hex {
        Hex((self.0 + rhs.0) as i32, (self.1 + rhs.1) as i32)
    }

    pub open spec fn spec_sub(self, rhs: Hex) -> Hex {
        Hex((self.0 - rhs.0) as i32, (self.1 - rhs.1) as i32)
    }

    pub fn new(q: i32, r: i32) -> (h: Self)
        ensures
            h == Hex(q, r),
    {
        Self(q, r)
    }

    /// The centre cell.
    pub fn origin() -> (h: Self)
        ensures
            h == Hex(0, 0),
    {
        Self(0, 0)
    }

    /// The three line directions of the grid, one per axis.
    pub fn axes() -> (a: [Self; 3])
        ensures
            a@ == axes_spec(),
    {
        [Self::new(1, 0), Self::new(0, 1), Self::new(1, -1)]
    }

    /// The six neighbour directions, counter-clockwise from `(1, 0)`.
    pub fn directions() -> (d: [Self; 6])
        ensures
            d@ == seq![Hex(1, 0), Hex(1, -1i32), Hex(0, -1i32), Hex(-1i32, 0), Hex(-1i32, 1), Hex(0, 1)],
    {
        [
            Self::new(1, 0),
            Self::new(1, -1),
            Self::new(0, -1),
            Self::new(-1, 0),
            Self::new(-1, 1),
            Self::new(0, 1),
        ]
    }

    /// The hex distance: the largest of the three cube-coordinate differences.
    pub fn distance(self, rhs: Hex) -> (d: i32)
        requires
            distance_defined(self, rhs),
        ensures
            d == hex_dist(self, rhs),
    {
        let dq = self.0 - rhs.0;
        let dr = self.1 - rhs.1;
        let ds = (-self.0 - self.1) - (-rhs.0 - rhs.1);
        let adq = if dq < 0 { -dq } else { dq };
        let adr = if dr < 0 { -dr } else { dr };
        let ads = if ds < 0 { -ds } else { ds };
        let m = if adq >= adr { adq } else { adr };
        if m >= ads { m } else { ads }
    }
}

/// The sum `a + b` fits in `i32` coordinate by coordinate.
pub open spec fn add_defined(a: Hex, b: Hex) -> bool {
    i32::MIN <= a.0 + b.0 <= i32::MAX && i32::MIN <= a.1 + b.1 <= i32::MAX
}

/// The difference `a - b` fits in `i32` coordinate by coordinate.
pub open spec fn sub_defined(a: Hex, b: Hex) -> bool {
    i32::MIN <= a.0 - b.0 <= i32::MAX && i32::MIN <= a.1 - b.1 <= i32::MAX
}

impl std::ops::Add for Hex {
    type Output = Self;

    fn add(self, rhs: Self) -> (h: Self::Output) {
        Self(self.0 + rhs.0, self.1 + rhs.1)
    }
}

impl vstd::std_specs::ops::AddSpecImpl for Hex {
    open spec fn obeys_add_spec() -> bool {
        true
    }

    open spec fn add_req(self, rhs: Hex) -> bool {
        add_defined(self, rhs)
    }

    open spec fn add_spec(self, rhs: Hex) -> Hex {
        self.spec_add(rhs)
    }
}

impl std::ops::Sub for Hex {
    type Output = Self;

    fn sub(self, rhs: Self) -> (h: Self::Output) {
        Self(self.0 - rhs.0, self.1 - rhs.1)
    }
}

impl vstd::std_specs::ops::SubSpecImpl for Hex {
    open spec fn obeys_sub_spec() -> bool {
        true
    }

    open spec fn sub_req(self, rhs: Hex) -> bool {
        sub_defined(self, rhs)
    }

    open spec fn sub_spec(self, rhs: Hex) -> Hex {
        self.spec_sub(rhs)
    }
}

/// The hex distance is a metric: zero exactly between equal cells, symmetric,
/// and obeying the triangle inequality.
pub proof fn lemma_distance_metric(a: Hex, b: Hex, c: Hex)
    ensures
        hex_dist(a, b) >= 0,
        hex_dist(a, b) == 0 <==> a == b,
        hex_dist(a, b) == hex_dist(b, a),
        hex_dist(a, c) <= hex_dist(a, b) + hex_dist(b, c),
{
}

/// Each of the six directions leads to a cell at distance one, and so does
/// each axis direction.
pub proof fn lemma_neighbours_at_distance_one(h: Hex, d: Hex)
    requires
        add_defined(h, d),
        axes_spec().contains(d) || seq![Hex(1, 0), Hex(1, -1i32), Hex(0, -1i32), Hex(-1i32, 0), Hex(-1i32, 1), Hex(0, 1)].contains(d),
    ensures
        hex_dist(h, h.spec_add(d)) == 1,
{
}

/// Subtracting what was added gives back the starting cell.
pub proof fn lemma_add_then_sub(a: Hex, b: Hex)
    requires
        add_defined(a, b),
    ensures
        a.spec_add(b).spec_sub(b) == a,
{
}

} // verus!
