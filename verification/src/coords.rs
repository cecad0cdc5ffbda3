//! Axial hex coordinates with named fields, as used by turn records.

use vstd::prelude::*;
use crate::game::hex::{abs_int, hex_dist};
use crate::text::{decimal, push_decimal, string_from_chars};

verus! {

/// A cell of the hex grid in axial coordinates; the third cube coordinate is `-q - r`.
#[derive(Clone, Copy, PartialEq, Eq, Hash, Debug, PartialOrd, Ord, Structural)]
pub struct Hex {
    pub q: i32,
    pub r: i32,
}

/// The hex distance written as half the sum of the three coordinate differences.
pub open spec fn coords_dist(a: Hex, b: Hex) -> int {
    let dq = a.q - b.q;
    let dr = a.r - b.r;
    (abs_int(dq) + abs_int(dr) + abs_int(dq + dr)) / 2
}

/// Every intermediate value of `Hex::distance(a, b)` fits in `i32`.
pub open spec fn coords_distance_defined(a: Hex, b: Hex) -> bool {
    let dq = a.q - b.q;
    let dr = a.r - b.r;
    &&& i32::MIN < dq <= i32::MAX
    &&& i32::MIN < dr <= i32::MAX
    &&& i32::MIN < dq + dr <= i32::MAX
    &&& abs_int(dq) + abs_int(dr) + abs_int(dq + dr) <= i32::MAX
}

impl Hex {
    pub fn new(q: i32, r: i32) -> (h: Self)
        ensures
            h == (Hex { q, r }),
    {
        Self { q, r }
    }

    /// The origin.
    pub fn zero() -> (h: Self)
        ensures
            h == (Hex { q: 0, r: 0 }),
    {
        Self { q: 0, r: 0 }
    }

    /// The six neighbour directions, counter-clockwise from `(1, 0)`.
    pub fn directions() -> (d: [Hex; 6])
        ensures
            d@ == seq![
                Hex { q: 1, r: 0 },
                Hex { q: 1, r: -1i32 },
                Hex { q: 0, r: -1i32 },
                Hex { q: -1i32, r: 0 },
                Hex { q: -1i32, r: 1 },
                Hex { q: 0, r: 1 },
            ],
    {
        [
            Hex { q: 1, r: 0 },
            Hex { q: 1, r: -1 },
            Hex { q: 0, r: -1 },
            Hex { q: -1, r: 0 },
            Hex { q: -1, r: 1 },
            Hex { q: 0, r: 1 },
        ]
    }

    /// The three axes, each as a pair of opposite directions: horizontal,
    /// diagonal `\` and diagonal `/`.
    pub fn axes() -> (a: [(Hex, Hex); 3])
        ensures
            a@ == seq![
                (Hex { q: 1, r: 0 }, Hex { q: -1i32, r: 0 }),
                (Hex { q: 0, r: 1 }, Hex { q: 0, r: -1i32 }),
                (Hex { q: 1, r: -1i32 }, Hex { q: -1i32, r: 1 }),
            ],
    {
        [
            (Hex { q: 1, r: 0 }, Hex { q: -1, r: 0 }),
            (Hex { q: 0, r: 1 }, Hex { q: 0, r: -1 }),
            (Hex { q: 1, r: -1 }, Hex { q: -1, r: 1 }),
        ]
    }

    /// The cube coordinates as text: `"(q, r, s)"` with `s = -q - r`.
    pub fn to_string(&self) -> (s: String)
        requires
            self.q > i32::MIN,
            i32::MIN <= -self.q - self.r <= i32::MAX,
        ensures
            s@ == seq!['('] + decimal(self.q as int) + seq![',', ' '] + decimal(self.r as int) + seq![',', ' ']
                + decimal(-self.q - self.r) + seq![')'],
    {
        let s3: i32 = -self.q - self.r;
        let mut out: Vec<char> = Vec::new();
        out.push('(');
        push_decimal(&mut out, self.q as i64);
        out.push(',');
        out.push(' ');
        push_decimal(&mut out, self.r as i64);
        out.push(',');
        out.push(' ');
        push_decimal(&mut out, s3 as i64);
        out.push(')');
        proof {
            assert(out@ =~= seq!['('] + decimal(self.q as int) + seq![',', ' '] + decimal(self.r as int) + seq![',', ' ']
                + decimal(-self.q - self.r) + seq![')']);
        }
        string_from_chars(&out)
    }

    /// The hex distance: half the sum of the absolute coordinate differences.
    pub fn distance(&self, other: &Self) -> (d: i32)
        requires
            coords_distance_defined(*self, *other),
        ensures
            d == coords_dist(*self, *other),
    {
        let dq = self.q - other.q;
        let dr = self.r - other.r;
        let ds = dq + dr;
        let adq = if dq < 0 { -dq } else { dq };
        let adr = if dr < 0 { -dr } else { dr };
        let ads = if ds < 0 { -ds } else { ds };
        (adq + adr + ads) / 2
    }
}

/// Both coordinate sums of `a + b` fit in `i32`.
pub open spec fn coords_add_defined(a: Hex, b: Hex) -> bool {
    i32::MIN <= a.q + b.q <= i32::MAX && i32::MIN <= a.r + b.r <= i32::MAX
}

/// Both coordinate differences of `a - b` fit in `i32`.
pub open spec fn coords_sub_defined(a: Hex, b: Hex) -> bool {
    i32::MIN <= a.q - b.q <= i32::MAX && i32::MIN <= a.r - b.r <= i32::MAX
}

/// Both coordinate products of `a * k` fit in `i32`.
pub open spec fn coords_mul_defined(a: Hex, k: i32) -> bool {
    i32::MIN <= a.q * k <= i32::MAX && i32::MIN <= a.r * k <= i32::MAX
}

impl std::ops::Add for Hex {
    type Output = Self;

    fn add(self, other: Self) -> (h: Self) {
        Self { q: self.q + other.q, r: self.r + other.r }
    }
}

impl vstd::std_specs::ops::AddSpecImpl for Hex {
    open spec fn obeys_add_spec() -> bool {
        true
    }

    open spec fn add_req(self, rhs: Hex) -> bool {
        coords_add_defined(self, rhs)
    }

    open spec fn add_spec(self, rhs: Hex) -> Hex {
        Hex { q: (self.q + rhs.q) as i32, r: (self.r + rhs.r) as i32 }
    }
}

impl std::ops::Sub for Hex {
    type Output = Self;

    fn sub(self, other: Self) -> (h: Self) {
        Self { q: self.q - other.q, r: self.r - other.r }
    }
}

impl vstd::std_specs::ops::SubSpecImpl for Hex {
    open spec fn obeys_sub_spec() -> bool {
        true
    }

    open spec fn sub_req(self, rhs: Hex) -> bool {
        coords_sub_defined(self, rhs)
    }

    open spec fn sub_spec(self, rhs: Hex) -> Hex {
        Hex { q: (self.q - rhs.q) as i32, r: (self.r - rhs.r) as i32 }
    }
}

impl std::ops::Mul<i32> for Hex {
    type Output = Self;

    fn mul(self, other: i32) -> (h: Self) {
        Self { q: self.q * other, r: self.r * other }
    }
}

impl vstd::std_specs::ops::MulSpecImpl<i32> for Hex {
    open spec fn obeys_mul_spec() -> bool {
        true
    }

    open spec fn mul_req(self, rhs: i32) -> bool {
        coords_mul_defined(self, rhs)
    }

    open spec fn mul_spec(self, rhs: i32) -> Hex {
        Hex { q: (self.q * rhs) as i32, r: (self.r * rhs) as i32 }
    }
}

/// The two ways of writing the hex distance agree: half the sum of the three
/// absolute cube differences equals the largest of them, so this module's
/// `distance` and `game::hex::Hex::distance` measure the same thing.
pub proof fn lemma_distance_forms_agree(a: Hex, b: Hex)
    ensures
        coords_dist(a, b) == hex_dist(crate::game::hex::Hex(a.q, a.r), crate::game::hex::Hex(b.q, b.r)),
{
}

} // verus!
