//! Candidate moves computed afresh from the board.

use vstd::prelude::*;
use crate::game::board::lists_entries;
use crate::game::candidates::{free_near, hex_set, hex_set_insert, hex_set_new, hex_set_to_vec, in_ball, near_free, near_free_before, radius_ok};
use crate::game::game::Game;
use crate::game::hex::{Hex, abs_int, fits_i32, hex_dist, negatable};

verus! {

/// The half sum `(|q| + |r| + |q + r|) / 2` is computed in `i32` without overflow.
pub open spec fn half_sum_defined(q: int, r: int) -> bool {
    &&& negatable(q)
    &&& negatable(r)
    &&& negatable(q + r)
    &&& abs_int(q) + abs_int(r) + abs_int(q + r) <= i32::MAX
}

/// The cell `(dq, dr)` away from `origin` has representable coordinates, and
/// its distance from the origin is computed as a half sum without overflow.
pub open spec fn generation_cell_ok(origin: Hex, dq: int, dr: int) -> bool {
    fits_i32(origin.0 + dq) && fits_i32(origin.1 + dr) && half_sum_defined(origin.0 + dq, origin.1 + dr)
}

/// The cells within `radius` of `origin` are visited without overflow.
pub open spec fn generation_ok(origin: Hex, radius: i32) -> bool {
    forall|dq: int, dr: int| #[trigger] in_ball(radius, dq, dr) ==> generation_cell_ok(origin, dq, dr)
}

/// Whether `generate_candidates(game, radius)` can be called: its radius keeps
/// the loop bounds in `i32`, and the cells around every stone are visited
/// without overflow.
pub fn generation_fits(game: &Game, radius: i32) -> (ok: bool)
    ensures
        ok == (radius_ok(radius) && forall|h: Hex| #[trigger] game.board@.contains_key(h) ==> generation_ok(h, radius)),
{
    if !(i32::MIN < radius && radius <= 0x3fff_ffff) {
        return false;
    }
    let entries = game.board.entries();
    let mut n: usize = 0;
    while n < entries.len()
        invariant
            radius_ok(radius),
            lists_entries(game.board@, entries@),
            0 <= n <= entries.len(),
            forall|j: int| 0 <= j < n ==> generation_ok(#[trigger] entries@[j].0, radius),
        decreases entries.len() - n,
    {
        let hex = entries[n].0;
        if !cells_fit_around(hex, radius) {
            proof {
                assert(game.board@.contains_key(entries@[n as int].0));
            }
            return false;
        }
        n += 1;
    }
    proof {
        assert forall|h: Hex| #[trigger] game.board@.contains_key(h) implies generation_ok(h, radius) by {
            let j = choose|j: int| 0 <= j < entries@.len() && entries@[j].0 == h;
            assert(generation_ok(entries@[j].0, radius));
        }
    }
    true
}

/// Whether `(|q| + |r| + |q + r|) / 2` is computed in `i32` without overflow.
fn half_sum_fits(q: i64, r: i64) -> (ok: bool)
    requires
        i32::MIN <= q <= i32::MAX,
        i32::MIN <= r <= i32::MAX,
    ensures
        ok == half_sum_defined(q as int, r as int),
{
    let lo: i64 = -0x7fff_ffff;
    let hi: i64 = 0x7fff_ffff;
    let s: i64 = q + r;
    if q < lo || r < lo || s < lo || s > hi {
        return false;
    }
    let aq: i64 = if q < 0 { -q } else { q };
    let ar: i64 = if r < 0 { -r } else { r };
    let asum: i64 = if s < 0 { -s } else { s };
    aq + ar + asum <= hi
}

/// Whether the cells within `r` of `origin` are visited without overflow.
fn cells_fit_around(origin: Hex, r: i32) -> (ok: bool)
    requires
        radius_ok(r),
    ensures
        ok == generation_ok(origin, r),
{
    let mut dq: i32 = -r;
    while dq <= r
        invariant
            radius_ok(r),
            -r <= dq <= r + 1 || r < 0,
            r < 0 ==> dq == -r,
            forall|a: int, b: int| #[trigger] in_ball(r, a, b) && a < dq ==> generation_cell_ok(origin, a, b),
        decreases r + 1 - dq,
    {
        let dr_min = if -r >= -dq - r { -r } else { -dq - r };
        let dr_max = if r <= -dq + r { r } else { -dq + r };
        let mut dr: i32 = dr_min;
        while dr <= dr_max
            invariant
                radius_ok(r),
                -r <= dq <= r,
                dr_min == (if -r >= -dq - r { -r as int } else { -dq - r }),
                dr_max == (if r <= -dq + r { r as int } else { -dq + r }),
                dr_min <= dr <= dr_max + 1,
                forall|a: int, b: int|
                    #[trigger] in_ball(r, a, b) && (a < dq || (a == dq && b < dr)) ==> generation_cell_ok(origin, a, b),
            decreases dr_max + 1 - dr,
        {
            proof {
                assert(in_ball(r, dq as int, dr as int));
            }
            let q: i64 = origin.0 as i64 + dq as i64;
            let w: i64 = origin.1 as i64 + dr as i64;
            if q < i32::MIN as i64 || q > i32::MAX as i64 || w < i32::MIN as i64 || w > i32::MAX as i64 {
                return false;
            }
            if !half_sum_fits(q, w) {
                return false;
            }
            dr += 1;
        }
        dq += 1;
    }
    true
}

/// The distance from the origin is half the sum of the three absolute cube coordinates.
pub proof fn lemma_origin_distance_as_half_sum(q: int, r: int)
    requires
        fits_i32(q),
        fits_i32(r),
    ensures
        (abs_int(q) + abs_int(r) + abs_int(q + r)) / 2 == hex_dist(Hex(0, 0), Hex(q as i32, r as i32)),
{
}

/// Every free cell within `radius` of a stone and within the size limit, each
/// once, in no stated order.
pub fn generate_candidates(game: &Game, radius: i32) -> (v: Vec<Hex>)
    requires
        radius_ok(radius),
        forall|h: Hex| #[trigger] game.board@.contains_key(h) ==> generation_ok(h, radius),
    ensures
        v@.no_duplicates(),
        v@.to_set() == free_near(game.board@, game.cfg.size_limit, radius, game.board@.dom()),
{
    let mut set = hex_set_new();
    let entries = game.board.entries();
    let ghost cells = game.board@;
    let ghost lim = game.cfg.size_limit;
    let mut n: usize = 0;
    while n < entries.len()
        invariant
            forall|h: Hex| #[trigger] game.board@.contains_key(h) ==> generation_ok(h, radius),
            cells == game.board@,
            lim == game.cfg.size_limit,
            lists_entries(cells, entries@),
            radius_ok(radius),
            0 <= n <= entries.len(),
            hex_set(set) == free_near(cells, lim, radius, Set::new(|h: Hex| exists|j: int| 0 <= j < n && entries@[j].0 == h)),
        decreases entries.len() - n,
    {
        let hex = entries[n].0;
        let (hq, hr) = (hex.0, hex.1);
        let ghost start = hex_set(set);
        proof {
            assert(cells.contains_key(entries@[n as int].0));
        }
        let mut dq: i32 = -radius;
        while dq <= radius
            invariant
                generation_ok(hex, radius),
                cells == game.board@,
                lim == game.cfg.size_limit,
                hex == Hex(hq, hr),
                radius_ok(radius),
                -radius <= dq <= radius + 1 || radius < 0,
                radius < 0 ==> dq == -radius,
                hex_set(set) == start + near_free_before(cells, lim, radius, hex, dq as int, i32::MIN as int),
            decreases radius + 1 - dq,
        {
            let dr_min = if -radius >= -dq - radius { -radius } else { -dq - radius };
            let dr_max = if radius <= -dq + radius { radius } else { -dq + radius };
            let mut dr: i32 = dr_min;
            while dr <= dr_max
                invariant
                    generation_ok(hex, radius),
                    cells == game.board@,
                    lim == game.cfg.size_limit,
                    hex == Hex(hq, hr),
                    radius_ok(radius),
                    -radius <= dq <= radius,
                    dr_min == (if -radius >= -dq - radius { -radius as int } else { -dq - radius }),
                    dr_max == (if radius <= -dq + radius { radius as int } else { -dq + radius }),
                    dr_min <= dr <= dr_max + 1,
                    hex_set(set) == start + near_free_before(cells, lim, radius, hex, dq as int, dr as int),
                decreases dr_max + 1 - dr,
            {
                proof {
                    assert(in_ball(radius, dq as int, dr as int));
                }
                let (cq, cr) = (hq + dq, hr + dr);
                let aq = if cq < 0 { -cq } else { cq };
                let ar = if cr < 0 { -cr } else { cr };
                let asum = if cq + cr < 0 { -(cq + cr) } else { cq + cr };
                let dist_from_origin = (aq + ar + asum) / 2;
                proof {
                    lemma_origin_distance_as_half_sum(cq as int, cr as int);
                }
                if dist_from_origin <= game.cfg.size_limit && game.board.get(&Hex(cq, cr)).is_none() {
                    hex_set_insert(&mut set, Hex(cq, cr));
                }
                proof {
                    assert(hex_set(set) =~= start + near_free_before(cells, lim, radius, hex, dq as int, dr + 1));
                }
                dr += 1;
            }
            proof {
                assert(hex_set(set) =~= start + near_free_before(cells, lim, radius, hex, dq + 1, i32::MIN as int));
            }
            dq += 1;
        }
        proof {
            let before = Set::new(|h: Hex| exists|j: int| 0 <= j < n && entries@[j].0 == h);
            let after = Set::new(|h: Hex| exists|j: int| 0 <= j < n + 1 && entries@[j].0 == h);
            assert(after =~= before.insert(hex));
            let ball = near_free_before(cells, lim, radius, hex, dq as int, i32::MIN as int);
            assert forall|c: Hex| #[trigger] free_near(cells, lim, radius, after).contains(c)
                <==> free_near(cells, lim, radius, before).contains(c) || ball.contains(c) by {
                if free_near(cells, lim, radius, after).contains(c) {
                    let h = choose|h: Hex| after.contains(h) && near_free(cells, lim, radius, h, c);
                    if h != hex {
                        assert(before.contains(h));
                    }
                }
                if free_near(cells, lim, radius, before).contains(c) {
                    let h = choose|h: Hex| before.contains(h) && near_free(cells, lim, radius, h, c);
                    assert(after.contains(h));
                }
                if ball.contains(c) {
                    assert(after.contains(hex));
                }
            }
            assert(hex_set(set) =~= free_near(cells, lim, radius, after));
        }
        n += 1;
    }
    proof {
        let all = Set::new(|h: Hex| exists|j: int| 0 <= j < entries@.len() && entries@[j].0 == h);
        assert(all =~= cells.dom());
    }
    hex_set_to_vec(&set)
}

} // verus!
