//! The cells worth considering for the next placement: the free cells near
//! stones, kept up to date as stones appear.

use vstd::prelude::*;
use rustc_hash::FxHashSet;
use crate::game::board::{Board, lists_entries};
use crate::game::game::{Game, distance_fits};
use crate::game::hex::{Hex, distance_defined, fits_i32, hex_dist};
use crate::game::player::Player;

verus! {

/// What an `FxHashSet<Hex>` holds.
pub uninterp spec fn hex_set(s: FxHashSet<Hex>) -> Set<Hex>;

/// `FxHashSet::default`: an empty set.
#[verifier::external_body]
pub(crate) fn hex_set_new() -> (fresh: FxHashSet<Hex>)
    ensures
        hex_set(fresh) =~= Set::empty(),
{
    FxHashSet::default()
}

/// `FxHashSet::insert`: adds `hex`, telling whether it was absent.
#[verifier::external_body]
pub(crate) fn hex_set_insert(s: &mut FxHashSet<Hex>, hex: Hex) -> (added: bool)
    ensures
        hex_set(*final(s)) == hex_set(*old(s)).insert(hex),
        added == !hex_set(*old(s)).contains(hex),
{
    s.insert(hex)
}

/// `FxHashSet::contains`: whether `hex` is a member.
#[verifier::external_body]
pub(crate) fn hex_set_contains(s: &FxHashSet<Hex>, hex: &Hex) -> (b: bool)
    ensures
        b == hex_set(*s).contains(*hex),
{
    s.contains(hex)
}

/// `FxHashSet::remove`: takes `hex` out.
#[verifier::external_body]
fn hex_set_remove(s: &mut FxHashSet<Hex>, hex: &Hex)
    ensures
        hex_set(*final(s)) == hex_set(*old(s)).remove(*hex),
{
    s.remove(hex);
}

/// `FxHashSet::iter`: every member once, in the set's own order, which
/// nothing here states.
#[verifier::external_body]
pub(crate) fn hex_set_to_vec(s: &FxHashSet<Hex>) -> (v: Vec<Hex>)
    ensures
        v@.no_duplicates() && v@.to_set() == hex_set(*s),
{
    s.iter().copied().collect()
}

/// `c` is a free cell within `radius` of `h` and within `size_limit` of the origin.
pub open spec fn near_free(cells: Map<Hex, Player>, size_limit: i32, radius: i32, h: Hex, c: Hex) -> bool {
    hex_dist(h, c) <= radius && !cells.contains_key(c) && hex_dist(Hex(0, 0), c) <= size_limit
}

/// The free cells within `radius` of some cell of `from` (and within `size_limit` of the origin).
pub open spec fn free_near(cells: Map<Hex, Player>, size_limit: i32, radius: i32, from: Set<Hex>) -> Set<Hex> {
    Set::new(|c: Hex| exists|h: Hex| #[trigger] from.contains(h) && near_free(cells, size_limit, radius, h, c))
}

/// The part of `near_free(.., h, ..)` whose offset from `h` comes before
/// `(dq, dr)` in column-then-row order.
pub open spec fn near_free_before(
    cells: Map<Hex, Player>,
    size_limit: i32,
    radius: i32,
    h: Hex,
    dq: int,
    dr: int,
) -> Set<Hex> {
    Set::new(
        |c: Hex|
            near_free(cells, size_limit, radius, h, c) && (c.0 - h.0 < dq || (c.0 - h.0 == dq && c.1
                - h.1 < dr)),
    )
}

/// `(dq, dr)` is an offset the loops around a cell visit: within `radius` of
/// zero in hex distance.
pub open spec fn in_ball(radius: i32, dq: int, dr: int) -> bool {
    &&& -radius <= dq <= radius
    &&& -radius <= dr <= radius
    &&& -dq - radius <= dr <= -dq + radius
}

/// A radius for which the loop bounds `-r`, `-dq - r` and `-dq + r` fit in `i32`.
pub open spec fn radius_ok(radius: i32) -> bool {
    i32::MIN < radius <= 0x3fff_ffff
}

/// The cell `(dq, dr)` away from `origin` has representable coordinates, and
/// so has its distance from the origin when it is free (where it is measured).
pub open spec fn ball_cell_ok(cells: Map<Hex, Player>, origin: Hex, dq: int, dr: int) -> bool {
    let c = Hex((origin.0 + dq) as i32, (origin.1 + dr) as i32);
    &&& fits_i32(origin.0 + dq)
    &&& fits_i32(origin.1 + dr)
    &&& !cells.contains_key(c) ==> distance_defined(Hex(0, 0), c)
}

/// The cells within `radius` of `origin` are visited without overflow.
pub open spec fn ball_ok(cells: Map<Hex, Player>, origin: Hex, radius: i32) -> bool {
    forall|dq: int, dr: int| #[trigger] in_ball(radius, dq, dr) ==> ball_cell_ok(cells, origin, dq, dr)
}

/// Whether the cells within `r` of `origin` are visited without overflow.
pub fn ball_fits(board: &Board, origin: Hex, r: i32) -> (ok: bool)
    requires
        radius_ok(r),
    ensures
        ok == ball_ok(board@, origin, r),
{
    let mut dq: i32 = -r;
    while dq <= r
        invariant
            radius_ok(r),
            -r <= dq <= r + 1 || r < 0,
            r < 0 ==> dq == -r,
            forall|a: int, b: int| #[trigger] in_ball(r, a, b) && a < dq ==> ball_cell_ok(board@, origin, a, b),
        decreases r + 1 - dq,
    {
        let dr_min = if -r >= -dq - r { -r } else { -dq - r };
        let dr_max = if r <= -dq + r { r } else { -dq + r };
        let mut dr: i32 = dr_min;
        while dr <= dr_max
            invariant
                radius_ok(r),
                -r <= dq <= r,
                dr_min == (if -r >= -dq - r { -r as int } else { -dq - r }),
                dr_max == (if r <= -dq + r { r as int } else { -dq + r }),
                dr_min <= dr <= dr_max + 1,
                forall|a: int, b: int|
                    #[trigger] in_ball(r, a, b) && (a < dq || (a == dq && b < dr)) ==> ball_cell_ok(board@, origin, a, b),
            decreases dr_max + 1 - dr,
        {
            proof {
                assert(in_ball(r, dq as int, dr as int));
            }
            let q: i64 = origin.0 as i64 + dq as i64;
            let w: i64 = origin.1 as i64 + dr as i64;
            if q < i32::MIN as i64 || q > i32::MAX as i64 || w < i32::MIN as i64 || w > i32::MAX as i64 {
                return false;
            }
            let c = Hex(q as i32, w as i32);
            if board.is_empty(&c) && !distance_fits(Hex(0, 0), c) {
                return false;
            }
            dr += 1;
        }
        dq += 1;
    }
    true
}

/// If the candidates were exactly the free cells near the stones of an earlier
/// board, and stones have only been added since, then what `sync` computes is
/// exactly the free cells near the stones of the current board.
pub proof fn lemma_sync_keeps_candidates_exact(
    old_cells: Map<Hex, Player>,
    new_cells: Map<Hex, Player>,
    size_limit: i32,
    radius: i32,
    old_cands: Set<Hex>,
)
    requires
        old_cells.submap_of(new_cells),
        old_cands == free_near(old_cells, size_limit, radius, old_cells.dom()),
    ensures
        (old_cands - (new_cells.dom() - old_cells.dom())) + free_near(
            new_cells,
            size_limit,
            radius,
            new_cells.dom() - old_cells.dom(),
        ) == free_near(new_cells, size_limit, radius, new_cells.dom()),
{
    let fresh = new_cells.dom() - old_cells.dom();
    let lhs = (old_cands - fresh) + free_near(new_cells, size_limit, radius, fresh);
    let rhs = free_near(new_cells, size_limit, radius, new_cells.dom());
    assert forall|c: Hex| #[trigger] lhs.contains(c) implies rhs.contains(c) by {
        if free_near(new_cells, size_limit, radius, fresh).contains(c) {
            let h = choose|h: Hex| fresh.contains(h) && near_free(new_cells, size_limit, radius, h, c);
            assert(new_cells.dom().contains(h));
        } else {
            let h = choose|h: Hex| old_cells.dom().contains(h) && near_free(old_cells, size_limit, radius, h, c);
            assert(new_cells.dom().contains(h));
            assert(!new_cells.contains_key(c));
        }
    }
    assert forall|c: Hex| #[trigger] rhs.contains(c) implies lhs.contains(c) by {
        let h = choose|h: Hex| new_cells.dom().contains(h) && near_free(new_cells, size_limit, radius, h, c);
        if fresh.contains(h) {
            assert(free_near(new_cells, size_limit, radius, fresh).contains(c));
        } else {
            assert(old_cells.dom().contains(h));
            assert(!old_cells.contains_key(c));
            assert(old_cands.contains(c));
        }
    }
    assert(lhs =~= rhs);
}

/// The first `sync` of a fresh `Candidates` yields exactly the cells that
/// `generate_candidates` computes afresh for the same board and radius.
pub proof fn lemma_fresh_sync_matches_generation(cells: Map<Hex, Player>, size_limit: i32, radius: i32)
    ensures
        (Set::<Hex>::empty() - (cells.dom() - Set::<Hex>::empty())) + free_near(
            cells,
            size_limit,
            radius,
            cells.dom() - Set::<Hex>::empty(),
        ) == free_near(cells, size_limit, radius, cells.dom()),
{
    assert(cells.dom() - Set::<Hex>::empty() =~= cells.dom());
    assert((Set::<Hex>::empty() - cells.dom()) + free_near(cells, size_limit, radius, cells.dom()) =~= free_near(
        cells,
        size_limit,
        radius,
        cells.dom(),
    ));
}

/// Syncing again with a board whose stones have all been looked around
/// changes neither the candidates nor the stones looked around.
pub proof fn lemma_sync_idempotent(
    cells: Map<Hex, Player>,
    size_limit: i32,
    radius: i32,
    cands: Set<Hex>,
    seen: Set<Hex>,
)
    requires
        cells.dom() <= seen,
    ensures
        seen + cells.dom() == seen,
        (cands - (cells.dom() - seen)) + free_near(cells, size_limit, radius, cells.dom() - seen) == cands,
{
    assert(cells.dom() - seen =~= Set::<Hex>::empty());
    assert(free_near(cells, size_limit, radius, Set::<Hex>::empty()) =~= Set::<Hex>::empty());
    assert((cands - Set::<Hex>::empty()) + Set::<Hex>::empty() =~= cands);
    assert(seen + cells.dom() =~= seen);
}

/// What syncing a fresh `Candidates` of `radius` with each of `boards` in
/// turn (all under `size_limit`) leaves: the candidates and the stones looked
/// around, as the contract of `sync` gives them step by step.
pub open spec fn synced(boards: Seq<Map<Hex, Player>>, size_limit: i32, radius: i32) -> (Set<Hex>, Set<Hex>)
    decreases boards.len(),
{
    if boards.len() == 0 {
        (Set::empty(), Set::empty())
    } else {
        let (cands, seen) = synced(boards.drop_last(), size_limit, radius);
        let cells = boards.last();
        (
            (cands - (cells.dom() - seen)) + free_near(cells, size_limit, radius, cells.dom() - seen),
            seen + cells.dom(),
        )
    }
}

/// Syncing with a sequence of boards, each holding every stone of the one
/// before in the same colour, leaves exactly the free cells near the stones of
/// the last board (what `generate_candidates` computes afresh), and has looked
/// around exactly its stones.
pub proof fn lemma_syncs_match_generation(boards: Seq<Map<Hex, Player>>, size_limit: i32, radius: i32)
    requires
        boards.len() > 0,
        forall|i: int| 0 <= i < boards.len() - 1 ==> (#[trigger] boards[i]).submap_of(boards[i + 1]),
    ensures
        synced(boards, size_limit, radius).0 == free_near(boards.last(), size_limit, radius, boards.last().dom()),
        synced(boards, size_limit, radius).1 == boards.last().dom(),
    decreases boards.len(),
{
    let cells = boards.last();
    if boards.len() == 1 {
        assert(boards.drop_last().len() == 0);
        assert(synced(boards.drop_last(), size_limit, radius) == (Set::<Hex>::empty(), Set::<Hex>::empty()));
        lemma_fresh_sync_matches_generation(cells, size_limit, radius);
        assert(Set::<Hex>::empty() + cells.dom() =~= cells.dom());
    } else {
        let prev = boards.drop_last();
        assert forall|i: int| 0 <= i < prev.len() - 1 implies (#[trigger] prev[i]).submap_of(prev[i + 1]) by {
            assert(prev[i] == boards[i] && prev[i + 1] == boards[i + 1]);
        }
        lemma_syncs_match_generation(prev, size_limit, radius);
        let old_cells = prev.last();
        assert(old_cells == boards[boards.len() - 2]);
        assert(old_cells.submap_of(cells));
        lemma_sync_keeps_candidates_exact(
            old_cells,
            cells,
            size_limit,
            radius,
            synced(prev, size_limit, radius).0,
        );
        assert(old_cells.dom() + cells.dom() =~= cells.dom());
    }
}

/// The free cells near stones, and the stones already looked around.
pub struct Candidates {
    set: FxHashSet<Hex>,
    seen: FxHashSet<Hex>,
    radius: i32,
}

impl Candidates {
    /// The current candidate cells.
    pub closed spec fn cands(&self) -> Set<Hex> {
        hex_set(self.set)
    }

    /// The stones whose surroundings have been added.
    pub closed spec fn seen_cells(&self) -> Set<Hex> {
        hex_set(self.seen)
    }

    /// How far around each stone candidates are taken.
    pub closed spec fn radius_spec(&self) -> i32 {
        self.radius
    }

    pub fn new(radius: i32) -> (c: Self)
        ensures
            c.cands() == Set::<Hex>::empty(),
            c.seen_cells() == Set::<Hex>::empty(),
            c.radius_spec() == radius,
    {
        Self { set: hex_set_new(), seen: hex_set_new(), radius }
    }

    /// Brings the candidates up to date with the stones of `game`: every stone
    /// not looked around before is taken out of the candidates and the free
    /// cells around it (within the size limit) are added.
    pub fn sync(&mut self, game: &Game)
        requires
            radius_ok(old(self).radius_spec()),
            forall|h: Hex| #[trigger] game.board@.contains_key(h) && !old(self).seen_cells().contains(h)
                ==> ball_ok(game.board@, h, old(self).radius_spec()),
        ensures
            final(self).radius_spec() == old(self).radius_spec(),
            final(self).seen_cells() == old(self).seen_cells() + game.board@.dom(),
            final(self).cands() == (old(self).cands() - (game.board@.dom() - old(self).seen_cells()))
                + free_near(
                game.board@,
                game.cfg.size_limit,
                old(self).radius_spec(),
                game.board@.dom() - old(self).seen_cells(),
            ),
    {
        let entries = game.board.entries();
        let ghost cells = game.board@;
        let ghost old_seen = hex_set(self.seen);
        let ghost old_cands = hex_set(self.set);
        let mut n: usize = 0;
        while n < entries.len()
            invariant
                forall|h: Hex| #[trigger] game.board@.contains_key(h) && !old(self).seen_cells().contains(h)
                    ==> ball_ok(game.board@, h, old(self).radius_spec()),
                cells == game.board@,
                lists_entries(cells, entries@),
                0 <= n <= entries.len(),
                radius_ok(self.radius),
                self.radius == old(self).radius,
                old_seen == old(self).seen_cells(),
                old_cands == old(self).cands(),
                hex_set(self.seen) == old_seen + Set::new(|h: Hex| exists|j: int| 0 <= j < n && entries@[j].0 == h),
                ({
                    let fresh = Set::new(|h: Hex| exists|j: int| 0 <= j < n && entries@[j].0 == h) - old_seen;
                    hex_set(self.set) == (old_cands - fresh) + free_near(cells, game.cfg.size_limit, self.radius, fresh)
                }),
            decreases entries.len() - n,
        {
            let hex = entries[n].0;
            let ghost seen_before = Set::new(|h: Hex| exists|j: int| 0 <= j < n && entries@[j].0 == h);
            let ghost seen_after = Set::new(|h: Hex| exists|j: int| 0 <= j < n + 1 && entries@[j].0 == h);
            proof {
                assert(cells.contains_key(entries@[n as int].0));
                assert(seen_after =~= seen_before.insert(hex));
            }
            if hex_set_insert(&mut self.seen, hex) {
                proof {
                    assert(!old_seen.contains(hex));
                }
                hex_set_remove(&mut self.set, &hex);
                self.expand(game, hex);
                proof {
                    let fresh0 = seen_before - old_seen;
                    let fresh1 = seen_after - old_seen;
                    assert(fresh1 =~= fresh0.insert(hex));
                    assert(!fresh0.contains(hex));
                    assert forall|c: Hex| #[trigger] free_near(cells, game.cfg.size_limit, self.radius, fresh1).contains(c)
                        implies free_near(cells, game.cfg.size_limit, self.radius, fresh0).contains(c)
                        || free_near(cells, game.cfg.size_limit, self.radius, set![hex]).contains(c) by {
                        let h = choose|h: Hex| fresh1.contains(h) && near_free(cells, game.cfg.size_limit, self.radius, h, c);
                        if h == hex {
                            assert(set![hex].contains(h));
                        } else {
                            assert(fresh0.contains(h));
                        }
                    }
                    assert forall|c: Hex| #[trigger] free_near(cells, game.cfg.size_limit, self.radius, set![hex]).contains(c)
                        implies free_near(cells, game.cfg.size_limit, self.radius, fresh1).contains(c) by {
                        let h = choose|h: Hex| set![hex].contains(h) && near_free(cells, game.cfg.size_limit, self.radius, h, c);
                        assert(fresh1.contains(h));
                    }
                    assert forall|c: Hex| #[trigger] free_near(cells, game.cfg.size_limit, self.radius, fresh0).contains(c)
                        implies free_near(cells, game.cfg.size_limit, self.radius, fresh1).contains(c) by {
                        let h = choose|h: Hex| fresh0.contains(h) && near_free(cells, game.cfg.size_limit, self.radius, h, c);
                        assert(fresh1.contains(h));
                    }
                    assert(free_near(cells, game.cfg.size_limit, self.radius, fresh1) =~= free_near(
                        cells,
                        game.cfg.size_limit,
                        self.radius,
                        fresh0,
                    ) + free_near(cells, game.cfg.size_limit, self.radius, set![hex]));
                    assert(!free_near(cells, game.cfg.size_limit, self.radius, fresh0).contains(hex));
                    assert(hex_set(self.set) =~= (old_cands - fresh1) + free_near(
                        cells,
                        game.cfg.size_limit,
                        self.radius,
                        fresh1,
                    ));
                }
            } else {
                proof {
                    let fresh0 = seen_before - old_seen;
                    let fresh1 = seen_after - old_seen;
                    assert(fresh1 =~= fresh0);
                }
            }
            n += 1;
            proof {
                assert(hex_set(self.seen) =~= old_seen + seen_after);
            }
        }
        proof {
            let all = Set::new(|h: Hex| exists|j: int| 0 <= j < entries@.len() && entries@[j].0 == h);
            assert(all =~= cells.dom());
        }
    }

    /// Adds the free cells within the radius of `origin` (and within the size limit).
    fn expand(&mut self, game: &Game, origin: Hex)
        requires
            ball_ok(game.board@, origin, old(self).radius),
            radius_ok(old(self).radius),
        ensures
            final(self).radius == old(self).radius,
            final(self).seen == old(self).seen,
            hex_set(final(self).set) == hex_set(old(self).set) + free_near(
                game.board@,
                game.cfg.size_limit,
                old(self).radius,
                set![origin],
            ),
    {
        let r = self.radius;
        let ghost cells = game.board@;
        let ghost lim = game.cfg.size_limit;
        let ghost start = hex_set(self.set);
        let mut dq: i32 = -r;
        while dq <= r
            invariant
                ball_ok(game.board@, origin, r),
                cells == game.board@,
                lim == game.cfg.size_limit,
                radius_ok(r),
                r == self.radius,
                self.radius == old(self).radius,
                self.seen == old(self).seen,
                -r <= dq <= r + 1 || r < 0,
                r < 0 ==> dq == -r,
                hex_set(self.set) == start + near_free_before(cells, lim, r, origin, dq as int, i32::MIN as int),
            decreases r + 1 - dq,
        {
            let dr_min = if -r >= -dq - r { -r } else { -dq - r };
            let dr_max = if r <= -dq + r { r } else { -dq + r };
            let mut dr: i32 = dr_min;
            while dr <= dr_max
                invariant
                    ball_ok(game.board@, origin, r),
                    cells == game.board@,
                    lim == game.cfg.size_limit,
                    radius_ok(r),
                    -r <= dq <= r,
                    r == self.radius,
                    self.radius == old(self).radius,
                    self.seen == old(self).seen,
                    dr_min == (if -r >= -dq - r { -r as int } else { -dq - r }),
                    dr_max == (if r <= -dq + r { r as int } else { -dq + r }),
                    dr_min <= dr <= dr_max + 1,
                    hex_set(self.set) == start + near_free_before(cells, lim, r, origin, dq as int, dr as int),
                decreases dr_max + 1 - dr,
            {
                proof {
                    assert(in_ball(r, dq as int, dr as int));
                }
                let candidate = Hex(origin.0 + dq, origin.1 + dr);
                if game.board.is_empty(&candidate) && Hex::origin().distance(candidate) <= game.cfg.size_limit {
                    hex_set_insert(&mut self.set, candidate);
                }
                proof {
                    assert(hex_set(self.set) =~= start + near_free_before(cells, lim, r, origin, dq as int, dr + 1));
                }
                dr += 1;
            }
            proof {
                assert(hex_set(self.set) =~= start + near_free_before(cells, lim, r, origin, dq + 1, i32::MIN as int));
            }
            dq += 1;
        }
        proof {
            let one = set![origin];
            assert forall|c: Hex| #[trigger] free_near(cells, lim, r, one).contains(c) <==> near_free_before(
                cells,
                lim,
                r,
                origin,
                dq as int,
                i32::MIN as int,
            ).contains(c) by {
                if near_free(cells, lim, r, origin, c) {
                    assert(one.contains(origin));
                }
            }
            assert(near_free_before(cells, lim, r, origin, dq as int, i32::MIN as int) =~= free_near(cells, lim, r, one));
        }
    }

    /// Whether `sync(game)` can be called: its radius keeps the loop bounds in
    /// `i32`, and the cells around every stone not looked around before are
    /// visited without overflow.
    pub fn can_sync(&self, game: &Game) -> (ok: bool)
        ensures
            ok == (radius_ok(self.radius_spec()) && forall|h: Hex| #[trigger] game.board@.contains_key(h)
                && !self.seen_cells().contains(h) ==> ball_ok(game.board@, h, self.radius_spec())),
    {
        if !(i32::MIN < self.radius && self.radius <= 0x3fff_ffff) {
            return false;
        }
        let entries = game.board.entries();
        let mut n: usize = 0;
        while n < entries.len()
            invariant
                radius_ok(self.radius),
                lists_entries(game.board@, entries@),
                0 <= n <= entries.len(),
                forall|j: int|
                    0 <= j < n && !hex_set(self.seen).contains(#[trigger] entries@[j].0) ==> ball_ok(
                        game.board@,
                        entries@[j].0,
                        self.radius,
                    ),
            decreases entries.len() - n,
        {
            let hex = entries[n].0;
            proof {
                assert(game.board@.contains_key(entries@[n as int].0));
            }
            if !hex_set_contains(&self.seen, &hex) && !ball_fits(&game.board, hex, self.radius) {
                return false;
            }
            n += 1;
        }
        proof {
            assert forall|h: Hex| #[trigger] game.board@.contains_key(h) && !self.seen_cells().contains(h) implies ball_ok(
                game.board@,
                h,
                self.radius_spec(),
            ) by {
                let j = choose|j: int| 0 <= j < entries@.len() && entries@[j].0 == h;
                assert(!hex_set(self.seen).contains(entries@[j].0));
            }
        }
        true
    }

    /// The candidates, each once, in the set's own order.
    pub fn as_vec(&self) -> (v: Vec<Hex>)
        ensures
            v@.no_duplicates(),
            v@.to_set() == self.cands(),
    {
        hex_set_to_vec(&self.set)
    }
}

} // verus!
