//! Connected groups of stones.

use vstd::prelude::*;
use crate::game::candidates::{hex_set, hex_set_contains, hex_set_insert, hex_set_new};
use crate::game::game::Game;
use crate::game::hex::{Hex, axes_spec, fits_i32, hex_dist, lemma_distance_metric};
use crate::game::player::Player;

verus! {

/// `a` and `b` are neighbouring cells.
pub open spec fn adjacent(a: Hex, b: Hex) -> bool {
    hex_dist(a, b) == 1
}

/// `p` is a walk through cells of `m`, each step to a neighbouring cell.
pub open spec fn is_path(m: Set<Hex>, p: Seq<Hex>) -> bool {
    &&& p.len() >= 1
    &&& forall|i: int| 0 <= i < p.len() ==> m.contains(#[trigger] p[i])
    &&& forall|i: int| 0 <= i < p.len() - 1 ==> adjacent(#[trigger] p[i], p[i + 1])
}

/// Some walk through `m` leads from `a` to `b`.
pub open spec fn connected(m: Set<Hex>, a: Hex, b: Hex) -> bool {
    exists|p: Seq<Hex>| #[trigger] is_path(m, p) && p[0] == a && p[p.len() - 1] == b
}

/// The cells of `m` reachable from `a` through `m`.
pub open spec fn component(m: Set<Hex>, a: Hex) -> Set<Hex> {
    Set::new(|b: Hex| connected(m, a, b))
}

/// `x` holds every cell of `m` next to one of its own cells.
pub open spec fn closed_in(m: Set<Hex>, x: Set<Hex>) -> bool {
    forall|v: Hex, n: Hex| #[trigger] x.contains(v) && #[trigger] m.contains(n) && adjacent(v, n) ==> x.contains(n)
}

/// Neighbouring is symmetric.
pub proof fn lemma_adjacent_symmetric(a: Hex, b: Hex)
    ensures
        adjacent(a, b) == adjacent(b, a),
{
    lemma_distance_metric(a, b, b);
}

/// Every cell of `m` is connected to itself.
pub proof fn lemma_connected_refl(m: Set<Hex>, a: Hex)
    requires
        m.contains(a),
    ensures
        connected(m, a, a),
{
    let p = seq![a];
    assert(is_path(m, p));
}

/// A walk can be extended by one more step.
pub proof fn lemma_connected_extend(m: Set<Hex>, a: Hex, b: Hex, c: Hex)
    requires
        connected(m, a, b),
        m.contains(c),
        adjacent(b, c),
    ensures
        connected(m, a, c),
{
    let p = choose|p: Seq<Hex>| #[trigger] is_path(m, p) && p[0] == a && p[p.len() - 1] == b;
    let q = p.push(c);
    assert forall|i: int| 0 <= i < q.len() implies m.contains(#[trigger] q[i]) by {
        if i < p.len() {
            assert(q[i] == p[i]);
        }
    }
    assert forall|i: int| 0 <= i < q.len() - 1 implies adjacent(#[trigger] q[i], q[i + 1]) by {
        if i < p.len() - 1 {
            assert(q[i] == p[i] && q[i + 1] == p[i + 1]);
        } else {
            assert(q[i] == b);
        }
    }
    assert(is_path(m, q));
    assert(q[0] == a && q[q.len() - 1] == c);
}

/// Walks can be taken backwards.
pub proof fn lemma_connected_symmetric(m: Set<Hex>, a: Hex, b: Hex)
    requires
        connected(m, a, b),
    ensures
        connected(m, b, a),
{
    let p = choose|p: Seq<Hex>| #[trigger] is_path(m, p) && p[0] == a && p[p.len() - 1] == b;
    let n = p.len() as int;
    let q = Seq::new(p.len(), |i: int| p[n - 1 - i]);
    assert forall|i: int| 0 <= i < q.len() implies m.contains(#[trigger] q[i]) by {
        assert(q[i] == p[n - 1 - i]);
    }
    assert forall|i: int| 0 <= i < q.len() - 1 implies adjacent(#[trigger] q[i], q[i + 1]) by {
        let j = n - 2 - i;
        assert(adjacent(p[j], p[j + 1]));
        lemma_adjacent_symmetric(p[j], p[j + 1]);
    }
    assert(is_path(m, q));
    assert(q[0] == b && q[q.len() - 1] == a);
}

/// Every cell of a walk starting at a cell connected to `a` is connected to `a`.
proof fn lemma_connected_along(m: Set<Hex>, a: Hex, q: Seq<Hex>, j: int)
    requires
        is_path(m, q),
        connected(m, a, q[0]),
        0 <= j < q.len(),
    ensures
        connected(m, a, q[j]),
    decreases j,
{
    if j > 0 {
        lemma_connected_along(m, a, q, j - 1);
        assert(adjacent(q[j - 1], q[j]));
        lemma_connected_extend(m, a, q[j - 1], q[j]);
    }
}

/// Connection is transitive.
pub proof fn lemma_connected_trans(m: Set<Hex>, a: Hex, b: Hex, c: Hex)
    requires
        connected(m, a, b),
        connected(m, b, c),
    ensures
        connected(m, a, c),
{
    let q = choose|q: Seq<Hex>| #[trigger] is_path(m, q) && q[0] == b && q[q.len() - 1] == c;
    lemma_connected_along(m, a, q, q.len() - 1);
}

/// Connected cells have the same component.
pub proof fn lemma_same_component(m: Set<Hex>, a: Hex, b: Hex)
    requires
        connected(m, a, b),
    ensures
        component(m, a) == component(m, b),
{
    assert forall|c: Hex| #[trigger] component(m, a).contains(c) <==> component(m, b).contains(c) by {
        if connected(m, a, c) {
            lemma_connected_symmetric(m, a, b);
            lemma_connected_trans(m, b, a, c);
        }
        if connected(m, b, c) {
            lemma_connected_trans(m, a, b, c);
        }
    }
    assert(component(m, a) =~= component(m, b));
}

/// A set closed in `m` that holds `a` holds `a`'s whole component.
pub proof fn lemma_closed_holds_component(m: Set<Hex>, x: Set<Hex>, a: Hex, b: Hex)
    requires
        closed_in(m, x),
        x.contains(a),
        connected(m, a, b),
    ensures
        x.contains(b),
{
    let p = choose|p: Seq<Hex>| #[trigger] is_path(m, p) && p[0] == a && p[p.len() - 1] == b;
    lemma_closed_holds_path(m, x, p, p.len() - 1);
}

proof fn lemma_closed_holds_path(m: Set<Hex>, x: Set<Hex>, p: Seq<Hex>, j: int)
    requires
        closed_in(m, x),
        is_path(m, p),
        x.contains(p[0]),
        0 <= j < p.len(),
    ensures
        x.contains(p[j]),
    decreases j,
{
    if j > 0 {
        lemma_closed_holds_path(m, x, p, j - 1);
        assert(adjacent(p[j - 1], p[j]));
        assert(m.contains(p[j]));
    }
}

/// The components lie in `m`.
pub proof fn lemma_component_within(m: Set<Hex>, a: Hex)
    ensures
        component(m, a) <= m,
{
    assert forall|b: Hex| #[trigger] component(m, a).contains(b) implies m.contains(b) by {
        let p = choose|p: Seq<Hex>| #[trigger] is_path(m, p) && p[0] == a && p[p.len() - 1] == b;
        assert(m.contains(p[p.len() - 1]));
    }
}

/// The six neighbours of `h` have representable coordinates.
pub open spec fn neighbours_fit(h: Hex) -> bool {
    fits_i32(h.0 - 1) && fits_i32(h.0 + 1) && fits_i32(h.1 - 1) && fits_i32(h.1 + 1)
}

/// Every cell of `m` has representable neighbours.
#[verifier::opaque]
pub open spec fn all_neighbours_fit(m: Set<Hex>) -> bool {
    forall|c: Hex| #[trigger] m.contains(c) ==> neighbours_fit(c)
}

/// The six cells at distance one from `h` are exactly `h` plus or minus an axis direction.
pub proof fn lemma_neighbours(h: Hex, n: Hex)
    requires
        neighbours_fit(h),
        adjacent(h, n),
    ensures
        n == h.spec_add(axes_spec()[0]) || n == h.spec_sub(axes_spec()[0]) || n == h.spec_add(axes_spec()[1])
            || n == h.spec_sub(axes_spec()[1]) || n == h.spec_add(axes_spec()[2]) || n == h.spec_sub(axes_spec()[2]),
{
}

/// Whether `c` holds `player`'s stone and is not yet in `visited`.
fn unvisited_own(game: &Game, visited: &rustc_hash::FxHashSet<Hex>, c: Hex, player: Player) -> (b: bool)
    ensures
        b == (game.board@.contains_key(c) && game.board@[c] == player && !hex_set(*visited).contains(c)),
{
    let own = match game.board.get(&c) {
        Some(p) => *p == player,
        None => false,
    };
    own && !hex_set_contains(visited, &c)
}

/// Adds the component of `start` among `player`'s stones (`m`) to `visited`,
/// walking outwards from `start`, and returns its size.
pub(crate) fn flood(
    game: &Game,
    player: Player,
    start: Hex,
    visited: &mut rustc_hash::FxHashSet<Hex>,
    Ghost(m): Ghost<Set<Hex>>,
) -> (size: usize)
    requires
        all_neighbours_fit(m),
        m == crate::ai::features::cells_of(game.board@, player),
        m.finite(),
        m.len() <= usize::MAX,
        hex_set(*old(visited)) <= m,
        closed_in(m, hex_set(*old(visited))),
        m.contains(start),
        !hex_set(*old(visited)).contains(start),
    ensures
        hex_set(*final(visited)) == hex_set(*old(visited)) + component(m, start),
        hex_set(*old(visited)).disjoint(component(m, start)),
        size == component(m, start).len(),
{
    let ghost v0 = hex_set(*visited);
    let axes = Hex::axes();
    let mut queue: Vec<Hex> = Vec::new();
    queue.push(start);
    let mut size: usize = 0;
    proof {
        lemma_connected_refl(m, start);
        assert(queue@[0] == start);
        assert(hex_set(*visited) - v0 =~= Set::<Hex>::empty());
    }
    while queue.len() > 0
        invariant
            all_neighbours_fit(m),
            axes@ == axes_spec(),
            m == crate::ai::features::cells_of(game.board@, player),
            m.finite(),
            m.len() <= usize::MAX,
            v0 <= m,
            closed_in(m, v0),
            m.contains(start),
            !v0.contains(start),
            v0 <= hex_set(*visited),
            hex_set(*visited) <= m,
            forall|v: Hex| #[trigger] hex_set(*visited).contains(v) && !v0.contains(v) ==> connected(m, start, v),
            forall|i: int| 0 <= i < queue@.len() ==> connected(m, start, #[trigger] queue@[i]),
            hex_set(*visited).contains(start) || queue@.contains(start),
            forall|v: Hex, n: Hex|
                #![trigger hex_set(*visited).contains(v), m.contains(n)]
                hex_set(*visited).contains(v) && !v0.contains(v) && m.contains(n) && adjacent(v, n)
                    ==> hex_set(*visited).contains(n) || queue@.contains(n),
            size == (hex_set(*visited) - v0).len(),
        decreases (m - hex_set(*visited)).len(), queue@.len(),
    {
        let ghost q0 = queue@;
        let ghost vis0 = hex_set(*visited);
        let h = queue.pop().unwrap();
        proof {
            assert(q0 == queue@.push(h));
            assert(q0[q0.len() - 1] == h);
            assert(connected(m, start, h));
            lemma_component_within(m, start);
            assert(component(m, start).contains(h));
            assert(m.contains(h));
            assert(game.board@.contains_key(h));
            assert forall|x: Hex| q0.contains(x) && x != h implies queue@.contains(x) by {
                let i = choose|i: int| 0 <= i < q0.len() && q0[i] == x;
                assert(i < queue@.len());
                assert(queue@[i] == x);
            }
            assert forall|i: int| 0 <= i < queue@.len() implies connected(m, start, #[trigger] queue@[i]) by {
                assert(queue@[i] == q0[i]);
            }
            vstd::set_lib::lemma_len_subset(vis0 - v0, m);
            vstd::set_lib::lemma_len_subset(m - vis0, m);
        }
        if !hex_set_insert(visited, h) {
            proof {
                assert(hex_set(*visited) == vis0);
                assert forall|v: Hex, n: Hex|
                    #![trigger hex_set(*visited).contains(v), m.contains(n)]
                    hex_set(*visited).contains(v) && !v0.contains(v) && m.contains(n) && adjacent(v, n)
                        implies hex_set(*visited).contains(n) || queue@.contains(n) by {
                    if !hex_set(*visited).contains(n) {
                        assert(q0.contains(n));
                        assert(n != h);
                    }
                }
            }
            continue;
        }
        proof {
            assert(!vis0.contains(h));
            assert(!v0.contains(h));
            assert(hex_set(*visited) - v0 =~= (vis0 - v0).insert(h));
            assert(m - hex_set(*visited) =~= (m - vis0).remove(h));
            vstd::set_lib::lemma_len_subset(hex_set(*visited) - v0, m);
        }
        size += 1;
        proof {
            reveal(all_neighbours_fit);
        }
        let ghost q1 = queue@;
        let mut i: usize = 0;
        while i < 3
            invariant
                axes@ == axes_spec(),
                m == crate::ai::features::cells_of(game.board@, player),
                neighbours_fit(h),
                m.contains(h),
                connected(m, start, h),
                hex_set(*visited) == vis0.insert(h),
                0 <= i <= 3,
                forall|x: Hex| q1.contains(x) ==> queue@.contains(x),
                forall|k: int| 0 <= k < queue@.len() ==> connected(m, start, #[trigger] queue@[k]),
                forall|k: int|
                    0 <= k < i ==> (m.contains(h.spec_add(#[trigger] axes_spec()[k])) ==> hex_set(*visited).contains(
                        h.spec_add(axes_spec()[k]),
                    ) || queue@.contains(h.spec_add(axes_spec()[k]))) && (m.contains(h.spec_sub(axes_spec()[k]))
                        ==> hex_set(*visited).contains(h.spec_sub(axes_spec()[k])) || queue@.contains(
                        h.spec_sub(axes_spec()[k]),
                    )),
            decreases 3 - i,
        {
            let dir = axes[i];
            let ghost qa = queue@;
            let fwd = h + dir;
            proof {
                crate::game::hex::lemma_neighbours_at_distance_one(h, dir);
            }
            if unvisited_own(game, visited, fwd, player) {
                proof {
                    lemma_connected_extend(m, start, h, fwd);
                }
                queue.push(fwd);
                proof {
                    assert(queue@[queue@.len() - 1] == fwd);
                    assert forall|x: Hex| qa.contains(x) implies queue@.contains(x) by {
                        let j = choose|j: int| 0 <= j < qa.len() && qa[j] == x;
                        assert(queue@[j] == x);
                    }
                }
            }
            let ghost qb = queue@;
            let bwd = h + Hex(-dir.0, -dir.1);
            proof {
                assert(bwd == h.spec_sub(dir));
                crate::game::hex::lemma_neighbours_at_distance_one(h, Hex((-dir.0) as i32, (-dir.1) as i32));
            }
            if unvisited_own(game, visited, bwd, player) {
                proof {
                    lemma_connected_extend(m, start, h, bwd);
                }
                queue.push(bwd);
                proof {
                    assert(queue@[queue@.len() - 1] == bwd);
                    assert forall|x: Hex| qb.contains(x) implies queue@.contains(x) by {
                        let j = choose|j: int| 0 <= j < qb.len() && qb[j] == x;
                        assert(queue@[j] == x);
                    }
                }
            }
            proof {
                assert(axes_spec()[i as int] == dir);
            }
            i += 1;
        }
        proof {
            assert forall|v: Hex, n: Hex|
                #![trigger hex_set(*visited).contains(v), m.contains(n)]
                hex_set(*visited).contains(v) && !v0.contains(v) && m.contains(n) && adjacent(v, n)
                    implies hex_set(*visited).contains(n) || queue@.contains(n) by {
                if v == h {
                    lemma_neighbours(h, n);
                    if n == h.spec_add(axes_spec()[0]) || n == h.spec_sub(axes_spec()[0]) {
                        assert(axes_spec()[0] == axes_spec()[0]);
                    } else if n == h.spec_add(axes_spec()[1]) || n == h.spec_sub(axes_spec()[1]) {
                        assert(axes_spec()[1] == axes_spec()[1]);
                    } else {
                        assert(axes_spec()[2] == axes_spec()[2]);
                    }
                } else {
                    assert(vis0.contains(v));
                    if !hex_set(*visited).contains(n) {
                        assert(q0.contains(n));
                        assert(n != h);
                        assert(q1.contains(n));
                    }
                }
            }
            assert forall|v: Hex| #[trigger] hex_set(*visited).contains(v) && !v0.contains(v) implies connected(m, start, v) by {
                if v != h {
                    assert(vis0.contains(v));
                }
            }
        }
    }
    proof {
        let vis = hex_set(*visited);
        assert(closed_in(m, vis)) by {
            assert forall|v: Hex, n: Hex| #[trigger] vis.contains(v) && #[trigger] m.contains(n) && adjacent(v, n)
                implies vis.contains(n) by {
                if v0.contains(v) {
                    assert(v0.contains(n));
                }
            }
        }
        assert(vis.contains(start));
        let comp = component(m, start);
        assert forall|b: Hex| #[trigger] comp.contains(b) implies vis.contains(b) && !v0.contains(b) by {
            lemma_closed_holds_component(m, vis, start, b);
            if v0.contains(b) {
                lemma_connected_symmetric(m, start, b);
                lemma_closed_holds_component(m, v0, b, start);
            }
        }
        assert(vis - v0 =~= comp);
        assert(vis =~= v0 + comp);
        assert(v0.disjoint(comp));
    }
    size
}

} // verus!
