//! Board measurements that evaluation features are built from.

use vstd::prelude::*;
use crate::game::board::lists_entries;
use crate::game::candidates::{hex_set, hex_set_contains, hex_set_new};
use crate::ai::cluster::{adjacent, closed_in, component, connected, flood, lemma_component_within, lemma_connected_extend, lemma_connected_refl, lemma_same_component, all_neighbours_fit};
use crate::game::game::{Game, is_step, line_ok, neg, own_at, pair_ok, run_spec, walk_ok};
use crate::game::hex::{Hex, add_defined, axes_spec, distance_defined, fits_i32, hex_dist};
use crate::game::player::Player;

verus! {

/// The cells holding `player`'s stones.
pub open spec fn cells_of(cells: Map<Hex, Player>, player: Player) -> Set<Hex> {
    Set::new(|h: Hex| cells.contains_key(h) && cells[h] == player)
}

/// The cell `k` steps from `hex` along `dir`.
pub open spec fn step_cell(hex: Hex, dir: Hex, k: int) -> Hex {
    Hex((hex.0 + dir.0 * k) as i32, (hex.1 + dir.1 * k) as i32)
}

/// `c` is free and within `size_limit` of the origin.
pub open spec fn is_open(cells: Map<Hex, Player>, size_limit: i32, c: Hex) -> bool {
    !cells.contains_key(c) && hex_dist(Hex(0, 0), c) <= size_limit
}

/// The cell just past the forward end of `player`'s run from `hex` along `dir`.
pub open spec fn front_end(cells: Map<Hex, Player>, hex: Hex, dir: Hex, player: Player) -> Hex {
    step_cell(hex, dir, run_spec(cells, hex, dir, player) as int + 1)
}

/// The cell just past the backward end of `player`'s run from `hex` along `dir`.
pub open spec fn back_end(cells: Map<Hex, Player>, hex: Hex, dir: Hex, player: Player) -> Hex {
    step_cell(hex, dir, -(run_spec(cells, hex, neg(dir), player) as int + 1))
}

/// How many of the two ends of the line through `hex` along `dir` are open.
pub open spec fn open_ends_spec(cells: Map<Hex, Player>, size_limit: i32, hex: Hex, dir: Hex, player: Player) -> int {
    (if is_open(cells, size_limit, front_end(cells, hex, dir, player)) { 1int } else { 0int })
        + (if is_open(cells, size_limit, back_end(cells, hex, dir, player)) { 1int } else { 0int })
}

/// The cell at offset `k` along `dir` from `hex` is computed without overflow.
pub open spec fn step_cell_defined(hex: Hex, dir: Hex, k: int) -> bool {
    &&& fits_i32(dir.0 * k)
    &&& fits_i32(dir.1 * k)
    &&& fits_i32(hex.0 + dir.0 * k)
    &&& fits_i32(hex.1 + dir.1 * k)
}

/// Whether `c` is open is decided without overflow: its distance from the
/// origin, which is only measured when `c` is free, fits in `i32`.
pub open spec fn openness_defined(cells: Map<Hex, Player>, c: Hex) -> bool {
    !cells.contains_key(c) ==> distance_defined(Hex(0, 0), c)
}

/// Every value `open_ends` computes fits in `i32`.
pub open spec fn open_ends_defined(cells: Map<Hex, Player>, hex: Hex, dir: Hex, player: Player) -> bool {
    let f = run_spec(cells, hex, dir, player) as int + 1;
    let b = run_spec(cells, hex, neg(dir), player) as int + 1;
    &&& pair_ok(cells, hex, dir, player)
    &&& fits_i32(f)
    &&& fits_i32(b)
    &&& step_cell_defined(hex, dir, f)
    &&& step_cell_defined(hex, dir, -b)
    &&& openness_defined(cells, front_end(cells, hex, dir, player))
    &&& openness_defined(cells, back_end(cells, hex, dir, player))
}

/// A direction whose coordinates are each at most one in size.
pub open spec fn is_unit(dir: Hex) -> bool {
    -1 <= dir.0 <= 1 && -1 <= dir.1 <= 1 && dir != Hex(0, 0)
}

// ---------------------------------------------------------------------------
// Sums over sets of cells
// ---------------------------------------------------------------------------

/// The sum of `g` over the cells of `s`.
pub open spec fn sum_over(s: Set<Hex>, g: spec_fn(Hex) -> int) -> int {
    s.fold(0int, |acc: int, h: Hex| acc + g(h))
}

/// The sum of `g` over the entries of `v`, in order.
pub open spec fn seq_sum(v: Seq<Hex>, g: spec_fn(Hex) -> int) -> int
    decreases v.len(),
{
    if v.len() == 0 {
        0
    } else {
        seq_sum(v.drop_last(), g) + g(v.last())
    }
}

/// Summing over a list without repeats is summing over its set.
pub proof fn lemma_seq_sum_is_set_sum(v: Seq<Hex>, g: spec_fn(Hex) -> int)
    requires
        v.no_duplicates(),
    ensures
        seq_sum(v, g) == sum_over(v.to_set(), g),
    decreases v.len(),
{
    let f = |acc: int, h: Hex| acc + g(h);
    if v.len() == 0 {
        assert(v.to_set() =~= Set::<Hex>::empty());
        vstd::set::fold::lemma_fold_empty(0int, f);
    } else {
        let w = v.drop_last();
        assert(w.no_duplicates());
        lemma_seq_sum_is_set_sum(w, g);
        assert(v =~= w.push(v.last()));
        assert(v.to_set() =~= w.to_set().insert(v.last()));
        assert(!w.to_set().contains(v.last())) by {
            if w.to_set().contains(v.last()) {
                let k = choose|k: int| 0 <= k < w.len() && w[k] == v.last();
                assert(v[k] == v[v.len() - 1]);
            }
        }
        assert(vstd::set::fold::is_fun_commutative(f)) by {
            assert forall|a1: Hex, a2: Hex, b: int| #[trigger] f(f(b, a1), a2) == f(f(b, a2), a1) by {}
        }
        vstd::seq_lib::seq_to_set_is_finite(w);
        vstd::set::fold::lemma_fold_insert(w.to_set(), 0int, f, v.last());
    }
}

/// `seq_sum` over a prefix one longer adds the next entry.
pub proof fn lemma_seq_sum_take(v: Seq<Hex>, g: spec_fn(Hex) -> int, k: int)
    requires
        0 <= k < v.len(),
    ensures
        seq_sum(v.take(k + 1), g) == seq_sum(v.take(k), g) + g(v[k]),
{
    assert(v.take(k + 1).drop_last() =~= v.take(k));
}

impl<'a> Game<'a> {
    /// The cells holding the mover's stones, each once, in no stated order.
    pub fn my_cells(&self) -> (v: Vec<Hex>)
        ensures
            v@.no_duplicates(),
            v@.to_set() == cells_of(self.board@, self.turn),
    {
        self.cells_of_player(self.turn)
    }

    /// The cells holding the opponent's stones, each once, in no stated order.
    pub fn opp_cells(&self) -> (v: Vec<Hex>)
        ensures
            v@.no_duplicates(),
            v@.to_set() == cells_of(self.board@, self.turn.opponent_spec()),
    {
        self.cells_of_player(self.turn.opponent())
    }

    pub(crate) fn cells_of_player(&self, p: Player) -> (v: Vec<Hex>)
        ensures
            v@.no_duplicates(),
            v@.to_set() == cells_of(self.board@, p),
    {
        let entries = self.board.entries();
        let mut out: Vec<Hex> = Vec::new();
        let mut n: usize = 0;
        while n < entries.len()
            invariant
                lists_entries(self.board@, entries@),
                0 <= n <= entries.len(),
                out@.no_duplicates(),
                out@.to_set() == Set::new(|h: Hex| exists|j: int| 0 <= j < n && entries@[j].0 == h && entries@[j].1 == p),
            decreases entries.len() - n,
        {
            let (h, q) = entries[n];
            let ghost before = out@;
            let ghost s0 = Set::new(|x: Hex| exists|j: int| 0 <= j < n && entries@[j].0 == x && entries@[j].1 == p);
            let ghost s1 = Set::new(|x: Hex| exists|j: int| 0 <= j < n + 1 && entries@[j].0 == x && entries@[j].1 == p);
            if q == p {
                proof {
                    assert(!before.contains(h)) by {
                        if before.contains(h) {
                            assert(before.to_set().contains(h));
                            let j = choose|j: int| 0 <= j < n && entries@[j].0 == h && entries@[j].1 == p;
                            assert(entries@[j].0 != entries@[n as int].0);
                        }
                    }
                }
                out.push(h);
                proof {
                    assert(out@ == before.push(h));
                    before.lemma_push_to_set_commute(h);
                    assert forall|x: Hex| #[trigger] s1.contains(x) <==> s0.insert(h).contains(x) by {
                        if s1.contains(x) {
                            let j = choose|j: int| 0 <= j < n + 1 && entries@[j].0 == x && entries@[j].1 == p;
                            if j < n {
                                assert(s0.contains(x));
                            }
                        }
                        if s0.contains(x) {
                            let j = choose|j: int| 0 <= j < n && entries@[j].0 == x && entries@[j].1 == p;
                            assert(0 <= j < n + 1 && entries@[j].0 == x && entries@[j].1 == p);
                        }
                        if x == h {
                            let j = n as int;
                            assert(0 <= j < n + 1 && entries@[j].0 == x && entries@[j].1 == p);
                        }
                    }
                    assert(s1 =~= s0.insert(h));
                }
            } else {
                proof {
                    assert forall|x: Hex| #[trigger] s1.contains(x) <==> s0.contains(x) by {
                        if s1.contains(x) {
                            let j = choose|j: int| 0 <= j < n + 1 && entries@[j].0 == x && entries@[j].1 == p;
                            assert(j != n);
                            assert(s0.contains(x));
                        }
                        if s0.contains(x) {
                            let j = choose|j: int| 0 <= j < n && entries@[j].0 == x && entries@[j].1 == p;
                            assert(0 <= j < n + 1 && entries@[j].0 == x && entries@[j].1 == p);
                        }
                    }
                    assert(s1 =~= s0);
                }
            }
            n += 1;
        }
        proof {
            let all = Set::new(|x: Hex| exists|j: int| 0 <= j < entries@.len() && entries@[j].0 == x && entries@[j].1 == p);
            assert forall|x: Hex| #[trigger] all.contains(x) <==> cells_of(self.board@, p).contains(x) by {
                if all.contains(x) {
                    let j = choose|j: int| 0 <= j < entries@.len() && entries@[j].0 == x && entries@[j].1 == p;
                    assert(self.board@.contains_key(entries@[j].0));
                }
                if cells_of(self.board@, p).contains(x) {
                    assert(self.board@.contains_key(x));
                    let j = choose|j: int| 0 <= j < entries@.len() && entries@[j].0 == x;
                    assert(entries@[j].1 == p);
                }
            }
            assert(all =~= cells_of(self.board@, p));
        }
        out
    }

    /// The number of `player`'s stones in a row after `start` along `dir`.
    pub fn run_len(&self, start: Hex, dir: Hex, player: Player) -> (n: i32)
        requires
            is_step(dir),
            walk_ok(self.board@, start, dir, player),
            run_spec(self.board@, start, dir, player) <= i32::MAX,
        ensures
            n == run_spec(self.board@, start, dir, player),
    {
        self.count_dir(start, dir, player)
    }

    /// The runs of `player`'s stones after `hex` forward and backward along `dir`.
    pub fn run_pair(&self, hex: Hex, dir: Hex, player: Player) -> (r: (i32, i32))
        requires
            is_step(dir),
            pair_ok(self.board@, hex, dir, player),
        ensures
            r.0 == run_spec(self.board@, hex, dir, player),
            r.1 == run_spec(self.board@, hex, neg(dir), player),
    {
        let fwd = self.run_len(hex, dir, player);
        let bwd = self.run_len(hex, Hex(-dir.0, -dir.1), player);
        (fwd, bwd)
    }

    /// The length of the line of `player`'s stones through `hex` along `dir`,
    /// counting `hex` itself.
    pub fn line_len(&self, hex: Hex, dir: Hex, player: Player) -> (n: i32)
        requires
            is_step(dir),
            line_ok(self.board@, hex, dir, player),
        ensures
            n == crate::game::game::line_len_spec(self.board@, hex, dir, player),
    {
        let (f, b) = self.run_pair(hex, dir, player);
        1 + f + b
    }

    /// How many ends of the line of `player`'s stones through `hex` along `dir`
    /// are free cells within the size limit.
    pub fn open_ends(&self, hex: Hex, dir: Hex, player: Player) -> (n: i32)
        requires
            is_step(dir),
            open_ends_defined(self.board@, hex, dir, player),
        ensures
            n == open_ends_spec(self.board@, self.cfg.size_limit, hex, dir, player),
    {
        let (f, b) = self.run_pair(hex, dir, player);
        let front = hex + Hex(dir.0 * (f + 1), dir.1 * (f + 1));
        proof {
            assert((-dir.0) * (b + 1) == dir.0 * (-(b + 1))) by (nonlinear_arith);
            assert((-dir.1) * (b + 1) == dir.1 * (-(b + 1))) by (nonlinear_arith);
        }
        let back = hex + Hex(-dir.0 * (b + 1), -dir.1 * (b + 1));
        let front_open = self.board.is_empty(&front) && Hex::origin().distance(front) <= self.cfg.size_limit;
        let back_open = self.board.is_empty(&back) && Hex::origin().distance(back) <= self.cfg.size_limit;
        (if front_open { 1i32 } else { 0i32 }) + (if back_open { 1i32 } else { 0i32 })
    }
}

// ---------------------------------------------------------------------------
// Features
// ---------------------------------------------------------------------------

/// The length of the longest line of `player`'s stones through `h` along any axis.
pub open spec fn best_line_at(cells: Map<Hex, Player>, h: Hex, player: Player) -> int {
    let a = crate::game::game::line_len_spec(cells, h, axes_spec()[0], player);
    let b = crate::game::game::line_len_spec(cells, h, axes_spec()[1], player);
    let c = crate::game::game::line_len_spec(cells, h, axes_spec()[2], player);
    if a >= b && a >= c { a } else if b >= c { b } else { c }
}

/// The three lines through `h` along the axes are measured in `i32` without
/// overflow.
pub open spec fn lines_ok(cells: Map<Hex, Player>, h: Hex, player: Player) -> bool {
    forall|i: int| 0 <= i < 3 ==> line_ok(cells, h, #[trigger] axes_spec()[i], player)
}

/// The longest line of the mover's stones.
pub struct LongestRun;

impl LongestRun {
    pub fn name(&self) -> (n: &'static str)
        ensures
            n@ == "longest_run"@,
    {
        "longest_run"
    }

    /// The length of the longest line of the mover's stones along any axis, or
    /// zero when the mover has no stones.
    pub fn score_value(&self, game: &Game) -> (r: i32)
        requires
            forall|h: Hex| #[trigger] cells_of(game.board@, game.turn).contains(h) ==> lines_ok(game.board@, h, game.turn),
        ensures
            forall|h: Hex| #[trigger] cells_of(game.board@, game.turn).contains(h)
                ==> best_line_at(game.board@, h, game.turn) <= r,
            (exists|h: Hex| #[trigger] cells_of(game.board@, game.turn).contains(h))
                ==> exists|h: Hex| #[trigger] cells_of(game.board@, game.turn).contains(h)
                && best_line_at(game.board@, h, game.turn) == r,
            !(exists|h: Hex| #[trigger] cells_of(game.board@, game.turn).contains(h)) ==> r == 0,
            forall|h: Hex| #[trigger] cells_of(game.board@, game.turn).contains(h) ==> {
                &&& crate::game::game::line_len_spec(game.board@, h, Hex(1, 0), game.turn) <= r
                &&& crate::game::game::line_len_spec(game.board@, h, Hex(0, 1), game.turn) <= r
                &&& crate::game::game::line_len_spec(game.board@, h, Hex(1, -1i32), game.turn) <= r
            },
    {
        let player = game.turn;
        let mine = game.my_cells();
        let axes = Hex::axes();
        let mut best: i32 = 0;
        let mut k: usize = 0;
        while k < mine.len()
            invariant
                forall|h: Hex| #[trigger] cells_of(game.board@, game.turn).contains(h) ==> lines_ok(game.board@, h, game.turn),
                player == game.turn,
                axes@ == axes_spec(),
                mine@.to_set() == cells_of(game.board@, player),
                0 <= k <= mine.len(),
                forall|j: int| 0 <= j < k ==> best_line_at(game.board@, #[trigger] mine@[j], player) <= best,
                k == 0 ==> best == 0,
                k > 0 ==> exists|j: int| 0 <= j < k && best_line_at(game.board@, #[trigger] mine@[j], player) == best,
            decreases mine.len() - k,
        {
            let h = mine[k];
            proof {
                assert(mine@.to_set().contains(h));
                assert(game.board@.contains_key(h));
            }
            let a = game.line_len(h, axes[0], player);
            let b = game.line_len(h, axes[1], player);
            let c = game.line_len(h, axes[2], player);
            let m = if a >= b && a >= c { a } else if b >= c { b } else { c };
            proof {
                crate::game::game::lemma_run_bound(game.board@, h, axes_spec()[0], player);
                assert(m >= 1);
            }
            if k == 0 || m > best {
                best = m;
            }
            k += 1;
        }
        proof {
            assert forall|h: Hex| #[trigger] cells_of(game.board@, player).contains(h)
                implies best_line_at(game.board@, h, player) <= best by {
                assert(mine@.to_set().contains(h));
                let j = choose|j: int| 0 <= j < mine@.len() && mine@[j] == h;
                assert(best_line_at(game.board@, mine@[j], player) <= best);
            }
            assert forall|h: Hex| #[trigger] cells_of(game.board@, player).contains(h) implies {
                &&& crate::game::game::line_len_spec(game.board@, h, Hex(1, 0), player) <= best
                &&& crate::game::game::line_len_spec(game.board@, h, Hex(0, 1), player) <= best
                &&& crate::game::game::line_len_spec(game.board@, h, Hex(1, -1i32), player) <= best
            } by {
                crate::ai::laws::lemma_best_line_covers_all_axes(game.board@, h, player);
            }
            if exists|h: Hex| #[trigger] cells_of(game.board@, player).contains(h) {
                let h = choose|h: Hex| #[trigger] cells_of(game.board@, player).contains(h);
                assert(mine@.to_set().contains(h));
                assert(mine@.len() > 0);
                let j = choose|j: int| 0 <= j < k && best_line_at(game.board@, #[trigger] mine@[j], player) == best;
                assert(mine@.to_set().contains(mine@[j]));
            } else {
                if mine@.len() > 0 {
                    assert(mine@.to_set().contains(mine@[0]));
                }
            }
        }
        best
    }
}

/// The cell just behind `h` along `d` holds `player`'s stone, so `h` does not
/// start a run along `d`.
pub open spec fn continues_run(cells: Map<Hex, Player>, h: Hex, d: Hex, player: Player) -> bool {
    own_at(cells, h.spec_add(neg(d)), player)
}

/// The threat score of the run of `player`'s stones that starts at `h` along
/// `d`: zero when `h` does not start a run or the run can never reach `win`
/// even using its open ends; otherwise the square of its length times one
/// plus its number of open ends.
pub open spec fn threat_term(cells: Map<Hex, Player>, lim: i32, win: i32, h: Hex, d: Hex, player: Player) -> int {
    if continues_run(cells, h, d, player) {
        0
    } else {
        let len = 1 + run_spec(cells, h, d, player) as int;
        let ends = open_ends_spec(cells, lim, h, d, player);
        if len + ends * (win - len) < win {
            0
        } else {
            len * len * (1 + ends)
        }
    }
}

/// Deciding whether `h` starts a run along `d`, and measuring that run and its
/// open ends, stays within `i32`.
pub open spec fn run_start_ok(cells: Map<Hex, Player>, h: Hex, d: Hex, player: Player) -> bool {
    &&& add_defined(h, neg(d))
    &&& !continues_run(cells, h, d, player) ==> open_ends_defined(cells, h, d, player)
}

/// The `i32` arithmetic of a threat term does not overflow.
pub open spec fn threat_term_defined(cells: Map<Hex, Player>, lim: i32, win: i32, h: Hex, d: Hex, player: Player) -> bool {
    &&& run_start_ok(cells, h, d, player)
    &&& !continues_run(cells, h, d, player) ==> {
        let len = 1 + run_spec(cells, h, d, player) as int;
        let ends = open_ends_spec(cells, lim, h, d, player);
        &&& fits_i32(win - len)
        &&& fits_i32(ends * (win - len))
        &&& fits_i32(len + ends * (win - len))
        &&& (len + ends * (win - len) >= win ==> fits_i32(len * len))
    }
}

/// The threat scores of the runs starting at `h`, over the three axes.
pub open spec fn threat_cell(cells: Map<Hex, Player>, lim: i32, win: i32, h: Hex, player: Player) -> int {
    threat_term(cells, lim, win, h, axes_spec()[0], player) + threat_term(cells, lim, win, h, axes_spec()[1], player)
        + threat_term(cells, lim, win, h, axes_spec()[2], player)
}

/// The threat scores of `player`'s runs starting at `h` are computed without overflow.
pub open spec fn threat_cell_defined(cells: Map<Hex, Player>, lim: i32, win: i32, h: Hex, player: Player) -> bool {
    &&& threat_term_defined(cells, lim, win, h, axes_spec()[0], player)
    &&& threat_term_defined(cells, lim, win, h, axes_spec()[1], player)
    &&& threat_term_defined(cells, lim, win, h, axes_spec()[2], player)
}

/// The total threat score of `player`'s runs.
pub open spec fn threat_total(cells: Map<Hex, Player>, lim: i32, win: i32, player: Player) -> int {
    sum_over(cells_of(cells, player), |h: Hex| threat_cell(cells, lim, win, h, player))
}

/// The threat score of every run of `player`'s stones is computed without overflow.
pub open spec fn threat_total_defined(cells: Map<Hex, Player>, lim: i32, win: i32, player: Player) -> bool {
    forall|h: Hex| #[trigger] cells_of(cells, player).contains(h) ==> threat_cell_defined(cells, lim, win, h, player)
}

/// The threat score of the run starting at `hex` along `dir`.
fn threat_term_at(game: &Game, hex: Hex, dir: Hex, player: Player) -> (t: i128)
    requires
        axes_spec().contains(dir),
        threat_term_defined(game.board@, game.cfg.size_limit, game.cfg.win_distance, hex, dir, player),
    ensures
        t == threat_term(game.board@, game.cfg.size_limit, game.cfg.win_distance, hex, dir, player),
        0 <= t <= 3 * i32::MAX,
{
    let win = game.cfg.win_distance;
    let bwd = Hex(-dir.0, -dir.1);
    match game.board.get(&(hex + bwd)) {
        Some(p) if *p == player => {
            return 0;
        },
        _ => {},
    }
    let (fwd_len, _) = game.run_pair(hex, dir, player);
    let len = 1 + fwd_len;
    let ends = game.open_ends(hex, dir, player);
    if len + ends * (win - len) < win {
        return 0;
    }
    let sq = len * len;
    proof {
        assert(0 <= sq * (1 + ends) <= 3 * i32::MAX) by (nonlinear_arith)
            requires 0 <= sq <= i32::MAX, 0 <= ends <= 2;
    }
    (sq as i128) * ((1 + ends) as i128)
}

/// The threat scores of the runs starting at `hex`, over the three axes.
fn threat_at(game: &Game, hex: Hex, player: Player) -> (t: i128)
    requires
        threat_cell_defined(game.board@, game.cfg.size_limit, game.cfg.win_distance, hex, player),
    ensures
        t == threat_cell(game.board@, game.cfg.size_limit, game.cfg.win_distance, hex, player),
        0 <= t <= 9 * i32::MAX,
{
    let axes = Hex::axes();
    proof {
        assert(axes_spec().contains(axes_spec()[0]));
        assert(axes_spec().contains(axes_spec()[1]));
        assert(axes_spec().contains(axes_spec()[2]));
    }
    let a = threat_term_at(game, hex, axes[0], player);
    let b = threat_term_at(game, hex, axes[1], player);
    let c = threat_term_at(game, hex, axes[2], player);
    a + b + c
}

/// The total threat score of `player`'s runs, summed over `cells`, which lists
/// `player`'s stones.
fn threat_sum(game: &Game, cells: &Vec<Hex>, player: Player) -> (t: i128)
    requires
        cells@.no_duplicates(),
        cells@.to_set() == cells_of(game.board@, player),
        threat_total_defined(game.board@, game.cfg.size_limit, game.cfg.win_distance, player),
    ensures
        t == threat_total(game.board@, game.cfg.size_limit, game.cfg.win_distance, player),
{
    let ghost g = |h: Hex| threat_cell(game.board@, game.cfg.size_limit, game.cfg.win_distance, h, player);
    let mut total: i128 = 0;
    let mut k: usize = 0;
    while k < cells.len()
        invariant
            cells@.to_set() == cells_of(game.board@, player),
            threat_total_defined(game.board@, game.cfg.size_limit, game.cfg.win_distance, player),
            g == (|h: Hex| threat_cell(game.board@, game.cfg.size_limit, game.cfg.win_distance, h, player)),
            0 <= k <= cells.len(),
            total == seq_sum(cells@.take(k as int), g),
            0 <= total <= k * (9 * i32::MAX),
        decreases cells.len() - k,
    {
        let h = cells[k];
        proof {
            assert(cells@.to_set().contains(h));
            assert(game.board@.contains_key(h));
            lemma_seq_sum_take(cells@, g, k as int);
        }
        let t = threat_at(game, h, player);
        proof {
            assert(k * (9 * i32::MAX) + 9 * i32::MAX == (k + 1) * (9 * i32::MAX)) by (nonlinear_arith);
            assert(k * (9 * i32::MAX) <= usize::MAX * (9 * i32::MAX)) by (nonlinear_arith)
                requires k <= usize::MAX;
        }
        total = total + t;
        k += 1;
    }
    proof {
        assert(cells@.take(cells@.len() as int) =~= cells@);
        lemma_seq_sum_is_set_sum(cells@, g);
    }
    total
}

/// The weighted count of the mover's runs that can still grow into a win.
pub struct ThreatScore;

impl ThreatScore {
    pub fn name(&self) -> (n: &'static str)
        ensures
            n@ == "threat_score"@,
    {
        "threat_score"
    }

    /// The sum, over the runs of the mover's stones (each counted from its
    /// start along each axis) that could still reach the winning length through
    /// their open ends, of the squared run length times one plus the number of
    /// open ends.
    pub fn score_value(&self, game: &Game) -> (r: i128)
        requires
            threat_total_defined(game.board@, game.cfg.size_limit, game.cfg.win_distance, game.turn),
        ensures
            r == threat_total(game.board@, game.cfg.size_limit, game.cfg.win_distance, game.turn),
    {
        let mine = game.my_cells();
        threat_sum(game, &mine, game.turn)
    }
}

/// The same weighted count for the opponent's runs.
pub struct OpponentThreat;

impl OpponentThreat {
    pub fn name(&self) -> (n: &'static str)
        ensures
            n@ == "opponent_threat"@,
    {
        "opponent_threat"
    }

    /// `ThreatScore`'s sum taken over the opponent's stones and runs.
    pub fn score_value(&self, game: &Game) -> (r: i128)
        requires
            threat_total_defined(game.board@, game.cfg.size_limit, game.cfg.win_distance, game.turn.opponent_spec()),
        ensures
            r == threat_total(game.board@, game.cfg.size_limit, game.cfg.win_distance, game.turn.opponent_spec()),
    {
        let theirs = game.opp_cells();
        threat_sum(game, &theirs, game.turn.opponent())
    }
}

/// The opponent's threat in a position is exactly the threat score of the
/// same board and configuration with the other player to move, and one is
/// computed without overflow exactly when the other is.
pub proof fn lemma_opponent_threat_swaps_mover(g1: Game, g2: Game)
    requires
        g1.board@ == g2.board@,
        g1.cfg == g2.cfg,
        g2.turn == g1.turn.opponent_spec(),
    ensures
        threat_total(g1.board@, g1.cfg.size_limit, g1.cfg.win_distance, g1.turn.opponent_spec()) == threat_total(
            g2.board@,
            g2.cfg.size_limit,
            g2.cfg.win_distance,
            g2.turn,
        ),
        threat_total_defined(g1.board@, g1.cfg.size_limit, g1.cfg.win_distance, g1.turn.opponent_spec())
            == threat_total_defined(g2.board@, g2.cfg.size_limit, g2.cfg.win_distance, g2.turn),
{
}

/// The run of `player`'s stones that starts at `h` along `d` is at least
/// `min_len` long and has an open end.
pub open spec fn open_threat_term(cells: Map<Hex, Player>, lim: i32, min_len: int, h: Hex, d: Hex, player: Player) -> int {
    if !continues_run(cells, h, d, player) && 1 + run_spec(cells, h, d, player) >= min_len
        && open_ends_spec(cells, lim, h, d, player) >= 1 {
        1
    } else {
        0
    }
}

/// The open threats starting at `h`, over the three axes.
pub open spec fn open_threat_cell(cells: Map<Hex, Player>, lim: i32, min_len: int, h: Hex, player: Player) -> int {
    open_threat_term(cells, lim, min_len, h, axes_spec()[0], player) + open_threat_term(cells, lim, min_len, h, axes_spec()[1], player)
        + open_threat_term(cells, lim, min_len, h, axes_spec()[2], player)
}

/// The runs that may start at `h` along the three axes are checked without
/// overflow.
pub open spec fn run_starts_ok(cells: Map<Hex, Player>, h: Hex, player: Player) -> bool {
    forall|i: int| 0 <= i < 3 ==> run_start_ok(cells, h, #[trigger] axes_spec()[i], player)
}

/// The open threats starting at `hex`, over the three axes.
fn open_threats_at(game: &Game, hex: Hex, min_len: i32, player: Player) -> (t: i128)
    requires
        run_starts_ok(game.board@, hex, player),
    ensures
        t == open_threat_cell(game.board@, game.cfg.size_limit, min_len as int, hex, player),
        0 <= t <= 3,
{
    let axes = Hex::axes();
    let mut count: i128 = 0;
    let mut i: usize = 0;
    while i < 3
        invariant
            run_starts_ok(game.board@, hex, player),
            axes@ == axes_spec(),
            0 <= i <= 3,
            count == (if i > 0 { open_threat_term(game.board@, game.cfg.size_limit, min_len as int, hex, axes_spec()[0], player) } else { 0 })
                + (if i > 1 { open_threat_term(game.board@, game.cfg.size_limit, min_len as int, hex, axes_spec()[1], player) } else { 0 })
                + (if i > 2 { open_threat_term(game.board@, game.cfg.size_limit, min_len as int, hex, axes_spec()[2], player) } else { 0 }),
        decreases 3 - i,
    {
        let dir = axes[i];
        proof {
            assert(run_start_ok(game.board@, hex, axes_spec()[i as int], player));
        }
        let bwd = Hex(-dir.0, -dir.1);
        let starts = match game.board.get(&(hex + bwd)) {
            Some(p) => *p != player,
            None => true,
        };
        if starts {
            let (fwd_len, _) = game.run_pair(hex, dir, player);
            let len = 1 + fwd_len;
            let ends = game.open_ends(hex, dir, player);
            if len >= min_len && ends >= 1 {
                count = count + 1;
            }
        }
        i += 1;
    }
    count
}

/// How many of the mover's runs are within a given distance of winning and have an open end.
pub struct OpenThreats(pub i32);

impl OpenThreats {
    pub fn name(&self) -> (n: &'static str)
        ensures
            n@ == "open_threats"@,
    {
        "open_threats"
    }

    /// The number of runs of the mover's stones (each counted from its start
    /// along each axis) at least `win_distance - self.0` long with an open end.
    pub fn score_value(&self, game: &Game) -> (r: i128)
        requires
            fits_i32(game.cfg.win_distance - self.0),
            forall|h: Hex| #[trigger] cells_of(game.board@, game.turn).contains(h) ==> run_starts_ok(game.board@, h, game.turn),
        ensures
            r == sum_over(
                cells_of(game.board@, game.turn),
                |h: Hex| open_threat_cell(game.board@, game.cfg.size_limit, game.cfg.win_distance - self.0, h, game.turn),
            ),
    {
        let player = game.turn;
        let min_len = game.cfg.win_distance - self.0;
        let mine = game.my_cells();
        let ghost g = |h: Hex| open_threat_cell(game.board@, game.cfg.size_limit, min_len as int, h, player);
        let mut total: i128 = 0;
        let mut k: usize = 0;
        while k < mine.len()
            invariant
                forall|h: Hex| #[trigger] cells_of(game.board@, game.turn).contains(h) ==> run_starts_ok(game.board@, h, game.turn),
                player == game.turn,
                mine@.to_set() == cells_of(game.board@, player),
                g == (|h: Hex| open_threat_cell(game.board@, game.cfg.size_limit, min_len as int, h, player)),
                0 <= k <= mine.len(),
                total == seq_sum(mine@.take(k as int), g),
                0 <= total <= 3 * k,
            decreases mine.len() - k,
        {
            let h = mine[k];
            proof {
                assert(mine@.to_set().contains(h));
                assert(game.board@.contains_key(h));
                lemma_seq_sum_take(mine@, g, k as int);
            }
            let t = open_threats_at(game, h, min_len, player);
            total = total + t;
            k += 1;
        }
        proof {
            assert(mine@.take(mine@.len() as int) =~= mine@);
            lemma_seq_sum_is_set_sum(mine@, g);
        }
        total
    }
}

/// Along `d` from `h`: the next cell is free and the one after holds
/// `player`'s stone, and filling the gap would make a line at least `win - 1`
/// long.
pub open spec fn gap_term(cells: Map<Hex, Player>, win: i32, h: Hex, d: Hex, player: Player) -> int {
    let gap = h.spec_add(d);
    let far = gap.spec_add(d);
    if !cells.contains_key(gap) && own_at(cells, far, player) && 1 + run_spec(cells, h, neg(d), player) + 1 + 1
        + run_spec(cells, far, d, player) >= win - 1 {
        1
    } else {
        0
    }
}

/// The gap threats at `h`, over the three axes.
pub open spec fn gap_cell(cells: Map<Hex, Player>, win: i32, h: Hex, player: Player) -> int {
    gap_term(cells, win, h, axes_spec()[0], player) + gap_term(cells, win, h, axes_spec()[1], player)
        + gap_term(cells, win, h, axes_spec()[2], player)
}

/// The gap check along `d` from `h` stays within `i32`.
pub open spec fn gap_ok(cells: Map<Hex, Player>, h: Hex, d: Hex, player: Player) -> bool {
    let gap = h.spec_add(d);
    let far = gap.spec_add(d);
    &&& add_defined(h, d)
    &&& !cells.contains_key(gap) ==> {
        &&& add_defined(gap, d)
        &&& own_at(cells, far, player) ==> {
            &&& pair_ok(cells, h, d, player)
            &&& pair_ok(cells, far, d, player)
            &&& 3 + run_spec(cells, h, neg(d), player) + run_spec(cells, far, d, player) <= i32::MAX
        }
    }
}

/// The gap checks along the three axes from `h` stay within `i32`.
pub open spec fn gaps_ok(cells: Map<Hex, Player>, h: Hex, player: Player) -> bool {
    forall|i: int| 0 <= i < 3 ==> gap_ok(cells, h, #[trigger] axes_spec()[i], player)
}

/// The gap threats at `hex`, over the three axes.
fn gaps_at(game: &Game, hex: Hex, player: Player) -> (t: i128)
    requires
        gaps_ok(game.board@, hex, player),
        game.cfg.win_distance > i32::MIN,
    ensures
        t == gap_cell(game.board@, game.cfg.win_distance, hex, player),
        0 <= t <= 3,
{
    let win = game.cfg.win_distance;
    let axes = Hex::axes();
    let mut count: i128 = 0;
    let mut i: usize = 0;
    while i < 3
        invariant
            gaps_ok(game.board@, hex, player),
            win == game.cfg.win_distance,
            win > i32::MIN,
            axes@ == axes_spec(),
            0 <= i <= 3,
            count == (if i > 0 { gap_term(game.board@, win, hex, axes_spec()[0], player) } else { 0 })
                + (if i > 1 { gap_term(game.board@, win, hex, axes_spec()[1], player) } else { 0 })
                + (if i > 2 { gap_term(game.board@, win, hex, axes_spec()[2], player) } else { 0 }),
        decreases 3 - i,
    {
        let dir = axes[i];
        proof {
            assert(gap_ok(game.board@, hex, axes_spec()[i as int], player));
        }
        let gap = hex + dir;
        if game.board.is_empty(&gap) {
            let far = gap + dir;
            let owned = match game.board.get(&far) {
                Some(p) => *p == player,
                None => false,
            };
            if owned {
                let (_, behind) = game.run_pair(hex, dir, player);
                let (ahead, _) = game.run_pair(far, dir, player);
                let virtual_len = 1 + behind + 1 + 1 + ahead;
                if virtual_len >= win - 1 {
                    count = count + 1;
                }
            }
        }
        i += 1;
    }
    count
}

/// How many one-cell gaps the mover could fill to make a nearly winning line.
pub struct GapThreats;

impl GapThreats {
    pub fn name(&self) -> (n: &'static str)
        ensures
            n@ == "gap_threats"@,
    {
        "gap_threats"
    }

    /// The number of (stone, axis) pairs of the mover where the next cell along
    /// the axis is free, the one after is the mover's, and filling the gap would
    /// make a line at least `win_distance - 1` long.
    pub fn score_value(&self, game: &Game) -> (r: i128)
        requires
            game.cfg.win_distance > i32::MIN,
            forall|h: Hex| #[trigger] cells_of(game.board@, game.turn).contains(h) ==> gaps_ok(game.board@, h, game.turn),
        ensures
            r == sum_over(
                cells_of(game.board@, game.turn),
                |h: Hex| gap_cell(game.board@, game.cfg.win_distance, h, game.turn),
            ),
    {
        let player = game.turn;
        let mine = game.my_cells();
        let ghost g = |h: Hex| gap_cell(game.board@, game.cfg.win_distance, h, player);
        let mut total: i128 = 0;
        let mut k: usize = 0;
        while k < mine.len()
            invariant
                game.cfg.win_distance > i32::MIN,
                forall|h: Hex| #[trigger] cells_of(game.board@, game.turn).contains(h) ==> gaps_ok(game.board@, h, game.turn),
                player == game.turn,
                mine@.to_set() == cells_of(game.board@, player),
                g == (|h: Hex| gap_cell(game.board@, game.cfg.win_distance, h, player)),
                0 <= k <= mine.len(),
                total == seq_sum(mine@.take(k as int), g),
                0 <= total <= 3 * k,
            decreases mine.len() - k,
        {
            let h = mine[k];
            proof {
                assert(mine@.to_set().contains(h));
                assert(game.board@.contains_key(h));
                lemma_seq_sum_take(mine@, g, k as int);
            }
            let t = gaps_at(game, h, player);
            total = total + t;
            k += 1;
        }
        proof {
            assert(mine@.take(mine@.len() as int) =~= mine@);
            lemma_seq_sum_is_set_sum(mine@, g);
        }
        total
    }
}

/// No stone of `player` lies one or two steps from `h` along `d`, either way.
pub open spec fn clear_along(cells: Map<Hex, Player>, h: Hex, d: Hex, player: Player) -> bool {
    &&& !own_at(cells, step_cell(h, d, 1), player)
    &&& !own_at(cells, step_cell(h, d, 2), player)
    &&& !own_at(cells, step_cell(h, d, -1), player)
    &&& !own_at(cells, step_cell(h, d, -2), player)
}

/// No stone of `player` lies within two steps of `h` along any axis.
pub open spec fn isolated(cells: Map<Hex, Player>, h: Hex, player: Player) -> bool {
    clear_along(cells, h, axes_spec()[0], player) && clear_along(cells, h, axes_spec()[1], player)
        && clear_along(cells, h, axes_spec()[2], player)
}

/// The cells `own_near_along(h, d)` looks at, one and two steps forward and
/// then backward until one holds `player`'s stone, are computed without
/// overflow.
pub open spec fn near_along_ok(cells: Map<Hex, Player>, h: Hex, d: Hex, player: Player) -> bool {
    &&& step_cell_defined(h, d, 1)
    &&& !own_at(cells, step_cell(h, d, 1), player) ==> {
        &&& step_cell_defined(h, d, 2)
        &&& !own_at(cells, step_cell(h, d, 2), player) ==> {
            &&& step_cell_defined(h, d, -1)
            &&& !own_at(cells, step_cell(h, d, -1), player) ==> step_cell_defined(h, d, -2)
        }
    }
}

/// The cells the isolation check of `h` looks at, axis by axis until one
/// finds a stone of `player`, are computed without overflow.
pub open spec fn isolation_ok(cells: Map<Hex, Player>, h: Hex, player: Player) -> bool {
    &&& near_along_ok(cells, h, axes_spec()[0], player)
    &&& clear_along(cells, h, axes_spec()[0], player) ==> near_along_ok(cells, h, axes_spec()[1], player)
    &&& clear_along(cells, h, axes_spec()[0], player) && clear_along(cells, h, axes_spec()[1], player)
        ==> near_along_ok(cells, h, axes_spec()[2], player)
}

/// Whether `player` has a stone within two steps of `hex` along `dir`, either way.
fn own_near_along(game: &Game, hex: Hex, dir: Hex, player: Player) -> (b: bool)
    requires
        is_unit(dir),
        near_along_ok(game.board@, hex, dir, player),
    ensures
        b == !clear_along(game.board@, hex, dir, player),
{
    let mut d: i32 = 1;
    while d <= 2
        invariant
            is_unit(dir),
            near_along_ok(game.board@, hex, dir, player),
            1 <= d <= 3,
            d > 1 ==> !own_at(game.board@, step_cell(hex, dir, 1), player),
            d > 2 ==> !own_at(game.board@, step_cell(hex, dir, 2), player),
        decreases 3 - d,
    {
        let nb = hex + Hex(dir.0 * d, dir.1 * d);
        match game.board.get(&nb) {
            Some(p) if *p == player => {
                return true;
            },
            _ => {},
        }
        d += 1;
    }
    let mut d: i32 = 1;
    while d <= 2
        invariant
            is_unit(dir),
            near_along_ok(game.board@, hex, dir, player),
            1 <= d <= 3,
            !own_at(game.board@, step_cell(hex, dir, 1), player),
            !own_at(game.board@, step_cell(hex, dir, 2), player),
            d > 1 ==> !own_at(game.board@, step_cell(hex, dir, -1), player),
            d > 2 ==> !own_at(game.board@, step_cell(hex, dir, -2), player),
        decreases 3 - d,
    {
        proof {
            assert((-dir.0) * d == dir.0 * (-d)) by (nonlinear_arith);
            assert((-dir.1) * d == dir.1 * (-d)) by (nonlinear_arith);
            assert(-2 <= dir.0 * (-d) <= 2) by (nonlinear_arith)
                requires -1 <= dir.0 <= 1, 1 <= d <= 2;
            assert(-2 <= dir.1 * (-d) <= 2) by (nonlinear_arith)
                requires -1 <= dir.1 <= 1, 1 <= d <= 2;
        }
        let nb = hex + Hex(-dir.0 * d, -dir.1 * d);
        match game.board.get(&nb) {
            Some(p) if *p == player => {
                return true;
            },
            _ => {},
        }
        d += 1;
    }
    false
}

/// The mover's stones with no other stone of theirs nearby.
pub struct IsolatedPieces;

impl IsolatedPieces {
    pub fn name(&self) -> (n: &'static str)
        ensures
            n@ == "isolated_pieces"@,
    {
        "isolated_pieces"
    }

    /// The number of the mover's stones with none of their other stones within
    /// two steps along any axis.
    pub fn score_value(&self, game: &Game) -> (r: i128)
        requires
            forall|h: Hex| #[trigger] cells_of(game.board@, game.turn).contains(h) ==> isolation_ok(game.board@, h, game.turn),
        ensures
            r == sum_over(
                cells_of(game.board@, game.turn),
                |h: Hex| if isolated(game.board@, h, game.turn) { 1int } else { 0int },
            ),
    {
        let player = game.turn;
        let mine = game.my_cells();
        let axes = Hex::axes();
        let ghost g = |h: Hex| if isolated(game.board@, h, player) { 1int } else { 0int };
        let mut total: i128 = 0;
        let mut k: usize = 0;
        while k < mine.len()
            invariant
                forall|h: Hex| #[trigger] cells_of(game.board@, game.turn).contains(h) ==> isolation_ok(game.board@, h, game.turn),
                player == game.turn,
                axes@ == axes_spec(),
                mine@.to_set() == cells_of(game.board@, player),
                g == (|h: Hex| if isolated(game.board@, h, player) { 1int } else { 0int }),
                0 <= k <= mine.len(),
                total == seq_sum(mine@.take(k as int), g),
                0 <= total <= k,
            decreases mine.len() - k,
        {
            let h = mine[k];
            proof {
                assert(mine@.to_set().contains(h));
                assert(game.board@.contains_key(h));
                lemma_seq_sum_take(mine@, g, k as int);
            }
            let near = own_near_along(game, h, axes[0], player) || own_near_along(game, h, axes[1], player)
                || own_near_along(game, h, axes[2], player);
            if !near {
                total = total + 1;
            }
            k += 1;
        }
        proof {
            assert(mine@.take(mine@.len() as int) =~= mine@);
            lemma_seq_sum_is_set_sum(mine@, g);
        }
        total
    }
}

/// The number of axes along which a stone of `player` on `c` would make a line
/// at least `win - 1` long.
pub open spec fn threat_axes(cells: Map<Hex, Player>, win: i32, c: Hex, player: Player) -> int {
    (if crate::game::game::line_len_spec(cells, c, axes_spec()[0], player) >= win - 1 { 1int } else { 0int })
        + (if crate::game::game::line_len_spec(cells, c, axes_spec()[1], player) >= win - 1 { 1int } else { 0int })
        + (if crate::game::game::line_len_spec(cells, c, axes_spec()[2], player) >= win - 1 { 1int } else { 0int })
}

/// `c` is a free cell within the size limit where a stone of `player` would
/// make nearly winning lines along at least two axes.
pub open spec fn double_spot(cells: Map<Hex, Player>, lim: i32, win: i32, c: Hex, player: Player) -> bool {
    !cells.contains_key(c) && hex_dist(Hex(0, 0), c) <= lim && threat_axes(cells, win, c, player) >= 2
}

/// How many of the cells one or two steps from `h` along the axes (forward
/// only) are double spots for `player`.
pub open spec fn double_cell(cells: Map<Hex, Player>, lim: i32, win: i32, h: Hex, player: Player) -> int {
    (if double_spot(cells, lim, win, step_cell(h, axes_spec()[0], 1), player) { 1int } else { 0int })
        + (if double_spot(cells, lim, win, step_cell(h, axes_spec()[0], 2), player) { 1int } else { 0int })
        + (if double_spot(cells, lim, win, step_cell(h, axes_spec()[1], 1), player) { 1int } else { 0int })
        + (if double_spot(cells, lim, win, step_cell(h, axes_spec()[1], 2), player) { 1int } else { 0int })
        + (if double_spot(cells, lim, win, step_cell(h, axes_spec()[2], 1), player) { 1int } else { 0int })
        + (if double_spot(cells, lim, win, step_cell(h, axes_spec()[2], 2), player) { 1int } else { 0int })
}

/// Whether `c` is a double spot is decided without overflow: its distance
/// from the origin when it is free, and the lines through it when it is also
/// within the size limit.
pub open spec fn double_spot_ok(cells: Map<Hex, Player>, lim: i32, c: Hex, player: Player) -> bool {
    !cells.contains_key(c) ==> {
        &&& distance_defined(Hex(0, 0), c)
        &&& hex_dist(Hex(0, 0), c) <= lim ==> lines_ok(cells, c, player)
    }
}

/// The cells one and two steps from `h` along `d` are computed without
/// overflow, and so is the check of each for a double spot.
pub open spec fn double_pair_ok(cells: Map<Hex, Player>, lim: i32, h: Hex, d: Hex, player: Player) -> bool {
    &&& step_cell_defined(h, d, 1)
    &&& double_spot_ok(cells, lim, step_cell(h, d, 1), player)
    &&& step_cell_defined(h, d, 2)
    &&& double_spot_ok(cells, lim, step_cell(h, d, 2), player)
}

/// The cells one and two steps from `h` along the axes are computed without
/// overflow, and so is the check of each for a double spot.
pub open spec fn doubles_ok(cells: Map<Hex, Player>, lim: i32, h: Hex, player: Player) -> bool {
    forall|i: int| 0 <= i < 3 ==> double_pair_ok(cells, lim, h, #[trigger] axes_spec()[i], player)
}

/// Every stone's surroundings are checked for double spots without overflow.
#[verifier::opaque]
pub open spec fn all_doubles_ok(cells: Map<Hex, Player>, lim: i32, player: Player) -> bool {
    forall|h: Hex| #[trigger] cells.contains_key(h) ==> doubles_ok(cells, lim, h, player)
}

/// Whether `c` is a double spot for `player`.
fn is_double_spot(game: &Game, c: Hex, player: Player) -> (b: bool)
    requires
        double_spot_ok(game.board@, game.cfg.size_limit, c, player),
        game.cfg.win_distance > i32::MIN,
    ensures
        b == double_spot(game.board@, game.cfg.size_limit, game.cfg.win_distance, c, player),
{
    let win = game.cfg.win_distance;
    if !game.board.is_empty(&c) {
        return false;
    }
    if Hex::origin().distance(c) > game.cfg.size_limit {
        return false;
    }
    let axes = Hex::axes();
    let mut threatening: usize = 0;
    let mut i: usize = 0;
    while i < 3
        invariant
            !game.board@.contains_key(c),
            hex_dist(Hex(0, 0), c) <= game.cfg.size_limit,
            double_spot_ok(game.board@, game.cfg.size_limit, c, player),
            win == game.cfg.win_distance,
            win > i32::MIN,
            axes@ == axes_spec(),
            0 <= i <= 3,
            threatening == (if i > 0 && crate::game::game::line_len_spec(game.board@, c, axes_spec()[0], player) >= win - 1 { 1int } else { 0int })
                + (if i > 1 && crate::game::game::line_len_spec(game.board@, c, axes_spec()[1], player) >= win - 1 { 1int } else { 0int })
                + (if i > 2 && crate::game::game::line_len_spec(game.board@, c, axes_spec()[2], player) >= win - 1 { 1int } else { 0int }),
        decreases 3 - i,
    {
        proof {
            assert(line_ok(game.board@, c, axes_spec()[i as int], player));
        }
        let (f, b) = game.run_pair(c, axes[i], player);
        if 1 + f + b >= win - 1 {
            threatening += 1;
        }
        i += 1;
    }
    threatening >= 2
}

/// How many of the cells one and two steps from `hex` along `dir` are double spots.
fn doubles_along(game: &Game, hex: Hex, dir: Hex, player: Player) -> (t: i128)
    requires
        double_pair_ok(game.board@, game.cfg.size_limit, hex, dir, player),
        game.cfg.win_distance > i32::MIN,
    ensures
        t == (if double_spot(game.board@, game.cfg.size_limit, game.cfg.win_distance, step_cell(hex, dir, 1), player) { 1int } else { 0int })
            + (if double_spot(game.board@, game.cfg.size_limit, game.cfg.win_distance, step_cell(hex, dir, 2), player) { 1int } else { 0int }),
{
    let one = hex + Hex(dir.0 * 1, dir.1 * 1);
    let b1 = is_double_spot(game, one, player);
    let two = hex + Hex(dir.0 * 2, dir.1 * 2);
    let b2 = is_double_spot(game, two, player);
    (if b1 { 1i128 } else { 0i128 }) + (if b2 { 1i128 } else { 0i128 })
}

/// The double spots one or two steps from `hex` along the axes.
fn doubles_at(game: &Game, hex: Hex, player: Player) -> (t: i128)
    requires
        doubles_ok(game.board@, game.cfg.size_limit, hex, player),
        game.cfg.win_distance > i32::MIN,
    ensures
        t == double_cell(game.board@, game.cfg.size_limit, game.cfg.win_distance, hex, player),
        0 <= t <= 6,
{
    let axes = Hex::axes();
    proof {
        assert(double_pair_ok(game.board@, game.cfg.size_limit, hex, axes_spec()[0], player));
        assert(double_pair_ok(game.board@, game.cfg.size_limit, hex, axes_spec()[1], player));
        assert(double_pair_ok(game.board@, game.cfg.size_limit, hex, axes_spec()[2], player));
    }
    let a = doubles_along(game, hex, axes[0], player);
    let b = doubles_along(game, hex, axes[1], player);
    let c = doubles_along(game, hex, axes[2], player);
    a + b + c
}

/// Free cells near stones where the mover would threaten along two axes at once.
pub struct DoubleThreats;

impl DoubleThreats {
    pub fn name(&self) -> (n: &'static str)
        ensures
            n@ == "double_threats"@,
    {
        "double_threats"
    }

    /// Over every stone on the board (either player's), the number of free
    /// cells one or two steps forward along each axis (within the size limit)
    /// where a stone of the mover would make lines at least `win_distance - 1`
    /// long along two or more axes; a cell reached from several stones counts
    /// each time.
    pub fn score_value(&self, game: &Game) -> (r: i128)
        requires
            game.cfg.win_distance > i32::MIN,
            all_doubles_ok(game.board@, game.cfg.size_limit, game.turn),
        ensures
            r == sum_over(
                game.board@.dom(),
                |h: Hex| double_cell(game.board@, game.cfg.size_limit, game.cfg.win_distance, h, game.turn),
            ),
    {
        let player = game.turn;
        let all = game.board.keys();
        let ghost g = |h: Hex| double_cell(game.board@, game.cfg.size_limit, game.cfg.win_distance, h, player);
        let mut total: i128 = 0;
        let mut k: usize = 0;
        while k < all.len()
            invariant
                game.cfg.win_distance > i32::MIN,
                all_doubles_ok(game.board@, game.cfg.size_limit, game.turn),
                player == game.turn,
                all@.to_set() == game.board@.dom(),
                g == (|h: Hex| double_cell(game.board@, game.cfg.size_limit, game.cfg.win_distance, h, player)),
                0 <= k <= all.len(),
                total == seq_sum(all@.take(k as int), g),
                0 <= total <= 6 * k,
            decreases all.len() - k,
        {
            let h = all[k];
            proof {
                assert(all@.to_set().contains(h));
                assert(game.board@.contains_key(h));
                lemma_seq_sum_take(all@, g, k as int);
            }
            proof {
                assert(doubles_ok(game.board@, game.cfg.size_limit, h, player)) by {
                    reveal(all_doubles_ok);
                }
            }
            let t = doubles_at(game, h, player);
            total = total + t;
            k += 1;
        }
        proof {
            assert(all@.take(all@.len() as int) =~= all@);
            lemma_seq_sum_is_set_sum(all@, g);
        }
        total
    }
}

/// The mover's closeness to the centre; its score, a sum of reciprocals, is
/// floating-point and is computed outside this library from `Game::my_cells`
/// and `Hex::distance`.
pub struct CentreProximity;

impl CentreProximity {
    pub fn name(&self) -> (n: &'static str)
        ensures
            n@ == "centre_proximity"@,
    {
        "centre_proximity"
    }
}

/// The size of the mover's largest group of stones connected through neighbouring cells.
pub struct LargestCluster;

impl LargestCluster {
    pub fn name(&self) -> (n: &'static str)
        ensures
            n@ == "largest_cluster"@,
    {
        "largest_cluster"
    }

    /// The number of stones in the largest group of the mover's stones that are
    /// connected through neighbouring cells, or zero when the mover has none.
    pub fn score_value(&self, game: &Game) -> (r: usize)
        requires
            all_neighbours_fit(cells_of(game.board@, game.turn)),
        ensures
            forall|c: Hex| #[trigger] cells_of(game.board@, game.turn).contains(c)
                ==> component(cells_of(game.board@, game.turn), c).len() <= r,
            (exists|c: Hex| #[trigger] cells_of(game.board@, game.turn).contains(c)) ==> exists|c: Hex|
                #[trigger] cells_of(game.board@, game.turn).contains(c)
                && component(cells_of(game.board@, game.turn), c).len() == r,
            !(exists|c: Hex| #[trigger] cells_of(game.board@, game.turn).contains(c)) ==> r == 0,
    {
        let player = game.turn;
        let my = game.my_cells();
        let ghost m = cells_of(game.board@, player);
        proof {
            vstd::seq_lib::seq_to_set_is_finite(my@);
            my@.unique_seq_to_set();
        }
        if my.len() == 0 {
            proof {
                assert forall|c: Hex| #[trigger] m.contains(c) implies false by {
                    assert(my@.to_set().contains(c));
                }
            }
            return 0;
        }
        let mut visited = hex_set_new();
        let mut best: usize = 0;
        let mut k: usize = 0;
        while k < my.len()
            invariant
                all_neighbours_fit(cells_of(game.board@, game.turn)),
                player == game.turn,
                m == cells_of(game.board@, player),
                my@.to_set() == m,
                m.finite(),
                m.len() == my@.len(),
                0 <= k <= my.len(),
                hex_set(visited) <= m,
                closed_in(m, hex_set(visited)),
                forall|v: Hex| #[trigger] hex_set(visited).contains(v) ==> exists|j: int| 0 <= j < k && connected(m, my@[j], v),
                forall|j: int| 0 <= j < k ==> hex_set(visited).contains(#[trigger] my@[j]),
                forall|j: int| 0 <= j < k ==> component(m, #[trigger] my@[j]).len() <= best,
                k == 0 ==> best == 0,
                k > 0 ==> exists|j: int| 0 <= j < k && component(m, #[trigger] my@[j]).len() == best,
            decreases my.len() - k,
        {
            let start = my[k];
            proof {
                assert(my@.to_set().contains(start));
            }
            if hex_set_contains(&visited, &start) {
                proof {
                    let j = choose|j: int| 0 <= j < k && connected(m, my@[j], start);
                    lemma_same_component(m, my@[j], start);
                }
                k += 1;
                continue;
            }
            let ghost before = hex_set(visited);
            let size = flood(game, player, start, &mut visited, Ghost(m));
            proof {
                let comp = component(m, start);
                lemma_component_within(m, start);
                assert(closed_in(m, hex_set(visited))) by {
                    assert forall|v: Hex, n: Hex| #[trigger] hex_set(visited).contains(v) && #[trigger] m.contains(n)
                        && adjacent(v, n) implies hex_set(visited).contains(n) by {
                        if before.contains(v) {
                            assert(before.contains(n));
                        } else {
                            assert(comp.contains(v));
                            lemma_connected_extend(m, start, v, n);
                            assert(comp.contains(n));
                        }
                    }
                }
                assert forall|v: Hex| #[trigger] hex_set(visited).contains(v) implies exists|j: int| 0 <= j < k + 1 && connected(m, my@[j], v) by {
                    if before.contains(v) {
                        let j = choose|j: int| 0 <= j < k && connected(m, my@[j], v);
                    } else {
                        assert(comp.contains(v));
                        assert(my@[k as int] == start);
                        assert(connected(m, my@[k as int], v));
                    }
                }
                lemma_connected_refl(m, start);
                assert(comp.contains(start));
            }
            if k == 0 || size > best {
                best = size;
            }
            k += 1;
        }
        proof {
            assert forall|c: Hex| #[trigger] m.contains(c) implies component(m, c).len() <= best by {
                assert(my@.to_set().contains(c));
                let j = choose|j: int| 0 <= j < my@.len() && my@[j] == c;
                assert(component(m, my@[j]).len() <= best);
            }
            let j = choose|j: int| 0 <= j < k && component(m, #[trigger] my@[j]).len() == best;
            assert(my@.to_set().contains(my@[j]));
        }
        best
    }
}

} // verus!
