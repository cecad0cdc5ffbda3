//! The rules: placing stones, detecting wins, and taking placements back.

use vstd::prelude::*;
use crate::game::board::{Board, lists_entries};
use crate::game::config::Config;
use crate::game::diag::Diag;
use crate::game::hex::{Hex, add_defined, axes_spec, distance_defined, fits_i32, hex_dist};
use crate::game::phase::Phase;
use crate::game::player::Player;
use crate::game::undo::Undo;
use crate::zobrist;

verus! {

// ---------------------------------------------------------------------------
// Runs of stones
// ---------------------------------------------------------------------------

/// A direction the engine walks in: anything but the zero vector.
pub open spec fn is_step(dir: Hex) -> bool {
    dir != Hex(0, 0)
}

/// The opposite direction.
pub open spec fn neg(dir: Hex) -> Hex {
    Hex((-dir.0) as i32, (-dir.1) as i32)
}

/// How far `h` can still move along `dir` before a coordinate leaves `i32`;
/// one representable step along a nonzero `dir` makes it strictly smaller.
pub open spec fn progress(h: Hex, dir: Hex) -> int {
    if dir.0 > 0 {
        i32::MAX - h.0
    } else if dir.0 < 0 {
        h.0 - i32::MIN
    } else if dir.1 > 0 {
        i32::MAX - h.1
    } else {
        h.1 - i32::MIN
    }
}

/// `c` holds `player`'s stone.
pub open spec fn own_at(cells: Map<Hex, Player>, c: Hex, player: Player) -> bool {
    cells.contains_key(c) && cells[c] == player
}

/// The number of consecutive cells after `cur` in direction `dir` that hold
/// `player`'s stones (counting only cells whose coordinates fit in `i32`).
pub open spec fn run_spec(cells: Map<Hex, Player>, cur: Hex, dir: Hex, player: Player) -> nat
    decreases progress(cur, dir),
{
    let next = cur.spec_add(dir);
    if is_step(dir) && add_defined(cur, dir) && own_at(cells, next, player) {
        1 + run_spec(cells, next, dir, player)
    } else {
        0
    }
}

/// Walking from `cur` along `dir` over `player`'s stones never leaves `i32`:
/// every step the walk takes, the one onto the cell that ends the run
/// included, has representable coordinates.
pub open spec fn walk_ok(cells: Map<Hex, Player>, cur: Hex, dir: Hex, player: Player) -> bool
    decreases progress(cur, dir),
{
    if !add_defined(cur, dir) {
        false
    } else if is_step(dir) && own_at(cells, cur.spec_add(dir), player) {
        walk_ok(cells, cur.spec_add(dir), dir, player)
    } else {
        true
    }
}

/// Both runs through `hex` along `dir` are walked and counted in `i32`
/// without overflow, and `dir` can be negated.
pub open spec fn pair_ok(cells: Map<Hex, Player>, hex: Hex, dir: Hex, player: Player) -> bool {
    &&& fits_i32(-dir.0)
    &&& fits_i32(-dir.1)
    &&& walk_ok(cells, hex, dir, player)
    &&& walk_ok(cells, hex, neg(dir), player)
    &&& run_spec(cells, hex, dir, player) <= i32::MAX
    &&& run_spec(cells, hex, neg(dir), player) <= i32::MAX
}

/// The length of the line of `player`'s stones through `hex` along `dir`,
/// counting `hex` itself whoever holds it.
pub open spec fn line_len_spec(cells: Map<Hex, Player>, hex: Hex, dir: Hex, player: Player) -> int {
    1 + run_spec(cells, hex, dir, player) as int + run_spec(cells, hex, neg(dir), player) as int
}

/// The line through `hex` along `dir` is measured in `i32` without overflow.
pub open spec fn line_ok(cells: Map<Hex, Player>, hex: Hex, dir: Hex, player: Player) -> bool {
    pair_ok(cells, hex, dir, player) && line_len_spec(cells, hex, dir, player) <= i32::MAX
}

/// The line through `hex` along axis `i` is at least `win` long.
pub open spec fn axis_wins(cells: Map<Hex, Player>, hex: Hex, player: Player, win: i32, i: int) -> bool {
    line_len_spec(cells, hex, axes_spec()[i], player) >= win
}

/// Some line through `hex` along one of the three axes is at least `win` long.
pub open spec fn wins_at(cells: Map<Hex, Player>, hex: Hex, player: Player, win: i32) -> bool {
    axis_wins(cells, hex, player, win, 0) || axis_wins(cells, hex, player, win, 1)
        || axis_wins(cells, hex, player, win, 2)
}

/// The lines `is_winning_move(hex, player)` measures, axis by axis until one
/// wins, are measured without overflow.
pub open spec fn win_check_ok(cells: Map<Hex, Player>, hex: Hex, player: Player, win: i32) -> bool {
    &&& line_ok(cells, hex, axes_spec()[0], player)
    &&& !axis_wins(cells, hex, player, win, 0) ==> line_ok(cells, hex, axes_spec()[1], player)
    &&& !axis_wins(cells, hex, player, win, 0) && !axis_wins(cells, hex, player, win, 1) ==> line_ok(
        cells,
        hex,
        axes_spec()[2],
        player,
    )
}

/// The lines through every stone, for the player on it, are measured without
/// overflow.
#[verifier::opaque]
pub open spec fn all_win_checks_ok(cells: Map<Hex, Player>, win: i32) -> bool {
    forall|h: Hex| #[trigger] cells.contains_key(h) ==> win_check_ok(cells, h, cells[h], win)
}

/// Some occupied cell completes a winning line for the player on it.
pub open spec fn someone_wins(cells: Map<Hex, Player>, win: i32) -> bool {
    exists|h: Hex| #[trigger] cells.contains_key(h) && wins_at(cells, h, cells[h], win)
}

/// The cell `k` steps from `h` along axis `i`.
pub open spec fn axis_point(h: Hex, i: int, k: int) -> Hex {
    if i == 0 {
        Hex((h.0 + k) as i32, h.1)
    } else if i == 1 {
        Hex(h.0, (h.1 + k) as i32)
    } else {
        Hex((h.0 + k) as i32, (h.1 - k) as i32)
    }
}

/// The cell `k` steps from `h` along axis `i` has representable coordinates.
pub open spec fn axis_fits(h: Hex, i: int, k: int) -> bool {
    if i == 0 {
        fits_i32(h.0 + k)
    } else if i == 1 {
        fits_i32(h.1 + k)
    } else {
        fits_i32(h.0 + k) && fits_i32(h.1 - k)
    }
}

/// The whole line of `player`'s stones through `h` along axis `i`, from its
/// backward end to its forward end.
pub open spec fn line_through(cells: Map<Hex, Player>, h: Hex, i: int, player: Player) -> Seq<Hex> {
    let b = run_spec(cells, h, neg(axes_spec()[i]), player);
    let f = run_spec(cells, h, axes_spec()[i], player);
    Seq::new((1 + f + b) as nat, |k: int| axis_point(h, i, k - b))
}

/// The line through `h` along axis `i` reaches the (non-negative) length `win`.
pub open spec fn axis_line_wins(cells: Map<Hex, Player>, h: Hex, i: int, player: Player, win: i32) -> bool {
    0 <= win && line_len_spec(cells, h, axes_spec()[i], player) >= win
}

/// `player` holds a cell whose line along some axis is at least `win` long
/// (with `win` non-negative).
pub open spec fn has_winning_line(cells: Map<Hex, Player>, player: Player, win: i32) -> bool {
    exists|h: Hex, i: int|
        #![trigger axis_line_wins(cells, h, i, player, win)]
        0 <= i < 3 && cells.contains_key(h) && cells[h] == player && axis_line_wins(cells, h, i, player, win)
}

/// Some occupied cell lies within `max_dist` of `hex`.
pub open spec fn near_some_stone(cells: Map<Hex, Player>, hex: Hex, max_dist: i32) -> bool {
    exists|h: Hex| #[trigger] cells.contains_key(h) && hex_dist(h, hex) <= max_dist
}

/// `hex` is within `max_dist` of some stone and within `size_limit` of the origin.
pub open spec fn within_range_spec(cells: Map<Hex, Player>, size_limit: i32, hex: Hex, max_dist: i32) -> bool {
    near_some_stone(cells, hex, max_dist) && hex_dist(Hex(0, 0), hex) <= size_limit
}

/// The distances `is_within_range(hex, _)` may compute, from `hex` to each
/// stone (met in the board's own order) and to the origin, fit in `i32`.
pub open spec fn range_ok(cells: Map<Hex, Player>, hex: Hex, max_dist: i32) -> bool {
    &&& forall|h: Hex| #[trigger] cells.contains_key(h) ==> distance_defined(h, hex)
    &&& near_some_stone(cells, hex, max_dist) ==> distance_defined(Hex(0, 0), hex)
}

/// Every cell has room between zero and the width of `i32` along any direction.
pub proof fn lemma_progress_bounds(h: Hex, dir: Hex)
    ensures
        0 <= progress(h, dir) <= u32::MAX,
{
}

/// A run never outlasts the room left before the coordinates leave `i32`.
pub proof fn lemma_run_bound(cells: Map<Hex, Player>, cur: Hex, dir: Hex, player: Player)
    ensures
        run_spec(cells, cur, dir, player) <= progress(cur, dir),
        run_spec(cells, cur, dir, player) <= u32::MAX,
    decreases progress(cur, dir),
{
    let next = cur.spec_add(dir);
    if is_step(dir) && add_defined(cur, dir) && own_at(cells, next, player) {
        lemma_run_bound(cells, next, dir, player);
    }
}

/// Each of the first `run_spec` cells forward along axis `i` holds `player`'s
/// stone, at coordinates that fit in `i32`.
pub proof fn lemma_run_forward(cells: Map<Hex, Player>, h: Hex, i: int, player: Player, j: int)
    requires
        0 <= i < 3,
        1 <= j <= run_spec(cells, h, axes_spec()[i], player),
    ensures
        axis_fits(h, i, j),
        own_at(cells, axis_point(h, i, j), player),
    decreases j,
{
    let d = axes_spec()[i];
    let next = h.spec_add(d);
    assert(next == axis_point(h, i, 1));
    if j > 1 {
        lemma_run_forward(cells, next, i, player, j - 1);
        assert(axis_point(next, i, j - 1) == axis_point(h, i, j));
    }
}

/// Each of the first `run_spec` cells backward along axis `i` holds `player`'s
/// stone, at coordinates that fit in `i32`.
pub proof fn lemma_run_backward(cells: Map<Hex, Player>, h: Hex, i: int, player: Player, j: int)
    requires
        0 <= i < 3,
        1 <= j <= run_spec(cells, h, neg(axes_spec()[i]), player),
    ensures
        axis_fits(h, i, -j),
        own_at(cells, axis_point(h, i, -j), player),
    decreases j,
{
    let d = neg(axes_spec()[i]);
    let next = h.spec_add(d);
    assert(next == axis_point(h, i, -1));
    if j > 1 {
        lemma_run_backward(cells, next, i, player, j - 1);
        assert(axis_point(next, i, -(j - 1)) == axis_point(h, i, -j));
    }
}

/// A stone that wins for its owner lies on a winning line of that owner (for
/// a non-negative winning length): whenever `is_game_over` names a player,
/// `winning_line` finds a line for that player.
pub proof fn lemma_win_has_line(cells: Map<Hex, Player>, h: Hex, p: Player, win: i32)
    requires
        cells.contains_key(h),
        cells[h] == p,
        wins_at(cells, h, p, win),
        0 <= win,
    ensures
        has_winning_line(cells, p, win),
{
    if axis_wins(cells, h, p, win, 0) {
        assert(axis_line_wins(cells, h, 0, p, win));
    } else if axis_wins(cells, h, p, win, 1) {
        assert(axis_line_wins(cells, h, 1, p, win));
    } else {
        assert(axis_line_wins(cells, h, 2, p, win));
    }
}

/// A win that `play_half_turn` reports is one that `is_game_over` sees: the
/// winning stone is on the board in the winner's colour.
pub proof fn lemma_reported_win_is_game_over(s: GameState, hex: Hex, win: i32)
    requires
        s.wf(),
        s.phase == Phase::Second,
        !s.cells.contains_key(hex),
        wins_at(s.cells.insert(hex, s.turn), s.pending.unwrap(), s.turn, win)
            || wins_at(s.cells.insert(hex, s.turn), hex, s.turn, win),
    ensures
        someone_wins(s.cells.insert(hex, s.turn), win),
{
    let cells = s.cells.insert(hex, s.turn);
    let first = s.pending.unwrap();
    if wins_at(cells, first, s.turn, win) {
        assert(cells.contains_key(first) && cells[first] == s.turn);
    } else {
        assert(cells.contains_key(hex) && cells[hex] == s.turn);
    }
}

/// `a` comes strictly before `b` in `(q, r)` order.
pub open spec fn hex_lt(a: Hex, b: Hex) -> bool {
    a.0 < b.0 || (a.0 == b.0 && a.1 < b.1)
}

/// The cells of the line through `h` along axis `i` all have representable
/// coordinates and hold `player`'s stones.
pub proof fn lemma_line_cells(cells: Map<Hex, Player>, h: Hex, i: int, player: Player, k: int)
    requires
        0 <= i < 3,
        own_at(cells, h, player),
        0 <= k < line_through(cells, h, i, player).len(),
    ensures
        axis_fits(h, i, k - run_spec(cells, h, neg(axes_spec()[i]), player)),
        own_at(cells, line_through(cells, h, i, player)[k], player),
{
    let b = run_spec(cells, h, neg(axes_spec()[i]), player) as int;
    if k < b {
        lemma_run_backward(cells, h, i, player, b - k);
    } else if k > b {
        lemma_run_forward(cells, h, i, player, k - b);
    }
}

/// The line `winning_line` reports through an owned cell consists of that
/// player's stones, in strictly increasing `(q, r)` order.
pub proof fn lemma_line_through_owned_and_sorted(cells: Map<Hex, Player>, h: Hex, i: int, player: Player)
    requires
        0 <= i < 3,
        own_at(cells, h, player),
    ensures
        forall|k: int|
            0 <= k < line_through(cells, h, i, player).len() ==> own_at(
                cells,
                #[trigger] line_through(cells, h, i, player)[k],
                player,
            ),
        forall|k1: int, k2: int|
            0 <= k1 < k2 < line_through(cells, h, i, player).len() ==> hex_lt(
                #[trigger] line_through(cells, h, i, player)[k1],
                #[trigger] line_through(cells, h, i, player)[k2],
            ),
{
    let line = line_through(cells, h, i, player);
    let b = run_spec(cells, h, neg(axes_spec()[i]), player) as int;
    assert forall|k: int| 0 <= k < line.len() implies own_at(cells, #[trigger] line[k], player) by {
        lemma_line_cells(cells, h, i, player, k);
    }
    assert forall|k1: int, k2: int| 0 <= k1 < k2 < line.len() implies hex_lt(
        #[trigger] line[k1],
        #[trigger] line[k2],
    ) by {
        lemma_line_cells(cells, h, i, player, k1);
        lemma_line_cells(cells, h, i, player, k2);
    }
}

// ---------------------------------------------------------------------------
// The game
// ---------------------------------------------------------------------------

/// What a game is, for its contracts: the stones, whose turn it is, the half
/// of the turn, the first stone of a turn in progress, and the Zobrist hash.
pub struct GameState {
    pub cells: Map<Hex, Player>,
    pub turn: Player,
    pub phase: Phase,
    pub pending: Option<Hex>,
    pub zhash: u64,
}

impl GameState {
    /// A first stone is pending exactly in the second half, and it is a stone
    /// of the player to move.
    pub open spec fn wf(self) -> bool {
        &&& (self.phase == Phase::First) == (self.pending is None)
        &&& (self.pending matches Some(p) ==> own_at(self.cells, p, self.turn))
    }

    /// Every computation `play_half_turn(hex)` makes stays within `i32`, and a
    /// second half has its first stone to check: the distances from `hex` to
    /// the stones and to the origin when the range is checked, and the lines
    /// through both stones of the turn when the turn is checked for a win.
    pub open spec fn play_ok(self, cfg: Config, hex: Hex) -> bool {
        &&& !self.cells.contains_key(hex) && self.pending != Some(hex) ==> range_ok(self.cells, hex, cfg.view_distance)
        &&& self.refusal(cfg, hex) is None && self.phase == Phase::Second ==> {
            let cells = self.cells.insert(hex, self.turn);
            &&& self.pending is Some
            &&& win_check_ok(cells, self.pending.unwrap(), self.turn, cfg.win_distance)
            &&& !wins_at(cells, self.pending.unwrap(), self.turn, cfg.win_distance) ==> win_check_ok(
                cells,
                hex,
                self.turn,
                cfg.win_distance,
            )
        }
    }

    /// Every computation `apply_half_turn(hex)` makes stays within `i32`: the
    /// distances from `hex` to the stones and to the origin when the range is
    /// checked.
    pub open spec fn apply_ok(self, cfg: Config, hex: Hex) -> bool {
        !self.cells.contains_key(hex) && self.pending != Some(hex) ==> range_ok(self.cells, hex, cfg.view_distance)
    }

    /// Why placing on `hex` is refused under `cfg`, if it is.
    pub open spec fn refusal(self, cfg: Config, hex: Hex) -> Option<Diag> {
        if self.cells.contains_key(hex) {
            Some(Diag::CellOccupied)
        } else if self.pending == Some(hex) {
            Some(Diag::CannotPlaceTwice)
        } else if !within_range_spec(self.cells, cfg.size_limit, hex, cfg.view_distance) {
            Some(Diag::TooFarAway)
        } else {
            None
        }
    }

    /// The state after the player to move places on `hex` and the turn
    /// advances, with `zhash` as the new hash.
    pub open spec fn placed(self, hex: Hex, zhash: u64) -> GameState {
        GameState {
            cells: self.cells.insert(hex, self.turn),
            turn: if self.phase == Phase::First { self.turn } else { self.turn.opponent_spec() },
            phase: if self.phase == Phase::First { Phase::Second } else { Phase::First },
            pending: if self.phase == Phase::First { Some(hex) } else { None },
            zhash,
        }
    }

    /// The state with the mover's stone added on `hex`, the turn left where it
    /// is, and `zhash` as the new hash.
    pub open spec fn with_stone(self, hex: Hex, zhash: u64) -> GameState {
        GameState { cells: self.cells.insert(hex, self.turn), zhash, ..self }
    }

    /// The undo record for placing on `hex` in this state.
    pub open spec fn record(self, hex: Hex) -> Undo {
        Undo {
            hex,
            prev_pending: self.pending,
            prev_phase: self.phase,
            prev_turn: self.turn,
            prev_zhash: self.zhash,
        }
    }

    /// The state after taking back the placement that `undo` records.
    pub open spec fn undone(self, undo: Undo) -> GameState {
        GameState {
            cells: self.cells.remove(undo.hex),
            turn: undo.prev_turn,
            phase: undo.prev_phase,
            pending: undo.prev_pending,
            zhash: undo.prev_zhash,
        }
    }
}

/// The `len` cells of axis `i` starting `b` steps behind `h`, in order.
fn line_cells(h: Hex, i: usize, b: u64, len: u64) -> (line: Vec<Hex>)
    requires
        i < 3,
        b < len,
        forall|k: int| 0 <= k < len ==> #[trigger] axis_fits(h, i as int, k - b),
    ensures
        line@ == Seq::new(len as nat, |k: int| axis_point(h, i as int, k - b)),
{
    let d = if i == 0 {
        Hex(1, 0)
    } else if i == 1 {
        Hex(0, 1)
    } else {
        Hex(1, -1)
    };
    let mut cur = h;
    let mut j: u64 = 0;
    while j < b
        invariant
            i < 3,
            0 <= j <= b < len,
            forall|k: int| 0 <= k < len ==> #[trigger] axis_fits(h, i as int, k - b),
            d == (if i == 0 { Hex(1, 0) } else if i == 1 { Hex(0, 1) } else { Hex(1, -1i32) }),
            cur == axis_point(h, i as int, -j),
            axis_fits(h, i as int, -j),
        decreases b - j,
    {
        assert(axis_fits(h, i as int, (b - j - 1) - b));
        cur = cur - d;
        j += 1;
    }
    let mut line: Vec<Hex> = Vec::new();
    line.push(cur);
    let mut k: u64 = 1;
    while k < len
        invariant
            i < 3,
            b < len,
            1 <= k <= len,
            forall|m: int| 0 <= m < len ==> #[trigger] axis_fits(h, i as int, m - b),
            d == (if i == 0 { Hex(1, 0) } else if i == 1 { Hex(0, 1) } else { Hex(1, -1i32) }),
            cur == axis_point(h, i as int, k - 1 - b),
            axis_fits(h, i as int, k - 1 - b),
            line@ == Seq::new(k as nat, |m: int| axis_point(h, i as int, m - b)),
        decreases len - k,
    {
        assert(axis_fits(h, i as int, k - b));
        cur = cur + d;
        line.push(cur);
        k += 1;
        assert(line@ =~= Seq::new(k as nat, |m: int| axis_point(h, i as int, m - b)));
    }
    line
}

// ---------------------------------------------------------------------------
// Checking the no-overflow conditions
// ---------------------------------------------------------------------------

/// The stones of `cells`, with `extra`'s stone added if there is one.
pub open spec fn with_extra(cells: Map<Hex, Player>, extra: Option<(Hex, Player)>) -> Map<Hex, Player> {
    match extra {
        Some(e) => cells.insert(e.0, e.1),
        None => cells,
    }
}

/// Whether `c` holds `player`'s stone once `extra`'s stone is added.
fn owned_with(board: &Board, extra: Option<(Hex, Player)>, c: Hex, player: Player) -> (b: bool)
    ensures
        b == own_at(with_extra(board@, extra), c, player),
{
    if let Some((h, q)) = extra {
        if h == c {
            return q == player;
        }
    }
    match board.get(&c) {
        Some(p) => *p == player,
        None => false,
    }
}

/// The sum `a + b`, when both of its coordinates fit in `i32`.
pub fn checked_step(a: Hex, b: Hex) -> (r: Option<Hex>)
    ensures
        r is Some <==> add_defined(a, b),
        r matches Some(c) ==> c == a.spec_add(b),
{
    let q: i64 = a.0 as i64 + b.0 as i64;
    let r: i64 = a.1 as i64 + b.1 as i64;
    if q < i32::MIN as i64 || q > i32::MAX as i64 || r < i32::MIN as i64 || r > i32::MAX as i64 {
        None
    } else {
        Some(Hex(q as i32, r as i32))
    }
}

/// The run of `player`'s stones after `start` along `dir` (with `extra`'s
/// stone added), when walking it stays within `i32`.
pub fn checked_run(board: &Board, extra: Option<(Hex, Player)>, start: Hex, dir: Hex, player: Player) -> (r: Option<u64>)
    ensures
        r is Some <==> walk_ok(with_extra(board@, extra), start, dir, player),
        r matches Some(n) ==> n == run_spec(with_extra(board@, extra), start, dir, player),
{
    let ghost cells = with_extra(board@, extra);
    if dir.0 == 0 && dir.1 == 0 {
        return match checked_step(start, dir) {
            Some(_) => Some(0),
            None => None,
        };
    }
    let mut cur = start;
    let mut count: u64 = 0;
    proof {
        lemma_progress_bounds(start, dir);
    }
    loop
        invariant
            is_step(dir),
            cells == with_extra(board@, extra),
            walk_ok(cells, start, dir, player) == walk_ok(cells, cur, dir, player),
            walk_ok(cells, cur, dir, player) ==> count + run_spec(cells, cur, dir, player) == run_spec(
                cells,
                start,
                dir,
                player,
            ),
            count + progress(cur, dir) <= progress(start, dir),
            progress(start, dir) <= u32::MAX,
        decreases progress(cur, dir),
    {
        match checked_step(cur, dir) {
            None => {
                return None;
            },
            Some(next) => {
                if owned_with(board, extra, next, player) {
                    count += 1;
                    cur = next;
                } else {
                    return Some(count);
                }
            },
        }
    }
}

/// Both runs through `hex` along `dir` (with `extra`'s stone added), when
/// `pair_ok` holds for them.
pub fn checked_pair(board: &Board, extra: Option<(Hex, Player)>, hex: Hex, dir: Hex, player: Player) -> (r: Option<(u64, u64)>)
    ensures
        r is Some <==> pair_ok(with_extra(board@, extra), hex, dir, player),
        r matches Some(v) ==> v.0 == run_spec(with_extra(board@, extra), hex, dir, player) && v.1 == run_spec(
            with_extra(board@, extra),
            hex,
            neg(dir),
            player,
        ),
{
    if dir.0 == i32::MIN || dir.1 == i32::MIN {
        return None;
    }
    let f = match checked_run(board, extra, hex, dir, player) {
        Some(n) => n,
        None => {
            return None;
        },
    };
    let b = match checked_run(board, extra, hex, Hex(-dir.0, -dir.1), player) {
        Some(n) => n,
        None => {
            return None;
        },
    };
    if f > i32::MAX as u64 || b > i32::MAX as u64 {
        None
    } else {
        Some((f, b))
    }
}

/// The length of the line through `hex` along `dir` (with `extra`'s stone
/// added), when `line_ok` holds for it.
pub fn checked_line(board: &Board, extra: Option<(Hex, Player)>, hex: Hex, dir: Hex, player: Player) -> (r: Option<u64>)
    ensures
        r is Some <==> line_ok(with_extra(board@, extra), hex, dir, player),
        r matches Some(n) ==> n == line_len_spec(with_extra(board@, extra), hex, dir, player),
{
    match checked_pair(board, extra, hex, dir, player) {
        Some((f, b)) => {
            if 1 + f + b > i32::MAX as u64 {
                None
            } else {
                Some(1 + f + b)
            }
        },
        None => None,
    }
}

/// Whether a stone of `player` on `hex` wins (with `extra`'s stone added),
/// when `win_check_ok` holds for it.
pub fn checked_win(board: &Board, extra: Option<(Hex, Player)>, hex: Hex, player: Player, win: i32) -> (r: Option<bool>)
    ensures
        r is Some <==> win_check_ok(with_extra(board@, extra), hex, player, win),
        r matches Some(w) ==> w == wins_at(with_extra(board@, extra), hex, player, win),
{
    let ghost cells = with_extra(board@, extra);
    let axes = Hex::axes();
    let mut i: usize = 0;
    while i < 3
        invariant
            cells == with_extra(board@, extra),
            axes@ == axes_spec(),
            0 <= i <= 3,
            forall|j: int| 0 <= j < i ==> line_ok(cells, hex, #[trigger] axes_spec()[j], player),
            forall|j: int| 0 <= j < i ==> !axis_wins(cells, hex, player, win, j),
        decreases 3 - i,
    {
        match checked_line(board, extra, hex, axes[i], player) {
            None => {
                return None;
            },
            Some(n) => {
                let len = n as i32;
                if len >= win {
                    return Some(true);
                }
            },
        }
        i += 1;
    }
    Some(false)
}

/// Whether `Hex::distance(a, b)` is computed without overflow.
pub fn distance_fits(a: Hex, b: Hex) -> (ok: bool)
    ensures
        ok == distance_defined(a, b),
{
    let lo: i64 = -0x7fff_ffff;
    let hi: i64 = 0x7fff_ffff;
    let dq: i64 = a.0 as i64 - b.0 as i64;
    let dr: i64 = a.1 as i64 - b.1 as i64;
    let sa: i64 = -(a.0 as i64) - a.1 as i64;
    let sb: i64 = -(b.0 as i64) - b.1 as i64;
    let ds: i64 = sa - sb;
    lo <= dq && dq <= hi && lo <= dr && dr <= hi && lo <= a.0 as i64 && lo <= b.0 as i64 && i32::MIN as i64 <= sa
        && sa <= i32::MAX as i64 && i32::MIN as i64 <= sb && sb <= i32::MAX as i64 && lo <= ds && ds <= hi
}

/// Whether `is_within_range(hex, max_dist)` runs without overflow on `board`.
pub fn range_fits(board: &Board, hex: Hex, max_dist: i32) -> (ok: bool)
    ensures
        ok == range_ok(board@, hex, max_dist),
{
    let entries = board.entries();
    let mut near = false;
    let mut i: usize = 0;
    while i < entries.len()
        invariant
            lists_entries(board@, entries@),
            0 <= i <= entries.len(),
            forall|j: int| 0 <= j < i ==> distance_defined(#[trigger] entries@[j].0, hex),
            near == exists|j: int| 0 <= j < i && hex_dist(#[trigger] entries@[j].0, hex) <= max_dist,
        decreases entries.len() - i,
    {
        let h = entries[i].0;
        proof {
            assert(board@.contains_key(entries@[i as int].0));
        }
        if !distance_fits(h, hex) {
            return false;
        }
        if h.distance(hex) <= max_dist {
            near = true;
        }
        i += 1;
    }
    proof {
        assert forall|h: Hex| #[trigger] board@.contains_key(h) implies distance_defined(h, hex) by {
            let j = choose|j: int| 0 <= j < entries@.len() && entries@[j].0 == h;
            assert(distance_defined(entries@[j].0, hex));
        }
        if near_some_stone(board@, hex, max_dist) {
            let h = choose|h: Hex| #[trigger] board@.contains_key(h) && hex_dist(h, hex) <= max_dist;
            let j = choose|j: int| 0 <= j < entries@.len() && entries@[j].0 == h;
            assert(hex_dist(entries@[j].0, hex) <= max_dist);
        }
        if near {
            let j = choose|j: int| 0 <= j < i && hex_dist(#[trigger] entries@[j].0, hex) <= max_dist;
            assert(board@.contains_key(entries@[j].0));
        }
    }
    if near {
        distance_fits(Hex(0, 0), hex)
    } else {
        true
    }
}

/// In a well-formed game the pending stone is on the board, so placing on it
/// is refused as an occupied cell: `CannotPlaceTwice` never comes.
pub proof fn lemma_pending_cell_is_occupied(s: GameState, cfg: Config, hex: Hex)
    requires
        s.wf(),
    ensures
        s.refusal(cfg, hex) != Some(Diag::CannotPlaceTwice),
{
}

/// Placing on a free cell and then taking it back restores the state the
/// placement was made in, whatever hash the placement produced.
pub proof fn lemma_undo_restores(s: GameState, hex: Hex, zhash: u64)
    requires
        !s.cells.contains_key(hex),
    ensures
        s.placed(hex, zhash).undone(s.record(hex)) == s,
{
    assert(s.cells.insert(hex, s.turn).remove(hex) =~= s.cells);
}

/// A game in progress under a configuration.
pub struct Game<'a> {
    pub cfg: &'a Config,
    pub board: Board,
    pub turn: Player,
    pub phase: Phase,
    pub pending: Option<Hex>,
    pub zhash: u64,
}

impl<'a> View for Game<'a> {
    type V = GameState;

    open spec fn view(&self) -> GameState {
        GameState {
            cells: self.board@,
            turn: self.turn,
            phase: self.phase,
            pending: self.pending,
            zhash: self.zhash,
        }
    }
}

impl<'a> Game<'a> {
    /// The game's state is well formed (see `GameState::wf`).
    pub open spec fn wf(&self) -> bool {
        self@.wf()
    }

    /// A fresh game: `X`'s stone on the origin, `O` to move, first half.
    pub fn new(config: &'a Config) -> (g: Self)
        ensures
            g.cfg == config,
            g@.cells == map![Hex(0, 0) => Player::X],
            g.turn == Player::O,
            g.phase == Phase::First,
            g.pending is None,
            g.wf(),
    {
        let mut board = Board::new();
        let mut zhash: u64 = 0;

        board.place(Hex::origin(), Player::X);
        zhash = zhash ^ zobrist::hash(Hex::origin(), Player::X);

        let g = Self { cfg: config, board, turn: Player::O, phase: Phase::First, pending: None, zhash };
        assert(g@.cells =~= map![Hex(0, 0) => Player::X]);
        g
    }

    /// Whether `play_half_turn(hex)` can be called: every computation it
    /// makes stays within `i32` and a second half has its first stone.
    pub fn can_play(&self, hex: Hex) -> (ok: bool)
        ensures
            ok == self@.play_ok(*self.cfg, hex),
    {
        let empty = self.board.is_empty(&hex);
        let not_pending = match self.pending {
            Some(p) => p != hex,
            None => true,
        };
        if !(empty && not_pending) {
            return true;
        }
        if !range_fits(&self.board, hex, self.cfg.view_distance) {
            return false;
        }
        if !self.is_within_range(hex, self.cfg.view_distance) {
            return true;
        }
        match self.phase {
            Phase::First => true,
            Phase::Second => {
                match self.pending {
                    None => false,
                    Some(first) => {
                        let extra = Some((hex, self.turn));
                        proof {
                            assert(with_extra(self.board@, extra) == self@.cells.insert(hex, self.turn));
                        }
                        match checked_win(&self.board, extra, first, self.turn, self.cfg.win_distance) {
                            None => false,
                            Some(true) => true,
                            Some(false) => checked_win(&self.board, extra, hex, self.turn, self.cfg.win_distance).is_some(),
                        }
                    },
                }
            },
        }
    }

    /// Whether `apply_half_turn(hex)` can be called: every computation it
    /// makes stays within `i32`.
    pub fn can_apply(&self, hex: Hex) -> (ok: bool)
        ensures
            ok == self@.apply_ok(*self.cfg, hex),
    {
        let empty = self.board.is_empty(&hex);
        let not_pending = match self.pending {
            Some(p) => p != hex,
            None => true,
        };
        if empty && not_pending {
            range_fits(&self.board, hex, self.cfg.view_distance)
        } else {
            true
        }
    }

    /// Whether `is_game_over` can be called: the lines through every stone are
    /// measured without overflow.
    pub fn can_check_game_over(&self) -> (ok: bool)
        ensures
            ok == all_win_checks_ok(self.board@, self.cfg.win_distance),
    {
        let entries = self.board.entries();
        let mut n: usize = 0;
        while n < entries.len()
            invariant
                lists_entries(self.board@, entries@),
                0 <= n <= entries.len(),
                forall|j: int|
                    0 <= j < n ==> win_check_ok(self.board@, #[trigger] entries@[j].0, entries@[j].1, self.cfg.win_distance),
            decreases entries.len() - n,
        {
            let (h, p) = entries[n];
            proof {
                assert(self.board@.contains_key(entries@[n as int].0));
                assert(with_extra(self.board@, None) == self.board@);
            }
            if checked_win(&self.board, None, h, p, self.cfg.win_distance).is_none() {
                proof {
                    reveal(all_win_checks_ok);
                }
                return false;
            }
            n += 1;
        }
        assert forall|h: Hex| #[trigger] self.board@.contains_key(h) implies win_check_ok(
            self.board@,
            h,
            self.board@[h],
            self.cfg.win_distance,
        ) by {
            let j = choose|j: int| 0 <= j < entries@.len() && entries@[j].0 == h;
            assert(win_check_ok(self.board@, entries@[j].0, entries@[j].1, self.cfg.win_distance));
        }
        proof {
            reveal(all_win_checks_ok);
        }
        true
    }

    /// Whether `winning_line(player)` can be called: the walks along every axis
    /// from every stone of `player` stay within `i32`.
    pub fn can_find_winning_line(&self, player: Player) -> (ok: bool)
        ensures
            ok == forall|h: Hex, i: int|
                0 <= i < 3 && #[trigger] own_at(self.board@, h, player) ==> walk_ok(
                    self.board@,
                    h,
                    #[trigger] axes_spec()[i],
                    player,
                ) && walk_ok(self.board@, h, neg(axes_spec()[i]), player),
    {
        let entries = self.board.entries();
        let axes = Hex::axes();
        let mut n: usize = 0;
        proof {
            assert(with_extra(self.board@, None) == self.board@);
        }
        while n < entries.len()
            invariant
                lists_entries(self.board@, entries@),
                axes@ == axes_spec(),
                with_extra(self.board@, None) == self.board@,
                0 <= n <= entries.len(),
                forall|j: int, i: int|
                    #![trigger entries@[j], axes_spec()[i]]
                    0 <= j < n && 0 <= i < 3 && entries@[j].1 == player ==> walk_ok(
                        self.board@,
                        entries@[j].0,
                        axes_spec()[i],
                        player,
                    ) && walk_ok(self.board@, entries@[j].0, neg(axes_spec()[i]), player),
            decreases entries.len() - n,
        {
            let (h, p) = entries[n];
            if p == player {
                let mut i: usize = 0;
                while i < 3
                    invariant
                        axes@ == axes_spec(),
                        with_extra(self.board@, None) == self.board@,
                        lists_entries(self.board@, entries@),
                        0 <= n < entries.len(),
                        h == entries@[n as int].0,
                        p == entries@[n as int].1,
                        p == player,
                        forall|j: int, i: int|
                            #![trigger entries@[j], axes_spec()[i]]
                            0 <= j < n && 0 <= i < 3 && entries@[j].1 == player ==> walk_ok(
                                self.board@,
                                entries@[j].0,
                                axes_spec()[i],
                                player,
                            ) && walk_ok(self.board@, entries@[j].0, neg(axes_spec()[i]), player),
                        0 <= i <= 3,
                        forall|i2: int|
                            0 <= i2 < i ==> walk_ok(self.board@, h, #[trigger] axes_spec()[i2], player) && walk_ok(
                                self.board@,
                                h,
                                neg(axes_spec()[i2]),
                                player,
                            ),
                    decreases 3 - i,
                {
                    let d = axes[i];
                    proof {
                        assert(self.board@.contains_key(entries@[n as int].0));
                        assert(own_at(self.board@, h, player));
                    }
                    let fwd_ok = checked_run(&self.board, None, h, d, player).is_some();
                    let bwd_ok = fwd_ok && checked_run(&self.board, None, h, Hex(-d.0, -d.1), player).is_some();
                    if !bwd_ok {
                        proof {
                            assert(!(walk_ok(self.board@, h, axes_spec()[i as int], player) && walk_ok(
                                self.board@,
                                h,
                                neg(axes_spec()[i as int]),
                                player,
                            )));
                        }
                        return false;
                    }
                    i += 1;
                }
            }
            n += 1;
        }
        assert forall|h: Hex, i: int|
            0 <= i < 3 && #[trigger] own_at(self.board@, h, player) implies walk_ok(
                self.board@,
                h,
                #[trigger] axes_spec()[i],
                player,
            ) && walk_ok(self.board@, h, neg(axes_spec()[i]), player) by {
            let j = choose|j: int| 0 <= j < entries@.len() && entries@[j].0 == h;
            assert(entries@[j].1 == player);
            assert(walk_ok(self.board@, entries@[j].0, axes_spec()[i], player));
        }
        true
    }

    /// The number of `player`'s stones in a row after `start` along `dir`.
    pub(crate) fn count_dir(&self, start: Hex, dir: Hex, player: Player) -> (n: i32)
        requires
            is_step(dir),
            walk_ok(self.board@, start, dir, player),
            run_spec(self.board@, start, dir, player) <= i32::MAX,
        ensures
            n == run_spec(self.board@, start, dir, player),
    {
        let mut count: i32 = 0;
        let mut cur = start;
        loop
            invariant
                is_step(dir),
                walk_ok(self.board@, cur, dir, player),
                0 <= count,
                count + run_spec(self.board@, cur, dir, player) == run_spec(self.board@, start, dir, player),
                run_spec(self.board@, start, dir, player) <= i32::MAX,
            ensures
                count == run_spec(self.board@, start, dir, player),
            decreases progress(cur, dir),
        {
            let next = cur + dir;
            match self.board.get(&next) {
                Some(p) if *p == player => {
                    count += 1;
                    cur = next;
                },
                _ => {
                    break;
                },
            }
        }
        count
    }

    /// The number of `player`'s stones in a row after `start` along `dir`,
    /// counted in `u64`, which no run along a nonzero direction can exceed.
    fn count_run(&self, start: Hex, dir: Hex, player: Player) -> (n: u64)
        requires
            is_step(dir),
            walk_ok(self.board@, start, dir, player),
        ensures
            n == run_spec(self.board@, start, dir, player),
    {
        let mut count: u64 = 0;
        let mut cur = start;
        proof {
            lemma_run_bound(self.board@, start, dir, player);
        }
        loop
            invariant
                is_step(dir),
                walk_ok(self.board@, cur, dir, player),
                count + run_spec(self.board@, cur, dir, player) == run_spec(self.board@, start, dir, player),
                run_spec(self.board@, start, dir, player) <= u32::MAX,
            ensures
                count == run_spec(self.board@, start, dir, player),
            decreases progress(cur, dir),
        {
            let next = cur + dir;
            match self.board.get(&next) {
                Some(p) if *p == player => {
                    count += 1;
                    cur = next;
                },
                _ => {
                    break;
                },
            }
        }
        count
    }

    /// Whether some line through `hex` along an axis reaches the winning length.
    pub fn is_winning_move(&self, hex: Hex, player: Player) -> (b: bool)
        requires
            win_check_ok(self.board@, hex, player, self.cfg.win_distance),
        ensures
            b == wins_at(self.board@, hex, player, self.cfg.win_distance),
    {
        let axes = Hex::axes();
        let mut i: usize = 0;
        while i < 3
            invariant
                win_check_ok(self.board@, hex, player, self.cfg.win_distance),
                axes@ == axes_spec(),
                0 <= i <= 3,
                forall|j: int| 0 <= j < i ==> !axis_wins(self.board@, hex, player, self.cfg.win_distance, j),
            decreases 3 - i,
        {
            let d = axes[i];
            proof {
                assert(line_ok(self.board@, hex, axes_spec()[i as int], player));
            }
            let f = self.count_dir(hex, d, player);
            let b = self.count_dir(hex, Hex(-d.0, -d.1), player);
            if 1 + f + b >= self.cfg.win_distance {
                return true;
            }
            i += 1;
        }
        false
    }

    /// Whether `hex` is within `max_dist` of some stone and within the size limit.
    pub fn is_within_range(&self, hex: Hex, max_dist: i32) -> (b: bool)
        requires
            range_ok(self.board@, hex, max_dist),
        ensures
            b == within_range_spec(self.board@, self.cfg.size_limit, hex, max_dist),
    {
        let entries = self.board.entries();
        let mut i: usize = 0;
        while i < entries.len()
            invariant
                range_ok(self.board@, hex, max_dist),
                lists_entries(self.board@, entries@),
                0 <= i <= entries.len(),
                forall|j: int| 0 <= j < i ==> hex_dist(#[trigger] entries@[j].0, hex) > max_dist,
            decreases entries.len() - i,
        {
            let h = entries[i].0;
            proof {
                assert(self.board@.contains_key(entries@[i as int].0));
            }
            if h.distance(hex) <= max_dist {
                return Hex::origin().distance(hex) <= self.cfg.size_limit;
            }
            i += 1;
        }
        assert forall|h: Hex| #[trigger] self.board@.contains_key(h) implies hex_dist(h, hex) > max_dist by {
            let j = choose|j: int| 0 <= j < entries@.len() && entries@[j].0 == h;
            assert(hex_dist(entries@[j].0, hex) > max_dist);
        }
        false
    }

    /// Places the mover's stone on `hex` as one half of a turn. After the second
    /// half the game checks both stones of the turn for a win: on a win it
    /// reports the winner and leaves the turn where it is; otherwise the turn
    /// passes to the opponent.
    pub fn play_half_turn(&mut self, hex: Hex) -> (res: Result<Option<Player>, Diag>)
        requires
            old(self)@.play_ok(*old(self).cfg, hex),
        ensures
            (match old(self)@.refusal(*old(self).cfg, hex) {
                Some(d) => res matches Err(e) && e == d && *final(self) == *old(self),
                None => {
                    let cells = old(self)@.cells.insert(hex, old(self).turn);
                    let turn = old(self).turn;
                    let win = old(self).cfg.win_distance;
                    let won = old(self).phase == Phase::Second && (wins_at(
                        cells,
                        old(self).pending.unwrap(),
                        turn,
                        win,
                    ) || wins_at(cells, hex, turn, win));
                    &&& final(self).cfg == old(self).cfg
                    &&& (old(self).wf() ==> final(self).wf())
                    &&& if won {
                        &&& res matches Ok(o) && o == Some(turn)
                        &&& final(self)@ == old(self)@.with_stone(hex, final(self).zhash)
                    } else {
                        &&& res matches Ok(o) && o is None
                        &&& final(self)@ == old(self)@.placed(hex, final(self).zhash)
                    }
                },
            }),
    {
        if !self.board.is_empty(&hex) {
            return Err(Diag::CellOccupied);
        }
        if let Some(lhs) = self.pending {
            if lhs == hex {
                return Err(Diag::CannotPlaceTwice);
            }
        }
        if !self.is_within_range(hex, self.cfg.view_distance) {
            return Err(Diag::TooFarAway);
        }
        match self.phase {
            Phase::First => {
                self.board.place(hex, self.turn);
                self.zhash = self.zhash ^ zobrist::hash(hex, self.turn);
                self.pending = Some(hex);
                self.phase = Phase::Second;
                Ok(None)
            },
            Phase::Second => {
                self.board.place(hex, self.turn);
                self.zhash = self.zhash ^ zobrist::hash(hex, self.turn);

                let first = self.pending.unwrap();
                if self.is_winning_move(first, self.turn) || self.is_winning_move(hex, self.turn) {
                    return Ok(Some(self.turn));
                }
                self.pending = None;
                self.phase = Phase::First;
                self.turn = self.turn.opponent();
                Ok(None)
            },
        }
    }

    /// Places the mover's stone on `hex` and advances the turn without looking
    /// for a win, handing back what `undo_half_turn` needs to take it back.
    pub fn apply_half_turn(&mut self, hex: Hex) -> (res: Result<Undo, Diag>)
        requires
            old(self)@.apply_ok(*old(self).cfg, hex),
        ensures
            (match old(self)@.refusal(*old(self).cfg, hex) {
                Some(d) => res matches Err(e) && e == d && *final(self) == *old(self),
                None => {
                    &&& res matches Ok(u) && u == old(self)@.record(hex)
                    &&& final(self)@ == old(self)@.placed(hex, final(self).zhash)
                    &&& final(self).cfg == old(self).cfg
                    &&& (old(self).wf() ==> final(self).wf())
                },
            }),
    {
        let undo = Undo {
            hex,
            prev_pending: self.pending,
            prev_phase: self.phase,
            prev_turn: self.turn,
            prev_zhash: self.zhash,
        };
        if !self.board.is_empty(&hex) {
            return Err(Diag::CellOccupied);
        }
        if let Some(lhs) = self.pending {
            if lhs == hex {
                return Err(Diag::CannotPlaceTwice);
            }
        }
        if !self.is_within_range(hex, self.cfg.view_distance) {
            return Err(Diag::TooFarAway);
        }
        self.board.place(hex, self.turn);
        self.zhash = self.zhash ^ zobrist::hash(hex, self.turn);
        match self.phase {
            Phase::First => {
                self.pending = Some(hex);
                self.phase = Phase::Second;
            },
            Phase::Second => {
                self.pending = None;
                self.phase = Phase::First;
                self.turn = self.turn.opponent();
            },
        }
        Ok(undo)
    }

    /// Takes back the placement `undo` records: clears its cell and restores
    /// the pending stone, phase, turn and hash it saved.
    pub fn undo_half_turn(&mut self, undo: Undo)
        ensures
            final(self)@ == old(self)@.undone(undo),
            final(self).cfg == old(self).cfg,
    {
        crate::game::board::cells_remove(&mut self.board.cells, &undo.hex);
        self.zhash = self.zhash ^ zobrist::hash(undo.hex, undo.prev_turn);

        self.pending = undo.prev_pending;
        self.phase = undo.prev_phase;
        self.turn = undo.prev_turn;
        self.zhash = undo.prev_zhash;
    }

    /// The owner of some stone that completes a winning line, if any stone does;
    /// which one is found first follows the board's own order.
    pub fn is_game_over(&self) -> (r: Option<Player>)
        requires
            all_win_checks_ok(self.board@, self.cfg.win_distance),
        ensures
            r is None <==> !someone_wins(self.board@, self.cfg.win_distance),
            r matches Some(p) ==> exists|h: Hex|
                #[trigger] self.board@.contains_key(h) && self.board@[h] == p
                    && wins_at(self.board@, h, p, self.cfg.win_distance),
    {
        let entries = self.board.entries();
        let mut n: usize = 0;
        while n < entries.len()
            invariant
                all_win_checks_ok(self.board@, self.cfg.win_distance),
                lists_entries(self.board@, entries@),
                0 <= n <= entries.len(),
                forall|j: int|
                    0 <= j < n ==> !wins_at(self.board@, #[trigger] entries@[j].0, entries@[j].1, self.cfg.win_distance),
            decreases entries.len() - n,
        {
            let (h, p) = entries[n];
            proof {
                assert(self.board@.contains_key(entries@[n as int].0));
                assert(win_check_ok(self.board@, h, p, self.cfg.win_distance)) by {
                    reveal(all_win_checks_ok);
                }
            }
            if self.is_winning_move(h, p) {
                return Some(p);
            }
            n += 1;
        }
        assert forall|h: Hex| #[trigger] self.board@.contains_key(h)
            implies !wins_at(self.board@, h, self.board@[h], self.cfg.win_distance) by {
            let j = choose|j: int| 0 <= j < entries@.len() && entries@[j].0 == h;
            assert(!wins_at(self.board@, entries@[j].0, entries@[j].1, self.cfg.win_distance));
        }
        None
    }

    /// The line of `player`'s stones through `h` along axis `i`, if it is at
    /// least the (non-negative) winning length.
    fn axis_line(&self, h: Hex, i: usize, player: Player) -> (r: Option<Vec<Hex>>)
        requires
            i < 3,
            own_at(self.board@, h, player),
            walk_ok(self.board@, h, axes_spec()[i as int], player),
            walk_ok(self.board@, h, neg(axes_spec()[i as int]), player),
        ensures
            r is None <==> !axis_line_wins(self.board@, h, i as int, player, self.cfg.win_distance),
            r matches Some(line) ==> line@ == line_through(self.board@, h, i as int, player),
    {
        let win = self.cfg.win_distance;
        let axes = Hex::axes();
        let d = axes[i];
        let f = self.count_run(h, d, player);
        let b = self.count_run(h, Hex(-d.0, -d.1), player);
        proof {
            lemma_run_bound(self.board@, h, d, player);
            lemma_run_bound(self.board@, h, neg(d), player);
            assert forall|k: int| 0 <= k < 1 + f + b implies #[trigger] axis_fits(h, i as int, k - b) by {
                lemma_line_cells(self.board@, h, i as int, player, k);
            }
        }
        let line = line_cells(h, i, b, 1 + f + b);
        if win >= 0 && line.len() >= win as usize {
            assert(line@ =~= line_through(self.board@, h, i as int, player));
            Some(line)
        } else {
            None
        }
    }

    /// A winning line of `player`'s stones, from its backward end to its forward
    /// end along its axis (so sorted by `(q, r)`), if `player` has one; which
    /// one is found first follows the board's own order.
    pub fn winning_line(&self, player: Player) -> (r: Option<Vec<Hex>>)
        requires
            forall|h: Hex, i: int|
                0 <= i < 3 && #[trigger] own_at(self.board@, h, player) ==> walk_ok(
                    self.board@,
                    h,
                    #[trigger] axes_spec()[i],
                    player,
                ) && walk_ok(self.board@, h, neg(axes_spec()[i]), player),
        ensures
            r is None <==> !has_winning_line(self.board@, player, self.cfg.win_distance),
            r matches Some(line) ==> exists|h: Hex, i: int|
                #![trigger axis_line_wins(self.board@, h, i, player, self.cfg.win_distance)]
                0 <= i < 3 && self.board@.contains_key(h) && self.board@[h] == player
                    && axis_line_wins(self.board@, h, i, player, self.cfg.win_distance)
                    && line@ == line_through(self.board@, h, i, player),
    {
        let win = self.cfg.win_distance;
        let entries = self.board.entries();
        let mut n: usize = 0;
        while n < entries.len()
            invariant
                forall|h: Hex, i: int|
                    0 <= i < 3 && #[trigger] own_at(self.board@, h, player) ==> walk_ok(
                        self.board@,
                        h,
                        #[trigger] axes_spec()[i],
                        player,
                    ) && walk_ok(self.board@, h, neg(axes_spec()[i]), player),
                lists_entries(self.board@, entries@),
                win == self.cfg.win_distance,
                0 <= n <= entries.len(),
                forall|j: int, i: int|
                    #![trigger axis_line_wins(self.board@, entries@[j].0, i, player, win)]
                    0 <= j < n && 0 <= i < 3 && entries@[j].1 == player
                        ==> !axis_line_wins(self.board@, entries@[j].0, i, player, win),
            decreases entries.len() - n,
        {
            let (h, p) = entries[n];
            proof {
                assert(self.board@.contains_key(entries@[n as int].0));
            }
            if p == player {
                let mut i: usize = 0;
                while i < 3
                    invariant
                        forall|h: Hex, i: int|
                            0 <= i < 3 && #[trigger] own_at(self.board@, h, player) ==> walk_ok(
                                self.board@,
                                h,
                                #[trigger] axes_spec()[i],
                                player,
                            ) && walk_ok(self.board@, h, neg(axes_spec()[i]), player),
                        own_at(self.board@, h, player),
                        win == self.cfg.win_distance,
                        0 <= i <= 3,
                        forall|i2: int|
                            #![trigger axis_line_wins(self.board@, h, i2, player, win)]
                            0 <= i2 < i ==> !axis_line_wins(self.board@, h, i2, player, win),
                    decreases 3 - i,
                {
                    proof {
                        assert(walk_ok(self.board@, h, axes_spec()[i as int], player));
                    }
                    if let Some(line) = self.axis_line(h, i, player) {
                        assert(axis_line_wins(self.board@, h, i as int, player, win));
                        return Some(line);
                    }
                    i += 1;
                }
            }
            n += 1;
        }
        assert forall|h: Hex, i: int|
            #![trigger axis_line_wins(self.board@, h, i, player, win)]
            0 <= i < 3 && self.board@.contains_key(h) && self.board@[h] == player
                implies !axis_line_wins(self.board@, h, i, player, win) by {
            let j = choose|j: int| 0 <= j < entries@.len() && entries@[j].0 == h;
            assert(entries@[j].1 == player);
            assert(!axis_line_wins(self.board@, entries@[j].0, i, player, win));
        }
        None
    }
}

} // verus!
