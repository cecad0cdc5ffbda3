//! Checks, run before a score is computed, that its `i32` arithmetic cannot
//! overflow on the given position.

use vstd::prelude::*;
use crate::ai::cluster::{all_neighbours_fit, neighbours_fit};
use crate::ai::features::{DoubleThreats, GapThreats, IsolatedPieces, LargestCluster, LongestRun, OpenThreats, OpponentThreat, ThreatScore, all_doubles_ok, cells_of, clear_along, double_pair_ok, double_spot_ok, doubles_ok, gap_ok, gaps_ok, is_unit, isolation_ok, lines_ok, near_along_ok, run_starts_ok, continues_run, is_open, open_ends_defined, open_ends_spec, openness_defined, run_start_ok, step_cell, step_cell_defined, threat_cell_defined, threat_term_defined, threat_total_defined};
use crate::game::game::{Game, checked_line, checked_pair, checked_step, distance_fits, line_ok, own_at, run_spec, with_extra};
use crate::game::hex::{Hex, axes_spec, fits_i32};
use crate::game::player::Player;

verus! {

/// Whether `x` fits in `i32`.
fn fits32(x: i128) -> (ok: bool)
    ensures
        ok == fits_i32(x as int),
{
    i32::MIN as i128 <= x && x <= i32::MAX as i128
}

/// Whether the cell `k` steps from `hex` along `dir` is computed without overflow.
fn step_fits(hex: Hex, dir: Hex, k: i64) -> (ok: bool)
    requires
        -0x1_0000_0000 <= k <= 0x1_0000_0000,
    ensures
        ok == step_cell_defined(hex, dir, k as int),
{
    proof {
        assert(-0x80_0000_0000_0000_0000 <= dir.0 * k <= 0x80_0000_0000_0000_0000) by (nonlinear_arith)
            requires
                i32::MIN <= dir.0 <= i32::MAX,
                -0x1_0000_0000 <= k <= 0x1_0000_0000;
        assert(-0x80_0000_0000_0000_0000 <= dir.1 * k <= 0x80_0000_0000_0000_0000) by (nonlinear_arith)
            requires
                i32::MIN <= dir.1 <= i32::MAX,
                -0x1_0000_0000 <= k <= 0x1_0000_0000;
    }
    let a: i128 = dir.0 as i128 * k as i128;
    let b: i128 = dir.1 as i128 * k as i128;
    fits32(a) && fits32(b) && fits32(hex.0 as i128 + a) && fits32(hex.1 as i128 + b)
}

/// The cell `k` steps from `hex` along `dir`, which is computed without overflow.
fn step_to(hex: Hex, dir: Hex, k: i64) -> (c: Hex)
    requires
        -0x1_0000_0000 <= k <= 0x1_0000_0000,
        step_cell_defined(hex, dir, k as int),
    ensures
        c == step_cell(hex, dir, k as int),
{
    let a: i64 = dir.0 as i64 * k;
    let b: i64 = dir.1 as i64 * k;
    Hex((hex.0 as i64 + a) as i32, (hex.1 as i64 + b) as i32)
}

/// Whether `c` is free and within the size limit, when that is decided
/// without overflow.
fn checked_open(game: &Game, c: Hex) -> (r: Option<bool>)
    ensures
        r is Some <==> openness_defined(game.board@, c),
        r matches Some(b) ==> b == is_open(game.board@, game.cfg.size_limit, c),
{
    if !game.board.is_empty(&c) {
        return Some(false);
    }
    if !distance_fits(Hex(0, 0), c) {
        return None;
    }
    Some(Hex::origin().distance(c) <= game.cfg.size_limit)
}

/// The number of open ends of the line through `hex` along `dir`, with the
/// forward run, when `open_ends_defined` holds.
fn checked_open_ends(game: &Game, hex: Hex, dir: Hex, player: Player) -> (r: Option<(i32, u64)>)
    ensures
        r is Some <==> open_ends_defined(game.board@, hex, dir, player),
        r matches Some(v) ==> v.0 == open_ends_spec(game.board@, game.cfg.size_limit, hex, dir, player) && v.1
            == run_spec(game.board@, hex, dir, player),
{
    proof {
        assert(with_extra(game.board@, None) == game.board@);
    }
    let (f, b) = match checked_pair(&game.board, None, hex, dir, player) {
        Some(v) => v,
        None => {
            return None;
        },
    };
    if f >= i32::MAX as u64 || b >= i32::MAX as u64 {
        return None;
    }
    let fk: i64 = f as i64 + 1;
    let bk: i64 = -(b as i64 + 1);
    if !step_fits(hex, dir, fk) || !step_fits(hex, dir, bk) {
        return None;
    }
    let front = step_to(hex, dir, fk);
    let back = step_to(hex, dir, bk);
    let front_open = match checked_open(game, front) {
        Some(o) => o,
        None => {
            return None;
        },
    };
    let back_open = match checked_open(game, back) {
        Some(o) => o,
        None => {
            return None;
        },
    };
    Some(((if front_open { 1i32 } else { 0i32 }) + (if back_open { 1i32 } else { 0i32 }), f))
}

/// Whether `c` holds `player`'s stone.
fn owns(game: &Game, c: Hex, player: Player) -> (b: bool)
    ensures
        b == own_at(game.board@, c, player),
{
    match game.board.get(&c) {
        Some(p) => *p == player,
        None => false,
    }
}

/// Whether the run that may start at `hex` along the axis direction `dir` is
/// checked without overflow, and whether it does start there.
fn checked_run_start(game: &Game, hex: Hex, dir: Hex, player: Player) -> (r: Option<bool>)
    requires
        axes_spec().contains(dir),
    ensures
        r is Some <==> run_start_ok(game.board@, hex, dir, player),
        r matches Some(b) ==> b == !continues_run(game.board@, hex, dir, player),
{
    let back = match checked_step(hex, Hex(-dir.0, -dir.1)) {
        Some(c) => c,
        None => {
            return None;
        },
    };
    if owns(game, back, player) {
        return Some(false);
    }
    match checked_open_ends(game, hex, dir, player) {
        Some(_) => Some(true),
        None => None,
    }
}

/// Whether the threat term of the run that may start at `hex` along the axis
/// direction `dir` is computed without overflow.
fn threat_term_fits(game: &Game, hex: Hex, dir: Hex, player: Player) -> (ok: bool)
    requires
        axes_spec().contains(dir),
    ensures
        ok == threat_term_defined(game.board@, game.cfg.size_limit, game.cfg.win_distance, hex, dir, player),
{
    let back = match checked_step(hex, Hex(-dir.0, -dir.1)) {
        Some(c) => c,
        None => {
            return false;
        },
    };
    if owns(game, back, player) {
        return true;
    }
    let (ends, f) = match checked_open_ends(game, hex, dir, player) {
        Some(v) => v,
        None => {
            return false;
        },
    };
    let len: i128 = 1 + f as i128;
    let win: i128 = game.cfg.win_distance as i128;
    let e: i128 = ends as i128;
    let gap: i128 = win - len;
    if !fits32(gap) {
        return false;
    }
    proof {
        assert(-0x2_0000_0000 <= e * gap <= 0x2_0000_0000) by (nonlinear_arith)
            requires
                0 <= e <= 2,
                i32::MIN <= gap <= i32::MAX;
    }
    let spare: i128 = e * gap;
    if !fits32(spare) {
        return false;
    }
    let reach: i128 = len + spare;
    if !fits32(reach) {
        return false;
    }
    if reach >= win {
        proof {
            assert(0 <= len * len <= 0x1_0000_0000_0000_0000) by (nonlinear_arith)
                requires
                    1 <= len <= 0x1_0000_0000;
        }
        fits32(len * len)
    } else {
        true
    }
}

/// Whether the threat terms of the runs that may start at `hex` are computed
/// without overflow.
fn threat_cell_fits(game: &Game, hex: Hex, player: Player) -> (ok: bool)
    ensures
        ok == threat_cell_defined(game.board@, game.cfg.size_limit, game.cfg.win_distance, hex, player),
{
    let axes = Hex::axes();
    proof {
        assert(axes_spec().contains(axes_spec()[0]));
        assert(axes_spec().contains(axes_spec()[1]));
        assert(axes_spec().contains(axes_spec()[2]));
    }
    threat_term_fits(game, hex, axes[0], player) && threat_term_fits(game, hex, axes[1], player)
        && threat_term_fits(game, hex, axes[2], player)
}

/// Whether the threat score of `player`'s runs is computed without overflow.
pub fn threat_total_fits(game: &Game, player: Player) -> (ok: bool)
    ensures
        ok == threat_total_defined(game.board@, game.cfg.size_limit, game.cfg.win_distance, player),
{
    let cells = game.cells_of_player(player);
    let mut k: usize = 0;
    while k < cells.len()
        invariant
            cells@.to_set() == cells_of(game.board@, player),
            0 <= k <= cells.len(),
            forall|j: int| 0 <= j < k ==> threat_cell_defined(
                game.board@,
                game.cfg.size_limit,
                game.cfg.win_distance,
                #[trigger] cells@[j],
                player,
            ),
        decreases cells.len() - k,
    {
        let h = cells[k];
        if !threat_cell_fits(game, h, player) {
            proof {
                assert(cells@.to_set().contains(h));
            }
            return false;
        }
        k += 1;
    }
    proof {
        assert forall|h: Hex| #[trigger] cells_of(game.board@, player).contains(h) implies threat_cell_defined(
            game.board@,
            game.cfg.size_limit,
            game.cfg.win_distance,
            h,
            player,
        ) by {
            assert(cells@.to_set().contains(h));
            let j = choose|j: int| 0 <= j < cells@.len() && cells@[j] == h;
            assert(threat_cell_defined(game.board@, game.cfg.size_limit, game.cfg.win_distance, cells@[j], player));
        }
    }
    true
}

impl ThreatScore {
    /// Whether `score_value` can be called on `game`: its arithmetic cannot overflow there.
    pub fn score_fits(&self, game: &Game) -> (ok: bool)
        ensures
            ok == threat_total_defined(game.board@, game.cfg.size_limit, game.cfg.win_distance, game.turn),
    {
        threat_total_fits(game, game.turn)
    }
}

impl OpponentThreat {
    /// Whether `score_value` can be called on `game`: its arithmetic cannot overflow there.
    pub fn score_fits(&self, game: &Game) -> (ok: bool)
        ensures
            ok == threat_total_defined(
                game.board@,
                game.cfg.size_limit,
                game.cfg.win_distance,
                game.turn.opponent_spec(),
            ),
    {
        threat_total_fits(game, game.turn.opponent())
    }
}

/// Whether the three lines through `hex` are measured without overflow.
fn lines_fit(game: &Game, hex: Hex, player: Player) -> (ok: bool)
    ensures
        ok == lines_ok(game.board@, hex, player),
{
    proof {
        assert(with_extra(game.board@, None) == game.board@);
    }
    let axes = Hex::axes();
    let ok = checked_line(&game.board, None, hex, axes[0], player).is_some() && checked_line(
        &game.board,
        None,
        hex,
        axes[1],
        player,
    ).is_some() && checked_line(&game.board, None, hex, axes[2], player).is_some();
    proof {
        if ok {
            assert forall|i: int| 0 <= i < 3 implies line_ok(game.board@, hex, #[trigger] axes_spec()[i], player) by {
                assert(i == 0 || i == 1 || i == 2);
            }
        }
    }
    ok
}

/// Whether the runs that may start at `hex` are checked without overflow.
fn run_starts_fit(game: &Game, hex: Hex, player: Player) -> (ok: bool)
    ensures
        ok == run_starts_ok(game.board@, hex, player),
{
    let axes = Hex::axes();
    proof {
        assert(axes_spec().contains(axes_spec()[0]));
        assert(axes_spec().contains(axes_spec()[1]));
        assert(axes_spec().contains(axes_spec()[2]));
    }
    let ok = checked_run_start(game, hex, axes[0], player).is_some() && checked_run_start(
        game,
        hex,
        axes[1],
        player,
    ).is_some() && checked_run_start(game, hex, axes[2], player).is_some();
    proof {
        if ok {
            assert forall|i: int| 0 <= i < 3 implies crate::ai::features::run_start_ok(
                game.board@,
                hex,
                #[trigger] axes_spec()[i],
                player,
            ) by {
                assert(i == 0 || i == 1 || i == 2);
            }
        }
    }
    ok
}

/// Whether the gap check along the axis direction `dir` from `hex` stays within `i32`.
fn gap_fits(game: &Game, hex: Hex, dir: Hex, player: Player) -> (ok: bool)
    requires
        axes_spec().contains(dir),
    ensures
        ok == gap_ok(game.board@, hex, dir, player),
{
    proof {
        assert(with_extra(game.board@, None) == game.board@);
    }
    let gap = match checked_step(hex, dir) {
        Some(c) => c,
        None => {
            return false;
        },
    };
    if !game.board.is_empty(&gap) {
        return true;
    }
    let far = match checked_step(gap, dir) {
        Some(c) => c,
        None => {
            return false;
        },
    };
    if !owns(game, far, player) {
        return true;
    }
    let (_, behind) = match checked_pair(&game.board, None, hex, dir, player) {
        Some(v) => v,
        None => {
            return false;
        },
    };
    let (ahead, _) = match checked_pair(&game.board, None, far, dir, player) {
        Some(v) => v,
        None => {
            return false;
        },
    };
    3 + behind + ahead <= i32::MAX as u64
}

/// Whether the gap checks along the three axes from `hex` stay within `i32`.
fn gaps_fit(game: &Game, hex: Hex, player: Player) -> (ok: bool)
    ensures
        ok == gaps_ok(game.board@, hex, player),
{
    let axes = Hex::axes();
    proof {
        assert(axes_spec().contains(axes_spec()[0]));
        assert(axes_spec().contains(axes_spec()[1]));
        assert(axes_spec().contains(axes_spec()[2]));
    }
    let ok = gap_fits(game, hex, axes[0], player) && gap_fits(game, hex, axes[1], player) && gap_fits(
        game,
        hex,
        axes[2],
        player,
    );
    proof {
        if ok {
            assert forall|i: int| 0 <= i < 3 implies gap_ok(game.board@, hex, #[trigger] axes_spec()[i], player) by {
                assert(i == 0 || i == 1 || i == 2);
            }
        }
    }
    ok
}

/// Whether the cells the isolation check of `hex` looks at along `dir` are
/// computed without overflow.
fn near_along_fits(game: &Game, hex: Hex, dir: Hex, player: Player) -> (ok: bool)
    requires
        is_unit(dir),
    ensures
        ok == near_along_ok(game.board@, hex, dir, player),
{
    if !step_fits(hex, dir, 1) {
        return false;
    }
    if owns(game, step_to(hex, dir, 1), player) {
        return true;
    }
    if !step_fits(hex, dir, 2) {
        return false;
    }
    if owns(game, step_to(hex, dir, 2), player) {
        return true;
    }
    if !step_fits(hex, dir, -1) {
        return false;
    }
    if owns(game, step_to(hex, dir, -1), player) {
        return true;
    }
    step_fits(hex, dir, -2)
}

/// Whether `player` has a stone within two steps of `hex` along `dir`, when
/// the cells looked at are computed without overflow.
fn near_along(game: &Game, hex: Hex, dir: Hex, player: Player) -> (b: bool)
    requires
        is_unit(dir),
        near_along_ok(game.board@, hex, dir, player),
    ensures
        b == !clear_along(game.board@, hex, dir, player),
{
    owns(game, step_to(hex, dir, 1), player) || owns(game, step_to(hex, dir, 2), player) || owns(
        game,
        step_to(hex, dir, -1),
        player,
    ) || owns(game, step_to(hex, dir, -2), player)
}

/// Whether the isolation check of `hex` is computed without overflow.
fn isolation_fits(game: &Game, hex: Hex, player: Player) -> (ok: bool)
    ensures
        ok == isolation_ok(game.board@, hex, player),
{
    let axes = Hex::axes();
    proof {
        assert(is_unit(axes[0]) && is_unit(axes[1]) && is_unit(axes[2]));
    }
    if !near_along_fits(game, hex, axes[0], player) {
        return false;
    }
    if near_along(game, hex, axes[0], player) {
        return true;
    }
    if !near_along_fits(game, hex, axes[1], player) {
        return false;
    }
    if near_along(game, hex, axes[1], player) {
        return true;
    }
    near_along_fits(game, hex, axes[2], player)
}

/// Whether deciding if `c` is a double spot stays within `i32`.
fn double_spot_fits(game: &Game, c: Hex, player: Player) -> (ok: bool)
    ensures
        ok == double_spot_ok(game.board@, game.cfg.size_limit, c, player),
{
    if !game.board.is_empty(&c) {
        return true;
    }
    if !distance_fits(Hex(0, 0), c) {
        return false;
    }
    if Hex::origin().distance(c) > game.cfg.size_limit {
        return true;
    }
    lines_fit(game, c, player)
}

/// Whether the double-spot checks one and two steps from `hex` along `dir`
/// stay within `i32`.
fn double_pair_fits(game: &Game, hex: Hex, dir: Hex, player: Player) -> (ok: bool)
    ensures
        ok == double_pair_ok(game.board@, game.cfg.size_limit, hex, dir, player),
{
    step_fits(hex, dir, 1) && double_spot_fits(game, step_to(hex, dir, 1), player) && step_fits(hex, dir, 2)
        && double_spot_fits(game, step_to(hex, dir, 2), player)
}

/// Whether the double-spot checks around `hex` stay within `i32`.
fn doubles_fit(game: &Game, hex: Hex, player: Player) -> (ok: bool)
    ensures
        ok == doubles_ok(game.board@, game.cfg.size_limit, hex, player),
{
    let axes = Hex::axes();
    let ok = double_pair_fits(game, hex, axes[0], player) && double_pair_fits(game, hex, axes[1], player)
        && double_pair_fits(game, hex, axes[2], player);
    proof {
        if ok {
            assert forall|i: int| 0 <= i < 3 implies double_pair_ok(
                game.board@,
                game.cfg.size_limit,
                hex,
                #[trigger] axes_spec()[i],
                player,
            ) by {
                assert(i == 0 || i == 1 || i == 2);
            }
        }
    }
    ok
}

/// Whether the six neighbours of `hex` have representable coordinates.
fn neighbours_fit_at(hex: Hex) -> (ok: bool)
    ensures
        ok == neighbours_fit(hex),
{
    hex.0 > i32::MIN && hex.0 < i32::MAX && hex.1 > i32::MIN && hex.1 < i32::MAX
}

/// The per-stone conditions under which the scores are computed without overflow.
pub enum CellCheck {
    Lines,
    RunStarts,
    Gaps,
    Isolation,
    Neighbours,
}

/// The condition `which` names holds at `h` for `player`.
pub open spec fn cell_check_ok(cells: Map<Hex, Player>, which: CellCheck, h: Hex, player: Player) -> bool {
    match which {
        CellCheck::Lines => lines_ok(cells, h, player),
        CellCheck::RunStarts => run_starts_ok(cells, h, player),
        CellCheck::Gaps => gaps_ok(cells, h, player),
        CellCheck::Isolation => isolation_ok(cells, h, player),
        CellCheck::Neighbours => neighbours_fit(h),
    }
}

/// Whether the condition `which` names holds at `h` for `player`.
fn cell_check_fits(game: &Game, which: &CellCheck, h: Hex, player: Player) -> (ok: bool)
    ensures
        ok == cell_check_ok(game.board@, *which, h, player),
{
    match which {
        CellCheck::Lines => lines_fit(game, h, player),
        CellCheck::RunStarts => run_starts_fit(game, h, player),
        CellCheck::Gaps => gaps_fit(game, h, player),
        CellCheck::Isolation => isolation_fits(game, h, player),
        CellCheck::Neighbours => neighbours_fit_at(h),
    }
}

/// Whether the condition `which` names holds at every stone of `player`.
pub fn all_cells_fit(game: &Game, which: &CellCheck, player: Player) -> (ok: bool)
    ensures
        ok == forall|h: Hex| #[trigger] cells_of(game.board@, player).contains(h) ==> cell_check_ok(
            game.board@,
            *which,
            h,
            player,
        ),
{
    let cells = game.cells_of_player(player);
    let mut k: usize = 0;
    while k < cells.len()
        invariant
            cells@.to_set() == cells_of(game.board@, player),
            0 <= k <= cells.len(),
            forall|j: int| 0 <= j < k ==> cell_check_ok(game.board@, *which, #[trigger] cells@[j], player),
        decreases cells.len() - k,
    {
        let h = cells[k];
        if !cell_check_fits(game, which, h, player) {
            proof {
                assert(cells@.to_set().contains(h));
            }
            return false;
        }
        k += 1;
    }
    proof {
        assert forall|h: Hex| #[trigger] cells_of(game.board@, player).contains(h) implies cell_check_ok(
            game.board@,
            *which,
            h,
            player,
        ) by {
            assert(cells@.to_set().contains(h));
            let j = choose|j: int| 0 <= j < cells@.len() && cells@[j] == h;
            assert(cell_check_ok(game.board@, *which, cells@[j], player));
        }
    }
    true
}

impl LongestRun {
    /// Whether `score_value` can be called on `game`: its arithmetic cannot overflow there.
    pub fn score_fits(&self, game: &Game) -> (ok: bool)
        ensures
            ok == forall|h: Hex| #[trigger] cells_of(game.board@, game.turn).contains(h) ==> lines_ok(game.board@, h, game.turn),
    {
        all_cells_fit(game, &CellCheck::Lines, game.turn)
    }
}

impl OpenThreats {
    /// Whether `score_value` can be called on `game`: its arithmetic cannot overflow there.
    pub fn score_fits(&self, game: &Game) -> (ok: bool)
        ensures
            ok == (fits_i32(game.cfg.win_distance - self.0) && forall|h: Hex| #[trigger] cells_of(game.board@, game.turn).contains(h)
                ==> run_starts_ok(game.board@, h, game.turn)),
    {
        fits32(game.cfg.win_distance as i128 - self.0 as i128) && all_cells_fit(game, &CellCheck::RunStarts, game.turn)
    }
}

impl GapThreats {
    /// Whether `score_value` can be called on `game`: its arithmetic cannot overflow there.
    pub fn score_fits(&self, game: &Game) -> (ok: bool)
        ensures
            ok == (game.cfg.win_distance > i32::MIN && forall|h: Hex| #[trigger] cells_of(game.board@, game.turn).contains(h)
                ==> gaps_ok(game.board@, h, game.turn)),
    {
        game.cfg.win_distance > i32::MIN && all_cells_fit(game, &CellCheck::Gaps, game.turn)
    }
}

impl IsolatedPieces {
    /// Whether `score_value` can be called on `game`: its arithmetic cannot overflow there.
    pub fn score_fits(&self, game: &Game) -> (ok: bool)
        ensures
            ok == forall|h: Hex| #[trigger] cells_of(game.board@, game.turn).contains(h) ==> isolation_ok(game.board@, h, game.turn),
    {
        all_cells_fit(game, &CellCheck::Isolation, game.turn)
    }
}

impl LargestCluster {
    /// Whether `score_value` can be called on `game`: its arithmetic cannot overflow there.
    pub fn score_fits(&self, game: &Game) -> (ok: bool)
        ensures
            ok == all_neighbours_fit(cells_of(game.board@, game.turn)),
    {
        let ok = all_cells_fit(game, &CellCheck::Neighbours, game.turn);
        proof {
            reveal(all_neighbours_fit);
        }
        ok
    }
}

impl DoubleThreats {
    /// Whether `score_value` can be called on `game`: its arithmetic cannot overflow there.
    pub fn score_fits(&self, game: &Game) -> (ok: bool)
        ensures
            ok == (game.cfg.win_distance > i32::MIN && all_doubles_ok(game.board@, game.cfg.size_limit, game.turn)),
    {
        if game.cfg.win_distance == i32::MIN {
            return false;
        }
        let all = game.board.keys();
        let mut k: usize = 0;
        while k < all.len()
            invariant
                all@.to_set() == game.board@.dom(),
                0 <= k <= all.len(),
                forall|j: int| 0 <= j < k ==> doubles_ok(game.board@, game.cfg.size_limit, #[trigger] all@[j], game.turn),
            decreases all.len() - k,
        {
            let h = all[k];
            if !doubles_fit(game, h, game.turn) {
                proof {
                    assert(all@.to_set().contains(h));
                    reveal(all_doubles_ok);
                }
                return false;
            }
            k += 1;
        }
        proof {
            reveal(all_doubles_ok);
            assert forall|h: Hex| #[trigger] game.board@.contains_key(h) implies doubles_ok(
                game.board@,
                game.cfg.size_limit,
                h,
                game.turn,
            ) by {
                assert(all@.to_set().contains(h));
                let j = choose|j: int| 0 <= j < all@.len() && all@[j] == h;
                assert(doubles_ok(game.board@, game.cfg.size_limit, all@[j], game.turn));
            }
        }
        true
    }
}

} // verus!
