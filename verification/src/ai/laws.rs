//! What the evaluation features measure, stated over the runs, lines and open
//! ends of the board along the three grid directions `(1, 0)`, `(0, 1)` and
//! `(1, -1)`.

use vstd::prelude::*;
use crate::ai::features::{
    back_end, best_line_at, clear_along, continues_run, double_cell, double_spot, front_end, gap_cell, gap_term,
    is_open, isolated, open_ends_spec, open_threat_cell, open_threat_term, step_cell, threat_cell, threat_term,
};
use crate::game::game::{line_len_spec, run_spec};
use crate::game::hex::{Hex, axes_spec, hex_dist};
use crate::game::player::Player;

verus! {

/// A stone of `player` on `c` makes a line at least `win - 1` long along `d`.
pub open spec fn near_win_along(cells: Map<Hex, Player>, win: i32, c: Hex, d: Hex, player: Player) -> bool {
    line_len_spec(cells, c, d, player) >= win - 1
}

/// A run of `player`'s stones starting at `h` along `d` with exactly one open
/// end can always still reach the winning length through that end, so it
/// scores its squared length twice, whatever the winning length.
pub proof fn lemma_threat_one_open_end(cells: Map<Hex, Player>, lim: i32, win: i32, h: Hex, d: Hex, player: Player)
    requires
        !continues_run(cells, h, d, player),
        is_open(cells, lim, front_end(cells, h, d, player)) != is_open(cells, lim, back_end(cells, h, d, player)),
    ensures
        threat_term(cells, lim, win, h, d, player) == 2 * (1 + run_spec(cells, h, d, player)) * (1 + run_spec(
            cells,
            h,
            d,
            player,
        )),
{
    let len = 1 + run_spec(cells, h, d, player) as int;
    assert(open_ends_spec(cells, lim, h, d, player) == 1);
    assert(len * len * 2 == 2 * len * len) by (nonlinear_arith);
}

/// A run of `player`'s stones starting at `h` along `d` with both ends open
/// and no longer than the winning length scores three times its squared
/// length.
pub proof fn lemma_threat_two_open_ends(cells: Map<Hex, Player>, lim: i32, win: i32, h: Hex, d: Hex, player: Player)
    requires
        !continues_run(cells, h, d, player),
        is_open(cells, lim, front_end(cells, h, d, player)),
        is_open(cells, lim, back_end(cells, h, d, player)),
        1 + run_spec(cells, h, d, player) <= win,
    ensures
        threat_term(cells, lim, win, h, d, player) == 3 * (1 + run_spec(cells, h, d, player)) * (1 + run_spec(
            cells,
            h,
            d,
            player,
        )),
{
    let len = 1 + run_spec(cells, h, d, player) as int;
    assert(open_ends_spec(cells, lim, h, d, player) == 2);
    assert(len + 2 * (win - len) >= win);
    assert(len * len * 3 == 3 * len * len) by (nonlinear_arith);
}

/// A run with no open end scores its squared length exactly when it already
/// reaches the winning length, and nothing otherwise; a cell that continues a
/// run from behind scores nothing along that direction.
pub proof fn lemma_threat_closed_or_inner(cells: Map<Hex, Player>, lim: i32, win: i32, h: Hex, d: Hex, player: Player)
    ensures
        continues_run(cells, h, d, player) ==> threat_term(cells, lim, win, h, d, player) == 0,
        !continues_run(cells, h, d, player) && !is_open(cells, lim, front_end(cells, h, d, player)) && !is_open(
            cells,
            lim,
            back_end(cells, h, d, player),
        ) ==> threat_term(cells, lim, win, h, d, player) == (if 1 + run_spec(cells, h, d, player) >= win {
            (1 + run_spec(cells, h, d, player)) * (1 + run_spec(cells, h, d, player))
        } else {
            0
        }),
{
    if !continues_run(cells, h, d, player) && !is_open(cells, lim, front_end(cells, h, d, player)) && !is_open(
        cells,
        lim,
        back_end(cells, h, d, player),
    ) {
        let len = 1 + run_spec(cells, h, d, player) as int;
        assert(open_ends_spec(cells, lim, h, d, player) == 0);
        assert(0 * (win - len) == 0);
        assert(len * len * (1 + 0) == len * len) by (nonlinear_arith);
    }
}

/// The threat score at a cell adds up the runs starting there along each of
/// the three directions.
pub proof fn lemma_threat_cell_all_axes(cells: Map<Hex, Player>, lim: i32, win: i32, h: Hex, player: Player)
    ensures
        threat_cell(cells, lim, win, h, player) == threat_term(cells, lim, win, h, Hex(1, 0), player) + threat_term(
            cells,
            lim,
            win,
            h,
            Hex(0, 1),
            player,
        ) + threat_term(cells, lim, win, h, Hex(1, -1i32), player),
{
    assert(axes_spec()[0] == Hex(1, 0) && axes_spec()[1] == Hex(0, 1) && axes_spec()[2] == Hex(1, -1i32));
}

/// A free cell within the size limit is a double spot exactly when a stone of
/// `player` there would make lines at least `win - 1` long along two
/// different directions of the three.
pub proof fn lemma_double_spot_two_directions(cells: Map<Hex, Player>, lim: i32, win: i32, c: Hex, player: Player)
    ensures
        double_spot(cells, lim, win, c, player) <==> !cells.contains_key(c) && hex_dist(Hex(0, 0), c) <= lim && (
        (near_win_along(cells, win, c, Hex(1, 0), player) && near_win_along(cells, win, c, Hex(0, 1), player)) || (
        near_win_along(cells, win, c, Hex(1, 0), player) && near_win_along(cells, win, c, Hex(1, -1i32), player)) || (
        near_win_along(cells, win, c, Hex(0, 1), player) && near_win_along(cells, win, c, Hex(1, -1i32), player))),
{
    assert(axes_spec()[0] == Hex(1, 0) && axes_spec()[1] == Hex(0, 1) && axes_spec()[2] == Hex(1, -1i32));
}

/// The double spots counted at a stone are the cells one and two steps
/// forward along each of the three directions.
pub proof fn lemma_double_cell_all_axes(cells: Map<Hex, Player>, lim: i32, win: i32, h: Hex, player: Player)
    ensures
        double_cell(cells, lim, win, h, player) == (if double_spot(cells, lim, win, step_cell(h, Hex(1, 0), 1), player) { 1int } else { 0int })
            + (if double_spot(cells, lim, win, step_cell(h, Hex(1, 0), 2), player) { 1int } else { 0int })
            + (if double_spot(cells, lim, win, step_cell(h, Hex(0, 1), 1), player) { 1int } else { 0int })
            + (if double_spot(cells, lim, win, step_cell(h, Hex(0, 1), 2), player) { 1int } else { 0int })
            + (if double_spot(cells, lim, win, step_cell(h, Hex(1, -1i32), 1), player) { 1int } else { 0int })
            + (if double_spot(cells, lim, win, step_cell(h, Hex(1, -1i32), 2), player) { 1int } else { 0int }),
{
    assert(axes_spec()[0] == Hex(1, 0) && axes_spec()[1] == Hex(0, 1) && axes_spec()[2] == Hex(1, -1i32));
}

/// A run of `player`'s stones starting at `h` along `d` is an open threat
/// exactly when it is at least `min_len` long and at least one of its two
/// ends is open.
pub proof fn lemma_open_threat_one_end_suffices(
    cells: Map<Hex, Player>,
    lim: i32,
    min_len: int,
    h: Hex,
    d: Hex,
    player: Player,
)
    ensures
        open_threat_term(cells, lim, min_len, h, d, player) == (if !continues_run(cells, h, d, player) && 1 + run_spec(
            cells,
            h,
            d,
            player,
        ) >= min_len && (is_open(cells, lim, front_end(cells, h, d, player)) || is_open(
            cells,
            lim,
            back_end(cells, h, d, player),
        )) {
            1int
        } else {
            0int
        }),
{
}

/// The open threats at a cell add up the runs starting there along each of
/// the three directions.
pub proof fn lemma_open_threat_cell_all_axes(cells: Map<Hex, Player>, lim: i32, min_len: int, h: Hex, player: Player)
    ensures
        open_threat_cell(cells, lim, min_len, h, player) == open_threat_term(cells, lim, min_len, h, Hex(1, 0), player)
            + open_threat_term(cells, lim, min_len, h, Hex(0, 1), player) + open_threat_term(
            cells,
            lim,
            min_len,
            h,
            Hex(1, -1i32),
            player,
        ),
{
    assert(axes_spec()[0] == Hex(1, 0) && axes_spec()[1] == Hex(0, 1) && axes_spec()[2] == Hex(1, -1i32));
}

/// The gap threats at a cell add up the gaps along each of the three
/// directions, each counting at most once.
pub proof fn lemma_gap_cell_all_axes(cells: Map<Hex, Player>, win: i32, h: Hex, player: Player)
    ensures
        gap_cell(cells, win, h, player) == gap_term(cells, win, h, Hex(1, 0), player) + gap_term(
            cells,
            win,
            h,
            Hex(0, 1),
            player,
        ) + gap_term(cells, win, h, Hex(1, -1i32), player),
        0 <= gap_term(cells, win, h, Hex(1, 0), player) <= 1,
        0 <= gap_term(cells, win, h, Hex(0, 1), player) <= 1,
        0 <= gap_term(cells, win, h, Hex(1, -1i32), player) <= 1,
{
    assert(axes_spec()[0] == Hex(1, 0) && axes_spec()[1] == Hex(0, 1) && axes_spec()[2] == Hex(1, -1i32));
}

/// A stone is isolated exactly when no stone of its owner lies within two
/// steps of it along any of the three directions, either way.
pub proof fn lemma_isolated_all_axes(cells: Map<Hex, Player>, h: Hex, player: Player)
    ensures
        isolated(cells, h, player) <==> clear_along(cells, h, Hex(1, 0), player) && clear_along(
            cells,
            h,
            Hex(0, 1),
            player,
        ) && clear_along(cells, h, Hex(1, -1i32), player),
{
    assert(axes_spec()[0] == Hex(1, 0) && axes_spec()[1] == Hex(0, 1) && axes_spec()[2] == Hex(1, -1i32));
}

/// The longest line at a cell is at least the line through it along each of
/// the three directions, and is one of them.
pub proof fn lemma_best_line_covers_all_axes(cells: Map<Hex, Player>, h: Hex, player: Player)
    ensures
        line_len_spec(cells, h, Hex(1, 0), player) <= best_line_at(cells, h, player),
        line_len_spec(cells, h, Hex(0, 1), player) <= best_line_at(cells, h, player),
        line_len_spec(cells, h, Hex(1, -1i32), player) <= best_line_at(cells, h, player),
        best_line_at(cells, h, player) == line_len_spec(cells, h, Hex(1, 0), player) || best_line_at(cells, h, player)
            == line_len_spec(cells, h, Hex(0, 1), player) || best_line_at(cells, h, player) == line_len_spec(
            cells,
            h,
            Hex(1, -1i32),
            player,
        ),
{
    assert(axes_spec()[0] == Hex(1, 0) && axes_spec()[1] == Hex(0, 1) && axes_spec()[2] == Hex(1, -1i32));
}

} // verus!
