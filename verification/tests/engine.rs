use hex::game::board::Board;
use hex::game::config::Config;
use hex::game::diag::Diag;
use hex::game::game::Game;
use hex::game::hex::Hex;
use hex::game::phase::Phase;
use hex::game::player::Player;

fn cfg(win: i32) -> Config {
    Config { win_distance: win, view_distance: 8, turn_limit: 300, size_limit: 100 }
}

#[test]
fn hex_distance_is_largest_cube_difference() {
    assert_eq!(Hex::new(0, 0).distance(Hex::new(0, 0)), 0);
    assert_eq!(Hex::new(0, 0).distance(Hex::new(3, -1)), 3);
    assert_eq!(Hex::new(2, 2).distance(Hex::origin()), 4);
    assert_eq!(Hex::new(-2, 5).distance(Hex::new(1, 1)), 4);
    assert_eq!(Hex::new(1, 1).distance(Hex::new(-2, 5)), 4);
}

#[test]
fn hex_axes_and_directions() {
    assert_eq!(Hex::axes(), [Hex(1, 0), Hex(0, 1), Hex(1, -1)]);
    let dirs = Hex::directions();
    assert_eq!(dirs.len(), 6);
    assert_eq!(dirs[0], Hex(1, 0));
    assert_eq!(dirs[4], Hex(-1, 1));
    for d in dirs {
        assert_eq!(Hex::origin().distance(d), 1);
    }
}

#[test]
fn hex_add_and_sub() {
    assert_eq!(Hex(3, -2) + Hex(1, 4), Hex(4, 2));
    assert_eq!(Hex(3, -2) - Hex(1, 4), Hex(2, -6));
    assert_eq!((Hex(7, 9) + Hex(-3, 2)) - Hex(-3, 2), Hex(7, 9));
}

#[test]
fn player_opponent_and_color() {
    assert_eq!(Player::X.opponent(), Player::O);
    assert_eq!(Player::O.opponent(), Player::X);
    assert_eq!(Player::X.opponent().opponent(), Player::X);
    assert_eq!(Player::X.color(), "\x1b[31m");
    assert_eq!(Player::O.color(), "\x1b[34m");
}

#[test]
fn board_place_get_and_entries() {
    let mut b = Board::new();
    assert!(b.is_empty(&Hex(0, 0)));
    assert_eq!(b.get(&Hex(0, 0)), None);
    b.place(Hex(0, 0), Player::X);
    b.place(Hex(1, 0), Player::O);
    b.place(Hex(1, 0), Player::X);
    assert!(!b.is_empty(&Hex(0, 0)));
    assert_eq!(b.get(&Hex(1, 0)), Some(&Player::X));
    let mut e = b.entries();
    e.sort_by_key(|(h, _)| (h.0, h.1));
    assert_eq!(e, vec![(Hex(0, 0), Player::X), (Hex(1, 0), Player::X)]);
}

#[test]
fn new_game_has_x_on_origin_and_o_to_move() {
    let c = cfg(6);
    let g = Game::new(&c);
    assert_eq!(g.board.get(&Hex(0, 0)), Some(&Player::X));
    assert_eq!(g.board.entries().len(), 1);
    assert_eq!(g.turn, Player::O);
    assert_eq!(g.phase, Phase::First);
    assert_eq!(g.pending, None);
}

#[test]
fn play_half_turn_alternates_players() {
    let c = cfg(6);
    let mut g = Game::new(&c);
    assert_eq!(g.play_half_turn(Hex(1, 0)), Ok(None));
    assert_eq!(g.phase, Phase::Second);
    assert_eq!(g.pending, Some(Hex(1, 0)));
    assert_eq!(g.turn, Player::O);
    assert_eq!(g.play_half_turn(Hex(2, 0)), Ok(None));
    assert_eq!(g.phase, Phase::First);
    assert_eq!(g.pending, None);
    assert_eq!(g.turn, Player::X);
    assert_eq!(g.board.get(&Hex(2, 0)), Some(&Player::O));
}

#[test]
fn play_half_turn_refusals_leave_game_unchanged() {
    let c = cfg(6);
    let mut g = Game::new(&c);
    let z = g.zhash;
    assert_eq!(g.play_half_turn(Hex(0, 0)), Err(Diag::CellOccupied));
    assert_eq!(g.play_half_turn(Hex(9, 0)), Err(Diag::TooFarAway));
    assert_eq!(g.zhash, z);
    assert_eq!(g.turn, Player::O);
    assert_eq!(g.board.entries().len(), 1);
    // A pending cell that is not on the board can only come from a hand-built state.
    g.pending = Some(Hex(1, 0));
    g.phase = Phase::Second;
    assert_eq!(g.play_half_turn(Hex(1, 0)), Err(Diag::CannotPlaceTwice));
}

#[test]
fn size_limit_refuses_far_cells() {
    let c = Config { win_distance: 6, view_distance: 8, turn_limit: 10, size_limit: 1 };
    let mut g = Game::new(&c);
    assert_eq!(g.play_half_turn(Hex(2, 0)), Err(Diag::TooFarAway));
    assert_eq!(g.play_half_turn(Hex(1, 0)), Ok(None));
}

#[test]
fn play_half_turn_reports_a_win_and_keeps_the_turn() {
    let c = cfg(2);
    let mut g = Game::new(&c);
    // O's two stones of its first turn form a line of two.
    assert_eq!(g.play_half_turn(Hex(0, 1)), Ok(None));
    assert_eq!(g.play_half_turn(Hex(5, 5)), Err(Diag::TooFarAway));
    assert_eq!(g.play_half_turn(Hex(0, 2)), Ok(Some(Player::O)));
    assert_eq!(g.turn, Player::O);
    assert_eq!(g.phase, Phase::Second);
    assert_eq!(g.is_game_over(), Some(Player::O));
}

#[test]
fn is_winning_move_counts_both_directions() {
    let c = cfg(4);
    let mut g = Game::new(&c);
    g.board.place(Hex(1, 0), Player::X);
    g.board.place(Hex(-1, 0), Player::X);
    assert!(!g.is_winning_move(Hex(0, 0), Player::X));
    g.board.place(Hex(-2, 0), Player::X);
    assert!(g.is_winning_move(Hex(0, 0), Player::X));
    assert!(g.is_winning_move(Hex(1, 0), Player::X));
    assert!(!g.is_winning_move(Hex(0, 0), Player::O));
    // Diagonal "/" axis.
    g.board.place(Hex(3, -1), Player::O);
    g.board.place(Hex(4, -2), Player::O);
    g.board.place(Hex(5, -3), Player::O);
    assert!(g.is_winning_move(Hex(2, 0), Player::O));
}

#[test]
fn is_within_range_needs_a_near_stone_and_the_size_limit() {
    let c = Config { win_distance: 6, view_distance: 2, turn_limit: 10, size_limit: 3 };
    let g = Game::new(&c);
    assert!(g.is_within_range(Hex(2, 0), 2));
    assert!(!g.is_within_range(Hex(3, 0), 2));
    assert!(g.is_within_range(Hex(3, 0), 3));
    assert!(!g.is_within_range(Hex(4, 0), 5));
}

#[test]
fn apply_then_undo_restores_the_game() {
    let c = cfg(6);
    let mut g = Game::new(&c);
    g.play_half_turn(Hex(1, 0)).unwrap();
    let before_cells = {
        let mut e = g.board.entries();
        e.sort_by_key(|(h, _)| (h.0, h.1));
        e
    };
    let (turn, phase, pending, zhash) = (g.turn, g.phase, g.pending, g.zhash);
    let undo = g.apply_half_turn(Hex(0, 1)).unwrap();
    assert_eq!(undo.hex, Hex(0, 1));
    assert_eq!(undo.prev_turn, Player::O);
    assert_eq!(g.turn, Player::X);
    assert_eq!(g.phase, Phase::First);
    assert_ne!(g.zhash, zhash);
    g.undo_half_turn(undo);
    let mut after_cells = g.board.entries();
    after_cells.sort_by_key(|(h, _)| (h.0, h.1));
    assert_eq!(after_cells, before_cells);
    assert_eq!((g.turn, g.phase, g.pending, g.zhash), (turn, phase, pending, zhash));
}

#[test]
fn apply_half_turn_refusal_changes_nothing() {
    let c = cfg(6);
    let mut g = Game::new(&c);
    assert!(matches!(g.apply_half_turn(Hex(0, 0)), Err(Diag::CellOccupied)));
    assert!(matches!(g.apply_half_turn(Hex(20, 0)), Err(Diag::TooFarAway)));
    assert_eq!(g.board.entries().len(), 1);
    assert_eq!(g.turn, Player::O);
}

#[test]
fn apply_half_turn_does_not_stop_at_a_win() {
    let c = cfg(2);
    let mut g = Game::new(&c);
    g.apply_half_turn(Hex(1, 1)).unwrap();
    g.apply_half_turn(Hex(1, 2)).unwrap();
    assert_eq!(g.turn, Player::X);
    assert_eq!(g.phase, Phase::First);
}

#[test]
fn zobrist_hash_separates_cells_and_players() {
    let a = hex::zobrist::hash(Hex(0, 0), Player::X);
    assert_eq!(a, hex::zobrist::hash(Hex(0, 0), Player::X));
    assert_ne!(a, hex::zobrist::hash(Hex(1, 0), Player::X));
    assert_ne!(a, hex::zobrist::hash(Hex(0, 0), Player::O));
    let c = cfg(6);
    let g = Game::new(&c);
    assert_eq!(g.zhash, a);
}

#[test]
fn winning_line_is_sorted_and_complete() {
    let c = cfg(4);
    let mut g = Game::new(&c);
    assert_eq!(g.winning_line(Player::X), None);
    g.board.place(Hex(0, 2), Player::X);
    g.board.place(Hex(0, 1), Player::X);
    g.board.place(Hex(0, -1), Player::X);
    g.board.place(Hex(0, 3), Player::O);
    assert_eq!(g.winning_line(Player::X), Some(vec![Hex(0, -1), Hex(0, 0), Hex(0, 1), Hex(0, 2)]));
    assert_eq!(g.winning_line(Player::O), None);
    assert_eq!(g.is_game_over(), Some(Player::X));
}

#[test]
fn winning_line_with_negative_length_is_none() {
    let c = cfg(-1);
    let g = Game::new(&c);
    assert!(g.is_winning_move(Hex(0, 0), Player::X));
    assert_eq!(g.winning_line(Player::X), None);
}

#[test]
fn is_game_over_none_without_lines() {
    let c = cfg(3);
    let mut g = Game::new(&c);
    g.board.place(Hex(2, 0), Player::X);
    assert_eq!(g.is_game_over(), None);
}
