use hex::ai::features::{
    DoubleThreats, GapThreats, IsolatedPieces, LargestCluster, LongestRun, OpenThreats, OpponentThreat, ThreatScore,
};
use hex::ai::fits::threat_total_fits;
use hex::ai::movegen::{generate_candidates, generation_fits};
use hex::bots::first::FirstBot;
use hex::bots::random::RandomBot;
use hex::game::candidates::{ball_fits, Candidates};
use hex::game::config::Config;
use hex::game::diag::Diag;
use hex::game::game::{checked_run, checked_step, distance_fits, range_fits, Game};
use hex::game::hex::Hex;
use hex::game::phase::Phase;
use hex::game::player::Player;
use hex::game::GameResult;

fn cfg(win: i32, size: i32) -> Config {
    Config { win_distance: win, view_distance: 8, turn_limit: 300, size_limit: size }
}

fn sorted(mut v: Vec<Hex>) -> Vec<Hex> {
    v.sort_by_key(|h| (h.0, h.1));
    v
}

#[test]
fn far_cells_are_refused_not_excluded() {
    let c = cfg(6, 100);
    let mut g = Game::new(&c);
    let far = Hex(1 << 28, 0);
    assert!(g.can_play(far));
    assert_eq!(g.play_half_turn(far), Err(Diag::TooFarAway));
    assert!(g.can_apply(Hex(-(1 << 30), 1 << 29)));
    assert!(matches!(g.apply_half_turn(Hex(-(1 << 30), 1 << 29)), Err(Diag::TooFarAway)));
    assert_eq!(g.board.entries().len(), 1);
}

#[test]
fn far_stones_still_play_and_win() {
    // A game far from the origin, with a size limit wide enough to reach it.
    let c = Config { win_distance: 3, view_distance: 8, turn_limit: 300, size_limit: i32::MAX };
    let mut g = Game::new(&c);
    g.board.place(Hex(1_000_000_000, 0), Player::X);
    g.board.place(Hex(1_000_000_001, 0), Player::O);
    assert!(g.can_play(Hex(1_000_000_002, 0)));
    assert_eq!(g.play_half_turn(Hex(1_000_000_002, 0)), Ok(None));
    assert!(g.can_play(Hex(1_000_000_003, 0)));
    assert_eq!(g.play_half_turn(Hex(1_000_000_003, 0)), Ok(Some(Player::O)));
    assert!(g.can_check_game_over());
    assert_eq!(g.is_game_over(), Some(Player::O));
    assert!(g.can_find_winning_line(Player::O));
    assert_eq!(
        g.winning_line(Player::O),
        Some(vec![Hex(1_000_000_001, 0), Hex(1_000_000_002, 0), Hex(1_000_000_003, 0)])
    );
}

#[test]
fn overflowing_distances_are_detected() {
    assert!(distance_fits(Hex(0, 0), Hex(5, -3)));
    assert!(!distance_fits(Hex(i32::MAX, 0), Hex(i32::MIN, 0)));
    assert!(!distance_fits(Hex(i32::MIN, 0), Hex(0, 0)));
    let c = Config { win_distance: 6, view_distance: 8, turn_limit: 10, size_limit: i32::MAX };
    let mut g = Game::new(&c);
    g.board.place(Hex(i32::MAX, 0), Player::O);
    assert!(!range_fits(&g.board, Hex(i32::MIN + 1, 0), 8));
    assert!(!g.can_play(Hex(i32::MIN + 1, 0)));
    assert!(!g.can_apply(Hex(i32::MIN + 1, 0)));
    // An occupied cell is refused before any distance is measured.
    assert!(g.can_play(Hex(i32::MAX, 0)));
    assert_eq!(g.play_half_turn(Hex(i32::MAX, 0)), Err(Diag::CellOccupied));
}

#[test]
fn walks_that_leave_i32_are_detected() {
    let c = cfg(6, 100);
    let mut g = Game::new(&c);
    assert_eq!(checked_step(Hex(1, 2), Hex(3, -4)), Some(Hex(4, -2)));
    assert_eq!(checked_step(Hex(i32::MAX, 0), Hex(1, 0)), None);
    g.board.place(Hex(1, 0), Player::X);
    g.board.place(Hex(2, 0), Player::X);
    assert_eq!(checked_run(&g.board, None, Hex(0, 0), Hex(1, 0), Player::X), Some(2));
    assert_eq!(checked_run(&g.board, Some((Hex(3, 0), Player::X)), Hex(0, 0), Hex(1, 0), Player::X), Some(3));
    g.board.place(Hex(i32::MAX, 5), Player::O);
    // The walk from the stone at the edge must step off `i32` to see where the run ends.
    assert_eq!(checked_run(&g.board, None, Hex(i32::MAX - 1, 5), Hex(1, 0), Player::O), None);
    assert_eq!(checked_run(&g.board, None, Hex(i32::MAX - 1, 5), Hex(-1, 0), Player::O), Some(0));
    assert!(!g.can_check_game_over());
    assert!(!g.can_find_winning_line(Player::O));
    assert!(g.can_find_winning_line(Player::X));
}

#[test]
fn second_half_checks_need_the_first_stone() {
    let c = cfg(6, 100);
    let mut g = Game::new(&c);
    g.phase = Phase::Second;
    assert!(!g.can_play(Hex(1, 0)));
    g.pending = Some(Hex(0, 0));
    g.turn = Player::X;
    assert!(g.can_play(Hex(1, 0)));
}

#[test]
fn feature_checks_pass_on_ordinary_boards() {
    let c = cfg(6, 100);
    let mut g = Game::new(&c);
    g.play_half_turn(Hex(1, 0)).unwrap();
    g.play_half_turn(Hex(0, 1)).unwrap();
    assert!(LongestRun.score_fits(&g));
    assert!(ThreatScore.score_fits(&g));
    assert!(OpponentThreat.score_fits(&g));
    assert!(threat_total_fits(&g, Player::X));
    assert!(OpenThreats(2).score_fits(&g));
    assert!(GapThreats.score_fits(&g));
    assert!(IsolatedPieces.score_fits(&g));
    assert!(DoubleThreats.score_fits(&g));
    assert!(LargestCluster.score_fits(&g));
}

#[test]
fn feature_checks_fail_at_the_edge_of_i32() {
    let c = cfg(6, 100);
    let mut g = Game::new(&c);
    g.board.place(Hex(i32::MAX, 0), Player::X);
    assert_eq!(g.turn, Player::O);
    assert!(!OpponentThreat.score_fits(&g));
    assert!(!threat_total_fits(&g, Player::X));
    assert!(threat_total_fits(&g, Player::O));
    g.turn = Player::X;
    assert!(!LongestRun.score_fits(&g));
    assert!(!LargestCluster.score_fits(&g));
    assert!(!GapThreats.score_fits(&g));
    assert!(!IsolatedPieces.score_fits(&g));
    assert!(!DoubleThreats.score_fits(&g));
    assert!(!OpenThreats(i32::MIN).score_fits(&g));
}

#[test]
fn candidate_checks() {
    let c = cfg(6, 100);
    let mut g = Game::new(&c);
    assert!(Candidates::new(8).can_sync(&g));
    assert!(!Candidates::new(i32::MIN).can_sync(&g));
    assert!(!Candidates::new(0x4000_0000).can_sync(&g));
    assert!(Candidates::new(-5).can_sync(&g));
    assert!(generation_fits(&g, 2));
    assert!(!generation_fits(&g, 0x4000_0000));
    assert!(FirstBot::new().can_choose(&g));
    assert!(RandomBot.can_choose(&g));
    assert!(ball_fits(&g.board, Hex(0, 0), 3));
    g.board.place(Hex(i32::MAX, 0), Player::O);
    assert!(!ball_fits(&g.board, Hex(i32::MAX, 0), 1));
    assert!(!Candidates::new(1).can_sync(&g));
    assert!(!generation_fits(&g, 1));
    assert!(!FirstBot::new().can_choose(&g));
}

#[test]
fn repeated_syncs_track_the_growing_board() {
    let c = cfg(6, 100);
    let mut g = Game::new(&c);
    let mut cands = Candidates::new(2);
    cands.sync(&g);
    assert_eq!(sorted(cands.as_vec()), sorted(generate_candidates(&g, 2)));
    g.play_half_turn(Hex(1, 0)).unwrap();
    g.play_half_turn(Hex(-1, 2)).unwrap();
    cands.sync(&g);
    assert_eq!(sorted(cands.as_vec()), sorted(generate_candidates(&g, 2)));
    g.play_half_turn(Hex(3, -1)).unwrap();
    cands.sync(&g);
    cands.sync(&g);
    assert_eq!(sorted(cands.as_vec()), sorted(generate_candidates(&g, 2)));
}

#[test]
fn opponent_threat_is_the_threat_of_the_other_player() {
    let c = cfg(6, 100);
    let mut g = Game::new(&c);
    g.play_half_turn(Hex(1, 0)).unwrap();
    g.play_half_turn(Hex(2, 0)).unwrap();
    let opp = OpponentThreat.score_value(&g);
    g.turn = g.turn.opponent();
    assert_eq!(ThreatScore.score_value(&g), opp);
}

#[test]
fn result_letters() {
    assert_eq!(GameResult::Winner(Player::X).letter(), "X");
    assert_eq!(GameResult::Winner(Player::O).letter(), "O");
    assert_eq!(GameResult::Draw.letter(), "D");
    assert_eq!(GameResult::Ongoing.letter(), "D");
}

#[test]
fn pending_stone_is_refused_as_occupied() {
    let c = cfg(6, 100);
    let mut g = Game::new(&c);
    g.play_half_turn(Hex(1, 0)).unwrap();
    assert_eq!(g.pending, Some(Hex(1, 0)));
    assert_eq!(g.play_half_turn(Hex(1, 0)), Err(Diag::CellOccupied));
}

#[test]
fn result_colors() {
    assert_eq!(GameResult::Winner(Player::X).color(), "\x1b[31m");
    assert_eq!(GameResult::Winner(Player::O).color(), "\x1b[34m");
    assert_eq!(GameResult::Draw.color(), "\x1b[37m");
    assert_eq!(GameResult::Ongoing.color(), "\x1b[37m");
}
