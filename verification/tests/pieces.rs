use hex::ai::features::{
    CentreProximity, DoubleThreats, GapThreats, IsolatedPieces, LargestCluster, LongestRun, OpenThreats,
    OpponentThreat, ThreatScore,
};
use hex::ai::movegen::generate_candidates;
use hex::bots::first::FirstBot;
use hex::bots::random::RandomBot;
use hex::coords;
use hex::diag::Diag as TurnDiag;
use hex::game::candidates::Candidates;
use hex::game::config::Config;
use hex::game::game::Game;
use hex::game::hex::Hex;
use hex::game::player::Player;
use hex::game::{GameResult, Turn};

fn cfg(win: i32, size: i32) -> Config {
    Config { win_distance: win, view_distance: 8, turn_limit: 300, size_limit: size }
}

fn sorted(mut v: Vec<Hex>) -> Vec<Hex> {
    v.sort_by_key(|h| (h.0, h.1));
    v
}

fn ball(center: Hex, r: i32) -> Vec<Hex> {
    let mut v = Vec::new();
    for q in -r..=r {
        for s in -r..=r {
            let h = Hex(center.0 + q, center.1 + s);
            if center.distance(h) <= r {
                v.push(h);
            }
        }
    }
    v
}

#[test]
fn candidates_sync_takes_free_cells_around_stones() {
    let c = cfg(6, 100);
    let g = Game::new(&c);
    let mut cands = Candidates::new(1);
    assert!(cands.as_vec().is_empty());
    cands.sync(&g);
    let got = sorted(cands.as_vec());
    let want = sorted(Hex::directions().to_vec());
    assert_eq!(got, want);
}

#[test]
fn candidates_sync_drops_newly_occupied_cells() {
    let c = cfg(6, 100);
    let mut g = Game::new(&c);
    let mut cands = Candidates::new(1);
    cands.sync(&g);
    g.play_half_turn(Hex(1, 0)).unwrap();
    cands.sync(&g);
    let got = sorted(cands.as_vec());
    let mut want: Vec<Hex> = ball(Hex(0, 0), 1).into_iter().chain(ball(Hex(1, 0), 1)).collect();
    want.retain(|h| *h != Hex(0, 0) && *h != Hex(1, 0));
    want.sort_by_key(|h| (h.0, h.1));
    want.dedup();
    assert_eq!(got, want);
    // Syncing again changes nothing.
    cands.sync(&g);
    assert_eq!(sorted(cands.as_vec()), want);
}

#[test]
fn candidates_respect_the_size_limit() {
    let c = cfg(6, 1);
    let g = Game::new(&c);
    let mut cands = Candidates::new(3);
    cands.sync(&g);
    assert_eq!(sorted(cands.as_vec()), sorted(Hex::directions().to_vec()));
}

#[test]
fn generate_candidates_matches_incremental_candidates() {
    let c = cfg(6, 100);
    let mut g = Game::new(&c);
    g.play_half_turn(Hex(2, -1)).unwrap();
    g.play_half_turn(Hex(-1, 2)).unwrap();
    let fresh = sorted(generate_candidates(&g, 2));
    let mut cands = Candidates::new(2);
    cands.sync(&g);
    assert_eq!(fresh, sorted(cands.as_vec()));
    assert_eq!(fresh.len(), {
        let mut all: Vec<Hex> = ball(Hex(0, 0), 2)
            .into_iter()
            .chain(ball(Hex(2, -1), 2))
            .chain(ball(Hex(-1, 2), 2))
            .filter(|h| *h != Hex(0, 0) && *h != Hex(2, -1) && *h != Hex(-1, 2))
            .collect();
        all.sort_by_key(|h| (h.0, h.1));
        all.dedup();
        all.len()
    });
}

#[test]
fn first_bot_plays_two_distinct_candidates() {
    let c = cfg(6, 100);
    let g = Game::new(&c);
    let mut bot = FirstBot::new();
    assert_eq!(bot.name(), "first");
    let m = bot.choose_move(&g).unwrap();
    assert_ne!(m.0, m.1);
    for h in [m.0, m.1] {
        assert!(h != Hex(0, 0));
        assert!(Hex::origin().distance(h) <= 2);
    }
}

#[test]
fn first_bot_resigns_without_candidates() {
    let c = cfg(6, 0);
    let g = Game::new(&c);
    let mut bot = FirstBot::new();
    assert!(bot.choose_move(&g).is_none());
}

#[test]
fn random_bot_plays_two_distinct_free_cells_nearby() {
    let c = cfg(6, 100);
    let g = Game::new(&c);
    let bot = RandomBot;
    assert_eq!(bot.name(), "random");
    for _ in 0..20 {
        let m = bot.choose_move(&g).unwrap();
        assert_ne!(m.0, m.1);
        assert!(m.0 != Hex(0, 0) && m.1 != Hex(0, 0));
        assert!(Hex::origin().distance(m.0) <= 2 && Hex::origin().distance(m.1) <= 2);
    }
    let tiny = cfg(6, 0);
    let g0 = Game::new(&tiny);
    assert!(bot.choose_move(&g0).is_none());
}

#[test]
fn run_measurements() {
    let c = cfg(6, 100);
    let mut g = Game::new(&c);
    // O to move; put O stones on a horizontal line with an open left end.
    g.board.place(Hex(1, 0), Player::O);
    g.board.place(Hex(2, 0), Player::O);
    g.board.place(Hex(3, 0), Player::O);
    g.board.place(Hex(4, 0), Player::X);
    assert_eq!(g.run_len(Hex(1, 0), Hex(1, 0), Player::O), 2);
    assert_eq!(g.run_pair(Hex(2, 0), Hex(1, 0), Player::O), (1, 1));
    assert_eq!(g.line_len(Hex(2, 0), Hex(1, 0), Player::O), 3);
    // Left end is X's origin stone, right end is X's stone at (4,0).
    assert_eq!(g.open_ends(Hex(2, 0), Hex(1, 0), Player::O), 0);
    assert_eq!(g.open_ends(Hex(2, 0), Hex(0, 1), Player::O), 2);
    assert_eq!(sorted(g.my_cells()), vec![Hex(1, 0), Hex(2, 0), Hex(3, 0)]);
    assert_eq!(sorted(g.opp_cells()), vec![Hex(0, 0), Hex(4, 0)]);
}

#[test]
fn longest_run_and_threat_scores() {
    let c = cfg(6, 100);
    let mut g = Game::new(&c);
    assert_eq!(LongestRun.name(), "longest_run");
    assert_eq!(LongestRun.score_value(&g), 0);
    g.board.place(Hex(1, 1), Player::O);
    g.board.place(Hex(2, 1), Player::O);
    g.board.place(Hex(3, 1), Player::O);
    assert_eq!(LongestRun.score_value(&g), 3);
    // The run (1,1)-(3,1) has two open ends: 3*3*(1+2) = 27; every other
    // start along the other axes is a single stone with two open ends: 1*1*3
    // each, six of them.
    assert_eq!(ThreatScore.score_value(&g), 27 + 6 * 3);
    assert_eq!(ThreatScore.name(), "threat_score");
    // X has a single stone at the origin, open on all sides: 3 axes * 3.
    assert_eq!(OpponentThreat.score_value(&g), 9);
    assert_eq!(OpponentThreat.name(), "opponent_threat");
}

#[test]
fn open_gap_and_isolated_counts() {
    let c = cfg(6, 100);
    let mut g = Game::new(&c);
    g.board.place(Hex(1, 1), Player::O);
    g.board.place(Hex(2, 1), Player::O);
    g.board.place(Hex(3, 1), Player::O);
    // Runs of length >= 6 - 3 = 3 with an open end: just the horizontal one.
    assert_eq!(OpenThreats(3).score_value(&g), 1);
    assert_eq!(OpenThreats(5).score_value(&g), 7);
    assert_eq!(OpenThreats(3).name(), "open_threats");
    assert_eq!(IsolatedPieces.score_value(&g), 0);
    g.board.place(Hex(10, 10), Player::O);
    assert_eq!(IsolatedPieces.score_value(&g), 1);
    assert_eq!(IsolatedPieces.name(), "isolated_pieces");
    // Gap: (5,1) with (4,1) free makes 1+3 stones across the gap: 1+2+1+1+0 = 5 >= 5.
    g.board.place(Hex(5, 1), Player::O);
    assert_eq!(GapThreats.score_value(&g), 1);
    assert_eq!(GapThreats.name(), "gap_threats");
}

#[test]
fn double_threat_counts_cells_threatening_two_axes() {
    let c = cfg(4, 100);
    let mut g = Game::new(&c);
    // O to move. O stones (1,0),(2,0) and (0,1),(0,2): placing on (0,0) is
    // impossible (occupied by X), so use (-1,0)-line: O at (-2,0),(-3,0) and
    // (-1,1),(-1,2) threaten at (-1,0) along two axes.
    g.board.place(Hex(-2, 0), Player::O);
    g.board.place(Hex(-3, 0), Player::O);
    g.board.place(Hex(-1, 1), Player::O);
    g.board.place(Hex(-1, 2), Player::O);
    assert_eq!(DoubleThreats.name(), "double_threats");
    // (-1,0) is reached forward from (-2,0) [dist 1], (-3,0) [dist 2],
    // and not from the vertical stones (they lie on the other side).
    assert_eq!(DoubleThreats.score_value(&g), 2);
    assert_eq!(CentreProximity.name(), "centre_proximity");
}

#[test]
fn coords_hex_arithmetic_and_distance() {
    let a = coords::Hex::new(2, -1);
    let b = coords::Hex::new(-1, 3);
    assert_eq!(a + b, coords::Hex::new(1, 2));
    assert_eq!(a - b, coords::Hex::new(3, -4));
    assert_eq!(a * 3, coords::Hex::new(6, -3));
    assert_eq!(a.distance(&b), 4);
    assert_eq!(coords::Hex::zero().distance(&coords::Hex::new(3, -1)), 3);
    assert_eq!(coords::Hex::directions()[1], coords::Hex::new(1, -1));
    assert_eq!(coords::Hex::axes()[2], (coords::Hex::new(1, -1), coords::Hex::new(-1, 1)));
    for (f, b) in coords::Hex::axes() {
        assert_eq!(f + b, coords::Hex::zero());
    }
    // The two distance formulas agree.
    assert_eq!(a.distance(&b), Hex(2, -1).distance(Hex(-1, 3)));
}

#[test]
fn turn_cells_and_messages() {
    let a = coords::Hex::new(0, 1);
    let b = coords::Hex::new(1, 0);
    assert_eq!(Turn::One(a).len(), 1);
    assert_eq!(Turn::Two(a, b).len(), 2);
    assert_eq!(Turn::One(a).iter(), vec![a]);
    assert_eq!(Turn::Two(a, b).iter(), vec![a, b]);
    assert_eq!(TurnDiag::GameOver.message(), "Game over");
    assert_eq!(TurnDiag::InvalidTurn.message(), "Invalid turn");
    assert_eq!(TurnDiag::CellOutOfBounds.message(), "Cell out of bounds");
    assert_eq!(TurnDiag::CellOccupied.message(), "Cell occupied");
    assert!(matches!(GameResult::Winner(Player::X), GameResult::Winner(Player::X)));
}

#[test]
fn largest_cluster_counts_connected_stones() {
    let c = cfg(6, 100);
    let mut g = Game::new(&c);
    assert_eq!(LargestCluster.name(), "largest_cluster");
    // O to move, no O stones yet.
    assert_eq!(LargestCluster.score_value(&g), 0);
    g.board.place(Hex(1, 0), Player::O);
    g.board.place(Hex(2, -1), Player::O);
    g.board.place(Hex(2, 0), Player::O);
    g.board.place(Hex(5, 5), Player::O);
    g.board.place(Hex(6, 5), Player::O);
    assert_eq!(LargestCluster.score_value(&g), 3);
    // Joining the two groups through (3,1)...(4,4) does not happen with a gap.
    g.board.place(Hex(3, 0), Player::O);
    assert_eq!(LargestCluster.score_value(&g), 4);
}

#[test]
fn text_forms() {
    assert_eq!(coords::Hex::new(2, -1).to_string(), "(2, -1, -1)");
    assert_eq!(coords::Hex::new(0, 0).to_string(), "(0, 0, 0)");
    assert_eq!(coords::Hex::new(-120, 7).to_string(), "(-120, 7, 113)");
    assert_eq!(coords::Hex::new(i32::MAX, -5).to_string(), format!("({}, -5, {})", i32::MAX, -(i32::MAX as i64) + 5));
    assert_eq!(TurnDiag::CellOccupied.to_string(), "Cell occupied");
    assert_eq!(TurnDiag::GameOver.to_string(), "Game over");
}
