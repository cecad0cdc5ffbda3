//! A bot that plays the first two candidate cells it is handed.

use vstd::prelude::*;
use crate::game::candidates::{Candidates, ball_ok};
use crate::game::game::Game;
use crate::game::hex::Hex;
use crate::game::mv::Move;

verus! {

/// Plays the first two of its candidate cells (radius two around the stones),
/// in the candidate set's own order.
pub struct FirstBot {
    candidates: Candidates,
}

impl FirstBot {
    /// The cells the bot chooses among, as of its last move.
    pub closed spec fn candidate_cells(&self) -> Set<Hex> {
        self.candidates.cands()
    }

    /// The stones the bot has already looked around.
    pub closed spec fn seen_cells(&self) -> Set<Hex> {
        self.candidates.seen_cells()
    }

    /// The bot looks two cells around each stone.
    pub closed spec fn wf(&self) -> bool {
        self.candidates.radius_spec() == 2
    }

    pub fn new() -> (b: Self)
        ensures
            b.wf(),
            b.candidate_cells() == Set::<Hex>::empty(),
            b.seen_cells() == Set::<Hex>::empty(),
    {
        Self { candidates: Candidates::new(2) }
    }

    pub fn name(&self) -> (n: &'static str)
        ensures
            n@ == "first"@,
    {
        "first"
    }

    /// Whether `choose_move(game)` can be called: the cells within two of every
    /// stone not looked around before are visited without overflow.
    pub fn can_choose(&self, game: &Game) -> (ok: bool)
        requires
            self.wf(),
        ensures
            ok == forall|h: Hex| #[trigger] game.board@.contains_key(h) && !self.seen_cells().contains(h)
                ==> ball_ok(game.board@, h, 2),
    {
        self.candidates.can_sync(game)
    }

    /// Brings the candidates up to date with `game` and plays the first two of
    /// them; resigns (`None`) when fewer than two are left.
    pub fn choose_move(&mut self, game: &Game) -> (m: Option<Move>)
        requires
            old(self).wf(),
            forall|h: Hex| #[trigger] game.board@.contains_key(h) && !old(self).seen_cells().contains(h)
                ==> ball_ok(game.board@, h, 2),
        ensures
            final(self).wf(),
            final(self).seen_cells() == old(self).seen_cells() + game.board@.dom(),
            final(self).candidate_cells() == (old(self).candidate_cells() - (game.board@.dom()
                - old(self).seen_cells())) + crate::game::candidates::free_near(
                game.board@,
                game.cfg.size_limit,
                2,
                game.board@.dom() - old(self).seen_cells(),
            ),
            m is None <==> final(self).candidate_cells().len() < 2,
            m matches Some(mv) ==> mv.0 != mv.1 && final(self).candidate_cells().contains(mv.0)
                && final(self).candidate_cells().contains(mv.1),
    {
        self.candidates.sync(game);

        let vec = self.candidates.as_vec();
        proof {
            vec@.unique_seq_to_set();
        }
        if vec.len() < 2 {
            return None;
        }
        proof {
            assert(vec@.to_set().contains(vec@[0]));
            assert(vec@.to_set().contains(vec@[1]));
        }
        Some(Move(vec[0], vec[1]))
    }
}

} // verus!
