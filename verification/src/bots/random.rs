//! A bot that plays two random nearby free cells.

use vstd::prelude::*;
use rand::seq::SliceRandom;
use crate::ai::movegen::{generate_candidates, generation_fits, generation_ok};
use crate::game::candidates::free_near;
use crate::game::game::Game;
use crate::game::hex::Hex;
use crate::game::mv::Move;

verus! {

/// `SliceRandom::shuffle` driven by the thread-local generator `rand::rng()`:
/// puts the cells in an order that rests on chance. Only that the result is a
/// rearrangement of the input is stated. (`rand::rng()` panics if the
/// operating system cannot seed the generator.)
#[verifier::external_body]
fn shuffle_cells(v: &mut Vec<Hex>)
    ensures
        final(v)@.to_multiset() == old(v)@.to_multiset(),
{
    let mut rng = rand::rng();
    v.shuffle(&mut rng);
}

/// Plays two distinct free cells chosen at random among those within two of a stone.
pub struct RandomBot;

impl RandomBot {
    pub fn name(&self) -> (n: &'static str)
        ensures
            n@ == "random"@,
    {
        "random"
    }

    /// Whether `choose_move(game)` can be called: the cells within two of every
    /// stone are visited without overflow.
    pub fn can_choose(&self, game: &Game) -> (ok: bool)
        ensures
            ok == forall|h: Hex| #[trigger] game.board@.contains_key(h) ==> generation_ok(h, 2),
    {
        generation_fits(game, 2)
    }

    /// Two distinct random free cells within two of a stone (and within the
    /// size limit), or `None` (resigning) when there are fewer than two.
    pub fn choose_move(&self, game: &Game) -> (m: Option<Move>)
        requires
            forall|h: Hex| #[trigger] game.board@.contains_key(h) ==> generation_ok(h, 2),
        ensures
            m is None <==> free_near(game.board@, game.cfg.size_limit, 2, game.board@.dom()).len() < 2,
            m matches Some(mv) ==> mv.0 != mv.1
                && free_near(game.board@, game.cfg.size_limit, 2, game.board@.dom()).contains(mv.0)
                && free_near(game.board@, game.cfg.size_limit, 2, game.board@.dom()).contains(mv.1),
    {
        let mut candidates = generate_candidates(game, 2);
        let ghost before = candidates@;
        shuffle_cells(&mut candidates);
        proof {
            broadcast use vstd::seq_lib::group_to_multiset_ensures;
            before.lemma_multiset_has_no_duplicates();
            assert forall|x: Hex| candidates@.to_multiset().contains(x) implies candidates@.to_multiset().count(x) == 1 by {
            }
            candidates@.lemma_multiset_has_no_duplicates_conv();
            assert forall|x: Hex| #[trigger] candidates@.to_set().contains(x) <==> before.to_set().contains(x) by {
                assert(candidates@.contains(x) <==> candidates@.to_multiset().count(x) > 0);
                assert(before.contains(x) <==> before.to_multiset().count(x) > 0);
            }
            assert(candidates@.to_set() =~= before.to_set());
            candidates@.unique_seq_to_set();
            before.unique_seq_to_set();
        }
        if candidates.len() < 2 {
            return None;
        }
        proof {
            assert(candidates@.to_set().contains(candidates@[0]));
            assert(candidates@.to_set().contains(candidates@[1]));
        }
        Some(Move(candidates[0], candidates[1]))
    }
}

} // verus!
