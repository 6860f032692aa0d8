//! A strategy that plays a uniformly random legal move.
use crate::bots::Bot;
use crate::bots::Move;
use crate::bots::get_available_moves;
use crate::bots::is_legal_move;
use crate::uc4::BoardType;
use crate::uc4::GameInstance;
use crate::uc4::game_wf;
use rand::seq::SliceRandom;
use vstd::prelude::*;

verus! {

#[verifier::external_type_specification]
#[verifier::external_body]
pub struct ExThreadRng(rand::rngs::ThreadRng);

/// Relies on rand::thread_rng: a handle to the thread-local generator.
#[verifier::external_body]
fn new_thread_rng() -> rand::rngs::ThreadRng {
    rand::thread_rng()
}

/// Relies on rand's SliceRandom::choose on a slice: it returns None if and
/// only if the slice is empty, and otherwise some element of the slice.
#[verifier::external_body]
fn choose_move(rng: &mut rand::rngs::ThreadRng, moves: &Vec<Move>) -> (r: Option<Move>)
    ensures
        r is Some <==> moves@.len() > 0,
        (r matches Some(mv) ==> moves@.contains(mv)),
{
    moves.choose(rng).cloned()
}

pub struct RandomBot {
    rng: rand::rngs::ThreadRng,
}

impl RandomBot {
    pub fn new() -> RandomBot {
        RandomBot { rng: new_thread_rng() }
    }

    /// Picks a legal move at random; gives up exactly when no legal move is
    /// left.
    pub fn select_move(&mut self, instance: &GameInstance) -> (r: Option<Move>)
        requires
            game_wf(instance@),
        ensures
            (r matches Some(mv) ==> is_legal_move(instance@, mv.board, mv.column as int)),
            r is None ==> (forall|bt: BoardType, c: int| !is_legal_move(instance@, bt, c)),
    {
        let moves = get_available_moves(instance);
        let picked = choose_move(&mut self.rng, &moves);
        proof {
            if picked is None {
                assert forall|bt: BoardType, c: int| !is_legal_move(instance@, bt, c) by {
                    if is_legal_move(instance@, bt, c) {
                        assert(moves@.contains((Move { board: bt, column: c as usize })));
                    }
                }
            }
        }
        picked
    }
}

impl Bot for RandomBot {
    fn id() -> &'static str {
        "Random"
    }

    fn play(&mut self, instance: &GameInstance) -> (r: Option<Move>) {
        self.select_move(instance)
    }
}

} // verus!
