use vstd::prelude::*;

use crate::heuristic::{Reachability, Value};
use crate::random::Random;
use crate::state::{finished, lemma_move_roundtrip, move_legal, GameState, Move};

verus! {

/// Monte-Carlo single-ply lookahead: sample many random moves, score each
/// resulting board, and keep the best-scoring one.
#[derive(Copy, Clone)]
pub struct LookAhead;

impl LookAhead {
    pub fn name(&self) -> (r: String)
        ensures
            r@ == "LookAhead"@,
    {
        "LookAhead".to_owned()
    }

    /// Sample a fixed number of random moves on a scratch copy, scoring each
    /// with the mobility heuristic, and return the best one seen.
    pub fn find_move(&mut self, state: &GameState) -> (r: Move)
        requires
            state.wf(),
            !finished(state.board@, state.turn),
        ensures
            r.wf(),
            move_legal(state.board@, state.turn, r),
            *final(self) == *old(self),
    {
        let mut work = state.clone();
        let mut sampler = Random;

        let mut best_value: Value = 0;
        let mut best_move = sampler.find_move(&work);
        let me = work.turn;

        let mut t: usize = 0;
        while t < 1000
            invariant
                work.wf(),
                work.board@ == state.board@,
                work.turn == state.turn,
                !finished(state.board@, state.turn),
                best_move.wf(),
                move_legal(state.board@, state.turn, best_move),
                me == state.turn,
            decreases 1000 - t,
        {
            let mov = sampler.find_move(&work);
            proof {
                lemma_move_roundtrip(work.board@, work.turn, mov);
            }
            work.do_move(mov);
            let value = Reachability.eval(me, &work.board);
            work.undo_move(mov);
            if value > best_value {
                best_value = value;
                best_move = mov;
            }
            t = t + 1;
        }

        best_move
    }

    pub fn dup(&self) -> (r: Self)
        ensures
            r == *self,
    {
        LookAhead
    }
}

} // verus!
