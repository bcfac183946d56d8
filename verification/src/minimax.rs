use vstd::prelude::*;

use crate::heuristic::{eval_value, Reachability, Value, MAX_VAL, MIN_VAL};
use crate::random::Random;
use crate::state::{finished, lemma_move_roundtrip, move_legal, GameState, Move};
use crate::text::{dec_chars, usize_to_string};

verus! {

/// Depth-bounded negamax with alpha-beta pruning. Children are generated by
/// random sampling rather than exhaustive enumeration — a deliberate
/// approximation given the game's huge branching factor.
#[derive(Copy, Clone)]
pub struct Minimax {
    depth: usize,
}

/// One negamax node: sample up to a fixed number of random moves, score each
/// by sign-flipped recursion, and prune on the `beta` bound. Returns the
/// score reached and the best sampled move, if any raised `alpha`. Leaf and
/// finished nodes are deterministic; the sampled branch is fail-hard: its
/// score never leaves the `alpha..beta` window.
fn alpha_beta(state: &mut GameState, alpha: Value, beta: Value, depth: usize) -> (r: (
    Value,
    Option<Move>,
))
    requires
        old(state).wf(),
        MIN_VAL <= alpha <= MAX_VAL,
        MIN_VAL <= beta <= MAX_VAL,
    ensures
        final(state).wf(),
        final(state).board@ == old(state).board@,
        final(state).turn == old(state).turn,
        MIN_VAL <= r.0 <= MAX_VAL,
        r.1 matches Some(m) ==> m.wf() && move_legal(old(state).board@, old(state).turn, m),
        depth == 0 ==> r.0 == eval_value(old(state).turn, old(state).board@) && r.1 is None,
        depth >= 1 && finished(old(state).board@, old(state).turn) ==> r.0 == MIN_VAL
            && r.1 is None,
        depth >= 1 && !finished(old(state).board@, old(state).turn) && alpha <= beta ==> alpha
            <= r.0 <= beta,
    decreases depth,
{
    if depth == 0 {
        return (Reachability.eval(state.turn, &state.board), None);
    }
    if state.is_finished() {
        return (MIN_VAL, None);
    }

    let ghost bd0 = state.board@;
    let ghost turn0 = state.turn;

    let mut cur_alpha = alpha;
    let mut best: Option<Move> = None;
    let mut sampler = Random;

    let mut t: usize = 0;
    while t < 1000
        invariant
            depth >= 1,
            bd0 == old(state).board@,
            turn0 == old(state).turn,
            state.wf(),
            state.board@ == bd0,
            state.turn == turn0,
            !finished(bd0, turn0),
            MIN_VAL <= cur_alpha <= MAX_VAL,
            MIN_VAL <= beta <= MAX_VAL,
            alpha <= cur_alpha,
            alpha <= beta ==> cur_alpha <= beta,
            best matches Some(m) ==> m.wf() && move_legal(bd0, turn0, m),
        decreases 1000 - t,
    {
        let mov = sampler.find_move(state);
        proof {
            lemma_move_roundtrip(state.board@, state.turn, mov);
        }
        state.do_move(mov);
        let sub = alpha_beta(state, -beta, -cur_alpha, depth - 1);
        state.undo_move(mov);
        let score = -sub.0;

        if score >= beta {
            let chosen = match best {
                Some(b) => Some(b),
                None => Some(mov),
            };
            return (beta, chosen);
        }
        if score > cur_alpha {
            cur_alpha = score;
            best = Some(mov);
        }
        t = t + 1;
    }
    (cur_alpha, best)
}

impl Minimax {
    /// The configured search depth.
    pub closed spec fn depth_spec(&self) -> int {
        self.depth as int
    }

    pub fn with_depth(depth: usize) -> (r: Self)
        ensures
            r.depth_spec() == depth,
    {
        Minimax { depth }
    }

    /// The configured search depth.
    pub fn depth(&self) -> (r: usize)
        ensures
            r == self.depth_spec(),
    {
        self.depth
    }

    pub fn name(&self) -> (r: String)
        ensures
            r@ == "Minimax("@ + dec_chars(self.depth_spec() as nat) + ")"@,
    {
        let mut s = "Minimax(".to_owned();
        let d = usize_to_string(self.depth);
        s.append(d.as_str());
        s.append(")");
        s
    }

    /// Run the sampled alpha-beta search from a scratch copy and return the
    /// best first move it found; when no sampled line raised the score
    /// floor, fall back to one fresh random move.
    pub fn find_move(&mut self, state: &GameState) -> (r: Move)
        requires
            state.wf(),
            !finished(state.board@, state.turn),
            self.depth_spec() >= 1,
        ensures
            r.wf(),
            move_legal(state.board@, state.turn, r),
            *final(self) == *old(self),
    {
        let mut work = state.clone();
        let result = alpha_beta(&mut work, MIN_VAL, MAX_VAL, self.depth);
        match result.1 {
            Some(m) => m,
            None => {
                let mut sampler = Random;
                sampler.find_move(state)
            },
        }
    }

    pub fn dup(&self) -> (r: Self)
        ensures
            r == *self,
    {
        *self
    }
}

} // verus!
