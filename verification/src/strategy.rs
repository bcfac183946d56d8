use vstd::prelude::*;

use crate::di::DeepIdiot;
use crate::look_ahead::LookAhead;
use crate::minimax::Minimax;
use crate::random::Random;
use crate::snail::{RandomSnail, Snail};
use crate::state::{finished, move_legal, GameState, Move};
use crate::text::dec_chars;

verus! {

/// The closed family of decision-makers. The variant set is fixed and
/// small, so polymorphic dispatch is a tagged union behind a match; every
/// variant promises to return a legal move for an unfinished game.
#[derive(Copy, Clone)]
pub enum Strategy {
    Random(Random),
    Snail(Snail),
    RandomSnail(RandomSnail),
    LookAhead(LookAhead),
    Minimax(Minimax),
    DeepIdiot(DeepIdiot),
}

impl Strategy {
    /// The variant's configuration supports a search.
    pub open spec fn wf(&self) -> bool {
        match *self {
            Strategy::Minimax(m) => m.depth_spec() >= 1,
            Strategy::DeepIdiot(d) => d.config_wf(),
            _ => true,
        }
    }

    /// Whether the variant's configuration supports a search; unverified
    /// callers can use this to test the precondition of `find_move`.
    pub fn is_searchable(&self) -> (r: bool)
        ensures
            r == self.wf(),
    {
        match self {
            Strategy::Minimax(m) => m.depth() >= 1,
            Strategy::DeepIdiot(d) => d.is_configured(),
            _ => true,
        }
    }

    /// The characters of the variant's identifier.
    pub open spec fn name_chars(&self) -> Seq<char> {
        match *self {
            Strategy::Random(_) => "True Random"@,
            Strategy::Snail(_) => "Snail"@,
            Strategy::RandomSnail(_) => "RandomSnail"@,
            Strategy::LookAhead(_) => "LookAhead"@,
            Strategy::Minimax(m) => "Minimax("@ + dec_chars(m.depth_spec() as nat) + ")"@,
            Strategy::DeepIdiot(d) => "DeepIdiot("@ + dec_chars(d.depth_spec() as nat) + ", "@
                + dec_chars(d.width_spec() as nat) + ", "@ + dec_chars(d.memory_spec() as nat)
                + ")"@,
        }
    }

    /// The human-readable identifier of the variant.
    pub fn name(&self) -> (r: String)
        ensures
            r@ == self.name_chars(),
    {
        match self {
            Strategy::Random(s) => s.name(),
            Strategy::Snail(s) => s.name(),
            Strategy::RandomSnail(s) => s.name(),
            Strategy::LookAhead(s) => s.name(),
            Strategy::Minimax(s) => s.name(),
            Strategy::DeepIdiot(s) => s.name(),
        }
    }

    /// Ask the variant for a move; every variant returns a legal one.
    pub fn find_move(&mut self, state: &GameState) -> (r: Move)
        requires
            state.wf(),
            !finished(state.board@, state.turn),
            old(self).wf(),
        ensures
            r.wf(),
            move_legal(state.board@, state.turn, r),
            *final(self) == *old(self),
    {
        match self {
            Strategy::Random(s) => s.find_move(state),
            Strategy::Snail(s) => s.find_move(state),
            Strategy::RandomSnail(s) => s.find_move(state),
            Strategy::LookAhead(s) => s.find_move(state),
            Strategy::Minimax(s) => s.find_move(state),
            Strategy::DeepIdiot(s) => s.find_move(state),
        }
    }

    /// An independent, identically configured copy.
    pub fn dup(&self) -> (r: Self)
        ensures
            r == *self,
    {
        *self
    }
}

} // verus!
