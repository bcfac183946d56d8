use vstd::prelude::*;

use crate::player::Player;
use crate::state::{
    board_weight, finished, lemma_move_decreases_weight, move_legal, moved_board, start_cell,
    GameState, Move,
};
use crate::strategy::Strategy;

verus! {

/// Drives two strategies against one game state until the game ends,
/// optionally recording the moves played.
pub struct Game {
    state: GameState,
    log: Vec<Move>,
    enable_log: bool,
    white: Strategy,
    black: Strategy,
}

impl Game {
    pub closed spec fn wf(&self) -> bool {
        self.state.wf() && self.white.wf() && self.black.wf()
    }

    /// The current board contents.
    pub closed spec fn board_view(&self) -> Seq<crate::board::Slot> {
        self.state.board@
    }

    /// The side to move.
    pub closed spec fn turn_of(&self) -> Player {
        self.state.turn
    }

    /// The moves recorded so far.
    pub closed spec fn log_view(&self) -> Seq<Move> {
        self.log@
    }

    /// Whether moves are being recorded.
    pub closed spec fn logging(&self) -> bool {
        self.enable_log
    }

    /// A fresh game from the starting position, with no recording.
    pub fn new(white: Strategy, black: Strategy) -> (r: Self)
        requires
            white.wf(),
            black.wf(),
        ensures
            r.wf(),
            r.turn_of() == Player::White,
            forall|k: int| 0 <= k < 100 ==> r.board_view()[k] == start_cell(k),
            r.board_view().len() == 100,
            r.log_view() == Seq::<Move>::empty(),
            !r.logging(),
    {
        Game {
            state: GameState::new(),
            white,
            black,
            log: Vec::new(),
            enable_log: false,
        }
    }

    /// Start recording the moves played from now on.
    pub fn enable_log(&mut self)
        ensures
            final(self).logging(),
            final(self).wf() == old(self).wf(),
            final(self).board_view() == old(self).board_view(),
            final(self).turn_of() == old(self).turn_of(),
            final(self).log_view() == old(self).log_view(),
    {
        self.enable_log = true;
    }

    /// The recorded moves.
    pub fn log(&self) -> (r: &[Move])
        ensures
            r@ == self.log_view(),
    {
        self.log.as_slice()
    }

    /// Ask the side to move for a move, check it, and play it. The strategy
    /// contracts guarantee the move is legal, so the game never aborts here.
    pub fn next_move(&mut self) -> (r: Move)
        requires
            old(self).wf(),
            !finished(old(self).board_view(), old(self).turn_of()),
        ensures
            final(self).wf(),
            r.wf(),
            move_legal(old(self).board_view(), old(self).turn_of(), r),
            final(self).board_view() == moved_board(old(self).board_view(), r),
            final(self).turn_of() == old(self).turn_of().enemy_spec(),
            board_weight(final(self).board_view()) < board_weight(old(self).board_view()),
            final(self).logging() == old(self).logging(),
            final(self).log_view() == if old(self).logging() {
                old(self).log_view().push(r)
            } else {
                old(self).log_view()
            },
    {
        let mov = match self.state.turn {
            Player::White => self.white.find_move(&self.state),
            Player::Black => self.black.find_move(&self.state),
        };
        if self.state.legal_move(mov) {
            proof {
                lemma_move_decreases_weight(self.state.board@, self.state.turn, mov);
            }
            self.state.do_move(mov);
            if self.enable_log {
                self.log.push(mov);
            }
            mov
        } else {
            proof {
                assert(false);
            }
            mov
        }
    }

    /// Whether the side to move has no move left, i.e. the game is over.
    pub fn is_finished(&self) -> (r: bool)
        requires
            self.wf(),
        ensures
            r == finished(self.board_view(), self.turn_of()),
    {
        self.state.is_finished()
    }

    /// Play the current game to the end and return the winner. The board
    /// weight shrinks with every move, so the game always ends.
    pub fn finish(&mut self) -> (r: Player)
        requires
            old(self).wf(),
        ensures
            final(self).wf(),
            finished(final(self).board_view(), final(self).turn_of()),
            r == final(self).turn_of().enemy_spec(),
            final(self).logging() == old(self).logging(),
    {
        while !self.state.is_finished()
            invariant
                self.wf(),
                self.logging() == old(self).logging(),
            decreases board_weight(self.state.board@),
        {
            let _ = self.next_move();
        }
        self.state.turn.enemy()
    }
}

} // verus!
