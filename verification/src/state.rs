use vstd::prelude::*;

use crate::board::{amazon_squares, line_clear, movable_squares, sq, trapped, Board, Slot};
use crate::board::{
    lemma_amazons_pre_complete, lemma_amazons_pre_elems, lemma_movable_pre_complete,
    lemma_movable_pre_elems, lemma_sq_pos_of, pos_of,
};
use crate::player::Player;
use crate::pos::{lemma_path_shape, Pos};

verus! {

/// A full move: step an amazon `from -> to`, then shoot an arrow to `arrow`.
#[derive(Copy, Clone, Debug, PartialEq, Eq, Structural)]
pub struct Move {
    pub from: Pos,
    pub to: Pos,
    pub arrow: Pos,
}

impl Move {
    /// All three squares lie on the board.
    pub open spec fn wf(self) -> bool {
        self.from.wf() && self.to.wf() && self.arrow.wf()
    }
}

/// The board with the moving amazon lifted off its starting square.
pub open spec fn vacated(bd: Seq<Slot>, m: Move) -> Seq<Slot> {
    bd.update(sq(m.from), Slot::Empty)
}

/// A move is legal when its starting square holds an amazon of the side to
/// move, both legs are queen lines, and both legs are clear once the moving
/// amazon has left its starting square.
pub open spec fn move_legal(bd: Seq<Slot>, turn: Player, m: Move) -> bool {
    &&& bd[sq(m.from)] == Slot::Amazon(turn)
    &&& m.from.aligned(m.to)
    &&& m.to.aligned(m.arrow)
    &&& line_clear(vacated(bd, m), m.from, m.to)
    &&& line_clear(vacated(bd, m), m.to, m.arrow)
}

/// The board after playing `m`: the starting square is vacated, the moved
/// amazon stands on `to`, and an arrow blocks `arrow`.
pub open spec fn moved_board(bd: Seq<Slot>, m: Move) -> Seq<Slot> {
    bd.update(sq(m.from), Slot::Empty).update(sq(m.to), bd[sq(m.from)]).update(
        sq(m.arrow),
        Slot::Arrow,
    )
}

/// The board after taking `m` back for `mover`: arrow and destination are
/// cleared and the mover's amazon stands on the starting square again.
pub open spec fn unmoved_board(bd: Seq<Slot>, mover: Player, m: Move) -> Seq<Slot> {
    bd.update(sq(m.to), Slot::Empty).update(sq(m.arrow), Slot::Empty).update(
        sq(m.from),
        Slot::Amazon(mover),
    )
}

/// No amazon of the side to move can step anywhere.
pub open spec fn finished(bd: Seq<Slot>, turn: Player) -> bool {
    forall|q: Pos| q.wf() && bd[sq(q)] == Slot::Amazon(turn) ==> trapped(bd, q)
}

/// The slot of square `k` in the starting layout: four amazons per side on
/// the canonical symmetric squares, everything else empty.
pub open spec fn start_cell(k: int) -> Slot {
    if k == 3 || k == 30 || k == 60 || k == 93 {
        Slot::Amazon(Player::Black)
    } else if k == 6 || k == 39 || k == 69 || k == 96 {
        Slot::Amazon(Player::White)
    } else {
        Slot::Empty
    }
}

/// The board plus the side to move.
#[derive(Debug)]
pub struct GameState {
    pub board: Board,
    pub turn: Player,
}

impl GameState {
    pub open spec fn wf(&self) -> bool {
        self.board.wf()
    }

    /// The starting position: four amazons per side, White to move.
    pub fn new() -> (r: Self)
        ensures
            r.wf(),
            r.turn == Player::White,
            forall|k: int| 0 <= k < 100 ==> r.board@[k] == start_cell(k),
    {
        let black = Slot::Amazon(Player::Black);
        let white = Slot::Amazon(Player::White);

        let mut board = Board::new_empty();
        board.set(Pos { x: 0, y: 3 }, black);
        board.set(Pos { x: 3, y: 0 }, black);
        board.set(Pos { x: 6, y: 0 }, black);
        board.set(Pos { x: 9, y: 3 }, black);

        board.set(Pos { x: 0, y: 6 }, white);
        board.set(Pos { x: 3, y: 9 }, white);
        board.set(Pos { x: 6, y: 9 }, white);
        board.set(Pos { x: 9, y: 6 }, white);

        GameState { board, turn: Player::White }
    }

    /// Whether `mov` may be played in the current position.
    pub fn legal_move(&self, mov: Move) -> (r: bool)
        requires
            self.wf(),
            mov.wf(),
        ensures
            r == move_legal(self.board@, self.turn, mov),
    {
        if self.board.at(mov.from) != Slot::Amazon(self.turn) {
            return false;
        }
        if !mov.from.is_reachable(mov.to) || !mov.to.is_reachable(mov.arrow) {
            return false;
        }
        let mut board = self.board.clone();
        board.set(mov.from, Slot::Empty);
        board.is_all_empty(mov.from, mov.to) && board.is_all_empty(mov.to, mov.arrow)
    }

    /// Play `mov`: vacate the starting square, land the amazon, drop the
    /// arrow, and pass the turn.
    pub fn do_move(&mut self, mov: Move)
        requires
            old(self).wf(),
            mov.wf(),
        ensures
            final(self).wf(),
            final(self).board@ == moved_board(old(self).board@, mov),
            final(self).turn == old(self).turn.enemy_spec(),
    {
        let source = self.board.at(mov.from);
        self.board.set(mov.from, Slot::Empty);
        self.board.set(mov.to, source);
        self.board.set(mov.arrow, Slot::Arrow);
        self.turn = self.turn.enemy();
    }

    /// Take `mov` back, assuming it was the move just played: clear the
    /// destination and the arrow, put the mover's amazon back, and return
    /// the turn.
    pub fn undo_move(&mut self, mov: Move)
        requires
            old(self).wf(),
            mov.wf(),
        ensures
            final(self).wf(),
            final(self).board@ == unmoved_board(
                old(self).board@,
                old(self).turn.enemy_spec(),
                mov,
            ),
            final(self).turn == old(self).turn.enemy_spec(),
    {
        self.turn = self.turn.enemy();
        self.board.set(mov.to, Slot::Empty);
        self.board.set(mov.arrow, Slot::Empty);
        self.board.set(mov.from, Slot::Amazon(self.turn));
    }

    /// The squares of the side to move's amazons, in scan order.
    pub fn find_amazons(&self) -> (r: Vec<Pos>)
        requires
            self.wf(),
        ensures
            r@ == amazon_squares(self.board@, self.turn),
    {
        self.board.find_amazons(self.turn)
    }

    /// The squares of the side to move's amazons that can still step.
    pub fn find_movable_amazons(&self) -> (r: Vec<Pos>)
        requires
            self.wf(),
        ensures
            r@ == movable_squares(self.board@, self.turn),
    {
        self.board.find_movable(self.turn)
    }

    /// Whether the side to move has no step left anywhere.
    pub fn is_finished(&self) -> (r: bool)
        requires
            self.wf(),
        ensures
            r == finished(self.board@, self.turn),
    {
        let amz = self.find_amazons();
        proof {
            lemma_amazons_pre_elems(self.board@, self.turn, 100);
        }
        let mut i: usize = 0;
        while i < amz.len()
            invariant
                self.wf(),
                amz@ == amazon_squares(self.board@, self.turn),
                i <= amz@.len(),
                forall|k: int|
                    0 <= k < amz@.len() ==> {
                        let q = #[trigger] amz@[k];
                        q.wf() && self.board@[sq(q)] == Slot::Amazon(self.turn)
                    },
                forall|k: int| 0 <= k < i ==> trapped(self.board@, #[trigger] amz@[k]),
            decreases amz@.len() - i,
        {
            if !self.board.is_trapped(amz[i]) {
                proof {
                    assert(!finished(self.board@, self.turn)) by {
                        assert(amz@[i as int].wf() && self.board@[sq(amz@[i as int])]
                            == Slot::Amazon(self.turn) && !trapped(self.board@, amz@[i as int]));
                    }
                }
                return false;
            }
            i = i + 1;
        }
        proof {
            assert forall|q: Pos|
                q.wf() && self.board@[sq(q)] == Slot::Amazon(self.turn) implies trapped(
                self.board@,
                q,
            ) by {
                lemma_sq_pos_of(q);
                lemma_amazons_pre_complete(self.board@, self.turn, 100, sq(q));
                let k = choose|k: int| 0 <= k < amz@.len() && amz@[k] == pos_of(sq(q));
                assert(trapped(self.board@, amz@[k]));
            }
        }
        true
    }

    /// The side that has won, or `None` while the game is still running.
    pub fn winner(&self) -> (r: Option<Player>)
        requires
            self.wf(),
        ensures
            r == if finished(self.board@, self.turn) {
                Some(self.turn.enemy_spec())
            } else {
                None::<Player>
            },
    {
        if self.is_finished() {
            Some(self.turn.enemy())
        } else {
            None
        }
    }
}

impl PartialEq for GameState {
    /// Two states are equal when their boards and turns agree.
    fn eq(&self, other: &Self) -> (r: bool) {
        self.board == other.board && self.turn == other.turn
    }
}

impl vstd::std_specs::cmp::PartialEqSpecImpl for GameState {
    open spec fn obeys_eq_spec() -> bool {
        true
    }

    open spec fn eq_spec(&self, other: &Self) -> bool {
        self.board@ == other.board@ && self.turn == other.turn
    }
}

impl Clone for GameState {
    /// A clone is an independent state with the same position and turn.
    fn clone(&self) -> (r: Self)
        ensures
            r.board@ == self.board@,
            r.turn == self.turn,
    {
        GameState { board: self.board.clone(), turn: self.turn }
    }
}

/// Distinct on-board squares have distinct flat indices.
proof fn lemma_sq_injective(a: Pos, b: Pos)
    requires
        a.wf(),
        b.wf(),
        a != b,
    ensures
        sq(a) != sq(b),
{
    lemma_sq_pos_of(a);
    lemma_sq_pos_of(b);
}

/// The final square of a leg of a legal move is empty on the vacated board
/// (unless it is the vacated square itself).
proof fn lemma_leg_end_empty(bd: Seq<Slot>, a: Pos, g: Pos)
    requires
        a.wf(),
        g.wf(),
        a != g,
        line_clear(bd, a, g),
    ensures
        bd[sq(g)] == Slot::Empty,
{
    lemma_path_shape(a, g);
    assert(bd[sq(a.path(g)[a.path(g).len() - 1])] == Slot::Empty);
}

/// Undoing a legal move immediately after playing it restores the position
/// exactly, in both board contents and turn: both directions touch the same
/// three squares, and passing the turn twice returns it.
pub proof fn lemma_move_roundtrip(bd: Seq<Slot>, turn: Player, m: Move)
    requires
        bd.len() == 100,
        m.wf(),
        move_legal(bd, turn, m),
    ensures
        unmoved_board(moved_board(bd, m), turn, m) == bd,
        turn.enemy_spec().enemy_spec() == turn,
{
    let f = sq(m.from);
    let t = sq(m.to);
    let a = sq(m.arrow);
    lemma_sq_pos_of(m.from);
    lemma_sq_pos_of(m.to);
    lemma_sq_pos_of(m.arrow);
    if m.to != m.from {
        lemma_leg_end_empty(vacated(bd, m), m.from, m.to);
        lemma_sq_injective(m.to, m.from);
    }
    if m.arrow != m.to {
        lemma_leg_end_empty(vacated(bd, m), m.to, m.arrow);
    }
    if m.arrow != m.from {
        lemma_sq_injective(m.arrow, m.from);
    }
    if m.arrow != m.to {
        lemma_sq_injective(m.arrow, m.to);
    }
    if m.to != m.from {
        lemma_sq_injective(m.to, m.from);
    }
    assert(unmoved_board(moved_board(bd, m), turn, m) =~= bd);
}

/// The game is still running for `turn` exactly when some amazon of `turn`
/// can still step somewhere.
pub proof fn lemma_unfinished_movable(bd: Seq<Slot>, turn: Player)
    requires
        bd.len() == 100,
    ensures
        !finished(bd, turn) <==> movable_squares(bd, turn).len() > 0,
{
    if !finished(bd, turn) {
        let q = choose|q: Pos| q.wf() && bd[sq(q)] == Slot::Amazon(turn) && !trapped(bd, q);
        lemma_sq_pos_of(q);
        lemma_movable_pre_complete(bd, turn, 100, sq(q));
    }
    if movable_squares(bd, turn).len() > 0 {
        lemma_movable_pre_elems(bd, turn, 100);
        let q = movable_squares(bd, turn)[0];
        assert(q.wf() && bd[sq(q)] == Slot::Amazon(turn) && !trapped(bd, q));
    }
}

/// Weight of one slot for the termination measure.
pub open spec fn slot_weight(s: Slot) -> nat {
    match s {
        Slot::Empty => 2,
        Slot::Amazon(_) => 1,
        Slot::Arrow => 0,
    }
}

/// Total weight of a board; it shrinks with every legal move.
pub open spec fn board_weight(bd: Seq<Slot>) -> nat
    decreases bd.len(),
{
    if bd.len() == 0 {
        0
    } else {
        board_weight(bd.drop_last()) + slot_weight(bd.last())
    }
}

/// Updating one square shifts the total weight by the weight difference of
/// the old and new slots.
proof fn lemma_weight_update(bd: Seq<Slot>, k: int, v: Slot)
    requires
        0 <= k < bd.len(),
    ensures
        board_weight(bd.update(k, v)) + slot_weight(bd[k]) == board_weight(bd) + slot_weight(v),
    decreases bd.len(),
{
    if k == bd.len() - 1 {
        assert(bd.update(k, v).drop_last() =~= bd.drop_last());
    } else {
        assert(bd.update(k, v).drop_last() =~= bd.drop_last().update(k, v));
        lemma_weight_update(bd.drop_last(), k, v);
    }
}

/// Every legal move strictly shrinks the board weight: each move either
/// fills an empty square with an arrow, or (in the degenerate cases) removes
/// an amazon or converts one to an arrow.
pub proof fn lemma_move_decreases_weight(bd: Seq<Slot>, turn: Player, m: Move)
    requires
        bd.len() == 100,
        m.wf(),
        move_legal(bd, turn, m),
    ensures
        board_weight(moved_board(bd, m)) < board_weight(bd),
{
    let f = sq(m.from);
    let t = sq(m.to);
    let a = sq(m.arrow);
    lemma_sq_pos_of(m.from);
    lemma_sq_pos_of(m.to);
    lemma_sq_pos_of(m.arrow);
    let b1 = bd.update(f, Slot::Empty);
    let b2 = b1.update(t, bd[f]);
    let b3 = b2.update(a, Slot::Arrow);
    lemma_weight_update(bd, f, Slot::Empty);
    lemma_weight_update(b1, t, bd[f]);
    lemma_weight_update(b2, a, Slot::Arrow);
    if m.to != m.from {
        lemma_leg_end_empty(vacated(bd, m), m.from, m.to);
        lemma_sq_injective(m.to, m.from);
    }
    if m.arrow != m.to {
        lemma_leg_end_empty(vacated(bd, m), m.to, m.arrow);
    }
    if m.arrow != m.from {
        lemma_sq_injective(m.arrow, m.from);
    }
    if m.arrow != m.to {
        lemma_sq_injective(m.arrow, m.to);
    }
}

} // verus!
