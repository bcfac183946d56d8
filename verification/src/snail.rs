use vstd::prelude::*;

use crate::board::{amazon_squares, line_clear, sq, trapped, Slot};
use crate::board::{lemma_amazons_pre_complete, lemma_amazons_pre_elems, lemma_sq_pos_of, pos_of};
use crate::player::Player;
use crate::pos::{lex_before, Pos};
use crate::rng::{lemma_permutation_membership, shuffle_positions};
use crate::state::{finished, move_legal, vacated, GameState, Move};

verus! {

/// A one-step walk to an adjacent square is the full stepping path.
proof fn lemma_neighbor_path(a: Pos, b: Pos)
    requires
        a.is_neighbor(b),
    ensures
        a.path(b) =~= seq![b],
{
    assert(a.step_toward(b) == b);
    assert(b.path(b) =~= Seq::<Pos>::empty());
    assert(a.path(b) =~= seq![b] + b.path(b));
}

/// A step to an empty adjacent square, shooting the arrow back into the
/// vacated origin square, is legal.
proof fn lemma_snail_step_legal(bd: Seq<Slot>, turn: Player, a: Pos, b: Pos)
    requires
        bd.len() == 100,
        a.wf(),
        bd[sq(a)] == Slot::Amazon(turn),
        a.is_neighbor(b),
        bd[sq(b)] == Slot::Empty,
    ensures
        move_legal(bd, turn, Move { from: a, to: b, arrow: a }),
{
    let m = Move { from: a, to: b, arrow: a };
    lemma_neighbor_path(a, b);
    lemma_neighbor_path(b, a);
    lemma_sq_pos_of(a);
    lemma_sq_pos_of(b);
    assert(sq(a) != sq(b)) by {
        assert(pos_of(sq(a)) == a && pos_of(sq(b)) == b);
    }
    let vac = vacated(bd, m);
    assert(vac[sq(b)] == Slot::Empty);
    assert(vac[sq(a)] == Slot::Empty);
    assert forall|i: int| 0 <= i < a.path(b).len() implies vac[sq(#[trigger] a.path(b)[i])]
        == Slot::Empty by {
        assert(a.path(b)[i] == b);
    }
    assert forall|i: int| 0 <= i < b.path(a).len() implies vac[sq(#[trigger] b.path(a)[i])]
        == Slot::Empty by {
        assert(b.path(a)[i] == a);
    }
}

/// The first entry of `s` that can still step on `bd`, in listing order.
pub open spec fn first_free_amazon(bd: Seq<Slot>, s: Seq<Pos>) -> Option<Pos>
    decreases s.len(),
{
    if s.len() == 0 {
        None
    } else if !trapped(bd, s[0]) {
        Some(s[0])
    } else {
        first_free_amazon(bd, s.drop_first())
    }
}

/// `b` is the scan-order-first empty adjacent square of `a` on `bd`.
pub open spec fn first_empty_neighbor(bd: Seq<Slot>, a: Pos, b: Pos) -> bool {
    &&& a.is_neighbor(b)
    &&& bd[sq(b)] == Slot::Empty
    &&& forall|q: Pos|
        a.is_neighbor(q) && bd[sq(q)] == Slot::Empty && q != b ==> lex_before(b, q)
}

/// When every entry before index `i` is trapped and the entry at `i` is
/// not, the scan finds exactly that entry.
proof fn lemma_first_free_at(bd: Seq<Slot>, s: Seq<Pos>, i: int)
    requires
        0 <= i < s.len(),
        forall|k: int| 0 <= k < i ==> trapped(bd, #[trigger] s[k]),
        !trapped(bd, s[i]),
    ensures
        first_free_amazon(bd, s) == Some(s[i]),
    decreases i,
{
    if i > 0 {
        assert(trapped(bd, s[0]));
        assert forall|k: int| 0 <= k < i - 1 implies trapped(bd, #[trigger] s.drop_first()[k]) by {
            assert(s.drop_first()[k] == s[k + 1]);
        }
        lemma_first_free_at(bd, s.drop_first(), i - 1);
        assert(s.drop_first()[i - 1] == s[i]);
    }
}

/// Walk the amazons (optionally in shuffled order); for the first one with
/// an empty adjacent square, step there and fire the arrow back into the
/// origin square.
fn snail_move(state: &GameState, randomize: bool) -> (r: Move)
    requires
        state.wf(),
        !finished(state.board@, state.turn),
    ensures
        r.wf(),
        move_legal(state.board@, state.turn, r),
        r.arrow == r.from,
        r.from.is_neighbor(r.to),
        !randomize ==> first_free_amazon(
            state.board@,
            amazon_squares(state.board@, state.turn),
        ) == Some(r.from),
        !randomize ==> first_empty_neighbor(state.board@, r.from, r.to),
{
    let mut amzs = state.find_amazons();
    let ghost orig = amzs@;
    proof {
        lemma_amazons_pre_elems(state.board@, state.turn, 100);
    }
    if randomize {
        shuffle_positions(&mut amzs);
    }
    proof {
        lemma_permutation_membership(orig, amzs@);
        lemma_permutation_membership(amzs@, orig);
    }
    let mut i: usize = 0;
    while i < amzs.len()
        invariant
            state.wf(),
            orig == amazon_squares(state.board@, state.turn),
            amzs@.to_multiset() == orig.to_multiset(),
            !randomize ==> amzs@ == orig,
            forall|k: int| 0 <= k < orig.len() ==> amzs@.contains(#[trigger] orig[k]),
            forall|k: int|
                0 <= k < amzs@.len() ==> {
                    let q = #[trigger] amzs@[k];
                    q.wf() && state.board@[sq(q)] == Slot::Amazon(state.turn)
                },
            i <= amzs@.len(),
            forall|k: int| 0 <= k < i ==> trapped(state.board@, #[trigger] amzs@[k]),
        decreases amzs@.len() - i,
    {
        let a = amzs[i];
        let nbs = a.neighbors();
        let mut moves: Vec<Pos> = Vec::new();
        let mut n: usize = 0;
        while n < nbs.len()
            invariant
                state.wf(),
                a.wf(),
                forall|q: Pos| nbs@.contains(q) <==> a.is_neighbor(q),
                forall|k: int| 0 <= k < nbs@.len() ==> a.is_neighbor(#[trigger] nbs@[k]),
                forall|k: int, l: int|
                    #![trigger nbs@[k], nbs@[l]]
                    0 <= k < l < nbs@.len() ==> lex_before(nbs@[k], nbs@[l]),
                n <= nbs@.len(),
                forall|k: int|
                    0 <= k < moves@.len() ==> a.is_neighbor(#[trigger] moves@[k])
                        && state.board@[sq(moves@[k])] == Slot::Empty,
                forall|k: int|
                    0 <= k < n && state.board@[sq(#[trigger] nbs@[k])] == Slot::Empty
                        ==> moves@.contains(nbs@[k]),
                moves@.len() >= 1 ==> exists|k0: int|
                    0 <= k0 < n && #[trigger] nbs@[k0] == moves@[0],
                moves@.len() >= 1 ==> forall|k: int|
                    0 <= k < n && #[trigger] nbs@[k] != moves@[0] && state.board@[sq(nbs@[k])]
                        == Slot::Empty ==> lex_before(moves@[0], nbs@[k]),
            decreases nbs@.len() - n,
        {
            let q = nbs[n];
            let ghost prev = moves@;
            if state.board.at(q).is_empty() {
                moves.push(q);
                proof {
                    assert forall|k: int|
                        0 <= k < n + 1 && state.board@[sq(#[trigger] nbs@[k])]
                            == Slot::Empty implies moves@.contains(nbs@[k]) by {
                        if k < n {
                            let m0 = choose|m0: int| 0 <= m0 < prev.len() && prev[m0] == nbs@[k];
                            assert(moves@[m0] == nbs@[k]);
                        } else {
                            assert(moves@[moves@.len() - 1] == nbs@[k]);
                        }
                    }
                    if prev.len() == 0 {
                        // first hit: every earlier scanned square was occupied
                        assert(moves@[0] == nbs@[n as int]);
                        assert forall|k: int|
                            0 <= k < n + 1 && #[trigger] nbs@[k] != moves@[0] && state.board@[sq(
                                nbs@[k],
                            )] == Slot::Empty implies lex_before(moves@[0], nbs@[k]) by {
                            if k < n {
                                assert(prev.contains(nbs@[k]));
                            }
                        }
                    } else {
                        assert(moves@[0] == prev[0]);
                        let k0 = choose|k0: int| 0 <= k0 < n && nbs@[k0] == moves@[0];
                        assert(lex_before(moves@[0], nbs@[n as int]));
                    }
                }
            }
            n = n + 1;
        }
        let ghost premoves = moves@;
        if randomize {
            shuffle_positions(&mut moves);
        }
        proof {
            lemma_permutation_membership(premoves, moves@);
        }
        if moves.len() > 0 {
            let b = moves[0];
            proof {
                assert(premoves.contains(moves@[0]));
                lemma_snail_step_legal(state.board@, state.turn, a, b);
                if !randomize {
                    assert(first_free_amazon(state.board@, orig) == Some(a)) by {
                        assert(!trapped(state.board@, a));
                        lemma_first_free_at(state.board@, orig, i as int);
                    }
                    assert(first_empty_neighbor(state.board@, a, b)) by {
                        assert(b == premoves[0]);
                        assert forall|q: Pos|
                            a.is_neighbor(q) && state.board@[sq(q)] == Slot::Empty && q
                                != b implies lex_before(b, q) by {
                            assert(nbs@.contains(q));
                            let k = choose|k: int| 0 <= k < nbs@.len() && nbs@[k] == q;
                        }
                    }
                }
            }
            return Move { from: a, to: b, arrow: a };
        }
        proof {
            assert(trapped(state.board@, a)) by {
                assert forall|q: Pos| a.is_neighbor(q) implies state.board@[sq(q)]
                    != Slot::Empty by {
                    if state.board@[sq(q)] == Slot::Empty {
                        assert(nbs@.contains(q));
                        let k = choose|k: int| 0 <= k < nbs@.len() && nbs@[k] == q;
                        assert(moves@.len() >= premoves.len());
                        assert(premoves.contains(nbs@[k]));
                    }
                }
            }
        }
        i = i + 1;
    }
    proof {
        assert(finished(state.board@, state.turn)) by {
            assert forall|q: Pos|
                q.wf() && state.board@[sq(q)] == Slot::Amazon(state.turn) implies trapped(
                state.board@,
                q,
            ) by {
                lemma_sq_pos_of(q);
                lemma_amazons_pre_complete(state.board@, state.turn, 100, sq(q));
                let k0 = choose|k0: int| 0 <= k0 < orig.len() && orig[k0] == q;
                assert(amzs@.contains(orig[k0]));
                let k = choose|k: int| 0 <= k < amzs@.len() && amzs@[k] == q;
                assert(trapped(state.board@, amzs@[k]));
            }
        }
        assert(false);
    }
    Move { from: Pos { x: 0, y: 0 }, to: Pos { x: 0, y: 0 }, arrow: Pos { x: 0, y: 0 } }
}

/// The deterministic snail: fixed scan order, first amazon that can step,
/// first empty neighbor, arrow into the vacated square.
#[derive(Copy, Clone)]
pub struct Snail;

impl Snail {
    pub fn name(&self) -> (r: String)
        ensures
            r@ == "Snail"@,
    {
        "Snail".to_owned()
    }

    /// The fully determined single-step move: the first amazon in scan
    /// order that can step, its scan-order-first empty neighbor, and the
    /// arrow fired back into the vacated origin square.
    pub fn find_move(&mut self, state: &GameState) -> (r: Move)
        requires
            state.wf(),
            !finished(state.board@, state.turn),
        ensures
            r.wf(),
            move_legal(state.board@, state.turn, r),
            r.arrow == r.from,
            r.from.is_neighbor(r.to),
            first_free_amazon(state.board@, amazon_squares(state.board@, state.turn)) == Some(
                r.from,
            ),
            first_empty_neighbor(state.board@, r.from, r.to),
            *final(self) == *old(self),
    {
        snail_move(state, false)
    }

    pub fn dup(&self) -> (r: Self)
        ensures
            r == *self,
    {
        Snail
    }
}

/// The randomized snail: like `Snail`, but amazons and neighbor squares are
/// visited in shuffled order.
#[derive(Copy, Clone)]
pub struct RandomSnail;

impl RandomSnail {
    pub fn name(&self) -> (r: String)
        ensures
            r@ == "RandomSnail"@,
    {
        "RandomSnail".to_owned()
    }

    /// A legal single-step move found in shuffled order: one king step to
    /// an empty neighbor, with the arrow fired back into the vacated
    /// origin square.
    pub fn find_move(&mut self, state: &GameState) -> (r: Move)
        requires
            state.wf(),
            !finished(state.board@, state.turn),
        ensures
            r.wf(),
            move_legal(state.board@, state.turn, r),
            r.arrow == r.from,
            r.from.is_neighbor(r.to),
            *final(self) == *old(self),
    {
        snail_move(state, true)
    }

    pub fn dup(&self) -> (r: Self)
        ensures
            r == *self,
    {
        RandomSnail
    }
}

} // verus!
