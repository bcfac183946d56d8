use vstd::prelude::*;

use crate::board::{line_clear, movable_squares, sq, trapped, Board, Slot};
use crate::board::{lemma_movable_pre_elems, lemma_sq_pos_of, pos_of};
use crate::player::Player;
use crate::pos::Pos;
use crate::rays::{far_squares, fars_pre, off_pos, off_x, off_y, on_board, ray};
use crate::rays::{
    lemma_neighbor_dir, lemma_off_pos_props, lemma_path_along_ray, lemma_ray_cells,
    lemma_ray_first,
};
use crate::rng::random_below;
use crate::state::{finished, lemma_unfinished_movable, move_legal, vacated, GameState, Move};

verus! {

/// `q` lies a positive number of steps out on an empty run from `p`.
pub open spec fn ray_reachable(bd: Seq<Slot>, p: Pos, q: Pos) -> bool {
    exists|j: int, k: int| 0 <= j < 8 && 1 <= k <= ray(bd, p, j) && q == off_pos(p, j, k)
}

/// A square on an empty run is a distinct aligned on-board square, and the
/// whole walk to it is clear — also after the origin square is vacated.
pub proof fn lemma_ray_reachable_props(bd: Seq<Slot>, p: Pos, q: Pos)
    requires
        bd.len() == 100,
        p.wf(),
        ray_reachable(bd, p, q),
    ensures
        q.wf(),
        q != p,
        p.aligned(q),
        line_clear(bd, p, q),
        line_clear(bd.update(sq(p), Slot::Empty), p, q),
{
    let (j, k): (int, int) = choose|j: int, k: int|
        0 <= j < 8 && 1 <= k <= ray(bd, p, j) && q == off_pos(p, j, k);
    lemma_ray_cells(bd, p, j);
    lemma_off_pos_props(p, j, k);
    lemma_path_along_ray(p, j, k);
    lemma_sq_pos_of(p);
    assert forall|i: int| 0 <= i < p.path(q).len() implies bd[sq(#[trigger] p.path(q)[i])]
        == Slot::Empty && bd.update(sq(p), Slot::Empty)[sq(p.path(q)[i])] == Slot::Empty by {
        let e = p.path(q)[i];
        assert(e == off_pos(p, j, i + 1));
        assert(on_board(off_x(p, j, i + 1), off_y(p, j, i + 1)));
        lemma_off_pos_props(p, j, i + 1);
        assert(e.x as int == off_x(p, j, i + 1) && e.y as int == off_y(p, j, i + 1));
        assert(sq(e) == off_x(p, j, i + 1) * 10 + off_y(p, j, i + 1));
        lemma_sq_pos_of(e);
        assert(e != p);
        assert(sq(e) != sq(p)) by {
            assert(pos_of(sq(e)) == e && pos_of(sq(p)) == p);
        }
    }
}

/// Vacating the origin square cannot trap a square that an empty run from
/// the origin reaches: the previous square of the walk is an empty neighbor.
pub proof fn lemma_vacated_untrapped(bd: Seq<Slot>, p: Pos, q: Pos)
    requires
        bd.len() == 100,
        p.wf(),
        ray_reachable(bd, p, q),
    ensures
        !trapped(bd.update(sq(p), Slot::Empty), q),
{
    let b2 = bd.update(sq(p), Slot::Empty);
    let (j, k): (int, int) = choose|j: int, k: int|
        0 <= j < 8 && 1 <= k <= ray(bd, p, j) && q == off_pos(p, j, k);
    lemma_ray_cells(bd, p, j);
    lemma_off_pos_props(p, j, k);
    lemma_sq_pos_of(p);
    if k == 1 {
        assert(q.is_neighbor(p));
        assert(b2[sq(p)] == Slot::Empty);
        assert(!trapped(b2, q));
    } else {
        let e = off_pos(p, j, k - 1);
        lemma_off_pos_props(p, j, k - 1);
        lemma_sq_pos_of(e);
        assert(bd[off_x(p, j, k - 1) * 10 + off_y(p, j, k - 1)] == Slot::Empty);
        assert(sq(e) == off_x(p, j, k - 1) * 10 + off_y(p, j, k - 1));
        assert(sq(e) != sq(p)) by {
            assert(e != p);
        }
        assert(b2[sq(e)] == Slot::Empty);
        assert(q.is_neighbor(e)) by {
            crate::rays::lemma_adjacent_offsets(p, j, k);
        }
        assert(!trapped(b2, q));
    }
}

/// Each farthest-square entry is the end of some non-empty run.
proof fn lemma_fars_elems(bd: Seq<Slot>, p: Pos, j: int)
    requires
        0 <= j <= 8,
    ensures
        forall|i: int|
            0 <= i < fars_pre(bd, p, j).len() ==> exists|d: int|
                0 <= d < j && ray(bd, p, d) >= 1 && #[trigger] fars_pre(bd, p, j)[i] == off_pos(
                    p,
                    d,
                    ray(bd, p, d) as int,
                ),
    decreases j,
{
    if j > 0 {
        lemma_fars_elems(bd, p, j - 1);
        assert forall|i: int| 0 <= i < fars_pre(bd, p, j).len() implies exists|d: int|
            0 <= d < j && ray(bd, p, d) >= 1 && #[trigger] fars_pre(bd, p, j)[i] == off_pos(
                p,
                d,
                ray(bd, p, d) as int,
            ) by {
            if i < fars_pre(bd, p, j - 1).len() {
                assert(fars_pre(bd, p, j)[i] == fars_pre(bd, p, j - 1)[i]);
                let d0 = choose|d: int|
                    0 <= d < j - 1 && ray(bd, p, d) >= 1 && fars_pre(bd, p, j - 1)[i] == off_pos(
                        p,
                        d,
                        ray(bd, p, d) as int,
                    );
                assert(0 <= d0 < j && ray(bd, p, d0) >= 1 && fars_pre(bd, p, j)[i] == off_pos(
                    p,
                    d0,
                    ray(bd, p, d0) as int,
                ));
            } else {
                assert(ray(bd, p, j - 1) >= 1 && fars_pre(bd, p, j)[i] == off_pos(
                    p,
                    j - 1,
                    ray(bd, p, j - 1) as int,
                ));
            }
        }
    }
}

/// The farthest-square listing grows with the number of directions scanned.
proof fn lemma_fars_mono(bd: Seq<Slot>, p: Pos, a: int, b: int)
    requires
        a <= b,
    ensures
        fars_pre(bd, p, a).len() <= fars_pre(bd, p, b).len(),
    decreases b - a,
{
    if a < b {
        lemma_fars_mono(bd, p, a, b - 1);
    }
}

/// A square with at least one empty run has a farthest reachable square.
proof fn lemma_far_nonempty(bd: Seq<Slot>, p: Pos, j: int)
    requires
        0 <= j < 8,
        ray(bd, p, j) >= 1,
    ensures
        far_squares(bd, p).len() >= 1,
{
    assert(fars_pre(bd, p, j + 1).len() >= 1);
    lemma_fars_mono(bd, p, j + 1, 8);
}

/// Sample a square reachable from `pos` along some empty run, weighting each
/// run by its length: expand every farthest square into its full walk and
/// pick uniformly over the union.
fn sample_step(board: &Board, pos: Pos) -> (r: Pos)
    requires
        board.wf(),
        pos.wf(),
        !trapped(board@, pos),
    ensures
        ray_reachable(board@, pos, r),
{
    proof {
        let q = choose|q: Pos| pos.is_neighbor(q) && board@[sq(q)] == Slot::Empty;
        assert(pos.is_neighbor(q) && board@[sq(q)] == Slot::Empty);
        lemma_neighbor_dir(pos, q);
        let j = choose|j: int|
            0 <= j < 8 && q == off_pos(pos, j, 1) && on_board(off_x(pos, j, 1), off_y(pos, j, 1));
        lemma_off_pos_props(pos, j, 1);
        lemma_sq_pos_of(q);
        assert(board@[off_x(pos, j, 1) * 10 + off_y(pos, j, 1)] == Slot::Empty);
        lemma_ray_first(board@, pos, j);
        lemma_far_nonempty(board@, pos, j);
    }
    let far = board.reachable_from(pos);
    let mut targets: Vec<Pos> = Vec::new();
    let mut fi: usize = 0;
    while fi < far.len()
        invariant
            board.wf(),
            pos.wf(),
            far@ == far_squares(board@, pos),
            fi <= far@.len(),
            targets@.len() >= fi,
            forall|i: int|
                0 <= i < targets@.len() ==> ray_reachable(board@, pos, #[trigger] targets@[i]),
        decreases far@.len() - fi,
    {
        let f = far[fi];
        proof {
            lemma_fars_elems(board@, pos, 8);
            let d = choose|d: int|
                0 <= d < 8 && ray(board@, pos, d) >= 1 && f == off_pos(
                    pos,
                    d,
                    ray(board@, pos, d) as int,
                );
            let n = ray(board@, pos, d) as int;
            lemma_ray_cells(board@, pos, d);
            lemma_off_pos_props(pos, d, n);
            lemma_path_along_ray(pos, d, n);
            assert forall|i: int| 0 <= i < pos.path(f).len() implies ray_reachable(
                board@,
                pos,
                #[trigger] pos.path(f)[i],
            ) by {
                assert(pos.path(f)[i] == off_pos(pos, d, i + 1));
                assert(1 <= i + 1 <= ray(board@, pos, d));
            }
            assert(pos.path(f).len() == n >= 1);
        }
        let mut pts = pos.to(f);
        targets.append(&mut pts);
        fi = fi + 1;
    }
    let idx = random_below(targets.len());
    targets[idx]
}

/// The uniformly random strategy: pick a movable amazon at random, then a
/// destination weighted by open run length, then an arrow square likewise
/// on the board with the origin vacated.
#[derive(Copy, Clone)]
pub struct Random;

impl Random {
    pub fn name(&self) -> (r: String)
        ensures
            r@ == "True Random"@,
    {
        "True Random".to_owned()
    }

    /// Produce a uniformly sampled legal move for the side to move: its
    /// origin is a movable amazon, its destination lies on an empty run
    /// from the origin, and its arrow square lies on an empty run from the
    /// destination once the origin is vacated.
    pub fn find_move(&mut self, state: &GameState) -> (r: Move)
        requires
            state.wf(),
            !finished(state.board@, state.turn),
        ensures
            r.wf(),
            move_legal(state.board@, state.turn, r),
            movable_squares(state.board@, state.turn).contains(r.from),
            ray_reachable(state.board@, r.from, r.to),
            ray_reachable(vacated(state.board@, r), r.to, r.arrow),
            *final(self) == *old(self),
    {
        proof {
            lemma_unfinished_movable(state.board@, state.turn);
            lemma_movable_pre_elems(state.board@, state.turn, 100);
        }
        let amazons = state.find_movable_amazons();
        let idx = random_below(amazons.len());
        let amazon = amazons[idx];
        assert(amazon.wf() && state.board@[sq(amazon)] == Slot::Amazon(state.turn) && !trapped(
            state.board@,
            amazon,
        ));

        let mut board = state.board.clone();
        let target = sample_step(&board, amazon);
        proof {
            lemma_ray_reachable_props(state.board@, amazon, target);
            lemma_vacated_untrapped(state.board@, amazon, target);
        }
        board.set(amazon, Slot::Empty);
        let arrow = sample_step(&board, target);
        proof {
            lemma_ray_reachable_props(board@, target, arrow);
        }

        let mov = Move { from: amazon, to: target, arrow };
        proof {
            assert(vacated(state.board@, mov) =~= board@);
            assert(movable_squares(state.board@, state.turn).contains(mov.from)) by {
                assert(movable_squares(state.board@, state.turn)[idx as int] == mov.from);
            }
        }
        mov
    }

    pub fn dup(&self) -> (r: Self)
        ensures
            r == *self,
    {
        Random
    }
}

} // verus!
