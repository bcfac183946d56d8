use vstd::prelude::*;

use crate::board::{amazon_squares, lemma_amazons_pre_elems, lemma_amazons_pre_len, Board, Slot};
use crate::player::Player;
use crate::pos::Pos;
use crate::rays::reach_total;

verus! {

/// The score type of board evaluations.
pub type Value = i32;

/// Sentinel score for a side with no reachable square at all.
pub const MIN_VAL: Value = -i32::MAX;

/// Sentinel score for a position where the enemy has no reachable square.
pub const MAX_VAL: Value = i32::MAX;

/// Total number of empty squares reachable from each position of `s`.
pub open spec fn reach_sum(bd: Seq<Slot>, s: Seq<Pos>) -> int
    decreases s.len(),
{
    if s.len() == 0 {
        0
    } else {
        reach_sum(bd, s.drop_last()) + reach_total(bd, s.last())
    }
}

/// The mobility of `pl`: empty squares reachable from its amazons, summed.
pub open spec fn player_total(bd: Seq<Slot>, pl: Player) -> int {
    reach_sum(bd, amazon_squares(bd, pl))
}

/// The mobility-differential score of `bd` from `pl`'s perspective, with
/// the sentinel values for an immobile side.
pub open spec fn eval_value(pl: Player, bd: Seq<Slot>) -> int {
    let mine = player_total(bd, pl);
    let theirs = player_total(bd, pl.enemy_spec());
    if mine == 0 {
        MIN_VAL as int
    } else if theirs == 0 {
        MAX_VAL as int
    } else {
        mine - theirs
    }
}

/// The mobility-differential board evaluator.
#[derive(Copy, Clone)]
pub struct Reachability;

fn eval_player(player: Player, board: &Board) -> (r: Value)
    requires
        board.wf(),
    ensures
        r == player_total(board@, player),
        0 <= r <= 7200,
{
    let amz = board.find_amazons(player);
    proof {
        lemma_amazons_pre_elems(board@, player, 100);
        lemma_amazons_pre_len(board@, player, 100);
    }
    let mut acc: i32 = 0;
    let mut i: usize = 0;
    while i < amz.len()
        invariant
            board.wf(),
            amz@ == amazon_squares(board@, player),
            amz@.len() <= 100,
            forall|k: int| 0 <= k < amz@.len() ==> (#[trigger] amz@[k]).wf(),
            i <= amz@.len(),
            acc == reach_sum(board@, amz@.take(i as int)),
            0 <= acc <= 72 * i,
        decreases amz@.len() - i,
    {
        let c = board.reach_count(amz[i]);
        acc = acc + c as i32;
        i = i + 1;
        proof {
            assert(amz@.take(i as int).drop_last() =~= amz@.take(i - 1));
            assert(amz@.take(i as int).last() == amz@[i - 1]);
        }
    }
    proof {
        assert(amz@.take(amz@.len() as int) =~= amz@);
    }
    acc
}

impl Reachability {
    pub fn name(&self) -> (r: String)
        ensures
            r@ == "Reachability"@,
    {
        "Reachability".to_owned()
    }

    /// Score `board` from `player`'s perspective: own mobility minus enemy
    /// mobility, or a sentinel when either side is immobile. An ordinary
    /// score never exceeds 7200 in magnitude (at most 100 amazons reaching
    /// at most 72 squares each), so the sentinels are distinguishable from
    /// ordinary scores by magnitude alone.
    pub fn eval(&self, player: Player, board: &Board) -> (r: Value)
        requires
            board.wf(),
        ensures
            r == eval_value(player, board@),
            MIN_VAL <= r <= MAX_VAL,
            r == MIN_VAL || r == MAX_VAL || -7200 <= r <= 7200,
    {
        let me_val = eval_player(player, board);
        let enemy_val = eval_player(player.enemy(), board);

        if me_val == 0 {
            MIN_VAL
        } else if enemy_val == 0 {
            MAX_VAL
        } else {
            me_val - enemy_val
        }
    }
}

} // verus!
