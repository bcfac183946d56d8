use vstd::prelude::*;

use crate::player::Player;
use crate::pos::Pos;

verus! {

/// What a board square holds.
#[derive(PartialEq, Eq, Copy, Clone, Debug, Structural)]
pub enum Slot {
    Empty,
    Arrow,
    Amazon(Player),
}

impl Slot {
    pub fn is_empty(self) -> (r: bool)
        ensures
            r == (self == Slot::Empty),
    {
        matches!(self, Self::Empty)
    }
}

/// The flat index of a square in the board's cell sequence (column-major).
pub open spec fn sq(p: Pos) -> int {
    p.x * 10 + p.y
}

/// A well-formed square index round-trips through its position.
pub open spec fn pos_of(k: int) -> Pos {
    Pos { x: (k / 10) as u8, y: (k % 10) as u8 }
}

pub proof fn lemma_sq_pos_of(q: Pos)
    requires
        q.wf(),
    ensures
        0 <= sq(q) < 100,
        pos_of(sq(q)) == q,
{
    assert(sq(q) / 10 == q.x && sq(q) % 10 == q.y) by (nonlinear_arith)
        requires
            q.x < 10 && q.y < 10 && sq(q) == q.x * 10 + q.y,
    ;
}

pub proof fn lemma_pos_of_sq(k: int)
    requires
        0 <= k < 100,
    ensures
        pos_of(k).wf(),
        sq(pos_of(k)) == k,
{
    assert(0 <= k / 10 < 10 && 0 <= k % 10 < 10 && (k / 10) * 10 + k % 10 == k) by (
    nonlinear_arith)
        requires
            0 <= k < 100,
    ;
}

/// The ten-by-ten grid of squares.
#[derive(Debug)]
pub struct Board {
    cells: Vec<Slot>,
}

impl View for Board {
    type V = Seq<Slot>;

    closed spec fn view(&self) -> Seq<Slot> {
        self.cells@
    }
}

/// Every square strictly between `a` and `g` along the stepping walk,
/// together with `g` itself, is empty.
pub open spec fn line_clear(bd: Seq<Slot>, a: Pos, g: Pos) -> bool {
    forall|i: int| 0 <= i < a.path(g).len() ==> bd[sq(#[trigger] a.path(g)[i])] == Slot::Empty
}

/// No adjacent on-board square of `p` is empty.
pub open spec fn trapped(bd: Seq<Slot>, p: Pos) -> bool {
    forall|q: Pos| p.is_neighbor(q) ==> bd[sq(q)] != Slot::Empty
}

/// The positions holding `pl`'s amazons among the first `k` squares,
/// in column-major scan order.
pub open spec fn amazons_pre(bd: Seq<Slot>, pl: Player, k: int) -> Seq<Pos>
    decreases k,
{
    if k <= 0 {
        Seq::empty()
    } else {
        amazons_pre(bd, pl, k - 1) + (if bd[k - 1] == Slot::Amazon(pl) {
            seq![pos_of(k - 1)]
        } else {
            Seq::empty()
        })
    }
}

/// All positions of `pl`'s amazons, in column-major scan order.
pub open spec fn amazon_squares(bd: Seq<Slot>, pl: Player) -> Seq<Pos> {
    amazons_pre(bd, pl, 100)
}

/// Like `amazons_pre`, keeping only the amazons that can still move.
pub open spec fn movable_pre(bd: Seq<Slot>, pl: Player, k: int) -> Seq<Pos>
    decreases k,
{
    if k <= 0 {
        Seq::empty()
    } else {
        movable_pre(bd, pl, k - 1) + (if bd[k - 1] == Slot::Amazon(pl) && !trapped(
            bd,
            pos_of(k - 1),
        ) {
            seq![pos_of(k - 1)]
        } else {
            Seq::empty()
        })
    }
}

/// All positions of `pl`'s amazons that have an empty adjacent square.
pub open spec fn movable_squares(bd: Seq<Slot>, pl: Player) -> Seq<Pos> {
    movable_pre(bd, pl, 100)
}

impl Board {
    /// The board has exactly one slot per square.
    pub open spec fn wf(&self) -> bool {
        self@.len() == 100
    }

    /// An all-empty board.
    pub fn new_empty() -> (r: Self)
        ensures
            r.wf(),
            forall|k: int| 0 <= k < 100 ==> r@[k] == Slot::Empty,
    {
        let mut cells: Vec<Slot> = Vec::with_capacity(100);
        let mut i: usize = 0;
        while i < 100
            invariant
                i <= 100,
                cells@.len() == i,
                forall|k: int| 0 <= k < i ==> cells@[k] == Slot::Empty,
            decreases 100 - i,
        {
            cells.push(Slot::Empty);
            i = i + 1;
        }
        Board { cells }
    }

    pub fn contains(&self, pos: Pos) -> (r: bool)
        ensures
            r == pos.wf(),
    {
        pos.x < 10 && pos.y < 10
    }

    /// The slot at square `p`.
    pub fn at(&self, p: Pos) -> (r: Slot)
        requires
            self.wf(),
            p.wf(),
        ensures
            r == self@[sq(p)],
    {
        self.cells[p.x as usize * 10 + p.y as usize]
    }

    /// Overwrite the slot at square `p`.
    pub fn set(&mut self, p: Pos, s: Slot)
        requires
            old(self).wf(),
            p.wf(),
        ensures
            final(self)@ == old(self)@.update(sq(p), s),
            final(self).wf(),
    {
        self.cells.set(p.x as usize * 10 + p.y as usize, s);
    }

    /// Whether every square of the stepping walk from `a` (exclusive)
    /// to `b` (inclusive) is empty.
    pub fn is_all_empty(&self, a: Pos, b: Pos) -> (r: bool)
        requires
            self.wf(),
            a.wf(),
            b.wf(),
        ensures
            r == line_clear(self@, a, b),
    {
        proof {
            crate::pos::lemma_path_shape(a, b);
        }
        let pts = a.to(b);
        let mut i: usize = 0;
        while i < pts.len()
            invariant
                self.wf(),
                a.wf(),
                b.wf(),
                pts@ == a.path(b),
                i <= pts@.len(),
                forall|k: int| 0 <= k < a.path(b).len() ==> (#[trigger] a.path(b)[k]).wf(),
                forall|k: int| 0 <= k < i ==> self@[sq(#[trigger] a.path(b)[k])] == Slot::Empty,
            decreases pts@.len() - i,
        {
            if !self.at(pts[i]).is_empty() {
                return false;
            }
            i = i + 1;
        }
        true
    }

    /// Whether `p` has no empty adjacent square.
    pub fn is_trapped(&self, p: Pos) -> (r: bool)
        requires
            self.wf(),
            p.wf(),
        ensures
            r == trapped(self@, p),
    {
        let nbs = p.neighbors();
        let mut i: usize = 0;
        while i < nbs.len()
            invariant
                self.wf(),
                p.wf(),
                forall|q: Pos| nbs@.contains(q) <==> p.is_neighbor(q),
                forall|k: int| 0 <= k < nbs@.len() ==> p.is_neighbor(#[trigger] nbs@[k]),
                i <= nbs@.len(),
                forall|k: int| 0 <= k < i ==> self@[sq(#[trigger] nbs@[k])] != Slot::Empty,
            decreases nbs@.len() - i,
        {
            if self.at(nbs[i]).is_empty() {
                proof {
                    assert(!trapped(self@, p)) by {
                        assert(p.is_neighbor(nbs@[i as int]));
                    }
                }
                return false;
            }
            i = i + 1;
        }
        proof {
            assert forall|q: Pos| p.is_neighbor(q) implies self@[sq(q)] != Slot::Empty by {
                assert(nbs@.contains(q));
                let k = choose|k: int| 0 <= k < nbs@.len() && nbs@[k] == q;
                assert(self@[sq(nbs@[k])] != Slot::Empty);
            }
        }
        true
    }

    /// The positions of `player`'s amazons, in column-major scan order.
    pub fn find_amazons(&self, player: Player) -> (r: Vec<Pos>)
        requires
            self.wf(),
        ensures
            r@ == amazon_squares(self@, player),
    {
        let mut res: Vec<Pos> = Vec::with_capacity(4);
        let mut k: usize = 0;
        while k < 100
            invariant
                self.wf(),
                k <= 100,
                res@ == amazons_pre(self@, player, k as int),
            decreases 100 - k,
        {
            proof {
                lemma_pos_of_sq(k as int);
            }
            let p = Pos { x: (k / 10) as u8, y: (k % 10) as u8 };
            proof {
                assert(p == pos_of(k as int));
            }
            if self.at(p) == Slot::Amazon(player) {
                res.push(p);
                proof {
                    assert(res@ =~= amazons_pre(self@, player, k + 1));
                }
            } else {
                proof {
                    assert(res@ =~= amazons_pre(self@, player, k + 1));
                }
            }
            k = k + 1;
        }
        res
    }

    /// The positions of `player`'s amazons that can still move,
    /// in column-major scan order.
    pub fn find_movable(&self, player: Player) -> (r: Vec<Pos>)
        requires
            self.wf(),
        ensures
            r@ == movable_squares(self@, player),
    {
        let mut res: Vec<Pos> = Vec::with_capacity(4);
        let mut k: usize = 0;
        while k < 100
            invariant
                self.wf(),
                k <= 100,
                res@ == movable_pre(self@, player, k as int),
            decreases 100 - k,
        {
            proof {
                lemma_pos_of_sq(k as int);
            }
            let p = Pos { x: (k / 10) as u8, y: (k % 10) as u8 };
            proof {
                assert(p == pos_of(k as int));
            }
            if self.at(p) == Slot::Amazon(player) && !self.is_trapped(p) {
                res.push(p);
                proof {
                    assert(res@ =~= movable_pre(self@, player, k + 1));
                }
            } else {
                proof {
                    assert(res@ =~= movable_pre(self@, player, k + 1));
                }
            }
            k = k + 1;
        }
        res
    }
}

impl PartialEq for Board {
    /// Two boards are equal when every square agrees.
    fn eq(&self, other: &Self) -> (r: bool) {
        if self.cells.len() != other.cells.len() {
            return false;
        }
        let mut i: usize = 0;
        while i < self.cells.len()
            invariant
                self.cells@.len() == other.cells@.len(),
                i <= self.cells@.len(),
                forall|k: int| 0 <= k < i ==> self.cells@[k] == other.cells@[k],
            decreases self.cells@.len() - i,
        {
            if self.cells[i] != other.cells[i] {
                return false;
            }
            i = i + 1;
        }
        proof {
            assert(self.cells@ =~= other.cells@);
        }
        true
    }
}

impl vstd::std_specs::cmp::PartialEqSpecImpl for Board {
    open spec fn obeys_eq_spec() -> bool {
        true
    }

    open spec fn eq_spec(&self, other: &Self) -> bool {
        self@ == other@
    }
}

impl Clone for Board {
    /// A clone holds exactly the same slots.
    fn clone(&self) -> (r: Self)
        ensures
            r@ == self@,
    {
        let r = Board { cells: self.cells.clone() };
        proof {
            assert(r@ =~= self@);
        }
        r
    }
}

/// Every listed amazon position is on the board and holds an amazon of `pl`.
pub proof fn lemma_amazons_pre_elems(bd: Seq<Slot>, pl: Player, k: int)
    requires
        k <= 100,
    ensures
        forall|i: int|
            0 <= i < amazons_pre(bd, pl, k).len() ==> {
                let q = #[trigger] amazons_pre(bd, pl, k)[i];
                q.wf() && bd[sq(q)] == Slot::Amazon(pl)
            },
    decreases k,
{
    if k > 0 {
        lemma_amazons_pre_elems(bd, pl, k - 1);
        if bd[k - 1] == Slot::Amazon(pl) {
            lemma_pos_of_sq(k - 1);
        }
    }
}

/// The scan over `k` squares lists at most `k` amazons.
pub proof fn lemma_amazons_pre_len(bd: Seq<Slot>, pl: Player, k: int)
    ensures
        amazons_pre(bd, pl, k).len() <= if k >= 0 {
            k
        } else {
            0
        },
    decreases k,
{
    if k > 0 {
        lemma_amazons_pre_len(bd, pl, k - 1);
    }
}

/// Every square holding an amazon of `pl` appears in the listing.
pub proof fn lemma_amazons_pre_complete(bd: Seq<Slot>, pl: Player, k: int, m: int)
    requires
        0 <= m < k <= 100,
        bd[m] == Slot::Amazon(pl),
    ensures
        amazons_pre(bd, pl, k).contains(pos_of(m)),
    decreases k,
{
    if m == k - 1 {
        let s = amazons_pre(bd, pl, k);
        assert(s[s.len() - 1] == pos_of(m));
    } else {
        lemma_amazons_pre_complete(bd, pl, k - 1, m);
        let s0 = amazons_pre(bd, pl, k - 1);
        let i = choose|i: int| 0 <= i < s0.len() && s0[i] == pos_of(m);
        assert(amazons_pre(bd, pl, k)[i] == pos_of(m));
    }
}

/// Every listed movable position is an untrapped amazon of `pl`.
pub proof fn lemma_movable_pre_elems(bd: Seq<Slot>, pl: Player, k: int)
    requires
        k <= 100,
    ensures
        forall|i: int|
            0 <= i < movable_pre(bd, pl, k).len() ==> {
                let q = #[trigger] movable_pre(bd, pl, k)[i];
                q.wf() && bd[sq(q)] == Slot::Amazon(pl) && !trapped(bd, q)
            },
    decreases k,
{
    if k > 0 {
        lemma_movable_pre_elems(bd, pl, k - 1);
        if bd[k - 1] == Slot::Amazon(pl) && !trapped(bd, pos_of(k - 1)) {
            lemma_pos_of_sq(k - 1);
        }
    }
}

/// Every untrapped amazon square appears in the movable listing.
pub proof fn lemma_movable_pre_complete(bd: Seq<Slot>, pl: Player, k: int, m: int)
    requires
        0 <= m < k <= 100,
        bd[m] == Slot::Amazon(pl),
        !trapped(bd, pos_of(m)),
    ensures
        movable_pre(bd, pl, k).contains(pos_of(m)),
    decreases k,
{
    if m == k - 1 {
        let s = movable_pre(bd, pl, k);
        assert(s[s.len() - 1] == pos_of(m));
    } else {
        lemma_movable_pre_complete(bd, pl, k - 1, m);
        let s0 = movable_pre(bd, pl, k - 1);
        let i = choose|i: int| 0 <= i < s0.len() && s0[i] == pos_of(m);
        assert(movable_pre(bd, pl, k)[i] == pos_of(m));
    }
}

} // verus!
