use vstd::prelude::*;

verus! {

/// A square of the ten-by-ten board, addressed by column `x` and row `y`.
#[derive(Copy, Clone, Debug, PartialEq, Eq, Structural)]
pub struct Pos {
    pub x: u8,
    pub y: u8,
}

pub open spec fn abs_val(a: int, b: int) -> int {
    if a >= b {
        a - b
    } else {
        b - a
    }
}

/// `a` comes strictly before `b` in column-major scan order.
pub open spec fn lex_before(a: Pos, b: Pos) -> bool {
    a.x < b.x || (a.x == b.x && a.y < b.y)
}

impl Pos {
    /// Both coordinates lie on the board.
    pub open spec fn wf(self) -> bool {
        self.x < 10 && self.y < 10
    }

    /// Chebyshev distance: the number of queen steps between two squares on a line.
    pub open spec fn cheb(self, other: Self) -> int {
        let dx = abs_val(self.x as int, other.x as int);
        let dy = abs_val(self.y as int, other.y as int);
        if dx >= dy {
            dx
        } else {
            dy
        }
    }

    pub fn distance_to(self, other: Self) -> (r: u8)
        ensures
            r as int == self.cheb(other),
    {
        let dx = if self.x >= other.x {
            self.x - other.x
        } else {
            other.x - self.x
        };
        let dy = if self.y >= other.y {
            self.y - other.y
        } else {
            other.y - self.y
        };
        if dx >= dy {
            dx
        } else {
            dy
        }
    }

    /// Two squares share a row, a column, or a diagonal.
    pub open spec fn aligned(self, other: Self) -> bool {
        let dx = abs_val(self.x as int, other.x as int);
        let dy = abs_val(self.y as int, other.y as int);
        dx == dy || dx == 0 || dy == 0
    }

    pub fn is_reachable(self, other: Self) -> (r: bool)
        ensures
            r == self.aligned(other),
    {
        let dx = if self.x >= other.x {
            self.x - other.x
        } else {
            other.x - self.x
        };
        let dy = if self.y >= other.y {
            self.y - other.y
        } else {
            other.y - self.y
        };
        dx == dy || dx == 0 || dy == 0
    }

    /// The square one king step closer to `goal` in each coordinate.
    pub open spec fn step_toward(self, goal: Self) -> Pos {
        Pos {
            x: if self.x < goal.x {
                (self.x + 1) as u8
            } else if self.x > goal.x {
                (self.x - 1) as u8
            } else {
                self.x
            },
            y: if self.y < goal.y {
                (self.y + 1) as u8
            } else if self.y > goal.y {
                (self.y - 1) as u8
            } else {
                self.y
            },
        }
    }

    pub fn towards(self, goal: Self) -> (r: Self)
        ensures
            r == self.step_toward(goal),
    {
        let x = if self.x < goal.x {
            self.x + 1
        } else if self.x > goal.x {
            self.x - 1
        } else {
            self.x
        };
        let y = if self.y < goal.y {
            self.y + 1
        } else if self.y > goal.y {
            self.y - 1
        } else {
            self.y
        };
        Pos { x, y }
    }

    /// The squares visited when stepping from `self` to `goal`:
    /// `self` is excluded, `goal` is included.
    pub open spec fn path(self, goal: Self) -> Seq<Pos>
        decreases self.cheb(goal),
    {
        if self == goal {
            Seq::empty()
        } else {
            seq![self.step_toward(goal)] + self.step_toward(goal).path(goal)
        }
    }

    /// The list of squares stepped through on the way to `goal`,
    /// excluding `self` and including `goal`.
    pub fn to(self, goal: Self) -> (r: Vec<Pos>)
        ensures
            r@ == self.path(goal),
    {
        let mut res: Vec<Pos> = Vec::new();
        let mut cur = self;
        while cur != goal
            invariant
                self.path(goal) == res@ + cur.path(goal),
            decreases cur.cheb(goal),
        {
            proof {
                assert(self.path(goal) == res@ + (seq![cur.step_toward(goal)] + cur.step_toward(
                    goal,
                ).path(goal)));
            }
            cur = cur.towards(goal);
            res.push(cur);
            proof {
                assert(self.path(goal) =~= res@ + cur.path(goal));
            }
        }
        proof {
            assert(self.path(goal) =~= res@);
        }
        res
    }

    /// `other` is a distinct square at most one king step away, on the board.
    pub open spec fn is_neighbor(self, other: Self) -> bool {
        &&& other.wf()
        &&& other != self
        &&& abs_val(self.x as int, other.x as int) <= 1
        &&& abs_val(self.y as int, other.y as int) <= 1
    }

    /// The on-board squares adjacent to `self`, each exactly once, in
    /// strictly ascending column-major scan order.
    pub fn neighbors(self) -> (r: Vec<Self>)
        requires
            self.wf(),
        ensures
            forall|q: Pos| r@.contains(q) <==> self.is_neighbor(q),
            forall|i: int| 0 <= i < r@.len() ==> self.is_neighbor(#[trigger] r@[i]),
            forall|i: int, j: int|
                #![trigger r@[i], r@[j]]
                0 <= i < j < r@.len() ==> lex_before(r@[i], r@[j]),
            forall|i: int, j: int| #![trigger r@[i], r@[j]] 0 <= i < j < r@.len() ==> r@[i] != r@[j],
    {
        let mut res: Vec<Pos> = Vec::with_capacity(8);
        let lo_x = if self.x >= 1 {
            self.x - 1
        } else {
            0
        };
        let hi_x = if self.x + 2 <= 10 {
            self.x + 2
        } else {
            10
        };
        let lo_y = if self.y >= 1 {
            self.y - 1
        } else {
            0
        };
        let hi_y = if self.y + 2 <= 10 {
            self.y + 2
        } else {
            10
        };
        let mut x = lo_x;
        while x < hi_x
            invariant
                self.wf(),
                lo_x == if self.x >= 1 { self.x - 1 } else { 0 },
                hi_x == if self.x + 2 <= 10 { self.x + 2 } else { 10 },
                lo_y == if self.y >= 1 { self.y - 1 } else { 0 },
                hi_y == if self.y + 2 <= 10 { self.y + 2 } else { 10 },
                lo_x <= x <= hi_x,
                forall|q: Pos|
                    res@.contains(q) <==> (self.is_neighbor(q) && q.x < x),
                forall|i: int| 0 <= i < res@.len() ==> self.is_neighbor(#[trigger] res@[i]),
                forall|i: int, j: int|
                    #![trigger res@[i], res@[j]]
                    0 <= i < j < res@.len() ==> lex_before(res@[i], res@[j]),
            decreases hi_x - x,
        {
            let mut y = lo_y;
            while y < hi_y
                invariant
                    self.wf(),
                    lo_x == if self.x >= 1 { self.x - 1 } else { 0 },
                    hi_x == if self.x + 2 <= 10 { self.x + 2 } else { 10 },
                    lo_y == if self.y >= 1 { self.y - 1 } else { 0 },
                    hi_y == if self.y + 2 <= 10 { self.y + 2 } else { 10 },
                    lo_x <= x < hi_x,
                    lo_y <= y <= hi_y,
                    forall|q: Pos|
                        res@.contains(q) <==> (self.is_neighbor(q) && (q.x < x || (q.x == x && q.y
                            < y))),
                    forall|i: int| 0 <= i < res@.len() ==> self.is_neighbor(#[trigger] res@[i]),
                    forall|i: int, j: int|
                        #![trigger res@[i], res@[j]]
                        0 <= i < j < res@.len() ==> lex_before(res@[i], res@[j]),
                decreases hi_y - y,
            {
                let p = Pos { x, y };
                let ghost prev = res@;
                if p != self {
                    res.push(p);
                }
                proof {
                    assert forall|q: Pos|
                        res@.contains(q) implies (self.is_neighbor(q) && (q.x < x || (q.x == x
                        && q.y <= y))) by {
                        let i = choose|i: int| 0 <= i < res@.len() && res@[i] == q;
                        if i < prev.len() {
                            assert(prev.contains(q)) by {
                                assert(prev[i] == q);
                            }
                        } else {
                            assert(q == p);
                        }
                    }
                    assert forall|q: Pos|
                        (self.is_neighbor(q) && (q.x < x || (q.x == x && q.y <= y))) implies res@
                        .contains(q) by {
                        if q.x < x || (q.x == x && q.y < y) {
                            let i = choose|i: int| 0 <= i < prev.len() && prev[i] == q;
                            assert(res@[i] == q);
                        } else {
                            assert(q == p);
                            assert(res@[res@.len() - 1] == q);
                        }
                    }
                    assert forall|i: int, j: int|
                        #![trigger res@[i], res@[j]]
                        0 <= i < j < res@.len() implies lex_before(res@[i], res@[j]) by {
                        if j < prev.len() {
                            assert(prev[i] == res@[i] && prev[j] == res@[j]);
                        } else if res@.len() > prev.len() {
                            // the newly pushed square follows every earlier one in scan order
                            assert(res@[j] == p);
                            assert(prev.contains(prev[i]));
                            assert(prev[i].x < x || (prev[i].x == x && prev[i].y < y));
                        }
                    }
                }
                y = y + 1;
            }
            x = x + 1;
        }
        res
    }
}

/// Every square on the walk between two on-board squares is itself on the board,
/// the walk has exactly Chebyshev-distance many squares, and (when the squares
/// differ) it ends at the goal.
pub proof fn lemma_path_shape(a: Pos, b: Pos)
    requires
        a.wf(),
        b.wf(),
    ensures
        a.path(b).len() == a.cheb(b),
        forall|i: int| 0 <= i < a.path(b).len() ==> (#[trigger] a.path(b)[i]).wf(),
        a != b ==> a.path(b)[a.path(b).len() - 1] == b,
    decreases a.cheb(b),
{
    if a == b {
    } else {
        let s = a.step_toward(b);
        lemma_path_shape(s, b);
        assert forall|i: int| 0 <= i < a.path(b).len() implies (#[trigger] a.path(b)[i]).wf() by {
            if i == 0 {
                assert(a.path(b)[0] == s);
            } else {
                assert(a.path(b)[i] == s.path(b)[i - 1]);
            }
        }
        if s != b {
            assert(a.path(b)[a.path(b).len() - 1] == s.path(b)[s.path(b).len() - 1]);
        }
    }
}

} // verus!
