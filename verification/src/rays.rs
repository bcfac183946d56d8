use vstd::prelude::*;

use crate::board::{sq, Board, Slot};
use crate::pos::Pos;

verus! {

/// Column component of queen direction `j`, for `j` in `0..8`.
pub open spec fn dir_dx(j: int) -> int {
    if j == 0 {
        -1
    } else if j == 1 {
        -1
    } else if j == 2 {
        -1
    } else if j == 3 {
        0
    } else if j == 4 {
        0
    } else if j == 5 {
        1
    } else if j == 6 {
        1
    } else {
        1
    }
}

/// Row component of queen direction `j`, for `j` in `0..8`.
pub open spec fn dir_dy(j: int) -> int {
    if j == 0 {
        -1
    } else if j == 1 {
        0
    } else if j == 2 {
        1
    } else if j == 3 {
        -1
    } else if j == 4 {
        1
    } else if j == 5 {
        -1
    } else if j == 6 {
        0
    } else {
        1
    }
}

pub open spec fn on_board(x: int, y: int) -> bool {
    0 <= x < 10 && 0 <= y < 10
}

/// Column coordinate `k` queen steps from `p` along direction `j`.
pub open spec fn off_x(p: Pos, j: int, k: int) -> int {
    p.x + k * dir_dx(j)
}

/// Row coordinate `k` queen steps from `p` along direction `j`.
pub open spec fn off_y(p: Pos, j: int, k: int) -> int {
    p.y + k * dir_dy(j)
}

/// The square `k` queen steps from `p` along direction `j`.
pub open spec fn off_pos(p: Pos, j: int, k: int) -> Pos {
    Pos { x: off_x(p, j, k) as u8, y: off_y(p, j, k) as u8 }
}

/// How many consecutive squares starting one step from `(x, y)` along
/// direction `j` are on the board and empty, walking at most `fuel` steps.
pub open spec fn ray_from(bd: Seq<Slot>, x: int, y: int, j: int, fuel: nat) -> nat
    decreases fuel,
{
    if fuel == 0 {
        0
    } else {
        let nx = x + dir_dx(j);
        let ny = y + dir_dy(j);
        if on_board(nx, ny) && bd[nx * 10 + ny] == Slot::Empty {
            1 + ray_from(bd, nx, ny, j, (fuel - 1) as nat)
        } else {
            0
        }
    }
}

/// The length of the empty run from `p` along direction `j`.
pub open spec fn ray(bd: Seq<Slot>, p: Pos, j: int) -> nat {
    ray_from(bd, p.x as int, p.y as int, j, 10)
}

/// The total number of empty squares reachable from `p` over the first
/// `j` directions.
pub open spec fn rays_pre(bd: Seq<Slot>, p: Pos, j: int) -> int
    decreases j,
{
    if j <= 0 {
        0
    } else {
        rays_pre(bd, p, j - 1) + ray(bd, p, j - 1)
    }
}

/// The total number of empty squares reachable from `p` in any direction.
pub open spec fn reach_total(bd: Seq<Slot>, p: Pos) -> int {
    rays_pre(bd, p, 8)
}

/// The farthest empty reachable square per direction, over the first `j`
/// directions, skipping directions with no empty square.
pub open spec fn fars_pre(bd: Seq<Slot>, p: Pos, j: int) -> Seq<Pos>
    decreases j,
{
    if j <= 0 {
        Seq::empty()
    } else {
        fars_pre(bd, p, j - 1) + (if ray(bd, p, j - 1) > 0 {
            seq![off_pos(p, j - 1, ray(bd, p, j - 1) as int)]
        } else {
            Seq::empty()
        })
    }
}

/// The farthest empty reachable square in each direction that has one.
pub open spec fn far_squares(bd: Seq<Slot>, p: Pos) -> Seq<Pos> {
    fars_pre(bd, p, 8)
}

/// The unit step of direction `j`, as executable deltas.
fn dir_step(j: usize) -> (r: (i8, i8))
    requires
        j < 8,
    ensures
        r.0 as int == dir_dx(j as int),
        r.1 as int == dir_dy(j as int),
{
    match j {
        0 => (-1, -1),
        1 => (-1, 0),
        2 => (-1, 1),
        3 => (0, -1),
        4 => (0, 1),
        5 => (1, -1),
        6 => (1, 0),
        _ => (1, 1),
    }
}

impl Board {
    /// Walk from `p` along direction `j` while squares stay empty; return how
    /// many steps were taken and the final square reached.
    fn ray_walk(&self, p: Pos, j: usize) -> (r: (usize, Pos))
        requires
            self.wf(),
            p.wf(),
            j < 8,
        ensures
            r.0 == ray(self@, p, j as int),
            r.0 <= 9,
            r.1.x as int == off_x(p, j as int, r.0 as int),
            r.1.y as int == off_y(p, j as int, r.0 as int),
            r.1.wf(),
    {
        let (dx, dy) = dir_step(j);
        let mut cx = p.x;
        let mut cy = p.y;
        let mut count: usize = 0;
        loop
            invariant
                self.wf(),
                p.wf(),
                j < 8,
                dx as int == dir_dx(j as int),
                dy as int == dir_dy(j as int),
                count <= 9,
                cx < 10,
                cy < 10,
                cx as int == off_x(p, j as int, count as int),
                cy as int == off_y(p, j as int, count as int),
                ray(self@, p, j as int) == count + ray_from(
                    self@,
                    cx as int,
                    cy as int,
                    j as int,
                    (10 - count) as nat,
                ),
            ensures
                count == ray(self@, p, j as int),
                cx as int == off_x(p, j as int, count as int),
                cy as int == off_y(p, j as int, count as int),
                cx < 10,
                cy < 10,
                count <= 9,
            decreases 10 - count,
        {
            let nx = cx as i16 + dx as i16;
            let ny = cy as i16 + dy as i16;
            proof {
                assert((count + 1) * dir_dx(j as int) == count * dir_dx(j as int) + dir_dx(
                    j as int,
                )) by (nonlinear_arith);
                assert((count + 1) * dir_dy(j as int) == count * dir_dy(j as int) + dir_dy(
                    j as int,
                )) by (nonlinear_arith);
            }
            if 0 <= nx && nx < 10 && 0 <= ny && ny < 10 {
                let q = Pos { x: nx as u8, y: ny as u8 };
                if self.at(q).is_empty() {
                    proof {
                        // one more empty square extends the walk by a step
                        assert(count < 9);
                    }
                    cx = q.x;
                    cy = q.y;
                    count = count + 1;
                } else {
                    break ;
                }
            } else {
                break ;
            }
        }
        (count, Pos { x: cx, y: cy })
    }

    /// The farthest empty square reachable from `p` in each direction that
    /// has at least one empty square, in direction order.
    pub fn reachable_from(&self, p: Pos) -> (r: Vec<Pos>)
        requires
            self.wf(),
            p.wf(),
        ensures
            r@ == far_squares(self@, p),
    {
        let mut res: Vec<Pos> = Vec::new();
        let mut j: usize = 0;
        while j < 8
            invariant
                self.wf(),
                p.wf(),
                j <= 8,
                res@ == fars_pre(self@, p, j as int),
            decreases 8 - j,
        {
            let (count, far) = self.ray_walk(p, j);
            if count > 0 {
                proof {
                    assert(far == off_pos(p, j as int, ray(self@, p, j as int) as int));
                }
                res.push(far);
                proof {
                    assert(res@ =~= fars_pre(self@, p, j + 1));
                }
            } else {
                proof {
                    assert(res@ =~= fars_pre(self@, p, j + 1));
                }
            }
            j = j + 1;
        }
        res
    }

    /// The number of empty squares reachable from `p` in any direction.
    pub fn reach_count(&self, p: Pos) -> (r: usize)
        requires
            self.wf(),
            p.wf(),
        ensures
            r == reach_total(self@, p),
            r <= 72,
    {
        let mut acc: usize = 0;
        let mut j: usize = 0;
        while j < 8
            invariant
                self.wf(),
                p.wf(),
                j <= 8,
                acc == rays_pre(self@, p, j as int),
                acc <= 9 * j,
            decreases 8 - j,
        {
            let (count, _) = self.ray_walk(p, j);
            acc = acc + count;
            j = j + 1;
        }
        acc
    }
}

/// A square `k >= 1` steps out along an on-board ray is on the board, distinct
/// from the origin, aligned with it, and at Chebyshev distance exactly `k`.
pub proof fn lemma_off_pos_props(p: Pos, j: int, k: int)
    requires
        p.wf(),
        0 <= j < 8,
        k >= 1,
        on_board(off_x(p, j, k), off_y(p, j, k)),
    ensures
        off_pos(p, j, k).wf(),
        off_pos(p, j, k).x as int == off_x(p, j, k),
        off_pos(p, j, k).y as int == off_y(p, j, k),
        off_pos(p, j, k) != p,
        p.aligned(off_pos(p, j, k)),
        p.cheb(off_pos(p, j, k)) == k,
        k == 1 ==> p.is_neighbor(off_pos(p, j, k)),
{
    assert(off_pos(p, j, k).x as int == off_x(p, j, k));
    assert(off_pos(p, j, k).y as int == off_y(p, j, k));
    lemma_mul_unit(k, dir_dx(j));
    lemma_mul_unit(k, dir_dy(j));
}

/// Distribution facts about multiplication by a unit step count.
proof fn lemma_mul_dist(a: int, b: int)
    ensures
        (a + 1) * b == a * b + b,
        (a - 1) * b == a * b - b,
        1 * b == b,
{
    assert((a + 1) * b == a * b + b && (a - 1) * b == a * b - b && 1 * b == b) by (nonlinear_arith);
}

/// Multiplying by a direction component in `{-1, 0, 1}` negates, zeroes,
/// or keeps the count.
proof fn lemma_mul_unit(k: int, d: int)
    ensures
        d == 1 ==> k * d == k,
        d == -1 ==> k * d == -k,
        d == 0 ==> k * d == 0,
{
    assert((d == 1 ==> k * d == k) && (d == -1 ==> k * d == -k) && (d == 0 ==> k * d == 0)) by (
    nonlinear_arith);
}

/// The square `k` steps from `(x, y)` along direction `j` is on the board
/// and empty.
pub open spec fn run_cell(bd: Seq<Slot>, x: int, y: int, j: int, k: int) -> bool {
    on_board(x + k * dir_dx(j), y + k * dir_dy(j)) && bd[(x + k * dir_dx(j)) * 10 + (y + k
        * dir_dy(j))] == Slot::Empty
}

/// Every square along an empty run is on the board and empty.
proof fn lemma_ray_from_cells(bd: Seq<Slot>, x: int, y: int, j: int, fuel: nat)
    requires
        0 <= j < 8,
    ensures
        forall|k: int| 1 <= k <= ray_from(bd, x, y, j, fuel) ==> #[trigger] run_cell(bd, x, y, j, k),
    decreases fuel,
{
    if fuel > 0 {
        let dx = dir_dx(j);
        let dy = dir_dy(j);
        let nx = x + dx;
        let ny = y + dy;
        if on_board(nx, ny) && bd[nx * 10 + ny] == Slot::Empty {
            lemma_ray_from_cells(bd, nx, ny, j, (fuel - 1) as nat);
            assert forall|k: int| 1 <= k <= ray_from(bd, x, y, j, fuel) implies #[trigger] run_cell(
                bd,
                x,
                y,
                j,
                k,
            ) by {
                lemma_mul_dist(k, dx);
                lemma_mul_dist(k, dy);
                if k == 1 {
                    assert(x + 1 * dx == nx && y + 1 * dy == ny);
                } else {
                    assert(nx + (k - 1) * dx == x + k * dx && ny + (k - 1) * dy == y + k * dy);
                    assert(run_cell(bd, nx, ny, j, k - 1));
                }
            }
        }
    }
}

/// Every square along the empty run from `p` in direction `j` is on the
/// board and empty.
pub proof fn lemma_ray_cells(bd: Seq<Slot>, p: Pos, j: int)
    requires
        0 <= j < 8,
    ensures
        forall|k: int|
            1 <= k <= ray(bd, p, j) ==> on_board(off_x(p, j, k), #[trigger] off_y(p, j, k))
                && bd[off_x(p, j, k) * 10 + off_y(p, j, k)] == Slot::Empty,
{
    lemma_ray_from_cells(bd, p.x as int, p.y as int, j, 10);
    assert forall|k: int| 1 <= k <= ray(bd, p, j) implies on_board(
        off_x(p, j, k),
        #[trigger] off_y(p, j, k),
    ) && bd[off_x(p, j, k) * 10 + off_y(p, j, k)] == Slot::Empty by {
        assert(run_cell(bd, p.x as int, p.y as int, j, k));
    }
}

/// The empty run from `p` in direction `j` starts exactly when the adjacent
/// square in that direction is on the board and empty.
pub proof fn lemma_ray_first(bd: Seq<Slot>, p: Pos, j: int)
    requires
        0 <= j < 8,
    ensures
        ray(bd, p, j) >= 1 <==> (on_board(off_x(p, j, 1), off_y(p, j, 1)) && bd[off_x(p, j, 1) * 10
            + off_y(p, j, 1)] == Slot::Empty),
{
    lemma_mul_dist(0, dir_dx(j));
    lemma_mul_dist(0, dir_dy(j));
}

/// A distinct adjacent square is one queen step out along some direction.
pub proof fn lemma_neighbor_dir(p: Pos, q: Pos)
    requires
        p.is_neighbor(q),
    ensures
        exists|j: int|
            0 <= j < 8 && q == off_pos(p, j, 1) && on_board(off_x(p, j, 1), off_y(p, j, 1)),
{
    let gx = q.x as int - p.x as int;
    let gy = q.y as int - p.y as int;
    let j: int = if gx == -1 && gy == -1 {
        0
    } else if gx == -1 && gy == 0 {
        1
    } else if gx == -1 && gy == 1 {
        2
    } else if gx == 0 && gy == -1 {
        3
    } else if gx == 0 && gy == 1 {
        4
    } else if gx == 1 && gy == -1 {
        5
    } else if gx == 1 && gy == 0 {
        6
    } else {
        7
    };
    lemma_mul_dist(0, dir_dx(j));
    lemma_mul_dist(0, dir_dy(j));
    assert(q == off_pos(p, j, 1) && on_board(off_x(p, j, 1), off_y(p, j, 1)));
}

/// The stepping walk from `p` to the square `n` steps out along direction `j`
/// visits exactly the squares `1..=n` steps out, in order.
pub proof fn lemma_path_along_ray(p: Pos, j: int, n: int)
    requires
        p.wf(),
        0 <= j < 8,
        1 <= n,
        forall|k: int| 1 <= k <= n ==> on_board(off_x(p, j, k), #[trigger] off_y(p, j, k)),
    ensures
        p.path(off_pos(p, j, n)).len() == n,
        forall|i: int| 0 <= i < n ==> #[trigger] p.path(off_pos(p, j, n))[i] == off_pos(p, j, i + 1),
    decreases n,
{
    let dx = dir_dx(j);
    let dy = dir_dy(j);
    let f = off_pos(p, j, n);
    lemma_mul_unit(n, dx);
    lemma_mul_unit(n, dy);
    lemma_mul_dist(0, dx);
    lemma_mul_dist(0, dy);
    lemma_off_pos_props(p, j, n);
    let s = off_pos(p, j, 1);
    assert(on_board(off_x(p, j, 1), off_y(p, j, 1)));
    assert(s.x as int == p.x + dx && s.y as int == p.y + dy);
    assert(p.step_toward(f) == s);
    if n == 1 {
        assert(s == f);
        assert(f.path(f) =~= Seq::empty());
        assert(p.path(f) =~= seq![s] + f.path(f));
        assert(p.path(f) =~= seq![s]);
    } else {
        assert forall|k: int|
            1 <= k <= n - 1 implies on_board(off_x(s, j, k), #[trigger] off_y(s, j, k)) && off_x(
            s,
            j,
            k,
        ) == off_x(p, j, k + 1) && off_y(s, j, k) == off_y(p, j, k + 1) by {
            lemma_mul_dist(k, dx);
            lemma_mul_dist(k, dy);
            assert(on_board(off_x(p, j, k + 1), off_y(p, j, k + 1)));
        }
        assert(off_pos(s, j, n - 1) == f);
        lemma_path_along_ray(s, j, n - 1);
        assert forall|i: int| 0 <= i < n implies #[trigger] p.path(f)[i] == off_pos(p, j, i + 1) by {
            if i == 0 {
                assert(p.path(f)[0] == s);
            } else {
                assert(p.path(f)[i] == s.path(f)[i - 1]);
                assert(s.path(off_pos(s, j, n - 1))[i - 1] == off_pos(s, j, i));
                lemma_mul_dist(i, dx);
                lemma_mul_dist(i, dy);
                assert(off_x(s, j, i) == off_x(p, j, i + 1) && off_y(s, j, i) == off_y(p, j, i + 1));
            }
        }
    }
}

/// Consecutive squares of a run are adjacent.
pub proof fn lemma_adjacent_offsets(p: Pos, j: int, k: int)
    requires
        p.wf(),
        0 <= j < 8,
        k >= 2,
        on_board(off_x(p, j, k), off_y(p, j, k)),
        on_board(off_x(p, j, k - 1), off_y(p, j, k - 1)),
    ensures
        off_pos(p, j, k).is_neighbor(off_pos(p, j, k - 1)),
{
    lemma_mul_dist(k - 1, dir_dx(j));
    lemma_mul_dist(k - 1, dir_dy(j));
    lemma_off_pos_props(p, j, k);
    lemma_off_pos_props(p, j, k - 1);
    assert(off_x(p, j, k) == off_x(p, j, k - 1) + dir_dx(j));
    assert(off_y(p, j, k) == off_y(p, j, k - 1) + dir_dy(j));
}

/// Total Chebyshev distance from `p` to each square of `s`.
pub open spec fn cheb_total(p: Pos, s: Seq<Pos>) -> int
    decreases s.len(),
{
    if s.len() == 0 {
        0
    } else {
        cheb_total(p, s.drop_last()) + p.cheb(s.last())
    }
}

proof fn lemma_reach_distance_pre(bd: Seq<Slot>, p: Pos, j: int)
    requires
        p.wf(),
        0 <= j <= 8,
    ensures
        cheb_total(p, fars_pre(bd, p, j)) == rays_pre(bd, p, j),
    decreases j,
{
    if j > 0 {
        lemma_reach_distance_pre(bd, p, j - 1);
        let r = ray(bd, p, j - 1);
        if r > 0 {
            lemma_ray_cells(bd, p, j - 1);
            assert(on_board(off_x(p, j - 1, r as int), off_y(p, j - 1, r as int)));
            lemma_off_pos_props(p, j - 1, r as int);
            let s = fars_pre(bd, p, j);
            assert(s.drop_last() =~= fars_pre(bd, p, j - 1));
            assert(s.last() == off_pos(p, j - 1, r as int));
        } else {
            assert(fars_pre(bd, p, j) =~= fars_pre(bd, p, j - 1));
        }
    }
}

/// The total Chebyshev distance from `p` to the farthest reachable squares
/// equals the total count of reachable empty squares: both add up the
/// lengths of the eight empty runs.
pub proof fn lemma_reach_distance_equivalence(bd: Seq<Slot>, p: Pos)
    requires
        p.wf(),
    ensures
        cheb_total(p, far_squares(bd, p)) == reach_total(bd, p),
{
    lemma_reach_distance_pre(bd, p, 8);
}

} // verus!
