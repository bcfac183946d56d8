use vstd::prelude::*;

use crate::heuristic::{Reachability, Value, MIN_VAL};
use crate::pos::Pos;
use crate::random::Random;
use crate::rng::random_below;
use crate::state::{finished, move_legal, GameState, Move};
use crate::text::{dec_chars, usize_to_string};

verus! {

/// One beam slot: a candidate continuation state, together with the index
/// of the first-ply move that the whole line descends from.
struct BeamEntry {
    origin: usize,
    state: GameState,
}

/// Evict one lowest-scoring entry from the bounded retention buffer.
fn remove_min(v: &mut Vec<(Value, usize, Move)>)
    requires
        old(v)@.len() >= 1,
    ensures
        final(v)@.len() == old(v)@.len() - 1,
        exists|m: int|
            #![auto]
            0 <= m < old(v)@.len() && (forall|k: int|
                0 <= k < old(v)@.len() ==> old(v)@[m].0 <= (#[trigger] old(v)@[k]).0)
                && final(v)@ == old(v)@.remove(m),
        forall|i: int| 0 <= i < final(v)@.len() ==> old(v)@.contains(#[trigger] final(v)@[i]),
{
    let mut mi: usize = 0;
    let mut k: usize = 1;
    while k < v.len()
        invariant
            mi < v@.len(),
            k <= v@.len(),
            forall|i: int| 0 <= i < k ==> v@[mi as int].0 <= (#[trigger] v@[i]).0,
        decreases v@.len() - k,
    {
        if v[k].0 < v[mi].0 {
            mi = k;
        }
        k = k + 1;
    }
    let ghost pre = v@;
    let ghost m = mi as int;
    v.remove(mi);
    proof {
        assert forall|i: int| 0 <= i < v@.len() implies pre.contains(#[trigger] v@[i]) by {
            if i < m {
                assert(pre[i] == v@[i]);
            } else {
                assert(pre[i + 1] == v@[i]);
            }
        }
    }
}

/// Bounded-beam, multi-ply sampled search: per ply, sample random
/// continuations from a bounded layer of candidate states, retain only the
/// best-scoring few, and finally pick the first-ply move that the
/// best-scoring leaf descends from.
#[derive(Copy, Clone)]
pub struct DeepIdiot {
    width: usize,
    depth: usize,
    memory: usize,
}

impl DeepIdiot {
    /// The configured number of plies.
    pub closed spec fn depth_spec(&self) -> int {
        self.depth as int
    }

    /// The configured per-ply sampling budget.
    pub closed spec fn width_spec(&self) -> int {
        self.width as int
    }

    /// The configured beam capacity.
    pub closed spec fn memory_spec(&self) -> int {
        self.memory as int
    }

    /// The configuration supports a search: at least one ply, and a
    /// sampling budget no smaller than the beam.
    pub closed spec fn config_wf(&self) -> bool {
        self.depth >= 1 && self.memory >= 1 && self.width >= self.memory
    }

    pub fn with_depth(depth: usize) -> (r: Self)
        ensures
            r.depth_spec() == depth,
            r.width_spec() == 1000,
            r.memory_spec() == 20,
            depth >= 1 ==> r.config_wf(),
    {
        DeepIdiot { depth, memory: 20, width: 1000 }
    }

    /// Whether the configuration supports a search.
    pub fn is_configured(&self) -> (r: bool)
        ensures
            r == self.config_wf(),
    {
        self.depth >= 1 && self.memory >= 1 && self.width >= self.memory
    }

    pub fn name(&self) -> (r: String)
        ensures
            r@ == "DeepIdiot("@ + dec_chars(self.depth_spec() as nat) + ", "@ + dec_chars(
                self.width_spec() as nat,
            ) + ", "@ + dec_chars(self.memory_spec() as nat) + ")"@,
    {
        let mut s = "DeepIdiot(".to_owned();
        let d = usize_to_string(self.depth);
        s.append(d.as_str());
        s.append(", ");
        let w = usize_to_string(self.width);
        s.append(w.as_str());
        s.append(", ");
        let m = usize_to_string(self.memory);
        s.append(m.as_str());
        s.append(")");
        s
    }

    /// Drive the beam for the configured number of plies and return the
    /// first-ply move that leads to the best-scoring leaf.
    pub fn find_move(&mut self, state: &GameState) -> (r: Move)
        requires
            state.wf(),
            !finished(state.board@, state.turn),
            self.config_wf(),
        ensures
            r.wf(),
            move_legal(state.board@, state.turn, r),
            *final(self) == *old(self),
    {
        let ghost root_bd = state.board@;
        let ghost root_turn = state.turn;
        let me = state.turn;
        let width = self.width;
        let depth = self.depth;
        let memory = self.memory;

        let mut sampler = Random;
        let root = state.clone();
        let mut layer: Vec<BeamEntry> = Vec::new();
        layer.push(BeamEntry { origin: 0, state: root });
        let mut initial_moves: Vec<Move> = Vec::new();

        let mut ply: usize = 0;
        while ply < depth
            invariant
                root_bd == state.board@,
                root_turn == state.turn,
                root_bd.len() == 100,
                !finished(root_bd, root_turn),
                memory >= 1,
                width >= memory,
                depth >= 1,
                ply <= depth,
                layer@.len() >= 1,
                forall|i: int| 0 <= i < layer@.len() ==> (#[trigger] layer@[i]).state.wf(),
                ply == 0 ==> layer@.len() == 1 && layer@[0].state.board@ == root_bd
                    && layer@[0].state.turn == root_turn && initial_moves@.len() == 0,
                ply >= 1 ==> initial_moves@.len() >= 1 && forall|i: int|
                    0 <= i < layer@.len() ==> (#[trigger] layer@[i]).origin
                        < initial_moves@.len(),
                forall|i: int|
                    0 <= i < initial_moves@.len() ==> (#[trigger] initial_moves@[i]).wf()
                        && move_legal(root_bd, root_turn, initial_moves@[i]),
            decreases depth - ply,
        {
            let mut retained: Vec<(Value, usize, Move)> = Vec::new();
            let mut t: usize = 0;
            while t < width
                invariant
                    root_bd.len() == 100,
                    !finished(root_bd, root_turn),
                    memory >= 1,
                    width >= memory,
                    t <= width,
                    layer@.len() >= 1,
                    forall|i: int| 0 <= i < layer@.len() ==> (#[trigger] layer@[i]).state.wf(),
                    ply == 0 ==> layer@.len() == 1 && layer@[0].state.board@ == root_bd
                        && layer@[0].state.turn == root_turn,
                    retained@.len() <= memory,
                    t >= 1 ==> retained@.len() >= 1,
                    forall|i: int|
                        0 <= i < retained@.len() ==> (#[trigger] retained@[i]).1 < layer@.len()
                            && retained@[i].2.wf(),
                    ply == 0 ==> forall|i: int|
                        0 <= i < retained@.len() ==> move_legal(
                            root_bd,
                            root_turn,
                            (#[trigger] retained@[i]).2,
                        ),
                decreases width - t,
            {
                let pi = random_below(layer.len());
                let mov: Move;
                if layer[pi].state.is_finished() {
                    let z = Pos { x: 0, y: 0 };
                    mov = Move { from: z, to: z, arrow: z };
                } else {
                    mov = sampler.find_move(&layer[pi].state);
                }
                let mut scratch = layer[pi].state.clone();
                scratch.do_move(mov);
                let e = Reachability.eval(scratch.turn, &scratch.board);
                let val = if ply % 2 == 1 {
                    -e
                } else {
                    e
                };
                let ghost kept = retained@;
                retained.push((val, pi, mov));
                if retained.len() > memory {
                    let ghost full = retained@;
                    remove_min(&mut retained);
                    proof {
                        assert forall|i: int|
                            0 <= i < retained@.len() implies (#[trigger] retained@[i]).1
                            < layer@.len() && retained@[i].2.wf() && (ply == 0 ==> move_legal(
                            root_bd,
                            root_turn,
                            retained@[i].2,
                        )) by {
                            assert(full.contains(retained@[i]));
                            let k = choose|k: int| 0 <= k < full.len() && full[k] == retained@[i];
                            if k < kept.len() {
                                assert(kept[k] == retained@[i]);
                            }
                        }
                    }
                }
                t = t + 1;
            }

            let mut next: Vec<BeamEntry> = Vec::new();
            let ghost kept_moves = initial_moves@;
            let mut r: usize = 0;
            while r < retained.len()
                invariant
                    root_bd.len() == 100,
                    !finished(root_bd, root_turn),
                    layer@.len() >= 1,
                    forall|i: int| 0 <= i < layer@.len() ==> (#[trigger] layer@[i]).state.wf(),
                    retained@.len() >= 1,
                    forall|i: int|
                        0 <= i < retained@.len() ==> (#[trigger] retained@[i]).1 < layer@.len()
                            && retained@[i].2.wf(),
                    ply == 0 ==> forall|i: int|
                        0 <= i < retained@.len() ==> move_legal(
                            root_bd,
                            root_turn,
                            (#[trigger] retained@[i]).2,
                        ),
                    ply >= 1 ==> initial_moves@ == kept_moves && initial_moves@.len() >= 1
                        && forall|i: int|
                        0 <= i < layer@.len() ==> (#[trigger] layer@[i]).origin
                            < initial_moves@.len(),
                    r <= retained@.len(),
                    next@.len() == r,
                    forall|i: int| 0 <= i < next@.len() ==> (#[trigger] next@[i]).state.wf(),
                    ply == 0 ==> initial_moves@.len() == next@.len(),
                    forall|i: int|
                        0 <= i < next@.len() ==> (#[trigger] next@[i]).origin
                            < initial_moves@.len(),
                    forall|i: int|
                        0 <= i < initial_moves@.len() ==> (#[trigger] initial_moves@[i]).wf()
                            && move_legal(root_bd, root_turn, initial_moves@[i]),
                decreases retained@.len() - r,
            {
                let entry = retained[r];
                let pi = entry.1;
                let mov = entry.2;
                let mut st = layer[pi].state.clone();
                st.do_move(mov);
                let origin: usize;
                if ply == 0 {
                    origin = next.len();
                    initial_moves.push(mov);
                } else {
                    origin = layer[pi].origin;
                }
                next.push(BeamEntry { origin, state: st });
                r = r + 1;
            }
            layer = next;
            ply = ply + 1;
        }

        let mut best_val = MIN_VAL;
        let mut best_idx: usize = 0;
        let mut i: usize = 0;
        while i < layer.len()
            invariant
                layer@.len() >= 1,
                best_idx < layer@.len(),
                i <= layer@.len(),
                forall|k: int| 0 <= k < layer@.len() ==> (#[trigger] layer@[k]).state.wf(),
            decreases layer@.len() - i,
        {
            let v = Reachability.eval(me, &layer[i].state.board);
            if v > best_val {
                best_val = v;
                best_idx = i;
            }
            i = i + 1;
        }
        initial_moves[layer[best_idx].origin]
    }

    pub fn dup(&self) -> (r: Self)
        ensures
            r == *self,
    {
        *self
    }
}

} // verus!
