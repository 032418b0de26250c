//! The anytime, depth-layered beam search driver ("chokudai search"): one
//! priority queue per depth, repeatedly refined across rounds until a
//! wall-clock budget expires, then extraction of the deepest, best-scoring
//! action sequence found.
use vstd::prelude::*;

verus! {

use crate::T;
use crate::board::Direction;
use crate::state::State;
use crate::state::StateV;
use crate::state::apply_spec;
use crate::state::dir_legal;
use crate::state::lemma_apply_wf;
use crate::state::state_wf;

#[verifier::external_type_specification]
#[verifier::external_body]
pub struct ExInstant(std::time::Instant);

/// Relies on std::time::Instant::now for a wall-clock reading; nothing is
/// assumed of the value.
#[verifier::external_body]
fn clock_now() -> (r: std::time::Instant) {
    std::time::Instant::now()
}

/// Relies on std::time::Instant::elapsed for the time since `start`,
/// converted to whole milliseconds; the result depends on the wall clock, so
/// nothing is assumed of it.
#[verifier::external_body]
fn elapsed_millis(start: &std::time::Instant) -> (r: u128) {
    start.elapsed().as_millis()
}

/// The joint state reached from `root` by playing `acts` in order.
pub open spec fn run(root: StateV, acts: Seq<Direction>) -> StateV
    decreases acts.len(),
{
    if acts.len() == 0 {
        root
    } else {
        apply_spec(run(root, acts.drop_last()), acts.last())
    }
}

/// `acts` is playable from `root`: every action is legal for the joint state
/// it is taken in, and is taken before the horizon.
pub open spec fn run_ok(root: StateV, acts: Seq<Direction>) -> bool
    decreases acts.len(),
{
    if acts.len() == 0 {
        true
    } else {
        &&& run_ok(root, acts.drop_last())
        &&& run(root, acts.drop_last()).turn < T
        &&& dir_legal(run(root, acts.drop_last()), acts.last())
    }
}

/// Playing a playable sequence preserves the joint-state invariant.
pub proof fn lemma_run_wf(root: StateV, acts: Seq<Direction>)
    requires
        state_wf(root),
        run_ok(root, acts),
    ensures
        state_wf(run(root, acts)),
    decreases acts.len(),
{
    if acts.len() > 0 {
        lemma_run_wf(root, acts.drop_last());
        lemma_apply_wf(run(root, acts.drop_last()), acts.last());
    }
}

/// Each step of a played sequence advances the turn counter by exactly one.
pub proof fn lemma_run_turn(root: StateV, acts: Seq<Direction>)
    ensures
        run(root, acts).turn == root.turn + acts.len(),
    decreases acts.len(),
{
    if acts.len() > 0 {
        lemma_run_turn(root, acts.drop_last());
    }
}

/// A sequence playable from a fresh root never exceeds the move horizon.
pub proof fn lemma_run_ok_horizon(root: StateV, acts: Seq<Direction>)
    requires
        root.turn == 0,
        run_ok(root, acts),
    ensures
        acts.len() <= T,
    decreases acts.len(),
{
    if acts.len() > 0 {
        lemma_run_ok_horizon(root, acts.drop_last());
        lemma_run_turn(root, acts.drop_last());
    }
}

/// Every state in a queue at depth `t` was reached from the root by playing
/// its own `t`-step action log.
pub open spec fn queue_inv(root: StateV, q: Seq<State>, t: int) -> bool {
    forall|j: int|
        0 <= j < q.len() ==> {
            &&& run_ok(root, (#[trigger] q[j])@.actions)
            &&& q[j]@ == run(root, q[j]@.actions)
            &&& q[j]@.actions.len() == t
        }
}

/// The index of the first top-scoring state of a non-empty queue.  Together
/// with the deterministic order in which successors are inserted, this fixes
/// how score ties are broken.
fn best_index(q: &Vec<State>) -> (r: usize)
    requires
        q@.len() > 0,
    ensures
        r < q@.len(),
        forall|j: int| 0 <= j < q@.len() ==> (#[trigger] q@[j])@.score <= q@[r as int]@.score,
        forall|j: int| 0 <= j < r ==> (#[trigger] q@[j])@.score < q@[r as int]@.score,
{
    let mut best: usize = 0;
    let mut i: usize = 1;
    while i < q.len()
        invariant
            q@.len() > 0,
            best < i <= q@.len(),
            forall|j: int| 0 <= j < i ==> (#[trigger] q@[j])@.score <= q@[best as int]@.score,
            forall|j: int| 0 <= j < best ==> (#[trigger] q@[j])@.score < q@[best as int]@.score,
        decreases q@.len() - i,
    {
        if q[i].evaluated_score > q[best].evaluated_score {
            best = i;
        }
        i += 1;
    }
    best
}

/// A deep copy of a queue: a snapshot whose states have the same values.
fn clone_queue(q: &Vec<State>) -> (r: Vec<State>)
    ensures
        r@.len() == q@.len(),
        forall|j: int| 0 <= j < q@.len() ==> (#[trigger] r@[j])@ == q@[j]@,
{
    let mut r: Vec<State> = Vec::new();
    let mut i: usize = 0;
    while i < q.len()
        invariant
            i <= q@.len(),
            r@.len() == i,
            forall|j: int| 0 <= j < i ==> (#[trigger] r@[j])@ == q@[j]@,
        decreases q@.len() - i,
    {
        r.push(q[i].clone());
        i += 1;
    }
    r
}

fn clone_dirs(v: &Vec<Direction>) -> (r: Vec<Direction>)
    ensures
        r@ == v@,
{
    let mut r: Vec<Direction> = Vec::new();
    let mut i: usize = 0;
    while i < v.len()
        invariant
            i <= v@.len(),
            r@.len() == i,
            forall|j: int| 0 <= j < i ==> r@[j] == v@[j],
        decreases v@.len() - i,
    {
        r.push(v[i]);
        i += 1;
    }
    proof {
        assert(r@ =~= v@);
    }
    r
}

/// The anytime beam search: starting from a fresh root, it keeps one queue of
/// candidate states per depth, and while the time budget lasts it repeatedly
/// expands, at every depth, up to `beam_width` of the best states of a
/// snapshot of that depth's queue into the next depth's live queue.  When the
/// budget is spent, it returns the action log of the best state in the deepest
/// non-empty queue.
///
/// The returned sequence is always playable from the root: every action in it
/// is legal for the joint state it is taken in.  Under a zero budget no
/// expansion happens and the returned sequence is empty.
pub fn chokudai_search_action(
    state: &State,
    beam_width: usize,
    beam_depth: usize,
    time_budget_ms: u64,
) -> (r: Vec<Direction>)
    requires
        state_wf(state@),
        state@.turn == 0,
        state@.score == state@.coin,
        beam_depth < usize::MAX,
    ensures
        run_ok(state@, r@),
        r@.len() <= beam_depth,
        r@.len() <= T,
        time_budget_ms == 0 ==> r@.len() == 0,
{
    let ghost rootv = state@;
    let mut beam: Vec<Vec<State>> = Vec::new();
    let mut q0: Vec<State> = Vec::new();
    q0.push(state.clone());
    beam.push(q0);
    let mut i: usize = 1;
    while i <= beam_depth
        invariant
            1 <= i <= beam_depth + 1,
            beam_depth < usize::MAX,
            beam@.len() == i,
            beam@[0]@.len() == 1,
            beam@[0]@[0]@ == rootv,
            forall|u: int| 1 <= u < i ==> (#[trigger] beam@[u])@.len() == 0,
        decreases beam_depth + 1 - i,
    {
        beam.push(Vec::new());
        i += 1;
    }
    proof {
        assert(rootv.actions.len() == 0);
        assert(run(rootv, rootv.actions) == rootv);
        assert(run_ok(rootv, rootv.actions));
        assert(forall|t: int| 0 <= t <= beam_depth ==> queue_inv(rootv, (#[trigger] beam@[t])@, t));
    }
    let t0 = clock_now();
    // The wall clock is not a decreasing measure, so the rounds also count
    // down from a bound far beyond any budget that could elapse.
    let mut rounds_left: u64 = 0xffff_ffff_ffff_ffff;
    let mut running = elapsed_millis(&t0) < (time_budget_ms as u128);
    while running && rounds_left > 0
        invariant
            state_wf(rootv),
            rootv.turn == 0,
            rootv.score == rootv.coin,
            beam_depth < usize::MAX,
            beam@.len() == beam_depth + 1,
            forall|t: int| 0 <= t <= beam_depth ==> queue_inv(rootv, (#[trigger] beam@[t])@, t),
            beam@[0]@.len() >= 1,
            running ==> time_budget_ms > 0,
            time_budget_ms == 0 ==> (forall|u: int|
                1 <= u <= beam_depth ==> (#[trigger] beam@[u])@.len() == 0),
        decreases rounds_left,
    {
        rounds_left -= 1;
        let mut t: usize = 0;
        while t < beam_depth
            invariant
                state_wf(rootv),
                rootv.turn == 0,
                rootv.score == rootv.coin,
                time_budget_ms > 0,
                t <= beam_depth < usize::MAX,
                beam@.len() == beam_depth + 1,
                forall|tt: int|
                    0 <= tt <= beam_depth ==> queue_inv(rootv, (#[trigger] beam@[tt])@, tt),
                beam@[0]@.len() >= 1,
            decreases beam_depth - t,
        {
            let mut now_beam = clone_queue(&beam[t]);
            let mut w: usize = 0;
            while w < beam_width
                invariant
                    state_wf(rootv),
                    rootv.turn == 0,
                    rootv.score == rootv.coin,
                    time_budget_ms > 0,
                    t < beam_depth,
                    beam@.len() == beam_depth + 1,
                    forall|tt: int|
                        0 <= tt <= beam_depth ==> queue_inv(rootv, (#[trigger] beam@[tt])@, tt),
                    beam@[0]@.len() >= 1,
                    queue_inv(rootv, now_beam@, t as int),
                    w <= beam_width,
                decreases beam_width - w,
            {
                if now_beam.len() == 0 {
                    break ;
                }
                let bi = best_index(&now_beam);
                if now_beam[bi].is_done() {
                    break ;
                }
                let now_state = now_beam.swap_remove(bi);
                proof {
                    lemma_run_wf(rootv, now_state@.actions);
                }
                let acts = now_state.legal_actions();
                let mut a: usize = 0;
                while a < acts.len()
                    invariant
                        state_wf(rootv),
                        rootv.turn == 0,
                        rootv.score == rootv.coin,
                        t < beam_depth,
                        beam@.len() == beam_depth + 1,
                        forall|tt: int|
                            0 <= tt <= beam_depth ==> queue_inv(
                                rootv,
                                (#[trigger] beam@[tt])@,
                                tt,
                            ),
                        beam@[0]@.len() >= 1,
                        a <= acts@.len(),
                        state_wf(now_state@),
                        run_ok(rootv, now_state@.actions),
                        now_state@ == run(rootv, now_state@.actions),
                        now_state@.actions.len() == t,
                        now_state@.turn < T,
                        forall|d: Direction| acts@.contains(d) ==> dir_legal(now_state@, d),
                    decreases acts@.len() - a,
                {
                    let d = acts[a];
                    proof {
                        assert(acts@.contains(acts@[a as int]));
                    }
                    let mut next_state = now_state.clone();
                    next_state.advance(d);
                    next_state.evaluate_score();
                    proof {
                        assert(next_state@ =~= apply_spec(now_state@, d));
                        let nacts = next_state@.actions;
                        assert(nacts == now_state@.actions.push(d));
                        assert(nacts.drop_last() =~= now_state@.actions);
                        assert(nacts.last() == d);
                        assert(run(rootv, nacts) == apply_spec(run(rootv, nacts.drop_last()), d));
                        assert(run(rootv, nacts) == next_state@);
                        assert(run_ok(rootv, nacts));
                        assert(nacts.len() == t + 1);
                    }
                    let t1 = t + 1;
                    beam[t1].push(next_state);
                    a += 1;
                }
                w += 1;
            }
            t += 1;
        }
        running = elapsed_millis(&t0) < (time_budget_ms as u128);
    }
    let mut t: usize = beam_depth;
    while t > 0
        invariant
            t <= beam_depth,
            beam@.len() == beam_depth + 1,
            forall|tt: int| 0 <= tt <= beam_depth ==> queue_inv(rootv, (#[trigger] beam@[tt])@, tt),
            beam@[0]@.len() >= 1,
            rootv == state@,
            rootv.turn == 0,
            state_wf(rootv),
            time_budget_ms == 0 ==> (forall|u: int|
                1 <= u <= beam_depth ==> (#[trigger] beam@[u])@.len() == 0),
        decreases t,
    {
        if beam[t].len() > 0 {
            let bi = best_index(&beam[t]);
            let r = clone_dirs(&beam[t][bi].actions);
            proof {
                lemma_run_ok_horizon(rootv, r@);
            }
            return r;
        }
        t -= 1;
    }
    let bi = best_index(&beam[0]);
    let r = clone_dirs(&beam[0][bi].actions);
    r
}

} // verus!
