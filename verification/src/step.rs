//! The deterministic simulation step, as the engine sees it.
//!
//! What a tick does to the world is not the engine's business: the step is
//! supplied by the consumer as an explicit interface parameter.  The one
//! demand rollback places on it is determinism — the executable step must
//! compute exactly one mathematical function of the world and the input
//! vector, bit for bit, so that resimulating a tick with the same inputs
//! reproduces the same state on every peer.  The trait states that demand:
//! `advance` must return `advance_spec` of its arguments.

use vstd::prelude::*;

verus! {

/// A deterministic simulation: one world type, advanced one tick at a time
/// by an input vector holding one frame per player handle.
pub trait SimulationStep<W>: Sized {
    /// How many player handles the simulation expects in each input vector.
    spec fn player_count(&self) -> int;

    /// The mathematical function the step computes.
    spec fn advance_spec(&self, world: W, inputs: Seq<u8>) -> W;

    /// `player_count`, readable at run time.
    fn player_count_exec(&self) -> (n: usize)
        ensures
            n as int == self.player_count(),
    ;

    /// Advance the world by one tick.  Determinism is the contract: the
    /// result is exactly `advance_spec` of the arguments, so equal worlds
    /// under equal inputs yield bit-identical successors.
    fn advance(&self, world: &W, inputs: &Vec<u8>) -> (next: W)
        requires
            inputs@.len() == self.player_count(),
        ensures
            next == self.advance_spec(*world, inputs@),
    ;

    /// Duplicate a world state exactly; the engine snapshots with this.
    fn clone_world(&self, world: &W) -> (copy: W)
        ensures
            copy == *world,
    ;
}

/// The world reached by running `inputs` tick by tick from `init`.
pub open spec fn run_steps<W, S: SimulationStep<W>>(step: S, init: W, inputs: Seq<Seq<u8>>) -> W
    decreases inputs.len(),
{
    if inputs.len() == 0 {
        init
    } else {
        step.advance_spec(run_steps(step, init, inputs.drop_last()), inputs.last())
    }
}

/// One more tick extends the run by one step.
pub proof fn lemma_run_steps_push<W, S: SimulationStep<W>>(
    step: S,
    init: W,
    inputs: Seq<Seq<u8>>,
    v: Seq<u8>,
)
    ensures
        run_steps(step, init, inputs.push(v)) == step.advance_spec(
            run_steps(step, init, inputs),
            v,
        ),
{
    assert(inputs.push(v).drop_last() =~= inputs);
    assert(inputs.push(v).last() == v);
}

/// Replay a whole input schedule from an initial world: the reference for
/// what a session that received every input on time would compute.
pub fn replay<W, S: SimulationStep<W>>(step: &S, init: W, schedule: &Vec<Vec<u8>>) -> (end: W)
    requires
        forall|t: int| 0 <= t < schedule@.len() ==> #[trigger] schedule@[t]@.len()
            == step.player_count(),
    ensures
        end == run_steps(*step, init, schedule@.map_values(|v: Vec<u8>| v@)),
{
    let ghost plan = schedule@.map_values(|v: Vec<u8>| v@);
    let mut world = init;
    let mut t: usize = 0;
    while t < schedule.len()
        invariant
            t <= schedule@.len(),
            plan == schedule@.map_values(|v: Vec<u8>| v@),
            forall|k: int| 0 <= k < schedule@.len() ==> #[trigger] schedule@[k]@.len()
                == step.player_count(),
            world == run_steps(*step, init, plan.take(t as int)),
        decreases schedule@.len() - t,
    {
        world = step.advance(&world, &schedule[t]);
        proof {
            assert(plan.take(t + 1) =~= plan.take(t as int).push(plan[t as int]));
            lemma_run_steps_push(*step, init, plan.take(t as int), plan[t as int]);
        }
        t = t + 1;
    }
    proof {
        assert(plan.take(schedule@.len() as int) =~= plan);
    }
    world
}

/// Determinism: a fixed initial world under a fixed per-tick input schedule
/// determines a single run — any two replays of the schedule end in the same
/// state, bit for bit.
pub proof fn lemma_replay_deterministic<W, S: SimulationStep<W>>(
    step: S,
    init: W,
    inputs: Seq<Seq<u8>>,
    a: W,
    b: W,
)
    requires
        a == run_steps(step, init, inputs),
        b == run_steps(step, init, inputs),
    ensures
        a == b,
{
}

} // verus!
