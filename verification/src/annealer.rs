//! Simulated annealing over any kind of candidate: a walk that always moves
//! to a better neighbour and moves to a worse one only while the loss fits
//! the temperature, which falls linearly to zero. The best candidate seen on
//! the way is the result.

use vstd::prelude::*;
use crate::error::PreconditionViolation;
use crate::random::RandomSource;

verus! {

/// A candidate that can be scored and perturbed.
///
/// An implementation states, beside the two operations, what they compute:
/// the model of a candidate, which is what its energy and its neighbours
/// depend on, the energy of a model and the neighbour of a model. These
/// three and `wf` are never called when the program runs.
pub trait Annealable: Sized {
    /// What the energy and the neighbours of a candidate depend on.
    type Model;

    /// The model of the candidate.
    spec fn model(&self) -> Self::Model;

    /// The candidate can be scored and perturbed.
    spec fn wf(&self) -> bool;

    /// The energy of a candidate: the lower, the better.
    spec fn energy_spec(model: Self::Model) -> u128;

    /// The neighbour that a candidate has at the given temperature when the
    /// random source holds the seed `state`, and the seed after the draws.
    spec fn neighbor_spec(model: Self::Model, temperature: u32, state: u64) -> (Self::Model, u64);

    /// A neighbour of the candidate, drawn at the given temperature.
    fn random_neighbor(&self, temperature: u32, source: &mut RandomSource) -> (r: Self)
        requires
            self.wf(),
        ensures
            r.wf(),
            (r.model(), final(source)@) == Self::neighbor_spec(
                self.model(),
                temperature,
                old(source)@,
            ),
    ;

    /// The energy of the candidate.
    fn energy(&self) -> (e: u128)
        requires
            self.wf(),
        ensures
            e == Self::energy_spec(self.model()),
    ;
}

/// A candidate with its energy.
#[derive(Debug)]
pub struct StateEnergy<S> {
    pub state: S,
    pub energy: u128,
}

/// The model of a candidate with its energy.
pub struct Scored<M> {
    pub state: M,
    pub energy: u128,
}

impl<S: Annealable> View for StateEnergy<S> {
    type V = Scored<S::Model>;

    open spec fn view(&self) -> Scored<S::Model> {
        Scored { state: self.state.model(), energy: self.energy }
    }
}

/// The model of a candidate with the energy that it has.
pub open spec fn scored<S: Annealable>(model: S::Model) -> Scored<S::Model> {
    Scored { state: model, energy: S::energy_spec(model) }
}

impl<S: Annealable> StateEnergy<S> {
    /// The candidate with its energy.
    pub fn new(state: S) -> (r: Self)
        requires
            state.wf(),
        ensures
            r.state == state,
            r@ == scored::<S>(state.model()),
    {
        let energy = state.energy();
        Self { state, energy }
    }
}

/// The model of an annealing run: the candidate that the walk stands on,
/// the best candidate seen so far (none before the first step) and the
/// temperature that the run starts from.
pub struct Run<M> {
    pub current: Scored<M>,
    pub best: Option<Scored<M>>,
    pub max_temperature: u32,
}

/// The temperature of step `k` (counted from zero) of a run of `steps`
/// steps: the starting temperature times the share of the steps that is
/// left after this one, rounded down. It is zero at the last step.
pub open spec fn temperature_at(max_temperature: u32, steps: u32, k: nat) -> u32
    recommends
        k < steps,
{
    (max_temperature * (steps - (k + 1)) / (steps as int)) as u32
}

/// Whether the walk moves from a candidate of energy `energy` to a
/// neighbour of energy `neighbor_energy`: when the loss is no more than the
/// temperature.
pub open spec fn accepts(energy: u128, neighbor_energy: u128, temperature: u32) -> bool {
    neighbor_energy - energy <= temperature
}

/// The neighbour that is drawn when the run stands at `run`, with its
/// energy, and the seed after the draws.
pub open spec fn drawn_neighbor<S: Annealable>(run: Run<S::Model>, temperature: u32, state: u64) -> (
    Scored<S::Model>,
    u64,
) {
    let (neighbor, next) = S::neighbor_spec(run.current.state, temperature, state);
    (scored::<S>(neighbor), next)
}

/// The run after the neighbour `neighbor` was held against it at the given
/// temperature: the neighbour becomes the best where there is none yet or
/// its energy is below that of the best, and the walk moves to it where it
/// is accepted.
pub open spec fn considered<M>(run: Run<M>, neighbor: Scored<M>, temperature: u32) -> Run<M> {
    Run {
        current: if accepts(run.current.energy, neighbor.energy, temperature) {
            neighbor
        } else {
            run.current
        },
        best: match run.best {
            Some(best) if neighbor.energy >= best.energy => Some(best),
            _ => Some(neighbor),
        },
        max_temperature: run.max_temperature,
    }
}

/// The run after one step at the given temperature: a neighbour of the
/// current candidate is drawn and held against the run.
pub open spec fn improved<S: Annealable>(run: Run<S::Model>, temperature: u32, state: u64) -> (
    Run<S::Model>,
    u64,
) {
    let (neighbor, next) = drawn_neighbor::<S>(run, temperature, state);
    (considered(run, neighbor, temperature), next)
}

/// The run after the first `done` steps of a run of `steps` steps, and the
/// seed after them.
pub open spec fn annealed<S: Annealable>(run: Run<S::Model>, steps: u32, done: nat, state: u64) -> (
    Run<S::Model>,
    u64,
)
    decreases done,
{
    if done == 0 {
        (run, state)
    } else {
        let (before, seed) = annealed::<S>(run, steps, (done - 1) as nat, state);
        improved::<S>(before, temperature_at(run.max_temperature, steps, (done - 1) as nat), seed)
    }
}

/// The run that starts from the candidate `start`.
pub open spec fn started<S: Annealable>(start: S::Model, max_temperature: u32) -> Run<S::Model> {
    Run { current: scored::<S>(start), best: None, max_temperature }
}

/// An annealing run.
pub struct Annealer<S> {
    state: StateEnergy<S>,
    best_neighbor: Option<StateEnergy<S>>,
    best_is_state: bool,
    max_temperature: u32,
}

impl<S: Annealable> View for Annealer<S> {
    type V = Run<S::Model>;

    closed spec fn view(&self) -> Run<S::Model> {
        Run {
            current: self.state@,
            best: if self.best_is_state {
                Some(self.state@)
            } else {
                match self.best_neighbor {
                    Some(best) => Some(best@),
                    None => None,
                }
            },
            max_temperature: self.max_temperature,
        }
    }
}

impl<S: Annealable> Annealer<S> {
    /// The current candidate can be perturbed and carries its own energy,
    /// and so does the best one.
    pub closed spec fn wf(&self) -> bool {
        &&& self.state.state.wf()
        &&& self.state@ == scored::<S>(self.state.state.model())
        &&& match self.best_neighbor {
            Some(best) => best.state.wf() && best@ == scored::<S>(best.state.model()),
            None => true,
        }
    }

    /// The run that starts from `start` at the temperature
    /// `max_temperature`. No candidate has been seen yet.
    pub fn new(start: S, max_temperature: u32) -> (r: Self)
        requires
            start.wf(),
        ensures
            r.wf(),
            r@ == started::<S>(start.model(), max_temperature),
    {
        Self {
            state: StateEnergy::new(start),
            best_neighbor: None,
            best_is_state: false,
            max_temperature,
        }
    }

    /// The candidate that the walk stands on, with its energy.
    pub fn current(&self) -> (r: &StateEnergy<S>)
        ensures
            r@ == self@.current,
    {
        &self.state
    }

    /// The best candidate seen so far, with its energy; none before the
    /// first step.
    pub fn best(&self) -> (r: Option<&StateEnergy<S>>)
        ensures
            match r {
                Some(best) => Some(best@) == self@.best,
                None => self@.best is None,
            },
    {
        if self.best_is_state {
            Some(&self.state)
        } else {
            match &self.best_neighbor {
                Some(best) => Some(best),
                None => None,
            }
        }
    }

    /// The best candidate that a run of `steps` steps sees. A run of no
    /// step sees none and is refused.
    pub fn anneal(self, steps: u32, source: &mut RandomSource) -> (r: Result<
        S,
        PreconditionViolation,
    >)
        requires
            self.wf(),
        ensures
            match r {
                Ok(best) => {
                    &&& steps > 0
                    &&& best.wf()
                    &&& Some(scored::<S>(best.model())) == annealed::<S>(
                        self@,
                        steps,
                        steps as nat,
                        old(source)@,
                    ).0.best
                    &&& final(source)@ == annealed::<S>(self@, steps, steps as nat, old(source)@).1
                },
                Err(e) => {
                    &&& steps == 0
                    &&& e == PreconditionViolation::ZeroSteps
                    &&& final(source)@ == old(source)@
                },
            },
    {
        match self.anneal_with_energy(steps, source) {
            Ok(best) => Ok(best.state),
            Err(e) => Err(e),
        }
    }

    /// The best candidate that a run of `steps` steps sees, with its
    /// energy. A run of no step sees none and is refused.
    pub fn anneal_with_energy(self, steps: u32, source: &mut RandomSource) -> (r: Result<
        StateEnergy<S>,
        PreconditionViolation,
    >)
        requires
            self.wf(),
        ensures
            match r {
                Ok(best) => {
                    &&& steps > 0
                    &&& best.state.wf()
                    &&& best@ == scored::<S>(best.state.model())
                    &&& Some(best@) == annealed::<S>(self@, steps, steps as nat, old(source)@).0.best
                    &&& final(source)@ == annealed::<S>(self@, steps, steps as nat, old(source)@).1
                },
                Err(e) => {
                    &&& steps == 0
                    &&& e == PreconditionViolation::ZeroSteps
                    &&& final(source)@ == old(source)@
                },
            },
    {
        if steps == 0 {
            return Err(PreconditionViolation::ZeroSteps);
        }
        let ghost start = self@;
        let ghost seed = source@;
        let mut run = self;
        let mut k: u32 = 0;
        while k < steps
            invariant
                k <= steps,
                run.wf(),
                run@.max_temperature == start.max_temperature,
                k > 0 ==> run@.best is Some,
                (run@, source@) == annealed::<S>(start, steps, k as nat, seed),
            decreases steps - k,
        {
            let temperature = run.temperature(steps, k);
            run.improve(temperature, source);
            k = k + 1;
        }
        let Annealer { state, best_neighbor, best_is_state, max_temperature } = run;
        if best_is_state {
            Ok(state)
        } else {
            match best_neighbor {
                Some(best) => Ok(best),
                None => Err(PreconditionViolation::ZeroSteps),
            }
        }
    }

    /// The temperature of step `k` (counted from zero) of a run of `steps`
    /// steps.
    pub fn temperature(&self, steps: u32, k: u32) -> (t: u32)
        requires
            k < steps,
        ensures
            t == temperature_at(self@.max_temperature, steps, k as nat),
    {
        let left = (steps - (k + 1)) as u64;
        assert(self.max_temperature * left <= self.max_temperature * steps) by (nonlinear_arith)
            requires
                0 <= left <= steps,
                0 <= self.max_temperature,
        ;
        assert(self.max_temperature * steps <= 0xffff_ffff * 0xffff_ffff) by (nonlinear_arith)
            requires
                0 <= self.max_temperature <= 0xffff_ffff,
                0 <= steps <= 0xffff_ffff,
        ;
        assert(0 * steps <= self.max_temperature * left < (self.max_temperature + 1) * steps)
            by (nonlinear_arith)
            requires
                0 <= left < steps,
                0 <= self.max_temperature,
        ;
        proof {
            crate::fixed::lemma_div_between(
                self.max_temperature * left,
                0,
                self.max_temperature + 1,
                steps as int,
            );
        }
        (self.max_temperature as u64 * left / steps as u64) as u32
    }

    /// Whether the walk moves from a candidate of energy `energy` to a
    /// neighbour of energy `neighbor_energy` at the given temperature.
    pub fn do_accept(energy: u128, neighbor_energy: u128, temperature: u32) -> (r: bool)
        ensures
            r == accepts(energy, neighbor_energy, temperature),
    {
        neighbor_energy <= energy || neighbor_energy - energy <= temperature as u128
    }

    /// One step of the run at the given temperature: a neighbour of the
    /// current candidate is drawn and held against the run.
    pub fn improve(&mut self, temperature: u32, source: &mut RandomSource)
        requires
            old(self).wf(),
        ensures
            final(self).wf(),
            (final(self)@, final(source)@) == improved::<S>(old(self)@, temperature, old(source)@),
    {
        let neighbor = StateEnergy::new(self.state.state.random_neighbor(temperature, source));
        self.consider(neighbor, temperature);
    }

    /// Holds a neighbour against the run: it becomes the best where there
    /// is none yet or its energy is below that of the best, and the walk
    /// moves to it where it is accepted.
    pub fn consider(&mut self, neighbor: StateEnergy<S>, temperature: u32)
        requires
            old(self).wf(),
            neighbor.state.wf(),
            neighbor@ == scored::<S>(neighbor.state.model()),
        ensures
            final(self).wf(),
            final(self)@ == considered(old(self)@, neighbor@, temperature),
    {
        let new_best = if self.best_is_state {
            neighbor.energy < self.state.energy
        } else {
            match &self.best_neighbor {
                Some(best) => neighbor.energy < best.energy,
                None => true,
            }
        };
        let accept = Self::do_accept(self.state.energy, neighbor.energy, temperature);
        if accept {
            let mut moved = neighbor;
            core::mem::swap(&mut self.state, &mut moved);
            if new_best {
                self.best_neighbor = None;
                self.best_is_state = true;
            } else if self.best_is_state {
                self.best_neighbor = Some(moved);
                self.best_is_state = false;
            }
        } else if new_best {
            self.best_neighbor = Some(neighbor);
            self.best_is_state = false;
        }
    }
}

/// The neighbour that is drawn at step `k` (counted from zero) of a run of
/// `steps` steps, with its energy.
pub open spec fn neighbor_at<S: Annealable>(run: Run<S::Model>, steps: u32, k: nat, state: u64) -> Scored<
    S::Model,
> {
    let (before, seed) = annealed::<S>(run, steps, k, state);
    drawn_neighbor::<S>(before, temperature_at(run.max_temperature, steps, k), seed).0
}

/// After any number of steps a run has a best candidate, and no neighbour
/// that was drawn on the way has less energy than it.
pub proof fn lemma_best_is_least<S: Annealable>(
    run: Run<S::Model>,
    steps: u32,
    done: nat,
    state: u64,
    k: nat,
)
    requires
        k < done,
    ensures
        annealed::<S>(run, steps, done, state).0.best is Some,
        annealed::<S>(run, steps, done, state).0.best.unwrap().energy <= neighbor_at::<S>(
            run,
            steps,
            k,
            state,
        ).energy,
    decreases done,
{
    if k + 1 < done {
        lemma_best_is_least::<S>(run, steps, (done - 1) as nat, state, k);
    }
}

/// The best candidate of a run that started without one is one of the
/// neighbours that were drawn.
pub proof fn lemma_best_was_drawn<S: Annealable>(run: Run<S::Model>, steps: u32, done: nat, state: u64)
    requires
        run.best is None,
        done > 0,
    ensures
        exists|k: nat|
            k < done && annealed::<S>(run, steps, done, state).0.best == Some(
                #[trigger] neighbor_at::<S>(run, steps, k, state),
            ),
    decreases done,
{
    let last = (done - 1) as nat;
    let end = annealed::<S>(run, steps, done, state).0;
    if end.best == Some(neighbor_at::<S>(run, steps, last, state)) {
    } else {
        lemma_best_was_drawn::<S>(run, steps, last, state);
        let k = choose|k: nat|
            k < last && annealed::<S>(run, steps, last, state).0.best == Some(
                #[trigger] neighbor_at::<S>(run, steps, k, state),
            );
        assert(end.best == Some(neighbor_at::<S>(run, steps, k, state)));
    }
}

/// Where one of the neighbours drawn on the way has no more energy than the
/// candidate that the run started from, the result of the run has no more
/// energy than that candidate.
pub proof fn lemma_anneal_no_worse<S: Annealable>(
    start: S::Model,
    max_temperature: u32,
    steps: u32,
    state: u64,
    k: nat,
)
    requires
        k < steps,
        neighbor_at::<S>(started::<S>(start, max_temperature), steps, k, state).energy
            <= S::energy_spec(start),
    ensures
        annealed::<S>(
            started::<S>(start, max_temperature),
            steps,
            steps as nat,
            state,
        ).0.best.unwrap().energy <= S::energy_spec(start),
{
    lemma_best_is_least::<S>(started::<S>(start, max_temperature), steps, steps as nat, state, k);
}

/// What the start of a run has and every neighbour keeps, the candidate
/// that the walk stands on and the best candidate have after any number of
/// steps.
pub proof fn lemma_run_keeps<S: Annealable>(
    run: Run<S::Model>,
    steps: u32,
    done: nat,
    state: u64,
    kept: spec_fn(S::Model) -> bool,
)
    requires
        kept(run.current.state),
        run.best is Some ==> kept(run.best.unwrap().state),
        forall|model: S::Model, temperature: u32, seed: u64|
            kept(model) ==> kept(#[trigger] S::neighbor_spec(model, temperature, seed).0),
    ensures
        kept(annealed::<S>(run, steps, done, state).0.current.state),
        annealed::<S>(run, steps, done, state).0.best is Some ==> kept(
            annealed::<S>(run, steps, done, state).0.best.unwrap().state,
        ),
        annealed::<S>(run, steps, done, state).0.max_temperature == run.max_temperature,
    decreases done,
{
    if done > 0 {
        lemma_run_keeps::<S>(run, steps, (done - 1) as nat, state, kept);
    }
}

} // verus!
