use collager::{Annealable, Annealer, PreconditionViolation, RandomSource, StateEnergy};

/// A candidate on the number line: the energy is the distance to ten, and
/// the neighbour lies one step to the right for every step of a hundred in
/// the temperature, and one more.
#[derive(Debug, Clone, Copy, PartialEq, Eq)]
struct Walker(i64);

impl Annealable for Walker {
    type Model = i64;

    fn model(&self) -> i64 {
        self.0
    }

    fn wf(&self) -> bool {
        true
    }

    fn energy_spec(model: i64) -> u128 {
        (model - 10).unsigned_abs() as u128
    }

    fn neighbor_spec(model: i64, temperature: u32, state: u64) -> (i64, u64) {
        (model + 1 + (temperature / 100) as i64, state)
    }

    fn random_neighbor(&self, temperature: u32, _source: &mut RandomSource) -> Self {
        Walker(self.0 + 1 + (temperature / 100) as i64)
    }

    fn energy(&self) -> u128 {
        (self.0 - 10).unsigned_abs() as u128
    }
}

/// A candidate whose neighbour is drawn from the source. Its model says
/// nothing of the draw: nothing calls the model when the program runs.
#[derive(Debug, Clone, Copy, PartialEq, Eq)]
struct Jumper(u64);

impl Annealable for Jumper {
    type Model = u64;

    fn model(&self) -> u64 {
        self.0
    }

    fn wf(&self) -> bool {
        true
    }

    fn energy_spec(model: u64) -> u128 {
        model as u128
    }

    fn neighbor_spec(model: u64, _temperature: u32, state: u64) -> (u64, u64) {
        (model, state)
    }

    fn random_neighbor(&self, _temperature: u32, source: &mut RandomSource) -> Self {
        Jumper(source.below(1_000))
    }

    fn energy(&self) -> u128 {
        self.0 as u128
    }
}

#[test]
fn annealer_fails_without_steps() {
    let mut source = RandomSource::with_seed(1);
    let r = Annealer::new(Walker(0), 5).anneal(0, &mut source);
    assert_eq!(r.err(), Some(PreconditionViolation::ZeroSteps));
    let r = Annealer::new(Walker(0), 5).anneal_with_energy(0, &mut source);
    assert_eq!(r.map(|best: StateEnergy<Walker>| best.energy).err(), Some(PreconditionViolation::ZeroSteps));
    assert_eq!(source.state(), 1);
}

#[test]
fn annealer_starts_without_a_best_candidate() {
    let run = Annealer::new(Walker(3), 5);
    assert!(run.best().is_none());
    assert_eq!(run.current().state, Walker(3));
    assert_eq!(run.current().energy, 7);
}

#[test]
fn state_energy_scores_the_candidate() {
    let scored = StateEnergy::new(Walker(-5));
    assert_eq!(scored.state, Walker(-5));
    assert_eq!(scored.energy, 15);
}

#[test]
fn temperature_falls_linearly_to_zero() {
    let run = Annealer::new(Walker(0), 1_000);
    assert_eq!(run.temperature(4, 0), 750);
    assert_eq!(run.temperature(4, 1), 500);
    assert_eq!(run.temperature(4, 2), 250);
    assert_eq!(run.temperature(4, 3), 0);
    assert_eq!(run.temperature(1, 0), 0);
    assert_eq!(run.temperature(3, 0), 666);
    assert_eq!(run.temperature(3, 1), 333);
    let hot = Annealer::new(Walker(0), u32::MAX);
    assert_eq!(hot.temperature(u32::MAX, 0), u32::MAX - 1);
    assert_eq!(hot.temperature(2, 0), u32::MAX / 2);
}

#[test]
fn acceptance_is_a_threshold_on_the_loss() {
    assert!(Annealer::<Walker>::do_accept(10, 12, 2));
    assert!(!Annealer::<Walker>::do_accept(10, 13, 2));
    assert!(Annealer::<Walker>::do_accept(10, 10, 0));
    assert!(Annealer::<Walker>::do_accept(10, 5, 0));
    assert!(!Annealer::<Walker>::do_accept(10, 11, 0));
    assert!(Annealer::<Walker>::do_accept(0, u32::MAX as u128, u32::MAX));
    assert!(!Annealer::<Walker>::do_accept(0, u32::MAX as u128 + 1, u32::MAX));
    assert!(Annealer::<Walker>::do_accept(u128::MAX, 0, 0));
    assert!(!Annealer::<Walker>::do_accept(0, u128::MAX, u32::MAX));
}

#[test]
fn consider_records_the_first_neighbour_as_best() {
    let mut run = Annealer::new(Walker(10), 0);
    // Worse than the start, and not accepted at temperature zero: the walk
    // stays, but the neighbour is the best seen.
    run.consider(StateEnergy::new(Walker(14)), 0);
    assert_eq!(run.current().state, Walker(10));
    assert_eq!(run.best().map(|best| best.state), Some(Walker(14)));
    assert_eq!(run.best().map(|best| best.energy), Some(4));
}

#[test]
fn consider_replaces_the_best_only_by_a_better_one() {
    let mut run = Annealer::new(Walker(10), 0);
    run.consider(StateEnergy::new(Walker(14)), 0);
    run.consider(StateEnergy::new(Walker(6)), 0);
    assert_eq!(run.best().map(|best| best.state), Some(Walker(14)));
    run.consider(StateEnergy::new(Walker(7)), 0);
    assert_eq!(run.best().map(|best| best.state), Some(Walker(7)));
    run.consider(StateEnergy::new(Walker(13)), 0);
    assert_eq!(run.best().map(|best| best.state), Some(Walker(7)));
    assert_eq!(run.current().state, Walker(10));
}

#[test]
fn consider_moves_to_a_worse_neighbour_within_the_temperature() {
    let mut run = Annealer::new(Walker(8), 0);
    run.consider(StateEnergy::new(Walker(9)), 0);
    assert_eq!(run.current().state, Walker(9));
    assert_eq!(run.best().map(|best| best.state), Some(Walker(9)));
    // A loss of three fits the temperature three: the walk moves, the best
    // stays behind.
    run.consider(StateEnergy::new(Walker(14)), 3);
    assert_eq!(run.current().state, Walker(14));
    assert_eq!(run.current().energy, 4);
    assert_eq!(run.best().map(|best| best.state), Some(Walker(9)));
    // A loss of four does not.
    run.consider(StateEnergy::new(Walker(18)), 3);
    assert_eq!(run.current().state, Walker(14));
    // A gain is always taken.
    run.consider(StateEnergy::new(Walker(10)), 0);
    assert_eq!(run.current().state, Walker(10));
    assert_eq!(run.best().map(|best| best.state), Some(Walker(10)));
    assert_eq!(run.best().map(|best| best.energy), Some(0));
}

#[test]
fn improve_draws_a_neighbour_of_the_current_candidate() {
    let mut source = RandomSource::with_seed(5);
    let mut run = Annealer::new(Walker(0), 0);
    run.improve(0, &mut source);
    assert_eq!(run.current().state, Walker(1));
    run.improve(250, &mut source);
    assert_eq!(run.current().state, Walker(4));
    assert_eq!(run.best().map(|best| best.state), Some(Walker(4)));
}

#[test]
fn anneal_returns_the_best_candidate_seen() {
    let mut source = RandomSource::with_seed(5);
    // Temperature zero: every step moves one to the right.
    let best = Annealer::new(Walker(0), 0).anneal(3, &mut source).unwrap();
    assert_eq!(best, Walker(3));
    // From nine the walk reaches ten and stays: eleven is worse.
    let best = Annealer::new(Walker(9), 0).anneal_with_energy(5, &mut source).unwrap();
    assert_eq!(best.state, Walker(10));
    assert_eq!(best.energy, 0);
}

#[test]
fn anneal_follows_the_cooling_schedule() {
    // Four steps from 1000: the temperatures are 750, 500, 250 and 0, and
    // the neighbours lie 8, 6, 3 and 1 to the right.
    //   0 -> 8 (energy 2, best, taken)
    //   8 -> 14 (energy 4, a loss of 2, taken)
    //   14 -> 17 (energy 7, a loss of 3, taken)
    //   17 -> 18 (energy 8, a loss of 1 at temperature 0, refused)
    let mut source = RandomSource::with_seed(5);
    let best = Annealer::new(Walker(0), 1_000).anneal_with_energy(4, &mut source).unwrap();
    assert_eq!(best.state, Walker(8));
    assert_eq!(best.energy, 2);
}

#[test]
fn anneal_result_is_no_worse_than_any_neighbour_drawn() {
    for seed in 0..20 {
        let mut source = RandomSource::with_seed(seed);
        let best = Annealer::new(Jumper(500), 100).anneal_with_energy(30, &mut source).unwrap();
        let mut replay = RandomSource::with_seed(seed);
        let least = (0..30).map(|_| replay.below(1_000)).min().unwrap();
        assert_eq!(best.energy, least as u128);
        assert_eq!(best.state, Jumper(least));
        assert_eq!(source, replay);
    }
}

#[test]
fn anneal_result_is_no_worse_than_the_start_when_a_neighbour_is() {
    let mut source = RandomSource::with_seed(5);
    let start = Walker(4);
    let best = Annealer::new(start, 0).anneal_with_energy(1, &mut source).unwrap();
    assert!(best.energy <= start.energy());
}

#[test]
fn anneal_result_can_be_worse_than_the_start() {
    // The start stands on ten, the best place there is. Its neighbour is
    // worse and is not taken, yet it is the best candidate seen.
    let mut source = RandomSource::with_seed(5);
    let best = Annealer::new(Walker(10), 0).anneal_with_energy(2, &mut source).unwrap();
    assert_eq!(best.state, Walker(11));
    assert_eq!(best.energy, 1);
}
