use collager::fixed::UNIT;
use collager::{Lab, RandomSource};

#[test]
fn source_starts_from_its_seed() {
    assert_eq!(RandomSource::with_seed(7).state(), 7);
    assert_eq!(RandomSource::with_seed(u64::MAX).state(), u64::MAX);
}

#[test]
fn below_draws_the_numbers_of_the_generator() {
    let mut source = RandomSource::with_seed(7);
    let drawn: Vec<u64> = (0..5).map(|_| source.below(10)).collect();
    assert_eq!(drawn, vec![7, 2, 7, 4, 1]);
    assert_eq!(source.state(), 16288329078222510912);
}

#[test]
fn below_moves_the_seed_on() {
    let mut source = RandomSource::with_seed(7);
    let value = source.below(1_000_000);
    assert_eq!(value, 773_381);
    assert_eq!(source.state(), 3257665815644502188);
    let mut one = RandomSource::with_seed(0);
    assert_eq!(one.below(1), 0);
    assert_eq!(one.state(), 3257665815644502181);
}

#[test]
fn below_stays_below_the_bound() {
    let mut source = RandomSource::with_seed(99);
    for bound in [1u64, 2, 3, 10, 1_000, 1 << 40, u64::MAX] {
        for _ in 0..200 {
            assert!(source.below(bound) < bound);
        }
    }
}

#[test]
fn equal_seeds_give_equal_draws() {
    let mut a = RandomSource::with_seed(12345);
    let mut b = RandomSource::with_seed(12345);
    for _ in 0..100 {
        assert_eq!(a.below(1_000_003), b.below(1_000_003));
        assert_eq!(a, b);
    }
    let mut c = RandomSource::with_seed(a.state());
    assert_eq!(a.below(17), c.below(17));
}

#[test]
fn index_draws_inside_the_count() {
    let mut source = RandomSource::with_seed(3);
    let drawn: Vec<usize> = (0..6).map(|_| source.index(5)).collect();
    assert_eq!(drawn, vec![2, 1, 1, 4, 3, 4]);
    assert_eq!(source.index(1), 0);
}

#[test]
fn unit_draws_a_fraction_between_zero_and_one() {
    let mut source = RandomSource::with_seed(1);
    let drawn: Vec<i64> = (0..3).map(|_| source.unit()).collect();
    assert_eq!(drawn, vec![657_039, 534_615, 239_635]);
    assert_eq!(source.state(), 9772997446933506544);
    for _ in 0..1000 {
        let value = source.unit();
        assert!(0 <= value && value < UNIT);
    }
}

#[test]
fn spread_draws_a_fraction_between_minus_one_and_one() {
    let mut source = RandomSource::with_seed(1);
    let drawn: Vec<i64> = (0..3).map(|_| source.spread()).collect();
    assert_eq!(drawn, vec![314_079, 69_231, -520_730]);
    let mut negative = 0;
    for _ in 0..1000 {
        let value = source.spread();
        assert!(-UNIT <= value && value < UNIT);
        if value < 0 {
            negative += 1;
        }
    }
    assert!(negative > 300 && negative < 700);
}

#[test]
fn random_colour_takes_three_draws() {
    let mut source = RandomSource::with_seed(7);
    let colour = Lab::random(&mut source);
    assert_eq!(colour, Lab { l: 77_338_180, a: -71_043_590, b: 55_882_344 });
    assert_eq!(source.state(), 9772997446933506550);
    for _ in 0..200 {
        let c = Lab::random(&mut source);
        assert!(0 <= c.l && c.l < 100_000_000);
        assert!(-128_000_000 <= c.a && c.a < 128_000_000);
        assert!(-128_000_000 <= c.b && c.b < 128_000_000);
    }
}
