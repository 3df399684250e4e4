use dice::random::seed_from_clock;
use dice::RandomSource;

fn seeded(seed: u32) -> RandomSource {
    let mut source = RandomSource::new();
    source.init(Some(seed));
    source
}

#[test]
fn new_source_is_unseeded() {
    assert_eq!(RandomSource::new().state(), None);
}

#[test]
fn seeding_replaces_the_state() {
    let mut source = RandomSource::new();
    source.init(Some(7));
    assert_eq!(source.state(), Some(7));
    source.next_in_range(1, 6);
    source.next_in_range(1, 6);
    source.init(Some(7));
    assert_eq!(source.state(), Some(7));
    source.init(Some(8));
    assert_eq!(source.state(), Some(8));
}

#[test]
fn seeding_from_the_clock_leaves_the_state_of_a_seed() {
    let mut source = seeded(99);
    source.next_in_range(0, 9);
    source.init(None);
    assert!(source.state().unwrap() <= u64::from(u32::MAX));
}

#[test]
fn ensure_seeded_keeps_a_seeded_state() {
    let mut source = seeded(31);
    source.ensure_seeded();
    assert_eq!(source.state(), Some(31));
    source.next_in_range(1, 2);
    let state = source.state();
    source.ensure_seeded();
    assert_eq!(source.state(), state);
}

#[test]
fn ensure_seeded_seeds_an_unseeded_source() {
    let mut source = RandomSource::new();
    source.ensure_seeded();
    assert!(source.state().unwrap() <= u64::from(u32::MAX));
}

#[test]
fn drawing_unseeded_seeds_first() {
    let mut source = RandomSource::new();
    let value = source.next_in_range(10, 20);
    assert!(value >= 10 && value <= 20);
    assert!(source.state().is_some());
}

#[test]
fn each_draw_steps_the_state_once() {
    let mut source = seeded(1);
    source.next_in_range(1, 6);
    assert_eq!(source.state(), Some(7806831264735756412));
    source.next_in_range(-5, 5);
    assert_eq!(source.state(), Some(9396908728118811419));
    source.next_in_range(0, 0);
    assert_eq!(source.state(), Some(11960119808228829710));
}

#[test]
fn the_first_step_from_zero_is_the_increment() {
    let mut source = seeded(0);
    source.next_in_range(1, 6);
    assert_eq!(source.state(), Some(1442695040888963407));
}

#[test]
fn draws_are_those_of_the_seed() {
    let mut source = seeded(7);
    let drawn: Vec<i32> = (0..8).map(|_| source.next_in_range(-3, 3)).collect();
    assert_eq!(drawn, vec![3, -1, 1, -1, -1, -2, -3, -3]);

    let mut source = seeded(2024);
    let drawn: Vec<i32> = (0..4).map(|_| source.next_in_range(1, 100)).collect();
    assert_eq!(drawn, vec![5, 54, 69, 92]);

    let mut source = seeded(u32::MAX);
    let drawn: Vec<i32> = (0..4).map(|_| source.next_in_range(1, 6)).collect();
    assert_eq!(drawn, vec![1, 1, 3, 5]);
}

#[test]
fn draws_cover_the_whole_of_the_integers() {
    let mut source = seeded(7);
    assert_eq!(source.next_in_range(i32::MIN, i32::MAX), -29153092);
    assert_eq!(source.next_in_range(i32::MIN, i32::MAX), 1957042815);
    assert_eq!(source.next_in_range(i32::MIN, i32::MAX), 1746229858);
}

#[test]
fn a_range_of_one_number_gives_that_number() {
    let mut source = seeded(3);
    assert_eq!(source.next_in_range(10, 10), 10);
    let mut source = seeded(3);
    source.next_in_range(10, 10);
    let drawn: Vec<i32> = (0..8).map(|_| source.next_in_range(0, 1)).collect();
    assert_eq!(drawn, vec![1, 1, 0, 1, 1, 0, 1, 1]);
    assert_eq!(source.next_in_range(i32::MIN, i32::MIN), i32::MIN);
    assert_eq!(source.next_in_range(i32::MAX, i32::MAX), i32::MAX);
}

#[test]
fn draws_stay_within_the_range() {
    let mut source = seeded(123);
    for (low, high) in [(1, 6), (-6, -1), (-100, 100), (0, 0), (i32::MIN, 0), (0, i32::MAX), (i32::MAX - 1, i32::MAX)] {
        for _ in 0..200 {
            let value = source.next_in_range(low, high);
            assert!(value >= low && value <= high);
        }
    }
}

#[test]
fn same_seed_same_draws() {
    let mut first = seeded(55555);
    let mut second = seeded(55555);
    for _ in 0..100 {
        assert_eq!(first.next_in_range(-1000, 1000), second.next_in_range(-1000, 1000));
    }
    assert_eq!(first.state(), second.state());
}

#[test]
fn clock_readings_become_seeds() {
    assert_eq!(seed_from_clock(None), 0);
    assert_eq!(seed_from_clock(Some(0)), 0);
    assert_eq!(seed_from_clock(Some(1)), 1);
    assert_eq!(seed_from_clock(Some(1_700_000_000)), 1_700_000_000);
    assert_eq!(seed_from_clock(Some(4294967295)), 4294967295);
    assert_eq!(seed_from_clock(Some(4294967296)), 0);
    assert_eq!(seed_from_clock(Some(4294967301)), 5);
    assert_eq!(seed_from_clock(Some(u64::MAX)), 4294967295);
}
