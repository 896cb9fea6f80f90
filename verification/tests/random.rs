use pacman::random::{RandomSource, Scripted, ThreadRandom};

#[test]
fn thread_random_picks_below_the_bound() {
    let mut rng = ThreadRandom::new();
    for bound in [1usize, 2, 3, 4, 7, 100] {
        let mut seen = vec![false; bound];
        for _ in 0..(200 * bound) {
            let i = rng.index(bound);
            assert!(i < bound);
            seen[i] = true;
        }
        assert!(seen.iter().all(|s| *s));
    }
}

#[test]
fn thread_random_never_hits_at_zero_and_always_at_a_hundred() {
    let mut rng = ThreadRandom::new();
    for _ in 0..1000 {
        assert!(!rng.chance(0));
        assert!(rng.chance(100));
    }
}

#[test]
fn thread_random_hits_about_as_often_as_asked() {
    let mut rng = ThreadRandom::new();
    for percent in [50u8, 55, 75, 95] {
        let trials = 20_000;
        let mut hits = 0;
        for _ in 0..trials {
            if rng.chance(percent) {
                hits += 1;
            }
        }
        let expected = trials * percent as i32 / 100;
        assert!((hits - expected).abs() < 800, "{} hits at {} percent", hits, percent);
    }
}

#[test]
fn scripted_plays_back_its_rolls() {
    let mut rng = Scripted::new(vec![0, 49, 50, 99, 100, 149, 150, 255], vec![]);
    let hits: Vec<bool> = (0..8).map(|_| rng.chance(50)).collect();
    // 100, 149, 150 and 255 count as 0, 49, 50 and 55
    assert_eq!(hits, vec![true, true, false, false, true, true, false, false]);
    // used up: goes on with zeros
    assert!(rng.chance(1));
    assert!(!rng.chance(0));
}

#[test]
fn scripted_rolls_never_hit_at_zero_and_always_at_a_hundred() {
    let mut rng = Scripted::new(vec![0, 99, 0, 99], vec![]);
    assert!(!rng.chance(0));
    assert!(!rng.chance(0));
    assert!(rng.chance(100));
    assert!(rng.chance(100));
}

#[test]
fn scripted_plays_back_its_picks() {
    let mut rng = Scripted::new(vec![], vec![0, 1, 2, 3, 4, 9]);
    assert_eq!(rng.index(4), 0);
    assert_eq!(rng.index(4), 1);
    assert_eq!(rng.index(4), 2);
    assert_eq!(rng.index(3), 0);
    assert_eq!(rng.index(3), 1);
    assert_eq!(rng.index(1), 0);
    // used up: goes on with zeros
    assert_eq!(rng.index(4), 0);
}

#[test]
fn scripted_keeps_rolls_and_picks_apart() {
    let mut rng = Scripted::new(vec![10, 90], vec![3, 1]);
    assert_eq!(rng.index(4), 3);
    assert!(rng.chance(50));
    assert_eq!(rng.index(4), 1);
    assert!(!rng.chance(50));
}
