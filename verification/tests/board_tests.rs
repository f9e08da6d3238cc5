use life_core::board::Board;
use life_core::history::ConfigError;

fn live_interior(b: &Board) -> Vec<(usize, usize)> {
    let (w, h) = b.get_board_size();
    let mut out = Vec::new();
    for iy in 0..h {
        for ix in 0..w {
            if b.array[iy + 1][ix + 1].is_live() {
                out.push((ix, iy));
            }
        }
    }
    out
}

#[test]
fn zero_history_capacity_is_rejected() {
    match Board::new(5, 5, 0) {
        Err(e) => assert_eq!(e, ConfigError::ZeroCapacity),
        Ok(_) => panic!("a zero-capacity history must be rejected at construction"),
    }
}

#[test]
fn new_board_is_all_dead() {
    let b = Board::new(4, 3, 2).unwrap();
    assert_eq!(b.get_board_size(), (4, 3));
    assert!(live_interior(&b).is_empty());
    assert!(!b.is_repeat_of_history());
}

#[test]
fn seed_marks_given_cells_live() {
    let mut b = Board::new(5, 5, 2).unwrap();
    b.seed(vec![(0, 0), (4, 4), (2, 3)]);
    let mut live = live_interior(&b);
    live.sort();
    assert_eq!(live, vec![(0, 0), (2, 3), (4, 4)]);
}

#[test]
fn rule_correctness_birth_on_three() {
    // Three live cells in a row: the dead cells above and below the middle
    // have exactly three live neighbors and are born; the ends die.
    let mut b = Board::new(5, 5, 10).unwrap();
    b.seed(vec![(1, 2), (2, 2), (3, 2)]);
    b.advance_generation();
    let mut live = live_interior(&b);
    live.sort();
    assert_eq!(live, vec![(2, 1), (2, 2), (2, 3)]);
}

#[test]
fn block_halts_after_exactly_one_generation() {
    // A 2x2 block is a still life: its fingerprint repeats at once.
    let mut b = Board::new(6, 6, 100).unwrap();
    b.seed(vec![(2, 2), (3, 2), (2, 3), (3, 3)]);
    assert!(!b.is_repeat_of_history());
    b.advance_generation();
    let mut live = live_interior(&b);
    live.sort();
    assert_eq!(live, vec![(2, 2), (2, 3), (3, 2), (3, 3)]);
    assert!(b.is_repeat_of_history());
}

#[test]
fn blinker_is_detected_within_two_generations() {
    // A period-2 blinker: its starting fingerprint reappears after the
    // second generation.
    let mut b = Board::new(7, 7, 100).unwrap();
    b.seed(vec![(2, 3), (3, 3), (4, 3)]);
    let mut generations = 0;
    while !b.is_repeat_of_history() {
        b.advance_generation();
        generations += 1;
        assert!(generations <= 3, "blinker not detected in time");
    }
    assert_eq!(generations, 2);
}

#[test]
fn glider_is_not_falsely_halted() {
    // A glider keeps translating, so within a short lookback window no
    // fingerprint repeats while it is far from the walls.
    let mut b = Board::new(20, 20, 3).unwrap();
    b.seed(vec![(2, 1), (3, 2), (1, 3), (2, 3), (3, 3)]);
    for _ in 0..10 {
        b.advance_generation();
        assert!(!b.is_repeat_of_history());
    }
}

#[test]
fn border_stays_dead_with_zero_counts() {
    // Activity right against the interior edge never leaks into the border.
    let mut b = Board::new(6, 6, 100).unwrap();
    b.seed(vec![(0, 0), (1, 0), (0, 1), (5, 5), (5, 4), (4, 5), (2, 0), (0, 2)]);
    for _ in 0..5 {
        b.advance_generation();
        let (w, h) = b.get_board_size();
        for x in 0..w + 2 {
            for y in [0, h + 1] {
                assert!(!b.array[y][x].is_live());
                assert_eq!(b.array[y][x].count, 0);
            }
        }
        for y in 0..h + 2 {
            for x in [0, w + 1] {
                assert!(!b.array[y][x].is_live());
                assert_eq!(b.array[y][x].count, 0);
            }
        }
    }
}

#[test]
fn identical_runs_are_identical() {
    // Determinism: same seed and size, two independent runs, identical
    // fingerprint sequence and identical halt generation.
    let seed = vec![(2, 1), (3, 2), (1, 3), (2, 3), (3, 3), (7, 7), (8, 7), (7, 8), (8, 8)];
    let mut a = Board::new(12, 12, 50).unwrap();
    let mut b = Board::new(12, 12, 50).unwrap();
    a.seed(seed.clone());
    b.seed(seed);
    let mut halt_a = None;
    let mut halt_b = None;
    for g in 0..200 {
        assert_eq!(a.fingerprint(), b.fingerprint());
        if halt_a.is_none() && a.is_repeat_of_history() {
            halt_a = Some(g);
        }
        if halt_b.is_none() && b.is_repeat_of_history() {
            halt_b = Some(g);
        }
        a.advance_generation();
        b.advance_generation();
    }
    assert_eq!(halt_a, halt_b);
    assert!(halt_a.is_some());
}

#[test]
fn touch_phase_then_commit_equals_advance() {
    // advance_generation is exactly the touch phase followed by
    // commit_and_record.
    let mut a = Board::new(8, 8, 10).unwrap();
    let mut b = Board::new(8, 8, 10).unwrap();
    a.seed(vec![(3, 2), (4, 3), (2, 4), (3, 4), (4, 4)]);
    b.seed(vec![(3, 2), (4, 3), (2, 4), (3, 4), (4, 4)]);
    a.advance_generation();
    b.touch_phase();
    b.commit_and_record();
    assert_eq!(a.fingerprint(), b.fingerprint());
    assert_eq!(live_interior(&a), live_interior(&b));
}

#[test]
fn recorded_fingerprint_is_pre_commit() {
    // The digest recorded by a generation is the one of the state that led
    // to the transition, not of its result.
    let mut b = Board::new(7, 7, 100).unwrap();
    b.seed(vec![(2, 3), (3, 3), (4, 3)]);
    let before = b.fingerprint();
    b.advance_generation();
    assert!(b.old_hash.contains(before));
}
