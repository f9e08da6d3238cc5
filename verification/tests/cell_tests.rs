use life_core::cell::{Cell, CellState};

fn cell_with(prior_live: bool, touches: usize) -> Cell {
    let mut c = Cell::new();
    if prior_live {
        c.set_state(CellState::Live);
    }
    for _ in 0..touches {
        c.touch();
    }
    c
}

#[test]
fn new_cell_is_dead_with_zero_count() {
    let c = Cell::new();
    assert!(!c.is_live());
    assert_eq!(c.count, 0);
}

#[test]
fn set_state_overrides_liveness() {
    let mut c = Cell::new();
    c.set_state(CellState::Live);
    assert!(c.is_live());
    c.set_state(CellState::Dead);
    assert!(!c.is_live());
}

#[test]
fn touch_and_untouch_adjust_count() {
    let mut c = Cell::new();
    c.touch();
    c.touch();
    c.touch();
    assert_eq!(c.count, 3);
    c.untouch();
    assert_eq!(c.count, 2);
}

#[test]
fn commit_resets_count() {
    let mut c = cell_with(false, 3);
    c.commit_state();
    assert_eq!(c.count, 0);
    assert!(c.is_live());
}

#[test]
fn rule_dead_cell_all_neighbor_counts() {
    // A dead cell becomes alive exactly on a count of 3.
    for n in 0..=8 {
        let mut c = cell_with(false, n);
        c.commit_state();
        assert_eq!(c.is_live(), n == 3, "dead cell with {} touches", n);
    }
}

#[test]
fn rule_live_cell_all_neighbor_counts() {
    // A live cell survives exactly on a count of 2 or 3.
    for n in 0..=8 {
        let mut c = cell_with(true, n);
        c.commit_state();
        assert_eq!(c.is_live(), n == 2 || n == 3, "live cell with {} touches", n);
    }
}
