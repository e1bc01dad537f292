use game_of_life::life::{alive_rules, initial_pattern, step};
use game_of_life::{Cell, LivingCellLocations};

fn make(coords: &[(i32, i32)]) -> LivingCellLocations {
    let mut s = LivingCellLocations::new();
    for &(x, y) in coords {
        let was_alive = s.toggle(Cell { x, y });
        assert!(!was_alive);
    }
    s
}

fn assert_same_cells(s: &LivingCellLocations, expected: &[(i32, i32)]) {
    assert_eq!(s.len(), expected.len());
    for &(x, y) in expected {
        assert!(s.contains(Cell { x, y }), "missing cell ({}, {})", x, y);
    }
}

#[test]
fn empty_step_stays_empty() {
    let empty = LivingCellLocations::new();
    let next = step(&empty);
    assert_eq!(next.len(), 0);
}

#[test]
fn lone_cell_dies() {
    let one = make(&[(5, -3)]);
    let next = step(&one);
    assert_eq!(next.len(), 0);
}

#[test]
fn pair_of_cells_dies() {
    // Each cell has exactly one living neighbor.
    let pair = make(&[(0, 0), (1, 0)]);
    let next = step(&pair);
    assert_eq!(next.len(), 0);
}

#[test]
fn blinker_oscillates() {
    let horizontal = make(&[(-1, 0), (0, 0), (1, 0)]);
    let vertical = step(&horizontal);
    assert_same_cells(&vertical, &[(0, -1), (0, 0), (0, 1)]);
    let again = step(&vertical);
    assert_same_cells(&again, &[(-1, 0), (0, 0), (1, 0)]);
}

#[test]
fn dead_cell_with_three_neighbors_is_born() {
    let corner = make(&[(0, 0), (1, 0), (0, 1)]);
    let next = step(&corner);
    assert!(next.contains(Cell { x: 1, y: 1 }));
}

#[test]
fn living_cell_with_three_neighbors_survives() {
    // A 2x2 block: every cell has exactly three living neighbors.
    let block = make(&[(0, 0), (1, 0), (0, 1), (1, 1)]);
    let next = step(&block);
    assert_same_cells(&next, &[(0, 0), (1, 0), (0, 1), (1, 1)]);
}

#[test]
fn living_cell_with_two_neighbors_survives() {
    // The center of a blinker keeps exactly two neighbors.
    let blinker = make(&[(-1, 0), (0, 0), (1, 0)]);
    let next = step(&blinker);
    assert!(next.contains(Cell { x: 0, y: 0 }));
}

#[test]
fn living_cell_with_four_neighbors_dies() {
    // A plus shape: the center has four living neighbors.
    let plus = make(&[(0, 0), (1, 0), (-1, 0), (0, 1), (0, -1)]);
    let next = step(&plus);
    assert!(!next.contains(Cell { x: 0, y: 0 }));
}

#[test]
fn toggle_round_trip() {
    let mut s = make(&[(3, 3)]);
    let c = Cell { x: 7, y: -2 };
    assert!(!s.contains(c));
    let was_alive = s.toggle(c);
    assert!(!was_alive);
    assert!(s.contains(c));
    assert_eq!(s.len(), 2);
    let was_alive = s.toggle(c);
    assert!(was_alive);
    assert!(!s.contains(c));
    assert_same_cells(&s, &[(3, 3)]);
}

#[test]
fn initial_pattern_holds_the_glider() {
    let start = initial_pattern();
    assert_same_cells(&start, &[(1, 2), (2, 1), (2, 0), (1, 0), (0, 0)]);
}

#[test]
fn glider_first_step() {
    let start = initial_pattern();
    let next = step(&start);
    assert_same_cells(&next, &[(0, 1), (1, -1), (1, 0), (2, 0), (2, 1)]);
}

#[test]
fn glider_translates_after_four_steps() {
    // After four generations a glider reappears shifted by (1, -1).
    let mut s = initial_pattern();
    for _ in 0..4 {
        s = step(&s);
    }
    assert_same_cells(&s, &[(2, 1), (3, 0), (3, -1), (2, -1), (1, -1)]);
}

#[test]
fn alive_rules_follow_the_automaton() {
    let living = make(&[(0, 0)]);
    assert!(alive_rules(3, &living, Cell { x: 4, y: 4 }));
    assert!(alive_rules(2, &living, Cell { x: 0, y: 0 }));
    assert!(!alive_rules(2, &living, Cell { x: 4, y: 4 }));
    assert!(!alive_rules(1, &living, Cell { x: 0, y: 0 }));
    assert!(!alive_rules(4, &living, Cell { x: 0, y: 0 }));
}

#[test]
fn bounds_check_spots_the_edge() {
    let fine = make(&[(0, 0), (1000, -1000)]);
    assert!(fine.all_in_bounds());
    let mut edge = LivingCellLocations::new();
    edge.toggle(Cell { x: i32::MAX, y: 0 });
    assert!(!edge.all_in_bounds());
}
