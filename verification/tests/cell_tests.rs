use game_of_life::cell::{check_neighbor, get_adjacent};
use game_of_life::{Cell, ClickTracker};

#[test]
fn cell_from_tuple_and_array() {
    let a: Cell = (3, -4).into();
    assert_eq!(a, Cell { x: 3, y: -4 });
    let b: Cell = [3, -4].into();
    assert_eq!(a, b);
}

#[test]
fn adjacency_lists_all_eight_neighbors() {
    let adj = get_adjacent(Cell { x: 2, y: -1 });
    assert_eq!(adj.len(), 8);
    for dx in -1..=1 {
        for dy in -1..=1 {
            if dx == 0 && dy == 0 {
                continue;
            }
            let n = Cell { x: 2 + dx, y: -1 + dy };
            assert!(adj.iter().any(|&c| c == n), "missing neighbor {:?}", n);
        }
    }
}

#[test]
fn neighbor_test_matches_the_grid() {
    let c = Cell { x: 0, y: 0 };
    assert!(check_neighbor(Cell { x: 1, y: 1 }, c));
    assert!(check_neighbor(Cell { x: -1, y: 0 }, c));
    assert!(!check_neighbor(c, c));
    assert!(!check_neighbor(Cell { x: 2, y: 0 }, c));
    // Far-apart coordinates must not be called neighbors, even at the
    // ends of the i32 range.
    assert!(!check_neighbor(Cell { x: i32::MIN, y: 0 }, Cell { x: i32::MAX, y: 0 }));
}

#[test]
fn quick_release_is_a_click() {
    let mut t = ClickTracker::new();
    t.press(1000);
    assert!(t.release(1100));
    assert!(t.pressed_at.is_none());
}

#[test]
fn slow_release_is_a_drag() {
    let mut t = ClickTracker::new();
    t.press(1000);
    assert!(!t.release(1150));
}

#[test]
fn release_without_press_is_ignored() {
    let mut t = ClickTracker::new();
    assert!(!t.release(500));
}

#[test]
fn second_press_restarts_the_window() {
    let mut t = ClickTracker::new();
    t.press(0);
    t.press(600);
    assert!(t.release(700));
}
