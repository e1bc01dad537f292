use vstd::prelude::*;
use crate::cell::Cell;
use crate::life::{neighbor_count, live_neighbors_of, next_gen, toggled};

verus! {

/// Underpopulation: a living cell with at most one living neighbor is
/// absent from the next generation.
pub proof fn lemma_lonely_cell_dies(s: Set<Cell>, c: Cell)
    requires
        s.contains(c),
        neighbor_count(s, c) <= 1,
    ensures
        !next_gen(s).contains(c),
{
}

/// Birth and survival with three neighbors: any cell with exactly
/// three living neighbors, dead or alive, is alive next generation.
pub proof fn lemma_three_neighbors_lives(s: Set<Cell>, c: Cell)
    requires
        neighbor_count(s, c) == 3,
    ensures
        next_gen(s).contains(c),
{
}

/// Survival: a living cell with exactly two living neighbors stays
/// alive.
pub proof fn lemma_two_neighbors_survives(s: Set<Cell>, c: Cell)
    requires
        s.contains(c),
        neighbor_count(s, c) == 2,
    ensures
        next_gen(s).contains(c),
{
}

/// Overpopulation: a living cell with four or more living neighbors
/// dies.
pub proof fn lemma_overcrowded_cell_dies(s: Set<Cell>, c: Cell)
    requires
        s.contains(c),
        neighbor_count(s, c) >= 4,
    ensures
        !next_gen(s).contains(c),
{
}

/// A step taken from the empty living set yields the empty living
/// set.
pub proof fn lemma_empty_stays_empty()
    ensures
        next_gen(Set::<Cell>::empty()) == Set::<Cell>::empty(),
{
    assert forall|c: Cell| !(#[trigger] next_gen(Set::<Cell>::empty()).contains(c)) by {
        assert(live_neighbors_of(Set::<Cell>::empty(), c) =~= Set::<Cell>::empty());
    }
    assert(next_gen(Set::<Cell>::empty()) =~= Set::<Cell>::empty());
}

/// Toggling the same cell twice returns the living set to where it
/// started.
pub proof fn lemma_toggle_round_trip(s: Set<Cell>, c: Cell)
    ensures
        toggled(toggled(s, c), c) == s,
{
    if s.contains(c) {
        assert(s.remove(c).insert(c) =~= s);
    } else {
        assert(s.insert(c).remove(c) =~= s);
    }
}

} // verus!
