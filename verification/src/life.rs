use vstd::prelude::*;
use crate::cell::{Cell, is_neighbor, in_bounds, check_neighbor, check_in_bounds, get_adjacent};

verus! {

broadcast use vstd::seq_lib::seq_to_set_is_finite;

/// The living neighbors of `c` within the living set `s`.
pub open spec fn live_neighbors_of(s: Set<Cell>, c: Cell) -> Set<Cell> {
    s.filter(|n: Cell| is_neighbor(n, c))
}

/// How many living neighbors `c` has in the living set `s`.
pub open spec fn neighbor_count(s: Set<Cell>, c: Cell) -> nat {
    live_neighbors_of(s, c).len()
}

/// The survival/birth rule: a cell lives in the generation after `s`
/// iff it has exactly three living neighbors, or exactly two and is
/// alive in `s` already.
pub open spec fn alive_next(s: Set<Cell>, c: Cell) -> bool {
    neighbor_count(s, c) == 3 || (neighbor_count(s, c) == 2 && s.contains(c))
}

/// The generation that follows the living set `s`.
pub open spec fn next_gen(s: Set<Cell>) -> Set<Cell> {
    Set::new(|c: Cell| alive_next(s, c))
}

/// The living set after the cell `c` is toggled: removed if alive,
/// inserted if dead.
pub open spec fn toggled(s: Set<Cell>, c: Cell) -> Set<Cell> {
    if s.contains(c) {
        s.remove(c)
    } else {
        s.insert(c)
    }
}

/// Every member of `s` has all eight of its neighbor coordinates
/// representable as `i32`.
pub open spec fn all_in_bounds(s: Set<Cell>) -> bool {
    forall|c: Cell| #[trigger] s.contains(c) ==> in_bounds(c)
}

/// The set of currently-alive grid coordinates, stored without
/// duplicates.
pub struct LivingCellLocations {
    pub cells: Vec<Cell>,
}

impl View for LivingCellLocations {
    type V = Set<Cell>;

    open spec fn view(&self) -> Set<Cell> {
        self.cells@.to_set()
    }
}

impl LivingCellLocations {
    /// Set semantics: the backing vector lists each living cell once.
    pub open spec fn wf(self) -> bool {
        self.cells@.no_duplicates()
    }

    /// An empty living set.
    pub fn new() -> (s: LivingCellLocations)
        ensures
            s.wf(),
            s@ == Set::<Cell>::empty(),
    {
        let s = LivingCellLocations { cells: Vec::new() };
        proof {
            assert(s@ =~= Set::<Cell>::empty());
        }
        s
    }

    /// Whether the cell `c` is currently alive.
    pub fn contains(&self, c: Cell) -> (r: bool)
        ensures
            r == self@.contains(c),
    {
        vec_contains(&self.cells, c)
    }

    /// How many cells are alive.
    pub fn len(&self) -> (n: usize)
        requires
            self.wf(),
        ensures
            n == self@.len(),
    {
        proof {
            self.cells@.unique_seq_to_set();
        }
        self.cells.len()
    }

    /// Whether every living cell is far enough from the edge of the
    /// `i32` coordinate range for a step to be taken.
    pub fn all_in_bounds(&self) -> (r: bool)
        ensures
            r == all_in_bounds(self@),
    {
        let mut i: usize = 0;
        while i < self.cells.len()
            invariant
                0 <= i <= self.cells@.len(),
                forall|k: int| 0 <= k < i ==> in_bounds(#[trigger] self.cells@[k]),
            decreases self.cells@.len() - i,
        {
            if !check_in_bounds(self.cells[i]) {
                proof {
                    assert(self@.contains(self.cells@[i as int]));
                }
                return false;
            }
            i += 1;
        }
        proof {
            assert forall|c: Cell| #[trigger] self@.contains(c) implies in_bounds(c) by {
                let k = choose|k: int| 0 <= k < self.cells@.len() && self.cells@[k] == c;
                assert(in_bounds(self.cells@[k]));
            }
        }
        true
    }

    /// Flip the cell `c`: remove it from the living set if it is
    /// alive, insert it if it is dead. Returns whether it was alive.
    pub fn toggle(&mut self, c: Cell) -> (was_alive: bool)
        requires
            old(self).wf(),
        ensures
            final(self).wf(),
            final(self)@ == toggled(old(self)@, c),
            was_alive == old(self)@.contains(c),
    {
        let was_alive = vec_contains(&self.cells, c);
        if was_alive {
            let mut out: Vec<Cell> = Vec::new();
            let mut i: usize = 0;
            while i < self.cells.len()
                invariant
                    0 <= i <= self.cells@.len(),
                    self.cells@.no_duplicates(),
                    out@.no_duplicates(),
                    forall|m: Cell| #[trigger] out@.contains(m) <==> (self.cells@.take(
                        i as int,
                    ).contains(m) && m != c),
                decreases self.cells@.len() - i,
            {
                let cur = self.cells[i];
                proof {
                    lemma_take_one_more(self.cells@, i as int);
                    if cur != c {
                        if out@.contains(cur) {
                            lemma_no_dup_take_index(self.cells@, i as int);
                            assert(false);
                        }
                    }
                }
                if cur != c {
                    let ghost old_out = out@;
                    out.push(cur);
                    proof {
                        lemma_push_no_dup(old_out, cur);
                        assert forall|m: Cell| #[trigger] out@.contains(m) implies (self.cells@.take(
                            i as int + 1,
                        ).contains(m) && m != c) by {
                            lemma_seq_push_contains(old_out, cur, m);
                            lemma_seq_push_contains(self.cells@.take(i as int), cur, m);
                        }
                        assert forall|m: Cell|
                            self.cells@.take(i as int + 1).contains(m) && m != c implies #[trigger] out@.contains(
                            m,
                        ) by {
                            lemma_seq_push_contains(old_out, cur, m);
                            lemma_seq_push_contains(self.cells@.take(i as int), cur, m);
                        }
                    }
                } else {
                    proof {
                        assert forall|m: Cell|
                            self.cells@.take(i as int + 1).contains(m) && m != c implies #[trigger] out@.contains(
                            m,
                        ) by {
                            lemma_seq_push_contains(self.cells@.take(i as int), cur, m);
                        }
                    }
                }
                i += 1;
            }
            proof {
                assert(self.cells@.take(self.cells@.len() as int) =~= self.cells@);
                assert(out@.to_set() =~= self@.remove(c));
            }
            self.cells = out;
        } else {
            let ghost old_seq = self.cells@;
            self.cells.push(c);
            proof {
                lemma_push_no_dup(old_seq, c);
                assert forall|m: Cell| #[trigger] self.cells@.contains(m) implies old_seq.to_set().insert(
                    c,
                ).contains(m) by {
                    lemma_seq_push_contains(old_seq, c, m);
                }
                assert forall|m: Cell| old_seq.to_set().insert(c).contains(m) implies #[trigger] self.cells@.contains(
                    m,
                ) by {
                    lemma_seq_push_contains(old_seq, c, m);
                }
                assert(self.cells@.to_set() =~= old_seq.to_set().insert(c));
            }
        }
        was_alive
    }
}

/// Whether the sequence underlying `v` holds the cell `c`.
fn vec_contains(v: &Vec<Cell>, c: Cell) -> (r: bool)
    ensures
        r == v@.to_set().contains(c),
{
    let mut i: usize = 0;
    while i < v.len()
        invariant
            0 <= i <= v@.len(),
            forall|k: int| 0 <= k < i ==> v@[k] != c,
        decreases v@.len() - i,
    {
        if v[i] == c {
            return true;
        }
        i += 1;
    }
    proof {
        if v@.to_set().contains(c) {
            let k = choose|k: int| 0 <= k < v@.len() && v@[k] == c;
            assert(v@[k] != c);
        }
    }
    false
}

/// Appending an element that a sequence does not hold keeps the
/// sequence free of duplicates.
proof fn lemma_push_no_dup<A>(s: Seq<A>, a: A)
    requires
        s.no_duplicates(),
        !s.contains(a),
    ensures
        s.push(a).no_duplicates(),
{
    assert forall|i: int, j: int|
        0 <= i < s.push(a).len() && 0 <= j < s.push(a).len() && i != j implies s.push(a)[i]
        != s.push(a)[j] by {
        if i < s.len() && j < s.len() {
            assert(s[i] != s[j]);
        } else if i < s.len() {
            assert(s[i] != a);
        } else if j < s.len() {
            assert(s[j] != a);
        }
    }
}

/// What a sequence holds after a push: its old elements and the new
/// one.
proof fn lemma_seq_push_contains<A>(s: Seq<A>, a: A, x: A)
    ensures
        s.push(a).contains(x) <==> (s.contains(x) || x == a),
{
    if s.contains(x) {
        let k = choose|k: int| 0 <= k < s.len() && s[k] == x;
        assert(s.push(a)[k] == x);
    }
    assert(s.push(a)[s.len() as int] == a);
    if s.push(a).contains(x) {
        let k = choose|k: int| 0 <= k < s.push(a).len() && s.push(a)[k] == x;
        if k < s.len() {
            assert(s[k] == x);
        }
    }
}

/// One more element of a prefix: `take(i + 1)` is `take(i)` plus the
/// element at `i`.
proof fn lemma_take_one_more<A>(s: Seq<A>, i: int)
    requires
        0 <= i < s.len(),
    ensures
        s.take(i + 1) =~= s.take(i).push(s[i]),
{
}

/// In a duplicate-free sequence, the element at `i` does not occur in
/// the prefix before `i`.
proof fn lemma_no_dup_take_index<A>(s: Seq<A>, i: int)
    requires
        s.no_duplicates(),
        0 <= i < s.len(),
    ensures
        !s.take(i).contains(s[i]),
{
    if s.take(i).contains(s[i]) {
        let k = choose|k: int| 0 <= k < i && s.take(i)[k] == s[i];
        assert(s[k] == s[i]);
    }
}

/// How a filtered set grows when a fresh element is inserted: by one
/// if the element passes the filter, not at all otherwise.
proof fn lemma_filter_insert(s: Set<Cell>, a: Cell, f: spec_fn(Cell) -> bool)
    requires
        s.finite(),
        !s.contains(a),
    ensures
        s.insert(a).filter(f).finite(),
        s.insert(a).filter(f).len() == s.filter(f).len() + (if f(a) {
            1int
        } else {
            0int
        }),
{
    s.lemma_len_filter(f);
    s.insert(a).lemma_len_filter(f);
    if f(a) {
        assert(s.insert(a).filter(f) =~= s.filter(f).insert(a));
    } else {
        assert(s.insert(a).filter(f) =~= s.filter(f));
    }
}

/// Counts the living neighbors of `c` in the set that `cells` holds.
fn count_live_neighbors(cells: &Vec<Cell>, c: Cell) -> (n: usize)
    requires
        cells@.no_duplicates(),
    ensures
        n == neighbor_count(cells@.to_set(), c),
{
    let ghost f = |m: Cell| is_neighbor(m, c);
    let mut n: usize = 0;
    let mut i: usize = 0;
    proof {
        assert(cells@.take(0).to_set() =~= Set::<Cell>::empty());
        assert(Set::<Cell>::empty().filter(f) =~= Set::<Cell>::empty());
    }
    while i < cells.len()
        invariant
            0 <= i <= cells@.len(),
            cells@.no_duplicates(),
            n <= i,
            f == (|m: Cell| is_neighbor(m, c)),
            n == cells@.take(i as int).to_set().filter(f).len(),
        decreases cells@.len() - i,
    {
        let ghost prefix = cells@.take(i as int).to_set();
        proof {
            lemma_take_one_more(cells@, i as int);
            lemma_no_dup_take_index(cells@, i as int);
            cells@.take(i as int).lemma_push_to_set_commute(cells@[i as int]);
            assert(cells@.take(i as int + 1).to_set() =~= prefix.insert(cells@[i as int]));
            lemma_filter_insert(prefix, cells@[i as int], f);
        }
        if check_neighbor(cells[i], c) {
            n += 1;
        }
        i += 1;
    }
    proof {
        assert(cells@.take(cells@.len() as int) =~= cells@);
    }
    n
}

/// Every cell adjacent to at least one living cell of `cells`, each
/// listed once.
fn collect_candidates(cells: &Vec<Cell>) -> (out: Vec<Cell>)
    requires
        forall|k: int| 0 <= k < cells@.len() ==> in_bounds(#[trigger] cells@[k]),
    ensures
        out@.no_duplicates(),
        forall|n: Cell| #[trigger] out@.contains(n) <==> exists|k: int|
            0 <= k < cells@.len() && is_neighbor(n, #[trigger] cells@[k]),
{
    let mut out: Vec<Cell> = Vec::new();
    let mut i: usize = 0;
    while i < cells.len()
        invariant
            0 <= i <= cells@.len(),
            forall|k: int| 0 <= k < cells@.len() ==> in_bounds(#[trigger] cells@[k]),
            out@.no_duplicates(),
            forall|n: Cell| #[trigger] out@.contains(n) <==> exists|k: int|
                0 <= k < i && is_neighbor(n, #[trigger] cells@[k]),
        decreases cells@.len() - i,
    {
        let center = cells[i];
        let adj = get_adjacent(center);
        let mut j: usize = 0;
        while j < 8
            invariant
                0 <= j <= 8,
                0 <= i < cells@.len(),
                adj@.len() == 8,
                center == cells@[i as int],
                forall|k: int| 0 <= k < 8 ==> is_neighbor(#[trigger] adj@[k], center),
                out@.no_duplicates(),
                forall|n: Cell| #[trigger] out@.contains(n) <==> ((exists|k: int|
                    0 <= k < i && is_neighbor(n, #[trigger] cells@[k])) || adj@.take(
                    j as int,
                ).contains(n)),
            decreases 8 - j,
        {
            let n = adj[j];
            let ghost old_out = out@;
            if !vec_contains(&out, n) {
                out.push(n);
                proof {
                    lemma_push_no_dup(old_out, n);
                }
            }
            proof {
                lemma_take_one_more(adj@, j as int);
                assert forall|m: Cell| #[trigger] out@.contains(m) implies ((exists|k: int|
                    0 <= k < i && is_neighbor(m, #[trigger] cells@[k])) || adj@.take(
                    j as int + 1,
                ).contains(m)) by {
                    lemma_seq_push_contains(old_out, n, m);
                    lemma_seq_push_contains(adj@.take(j as int), n, m);
                }
                assert forall|m: Cell|
                    ((exists|k: int| 0 <= k < i && is_neighbor(m, #[trigger] cells@[k]))
                        || adj@.take(j as int + 1).contains(m)) implies #[trigger] out@.contains(
                    m,
                ) by {
                    lemma_seq_push_contains(old_out, n, m);
                    lemma_seq_push_contains(adj@.take(j as int), n, m);
                }
            }
            j += 1;
        }
        proof {
            assert(adj@.take(8) =~= adj@);
            assert forall|m: Cell| #[trigger] out@.contains(m) implies (exists|k: int|
                0 <= k < i + 1 && is_neighbor(m, #[trigger] cells@[k])) by {
                if adj@.contains(m) {
                    let k = choose|k: int| 0 <= k < 8 && adj@[k] == m;
                    assert(is_neighbor(m, cells@[i as int]));
                }
            }
        }
        i += 1;
    }
    out
}

/// A cell that is alive in the next generation has a living neighbor:
/// it is adjacent to some member of `s`.
proof fn lemma_alive_next_has_live_neighbor(s: Set<Cell>, c: Cell)
    requires
        s.finite(),
        alive_next(s, c),
    ensures
        exists|l: Cell| #[trigger] s.contains(l) && is_neighbor(c, l),
{
    let f = |m: Cell| is_neighbor(m, c);
    let ln = live_neighbors_of(s, c);
    s.lemma_len_filter(f);
    let l = ln.choose();
    assert(ln.contains(l));
    assert(s.contains(l) && is_neighbor(l, c));
    crate::cell::lemma_is_neighbor_symmetric(l, c);
}

/// The survival/birth rule of the automaton, read off a neighbor
/// tally: alive next iff the tally is three, or two for a cell that is
/// alive in `prev`.
pub fn alive_rules(count: usize, prev: &LivingCellLocations, coords: Cell) -> (r: bool)
    ensures
        r == (count == 3 || (count == 2 && prev@.contains(coords))),
{
    count == 3 || (count == 2 && prev.contains(coords))
}

/// One generation of the automaton: the living set that the
/// survival/birth rule produces from `cells`.
pub fn step(cells: &LivingCellLocations) -> (next: LivingCellLocations)
    requires
        cells.wf(),
        all_in_bounds(cells@),
    ensures
        next.wf(),
        next@ == next_gen(cells@),
{
    let ghost s = cells@;
    proof {
        assert forall|k: int| 0 <= k < cells.cells@.len() implies in_bounds(
            #[trigger] cells.cells@[k],
        ) by {
            assert(s.contains(cells.cells@[k]));
        }
    }
    let cand = collect_candidates(&cells.cells);
    let mut next: Vec<Cell> = Vec::new();
    let mut j: usize = 0;
    while j < cand.len()
        invariant
            0 <= j <= cand@.len(),
            cells.wf(),
            s == cells@,
            cand@.no_duplicates(),
            forall|n: Cell| #[trigger] cand@.contains(n) <==> exists|k: int|
                0 <= k < cells.cells@.len() && is_neighbor(n, #[trigger] cells.cells@[k]),
            next@.no_duplicates(),
            forall|n: Cell| #[trigger] next@.contains(n) <==> (cand@.take(j as int).contains(n)
                && alive_next(s, n)),
        decreases cand@.len() - j,
    {
        let c = cand[j];
        let count = count_live_neighbors(&cells.cells, c);
        let ghost old_next = next@;
        proof {
            lemma_take_one_more(cand@, j as int);
            lemma_no_dup_take_index(cand@, j as int);
        }
        if alive_rules(count, cells, c) {
            proof {
                if next@.contains(c) {
                    assert(cand@.take(j as int).contains(c));
                    assert(false);
                }
            }
            next.push(c);
            proof {
                lemma_push_no_dup(old_next, c);
            }
        }
        proof {
            assert forall|m: Cell| #[trigger] next@.contains(m) implies (cand@.take(
                j as int + 1,
            ).contains(m) && alive_next(s, m)) by {
                lemma_seq_push_contains(old_next, c, m);
                lemma_seq_push_contains(cand@.take(j as int), c, m);
            }
            assert forall|m: Cell|
                cand@.take(j as int + 1).contains(m) && alive_next(s, m) implies #[trigger] next@.contains(
                m,
            ) by {
                lemma_seq_push_contains(old_next, c, m);
                lemma_seq_push_contains(cand@.take(j as int), c, m);
            }
        }
        j += 1;
    }
    let result = LivingCellLocations { cells: next };
    proof {
        assert(cand@.take(cand@.len() as int) =~= cand@);
        assert forall|n: Cell| #[trigger] next_gen(s).contains(n) implies next@.contains(n) by {
            lemma_alive_next_has_live_neighbor(s, n);
            let l = choose|l: Cell| #[trigger] s.contains(l) && is_neighbor(n, l);
            let k = choose|k: int| 0 <= k < cells.cells@.len() && cells.cells@[k] == l;
            assert(is_neighbor(n, cells.cells@[k]));
            assert(cand@.contains(n));
        }
        assert(result@ =~= next_gen(s));
    }
    result
}

/// The compiled-in starting pattern of the demo.
pub open spec fn initial_pattern_spec() -> Set<Cell> {
    set![
        (Cell { x: 1, y: 2 }),
        (Cell { x: 2, y: 1 }),
        (Cell { x: 2, y: 0 }),
        (Cell { x: 1, y: 0 }),
        (Cell { x: 0, y: 0 }),
    ]
}

/// The living set the demo starts from: a five-cell glider.
pub fn initial_pattern() -> (start: LivingCellLocations)
    ensures
        start.wf(),
        start@ == initial_pattern_spec(),
{
    let mut start = LivingCellLocations::new();
    start.toggle(Cell { x: 1, y: 2 });
    start.toggle(Cell { x: 2, y: 1 });
    start.toggle(Cell { x: 2, y: 0 });
    start.toggle(Cell { x: 1, y: 0 });
    start.toggle(Cell { x: 0, y: 0 });
    proof {
        assert(start@ =~= initial_pattern_spec());
    }
    start
}

} // verus!
