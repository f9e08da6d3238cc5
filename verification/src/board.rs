use vstd::prelude::*;

use crate::cell::{next_live, Cell, CellState};
use crate::fingerprint::{
    board_fingerprint, cell_bytes, cell_term, fnv1_fold, hash_row, hash_rows, Fnv1Hasher,
    FNV1_64_OFFSET_BASIS,
};
use crate::history::{enqueue_spec, ConfigError, RingBuffer};

verus! {

/// Whether the cell at interior coordinates `(x, y)` of `rows` is live;
/// coordinates outside the interior count as dead.
pub open spec fn alive_at(rows: Seq<Seq<bool>>, x: int, y: int) -> bool {
    0 <= y < rows.len() && 0 <= x < rows[y].len() && rows[y][x]
}

/// 1 for a live cell, 0 for a dead one.
pub open spec fn ind(b: bool) -> int {
    if b {
        1
    } else {
        0
    }
}

/// The number of live cells among the eight neighbors of interior
/// coordinates `(x, y)`; cells beyond the interior count as dead.
pub open spec fn live_neighbors(rows: Seq<Seq<bool>>, x: int, y: int) -> int {
    ind(alive_at(rows, x - 1, y - 1)) + ind(alive_at(rows, x, y - 1)) + ind(
        alive_at(rows, x + 1, y - 1),
    ) + ind(alive_at(rows, x - 1, y)) + ind(alive_at(rows, x + 1, y)) + ind(
        alive_at(rows, x - 1, y + 1),
    ) + ind(alive_at(rows, x, y + 1)) + ind(alive_at(rows, x + 1, y + 1))
}

/// One synchronous generation of the automaton over the interior liveness:
/// every cell's next state is the transition rule applied to its current
/// state and its live-neighbor count, all read from the same old state.
pub open spec fn step(rows: Seq<Seq<bool>>) -> Seq<Seq<bool>> {
    Seq::new(
        rows.len(),
        |y: int|
            Seq::new(
                rows[y].len(),
                |x: int| next_live(rows[y][x], live_neighbors(rows, x, y) as nat),
            ),
    )
}

/// The interior liveness after `n` generations.
pub open spec fn generation(rows: Seq<Seq<bool>>, n: nat) -> Seq<Seq<bool>>
    decreases n,
{
    if n == 0 {
        rows
    } else {
        step(generation(rows, (n - 1) as nat))
    }
}

/// The board: a `(width + 2) x (height + 2)` grid of cells whose outermost
/// ring is a permanently dead border (so neighbor access never needs bounds
/// checks), plus the bounded history of past fingerprints used for cycle
/// detection.
pub struct Board {
    pub array: Vec<Vec<Cell>>,
    pub old_hash: RingBuffer,
    pub width: usize,
    pub height: usize,
}

impl Board {
    /// The grid has `height + 2` rows of `width + 2` cells each.
    pub open spec fn dims_ok(self) -> bool {
        &&& self.array@.len() == self.height + 2
        &&& forall|y: int|
            0 <= y < self.array@.len() ==> (#[trigger] self.array@[y])@.len() == self.width + 2
    }

    /// The cell at grid coordinates `(x, y)`.
    pub open spec fn cell(self, x: int, y: int) -> Cell {
        self.array@[y]@[x]
    }

    /// Whether the cell at grid coordinates `(x, y)` is live.
    pub open spec fn live(self, x: int, y: int) -> bool {
        self.cell(x, y).live()
    }

    /// Whether `(x, y)` is a valid grid coordinate.
    pub open spec fn in_grid(self, x: int, y: int) -> bool {
        0 <= x < self.width + 2 && 0 <= y < self.height + 2
    }

    /// Whether grid coordinates `(x, y)` lie in the playable interior.
    pub open spec fn is_interior(self, x: int, y: int) -> bool {
        1 <= x <= self.width && 1 <= y <= self.height
    }

    /// Whether grid coordinates `(x, y)` lie on the dead border ring.
    pub open spec fn is_border(self, x: int, y: int) -> bool {
        self.in_grid(x, y) && !self.is_interior(x, y)
    }

    /// Every border cell is dead.
    pub open spec fn border_dead(self) -> bool {
        forall|x: int, y: int| self.is_border(x, y) ==> !(#[trigger] self.live(x, y))
    }

    /// Every cell's touch counter is reset (as it is between generations).
    pub open spec fn counts_zero(self) -> bool {
        forall|x: int, y: int|
            self.in_grid(x, y) ==> (#[trigger] self.cell(x, y)).touches() == 0
    }

    /// The board's resting invariant, established by construction and
    /// restored after every generation.
    pub open spec fn wf(self) -> bool {
        &&& self.dims_ok()
        &&& self.border_dead()
        &&& self.counts_zero()
        &&& self.old_hash.wf()
    }

    /// The interior liveness, as `height` rows of `width` cells
    /// (interior `(ix, iy)` is grid `(ix + 1, iy + 1)`).
    pub open spec fn interior(self) -> Seq<Seq<bool>> {
        Seq::new(
            self.height as nat,
            |iy: int| Seq::new(self.width as nat, |ix: int| self.live(ix + 1, iy + 1)),
        )
    }

    /// The recorded fingerprints, oldest first.
    pub open spec fn history(self) -> Seq<u64> {
        self.old_hash@
    }

    /// A board with a `width x height` all-dead interior and a fingerprint
    /// history of capacity `board_histories`; a zero-capacity history is
    /// rejected as an invalid configuration.
    pub fn new(width: usize, height: usize, board_histories: usize) -> (r: Result<
        Board,
        ConfigError,
    >)
        requires
            width + 2 <= usize::MAX,
            height + 2 <= usize::MAX,
        ensures
            board_histories == 0 ==> r == Err::<Board, ConfigError>(ConfigError::ZeroCapacity),
            board_histories > 0 ==> r is Ok,
            r matches Ok(b) ==> b.wf() && b.width == width && b.height == height
                && b.old_hash.capacity() == board_histories && b.history() == Seq::<u64>::empty()
                && forall|x: int, y: int| b.in_grid(x, y) ==> !(#[trigger] b.live(x, y)),
    {
        let old_hash = match RingBuffer::new(board_histories) {
            Ok(h) => h,
            Err(e) => {
                return Err(e);
            },
        };
        let mut array: Vec<Vec<Cell>> = Vec::new();
        let rows_total = height + 2;
        let cols_total = width + 2;
        for y in 0..rows_total
            invariant
                array@.len() == y,
                forall|j: int| 0 <= j < y ==> (#[trigger] array@[j])@.len() == cols_total,
                forall|j: int, i: int|
                    0 <= j < y && 0 <= i < cols_total ==> !(#[trigger] array@[j]@[i]).live()
                        && array@[j]@[i].touches() == 0,
        {
            let mut row: Vec<Cell> = Vec::new();
            for x in 0..cols_total
                invariant
                    row@.len() == x,
                    forall|i: int|
                        0 <= i < x ==> !(#[trigger] row@[i]).live() && row@[i].touches() == 0,
            {
                row.push(Cell::new());
            }
            array.push(row);
        }
        Ok(Board { array, old_hash, width, height })
    }

    /// The interior dimensions, `(width, height)`.
    pub fn get_board_size(&self) -> (r: (usize, usize))
        ensures
            r.0 == self.width,
            r.1 == self.height,
    {
        (self.width, self.height)
    }

    /// Mark each given cell live. Coordinates are 0-based interior
    /// coordinates; the one-cell border offset is applied internally.
    pub fn seed(&mut self, points: Vec<(usize, usize)>)
        requires
            old(self).wf(),
            forall|i: int|
                0 <= i < points@.len() ==> (#[trigger] points@[i]).0 < old(self).width
                    && points@[i].1 < old(self).height,
        ensures
            final(self).wf(),
            final(self).width == old(self).width,
            final(self).height == old(self).height,
            final(self).old_hash == old(self).old_hash,
            forall|ix: int, iy: int|
                0 <= ix < old(self).width && 0 <= iy < old(self).height ==> final(self).live(
                    ix + 1,
                    iy + 1,
                ) == (old(self).live(ix + 1, iy + 1) || #[trigger] points@.contains(
                    (ix as usize, iy as usize),
                )),
    {
        let ghost init = *self;
        let n = points.len();
        for k in 0..n
            invariant
                self.wf(),
                self.width == init.width,
                self.height == init.height,
                self.old_hash == init.old_hash,
                n == points@.len(),
                forall|i: int|
                    0 <= i < points@.len() ==> (#[trigger] points@[i]).0 < self.width
                        && points@[i].1 < self.height,
                forall|ix: int, iy: int|
                    0 <= ix < self.width && 0 <= iy < self.height ==> #[trigger] self.live(
                        ix + 1,
                        iy + 1,
                    ) == (init.live(ix + 1, iy + 1) || points@.take(k as int).contains(
                        (ix as usize, iy as usize),
                    )),
        {
            let (px, py) = points[k];
            let gx = px + 1;
            let gy = py + 1;
            let ghost before = *self;
            self.array[gy][gx].set_state(CellState::Live);
            proof {
                assert(points@.take(k + 1) =~= points@.take(k as int).push(points@[k as int]));
                assert(self.live(gx as int, gy as int));
                assert forall|x: int, y: int|
                    before.in_grid(x, y) && !(x == gx && y == gy) implies #[trigger] self.cell(x, y)
                    == before.cell(x, y) by {
                    if y != gy {
                        assert(self.array@[y] == before.array@[y]);
                    }
                }
                assert(self.cell(gx as int, gy as int).touches() == before.cell(
                    gx as int,
                    gy as int,
                ).touches());
                assert(self.dims_ok());
                assert forall|x: int, y: int| self.is_border(x, y) implies !(#[trigger] self.live(
                    x,
                    y,
                )) by {
                    assert(self.cell(x, y) == before.cell(x, y));
                    assert(!before.live(x, y));
                }
                assert(self.counts_zero());
                assert(self.old_hash.wf());
                assert forall|ix: int, iy: int|
                    0 <= ix < self.width && 0 <= iy < self.height implies #[trigger] self.live(
                    ix + 1,
                    iy + 1,
                ) == (init.live(ix + 1, iy + 1) || points@.take(k + 1).contains(
                    (ix as usize, iy as usize),
                )) by {
                    let p = (ix as usize, iy as usize);
                    if ix + 1 == gx && iy + 1 == gy {
                        assert(points@[k as int] == p);
                        assert(points@.take(k + 1)[k as int] == p);
                        assert(points@.take(k + 1).contains(p));
                        assert(self.live(ix + 1, iy + 1));
                    } else {
                        assert(self.cell(ix + 1, iy + 1) == before.cell(ix + 1, iy + 1));
                        assert(before.live(ix + 1, iy + 1) == (init.live(ix + 1, iy + 1)
                            || points@.take(k as int).contains(p)));
                        if points@.take(k + 1).contains(p) {
                            let w = choose|w: int|
                                0 <= w < k + 1 && #[trigger] points@.take(k + 1)[w] == p;
                            if w < k {
                                assert(points@.take(k as int)[w] == p);
                                assert(points@.take(k as int).contains(p));
                            } else {
                                assert(points@[k as int] == p);
                            }
                        }
                        if points@.take(k as int).contains(p) {
                            let w = choose|w: int|
                                0 <= w < k && #[trigger] points@.take(k as int)[w] == p;
                            assert(points@.take(k + 1)[w] == p);
                            assert(points@.take(k + 1).contains(p));
                        }
                    }
                }
            }
        }
        proof {
            assert(points@.take(n as int) =~= points@);
        }
    }

    /// The number of live cells among the eight neighbors of the interior
    /// cell at grid coordinates `(x, y)`.
    fn count_live_neighbors(&self, x: usize, y: usize) -> (c: usize)
        requires
            self.dims_ok(),
            self.border_dead(),
            self.is_interior(x as int, y as int),
            self.width + 2 <= usize::MAX,
            self.height + 2 <= usize::MAX,
        ensures
            c == live_neighbors(self.interior(), x as int - 1, y as int - 1),
            c <= 8,
    {
        let mut c: usize = 0;
        if self.array[y - 1][x - 1].is_live() {
            c = c + 1;
        }
        if self.array[y - 1][x].is_live() {
            c = c + 1;
        }
        if self.array[y - 1][x + 1].is_live() {
            c = c + 1;
        }
        if self.array[y][x - 1].is_live() {
            c = c + 1;
        }
        if self.array[y][x + 1].is_live() {
            c = c + 1;
        }
        if self.array[y + 1][x - 1].is_live() {
            c = c + 1;
        }
        if self.array[y + 1][x].is_live() {
            c = c + 1;
        }
        if self.array[y + 1][x + 1].is_live() {
            c = c + 1;
        }
        proof {
            let xi = x as int;
            let yi = y as int;
            lemma_neighbor_term(*self, xi, yi, -1, -1);
            lemma_neighbor_term(*self, xi, yi, 0, -1);
            lemma_neighbor_term(*self, xi, yi, 1, -1);
            lemma_neighbor_term(*self, xi, yi, -1, 0);
            lemma_neighbor_term(*self, xi, yi, 1, 0);
            lemma_neighbor_term(*self, xi, yi, -1, 1);
            lemma_neighbor_term(*self, xi, yi, 0, 1);
            lemma_neighbor_term(*self, xi, yi, 1, 1);
        }
        c
    }

    /// The touch phase of one generation: every interior cell's touch
    /// counter is set to its live-neighbor count, read entirely from the
    /// settled pre-phase liveness (liveness itself is not modified).
    pub fn touch_phase(&mut self)
        requires
            old(self).wf(),
        ensures
            final(self).dims_ok(),
            final(self).width == old(self).width,
            final(self).height == old(self).height,
            final(self).old_hash == old(self).old_hash,
            forall|x: int, y: int|
                old(self).in_grid(x, y) ==> #[trigger] final(self).live(x, y) == old(self).live(
                    x,
                    y,
                ),
            forall|x: int, y: int|
                old(self).is_border(x, y) ==> (#[trigger] final(self).cell(x, y)).touches() == 0,
            forall|x: int, y: int|
                old(self).is_interior(x, y) ==> (#[trigger] final(self).cell(x, y)).touches()
                    == live_neighbors(old(self).interior(), x - 1, y - 1),
    {
        let ghost init = *self;
        let ghost rows0 = self.interior();
        let rows_total = self.array.len();
        for y in 1..(rows_total - 1)
            invariant
                rows_total == self.height + 2,
                self.width == init.width,
                self.height == init.height,
                self.old_hash == init.old_hash,
                self.dims_ok(),
                init.wf(),
                rows0 == init.interior(),
                1 <= y <= self.height + 1,
                forall|a: int, b: int|
                    init.in_grid(a, b) ==> #[trigger] self.live(a, b) == init.live(a, b),
                forall|a: int, b: int|
                    init.is_border(a, b) ==> (#[trigger] self.cell(a, b)).touches() == 0,
                forall|a: int, b: int|
                    init.is_interior(a, b) && b < y ==> (#[trigger] self.cell(a, b)).touches()
                        == live_neighbors(rows0, a - 1, b - 1),
                forall|a: int, b: int|
                    init.is_interior(a, b) && b >= y ==> (#[trigger] self.cell(a, b)).touches()
                        == 0,
        {
            let cols_total = self.array[y].len();
            for x in 1..(cols_total - 1)
                invariant
                    rows_total == self.height + 2,
                    cols_total == self.width + 2,
                    self.width == init.width,
                    self.height == init.height,
                    self.old_hash == init.old_hash,
                    self.dims_ok(),
                    init.wf(),
                    rows0 == init.interior(),
                    1 <= y <= self.height,
                    1 <= x <= self.width + 1,
                    forall|a: int, b: int|
                        init.in_grid(a, b) ==> #[trigger] self.live(a, b) == init.live(a, b),
                    forall|a: int, b: int|
                        init.is_border(a, b) ==> (#[trigger] self.cell(a, b)).touches() == 0,
                    forall|a: int, b: int|
                        init.is_interior(a, b) && (b < y || (b == y && a < x)) ==> (
                        #[trigger] self.cell(a, b)).touches() == live_neighbors(
                            rows0,
                            a - 1,
                            b - 1,
                        ),
                    forall|a: int, b: int|
                        init.is_interior(a, b) && (b > y || (b == y && a >= x)) ==> (
                        #[trigger] self.cell(a, b)).touches() == 0,
            {
                proof {
                    assert(self.interior() =~~= rows0);
                    assert forall|a: int, b: int| self.is_border(a, b) implies !(
                    #[trigger] self.live(a, b)) by {
                        assert(self.live(a, b) == init.live(a, b));
                        assert(!init.live(a, b));
                    }
                }
                let c = self.count_live_neighbors(x, y);
                let ghost mid = *self;
                for t in 0..c
                    invariant
                        c <= 8,
                        self.dims_ok(),
                        mid.dims_ok(),
                        self.width == mid.width,
                        self.height == mid.height,
                        self.old_hash == mid.old_hash,
                        1 <= x <= self.width,
                        1 <= y <= self.height,
                        (#[trigger] self.cell(x as int, y as int)).touches() == t,
                        self.cell(x as int, y as int).live() == mid.cell(
                            x as int,
                            y as int,
                        ).live(),
                        forall|a: int, b: int|
                            mid.in_grid(a, b) && !(a == x && b == y) ==> #[trigger] self.cell(a, b)
                                == mid.cell(a, b),
                {
                    let ghost pre = *self;
                    self.array[y][x].touch();
                    proof {
                        assert forall|a: int, b: int|
                            mid.in_grid(a, b) && !(a == x && b == y) implies #[trigger] self.cell(
                            a,
                            b,
                        ) == mid.cell(a, b) by {
                            assert(self.cell(a, b) == pre.cell(a, b));
                            assert(pre.cell(a, b) == mid.cell(a, b));
                        }
                    }
                }
                proof {
                    assert(self.cell(x as int, y as int).touches() == live_neighbors(
                        rows0,
                        x as int - 1,
                        y as int - 1,
                    ));
                    assert forall|a: int, b: int|
                        init.in_grid(a, b) implies #[trigger] self.live(a, b) == init.live(
                        a,
                        b,
                    ) by {
                        if !(a == x && b == y) {
                            assert(self.cell(a, b) == mid.cell(a, b));
                        }
                        assert(mid.live(a, b) == init.live(a, b));
                    }
                    assert forall|a: int, b: int|
                        init.is_border(a, b) implies (#[trigger] self.cell(a, b)).touches()
                        == 0 by {
                        assert(self.cell(a, b) == mid.cell(a, b));
                        assert(mid.cell(a, b).touches() == 0);
                    }
                    assert forall|a: int, b: int|
                        init.is_interior(a, b) && (b < y || (b == y && a < x + 1)) implies (
                    #[trigger] self.cell(a, b)).touches() == live_neighbors(rows0, a - 1, b - 1) by {
                        if !(a == x && b == y) {
                            assert(self.cell(a, b) == mid.cell(a, b));
                        }
                    }
                    assert forall|a: int, b: int|
                        init.is_interior(a, b) && (b > y || (b == y && a >= x + 1)) implies (
                    #[trigger] self.cell(a, b)).touches() == 0 by {
                        assert(self.cell(a, b) == mid.cell(a, b));
                    }
                }
            }
        }
    }

    /// Record the fingerprint of the current (pre-commit) liveness into the
    /// bounded history, then commit every cell: the recorded digest is that
    /// of the state that led to this transition, not of its result.
    pub fn commit_and_record(&mut self)
        requires
            old(self).dims_ok(),
            old(self).old_hash.wf(),
        ensures
            final(self).dims_ok(),
            final(self).width == old(self).width,
            final(self).height == old(self).height,
            final(self).old_hash.wf(),
            final(self).old_hash.capacity() == old(self).old_hash.capacity(),
            final(self).history() == enqueue_spec(
                old(self).history(),
                old(self).old_hash.capacity(),
                board_fingerprint(old(self).interior()),
            ),
            forall|x: int, y: int|
                old(self).in_grid(x, y) ==> (#[trigger] final(self).cell(x, y)).touches() == 0,
            forall|x: int, y: int|
                old(self).in_grid(x, y) ==> #[trigger] final(self).live(x, y) == next_live(
                    old(self).live(x, y),
                    old(self).cell(x, y).touches(),
                ),
    {
        let ghost init = *self;
        let fp = self.fingerprint();
        self.old_hash.enqueue(fp);
        let ghost hist = self.old_hash;
        let rows_total = self.array.len();
        for y in 0..rows_total
            invariant
                rows_total == self.height + 2,
                self.width == init.width,
                self.height == init.height,
                self.old_hash == hist,
                self.dims_ok(),
                forall|a: int, b: int|
                    init.in_grid(a, b) && b < y ==> (#[trigger] self.cell(a, b)).touches() == 0
                        && self.cell(a, b).live() == next_live(
                        init.live(a, b),
                        init.cell(a, b).touches(),
                    ),
                forall|a: int, b: int|
                    init.in_grid(a, b) && b >= y ==> #[trigger] self.cell(a, b) == init.cell(a, b),
        {
            let cols_total = self.array[y].len();
            for x in 0..cols_total
                invariant
                    rows_total == self.height + 2,
                    cols_total == self.width + 2,
                    self.width == init.width,
                    self.height == init.height,
                    self.old_hash == hist,
                    self.dims_ok(),
                    y < self.height + 2,
                    forall|a: int, b: int|
                        init.in_grid(a, b) && (b < y || (b == y && a < x)) ==> (
                        #[trigger] self.cell(a, b)).touches() == 0 && self.cell(a, b).live()
                            == next_live(init.live(a, b), init.cell(a, b).touches()),
                    forall|a: int, b: int|
                        init.in_grid(a, b) && (b > y || (b == y && a >= x)) ==> #[trigger] self.cell(
                            a,
                            b,
                        ) == init.cell(a, b),
            {
                let ghost pre = *self;
                self.array[y][x].commit_state();
                proof {
                    assert forall|a: int, b: int|
                        init.in_grid(a, b) && (b > y || (b == y && a >= x + 1)) implies #[trigger] self.cell(
                        a,
                        b,
                    ) == init.cell(a, b) by {
                        assert(self.cell(a, b) == pre.cell(a, b));
                    }
                    assert forall|a: int, b: int|
                        init.in_grid(a, b) && (b < y || (b == y && a < x + 1)) implies (
                    #[trigger] self.cell(a, b)).touches() == 0 && self.cell(a, b).live()
                        == next_live(init.live(a, b), init.cell(a, b).touches()) by {
                        if a == x && b == y {
                            assert(pre.cell(a, b) == init.cell(a, b));
                        } else {
                            assert(self.cell(a, b) == pre.cell(a, b));
                        }
                    }
                }
            }
        }
    }

    /// Advance the board by one generation: touch phase, then record the
    /// pre-transition fingerprint, then commit. The new interior is one
    /// synchronous step of the automaton; border cells stay dead.
    pub fn advance_generation(&mut self)
        requires
            old(self).wf(),
        ensures
            final(self).wf(),
            final(self).width == old(self).width,
            final(self).height == old(self).height,
            final(self).old_hash.capacity() == old(self).old_hash.capacity(),
            final(self).interior() == step(old(self).interior()),
            final(self).history() == enqueue_spec(
                old(self).history(),
                old(self).old_hash.capacity(),
                board_fingerprint(old(self).interior()),
            ),
    {
        let ghost init = *self;
        self.touch_phase();
        let ghost mid = *self;
        self.commit_and_record();
        proof {
            assert(mid.interior() =~~= init.interior());
            assert forall|x: int, y: int| init.is_border(x, y) implies !(#[trigger] self.live(
                x,
                y,
            )) by {
                assert(mid.cell(x, y).touches() == 0);
                assert(!mid.live(x, y));
                assert(self.live(x, y) == next_live(mid.live(x, y), mid.cell(x, y).touches()));
            }
            assert forall|ix: int, iy: int|
                0 <= ix < init.width && 0 <= iy < init.height implies #[trigger] self.live(
                ix + 1,
                iy + 1,
            ) == next_live(
                init.live(ix + 1, iy + 1),
                live_neighbors(init.interior(), ix, iy) as nat,
            ) by {
                assert(mid.cell(ix + 1, iy + 1).touches() == live_neighbors(
                    init.interior(),
                    ix,
                    iy,
                ));
                assert(self.live(ix + 1, iy + 1) == next_live(
                    mid.live(ix + 1, iy + 1),
                    mid.cell(ix + 1, iy + 1).touches(),
                ));
                assert(mid.live(ix + 1, iy + 1) == init.live(ix + 1, iy + 1));
            }
            assert(self.interior() =~~= step(init.interior()));
        }
    }

    /// The board's fingerprint: the FNV-1 digest of the interior liveness,
    /// row-major. It depends on interior liveness and position only; touch
    /// counters and border cells never enter the digest.
    pub fn fingerprint(&self) -> (r: u64)
        requires
            self.dims_ok(),
        ensures
            r == board_fingerprint(self.interior()),
    {
        let ghost rows = self.interior();
        let mut hasher = Fnv1Hasher::new();
        let rows_total = self.array.len();
        for y in 1..(rows_total - 1)
            invariant
                rows_total == self.height + 2,
                self.dims_ok(),
                rows == self.interior(),
                1 <= y <= self.height + 1,
                hasher.state == hash_rows(FNV1_64_OFFSET_BASIS, rows, y - 1),
        {
            let cols_total = self.array[y].len();
            let ghost row_base = hasher.state;
            for x in 1..(cols_total - 1)
                invariant
                    rows_total == self.height + 2,
                    cols_total == self.width + 2,
                    self.dims_ok(),
                    rows == self.interior(),
                    1 <= y <= self.height,
                    1 <= x <= self.width + 1,
                    row_base == hash_rows(FNV1_64_OFFSET_BASIS, rows, y - 1),
                    hasher.state == hash_row(row_base, rows[y - 1], y, x - 1),
            {
                let term: u64 = if self.array[y][x].is_live() {
                    x.wrapping_mul(y) as u64
                } else {
                    0
                };
                proof {
                    assert(rows[y - 1].len() == self.width as int);
                    assert(rows[y - 1][x - 1] == self.live(x as int, y as int));
                    assert(term == cell_term(x, y, rows[y - 1][x - 1]));
                }
                hasher.hash_u64_be(term);
                proof {
                    assert(hash_row(row_base, rows[y - 1], y, x as int) == fnv1_fold(
                        hash_row(row_base, rows[y - 1], y, x - 1),
                        cell_bytes(x, y, rows[y - 1][x - 1]),
                    ));
                }
            }
            proof {
                assert(rows[y - 1].len() == self.width as int);
                assert(hash_rows(FNV1_64_OFFSET_BASIS, rows, y as int) == hash_row(
                    hash_rows(FNV1_64_OFFSET_BASIS, rows, y - 1),
                    rows[y - 1],
                    y,
                    rows[y - 1].len() as int,
                ));
            }
        }
        proof {
            assert(rows.len() == self.height as nat);
        }
        hasher.finalize()
    }

    /// Whether the current fingerprint already occurs in the bounded
    /// history, i.e. whether the board has returned to (or sustained) a
    /// state observed within the lookback window.
    pub fn is_repeat_of_history(&self) -> (r: bool)
        requires
            self.dims_ok(),
            self.old_hash.wf(),
        ensures
            r == self.history().contains(board_fingerprint(self.interior())),
    {
        let fp = self.fingerprint();
        self.old_hash.contains(fp)
    }
}

/// Law: the simulation is deterministic. The evolution and every board
/// digest are pure functions of the seeded interior liveness, so two boards
/// that start from the same state produce the same state and the same
/// fingerprint after any number of generations.
pub proof fn lemma_determinism(rows1: Seq<Seq<bool>>, rows2: Seq<Seq<bool>>, n: nat)
    requires
        rows1 == rows2,
    ensures
        generation(rows1, n) == generation(rows2, n),
        board_fingerprint(generation(rows1, n)) == board_fingerprint(generation(rows2, n)),
{
}

/// Law: on any well-formed board — as established at construction and
/// restored after every generation — every border cell is dead and carries a
/// zero touch counter.
pub proof fn lemma_border_invariance(b: Board)
    requires
        b.wf(),
    ensures
        forall|x: int, y: int|
            b.is_border(x, y) ==> !(#[trigger] b.live(x, y)) && b.cell(x, y).touches() == 0,
{
    assert forall|x: int, y: int|
        b.is_border(x, y) implies !(#[trigger] b.live(x, y)) && b.cell(x, y).touches() == 0 by {
        assert(!b.live(x, y));
        assert(b.cell(x, y).touches() == 0);
    }
}

/// Law: the fingerprint reads interior liveness only. Two boards of the same
/// dimensions whose interior cells agree on liveness — whatever touch-count
/// residue or history either carries — hash identically.
pub proof fn lemma_fingerprint_ignores_touches(b1: Board, b2: Board)
    requires
        b1.dims_ok(),
        b2.dims_ok(),
        b1.width == b2.width,
        b1.height == b2.height,
        forall|x: int, y: int|
            b1.is_interior(x, y) ==> #[trigger] b1.live(x, y) == b2.live(x, y),
    ensures
        board_fingerprint(b1.interior()) == board_fingerprint(b2.interior()),
{
    assert(b1.interior() =~~= b2.interior());
}

/// Bridges a cell's eight grid neighbors to the interior-view neighbor
/// count: a neighbor beyond the interior is a border cell, and border cells
/// are dead.
proof fn lemma_neighbor_term(b: Board, x: int, y: int, dx: int, dy: int)
    requires
        b.dims_ok(),
        b.border_dead(),
        b.is_interior(x, y),
        -1 <= dx <= 1,
        -1 <= dy <= 1,
    ensures
        alive_at(b.interior(), x - 1 + dx, y - 1 + dy) == b.live(x + dx, y + dy),
{
    let rows = b.interior();
    if 1 <= x + dx <= b.width && 1 <= y + dy <= b.height {
        assert(rows[y - 1 + dy].len() == b.width as int);
        assert(rows[y - 1 + dy][x - 1 + dx] == b.live(x + dx, y + dy));
    } else {
        assert(b.is_border(x + dx, y + dy));
        assert(!b.live(x + dx, y + dy));
        if 0 <= y - 1 + dy < rows.len() {
            assert(rows[y - 1 + dy].len() == b.width as int);
        }
    }
}

} // verus!
