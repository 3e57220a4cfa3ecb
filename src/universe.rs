//! A Game of Life universe on a torus: the grid, its neighbour count and the
//! step from one generation to the next.

use vstd::prelude::*;

use vstd::arithmetic::div_mod::lemma_fundamental_div_mod_converse;

use crate::cell_store::{bits_of, lemma_bits_of_injective, Cell, CellStore};

verus! {

/// Width and height of a newly built universe.
pub const UNIVERSE_SIZE: usize = 128;

/// What a coordinate-level operation rejects.
#[derive(Clone, Copy, Debug, PartialEq, Eq, Structural)]
pub enum LifeError {
    /// A row or column outside the grid.
    IndexError,
    /// A width or height of zero, or one whose grid does not fit in memory.
    InvalidDimension,
}

/// The initial pattern of a new universe.
#[derive(Clone, Copy, Debug, PartialEq, Eq, Structural)]
pub enum StartType {
    Default,
    Random,
    AllDead,
    Spaceship,
}

/// Whether the cell at (`row`, `col`) of a grid of width `w` is alive.
pub open spec fn cell_at(g: Seq<bool>, w: int, row: int, col: int) -> bool {
    g[row * w + col]
}

/// One term of the neighbour count: the cell at offset (`dr`, `dc`), taken
/// around the torus, counts 1 when alive; the offset (0, 0) is never counted.
pub open spec fn neighbour_term(
    g: Seq<bool>,
    w: int,
    h: int,
    row: int,
    col: int,
    dr: int,
    dc: int,
) -> int {
    if dr == 0 && dc == 0 {
        0
    } else if cell_at(g, w, (row + dr) % h, (col + dc) % w) {
        1
    } else {
        0
    }
}

/// The terms for one row offset, over the column offsets `w - 1`, 0 and 1.
pub open spec fn row_count(g: Seq<bool>, w: int, h: int, row: int, col: int, dr: int) -> int {
    neighbour_term(g, w, h, row, col, dr, w - 1) + neighbour_term(g, w, h, row, col, dr, 0)
        + neighbour_term(g, w, h, row, col, dr, 1)
}

/// Live neighbours of (`row`, `col`): the terms over row offsets `h - 1`, 0, 1
/// and column offsets `w - 1`, 0, 1.
pub open spec fn live_count(g: Seq<bool>, w: int, h: int, row: int, col: int) -> int {
    row_count(g, w, h, row, col, h - 1) + row_count(g, w, h, row, col, 0) + row_count(g, w, h, row, col, 1)
}

/// The rule of Life: a live cell survives with two or three live
/// neighbours, a dead cell comes alive with exactly three.
pub open spec fn next_state(alive: bool, n: int) -> bool {
    if alive {
        n == 2 || n == 3
    } else {
        n == 3
    }
}

/// The grid one generation on. Each of the `w * h` cells follows the rule
/// applied to the given grid; storage beyond them is kept.
pub open spec fn next_grid(g: Seq<bool>, w: int, h: int) -> Seq<bool> {
    Seq::new(
        g.len(),
        |i: int|
            if i < w * h {
                next_state(g[i], live_count(g, w, h, i / w, i % w))
            } else {
                g[i]
            },
    )
}

/// Whether some coordinate of `cells` names index `i` in a grid of width `w`.
pub open spec fn listed(cells: Seq<(usize, usize)>, w: int, i: int) -> bool {
    exists|k: int| 0 <= k < cells.len() && #[trigger] cells[k].0 * w + cells[k].1 == i
}

/// Whether some coordinate of `cells` lies outside a `w` by `h` grid.
pub open spec fn any_out_of_range(cells: Seq<(usize, usize)>, w: int, h: int) -> bool {
    exists|k: int| 0 <= k < cells.len() && (#[trigger] cells[k].0 >= h || cells[k].1 >= w)
}

/// The cells of the canonical glider, as (row, column).
pub open spec fn glider() -> Seq<(usize, usize)> {
    seq![(4, 3), (5, 4), (6, 2), (6, 3), (6, 4)]
}

/// The state of cell `i` in a new universe of width `w`, built with
/// `start_type` and, for a random start, the draws `random_cells`.
pub open spec fn initial_cell(start_type: StartType, random_cells: Seq<bool>, w: int, i: int) -> bool {
    match start_type {
        StartType::Default => i % 2 == 0 || i % 7 == 0,
        StartType::Random => i < random_cells.len() && random_cells[i],
        StartType::AllDead => false,
        StartType::Spaceship => listed(glider(), w, i),
    }
}

/// The glyph of a cell in a rendering.
pub open spec fn glyph(alive: bool) -> char {
    if alive {
        '◼'
    } else {
        '◻'
    }
}

/// Row `row` of a grid of width `w`, one glyph per cell.
pub open spec fn render_row(g: Seq<bool>, w: int, row: int) -> Seq<char> {
    Seq::new(w as nat, |col: int| glyph(cell_at(g, w, row, col)))
}

/// The first `n` rows, each followed by a line break.
pub open spec fn render_rows(g: Seq<bool>, w: int, n: int) -> Seq<char>
    decreases n,
{
    if n <= 0 {
        Seq::empty()
    } else {
        render_rows(g, w, n - 1) + render_row(g, w, n - 1).push('\n')
    }
}

/// A grid of `w * h` cells with its row and column arithmetic in range.
pub open spec fn valid_dims(w: int, h: int) -> bool {
    w >= 1 && h >= 1 && w * h + 7 <= usize::MAX
}

/// Cell (`row`, `col`) sits at `row * w + col`, within the first `w * h` cells.
proof fn lemma_index_in_grid(w: int, h: int, row: int, col: int)
    requires
        w >= 1,
        0 <= row < h,
        0 <= col < w,
    ensures
        0 <= row * w + col < w * h,
        (row * w + col) / w == row,
        (row * w + col) % w == col,
{
    assert(0 <= row * w + col < w * h) by (nonlinear_arith)
        requires
            w >= 1,
            0 <= row < h,
            0 <= col < w,
    ;
    vstd::arithmetic::div_mod::lemma_fundamental_div_mod_converse(row * w + col, w, row, col);
}

/// An index in the first `w * h` cells names a row and a column in range.
proof fn lemma_coords_in_grid(w: int, h: int, i: int)
    requires
        w >= 1,
        0 <= i < w * h,
    ensures
        0 <= i / w < h,
        0 <= i % w < w,
        (i / w) * w + i % w == i,
{
    vstd::arithmetic::div_mod::lemma_fundamental_div_mod(i, w);
    vstd::arithmetic::div_mod::lemma_div_pos_is_pos(i, w);
    vstd::arithmetic::div_mod::lemma_mod_pos_bound(i, w);
    vstd::arithmetic::mul::lemma_mul_is_commutative(w, i / w);
    assert(i / w < h) by (nonlinear_arith)
        requires
            w >= 1,
            0 <= i < w * h,
            i == w * (i / w) + i % w,
            i % w >= 0,
    ;
}

/// Every neighbour that a count reads lies within the first `w * h` cells.
proof fn lemma_neighbour_in_grid(w: int, h: int, row: int, col: int, dr: int, dc: int)
    requires
        w >= 1,
        h >= 1,
        0 <= row < h,
        0 <= col < w,
        dr >= 0,
        dc >= 0,
    ensures
        0 <= ((row + dr) % h) * w + (col + dc) % w < w * h,
{
    vstd::arithmetic::div_mod::lemma_mod_pos_bound(row + dr, h);
    vstd::arithmetic::div_mod::lemma_mod_pos_bound(col + dc, w);
    lemma_index_in_grid(w, h, (row + dr) % h, (col + dc) % w);
}

/// Stepping depends on the grid alone: two universes of the same
/// dimensions and the same buffer step to the same cells, so the universes
/// that a tick gives from them hold the same buffer too. A tick replayed from
/// a saved buffer gives the same generation again.
pub proof fn lemma_tick_deterministic(a: Universe, b: Universe, a_next: Universe, b_next: Universe)
    requires
        a.wf(),
        b.wf(),
        a.width() == b.width(),
        a.height() == b.height(),
        a.bytes() == b.bytes(),
        a_next.grid() == next_grid(a.grid(), a.width() as int, a.height() as int),
        b_next.grid() == next_grid(b.grid(), b.width() as int, b.height() as int),
    ensures
        next_grid(a.grid(), a.width() as int, a.height() as int) == next_grid(
            b.grid(),
            b.width() as int,
            b.height() as int,
        ),
        a_next.bytes() == b_next.bytes(),
{
    lemma_bits_of_injective(a_next.bytes(), b_next.bytes());
}

/// The grid wraps at its edges: a live cell at (0, 0) is counted among the
/// neighbours of (`h - 1`, `w - 1`), and a live cell at (`h - 1`, `w - 1`)
/// among those of (0, 0).
pub proof fn lemma_corners_are_neighbours(g: Seq<bool>, w: int, h: int)
    requires
        valid_dims(w, h),
        g.len() >= w * h,
    ensures
        neighbour_term(g, w, h, h - 1, w - 1, 1, 1) == if cell_at(g, w, 0, 0) {
            1int
        } else {
            0int
        },
        cell_at(g, w, 0, 0) ==> live_count(g, w, h, h - 1, w - 1) >= 1,
        cell_at(g, w, h - 1, w - 1) ==> live_count(g, w, h, 0, 0) >= 1,
{
    vstd::arithmetic::div_mod::lemma_mod_self_0(h);
    vstd::arithmetic::div_mod::lemma_mod_self_0(w);
    assert(neighbour_term(g, w, h, h - 1, w - 1, 1, 1) == if cell_at(g, w, 0, 0) { 1int } else { 0int });
    vstd::arithmetic::div_mod::lemma_small_mod((h - 1) as nat, h as nat);
    vstd::arithmetic::div_mod::lemma_small_mod((w - 1) as nat, w as nat);
    if h == 1 && w == 1 {
        assert(neighbour_term(g, w, h, 0, 0, 1, 1) == if cell_at(g, w, 0, 0) { 1int } else { 0int });
    } else {
        assert(neighbour_term(g, w, h, 0, 0, h - 1, w - 1) == if cell_at(g, w, h - 1, w - 1) { 1int } else { 0int });
    }
}

/// On a grid at least three cells wide and high, a lone live cell at (0, 0)
/// is counted exactly once among the neighbours of (`h - 1`, `w - 1`), and a
/// lone live cell at (`h - 1`, `w - 1`) exactly once among those of (0, 0).
pub proof fn lemma_lone_corner_counted_once(g: Seq<bool>, w: int, h: int)
    requires
        valid_dims(w, h),
        w >= 3,
        h >= 3,
        g.len() >= w * h,
    ensures
        (forall|i: int| 0 <= i < w * h ==> #[trigger] g[i] == (i == 0)) ==> live_count(
            g,
            w,
            h,
            h - 1,
            w - 1,
        ) == 1,
        (forall|i: int| 0 <= i < w * h ==> #[trigger] g[i] == (i == (h - 1) * w + w - 1))
            ==> live_count(g, w, h, 0, 0) == 1,
{
    lemma_fundamental_div_mod_converse(2 * h - 2, h, 1, h - 2);
    lemma_fundamental_div_mod_converse(h - 1, h, 0, h - 1);
    lemma_fundamental_div_mod_converse(h, h, 1, 0);
    lemma_fundamental_div_mod_converse(0, h, 0, 0);
    lemma_fundamental_div_mod_converse(1, h, 0, 1);
    lemma_fundamental_div_mod_converse(2 * w - 2, w, 1, w - 2);
    lemma_fundamental_div_mod_converse(w - 1, w, 0, w - 1);
    lemma_fundamental_div_mod_converse(w, w, 1, 0);
    lemma_fundamental_div_mod_converse(0, w, 0, 0);
    lemma_fundamental_div_mod_converse(1, w, 0, 1);
    let rows = seq![h - 2, h - 1, 0, 1];
    let cols = seq![w - 2, w - 1, 0, 1];
    assert forall|a: int, b: int| 0 <= a < 4 && 0 <= b < 4 implies {
        &&& 0 <= #[trigger] rows[a] * w + #[trigger] cols[b] < w * h
        &&& (rows[a] * w + cols[b] == 0 ==> rows[a] == 0 && cols[b] == 0)
        &&& (rows[a] * w + cols[b] == (h - 1) * w + w - 1 ==> rows[a] == h - 1 && cols[b] == w - 1)
    } by {
        lemma_index_in_grid(w, h, rows[a], cols[b]);
        lemma_index_in_grid(w, h, 0, 0);
        lemma_index_in_grid(w, h, h - 1, w - 1);
    }
    assert(rows[0] == h - 2 && rows[1] == h - 1 && rows[2] == 0 && rows[3] == 1);
    assert(cols[0] == w - 2 && cols[1] == w - 1 && cols[2] == 0 && cols[3] == 1);
}

/// A grid without a live cell stays without one after a step.
pub proof fn lemma_all_dead_stays_dead(g: Seq<bool>, w: int, h: int)
    requires
        valid_dims(w, h),
        g.len() >= w * h,
        forall|i: int| 0 <= i < g.len() ==> !#[trigger] g[i],
    ensures
        forall|i: int| 0 <= i < g.len() ==> !#[trigger] next_grid(g, w, h)[i],
{
    assert forall|i: int| 0 <= i < g.len() implies !#[trigger] next_grid(g, w, h)[i] by {
        if i < w * h {
            lemma_coords_in_grid(w, h, i);
            let row = i / w;
            let col = i % w;
            assert forall|dr: int, dc: int| dr >= 0 && dc >= 0 implies #[trigger] neighbour_term(
                g,
                w,
                h,
                row,
                col,
                dr,
                dc,
            ) == 0 by {
                lemma_neighbour_in_grid(w, h, row, col, dr, dc);
            }
            assert(live_count(g, w, h, row, col) == 0);
        }
    }
}

/// Writing a cell and reading it back gives what was written, alive or dead.
pub proof fn lemma_set_then_read(g: Seq<bool>, w: int, h: int, row: int, col: int, alive: bool)
    requires
        valid_dims(w, h),
        g.len() >= w * h,
        0 <= row < h,
        0 <= col < w,
    ensures
        cell_at(g.update(row * w + col, alive), w, row, col) == alive,
{
    lemma_index_in_grid(w, h, row, col);
}

/// `(x + d) % n` for `x` below `n` and `d` at most `n`, without overflow.
fn wrap_add(x: usize, d: usize, n: usize) -> (r: usize)
    requires
        x < n,
        d <= n,
    ensures
        r == (x + d) % (n as int),
{
    if x >= n - d {
        let r = x - (n - d);
        assert(r == (x + d) % (n as int)) by {
            vstd::arithmetic::div_mod::lemma_fundamental_div_mod_converse(x + d, n as int, 1, r as int);
        }
        r
    } else {
        let r = x + d;
        assert(r == (x + d) % (n as int)) by {
            vstd::arithmetic::div_mod::lemma_fundamental_div_mod_converse(x + d, n as int, 0, r as int);
        }
        r
    }
}

/// A universe: `width * height` cells on a torus, stored row by row.
pub struct Universe {
    width: usize,
    height: usize,
    store: CellStore,
}

impl Universe {
    pub closed spec fn spec_width(&self) -> usize {
        self.width
    }

    pub closed spec fn spec_height(&self) -> usize {
        self.height
    }

    /// The cells, row by row; cell (`row`, `col`) is at `row * width + col`,
    /// bit `i % 8` of byte `i / 8` for index `i`. Storage rounds up to whole
    /// bytes, so the length may exceed `width * height`.
    pub closed spec fn grid(&self) -> Seq<bool> {
        self.store@
    }

    /// The packed bytes of the grid.
    pub closed spec fn bytes(&self) -> Seq<u8> {
        self.store.bytes()
    }

    /// Dimensions in range and storage of exactly `ceil(width * height / 8)` bytes.
    pub open spec fn wf(&self) -> bool {
        &&& valid_dims(self.width() as int, self.height() as int)
        &&& self.bytes().len() == (self.width() * self.height() + 7) / 8
        &&& self.grid() == bits_of(self.bytes())
    }

    /// Whether the cell at (`row`, `col`) is alive.
    pub open spec fn alive(&self, row: int, col: int) -> bool {
        cell_at(self.grid(), self.width() as int, row, col)
    }

    #[verifier::when_used_as_spec(spec_width)]
    pub fn width(&self) -> (r: usize)
        ensures
            r == self.spec_width(),
    {
        self.width
    }

    #[verifier::when_used_as_spec(spec_height)]
    pub fn height(&self) -> (r: usize)
        ensures
            r == self.spec_height(),
    {
        self.height
    }

    fn get_index(&self, row: usize, column: usize) -> (r: usize)
        requires
            self.wf(),
            row < self.height(),
            column < self.width(),
        ensures
            r == row * self.width() + column,
            r < self.width() * self.height(),
            r < self.grid().len(),
    {
        proof {
            lemma_index_in_grid(self.width as int, self.height as int, row as int, column as int);
        }
        row * self.width + column
    }

    /// 1 when the neighbour at offset (`dr`, `dc`) is counted and alive, else 0.
    fn neighbour(&self, row: usize, column: usize, dr: usize, dc: usize) -> (r: u8)
        requires
            self.wf(),
            row < self.height(),
            column < self.width(),
            dr <= self.height(),
            dc <= self.width(),
        ensures
            r == neighbour_term(
                self.grid(),
                self.width() as int,
                self.height() as int,
                row as int,
                column as int,
                dr as int,
                dc as int,
            ),
    {
        if dr == 0 && dc == 0 {
            return 0;
        }
        let neighbour_row = wrap_add(row, dr, self.height);
        let neighbour_column = wrap_add(column, dc, self.width);
        let idx = self.get_index(neighbour_row, neighbour_column);
        match self.store.get_cell(idx) {
            Cell::Alive => 1,
            Cell::Dead => 0,
        }
    }

    /// Live neighbours at row offset `dr`, over the column offsets `width - 1`, 0 and 1.
    fn row_neighbours(&self, row: usize, column: usize, dr: usize) -> (r: u8)
        requires
            self.wf(),
            row < self.height(),
            column < self.width(),
            dr <= self.height(),
        ensures
            r == row_count(
                self.grid(),
                self.width() as int,
                self.height() as int,
                row as int,
                column as int,
                dr as int,
            ),
            r <= 3,
    {
        self.neighbour(row, column, dr, self.width - 1) + self.neighbour(row, column, dr, 0)
            + self.neighbour(row, column, dr, 1)
    }

    /// Live neighbours of (`row`, `column`) on the torus, over the row offsets
    /// `height - 1`, 0 and 1.
    fn live_neighbour_count(&self, row: usize, column: usize) -> (r: u8)
        requires
            self.wf(),
            row < self.height(),
            column < self.width(),
        ensures
            r == live_count(
                self.grid(),
                self.width() as int,
                self.height() as int,
                row as int,
                column as int,
            ),
    {
        self.row_neighbours(row, column, self.height - 1) + self.row_neighbours(row, column, 0)
            + self.row_neighbours(row, column, 1)
    }

    /// Advances one generation. Every cell's next state is computed from the
    /// grid as it was before the call, never from cells already updated.
    pub fn tick(&mut self)
        requires
            old(self).wf(),
        ensures
            final(self).wf(),
            final(self).width() == old(self).width(),
            final(self).height() == old(self).height(),
            final(self).grid() == next_grid(
                old(self).grid(),
                old(self).width() as int,
                old(self).height() as int,
            ),
    {
        let mut next = self.store.clone();
        let n = self.width * self.height;
        let ghost g = self.grid();
        let ghost w = self.width as int;
        let ghost h = self.height as int;
        let mut idx: usize = 0;
        while idx < n
            invariant
                self.wf(),
                g == self.grid(),
                w == self.width,
                h == self.height,
                n == w * h,
                idx <= n,
                next.bytes().len() == self.bytes().len(),
                next@.len() == g.len(),
                forall|i: int| 0 <= i < idx ==> #[trigger] next@[i] == next_grid(g, w, h)[i],
                forall|i: int| idx <= i < g.len() ==> #[trigger] next@[i] == g[i],
            decreases n - idx,
        {
            proof {
                lemma_coords_in_grid(w, h, idx as int);
            }
            let row = idx / self.width;
            let col = idx % self.width;
            let cell = self.store.get_cell(idx);
            let live_neighbours = self.live_neighbour_count(row, col);
            let next_cell = match (cell, live_neighbours) {
                (Cell::Alive, x) if x < 2 => Cell::Dead,
                (Cell::Alive, 2) | (Cell::Alive, 3) => Cell::Alive,
                (Cell::Alive, x) if x > 3 => Cell::Dead,
                (Cell::Dead, 3) => Cell::Alive,
                (otherwise, _) => otherwise,
            };
            next.set_cell(idx, next_cell);
            idx = idx + 1;
        }
        assert(next@ =~= next_grid(g, w, h));
        self.store = next;
    }

    /// Sets every listed (row, column) alive; other cells keep their state.
    /// Fails with `IndexError`, changing nothing, if any coordinate is outside the grid.
    pub fn set_cells(&mut self, cells: &[(usize, usize)]) -> (r: Result<(), LifeError>)
        requires
            old(self).wf(),
        ensures
            final(self).wf(),
            final(self).width() == old(self).width(),
            final(self).height() == old(self).height(),
            r is Err <==> any_out_of_range(cells@, old(self).width() as int, old(self).height() as int),
            r is Err ==> r == Err::<(), LifeError>(LifeError::IndexError) && *final(self) == *old(self),
            r is Ok ==> final(self).grid() == Seq::new(
                old(self).grid().len(),
                |i: int| old(self).grid()[i] || listed(cells@, old(self).width() as int, i),
            ),
    {
        let mut k: usize = 0;
        while k < cells.len()
            invariant
                *self == *old(self),
                old(self).wf(),
                k <= cells@.len(),
                forall|j: int|
                    0 <= j < k ==> #[trigger] cells@[j].0 < self.height() && cells@[j].1
                        < self.width(),
            decreases cells@.len() - k,
        {
            let (row, col) = cells[k];
            if row >= self.height || col >= self.width {
                return Err(LifeError::IndexError);
            }
            k = k + 1;
        }
        let ghost g = self.grid();
        let ghost w = self.width as int;
        let mut k: usize = 0;
        while k < cells.len()
            invariant
                self.wf(),
                w == self.width,
                self.height() == old(self).height(),
                g == old(self).grid(),
                k <= cells@.len(),
                forall|j: int|
                    0 <= j < cells@.len() ==> #[trigger] cells@[j].0 < self.height() && cells@[j].1
                        < self.width(),
                self.grid().len() == g.len(),
                forall|i: int|
                    0 <= i < g.len() ==> #[trigger] self.grid()[i] == (g[i] || listed(
                        cells@.take(k as int),
                        w,
                        i,
                    )),
            decreases cells@.len() - k,
        {
            let (row, col) = cells[k];
            let idx = self.get_index(row, col);
            self.store.set_cell(idx, Cell::Alive);
            proof {
                let prev = cells@.take(k as int);
                let cur = cells@.take(k + 1);
                assert forall|i: int| 0 <= i < g.len() implies #[trigger] self.grid()[i] == (g[i]
                    || listed(cur, w, i)) by {
                    if listed(prev, w, i) {
                        let j = choose|j: int| 0 <= j < prev.len() && #[trigger] prev[j].0 * w + prev[j].1 == i;
                        assert(cur[j] == prev[j]);
                    }
                    if i == idx {
                        assert(cur[k as int] == cells@[k as int]);
                    }
                    if listed(cur, w, i) {
                        let j = choose|j: int| 0 <= j < cur.len() && #[trigger] cur[j].0 * w + cur[j].1 == i;
                        if j < k {
                            assert(prev[j] == cur[j]);
                        }
                    }
                }
            }
            k = k + 1;
        }
        assert(cells@.take(cells@.len() as int) =~= cells@);
        assert(self.grid() =~= Seq::new(g.len(), |i: int| g[i] || listed(cells@, w, i)));
        Ok(())
    }

    /// A universe of `UNIVERSE_SIZE` by `UNIVERSE_SIZE` cells filled with
    /// `start_type`. A random start makes cell `i` alive when
    /// `random_cells[i]` is true; cells past the end of `random_cells` are dead.
    pub fn new(start_type: StartType, random_cells: &[bool]) -> (r: Universe)
        ensures
            r.wf(),
            r.width() == UNIVERSE_SIZE,
            r.height() == UNIVERSE_SIZE,
            forall|i: int|
                0 <= i < r.grid().len() ==> #[trigger] r.grid()[i] == initial_cell(
                    start_type,
                    random_cells@,
                    UNIVERSE_SIZE as int,
                    i,
                ),
    {
        let width = UNIVERSE_SIZE;
        let height = UNIVERSE_SIZE;

        let store = match start_type {
            StartType::Random => init_cells_random(width, height, random_cells),
            StartType::AllDead => init_cells_all_dead(width, height),
            StartType::Spaceship => init_cells_spaceship(width, height),
            StartType::Default => init_cells_default(width, height),
        };

        Universe { width, height, store }
    }

    /// The cell at (`row`, `col`), or `IndexError` outside the grid.
    pub fn get_cell(&self, row: usize, col: usize) -> (r: Result<Cell, LifeError>)
        requires
            self.wf(),
        ensures
            row >= self.height() || col >= self.width() ==> r == Err::<Cell, LifeError>(
                LifeError::IndexError,
            ),
            row < self.height() && col < self.width() ==> r is Ok && r->Ok_0.is_alive()
                == self.alive(row as int, col as int),
    {
        if row >= self.height || col >= self.width {
            return Err(LifeError::IndexError);
        }
        let idx = self.get_index(row, col);
        Ok(self.store.get_cell(idx))
    }

    /// Flips the cell at (`row`, `col`) between alive and dead.
    /// Fails with `IndexError`, changing nothing, outside the grid.
    pub fn toggle_cell(&mut self, row: usize, col: usize) -> (r: Result<(), LifeError>)
        requires
            old(self).wf(),
        ensures
            final(self).wf(),
            final(self).width() == old(self).width(),
            final(self).height() == old(self).height(),
            row >= old(self).height() || col >= old(self).width() ==> r == Err::<(), LifeError>(
                LifeError::IndexError,
            ) && *final(self) == *old(self),
            row < old(self).height() && col < old(self).width() ==> r is Ok && final(self).grid()
                == old(self).grid().update(
                row * old(self).width() + col,
                !old(self).alive(row as int, col as int),
            ),
    {
        if row >= self.height || col >= self.width {
            return Err(LifeError::IndexError);
        }
        let idx = self.get_index(row, col);
        let current_cell = self.store.get_cell(idx);

        let new_cell = match current_cell {
            Cell::Alive => Cell::Dead,
            Cell::Dead => Cell::Alive,
        };

        self.store.set_cell(idx, new_cell);
        Ok(())
    }

    /// Sets the cell at (`row`, `col`) to `cell`.
    /// Fails with `IndexError`, changing nothing, outside the grid.
    pub fn set_cell(&mut self, row: usize, col: usize, cell: Cell) -> (r: Result<(), LifeError>)
        requires
            old(self).wf(),
        ensures
            final(self).wf(),
            final(self).width() == old(self).width(),
            final(self).height() == old(self).height(),
            row >= old(self).height() || col >= old(self).width() ==> r == Err::<(), LifeError>(
                LifeError::IndexError,
            ) && *final(self) == *old(self),
            row < old(self).height() && col < old(self).width() ==> r is Ok && final(self).grid()
                == old(self).grid().update(row * old(self).width() + col, cell.is_alive()),
    {
        if row >= self.height || col >= self.width {
            return Err(LifeError::IndexError);
        }
        let idx = self.get_index(row, col);
        self.store.set_cell(idx, cell);
        Ok(())
    }

    /// Whether a `width` by `height` grid can be held.
    fn dims_fit(width: usize, height: usize) -> (r: bool)
        ensures
            r == valid_dims(width as int, height as int),
    {
        if width == 0 || height == 0 {
            return false;
        }
        let limit = (usize::MAX - 7) / height;
        proof {
            let l = limit as int;
            let w = width as int;
            let h = height as int;
            let m = usize::MAX - 7;
            vstd::arithmetic::div_mod::lemma_fundamental_div_mod(m, h);
            vstd::arithmetic::div_mod::lemma_mod_pos_bound(m, h);
            assert(w <= l <==> w * h <= m) by (nonlinear_arith)
                requires
                    h >= 1,
                    m == h * l + m % h,
                    0 <= m % h < h,
            ;
        }
        width <= limit
    }

    /// Replaces the grid with an all-dead one `width` cells wide; the height is kept.
    /// Fails with `InvalidDimension`, changing nothing, for a width of zero or
    /// one whose grid would not fit.
    pub fn set_width(&mut self, width: usize) -> (r: Result<(), LifeError>)
        requires
            old(self).wf(),
        ensures
            final(self).wf(),
            r is Err <==> !valid_dims(width as int, old(self).height() as int),
            r is Err ==> r == Err::<(), LifeError>(LifeError::InvalidDimension) && *final(self)
                == *old(self),
            r is Ok ==> final(self).width() == width && final(self).height() == old(self).height()
                && forall|i: int| 0 <= i < final(self).grid().len() ==> !#[trigger] final(self).grid()[i],
            r is Ok ==> final(self).bytes() == Seq::new(final(self).bytes().len(), |j: int| 0u8),
    {
        if !Self::dims_fit(width, self.height) {
            return Err(LifeError::InvalidDimension);
        }
        self.width = width;

        self.store = init_cells_all_dead(width, self.height);
        Ok(())
    }

    /// Replaces the grid with an all-dead one `height` cells high; the width is kept.
    /// Fails with `InvalidDimension`, changing nothing, for a height of zero or
    /// one whose grid would not fit.
    pub fn set_height(&mut self, height: usize) -> (r: Result<(), LifeError>)
        requires
            old(self).wf(),
        ensures
            final(self).wf(),
            r is Err <==> !valid_dims(old(self).width() as int, height as int),
            r is Err ==> r == Err::<(), LifeError>(LifeError::InvalidDimension) && *final(self)
                == *old(self),
            r is Ok ==> final(self).height() == height && final(self).width() == old(self).width()
                && forall|i: int| 0 <= i < final(self).grid().len() ==> !#[trigger] final(self).grid()[i],
            r is Ok ==> final(self).bytes() == Seq::new(final(self).bytes().len(), |j: int| 0u8),
    {
        if !Self::dims_fit(self.width, height) {
            return Err(LifeError::InvalidDimension);
        }
        self.height = height;

        self.store = init_cells_all_dead(self.width, height);
        Ok(())
    }

    /// The packed cell buffer: eight cells per byte, cell `i` in bit `i % 8`
    /// of byte `i / 8`.
    pub fn get_cells(&self) -> (r: &Vec<u8>)
        ensures
            r@ == self.bytes(),
    {
        self.store.as_bytes()
    }

    /// A read-only view of the packed cell buffer, laid out as for `get_cells`.
    pub fn cells(&self) -> (r: &[u8])
        ensures
            r@ == self.bytes(),
    {
        self.store.as_bytes().as_slice()
    }

    /// The grid as text: one line per row, `◼` for a live cell and `◻` for a
    /// dead one, each row ended by a line break.
    pub fn render(&self) -> (r: String)
        requires
            self.wf(),
        ensures
            r@ == render_rows(self.grid(), self.width() as int, self.height() as int),
    {
        let ghost g = self.grid();
        let ghost w = self.width as int;
        let mut text = String::new();
        let mut row: usize = 0;
        while row < self.height
            invariant
                self.wf(),
                g == self.grid(),
                w == self.width,
                row <= self.height,
                text@ == render_rows(g, w, row as int),
            decreases self.height - row,
        {
            let mut col: usize = 0;
            while col < self.width
                invariant
                    self.wf(),
                    g == self.grid(),
                    w == self.width,
                    row < self.height,
                    col <= self.width,
                    text@ == render_rows(g, w, row as int) + render_row(g, w, row as int).take(
                        col as int,
                    ),
                decreases self.width - col,
            {
                let idx = self.get_index(row, col);
                match self.store.get_cell(idx) {
                    Cell::Alive => {
                        proof {
                            reveal_strlit("◼");
                        }
                        text.append("◼");
                    },
                    Cell::Dead => {
                        proof {
                            reveal_strlit("◻");
                        }
                        text.append("◻");
                    },
                }
                assert(render_row(g, w, row as int).take(col + 1) =~= render_row(g, w, row as int).take(
                    col as int,
                ).push(glyph(cell_at(g, w, row as int, col as int))));
                assert(text@ =~= render_rows(g, w, row as int) + render_row(g, w, row as int).take(
                    col + 1,
                ));
                col = col + 1;
            }
            proof {
                reveal_strlit("\n");
            }
            text.append("\n");
            assert(render_row(g, w, row as int).take(w) =~= render_row(g, w, row as int));
            assert(text@ =~= render_rows(g, w, row + 1));
            row = row + 1;
        }
        text
    }
}

fn init_cells_all_dead(width: usize, height: usize) -> (r: CellStore)
    requires
        valid_dims(width as int, height as int),
    ensures
        r.bytes().len() == (width * height + 7) / 8,
        r.bytes() == Seq::new(r.bytes().len(), |j: int| 0u8),
        forall|i: int| 0 <= i < r@.len() ==> !#[trigger] r@[i],
{
    CellStore::all_dead(width * height)
}

fn init_cells_default(width: usize, height: usize) -> (r: CellStore)
    requires
        valid_dims(width as int, height as int),
    ensures
        r.bytes().len() == (width * height + 7) / 8,
        forall|i: int| 0 <= i < r@.len() ==> #[trigger] r@[i] == (i % 2 == 0 || i % 7 == 0),
{
    let mut cells = init_cells_all_dead(width, height);
    let n = cells.len();
    let mut idx: usize = 0;
    while idx < n
        invariant
            n == cells@.len(),
            cells.bytes().len() == (width * height + 7) / 8,
            idx <= n,
            forall|i: int| 0 <= i < idx ==> #[trigger] cells@[i] == (i % 2 == 0 || i % 7 == 0),
            forall|i: int| idx <= i < n ==> !#[trigger] cells@[i],
        decreases n - idx,
    {
        if idx % 2 == 0 || idx % 7 == 0 {
            cells.set_cell(idx, Cell::Alive);
        }
        idx = idx + 1;
    }
    cells
}

fn init_cells_random(width: usize, height: usize, random_cells: &[bool]) -> (r: CellStore)
    requires
        valid_dims(width as int, height as int),
    ensures
        r.bytes().len() == (width * height + 7) / 8,
        forall|i: int|
            0 <= i < r@.len() ==> #[trigger] r@[i] == (i < random_cells@.len() && random_cells@[i]),
{
    let mut cells = init_cells_all_dead(width, height);
    let n = cells.len();
    let mut idx: usize = 0;
    while idx < n
        invariant
            n == cells@.len(),
            cells.bytes().len() == (width * height + 7) / 8,
            idx <= n,
            forall|i: int|
                0 <= i < idx ==> #[trigger] cells@[i] == (i < random_cells@.len() && random_cells@[i]),
            forall|i: int| idx <= i < n ==> !#[trigger] cells@[i],
        decreases n - idx,
    {
        if idx < random_cells.len() && random_cells[idx] {
            cells.set_cell(idx, Cell::Alive);
        }
        idx = idx + 1;
    }
    cells
}

fn init_cells_spaceship(width: usize, height: usize) -> (r: CellStore)
    requires
        valid_dims(width as int, height as int),
        width >= 5,
        height >= 7,
    ensures
        r.bytes().len() == (width * height + 7) / 8,
        forall|i: int| 0 <= i < r@.len() ==> #[trigger] r@[i] == listed(glider(), width as int, i),
{
    let mut universe = Universe { width, height, store: init_cells_all_dead(width, height) };
    let spaceship_cells = vec![(4usize, 3usize), (5, 4), (6, 2), (6, 3), (6, 4)];
    assert(spaceship_cells@ =~= glider());
    assert(!any_out_of_range(glider(), width as int, height as int));
    let placed = universe.set_cells(spaceship_cells.as_slice());
    assert(placed is Ok);
    universe.store
}

/// The names of the start types, in the order `Default`, `Random`,
/// `AllDead`, `Spaceship`.
pub fn start_type_variants() -> (r: Vec<String>)
    ensures
        r@.len() == 4,
        r@[0]@ == "default"@,
        r@[1]@ == "random"@,
        r@[2]@ == "all_dead"@,
        r@[3]@ == "spaceship"@,
{
    let mut names: Vec<String> = Vec::new();
    names.push(String::from_str("default"));
    names.push(String::from_str("random"));
    names.push(String::from_str("all_dead"));
    names.push(String::from_str("spaceship"));
    names
}

} // verus!
