//! The 50 x 50 Game-of-Life grid: seeding, the transition rule and rendering.

use vstd::prelude::*;

verus! {

/// Number of rows, and of cells in each row.
pub const SIZE: usize = 50;

/// Out of 100, the chance that a freshly seeded cell is alive.
pub const ALIVE_SPAWN_CHANCE: u8 = 10;

/// A seeded cell is alive exactly when its draw in `[0, 100)` exceeds
/// `100 - ALIVE_SPAWN_CHANCE`.
pub open spec fn seeded_alive(draw: u8) -> bool {
    draw > 100 - ALIVE_SPAWN_CHANCE
}

/// The grid seeded from one draw per cell, in row-major order.
pub open spec fn seeded(draws: Seq<u8>) -> Seq<Seq<bool>> {
    Seq::new(SIZE as nat, |r: int| Seq::new(SIZE as nat, |c: int| seeded_alive(draws[r * SIZE + c])))
}

/// A snapshot of the automaton: `SIZE` rows of `SIZE` cells, `true` for alive.
pub struct Grid {
    rows: Vec<Vec<bool>>,
}

impl View for Grid {
    type V = Seq<Seq<bool>>;

    closed spec fn view(&self) -> Seq<Seq<bool>> {
        self.rows@.map_values(|r: Vec<bool>| r@)
    }
}

/// A grid model of the fixed dimensions.
pub open spec fn well_sized(g: Seq<Seq<bool>>) -> bool {
    &&& g.len() == SIZE
    &&& forall|r: int| 0 <= r < SIZE ==> #[trigger] g[r].len() == SIZE
}

/// Whether `(r, c)` lies on the grid and the cell there is alive; off-grid
/// positions count as dead (no wrap-around).
pub open spec fn alive_at(g: Seq<Seq<bool>>, r: int, c: int) -> bool {
    0 <= r < SIZE && 0 <= c < SIZE && g[r][c]
}

pub open spec fn count_of(b: bool) -> nat {
    if b { 1 } else { 0 }
}

/// The number of alive cells among the up to eight neighbours of `(r, c)`.
pub open spec fn neighbours(g: Seq<Seq<bool>>, r: int, c: int) -> nat {
    count_of(alive_at(g, r - 1, c - 1)) + count_of(alive_at(g, r - 1, c)) + count_of(
        alive_at(g, r - 1, c + 1),
    ) + count_of(alive_at(g, r, c - 1)) + count_of(alive_at(g, r, c + 1)) + count_of(
        alive_at(g, r + 1, c - 1),
    ) + count_of(alive_at(g, r + 1, c)) + count_of(alive_at(g, r + 1, c + 1))
}

/// Conway's rule: the next state of a cell from its state and its count of
/// alive neighbours.
pub open spec fn next_state(alive: bool, n: nat) -> bool {
    if alive {
        n == 2 || n == 3
    } else {
        n == 3
    }
}

/// The grid one generation after `g`.
pub open spec fn successor(g: Seq<Seq<bool>>) -> Seq<Seq<bool>> {
    Seq::new(SIZE as nat, |r: int| Seq::new(SIZE as nat, |c: int| next_state(g[r][c], neighbours(g, r, c))))
}

/// The indicator of one cell; only an alive one carries the `alive` class.
pub open spec fn cell_markup(alive: bool) -> Seq<char> {
    if alive {
        "\t<span class=\"alive\"></span>\n"@
    } else {
        "\t<span></span>\n"@
    }
}

/// One row wrapper around the indicators of its cells, left to right.
pub open spec fn row_markup(row: Seq<bool>) -> Seq<char> {
    "<div class=\"row\">\n"@ + row.map_values(|b: bool| cell_markup(b)).flatten() + "</div>\n"@
}

/// The whole fragment: the container (swapped out of band as a whole) around
/// the row wrappers, top to bottom.
pub open spec fn markup(g: Seq<Seq<bool>>) -> Seq<char> {
    "<div id=\"container\" class=\"container\" hx-swap-oob=\"true\">\n"@ + g.map_values(
        |row: Seq<bool>| row_markup(row),
    ).flatten() + "</div>"@
}

impl Grid {
    pub open spec fn wf(&self) -> bool {
        well_sized(self@)
    }

    /// The grid with every cell dead.
    pub fn dead() -> (g: Grid)
        ensures
            g.wf(),
            forall|r: int, c: int| 0 <= r < SIZE && 0 <= c < SIZE ==> !#[trigger] g@[r][c],
    {
        let mut rows: Vec<Vec<bool>> = Vec::new();
        let mut r: usize = 0;
        while r < SIZE
            invariant
                r <= SIZE,
                rows@.len() == r,
                forall|i: int| 0 <= i < r ==> #[trigger] rows@[i]@ == Seq::new(SIZE as nat, |c: int| false),
            decreases SIZE - r,
        {
            let mut row: Vec<bool> = Vec::new();
            let mut c: usize = 0;
            while c < SIZE
                invariant
                    c <= SIZE,
                    row@ == Seq::new(c as nat, |k: int| false),
                decreases SIZE - c,
            {
                row.push(false);
                c = c + 1;
                assert(row@ =~= Seq::new(c as nat, |k: int| false));
            }
            rows.push(row);
            r = r + 1;
        }
        Grid { rows }
    }

    /// Whether the cell at row `r`, column `c` is alive.
    pub fn get(&self, r: usize, c: usize) -> (b: bool)
        requires
            self.wf(),
            r < SIZE,
            c < SIZE,
        ensures
            b == self@[r as int][c as int],
    {
        assert(self@[r as int] == self.rows@[r as int]@);
        self.rows[r][c]
    }

    /// Makes the cell at row `r`, column `c` alive or dead.
    pub fn set(&mut self, r: usize, c: usize, alive: bool)
        requires
            old(self).wf(),
            r < SIZE,
            c < SIZE,
        ensures
            final(self).wf(),
            final(self)@ == old(self)@.update(r as int, old(self)@[r as int].update(c as int, alive)),
    {
        let ghost pre = self@;
        let mut row: Vec<bool> = Vec::new();
        self.rows.set_and_swap(r, &mut row);
        assert(row@ == pre[r as int]);
        row.set(c, alive);
        self.rows.set(r, row);
        assert(self@ =~= pre.update(r as int, pre[r as int].update(c as int, alive)));
    }

    /// Alive or dead, whether `(r, c)` (which may be off the grid by one) holds
    /// an alive cell.
    fn alive_at_offset(&self, r: usize, c: usize, dr: i8, dc: i8) -> (b: bool)
        requires
            self.wf(),
            r < SIZE,
            c < SIZE,
            -1 <= dr <= 1,
            -1 <= dc <= 1,
        ensures
            b == alive_at(self@, r + dr, c + dc),
    {
        if (dr == -1 && r == 0) || (dr == 1 && r == SIZE - 1) || (dc == -1 && c == 0) || (dc == 1
            && c == SIZE - 1) {
            return false;
        }
        let nr = (r as i64 + dr as i64) as usize;
        let nc = (c as i64 + dc as i64) as usize;
        assert(self@[nr as int] == self.rows@[nr as int]@);
        self.rows[nr][nc]
    }
}

/// The number of alive neighbours of the cell at row `i`, column `y`, without
/// wrapping at the edges: a corner has three candidates, an edge cell five.
pub fn alive_neighbours(grid: &Grid, i: usize, y: usize) -> (n: u8)
    requires
        grid.wf(),
        i < SIZE,
        y < SIZE,
    ensures
        n == neighbours(grid@, i as int, y as int),
{
    let mut alive: u8 = 0;
    if grid.alive_at_offset(i, y, -1, -1) { alive = alive + 1; }
    if grid.alive_at_offset(i, y, -1, 0) { alive = alive + 1; }
    if grid.alive_at_offset(i, y, -1, 1) { alive = alive + 1; }
    if grid.alive_at_offset(i, y, 0, -1) { alive = alive + 1; }
    if grid.alive_at_offset(i, y, 0, 1) { alive = alive + 1; }
    if grid.alive_at_offset(i, y, 1, -1) { alive = alive + 1; }
    if grid.alive_at_offset(i, y, 1, 0) { alive = alive + 1; }
    if grid.alive_at_offset(i, y, 1, 1) { alive = alive + 1; }
    alive
}

/// The next generation of `prev`. Every cell is computed from `prev` alone,
/// so no cell sees a neighbour that was already updated in this step.
pub fn next_tick(prev: &Grid) -> (next: Grid)
    requires
        prev.wf(),
    ensures
        next.wf(),
        next@ == successor(prev@),
{
    let mut rows: Vec<Vec<bool>> = Vec::new();
    let mut i: usize = 0;
    while i < SIZE
        invariant
            prev.wf(),
            i <= SIZE,
            rows@.len() == i,
            forall|k: int| 0 <= k < i ==> #[trigger] rows@[k]@ == successor(prev@)[k],
        decreases SIZE - i,
    {
        let mut row: Vec<bool> = Vec::new();
        let mut y: usize = 0;
        while y < SIZE
            invariant
                prev.wf(),
                i < SIZE,
                y <= SIZE,
                row@.len() == y,
                forall|k: int| 0 <= k < y ==> #[trigger] row@[k] == successor(prev@)[i as int][k],
            decreases SIZE - y,
        {
            let an = alive_neighbours(prev, i, y);
            let alive = prev.get(i, y);
            let cell = if alive {
                an == 2 || an == 3
            } else {
                an == 3
            };
            row.push(cell);
            y = y + 1;
        }
        assert(row@ =~= successor(prev@)[i as int]);
        rows.push(row);
        i = i + 1;
    }
    let next = Grid { rows };
    assert(next@ =~= successor(prev@));
    next
}

/// Renders the grid as the markup fragment that replaces the client's grid.
pub fn as_html(grid: &Grid) -> (html: String)
    requires
        grid.wf(),
    ensures
        html@ == markup(grid@),
{
    let ghost g = grid@;
    let ghost head = "<div id=\"container\" class=\"container\" hx-swap-oob=\"true\">\n"@;
    let mut html = String::from_str("<div id=\"container\" class=\"container\" hx-swap-oob=\"true\">\n");
    let mut i: usize = 0;
    while i < SIZE
        invariant
            grid.wf(),
            g == grid@,
            i <= SIZE,
            html@ == head + g.subrange(0, i as int).map_values(|row: Seq<bool>| row_markup(row)).flatten(),
        decreases SIZE - i,
    {
        let ghost before = html@;
        html.append("<div class=\"row\">\n");
        let mut y: usize = 0;
        while y < SIZE
            invariant
                grid.wf(),
                g == grid@,
                i < SIZE,
                y <= SIZE,
                html@ == before + "<div class=\"row\">\n"@ + g[i as int].subrange(0, y as int).map_values(|b: bool| cell_markup(b)).flatten(),
            decreases SIZE - y,
        {
            let ghost cells = g[i as int].subrange(0, y as int).map_values(|b: bool| cell_markup(b));
            if grid.get(i, y) {
                html.append("\t<span class=\"alive\"></span>\n");
            } else {
                html.append("\t<span></span>\n");
            }
            proof {
                assert(g[i as int].subrange(0, y + 1).map_values(|b: bool| cell_markup(b)) =~= cells.push(cell_markup(g[i as int][y as int])));
                cells.lemma_flatten_push(cell_markup(g[i as int][y as int]));
            }
            y = y + 1;
        }
        html.append("</div>\n");
        proof {
            let done = g.subrange(0, i as int).map_values(|row: Seq<bool>| row_markup(row));
            assert(g[i as int].subrange(0, SIZE as int) =~= g[i as int]);
            assert(g.subrange(0, i + 1).map_values(|row: Seq<bool>| row_markup(row)) =~= done.push(row_markup(g[i as int])));
            done.lemma_flatten_push(row_markup(g[i as int]));
        }
        i = i + 1;
    }
    html.append("</div>");
    assert(g.subrange(0, SIZE as int) =~= g);
    html
}

/// The transition is a function of the grid alone: equal grids have equal
/// successors.
pub proof fn lemma_transition_deterministic(a: Seq<Seq<bool>>, b: Seq<Seq<bool>>)
    requires
        a == b,
    ensures
        successor(a) == successor(b),
{
}

/// Neighbours are not wrapped around the edges: with every cell alive but the
/// corner `(0, 0)`, that corner counts 3 alive neighbours.
pub proof fn lemma_corner_neighbours(g: Seq<Seq<bool>>)
    requires
        well_sized(g),
        forall|r: int, c: int|
            0 <= r < SIZE && 0 <= c < SIZE && (r, c) != (0int, 0int) ==> #[trigger] g[r][c],
    ensures
        neighbours(g, 0, 0) == 3,
{
    assert(g[0][1] && g[1][0] && g[1][1]);
}

/// On an all-alive grid, a cell on an edge but not in a corner counts 5
/// alive neighbours.
pub proof fn lemma_edge_neighbours(g: Seq<Seq<bool>>, r: int, c: int)
    requires
        well_sized(g),
        forall|i: int, j: int| 0 <= i < SIZE && 0 <= j < SIZE ==> #[trigger] g[i][j],
        0 <= r < SIZE,
        0 <= c < SIZE,
        r == 0 || r == SIZE - 1 || c == 0 || c == SIZE - 1,
        !((r == 0 || r == SIZE - 1) && (c == 0 || c == SIZE - 1)),
    ensures
        neighbours(g, r, c) == 5,
{
    assert(alive_at(g, r - 1, c - 1) == (0 <= r - 1 && 0 <= c - 1));
    assert(alive_at(g, r - 1, c) == (0 <= r - 1));
    assert(alive_at(g, r - 1, c + 1) == (0 <= r - 1 && c + 1 < SIZE));
    assert(alive_at(g, r, c - 1) == (0 <= c - 1));
    assert(alive_at(g, r, c + 1) == (c + 1 < SIZE));
    assert(alive_at(g, r + 1, c - 1) == (r + 1 < SIZE && 0 <= c - 1));
    assert(alive_at(g, r + 1, c) == (r + 1 < SIZE));
    assert(alive_at(g, r + 1, c + 1) == (r + 1 < SIZE && c + 1 < SIZE));
}

/// Conway's rule, case by case: an alive cell with 0 or 1 alive neighbours
/// dies, with 2 or 3 it lives, with 4 to 8 it dies; a dead cell comes alive
/// with exactly 3 and stays dead otherwise.
pub proof fn lemma_rule_table(n: nat)
    requires
        n <= 8,
    ensures
        n <= 1 ==> !next_state(true, n),
        2 <= n <= 3 ==> next_state(true, n),
        4 <= n ==> !next_state(true, n),
        n == 3 ==> next_state(false, n),
        n != 3 ==> !next_state(false, n),
{
}

/// The all-dead grid is a fixed point of the transition.
pub proof fn lemma_dead_grid_fixed(g: Seq<Seq<bool>>)
    requires
        well_sized(g),
        forall|r: int, c: int| 0 <= r < SIZE && 0 <= c < SIZE ==> !#[trigger] g[r][c],
    ensures
        successor(g) == g,
{
    assert forall|r: int| 0 <= r < SIZE implies #[trigger] successor(g)[r] =~= g[r] by {
        assert forall|c: int| 0 <= c < SIZE implies #[trigger] successor(g)[r][c] == g[r][c] by {
            assert(!alive_at(g, r - 1, c - 1) && !alive_at(g, r - 1, c) && !alive_at(g, r - 1, c + 1));
            assert(!alive_at(g, r, c - 1) && !alive_at(g, r, c + 1));
            assert(!alive_at(g, r + 1, c - 1) && !alive_at(g, r + 1, c) && !alive_at(g, r + 1, c + 1));
        }
    }
    assert(successor(g) =~= g);
}

/// The number of alive cells in a row.
pub open spec fn alive_in_row(row: Seq<bool>) -> nat
    decreases row.len(),
{
    if row.len() == 0 {
        0
    } else {
        alive_in_row(row.drop_last()) + count_of(row.last())
    }
}

/// The number of alive cells in a grid.
pub open spec fn alive_cells(g: Seq<Seq<bool>>) -> nat
    decreases g.len(),
{
    if g.len() == 0 {
        0
    } else {
        alive_cells(g.drop_last()) + alive_in_row(g.last())
    }
}

/// The cell indicators of a row, left to right.
pub open spec fn indicators(row: Seq<bool>) -> Seq<Seq<char>> {
    row.map_values(|b: bool| cell_markup(b))
}

/// How many of the indicators carry the alive marker.
pub open spec fn marked(pieces: Seq<Seq<char>>) -> nat
    decreases pieces.len(),
{
    if pieces.len() == 0 {
        0
    } else {
        marked(pieces.drop_last()) + count_of(pieces.last() == cell_markup(true))
    }
}

/// How many indicators of the rendered grid carry the alive marker, summed
/// over its row wrappers.
pub open spec fn marked_cells(g: Seq<Seq<bool>>) -> nat
    decreases g.len(),
{
    if g.len() == 0 {
        0
    } else {
        marked_cells(g.drop_last()) + marked(indicators(g.last()))
    }
}

proof fn lemma_markers_distinct()
    ensures
        forall|b: bool| #[trigger] cell_markup(b) == cell_markup(true) <==> b,
{
    reveal_strlit("\t<span class=\"alive\"></span>\n");
    reveal_strlit("\t<span></span>\n");
    assert(cell_markup(false).len() != cell_markup(true).len());
}

proof fn lemma_row_markers(row: Seq<bool>)
    ensures
        marked(indicators(row)) == alive_in_row(row),
    decreases row.len(),
{
    if row.len() > 0 {
        lemma_markers_distinct();
        assert(indicators(row).drop_last() =~= indicators(row.drop_last()));
        lemma_row_markers(row.drop_last());
    }
}

proof fn lemma_grid_markers(g: Seq<Seq<bool>>)
    ensures
        marked_cells(g) == alive_cells(g),
    decreases g.len(),
{
    if g.len() > 0 {
        lemma_row_markers(g.last());
        lemma_grid_markers(g.drop_last());
    }
}

/// The fragment is the container around `SIZE` row wrappers in order, each
/// around the `SIZE` indicators of its cells in order. An indicator carries
/// the alive marker exactly when its cell is alive, so the fragment holds as
/// many alive markers as the grid has alive cells.
pub proof fn lemma_render_fidelity(g: Seq<Seq<bool>>)
    requires
        well_sized(g),
    ensures
        markup(g) == "<div id=\"container\" class=\"container\" hx-swap-oob=\"true\">\n"@
            + Seq::new(SIZE as nat, |r: int| row_markup(g[r])).flatten() + "</div>"@,
        forall|r: int|
            0 <= r < SIZE ==> #[trigger] row_markup(g[r]) == "<div class=\"row\">\n"@ + indicators(
                g[r],
            ).flatten() + "</div>\n"@,
        forall|r: int| 0 <= r < SIZE ==> #[trigger] indicators(g[r]).len() == SIZE,
        forall|b: bool| #[trigger] cell_markup(b) == cell_markup(true) <==> b,
        marked_cells(g) == alive_cells(g),
{
    assert(g.map_values(|row: Seq<bool>| row_markup(row)) =~= Seq::new(SIZE as nat, |r: int| row_markup(g[r])));
    lemma_markers_distinct();
    lemma_grid_markers(g);
}

proof fn lemma_cancel_prefix(x: Seq<char>, a: Seq<char>, b: Seq<char>)
    requires
        x + a == x + b,
    ensures
        a == b,
{
    assert(a =~= (x + a).subrange(x.len() as int, (x + a).len() as int));
    assert(b =~= (x + b).subrange(x.len() as int, (x + b).len() as int));
}

/// Cell indicators can be read back one by one: equal runs of indicators,
/// each followed by anything, come from equal rows.
proof fn lemma_cells_injective(r1: Seq<bool>, r2: Seq<bool>, t1: Seq<char>, t2: Seq<char>)
    requires
        r1.len() == r2.len(),
        r1.map_values(|b: bool| cell_markup(b)).flatten() + t1 == r2.map_values(
            |b: bool| cell_markup(b),
        ).flatten() + t2,
    ensures
        r1 == r2,
        t1 == t2,
    decreases r1.len(),
{
    let f1 = r1.map_values(|b: bool| cell_markup(b));
    let f2 = r2.map_values(|b: bool| cell_markup(b));
    if r1.len() == 0 {
        assert(f1.flatten() =~= Seq::<char>::empty());
        assert(f2.flatten() =~= Seq::<char>::empty());
        assert(t1 =~= f1.flatten() + t1);
        assert(t2 =~= f2.flatten() + t2);
        assert(r1 =~= r2);
    } else {
        let x1 = cell_markup(r1[0]);
        let x2 = cell_markup(r2[0]);
        let rest1 = r1.drop_first().map_values(|b: bool| cell_markup(b)).flatten();
        let rest2 = r2.drop_first().map_values(|b: bool| cell_markup(b)).flatten();
        assert(f1.drop_first() =~= r1.drop_first().map_values(|b: bool| cell_markup(b)));
        assert(f2.drop_first() =~= r2.drop_first().map_values(|b: bool| cell_markup(b)));
        assert(f1.flatten() + t1 =~= x1 + (rest1 + t1));
        assert(f2.flatten() + t2 =~= x2 + (rest2 + t2));
        reveal_strlit("\t<span class=\"alive\"></span>\n");
        reveal_strlit("\t<span></span>\n");
        if r1[0] != r2[0] {
            assert((x1 + (rest1 + t1))[6] == x1[6]);
            assert((x2 + (rest2 + t2))[6] == x2[6]);
            assert(false);
        }
        lemma_cancel_prefix(x1, rest1 + t1, rest2 + t2);
        lemma_cells_injective(r1.drop_first(), r2.drop_first(), t1, t2);
        assert(r1 =~= seq![r1[0]] + r1.drop_first());
        assert(r2 =~= seq![r2[0]] + r2.drop_first());
    }
}

/// Row wrappers can be read back one by one, as cell indicators can.
proof fn lemma_rows_injective(g1: Seq<Seq<bool>>, g2: Seq<Seq<bool>>, t1: Seq<char>, t2: Seq<char>)
    requires
        g1.len() == g2.len(),
        forall|r: int| 0 <= r < g1.len() ==> (#[trigger] g1[r]).len() == g2[r].len(),
        g1.map_values(|row: Seq<bool>| row_markup(row)).flatten() + t1 == g2.map_values(
            |row: Seq<bool>| row_markup(row),
        ).flatten() + t2,
    ensures
        g1 == g2,
        t1 == t2,
    decreases g1.len(),
{
    let f1 = g1.map_values(|row: Seq<bool>| row_markup(row));
    let f2 = g2.map_values(|row: Seq<bool>| row_markup(row));
    if g1.len() == 0 {
        assert(f1.flatten() =~= Seq::<char>::empty());
        assert(f2.flatten() =~= Seq::<char>::empty());
        assert(t1 =~= f1.flatten() + t1);
        assert(t2 =~= f2.flatten() + t2);
        assert(g1 =~= g2);
    } else {
        let open = "<div class=\"row\">\n"@;
        let close = "</div>\n"@;
        let c1 = g1[0].map_values(|b: bool| cell_markup(b)).flatten();
        let c2 = g2[0].map_values(|b: bool| cell_markup(b)).flatten();
        let rest1 = g1.drop_first().map_values(|row: Seq<bool>| row_markup(row)).flatten();
        let rest2 = g2.drop_first().map_values(|row: Seq<bool>| row_markup(row)).flatten();
        assert(f1.drop_first() =~= g1.drop_first().map_values(|row: Seq<bool>| row_markup(row)));
        assert(f2.drop_first() =~= g2.drop_first().map_values(|row: Seq<bool>| row_markup(row)));
        assert(f1.flatten() + t1 =~= open + (c1 + (close + rest1 + t1)));
        assert(f2.flatten() + t2 =~= open + (c2 + (close + rest2 + t2)));
        lemma_cancel_prefix(open, c1 + (close + rest1 + t1), c2 + (close + rest2 + t2));
        lemma_cells_injective(g1[0], g2[0], close + rest1 + t1, close + rest2 + t2);
        assert(close + rest1 + t1 =~= close + (rest1 + t1));
        assert(close + rest2 + t2 =~= close + (rest2 + t2));
        lemma_cancel_prefix(close, rest1 + t1, rest2 + t2);
        assert forall|r: int| 0 <= r < g1.drop_first().len() implies (#[trigger] g1.drop_first()[r]).len()
            == g2.drop_first()[r].len() by {
            assert(g1[r + 1].len() == g2[r + 1].len());
        }
        lemma_rows_injective(g1.drop_first(), g2.drop_first(), t1, t2);
        assert(g1 =~= seq![g1[0]] + g1.drop_first());
        assert(g2 =~= seq![g2[0]] + g2.drop_first());
    }
}

/// Different grids render differently: the fragment determines the grid.
pub proof fn lemma_markup_injective(g1: Seq<Seq<bool>>, g2: Seq<Seq<bool>>)
    requires
        well_sized(g1),
        well_sized(g2),
        markup(g1) == markup(g2),
    ensures
        g1 == g2,
{
    let head = "<div id=\"container\" class=\"container\" hx-swap-oob=\"true\">\n"@;
    let tail = "</div>"@;
    let b1 = g1.map_values(|row: Seq<bool>| row_markup(row)).flatten();
    let b2 = g2.map_values(|row: Seq<bool>| row_markup(row)).flatten();
    assert(markup(g1) =~= head + (b1 + tail));
    assert(markup(g2) =~= head + (b2 + tail));
    lemma_cancel_prefix(head, b1 + tail, b2 + tail);
    lemma_rows_injective(g1, g2, tail, tail);
}

/// Relies on rand's `Rng::gen_range` over the thread-local generator: a
/// uniform draw that lies in `[0, 100)`.
#[verifier::external_body]
fn draw_percent() -> (d: u8)
    ensures
        d < 100,
{
    rand::Rng::gen_range(&mut rand::thread_rng(), 0..100u8)
}

/// Builds the seeded grid from one draw per cell, in row-major order.
pub fn grid_from_draws(draws: &Vec<u8>) -> (g: Grid)
    requires
        draws@.len() == SIZE * SIZE,
    ensures
        g.wf(),
        g@ == seeded(draws@),
{
    let mut rows: Vec<Vec<bool>> = Vec::new();
    let mut i: usize = 0;
    while i < SIZE
        invariant
            draws@.len() == SIZE * SIZE,
            i <= SIZE,
            rows@.len() == i,
            forall|k: int| 0 <= k < i ==> #[trigger] rows@[k]@ == seeded(draws@)[k],
        decreases SIZE - i,
    {
        let mut row: Vec<bool> = Vec::new();
        let mut y: usize = 0;
        while y < SIZE
            invariant
                draws@.len() == SIZE * SIZE,
                i < SIZE,
                y <= SIZE,
                row@.len() == y,
                forall|k: int| 0 <= k < y ==> #[trigger] row@[k] == seeded(draws@)[i as int][k],
            decreases SIZE - y,
        {
            row.push(draws[i * SIZE + y] > 100 - ALIVE_SPAWN_CHANCE);
            y = y + 1;
        }
        assert(row@ =~= seeded(draws@)[i as int]);
        rows.push(row);
        i = i + 1;
    }
    let g = Grid { rows };
    assert(g@ =~= seeded(draws@));
    g
}

/// A freshly seeded grid: every cell independently draws a number in
/// `[0, 100)` and is alive when the draw exceeds `100 - ALIVE_SPAWN_CHANCE`.
pub fn spawn_grid() -> (g: Grid)
    ensures
        g.wf(),
        exists|draws: Seq<u8>|
            draws.len() == SIZE * SIZE && (forall|k: int| 0 <= k < draws.len() ==> #[trigger] draws[k] < 100)
                && g@ == seeded(draws),
{
    let mut draws: Vec<u8> = Vec::new();
    let mut k: usize = 0;
    while k < SIZE * SIZE
        invariant
            k <= SIZE * SIZE,
            draws@.len() == k,
            forall|j: int| 0 <= j < k ==> #[trigger] draws@[j] < 100,
        decreases SIZE * SIZE - k,
    {
        draws.push(draw_percent());
        k = k + 1;
    }
    grid_from_draws(&draws)
}

} // verus!
