//! The grid of cells and the growth rule that acts on it.

use vstd::prelude::*;
use rand::rngs::ThreadRng;
use crate::board::{
    all_inside, board_text, cell_at, cols_of, down_of, filled, if_empty, inside, left_of,
    lemma_ahead, lemma_neighbors_inside, lemma_open_neighbors, lemma_sprinkled,
    lemma_visited_shape, load, moved,
    open_neighbors, pick_fits, picks_fit, point, points, put, right_of, row_text, rows_of, seeded,
    settled, sightings, sprinkled, swept, touches_frozen, up_of, visited, well_shaped,
};
use crate::cell::Cell;
use crate::chance::{choose_one, draw_below};
use crate::laws::{
    law_frozen_stays, law_frozen_stays_through_pass, law_load_kept, law_load_kept_through_pass,
    law_quiet_pass, law_sightings_zero,
};
use crate::store::{array_from_elem, array_get, array_rows, array_set, CellArray};
use crate::text::push_char;

verus! {

/// A rectangular grid of cells of fixed size, addressed by `(row, column)`.
pub struct Grid {
    cells: CellArray,
    height: usize,
    width: usize,
}

/// The four neighbours of a coordinate, each as `(row, column)`.
#[derive(Clone, Copy, Debug)]
pub struct Neighbors {
    pub left: (usize, usize),
    pub right: (usize, usize),
    pub up: (usize, usize),
    pub down: (usize, usize),
}

impl View for Grid {
    type V = Seq<Seq<Cell>>;

    /// The grid as a board: its rows from the top, each from the left.
    closed spec fn view(&self) -> Seq<Seq<Cell>> {
        array_rows(self.cells)
    }
}

impl Grid {
    /// The recorded dimensions are those of the board.
    pub closed spec fn dims_agree(&self) -> bool {
        &&& self.height == self@.len()
        &&& self.width == self@[0].len()
    }

    /// A grid is well formed when its board is well shaped and its recorded
    /// dimensions are those of the board.
    pub open spec fn wf(&self) -> bool {
        &&& well_shaped(self@)
        &&& self.dims_agree()
    }

    /// A grid of `height` rows and `width` columns, empty but for the frozen
    /// seed at row `height / 2`, column `width / 2`.
    pub fn new(height: usize, width: usize) -> (g: Grid)
        requires
            0 < height,
            0 < width,
            height * width <= isize::MAX,
        ensures
            g.wf(),
            g@ == seeded(height as int, width as int),
            rows_of(g@) == height,
            cols_of(g@) == width,
    {
        let cells = array_from_elem(height, width, Cell::Empty);
        let mut g = Grid { cells, height, width };
        assert(g@ == filled(height as int, width as int, Cell::Empty));
        assert(g@[0].len() == width);
        g.set(height / 2, width / 2, Cell::Frozen);
        g
    }

    /// Number of rows.
    pub fn height(&self) -> (h: usize)
        requires
            self.wf(),
        ensures
            h == self@.len(),
    {
        self.height
    }

    /// Number of columns.
    pub fn width(&self) -> (w: usize)
        requires
            self.wf(),
        ensures
            w == self@[0].len(),
    {
        self.width
    }

    /// The cell at row `y`, column `x`.
    pub fn get(&self, y: usize, x: usize) -> (c: Cell)
        requires
            self.wf(),
            inside(self@, y as int, x as int),
        ensures
            c == self@[y as int][x as int],
    {
        array_get(&self.cells, y, x)
    }

    /// Overwrites the cell at row `y`, column `x` with `c`.
    pub fn set(&mut self, y: usize, x: usize, c: Cell)
        requires
            old(self).wf(),
            inside(old(self)@, y as int, x as int),
        ensures
            final(self).wf(),
            final(self)@ == put(old(self)@, y as int, x as int, c),
            rows_of(final(self)@) == rows_of(old(self)@),
            cols_of(final(self)@) == cols_of(old(self)@),
    {
        array_set(&mut self.cells, y, x, c);
    }

    /// The four neighbours of `(y, x)`. Towards row 0 and column 0 the index
    /// is clamped, so a cell on the top or left edge is its own neighbour in
    /// that direction. Away from them the index wraps around to 0.
    pub fn neighbors(&self, y: usize, x: usize) -> (n: Neighbors)
        requires
            self.wf(),
            inside(self@, y as int, x as int),
        ensures
            point(n.left) == left_of(y as int, x as int),
            point(n.right) == right_of(cols_of(self@), y as int, x as int),
            point(n.up) == up_of(y as int, x as int),
            point(n.down) == down_of(rows_of(self@), y as int, x as int),
            n.left == (y, if x == 0 {
                0usize
            } else {
                (x - 1) as usize
            }),
            n.right == (y, if x + 1 == cols_of(self@) {
                0usize
            } else {
                (x + 1) as usize
            }),
            n.up == (if y == 0 {
                0usize
            } else {
                (y - 1) as usize
            }, x),
            n.down == (if y + 1 == rows_of(self@) {
                0usize
            } else {
                (y + 1) as usize
            }, x),
            inside(self@, n.left.0 as int, n.left.1 as int),
            inside(self@, n.right.0 as int, n.right.1 as int),
            inside(self@, n.up.0 as int, n.up.1 as int),
            inside(self@, n.down.0 as int, n.down.1 as int),
    {
        proof {
            lemma_neighbors_inside(self@, y as int, x as int);
            lemma_ahead(x as int, cols_of(self@));
            lemma_ahead(y as int, rows_of(self@));
        }
        Neighbors {
            left: (y, x.saturating_sub(1)),
            right: (y, (x + 1) % self.width),
            up: (y.saturating_sub(1), x),
            down: ((y + 1) % self.height, x),
        }
    }

    /// Carries out what the draw among the empty neighbours of `(y, x)` gave:
    /// with a target, the cell at `(y, x)` becomes empty and the target
    /// becomes flying; without one, nothing changes.
    pub fn relocate(&mut self, y: usize, x: usize, target: Option<(usize, usize)>)
        requires
            old(self).wf(),
            inside(old(self)@, y as int, x as int),
            target matches Some(t) ==> inside(old(self)@, t.0 as int, t.1 as int),
        ensures
            final(self).wf(),
            final(self)@ == match target {
                Some(t) => moved(old(self)@, y as int, x as int, point(t)),
                None => old(self)@,
            },
            rows_of(final(self)@) == rows_of(old(self)@),
            cols_of(final(self)@) == cols_of(old(self)@),
    {
        if let Some(t) = target {
            self.set(y, x, Cell::Empty);
            self.set(t.0, t.1, Cell::Flying);
        }
    }

    /// The empty neighbours of `(y, x)`, in the order left, right, up, down.
    pub fn empty_neighbors(&self, y: usize, x: usize) -> (open: Vec<(usize, usize)>)
        requires
            self.wf(),
            inside(self@, y as int, x as int),
        ensures
            points(open@) == open_neighbors(self@, y as int, x as int),
    {
        let n = self.neighbors(y, x);
        let mut open: Vec<(usize, usize)> = Vec::new();
        if self.get(n.left.0, n.left.1).is_empty() {
            open.push(n.left);
        }
        assert(points(open@) == if_empty(self@, point(n.left)));
        if self.get(n.right.0, n.right.1).is_empty() {
            open.push(n.right);
        }
        assert(points(open@) == if_empty(self@, point(n.left)) + if_empty(self@, point(n.right)));
        if self.get(n.up.0, n.up.1).is_empty() {
            open.push(n.up);
        }
        assert(points(open@) == if_empty(self@, point(n.left)) + if_empty(self@, point(n.right))
            + if_empty(self@, point(n.up)));
        if self.get(n.down.0, n.down.1).is_empty() {
            open.push(n.down);
        }
        assert(points(open@) == if_empty(self@, point(n.left)) + if_empty(self@, point(n.right))
            + if_empty(self@, point(n.up)) + if_empty(self@, point(n.down)));
        open
    }

    /// Whether one of the four neighbours of `(y, x)` is frozen.
    pub fn next_to_frozen(&self, y: usize, x: usize) -> (b: bool)
        requires
            self.wf(),
            inside(self@, y as int, x as int),
        ensures
            b == touches_frozen(self@, y as int, x as int),
    {
        let n = self.neighbors(y, x);
        self.get(n.left.0, n.left.1).is_frozen() || self.get(n.right.0, n.right.1).is_frozen()
            || self.get(n.up.0, n.up.1).is_frozen() || self.get(n.down.0, n.down.1).is_frozen()
    }

    /// Applies the growth rule at `(y, x)` and tells whether a flying cell
    /// was found there. A flying cell with a frozen neighbour freezes in
    /// place. Otherwise it moves to one of its empty neighbours, drawn from
    /// `rng`, and stays where it is if it has none. Any other cell is left
    /// alone.
    pub fn visit(&mut self, y: usize, x: usize, rng: &mut ThreadRng) -> (was_flying: bool)
        requires
            old(self).wf(),
            inside(old(self)@, y as int, x as int),
        ensures
            final(self).wf(),
            rows_of(final(self)@) == rows_of(old(self)@),
            cols_of(final(self)@) == cols_of(old(self)@),
            was_flying == (old(self)@[y as int][x as int] == Cell::Flying),
            exists|pick: int|
                pick_fits(old(self)@, y as int, x as int, pick) && final(self)@ == #[trigger] visited(
                    old(self)@,
                    y as int,
                    x as int,
                    pick,
                ),
            !was_flying ==> final(self)@ == old(self)@,
            was_flying && touches_frozen(old(self)@, y as int, x as int)
                ==> final(self)@ == put(old(self)@, y as int, x as int, Cell::Frozen),
            was_flying && !touches_frozen(old(self)@, y as int, x as int)
                && open_neighbors(old(self)@, y as int, x as int).len() == 0 ==> final(self)@
                == old(self)@,
            forall|r: int, c: int|
                inside(old(self)@, r, c) && old(self)@[r][c] == Cell::Frozen ==> (
                #[trigger] final(self)@[r][c]) == Cell::Frozen,
            load(final(self)@) == load(old(self)@),
    {
        let ghost before = self@;
        let ghost mut pick: int = 0;
        if !self.get(y, x).is_flying() {
            assert(self@ == visited(before, y as int, x as int, pick));
            return false;
        }
        if self.next_to_frozen(y, x) {
            self.set(y, x, Cell::Frozen);
        } else {
            let open = self.empty_neighbors(y, x);
            let target = choose_one(&open, rng);
            proof {
                lemma_open_neighbors(before, y as int, x as int);
                if let Some(t) = target {
                    pick = choose|k: int| 0 <= k < open@.len() && open@[k] == t;
                    assert(points(open@)[pick] == point(t));
                } else {
                    assert(points(open@).len() == 0);
                }
            }
            self.relocate(y, x, target);
        }
        proof {
            assert(self@ == visited(before, y as int, x as int, pick));
            lemma_visited_shape(before, y as int, x as int, pick);
            law_load_kept(before, y as int, x as int, pick);
            assert forall|r: int, c: int|
                inside(before, r, c) && before[r][c] == Cell::Frozen implies (
            #[trigger] self@[r][c]) == Cell::Frozen by {
                law_frozen_stays(before, y as int, x as int, pick, r, c);
            }
        }
        true
    }

    /// Applies the growth rule once at each coordinate of `order`, in that
    /// order, and returns how many of them held a flying cell when their
    /// turn came. The grid is changed in place, so a coordinate sees what
    /// the visits before it left behind.
    pub fn sweep(&mut self, order: &Vec<(usize, usize)>, rng: &mut ThreadRng) -> (seen: usize)
        requires
            old(self).wf(),
            all_inside(old(self)@, points(order@)),
        ensures
            final(self).wf(),
            rows_of(final(self)@) == rows_of(old(self)@),
            cols_of(final(self)@) == cols_of(old(self)@),
            exists|picks: Seq<int>|
                {
                    &&& picks_fit(old(self)@, points(order@), picks)
                    &&& final(self)@ == #[trigger] swept(old(self)@, points(order@), picks)
                    &&& seen == sightings(old(self)@, points(order@), picks)
                },
            seen == 0 <==> forall|k: int|
                0 <= k < order@.len() ==> cell_at(old(self)@, #[trigger] points(order@)[k])
                    != Cell::Flying,
            seen == 0 ==> final(self)@ == old(self)@,
            forall|r: int, c: int|
                inside(old(self)@, r, c) && old(self)@[r][c] == Cell::Frozen ==> (
                #[trigger] final(self)@[r][c]) == Cell::Frozen,
            load(final(self)@) == load(old(self)@),
    {
        let ghost before = self@;
        let ghost route = points(order@);
        let ghost mut picks: Seq<int> = Seq::empty();
        let mut seen: usize = 0;
        let mut k: usize = 0;
        assert(route.take(0) =~= Seq::empty());
        while k < order.len()
            invariant
                k <= order.len(),
                seen <= k,
                route == points(order@),
                well_shaped(before),
                all_inside(before, route),
                self.wf(),
                rows_of(self@) == rows_of(before),
                cols_of(self@) == cols_of(before),
                picks_fit(before, route.take(k as int), picks),
                self@ == swept(before, route.take(k as int), picks),
                seen == sightings(before, route.take(k as int), picks),
            decreases order.len() - k,
        {
            let (y, x) = order[k];
            let ghost here = self@;
            assert(inside(before, route[k as int].0, route[k as int].1));
            let was_flying = self.visit(y, x, rng);
            proof {
                let pick = choose|pick: int|
                    pick_fits(here, y as int, x as int, pick) && self@ == #[trigger] visited(
                        here,
                        y as int,
                        x as int,
                        pick,
                    );
                lemma_visited_shape(here, y as int, x as int, pick);
                let longer = route.take(k as int + 1);
                assert(longer.drop_last() =~= route.take(k as int));
                assert(longer.last() == (y as int, x as int));
                assert(picks.push(pick).drop_last() =~= picks);
                picks = picks.push(pick);
            }
            if was_flying {
                seen = seen + 1;
            }
            k = k + 1;
        }
        proof {
            assert(route.take(k as int) =~= route);
            law_sightings_zero(before, route, picks);
            if seen == 0 {
                law_quiet_pass(before, route, picks);
            }
            law_load_kept_through_pass(before, route, picks);
            assert forall|r: int, c: int|
                inside(before, r, c) && before[r][c] == Cell::Frozen implies (
            #[trigger] self@[r][c]) == Cell::Frozen by {
                law_frozen_stays_through_pass(before, route, picks, r, c);
            }
        }
        seen
    }

    /// The grid as text: one line for each row, one character for each cell,
    /// nothing between the characters, and a line break after each row.
    pub fn render(&self) -> (text: String)
        requires
            self.wf(),
        ensures
            text@ == board_text(self@),
    {
        let mut text = String::new();
        let mut y: usize = 0;
        assert(self@.take(0) =~= Seq::empty());
        while y < self.height
            invariant
                self.wf(),
                y <= self.height,
                self.height == self@.len(),
                text@ == board_text(self@.take(y as int)),
            decreases self.height - y,
        {
            let ghost above = text@;
            let mut x: usize = 0;
            while x < self.width
                invariant
                    self.wf(),
                    y < self.height,
                    x <= self.width,
                    self.height == self@.len(),
                    self.width == self@[y as int].len(),
                    text@ == above + row_text(self@[y as int]).take(x as int),
                decreases self.width - x,
            {
                let c = self.get(y, x).glyph();
                push_char(&mut text, c);
                assert(row_text(self@[y as int]).take(x as int + 1) =~= row_text(
                    self@[y as int],
                ).take(x as int).push(c));
                x = x + 1;
            }
            push_char(&mut text, '\n');
            proof {
                let rows = self@.take(y as int + 1);
                assert(rows.drop_last() =~= self@.take(y as int));
                assert(rows.last() == self@[y as int]);
                assert(row_text(self@[y as int]).take(x as int) =~= row_text(self@[y as int]));
                assert(text@ =~= board_text(rows.drop_last()) + row_text(rows.last()) + seq!['\n']);
            }
            y = y + 1;
        }
        assert(self@.take(y as int) =~= self@);
        text
    }

    /// Turns `count` cells into flying ones, each at a row and a column drawn
    /// from `rng` independently of the others. A draw may hit a cell that
    /// already holds something, the seed included; that cell is overwritten.
    pub fn scatter(&mut self, count: usize, rng: &mut ThreadRng)
        requires
            old(self).wf(),
        ensures
            final(self).wf(),
            rows_of(final(self)@) == rows_of(old(self)@),
            cols_of(final(self)@) == cols_of(old(self)@),
            exists|spots: Seq<(int, int)>|
                {
                    &&& spots.len() == count
                    &&& all_inside(old(self)@, spots)
                    &&& final(self)@ == #[trigger] sprinkled(old(self)@, spots)
                },
            forall|r: int, c: int|
                inside(old(self)@, r, c) ==> (#[trigger] final(self)@[r][c]) == old(self)@[r][c]
                    || final(self)@[r][c] == Cell::Flying,
            count == 0 ==> final(self)@ == old(self)@,
            count > 0 ==> !settled(final(self)@),
    {
        let ghost before = self@;
        let ghost mut spots: Seq<(int, int)> = Seq::empty();
        let mut k: usize = 0;
        while k < count
            invariant
                k <= count,
                well_shaped(before),
                self.wf(),
                rows_of(self@) == rows_of(before),
                cols_of(self@) == cols_of(before),
                spots.len() == k,
                all_inside(before, spots),
                self@ == sprinkled(before, spots),
            decreases count - k,
        {
            let y = draw_below(rng, self.height);
            let x = draw_below(rng, self.width);
            self.set(y, x, Cell::Flying);
            proof {
                assert(spots.push((y as int, x as int)).drop_last() =~= spots);
                spots = spots.push((y as int, x as int));
            }
            k = k + 1;
        }
        proof {
            lemma_sprinkled(before, spots);
            if count > 0 {
                let last = spots.last();
                assert(inside(before, spots[spots.len() - 1].0, spots[spots.len() - 1].1));
                assert(inside(self@, last.0, last.1) && self@[last.0][last.1] == Cell::Flying);
            }
        }
    }
}

} // verus!
