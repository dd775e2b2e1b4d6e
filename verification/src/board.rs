//! The mathematical model of a grid and of the growth rule.
//!
//! A board is a sequence of rows, each a sequence of cells. Everything the
//! executable code does to a grid is stated here as a function on boards.

use vstd::prelude::*;
use vstd::arithmetic::div_mod::{lemma_mod_self_0, lemma_small_mod};
use crate::cell::Cell;

verus! {

/// A board has at least one row and one column, and all rows are equally long.
pub open spec fn well_shaped(b: Seq<Seq<Cell>>) -> bool {
    &&& b.len() > 0
    &&& b[0].len() > 0
    &&& forall|y: int| 0 <= y < b.len() ==> #[trigger] b[y].len() == b[0].len()
}

/// Number of rows.
pub open spec fn rows_of(b: Seq<Seq<Cell>>) -> int {
    b.len() as int
}

/// Number of columns.
pub open spec fn cols_of(b: Seq<Seq<Cell>>) -> int {
    b[0].len() as int
}

/// Whether `(y, x)` is a coordinate of the board.
pub open spec fn inside(b: Seq<Seq<Cell>>, y: int, x: int) -> bool {
    0 <= y < rows_of(b) && 0 <= x < cols_of(b)
}

/// A coordinate as a pair of mathematical integers.
pub open spec fn point(p: (usize, usize)) -> (int, int) {
    (p.0 as int, p.1 as int)
}

/// A list of coordinates as pairs of mathematical integers.
pub open spec fn points(v: Seq<(usize, usize)>) -> Seq<(int, int)> {
    Seq::new(v.len(), |k: int| point(v[k]))
}

/// The board with the cell at `(y, x)` replaced by `c`.
pub open spec fn put(b: Seq<Seq<Cell>>, y: int, x: int, c: Cell) -> Seq<Seq<Cell>> {
    b.update(y, b[y].update(x, c))
}

/// A board of `h` rows and `w` columns holding `c` everywhere.
pub open spec fn filled(h: int, w: int, c: Cell) -> Seq<Seq<Cell>> {
    Seq::new(h as nat, |y: int| Seq::new(w as nat, |x: int| c))
}

/// The starting board: empty but for the frozen seed at the centre.
pub open spec fn seeded(h: int, w: int) -> Seq<Seq<Cell>> {
    put(filled(h, w, Cell::Empty), h / 2, w / 2, Cell::Frozen)
}

/// One step towards index 0, staying at 0 once there.
pub open spec fn back(i: int) -> int {
    if i <= 0 {
        0
    } else {
        i - 1
    }
}

/// One step away from index 0 on an axis of length `n`, wrapping around.
pub open spec fn ahead(i: int, n: int) -> int {
    (i + 1) % n
}

/// The neighbour to the left: the column is clamped at 0.
pub open spec fn left_of(y: int, x: int) -> (int, int) {
    (y, back(x))
}

/// The neighbour to the right on a board `w` columns wide: the column wraps.
pub open spec fn right_of(w: int, y: int, x: int) -> (int, int) {
    (y, ahead(x, w))
}

/// The neighbour above: the row is clamped at 0.
pub open spec fn up_of(y: int, x: int) -> (int, int) {
    (back(y), x)
}

/// The neighbour below on a board `h` rows high: the row wraps.
pub open spec fn down_of(h: int, y: int, x: int) -> (int, int) {
    (ahead(y, h), x)
}

/// The cell at coordinate `p`.
pub open spec fn cell_at(b: Seq<Seq<Cell>>, p: (int, int)) -> Cell {
    b[p.0][p.1]
}

/// Whether one of the four neighbours of `(y, x)` is frozen.
pub open spec fn touches_frozen(b: Seq<Seq<Cell>>, y: int, x: int) -> bool {
    ||| cell_at(b, left_of(y, x)) == Cell::Frozen
    ||| cell_at(b, right_of(cols_of(b), y, x)) == Cell::Frozen
    ||| cell_at(b, up_of(y, x)) == Cell::Frozen
    ||| cell_at(b, down_of(rows_of(b), y, x)) == Cell::Frozen
}

/// `p` alone if the cell there is empty, nothing otherwise.
pub open spec fn if_empty(b: Seq<Seq<Cell>>, p: (int, int)) -> Seq<(int, int)> {
    if cell_at(b, p) == Cell::Empty {
        seq![p]
    } else {
        Seq::empty()
    }
}

/// The neighbours of `(y, x)` that are empty, in the order left, right, up,
/// down. A coordinate that is the neighbour in two directions is listed twice.
pub open spec fn open_neighbors(b: Seq<Seq<Cell>>, y: int, x: int) -> Seq<(int, int)> {
    if_empty(b, left_of(y, x)) + if_empty(b, right_of(cols_of(b), y, x)) + if_empty(
        b,
        up_of(y, x),
    ) + if_empty(b, down_of(rows_of(b), y, x))
}

/// The board after the particle at `(y, x)` has moved to `t`.
pub open spec fn moved(b: Seq<Seq<Cell>>, y: int, x: int, t: (int, int)) -> Seq<Seq<Cell>> {
    put(put(b, y, x, Cell::Empty), t.0, t.1, Cell::Flying)
}

/// Whether the rule moves the particle at `(y, x)`: it is flying, touches
/// nothing frozen, and has an empty neighbour.
pub open spec fn may_move(b: Seq<Seq<Cell>>, y: int, x: int) -> bool {
    &&& b[y][x] == Cell::Flying
    &&& !touches_frozen(b, y, x)
    &&& open_neighbors(b, y, x).len() > 0
}

/// Whether `pick` is an admissible draw at `(y, x)`: where the rule moves the
/// particle, `pick` is an index into the list of its empty neighbours.
pub open spec fn pick_fits(b: Seq<Seq<Cell>>, y: int, x: int, pick: int) -> bool {
    may_move(b, y, x) ==> 0 <= pick < open_neighbors(b, y, x).len()
}

/// The growth rule at one coordinate. A cell that is not flying is left
/// alone. A flying cell with a frozen neighbour freezes where it is. Any
/// other flying cell moves to the empty neighbour number `pick`, and stays
/// put if it has none.
pub open spec fn visited(b: Seq<Seq<Cell>>, y: int, x: int, pick: int) -> Seq<Seq<Cell>> {
    if b[y][x] != Cell::Flying {
        b
    } else if touches_frozen(b, y, x) {
        put(b, y, x, Cell::Frozen)
    } else if 0 <= pick < open_neighbors(b, y, x).len() {
        moved(b, y, x, open_neighbors(b, y, x)[pick])
    } else {
        b
    }
}

/// The board after the rule has been applied at each coordinate of `order`
/// in turn, with `picks[k]` the draw at `order[k]`. Every application sees
/// what the earlier ones left behind.
pub open spec fn swept(b: Seq<Seq<Cell>>, order: Seq<(int, int)>, picks: Seq<int>) -> Seq<
    Seq<Cell>,
>
    decreases order.len(),
{
    if order.len() == 0 {
        b
    } else {
        let before = swept(b, order.drop_last(), picks.drop_last());
        visited(before, order.last().0, order.last().1, picks.last())
    }
}

/// Whether every draw of `picks` is admissible at the moment it is used.
pub open spec fn picks_fit(b: Seq<Seq<Cell>>, order: Seq<(int, int)>, picks: Seq<int>) -> bool
    decreases order.len(),
{
    &&& picks.len() == order.len()
    &&& order.len() > 0 ==> {
        &&& picks_fit(b, order.drop_last(), picks.drop_last())
        &&& pick_fits(
            swept(b, order.drop_last(), picks.drop_last()),
            order.last().0,
            order.last().1,
            picks.last(),
        )
    }
}

/// How many of the coordinates of `order` held a flying cell at the moment
/// they were visited.
pub open spec fn sightings(b: Seq<Seq<Cell>>, order: Seq<(int, int)>, picks: Seq<int>) -> nat
    decreases order.len(),
{
    if order.len() == 0 {
        0
    } else {
        let before = swept(b, order.drop_last(), picks.drop_last());
        sightings(b, order.drop_last(), picks.drop_last()) + if cell_at(before, order.last())
            == Cell::Flying {
            1nat
        } else {
            0nat
        }
    }
}

/// Whether every coordinate of `order` lies on the board.
pub open spec fn all_inside(b: Seq<Seq<Cell>>, order: Seq<(int, int)>) -> bool {
    forall|k: int| 0 <= k < order.len() ==> inside(b, (#[trigger] order[k]).0, order[k].1)
}

/// The board after a flying cell has been written at each coordinate of
/// `spots` in turn, over whatever was there.
pub open spec fn sprinkled(b: Seq<Seq<Cell>>, spots: Seq<(int, int)>) -> Seq<Seq<Cell>>
    decreases spots.len(),
{
    if spots.len() == 0 {
        b
    } else {
        put(sprinkled(b, spots.drop_last()), spots.last().0, spots.last().1, Cell::Flying)
    }
}

/// 1 for a cell that holds something, 0 for an empty one.
pub open spec fn weight(c: Cell) -> nat {
    if c == Cell::Empty {
        0
    } else {
        1
    }
}

/// Number of cells of a row that are not empty.
pub open spec fn row_load(row: Seq<Cell>) -> nat
    decreases row.len(),
{
    if row.len() == 0 {
        0
    } else {
        row_load(row.drop_last()) + weight(row.last())
    }
}

/// Number of cells of a board that are not empty.
pub open spec fn load(b: Seq<Seq<Cell>>) -> nat
    decreases b.len(),
{
    if b.len() == 0 {
        0
    } else {
        load(b.drop_last()) + row_load(b.last())
    }
}

/// Whether the board holds no flying cell.
pub open spec fn settled(b: Seq<Seq<Cell>>) -> bool {
    forall|y: int, x: int| inside(b, y, x) ==> (#[trigger] b[y][x]) != Cell::Flying
}

/// The coordinates of an `h` by `w` board, row by row.
pub open spec fn row_major(h: int, w: int) -> Seq<(int, int)> {
    Seq::new((h * w) as nat, |k: int| (k / w, k % w))
}

/// The order in which a pass visits the coordinates of a board.
pub open spec fn traversal(b: Seq<Seq<Cell>>) -> Seq<(int, int)> {
    row_major(rows_of(b), cols_of(b))
}

/// The text a row is drawn as: one character for each cell.
pub open spec fn row_text(row: Seq<Cell>) -> Seq<char> {
    Seq::new(row.len(), |x: int| row[x].glyph_of())
}

/// The text a board is drawn as: each row followed by a line break.
pub open spec fn board_text(b: Seq<Seq<Cell>>) -> Seq<char>
    decreases b.len(),
{
    if b.len() == 0 {
        Seq::empty()
    } else {
        board_text(b.drop_last()) + row_text(b.last()) + seq!['\n']
    }
}

/// On an axis of length `n`, a step ahead from the last index lands on 0 and
/// from any other index on the next one.
pub proof fn lemma_ahead(i: int, n: int)
    requires
        0 <= i < n,
    ensures
        ahead(i, n) == if i + 1 == n {
            0
        } else {
            i + 1
        },
        0 <= ahead(i, n) < n,
{
    if i + 1 == n {
        lemma_mod_self_0(n);
    } else {
        lemma_small_mod((i + 1) as nat, n as nat);
    }
}

/// The four neighbours of a coordinate of the board lie on the board.
pub proof fn lemma_neighbors_inside(b: Seq<Seq<Cell>>, y: int, x: int)
    requires
        well_shaped(b),
        inside(b, y, x),
    ensures
        inside(b, left_of(y, x).0, left_of(y, x).1),
        inside(b, right_of(cols_of(b), y, x).0, right_of(cols_of(b), y, x).1),
        inside(b, up_of(y, x).0, up_of(y, x).1),
        inside(b, down_of(rows_of(b), y, x).0, down_of(rows_of(b), y, x).1),
{
    lemma_ahead(x, cols_of(b));
    lemma_ahead(y, rows_of(b));
}

/// Every entry of the list of empty neighbours is a coordinate of the board
/// that holds an empty cell, and there are at most four of them.
pub proof fn lemma_open_neighbors(b: Seq<Seq<Cell>>, y: int, x: int)
    requires
        well_shaped(b),
        inside(b, y, x),
    ensures
        open_neighbors(b, y, x).len() <= 4,
        forall|k: int|
            0 <= k < open_neighbors(b, y, x).len() ==> {
                let t = #[trigger] open_neighbors(b, y, x)[k];
                &&& inside(b, t.0, t.1)
                &&& cell_at(b, t) == Cell::Empty
            },
{
    lemma_neighbors_inside(b, y, x);
}

/// Writing a cell of a well-shaped board leaves it well shaped, with the
/// same numbers of rows and columns.
pub proof fn lemma_put_shape(b: Seq<Seq<Cell>>, y: int, x: int, c: Cell)
    requires
        well_shaped(b),
        inside(b, y, x),
    ensures
        well_shaped(put(b, y, x, c)),
        rows_of(put(b, y, x, c)) == rows_of(b),
        cols_of(put(b, y, x, c)) == cols_of(b),
{
}

/// Applying the rule at a coordinate of a well-shaped board leaves it well
/// shaped, with the same numbers of rows and columns.
pub proof fn lemma_visited_shape(b: Seq<Seq<Cell>>, y: int, x: int, pick: int)
    requires
        well_shaped(b),
        inside(b, y, x),
    ensures
        well_shaped(visited(b, y, x, pick)),
        rows_of(visited(b, y, x, pick)) == rows_of(b),
        cols_of(visited(b, y, x, pick)) == cols_of(b),
{
    lemma_open_neighbors(b, y, x);
    if b[y][x] == Cell::Flying && !touches_frozen(b, y, x) && 0 <= pick < open_neighbors(
        b,
        y,
        x,
    ).len() {
        let t = open_neighbors(b, y, x)[pick];
        lemma_put_shape(b, y, x, Cell::Empty);
        lemma_put_shape(put(b, y, x, Cell::Empty), t.0, t.1, Cell::Flying);
    }
}

/// A pass over coordinates of a well-shaped board leaves it well shaped,
/// with the same numbers of rows and columns.
pub proof fn lemma_swept_shape(b: Seq<Seq<Cell>>, order: Seq<(int, int)>, picks: Seq<int>)
    requires
        well_shaped(b),
        all_inside(b, order),
    ensures
        well_shaped(swept(b, order, picks)),
        rows_of(swept(b, order, picks)) == rows_of(b),
        cols_of(swept(b, order, picks)) == cols_of(b),
    decreases order.len(),
{
    if order.len() > 0 {
        lemma_swept_shape(b, order.drop_last(), picks.drop_last());
        let before = swept(b, order.drop_last(), picks.drop_last());
        assert(inside(b, order[order.len() - 1].0, order[order.len() - 1].1));
        lemma_visited_shape(before, order.last().0, order.last().1, picks.last());
    }
}

/// Sprinkling flying cells over a well-shaped board leaves it well shaped,
/// with the same numbers of rows and columns. A cell either keeps what it
/// held or becomes flying, and the last coordinate hit is flying afterwards.
pub proof fn lemma_sprinkled(b: Seq<Seq<Cell>>, spots: Seq<(int, int)>)
    requires
        well_shaped(b),
        all_inside(b, spots),
    ensures
        well_shaped(sprinkled(b, spots)),
        rows_of(sprinkled(b, spots)) == rows_of(b),
        cols_of(sprinkled(b, spots)) == cols_of(b),
        forall|r: int, c: int|
            inside(b, r, c) ==> (#[trigger] sprinkled(b, spots)[r][c]) == b[r][c] || sprinkled(
                b,
                spots,
            )[r][c] == Cell::Flying,
        spots.len() > 0 ==> cell_at(sprinkled(b, spots), spots.last()) == Cell::Flying,
    decreases spots.len(),
{
    if spots.len() > 0 {
        lemma_sprinkled(b, spots.drop_last());
        assert(inside(b, spots[spots.len() - 1].0, spots[spots.len() - 1].1));
        lemma_put_shape(
            sprinkled(b, spots.drop_last()),
            spots.last().0,
            spots.last().1,
            Cell::Flying,
        );
    }
}

} // verus!
