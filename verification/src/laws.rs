//! What holds of the growth rule on every board.

use vstd::prelude::*;
use vstd::arithmetic::div_mod::{
    lemma_fundamental_div_mod, lemma_fundamental_div_mod_converse, lemma_mod_pos_bound,
};
use crate::board::{
    all_inside, cell_at, cols_of, down_of, inside, left_of, lemma_ahead, lemma_open_neighbors,
    lemma_put_shape, lemma_swept_shape, load, moved, open_neighbors, put, right_of, row_load,
    row_major, rows_of, settled, sightings, swept, touches_frozen, traversal, up_of, visited,
    weight,
    well_shaped,
};
use crate::cell::Cell;

verus! {

/// In row 0 the neighbour above a coordinate is the coordinate itself, and in
/// column 0 so is the neighbour to its left.
pub proof fn law_clamp_at_low_edge(y: int, x: int)
    requires
        0 <= y,
        0 <= x,
    ensures
        y == 0 ==> up_of(y, x) == (y, x),
        x == 0 ==> left_of(y, x) == (y, x),
        y > 0 ==> up_of(y, x) == (y - 1, x),
        x > 0 ==> left_of(y, x) == (y, x - 1),
{
}

/// In the last row the neighbour below a coordinate lies in row 0, and in
/// the last column the neighbour to its right lies in column 0.
pub proof fn law_wrap_at_high_edge(h: int, w: int, y: int, x: int)
    requires
        0 <= y < h,
        0 <= x < w,
    ensures
        y == h - 1 ==> down_of(h, y, x) == (0int, x),
        x == w - 1 ==> right_of(w, y, x) == (y, 0int),
        y < h - 1 ==> down_of(h, y, x) == (y + 1, x),
        x < w - 1 ==> right_of(w, y, x) == (y, x + 1),
{
    lemma_ahead(y, h);
    lemma_ahead(x, w);
}

/// A frozen cell stays frozen when the rule is applied anywhere on the board.
pub proof fn law_frozen_stays(b: Seq<Seq<Cell>>, y: int, x: int, pick: int, r: int, c: int)
    requires
        well_shaped(b),
        inside(b, y, x),
        inside(b, r, c),
        b[r][c] == Cell::Frozen,
    ensures
        visited(b, y, x, pick)[r][c] == Cell::Frozen,
{
    lemma_open_neighbors(b, y, x);
}

/// A frozen cell stays frozen through a whole pass over the board.
pub proof fn law_frozen_stays_through_pass(
    b: Seq<Seq<Cell>>,
    order: Seq<(int, int)>,
    picks: Seq<int>,
    r: int,
    c: int,
)
    requires
        well_shaped(b),
        all_inside(b, order),
        inside(b, r, c),
        b[r][c] == Cell::Frozen,
    ensures
        swept(b, order, picks)[r][c] == Cell::Frozen,
    decreases order.len(),
{
    if order.len() > 0 {
        let before = swept(b, order.drop_last(), picks.drop_last());
        law_frozen_stays_through_pass(b, order.drop_last(), picks.drop_last(), r, c);
        lemma_swept_shape(b, order.drop_last(), picks.drop_last());
        assert(inside(b, order[order.len() - 1].0, order[order.len() - 1].1));
        law_frozen_stays(before, order.last().0, order.last().1, picks.last(), r, c);
    }
}

/// A flying cell with a frozen neighbour becomes frozen when it is visited,
/// and nothing else on the board changes: the particle does not move.
pub proof fn law_freeze_on_contact(b: Seq<Seq<Cell>>, y: int, x: int, pick: int)
    requires
        well_shaped(b),
        inside(b, y, x),
        b[y][x] == Cell::Flying,
        touches_frozen(b, y, x),
    ensures
        visited(b, y, x, pick) == put(b, y, x, Cell::Frozen),
        visited(b, y, x, pick)[y][x] == Cell::Frozen,
        forall|r: int, c: int|
            inside(b, r, c) && (r, c) != (y, x) ==> #[trigger] visited(b, y, x, pick)[r][c]
                == b[r][c],
{
}

/// A flying cell none of whose four neighbours is empty or frozen stays
/// flying where it is when it is visited, and the board does not change.
pub proof fn law_hemmed_in_stays(b: Seq<Seq<Cell>>, y: int, x: int, pick: int)
    requires
        well_shaped(b),
        inside(b, y, x),
        b[y][x] == Cell::Flying,
        cell_at(b, left_of(y, x)) == Cell::Flying,
        cell_at(b, right_of(cols_of(b), y, x)) == Cell::Flying,
        cell_at(b, up_of(y, x)) == Cell::Flying,
        cell_at(b, down_of(rows_of(b), y, x)) == Cell::Flying,
    ensures
        visited(b, y, x, pick) == b,
{
}

/// Replacing one cell of a row changes the number of its cells that hold
/// something by the difference between the new cell and the old.
pub proof fn lemma_row_load_update(row: Seq<Cell>, x: int, c: Cell)
    requires
        0 <= x < row.len(),
    ensures
        row_load(row.update(x, c)) + weight(row[x]) == row_load(row) + weight(c),
    decreases row.len(),
{
    if x == row.len() - 1 {
        assert(row.update(x, c).drop_last() =~= row.drop_last());
    } else {
        assert(row.update(x, c).drop_last() =~= row.drop_last().update(x, c));
        lemma_row_load_update(row.drop_last(), x, c);
    }
}

/// Replacing one row of a board changes the number of its cells that hold
/// something by the difference between the new row and the old.
pub proof fn lemma_load_update(b: Seq<Seq<Cell>>, y: int, row: Seq<Cell>)
    requires
        0 <= y < b.len(),
    ensures
        load(b.update(y, row)) + row_load(b[y]) == load(b) + row_load(row),
    decreases b.len(),
{
    if y == b.len() - 1 {
        assert(b.update(y, row).drop_last() =~= b.drop_last());
    } else {
        assert(b.update(y, row).drop_last() =~= b.drop_last().update(y, row));
        lemma_load_update(b.drop_last(), y, row);
    }
}

/// Writing one cell changes the number of cells that hold something by the
/// difference between the new cell and the old.
pub proof fn lemma_load_put(b: Seq<Seq<Cell>>, y: int, x: int, c: Cell)
    requires
        well_shaped(b),
        inside(b, y, x),
    ensures
        load(put(b, y, x, c)) + weight(b[y][x]) == load(b) + weight(c),
{
    lemma_row_load_update(b[y], x, c);
    lemma_load_update(b, y, b[y].update(x, c));
}

/// Applying the rule at one coordinate keeps the number of cells that hold
/// something: a freeze turns a flying cell into a frozen one, and a move
/// empties one cell and fills another that was empty.
pub proof fn law_load_kept(b: Seq<Seq<Cell>>, y: int, x: int, pick: int)
    requires
        well_shaped(b),
        inside(b, y, x),
    ensures
        load(visited(b, y, x, pick)) == load(b),
{
    lemma_open_neighbors(b, y, x);
    if b[y][x] != Cell::Flying {
    } else if touches_frozen(b, y, x) {
        lemma_load_put(b, y, x, Cell::Frozen);
    } else if 0 <= pick < open_neighbors(b, y, x).len() {
        let t = open_neighbors(b, y, x)[pick];
        let lifted = put(b, y, x, Cell::Empty);
        lemma_load_put(b, y, x, Cell::Empty);
        lemma_put_shape(b, y, x, Cell::Empty);
        assert(cell_at(b, t) == Cell::Empty);
        assert(lifted[t.0][t.1] == Cell::Empty);
        lemma_load_put(lifted, t.0, t.1, Cell::Flying);
        assert(visited(b, y, x, pick) == moved(b, y, x, t));
    }
}

/// A whole pass over the board keeps the number of cells that hold something.
pub proof fn law_load_kept_through_pass(
    b: Seq<Seq<Cell>>,
    order: Seq<(int, int)>,
    picks: Seq<int>,
)
    requires
        well_shaped(b),
        all_inside(b, order),
    ensures
        load(swept(b, order, picks)) == load(b),
    decreases order.len(),
{
    if order.len() > 0 {
        let before = swept(b, order.drop_last(), picks.drop_last());
        law_load_kept_through_pass(b, order.drop_last(), picks.drop_last());
        lemma_swept_shape(b, order.drop_last(), picks.drop_last());
        assert(inside(b, order[order.len() - 1].0, order[order.len() - 1].1));
        law_load_kept(before, order.last().0, order.last().1, picks.last());
    }
}

/// A pass that visits no coordinate holding a flying cell sees none and
/// leaves the board as it was.
pub proof fn law_quiet_pass(b: Seq<Seq<Cell>>, order: Seq<(int, int)>, picks: Seq<int>)
    requires
        forall|k: int| 0 <= k < order.len() ==> cell_at(b, #[trigger] order[k]) != Cell::Flying,
    ensures
        swept(b, order, picks) == b,
        sightings(b, order, picks) == 0,
    decreases order.len(),
{
    if order.len() > 0 {
        law_quiet_pass(b, order.drop_last(), picks.drop_last());
        assert(cell_at(b, order[order.len() - 1]) != Cell::Flying);
    }
}

/// A pass sees no flying cell exactly when none of the coordinates it visits
/// held one at the start.
pub proof fn law_sightings_zero(b: Seq<Seq<Cell>>, order: Seq<(int, int)>, picks: Seq<int>)
    ensures
        sightings(b, order, picks) == 0 <==> forall|k: int|
            0 <= k < order.len() ==> cell_at(b, #[trigger] order[k]) != Cell::Flying,
    decreases order.len(),
{
    if order.len() > 0 {
        let shorter = order.drop_last();
        law_sightings_zero(b, shorter, picks.drop_last());
        if forall|k: int| 0 <= k < shorter.len() ==> cell_at(b, #[trigger] shorter[k])
            != Cell::Flying {
            law_quiet_pass(b, shorter, picks.drop_last());
            if cell_at(b, order.last()) != Cell::Flying {
                assert forall|k: int| 0 <= k < order.len() implies cell_at(b, #[trigger] order[k])
                    != Cell::Flying by {
                    if k < shorter.len() {
                        assert(order[k] == shorter[k]);
                    }
                }
            } else {
                assert(cell_at(b, order[order.len() - 1]) == Cell::Flying);
            }
        } else {
            let k = choose|k: int|
                0 <= k < shorter.len() && cell_at(b, #[trigger] shorter[k]) == Cell::Flying;
            assert(order[k] == shorter[k]);
        }
    }
}

/// The coordinate `(y, x)` of an `h` by `w` board stands at position
/// `y * w + x` of the row-by-row order.
pub proof fn lemma_row_major_at(h: int, w: int, y: int, x: int)
    requires
        0 <= y < h,
        0 <= x < w,
    ensures
        0 <= y * w + x < h * w,
        row_major(h, w).len() == h * w,
        row_major(h, w)[y * w + x] == (y, x),
{
    assert(0 <= y * w + x < h * w) by (nonlinear_arith)
        requires
            0 <= y < h,
            0 <= x < w,
    ;
    lemma_fundamental_div_mod_converse(y * w + x, w, y, x);
}

/// Entry `k` of the row-by-row order of an `h` by `w` board is a coordinate
/// of that board.
pub proof fn lemma_row_major_entry(h: int, w: int, k: int)
    requires
        0 < w,
        0 <= k < h * w,
    ensures
        0 <= row_major(h, w)[k].0 < h,
        0 <= row_major(h, w)[k].1 < w,
{
    lemma_fundamental_div_mod(k, w);
    lemma_mod_pos_bound(k, w);
    let q = k / w;
    let m = k % w;
    assert(0 <= q < h) by (nonlinear_arith)
        requires
            0 <= k < h * w,
            0 < w,
            k == w * q + m,
            0 <= m < w,
    ;
}

/// A row-by-row pass over the whole board sees no flying cell exactly when
/// the board held none at the start, and then it changes nothing.
pub proof fn law_pass_ends_when_settled(b: Seq<Seq<Cell>>, picks: Seq<int>)
    requires
        well_shaped(b),
    ensures
        sightings(b, traversal(b), picks) == 0 <==> settled(b),
        settled(b) ==> swept(b, traversal(b), picks) == b,
{
    let h = rows_of(b);
    let w = cols_of(b);
    let order = row_major(h, w);
    lemma_row_major_at(h, w, 0, 0);
    law_sightings_zero(b, order, picks);
    if settled(b) {
        assert forall|k: int| 0 <= k < order.len() implies cell_at(b, #[trigger] order[k])
            != Cell::Flying by {
            lemma_row_major_entry(h, w, k);
            let p = order[k];
            assert(inside(b, p.0, p.1));
            assert(b[p.0][p.1] != Cell::Flying);
        }
        law_quiet_pass(b, order, picks);
    }
    if forall|k: int| 0 <= k < order.len() ==> cell_at(b, #[trigger] order[k]) != Cell::Flying {
        assert forall|y: int, x: int| inside(b, y, x) implies (#[trigger] b[y][x])
            != Cell::Flying by {
            lemma_row_major_at(h, w, y, x);
            assert(cell_at(b, order[y * w + x]) != Cell::Flying);
        }
    }
}

} // verus!
