//! The simulation driver: it owns the grid, runs one pass at a time and
//! decides when the simulation is over.

use vstd::prelude::*;
use vstd::arithmetic::div_mod::lemma_fundamental_div_mod_converse;
use rand::rngs::ThreadRng;
use crate::board::{
    all_inside, cols_of, inside, load, picks_fit, point, points, row_major, rows_of, seeded,
    settled, sightings, sprinkled, swept, traversal, well_shaped,
};
use crate::cell::Cell;
use crate::grid::Grid;
use crate::laws::{law_pass_ends_when_settled, lemma_row_major_entry};

verus! {

/// The two states of the driver.
#[derive(Clone, Copy, Debug, PartialEq, Eq, Structural)]
pub enum Phase {
    /// Passes are still being run.
    Running,
    /// The last pass saw no flying cell; no further pass is run.
    Terminated,
}

/// How long one frame lasts, in microseconds, at `frame_rate` frames a second.
pub fn frame_rate_to_frame_time(frame_rate: u64) -> (micros: u64)
    requires
        frame_rate > 0,
    ensures
        micros == 1_000_000int / (frame_rate as int),
{
    let micros_per_sec: u64 = 1_000_000;
    micros_per_sec / frame_rate
}

/// Upper bound on the bytes that one `(row, column)` pair takes in memory.
pub const INDEX_BYTES: usize = 16;

/// All coordinates of a `height` by `width` array as `(row, column)`, row by
/// row from the top and within a row from the left. The list must fit in
/// memory: a vector cannot be longer than `isize::MAX` bytes.
pub fn indices_of_2d_array(height: usize, width: usize) -> (indices: Vec<(usize, usize)>)
    requires
        height * width * INDEX_BYTES <= isize::MAX,
    ensures
        points(indices@) == row_major(height as int, width as int),
{
    assert(width * height == height * width) by (nonlinear_arith);
    let mut indices: Vec<(usize, usize)> = Vec::with_capacity(width * height);
    let mut y: usize = 0;
    while y < height
        invariant
            y <= height,
            indices@.len() == y * width,
            forall|k: int|
                0 <= k < indices@.len() ==> point(#[trigger] indices@[k]) == (
                    k / width as int,
                    k % width as int,
                ),
        decreases height - y,
    {
        let mut x: usize = 0;
        while x < width
            invariant
                y < height,
                x <= width,
                indices@.len() == y * width + x,
                forall|k: int|
                    0 <= k < indices@.len() ==> point(#[trigger] indices@[k]) == (
                        k / width as int,
                        k % width as int,
                    ),
            decreases width - x,
        {
            proof {
                lemma_fundamental_div_mod_converse(
                    y * width + x,
                    width as int,
                    y as int,
                    x as int,
                );
            }
            indices.push((y, x));
            x = x + 1;
        }
        assert((y + 1) * width == y * width + width) by (nonlinear_arith);
        y = y + 1;
    }
    proof {
        let h = height as int;
        let w = width as int;
        assert(indices@.len() == h * w);
        assert(points(indices@) =~= row_major(h, w));
    }
    indices
}

/// What can be observed of a simulation: its board and its phase.
pub struct SimulationView {
    pub board: Seq<Seq<Cell>>,
    pub phase: Phase,
}

/// A simulation: the grid, the order in which its cells are visited, and
/// whether it is still running.
pub struct Simulation {
    grid: Grid,
    order: Vec<(usize, usize)>,
    phase: Phase,
}

impl View for Simulation {
    type V = SimulationView;

    closed spec fn view(&self) -> SimulationView {
        SimulationView { board: self.grid@, phase: self.phase }
    }
}

impl Simulation {
    /// The grid is well formed and the cells are visited row by row.
    pub closed spec fn consistent(&self) -> bool {
        &&& self.grid.wf()
        &&& points(self.order@) == traversal(self.grid@)
    }

    /// A simulation is well formed when its board is well shaped and its
    /// parts agree with one another.
    pub open spec fn wf(&self) -> bool {
        &&& well_shaped(self@.board)
        &&& self.consistent()
    }

    /// A simulation on a fresh grid of `height` rows and `width` columns: the
    /// frozen seed is put at the centre, then `flying_cells` cells are made
    /// flying at coordinates drawn from `rng`.
    pub fn new(height: usize, width: usize, flying_cells: usize, rng: &mut ThreadRng) -> (sim:
        Simulation)
        requires
            0 < height,
            0 < width,
            height * width * INDEX_BYTES <= isize::MAX,
        ensures
            sim.wf(),
            rows_of(sim@.board) == height,
            cols_of(sim@.board) == width,
            exists|spots: Seq<(int, int)>|
                {
                    &&& spots.len() == flying_cells
                    &&& all_inside(seeded(height as int, width as int), spots)
                    &&& sim@.board == #[trigger] sprinkled(
                        seeded(height as int, width as int),
                        spots,
                    )
                },
            sim@.phase == if flying_cells == 0 {
                Phase::Terminated
            } else {
                Phase::Running
            },
            sim@.phase == Phase::Terminated <==> settled(sim@.board),
    {
        assert(height * width <= height * width * INDEX_BYTES) by (nonlinear_arith)
            requires
                0 <= height * width,
        ;
        let mut grid = Grid::new(height, width);
        grid.scatter(flying_cells, rng);
        Simulation::start(grid, flying_cells)
    }

    /// A simulation of `grid` that was set up with `flying_cells` particles.
    /// It runs if there is at least one particle and is over at once if
    /// there is none.
    pub fn start(grid: Grid, flying_cells: usize) -> (sim: Simulation)
        requires
            grid.wf(),
            rows_of(grid@) * cols_of(grid@) * INDEX_BYTES <= isize::MAX,
        ensures
            sim.wf(),
            sim@.board == grid@,
            sim@.phase == if flying_cells == 0 {
                Phase::Terminated
            } else {
                Phase::Running
            },
    {
        let order = indices_of_2d_array(grid.height(), grid.width());
        let phase = if flying_cells == 0 {
            Phase::Terminated
        } else {
            Phase::Running
        };
        Simulation { grid, order, phase }
    }

    /// The grid as it stands.
    pub fn grid(&self) -> (g: &Grid)
        requires
            self.wf(),
        ensures
            g.wf(),
            g@ == self@.board,
    {
        &self.grid
    }

    /// The phase the simulation is in.
    pub fn phase(&self) -> (p: Phase)
        ensures
            p == self@.phase,
    {
        self.phase
    }

    /// Whether another pass is to be run.
    pub fn is_running(&self) -> (b: bool)
        ensures
            b == (self@.phase == Phase::Running),
    {
        match self.phase {
            Phase::Running => true,
            Phase::Terminated => false,
        }
    }

    /// Runs one pass over the grid, row by row, and returns how many flying
    /// cells it saw. The simulation is over once a pass has seen none, which
    /// is the case exactly when the grid held no flying cell before the pass;
    /// such a pass changes nothing. A simulation that is over does nothing
    /// and sees nothing.
    pub fn advance(&mut self, rng: &mut ThreadRng) -> (seen: usize)
        requires
            old(self).wf(),
        ensures
            final(self).wf(),
            old(self)@.phase == Phase::Terminated ==> final(self)@ == old(self)@ && seen == 0,
            old(self)@.phase == Phase::Running ==> {
                &&& exists|picks: Seq<int>|
                    {
                        &&& picks_fit(old(self)@.board, traversal(old(self)@.board), picks)
                        &&& final(self)@.board == #[trigger] swept(
                            old(self)@.board,
                            traversal(old(self)@.board),
                            picks,
                        )
                        &&& seen == sightings(old(self)@.board, traversal(old(self)@.board), picks)
                    }
                &&& seen == 0 <==> settled(old(self)@.board)
                &&& seen == 0 ==> final(self)@.board == old(self)@.board
                &&& final(self)@.phase == if seen == 0 {
                    Phase::Terminated
                } else {
                    Phase::Running
                }
            },
            rows_of(final(self)@.board) == rows_of(old(self)@.board),
            cols_of(final(self)@.board) == cols_of(old(self)@.board),
            forall|r: int, c: int|
                inside(old(self)@.board, r, c) && old(self)@.board[r][c] == Cell::Frozen ==> (
                #[trigger] final(self)@.board[r][c]) == Cell::Frozen,
            load(final(self)@.board) == load(old(self)@.board),
    {
        if !self.is_running() {
            return 0;
        }
        let ghost before = self.grid@;
        let ghost order = traversal(before);
        proof {
            assert forall|k: int| 0 <= k < order.len() implies inside(
                before,
                (#[trigger] order[k]).0,
                order[k].1,
            ) by {
                lemma_row_major_entry(rows_of(before), cols_of(before), k);
            }
        }
        let seen = self.grid.sweep(&self.order, rng);
        proof {
            let picks = choose|picks: Seq<int>|
                {
                    &&& picks_fit(before, order, picks)
                    &&& self.grid@ == #[trigger] swept(before, order, picks)
                    &&& seen == sightings(before, order, picks)
                };
            law_pass_ends_when_settled(before, picks);
        }
        if seen == 0 {
            self.phase = Phase::Terminated;
        }
        seen
    }
}

} // verus!
