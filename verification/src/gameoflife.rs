//! The simulation rule engine and the session lifecycle state machine.
//!
//! A grid is a row-major sequence of cells of fixed `width x height`; its
//! edges wrap, so every cell has exactly eight neighbors. One generation
//! kills live cells with fewer than two or more than three live neighbors
//! and revives dead cells with exactly three.

use vstd::prelude::*;

verus! {

/// Toroidal wrap of one coordinate into `[0, range)`, for coordinates that
/// are off by at most one full range (the neighbor offsets only ever move a
/// coordinate by one).
pub open spec fn wrap_spec(coord: int, range: int) -> int {
    if coord < 0 {
        coord + range
    } else if coord >= range {
        coord - range
    } else {
        coord
    }
}

/// Toroidal wrap never leaves the grid: the wrapped coordinate is in range
/// for every range of at least one and every coordinate off by at most one
/// full range.
pub proof fn lemma_wrap_in_range(coord: int, range: int)
    requires
        1 <= range,
        -range <= coord < 2 * range,
    ensures
        0 <= wrap_spec(coord, range) < range,
{
}

fn wrap(coord: isize, range: isize) -> (r: usize)
    requires
        1 <= range,
        -range <= coord < 2 * range,
    ensures
        r == wrap_spec(coord as int, range as int),
{
    let result = if coord < 0 {
        coord + range
    } else if coord >= range {
        coord - range
    } else {
        coord
    };
    result as usize
}

#[derive(Debug, Clone, Copy, PartialEq, Eq, Structural)]
pub enum State {
    Starting,
    Running,
    Pausing,
    Ended,
}

impl Default for State {
    fn default() -> (r: State)
        ensures
            r == State::Starting,
    {
        State::Starting
    }
}

/// The table of legal lifecycle transitions. Self-transitions are legal
/// no-ops; `Ended` is absorbing; no state but `Starting` may go (back) to
/// `Starting`.
pub open spec fn transition_allowed(from: State, to: State) -> bool {
    match (from, to) {
        (State::Starting, _) => true,
        (State::Running, State::Starting) => false,
        (State::Running, _) => true,
        (State::Pausing, State::Starting) => false,
        (State::Pausing, _) => true,
        (State::Ended, State::Ended) => true,
        (State::Ended, _) => false,
    }
}

#[derive(Debug, Clone, Copy, PartialEq, Eq, Structural)]
pub enum Error {
    Unknown,
    GameOver,
    StateTransition { from: State, to: State },
    IndexOutOfRange,
    SessionClosed,
}

impl Error {
    /// An error is recoverable when the session can keep serving commands
    /// after it: a refused transition or a bad cell index leaves the session
    /// intact, while `GameOver` and `Unknown` end it. A closed queue is
    /// recoverable at the caller even though the session itself is gone.
    pub fn may_recover(&self) -> (r: bool)
        ensures
            r == match self {
                Error::Unknown => false,
                Error::GameOver => false,
                Error::StateTransition { .. } => true,
                Error::IndexOutOfRange => true,
                Error::SessionClosed => true,
            },
    {
        match self {
            Error::Unknown => false,
            Error::GameOver => false,
            Error::StateTransition { .. } => true,
            Error::IndexOutOfRange => true,
            Error::SessionClosed => true,
        }
    }

    /// No error is worth retrying with the same inputs: the same transition
    /// or the same index would fail again, and a closed queue stays closed.
    pub fn may_retry(&self) -> (r: bool)
        ensures
            r == false,
    {
        match self {
            Error::Unknown => false,
            Error::GameOver => false,
            Error::StateTransition { from: _, to: _ } => false,
            Error::IndexOutOfRange => false,
            Error::SessionClosed => false,
        }
    }
}

impl State {
    /// Moves to `next` exactly when the transition table allows it, and
    /// reports the refused pair otherwise, leaving the state unchanged.
    pub fn try_transition(&mut self, next: State) -> (r: Result<(), Error>)
        ensures
            transition_allowed(*old(self), next) ==> r == Ok::<(), Error>(()) && *final(self)
                == next,
            !transition_allowed(*old(self), next) ==> r == Err::<(), Error>(
                Error::StateTransition { from: *old(self), to: next },
            ) && *final(self) == *old(self),
    {
        match (*self, next) {
            (State::Starting, State::Starting)
            | (State::Starting, State::Running)
            | (State::Starting, State::Pausing)
            | (State::Starting, State::Ended)
            | (State::Running, State::Running)
            | (State::Running, State::Ended)
            | (State::Running, State::Pausing)
            | (State::Pausing, State::Running)
            | (State::Pausing, State::Ended)
            | (State::Pausing, State::Pausing)
            | (State::Ended, State::Ended) => {
                *self = next;
            },
            (State::Running, State::Starting)
            | (State::Pausing, State::Starting)
            | (State::Ended, State::Starting)
            | (State::Ended, State::Running)
            | (State::Ended, State::Pausing) => {
                return Err(Error::StateTransition { from: *self, to: next });
            },
        }
        Ok(())
    }

    pub fn paused(&self) -> (r: bool)
        ensures
            r == (*self == State::Pausing),
    {
        if let State::Pausing = self {
            true
        } else {
            false
        }
    }

    pub fn start(&self) -> (r: bool)
        ensures
            r == (*self == State::Starting),
    {
        if let State::Starting = self {
            true
        } else {
            false
        }
    }

    pub fn run(&self) -> (r: bool)
        ensures
            r == (*self == State::Running),
    {
        if let State::Running = self {
            true
        } else {
            false
        }
    }

    pub fn ended(&self) -> (r: bool)
        ensures
            r == (*self == State::Ended),
    {
        if let State::Ended = self {
            true
        } else {
            false
        }
    }
}

#[derive(Debug, Clone, Copy, PartialEq, Eq, Structural)]
pub enum Message {
    Random,
    Start,
    Step,
    Reset,
    Stop,
    ToggleCellule(usize),
    Tick,
    End,
}

#[derive(Debug, Clone, Copy, PartialEq, Eq, Structural)]
pub enum LifeState {
    Alive,
    Dead,
}

#[derive(Copy, Clone, Debug, PartialEq, Eq, Structural)]
pub struct Cellule {
    life_state: LifeState,
}

/// How many of the given cells are alive.
pub open spec fn count_alive(s: Seq<Cellule>) -> int
    decreases s.len(),
{
    if s.len() == 0 {
        0
    } else {
        count_alive(s.drop_last()) + if s.last().is_alive() {
            1int
        } else {
            0int
        }
    }
}

impl Cellule {
    pub closed spec fn is_alive(self) -> bool {
        self.life_state == LifeState::Alive
    }

    pub fn set_alive(&mut self)
        ensures
            final(self).is_alive(),
    {
        self.life_state = LifeState::Alive;
    }

    pub fn set_dead(&mut self)
        ensures
            !final(self).is_alive(),
    {
        self.life_state = LifeState::Dead;
    }

    /// A cell with the given life status.
    pub(crate) fn with_alive(alive: bool) -> (r: Cellule)
        ensures
            r.is_alive() == alive,
    {
        if alive {
            Cellule { life_state: LifeState::Alive }
        } else {
            Cellule { life_state: LifeState::Dead }
        }
    }

    pub fn alive(self) -> (r: bool)
        ensures
            r == self.is_alive(),
    {
        self.life_state == LifeState::Alive
    }

    pub fn count_alive_neighbors(neighbors: &[Cellule]) -> (r: usize)
        ensures
            r == count_alive(neighbors@),
    {
        let n = neighbors.len();
        let mut count: usize = 0;
        let mut i: usize = 0;
        while i < n
            invariant
                0 <= i <= n,
                n == neighbors@.len(),
                count == count_alive(neighbors@.take(i as int)),
                count <= i,
            decreases n - i,
        {
            proof {
                assert(neighbors@.take(i + 1).drop_last() =~= neighbors@.take(i as int));
                assert(neighbors@.take(i + 1).last() == neighbors@[i as int]);
            }
            if neighbors[i].alive() {
                count = count + 1;
            }
            i = i + 1;
        }
        proof {
            assert(neighbors@.take(n as int) =~= neighbors@);
        }
        count
    }

    /// Fewer than two live neighbors: a live cell here dies of isolation.
    pub fn alone(neighbors: &[Cellule]) -> (r: bool)
        ensures
            r == (count_alive(neighbors@) < 2),
    {
        Self::count_alive_neighbors(neighbors) < 2
    }

    /// More than three live neighbors: a live cell here dies of crowding.
    pub fn overpopulated(neighbors: &[Cellule]) -> (r: bool)
        ensures
            r == (count_alive(neighbors@) > 3),
    {
        Self::count_alive_neighbors(neighbors) > 3
    }

    /// Exactly three live neighbors: a dead cell here comes alive.
    pub fn can_be_revived(neighbors: &[Cellule]) -> (r: bool)
        ensures
            r == (count_alive(neighbors@) == 3),
    {
        Self::count_alive_neighbors(neighbors) == 3
    }
}

/// Flat index of the cell at `(row, col)` in a row-major grid of width `w`.
pub open spec fn grid_idx(w: int, row: int, col: int) -> int {
    row * w + col
}

/// Flat index of the neighbor one step `(dr, dc)` away from `(row, col)`,
/// with both coordinates wrapped toroidally.
pub open spec fn neighbor_idx(w: int, h: int, row: int, col: int, dr: int, dc: int) -> int {
    grid_idx(w, wrap_spec(row + dr, h), wrap_spec(col + dc, w))
}

/// A neighbor lookup never leaves the grid: for every grid of width and
/// height at least one, every in-range cell and every unit offset, the
/// wrapped index is in range.
pub proof fn lemma_neighbor_idx_in_range(w: int, h: int, row: int, col: int, dr: int, dc: int)
    requires
        1 <= w,
        1 <= h,
        0 <= row < h,
        0 <= col < w,
        -1 <= dr <= 1,
        -1 <= dc <= 1,
    ensures
        0 <= neighbor_idx(w, h, row, col, dr, dc) < w * h,
{
    lemma_wrap_in_range(row + dr, h);
    lemma_wrap_in_range(col + dc, w);
    let r2 = wrap_spec(row + dr, h);
    let c2 = wrap_spec(col + dc, w);
    assert(0 <= r2 * w + c2 < w * h) by (nonlinear_arith)
        requires
            0 <= r2 < h,
            0 <= c2 < w,
            1 <= w,
    ;
}

/// The eight neighbors of `(row, col)`, in the order the engine reads them.
pub open spec fn neighbor_states(cells: Seq<Cellule>, w: int, h: int, row: int, col: int) -> Seq<
    Cellule,
> {
    seq![
        cells[neighbor_idx(w, h, row, col, 1, 0)],
        cells[neighbor_idx(w, h, row, col, 1, 1)],
        cells[neighbor_idx(w, h, row, col, 1, -1)],
        cells[neighbor_idx(w, h, row, col, -1, 0)],
        cells[neighbor_idx(w, h, row, col, -1, 1)],
        cells[neighbor_idx(w, h, row, col, -1, -1)],
        cells[neighbor_idx(w, h, row, col, 0, -1)],
        cells[neighbor_idx(w, h, row, col, 0, 1)],
    ]
}

/// How many of the eight toroidal neighbors of `(row, col)` are alive.
pub open spec fn live_neighbor_count(cells: Seq<Cellule>, w: int, h: int, row: int, col: int) -> int {
    count_alive(neighbor_states(cells, w, h, row, col))
}

/// Whether the cell at flat index `i` is alive after one generation: a live
/// cell survives with two or three live neighbors, a dead cell is born with
/// exactly three, and everything else is dead.
pub open spec fn cell_next(cells: Seq<Cellule>, w: int, h: int, i: int) -> bool {
    let n = live_neighbor_count(cells, w, h, i / w, i % w);
    if cells[i].is_alive() {
        2 <= n <= 3
    } else {
        n == 3
    }
}

/// Relies on rand::random::<bool>: a fresh draw from the thread-local
/// generator, alive or dead with equal probability. Nothing is promised of
/// the value.
#[verifier::external_body]
fn coin_flip() -> bool {
    rand::random::<bool>()
}

/// The tick counter after one more generation: it grows by one until it
/// saturates at the largest representable count.
pub open spec fn next_tick_count(t: int) -> int {
    if t < usize::MAX {
        t + 1
    } else {
        t
    }
}

/// The cell at `i` is alive now but dead in the next generation.
spec fn should_die(cells: Seq<Cellule>, w: int, h: int, i: int) -> bool {
    cells[i].is_alive() && !cell_next(cells, w, h, i)
}

/// The cell at `i` is dead now but alive in the next generation.
spec fn should_rise(cells: Seq<Cellule>, w: int, h: int, i: int) -> bool {
    !cells[i].is_alive() && cell_next(cells, w, h, i)
}

/// `lst` holds exactly the indices below `upto` whose cells die this
/// generation.
spec fn die_list_ok(cells: Seq<Cellule>, w: int, h: int, upto: int, lst: Seq<usize>) -> bool {
    &&& forall|k: int|
        #![trigger lst[k]]
        0 <= k < lst.len() ==> ((lst[k] as int) < upto && should_die(cells, w, h, lst[k] as int))
    &&& forall|j: int|
        0 <= j < upto && #[trigger] should_die(cells, w, h, j) ==> lst.contains(j as usize)
}

/// `lst` holds exactly the indices below `upto` whose cells come alive this
/// generation.
spec fn rise_list_ok(cells: Seq<Cellule>, w: int, h: int, upto: int, lst: Seq<usize>) -> bool {
    &&& forall|k: int|
        #![trigger lst[k]]
        0 <= k < lst.len() ==> ((lst[k] as int) < upto && should_rise(cells, w, h, lst[k] as int))
    &&& forall|j: int|
        0 <= j < upto && #[trigger] should_rise(cells, w, h, j) ==> lst.contains(j as usize)
}

proof fn lemma_contains_push<A>(s: Seq<A>, x: A, y: A)
    ensures
        s.push(x).contains(y) <==> (s.contains(y) || y == x),
{
    if s.push(x).contains(y) {
        let i = choose|i: int| 0 <= i < s.push(x).len() && s.push(x)[i] == y;
        if i < s.len() {
            assert(s[i] == y);
        }
    }
    if s.contains(y) {
        let i = choose|i: int| 0 <= i < s.len() && s[i] == y;
        assert(s.push(x)[i] == y);
    }
    if y == x {
        assert(s.push(x)[s.len() as int] == y);
    }
}

proof fn lemma_subrange_step<A>(s: Seq<A>, k: int)
    requires
        0 <= k < s.len(),
    ensures
        s.subrange(0, k + 1) =~= s.subrange(0, k).push(s[k]),
{
}

/// Two cells with the same life status are the same cell.
pub(crate) proof fn lemma_cell_eq(a: Cellule, b: Cellule)
    requires
        a.is_alive() == b.is_alive(),
    ensures
        a == b,
{
}

/// Every cell is dead.
pub open spec fn all_dead(cells: Seq<Cellule>) -> bool {
    forall|i: int| 0 <= i < cells.len() ==> !(#[trigger] cells[i]).is_alive()
}

/// `post` is `pre` advanced by exactly one generation: the tick counter
/// grew by one (saturating) and every cell follows the birth/death rule
/// evaluated on `pre`'s grid.
pub open spec fn stepped(pre: Simulation, post: Simulation) -> bool {
    &&& post.spec_ticks() == next_tick_count(pre.spec_ticks())
    &&& post.grid().len() == pre.grid().len()
    &&& forall|i: int|
        0 <= i < pre.grid().len() ==> (#[trigger] post.grid()[i]).is_alive() == cell_next(
            pre.grid(),
            pre.spec_width(),
            pre.spec_height(),
            i,
        )
}

/// `post` is `pre` with exactly the cell at `idx` flipped.
pub open spec fn toggled(pre: Seq<Cellule>, post: Seq<Cellule>, idx: int) -> bool {
    &&& post.len() == pre.len()
    &&& post[idx].is_alive() == !pre[idx].is_alive()
    &&& forall|j: int| 0 <= j < pre.len() && j != idx ==> post[j] == pre[j]
}

/// What one `update` call does: the exact relation between the simulation
/// before (`pre`) and after (`post`), the command, and the result. Once the
/// state is `Ended`, every command fails with `GameOver` and nothing
/// changes.
pub open spec fn update_outcome(
    pre: Simulation,
    post: Simulation,
    msg: Message,
    r: Result<(), Error>,
) -> bool {
    &&& post.spec_width() == pre.spec_width()
    &&& post.spec_height() == pre.spec_height()
    &&& if pre.spec_state() == State::Ended {
        r == Err::<(), Error>(Error::GameOver) && post == pre
    } else {
        match msg {
            Message::Random => r == Ok::<(), Error>(()) && post.spec_state() == pre.spec_state()
                && post.spec_ticks() == pre.spec_ticks() && post.grid().len() == pre.grid().len(),
            Message::Start => r == Ok::<(), Error>(()) && post.spec_state() == State::Running
                && post.grid() == pre.grid() && post.spec_ticks() == pre.spec_ticks(),
            Message::Step => r == Ok::<(), Error>(()) && post.spec_state() == pre.spec_state()
                && stepped(pre, post),
            Message::Reset => r == Ok::<(), Error>(()) && post.spec_state() == pre.spec_state()
                && post.spec_ticks() == pre.spec_ticks() && all_dead(post.grid())
                && post.grid().len() == pre.grid().len(),
            Message::Stop => r == Ok::<(), Error>(()) && post.spec_state() == State::Pausing
                && post.grid() == pre.grid() && post.spec_ticks() == pre.spec_ticks(),
            Message::ToggleCellule(idx) => if (idx as int) < pre.grid().len() {
                r == Ok::<(), Error>(()) && post.spec_state() == pre.spec_state()
                    && post.spec_ticks() == pre.spec_ticks() && toggled(
                    pre.grid(),
                    post.grid(),
                    idx as int,
                )
            } else {
                r == Err::<(), Error>(Error::IndexOutOfRange) && post == pre
            },
            Message::Tick => if pre.spec_state() == State::Running {
                r == Ok::<(), Error>(()) && post.spec_state() == pre.spec_state() && stepped(
                    pre,
                    post,
                )
            } else {
                r == Ok::<(), Error>(()) && post == pre
            },
            Message::End => r == Ok::<(), Error>(()) && post.spec_state() == State::Ended
                && post.grid() == pre.grid() && post.spec_ticks() == pre.spec_ticks(),
        }
    }
}

#[derive(Debug, PartialEq)]
pub struct Simulation {
    state: State,
    ticks: usize,
    cellules: Vec<Cellule>,
    cellules_width: usize,
    cellules_height: usize,
}

impl Simulation {
    pub closed spec fn spec_state(self) -> State {
        self.state
    }

    pub closed spec fn spec_ticks(self) -> int {
        self.ticks as int
    }

    pub closed spec fn grid(self) -> Seq<Cellule> {
        self.cellules@
    }

    pub closed spec fn spec_width(self) -> int {
        self.cellules_width as int
    }

    pub closed spec fn spec_height(self) -> int {
        self.cellules_height as int
    }

    /// The grid always holds exactly `width * height` cells, with both
    /// dimensions at least one (and small enough for signed coordinate
    /// arithmetic).
    pub open spec fn wf(self) -> bool {
        &&& self.grid().len() == self.spec_width() * self.spec_height()
        &&& 1 <= self.spec_width() <= 0x7fff
        &&& 1 <= self.spec_height() <= 0x7fff
        &&& 0 <= self.spec_ticks() <= usize::MAX
    }

    /// A fresh simulation: `Starting`, zero ticks, every cell dead, with the
    /// stock grid size of 53 x 40.
    pub fn new() -> (r: Self)
        ensures
            r.wf(),
            r.spec_state() == State::Starting,
            r.spec_ticks() == 0,
            r.spec_width() == 53,
            r.spec_height() == 40,
            all_dead(r.grid()),
    {
        let mut cellules: Vec<Cellule> = Vec::new();
        let mut i: usize = 0;
        while i < 53 * 40
            invariant
                0 <= i <= 53 * 40,
                cellules@.len() == i,
                forall|j: int| 0 <= j < i ==> !(#[trigger] cellules@[j]).is_alive(),
            decreases 53 * 40 - i,
        {
            cellules.push(Cellule { life_state: LifeState::Dead });
            i = i + 1;
        }
        Self { state: State::default(), ticks: 0, cellules, cellules_width: 53, cellules_height: 40 }
    }

    /// Reassembles a simulation from its parts, for a snapshot read back
    /// from its wire encoding.
    pub(crate) fn from_parts(
        state: State,
        ticks: usize,
        cellules: Vec<Cellule>,
        width: usize,
        height: usize,
    ) -> (r: Self)
        requires
            cellules@.len() == width * height,
            1 <= width <= 0x7fff,
            1 <= height <= 0x7fff,
        ensures
            r.wf(),
            r.spec_state() == state,
            r.spec_ticks() == ticks,
            r.grid() == cellules@,
            r.spec_width() == width,
            r.spec_height() == height,
    {
        Simulation { state, ticks, cellules, cellules_width: width, cellules_height: height }
    }

    pub fn state(&self) -> (r: State)
        ensures
            r == self.spec_state(),
    {
        self.state
    }

    pub fn ticks(&self) -> (r: usize)
        ensures
            r == self.spec_ticks(),
    {
        self.ticks
    }

    pub fn cellules(&self) -> (r: &[Cellule])
        ensures
            r@ == self.grid(),
    {
        self.cellules.as_slice()
    }

    pub fn height(&self) -> (r: usize)
        ensures
            r == self.spec_height(),
    {
        self.cellules_height
    }

    pub fn width(&self) -> (r: usize)
        ensures
            r == self.spec_width(),
    {
        self.cellules_width
    }

    /// Kills every cell; the state, tick counter and dimensions are untouched.
    fn reset(&mut self)
        requires
            old(self).wf(),
        ensures
            final(self).wf(),
            final(self).spec_state() == old(self).spec_state(),
            final(self).spec_ticks() == old(self).spec_ticks(),
            final(self).spec_width() == old(self).spec_width(),
            final(self).spec_height() == old(self).spec_height(),
            all_dead(final(self).grid()),
    {
        let n = self.cellules.len();
        let mut i: usize = 0;
        while i < n
            invariant
                0 <= i <= n,
                n == self.cellules@.len(),
                self.state == old(self).state,
                self.ticks == old(self).ticks,
                self.cellules_width == old(self).cellules_width,
                self.cellules_height == old(self).cellules_height,
                forall|j: int| 0 <= j < i ==> !(#[trigger] self.cellules@[j]).is_alive(),
            decreases n - i,
        {
            let mut c = self.cellules[i];
            c.set_dead();
            self.cellules.set(i, c);
            i = i + 1;
        }
    }

    /// Wraps `(row, col)` toroidally and returns the flat index of the cell
    /// there, always in range.
    fn row_col_as_idx(&self, row: isize, col: isize) -> (r: usize)
        requires
            self.wf(),
            -self.spec_height() <= row < 2 * self.spec_height(),
            -self.spec_width() <= col < 2 * self.spec_width(),
        ensures
            r == grid_idx(
                self.spec_width(),
                wrap_spec(row as int, self.spec_height()),
                wrap_spec(col as int, self.spec_width()),
            ),
            r < self.grid().len(),
    {
        let row = wrap(row, self.cellules_height as isize);
        let col = wrap(col, self.cellules_width as isize);
        proof {
            lemma_wrap_in_range(row as int, self.spec_height());
            lemma_wrap_in_range(col as int, self.spec_width());
            let r2 = row as int;
            let c2 = col as int;
            let w = self.spec_width();
            let h = self.spec_height();
            assert(0 <= r2 * w + c2 < w * h) by (nonlinear_arith)
                requires
                    0 <= r2 < h,
                    0 <= c2 < w,
                    1 <= w,
            ;
            assert(w * h <= 0x3fff0001) by (nonlinear_arith)
                requires
                    1 <= w <= 0x7fff,
                    1 <= h <= 0x7fff,
            ;
        }
        row * self.cellules_width + col
    }

    /// The eight toroidal neighbors of the cell at `(row, col)`, read in a
    /// fixed order.
    fn neighbors(&self, row: isize, col: isize) -> (r: [Cellule; 8])
        requires
            self.wf(),
            0 <= row < self.spec_height(),
            0 <= col < self.spec_width(),
        ensures
            r@ == neighbor_states(
                self.grid(),
                self.spec_width(),
                self.spec_height(),
                row as int,
                col as int,
            ),
    {
        let r = [
            self.cellules[self.row_col_as_idx(row + 1, col)],
            self.cellules[self.row_col_as_idx(row + 1, col + 1)],
            self.cellules[self.row_col_as_idx(row + 1, col - 1)],
            self.cellules[self.row_col_as_idx(row - 1, col)],
            self.cellules[self.row_col_as_idx(row - 1, col + 1)],
            self.cellules[self.row_col_as_idx(row - 1, col - 1)],
            self.cellules[self.row_col_as_idx(row, col - 1)],
            self.cellules[self.row_col_as_idx(row, col + 1)],
        ];
        proof {
            assert(r@ =~= neighbor_states(
                self.grid(),
                self.spec_width(),
                self.spec_height(),
                row as int,
                col as int,
            ));
        }
        r
    }

    /// Advances the grid by exactly one generation and bumps the tick
    /// counter. Every neighbor count is taken on the pre-step grid: the
    /// cells to kill and the cells to revive are staged in two lists first
    /// and applied afterwards, so no update can corrupt a later neighbor
    /// count in the same pass.
    fn step(&mut self)
        requires
            old(self).wf(),
        ensures
            final(self).wf(),
            final(self).spec_state() == old(self).spec_state(),
            final(self).spec_width() == old(self).spec_width(),
            final(self).spec_height() == old(self).spec_height(),
            stepped(*old(self), *final(self)),
    {
        if self.ticks < usize::MAX {
            self.ticks = self.ticks + 1;
        }
        let ghost g0 = self.cellules@;
        let ghost wi = self.spec_width();
        let ghost hi = self.spec_height();
        let w = self.cellules_width;
        let h = self.cellules_height;
        let mut to_dead: Vec<usize> = Vec::new();
        let mut to_live: Vec<usize> = Vec::new();
        let mut row: usize = 0;
        while row < h
            invariant
                0 <= row <= h,
                w == self.cellules_width,
                h == self.cellules_height,
                wi == w as int,
                hi == h as int,
                self.cellules_width == old(self).cellules_width,
                self.cellules_height == old(self).cellules_height,
                self.wf(),
                self.cellules@ == g0,
                g0.len() == wi * hi,
                self.state == old(self).state,
                self.spec_ticks() == next_tick_count(old(self).spec_ticks()),
                die_list_ok(g0, wi, hi, (row as int) * wi, to_dead@),
                rise_list_ok(g0, wi, hi, (row as int) * wi, to_live@),
            decreases h - row,
        {
            let mut col: usize = 0;
            while col < w
                invariant
                    0 <= col <= w,
                    0 <= row < h,
                    w == self.cellules_width,
                    h == self.cellules_height,
                    wi == w as int,
                    hi == h as int,
                    self.cellules_width == old(self).cellules_width,
                    self.cellules_height == old(self).cellules_height,
                    self.wf(),
                    self.cellules@ == g0,
                    g0.len() == wi * hi,
                    self.state == old(self).state,
                    self.spec_ticks() == next_tick_count(old(self).spec_ticks()),
                    die_list_ok(g0, wi, hi, (row as int) * wi + (col as int), to_dead@),
                    rise_list_ok(g0, wi, hi, (row as int) * wi + (col as int), to_live@),
                decreases w - col,
            {
                let neighbors = self.neighbors(row as isize, col as isize);
                let current_idx = self.row_col_as_idx(row as isize, col as isize);
                proof {
                    assert(current_idx as int == (row as int) * wi + (col as int));
                    vstd::arithmetic::div_mod::lemma_fundamental_div_mod_converse(
                        current_idx as int,
                        wi,
                        row as int,
                        col as int,
                    );
                }
                let ghost i0 = current_idx as int;
                let ghost td0 = to_dead@;
                let ghost tl0 = to_live@;
                if self.cellules[current_idx].alive() {
                    if Cellule::alone(neighbors.as_slice()) || Cellule::overpopulated(
                        neighbors.as_slice(),
                    ) {
                        to_dead.push(current_idx);
                    }
                } else if Cellule::can_be_revived(neighbors.as_slice()) {
                    to_live.push(current_idx);
                }
                proof {
                    assert(to_dead@ == td0 || (to_dead@ == td0.push(current_idx) && should_die(
                        g0,
                        wi,
                        hi,
                        i0,
                    )));
                    assert(should_die(g0, wi, hi, i0) ==> to_dead@ == td0.push(current_idx));
                    assert(to_live@ == tl0 || (to_live@ == tl0.push(current_idx) && should_rise(
                        g0,
                        wi,
                        hi,
                        i0,
                    )));
                    assert(should_rise(g0, wi, hi, i0) ==> to_live@ == tl0.push(current_idx));
                    assert forall|k3: int| 0 <= k3 < to_dead@.len() implies ((to_dead@[k3] as int)
                        < i0 + 1 && should_die(g0, wi, hi, to_dead@[k3] as int)) by {
                        if k3 < td0.len() {
                            assert((td0[k3] as int) < i0);
                        } else {
                            assert(to_dead@ == td0.push(current_idx));
                            assert(to_dead@[k3] == current_idx);
                        }
                    }
                    assert forall|k3: int| 0 <= k3 < to_live@.len() implies ((to_live@[k3] as int)
                        < i0 + 1 && should_rise(g0, wi, hi, to_live@[k3] as int)) by {
                        if k3 < tl0.len() {
                            assert((tl0[k3] as int) < i0);
                        } else {
                            assert(to_live@ == tl0.push(current_idx));
                            assert(to_live@[k3] == current_idx);
                        }
                    }
                    assert forall|j: int|
                        0 <= j < i0 + 1 && #[trigger] should_die(g0, wi, hi, j)
                            implies to_dead@.contains(j as usize) by {
                        if j == i0 {
                            lemma_contains_push(td0, current_idx, current_idx);
                        } else {
                            assert(td0.contains(j as usize));
                            if to_dead@ != td0 {
                                lemma_contains_push(td0, current_idx, j as usize);
                            }
                        }
                    }
                    assert forall|j: int|
                        0 <= j < i0 + 1 && #[trigger] should_rise(g0, wi, hi, j)
                            implies to_live@.contains(j as usize) by {
                        if j == i0 {
                            lemma_contains_push(tl0, current_idx, current_idx);
                        } else {
                            assert(tl0.contains(j as usize));
                            if to_live@ != tl0 {
                                lemma_contains_push(tl0, current_idx, j as usize);
                            }
                        }
                    }
                }
                col = col + 1;
            }
            proof {
                assert((row as int + 1) * wi == (row as int) * wi + wi) by (nonlinear_arith);
            }
            row = row + 1;
        }
        proof {
            assert((h as int) * wi == wi * hi) by (nonlinear_arith)
                requires
                    wi == w as int,
                    hi == h as int,
            ;
            assert(wi * hi <= 0x3fff0001) by (nonlinear_arith)
                requires
                    1 <= wi <= 0x7fff,
                    1 <= hi <= 0x7fff,
            ;
        }
        let ghost td = to_dead@;
        let ghost tl = to_live@;
        let n_dead = to_dead.len();
        let mut k: usize = 0;
        while k < n_dead
            invariant
                0 <= k <= n_dead,
                n_dead == td.len(),
                to_dead@ == td,
                to_live@ == tl,
                w == self.cellules_width,
                h == self.cellules_height,
                wi == w as int,
                hi == h as int,
                self.cellules_width == old(self).cellules_width,
                self.cellules_height == old(self).cellules_height,
                self.cellules@.len() == g0.len(),
                g0.len() == wi * hi,
                g0.len() <= 0x3fff0001,
                self.state == old(self).state,
                self.spec_ticks() == next_tick_count(old(self).spec_ticks()),
                die_list_ok(g0, wi, hi, g0.len() as int, td),
                rise_list_ok(g0, wi, hi, g0.len() as int, tl),
                forall|j: int|
                    0 <= j < g0.len() ==> (#[trigger] self.cellules@[j]).is_alive() == (
                    g0[j].is_alive() && !td.subrange(0, k as int).contains(j as usize)),
            decreases n_dead - k,
        {
            let idx = to_dead[k];
            proof {
                assert((td[k as int] as int) < g0.len() as int);
            }
            let ghost cells_before = self.cellules@;
            let mut c = self.cellules[idx];
            c.set_dead();
            self.cellules.set(idx, c);
            proof {
                lemma_subrange_step(td, k as int);
                assert forall|j: int| 0 <= j < g0.len() implies (
                    #[trigger] self.cellules@[j]).is_alive() == (g0[j].is_alive()
                    && !td.subrange(0, k as int + 1).contains(j as usize)) by {
                    assert(cells_before[j].is_alive() == (g0[j].is_alive() && !td.subrange(
                        0,
                        k as int,
                    ).contains(j as usize)));
                    lemma_contains_push(td.subrange(0, k as int), td[k as int], j as usize);
                    assert(self.cellules@ == cells_before.update(idx as int, c));
                    if j != idx as int {
                        assert(self.cellules@[j] == cells_before[j]);
                    }
                }
            }
            k = k + 1;
        }
        proof {
            assert(td.subrange(0, td.len() as int) =~= td);
        }
        let n_live = to_live.len();
        let mut k2: usize = 0;
        while k2 < n_live
            invariant
                0 <= k2 <= n_live,
                n_live == tl.len(),
                to_live@ == tl,
                w == self.cellules_width,
                h == self.cellules_height,
                wi == w as int,
                hi == h as int,
                self.cellules_width == old(self).cellules_width,
                self.cellules_height == old(self).cellules_height,
                self.cellules@.len() == g0.len(),
                g0.len() == wi * hi,
                g0.len() <= 0x3fff0001,
                self.state == old(self).state,
                self.spec_ticks() == next_tick_count(old(self).spec_ticks()),
                die_list_ok(g0, wi, hi, g0.len() as int, td),
                rise_list_ok(g0, wi, hi, g0.len() as int, tl),
                forall|j: int|
                    0 <= j < g0.len() ==> (#[trigger] self.cellules@[j]).is_alive() == ((
                    g0[j].is_alive() && !td.contains(j as usize)) || tl.subrange(
                        0,
                        k2 as int,
                    ).contains(j as usize)),
            decreases n_live - k2,
        {
            let idx = to_live[k2];
            proof {
                assert((tl[k2 as int] as int) < g0.len() as int);
            }
            let ghost cells_before = self.cellules@;
            let mut c = self.cellules[idx];
            c.set_alive();
            self.cellules.set(idx, c);
            proof {
                lemma_subrange_step(tl, k2 as int);
                assert forall|j: int| 0 <= j < g0.len() implies (
                    #[trigger] self.cellules@[j]).is_alive() == ((g0[j].is_alive() && !td.contains(
                    j as usize,
                )) || tl.subrange(0, k2 as int + 1).contains(j as usize)) by {
                    assert(cells_before[j].is_alive() == ((g0[j].is_alive() && !td.contains(
                        j as usize,
                    )) || tl.subrange(0, k2 as int).contains(j as usize)));
                    lemma_contains_push(tl.subrange(0, k2 as int), tl[k2 as int], j as usize);
                    assert(self.cellules@ == cells_before.update(idx as int, c));
                    if j != idx as int {
                        assert(self.cellules@[j] == cells_before[j]);
                    }
                }
            }
            k2 = k2 + 1;
        }
        proof {
            assert(tl.subrange(0, tl.len() as int) =~= tl);
            assert forall|i: int| 0 <= i < g0.len() implies (
                #[trigger] self.cellules@[i]).is_alive() == cell_next(g0, wi, hi, i) by {
                assert((i as usize) as int == i);
                if td.contains(i as usize) {
                    let k3 = choose|k3: int| 0 <= k3 < td.len() && td[k3] == i as usize;
                    assert(should_die(g0, wi, hi, td[k3] as int));
                    assert(td[k3] as int == i);
                }
                if tl.contains(i as usize) {
                    let k3 = choose|k3: int| 0 <= k3 < tl.len() && tl[k3] == i as usize;
                    assert(should_rise(g0, wi, hi, tl[k3] as int));
                    assert(tl[k3] as int == i);
                }
                if should_die(g0, wi, hi, i) {
                    assert(td.contains(i as usize));
                }
                if should_rise(g0, wi, hi, i) {
                    assert(tl.contains(i as usize));
                }
            }
        }
    }

    /// Redraws every cell at random; the state, tick counter and dimensions
    /// are untouched. Nothing is promised of the new cell values.
    pub fn random_mutate(&mut self)
        requires
            old(self).wf(),
        ensures
            final(self).wf(),
            final(self).spec_state() == old(self).spec_state(),
            final(self).spec_ticks() == old(self).spec_ticks(),
            final(self).spec_width() == old(self).spec_width(),
            final(self).spec_height() == old(self).spec_height(),
    {
        let n = self.cellules.len();
        let mut i: usize = 0;
        while i < n
            invariant
                0 <= i <= n,
                n == self.cellules@.len(),
                self.state == old(self).state,
                self.ticks == old(self).ticks,
                self.cellules_width == old(self).cellules_width,
                self.cellules_height == old(self).cellules_height,
            decreases n - i,
        {
            let mut c = self.cellules[i];
            if coin_flip() {
                c.set_alive();
            } else {
                c.set_dead();
            }
            self.cellules.set(i, c);
            i = i + 1;
        }
    }

    /// Flips the cell at `idx`; every other cell and every other field is
    /// untouched. The caller must pass an in-range index.
    fn toggle_cellule(&mut self, idx: usize)
        requires
            old(self).wf(),
            idx < old(self).grid().len(),
        ensures
            final(self).wf(),
            final(self).spec_state() == old(self).spec_state(),
            final(self).spec_ticks() == old(self).spec_ticks(),
            final(self).spec_width() == old(self).spec_width(),
            final(self).spec_height() == old(self).spec_height(),
            toggled(old(self).grid(), final(self).grid(), idx as int),
    {
        let mut c = self.cellules[idx];
        if c.alive() {
            c.set_dead();
        } else {
            c.set_alive();
        }
        self.cellules.set(idx, c);
    }

    /// Applies one command, as `update_outcome` states in full. Once the
    /// state is `Ended` every command fails with `GameOver` and nothing
    /// changes; otherwise each command acts as its name says, and only an
    /// out-of-range `ToggleCellule` index is refused.
    pub fn update(&mut self, msg: Message) -> (r: Result<(), Error>)
        requires
            old(self).wf(),
        ensures
            final(self).wf(),
            update_outcome(*old(self), *final(self), msg, r),
    {
        if self.state.ended() {
            return Err(Error::GameOver);
        }
        match msg {
            Message::Random => {
                self.random_mutate();
            },
            Message::Start => {
                let mut st = self.state;
                let tr = st.try_transition(State::Running);
                self.state = st;
                if let Err(e) = tr {
                    return Err(e);
                }
            },
            Message::Step => {
                self.step();
            },
            Message::Reset => {
                self.reset();
            },
            Message::Stop => {
                let mut st = self.state;
                let tr = st.try_transition(State::Pausing);
                self.state = st;
                if let Err(e) = tr {
                    return Err(e);
                }
            },
            Message::ToggleCellule(idx) => {
                if idx < self.cellules.len() {
                    self.toggle_cellule(idx);
                } else {
                    return Err(Error::IndexOutOfRange);
                }
            },
            Message::Tick => {
                if self.state.run() {
                    self.step();
                }
            },
            Message::End => {
                let mut st = self.state;
                let tr = st.try_transition(State::Ended);
                self.state = st;
                if let Err(e) = tr {
                    return Err(e);
                }
            },
        }
        Ok(())
    }
}

impl Clone for Simulation {
    /// An exact copy: every projection of the clone equals the source's.
    fn clone(&self) -> (r: Self)
        ensures
            r.spec_state() == self.spec_state(),
            r.spec_ticks() == self.spec_ticks(),
            r.grid() == self.grid(),
            r.spec_width() == self.spec_width(),
            r.spec_height() == self.spec_height(),
    {
        let n = self.cellules.len();
        let mut cellules: Vec<Cellule> = Vec::new();
        let mut i: usize = 0;
        while i < n
            invariant
                0 <= i <= n,
                n == self.cellules@.len(),
                cellules@ =~= self.cellules@.take(i as int),
            decreases n - i,
        {
            cellules.push(self.cellules[i]);
            i = i + 1;
        }
        proof {
            assert(cellules@ =~= self.cellules@);
        }
        Simulation {
            state: self.state,
            ticks: self.ticks,
            cellules,
            cellules_width: self.cellules_width,
            cellules_height: self.cellules_height,
        }
    }
}

proof fn lemma_count_alive_zero(s: Seq<Cellule>)
    requires
        forall|k: int| 0 <= k < s.len() ==> !(#[trigger] s[k]).is_alive(),
    ensures
        count_alive(s) == 0,
    decreases s.len(),
{
    if s.len() > 0 {
        lemma_count_alive_zero(s.drop_last());
    }
}

/// One generation of an all-dead grid is all-dead: every neighbor count is
/// zero, so no cell is born and none can die.
pub proof fn lemma_step_all_dead(cells: Seq<Cellule>, w: int, h: int)
    requires
        1 <= w,
        1 <= h,
        cells.len() == w * h,
        forall|i: int| 0 <= i < cells.len() ==> !(#[trigger] cells[i]).is_alive(),
    ensures
        forall|i: int| 0 <= i < cells.len() ==> !cell_next(cells, w, h, i),
{
    assert forall|i: int| 0 <= i < cells.len() implies !cell_next(cells, w, h, i) by {
        vstd::arithmetic::div_mod::lemma_div_pos_is_pos(i, w);
        vstd::arithmetic::div_mod::lemma_multiply_divide_lt(i, w, h);
        vstd::arithmetic::div_mod::lemma_mod_bound(i, w);
        let row = i / w;
        let col = i % w;
        let ns = neighbor_states(cells, w, h, row, col);
        assert forall|k: int| 0 <= k < ns.len() implies !(#[trigger] ns[k]).is_alive() by {
            lemma_neighbor_idx_in_range(w, h, row, col, 1, 0);
            lemma_neighbor_idx_in_range(w, h, row, col, 1, 1);
            lemma_neighbor_idx_in_range(w, h, row, col, 1, -1);
            lemma_neighbor_idx_in_range(w, h, row, col, -1, 0);
            lemma_neighbor_idx_in_range(w, h, row, col, -1, 1);
            lemma_neighbor_idx_in_range(w, h, row, col, -1, -1);
            lemma_neighbor_idx_in_range(w, h, row, col, 0, -1);
            lemma_neighbor_idx_in_range(w, h, row, col, 0, 1);
        }
        lemma_count_alive_zero(ns);
    }
}

/// For every grid with both dimensions at least one, every flat cell
/// index, and each of the eight unit offsets, the toroidal neighbor lookup
/// lands on an in-range index.
pub proof fn lemma_cell_neighbors_in_range(w: int, h: int, i: int, dr: int, dc: int)
    requires
        1 <= w,
        1 <= h,
        0 <= i < w * h,
        -1 <= dr <= 1,
        -1 <= dc <= 1,
    ensures
        0 <= neighbor_idx(w, h, i / w, i % w, dr, dc) < w * h,
{
    vstd::arithmetic::div_mod::lemma_div_pos_is_pos(i, w);
    vstd::arithmetic::div_mod::lemma_multiply_divide_lt(i, w, h);
    vstd::arithmetic::div_mod::lemma_mod_bound(i, w);
    lemma_neighbor_idx_in_range(w, h, i / w, i % w, dr, dc);
}

/// `Ended` is absorbing: a command applied to an ended session fails with
/// `GameOver` and leaves the session exactly as it was, so no sequence of
/// commands ever changes an ended session.
pub proof fn lemma_ended_absorbing(
    pre: Simulation,
    post: Simulation,
    msg: Message,
    r: Result<(), Error>,
)
    requires
        pre.spec_state() == State::Ended,
        update_outcome(pre, post, msg, r),
    ensures
        post == pre,
        post.spec_state() == State::Ended,
        r == Err::<(), Error>(Error::GameOver),
{
}

/// The tick counter never decreases: whatever command is applied, the
/// counter afterwards is at least the counter before.
pub proof fn lemma_ticks_monotone(
    pre: Simulation,
    post: Simulation,
    msg: Message,
    r: Result<(), Error>,
)
    requires
        update_outcome(pre, post, msg, r),
    ensures
        post.spec_ticks() >= pre.spec_ticks(),
{
}

/// A dead cell with exactly three live neighbors comes alive after one
/// generation.
pub proof fn lemma_dead_cell_revives(cells: Seq<Cellule>, w: int, h: int, i: int)
    requires
        1 <= w,
        0 <= i < cells.len(),
        !cells[i].is_alive(),
        live_neighbor_count(cells, w, h, i / w, i % w) == 3,
    ensures
        cell_next(cells, w, h, i),
{
}

/// A live cell with fewer than two live neighbors dies after one
/// generation.
pub proof fn lemma_lonely_cell_dies(cells: Seq<Cellule>, w: int, h: int, i: int)
    requires
        1 <= w,
        0 <= i < cells.len(),
        cells[i].is_alive(),
        live_neighbor_count(cells, w, h, i / w, i % w) < 2,
    ensures
        !cell_next(cells, w, h, i),
{
}

/// Toggling the same cell twice restores the grid exactly: if `b` is `a`
/// with cell `i` flipped and `c` is `b` with cell `i` flipped again, then
/// `c` is `a`.
pub proof fn lemma_toggle_twice(a: Seq<Cellule>, b: Seq<Cellule>, c: Seq<Cellule>, i: int)
    requires
        a.len() == b.len(),
        b.len() == c.len(),
        0 <= i < a.len(),
        b[i].is_alive() == !a[i].is_alive(),
        c[i].is_alive() == !b[i].is_alive(),
        forall|j: int| 0 <= j < a.len() && j != i ==> b[j] == a[j],
        forall|j: int| 0 <= j < a.len() && j != i ==> c[j] == b[j],
    ensures
        c == a,
{
    lemma_cell_eq(c[i], a[i]);
    assert(c =~= a);
}

} // verus!
