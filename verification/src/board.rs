//! The board engine: dino layout, reveals, flags, and win/loss state.

use crate::counting::count_true;
use crate::counting::lemma_count_disjoint_lt;
use crate::counting::lemma_count_true_all;
use crate::counting::lemma_count_true_bounds;
use crate::counting::lemma_count_true_none;
use crate::counting::lemma_count_true_update;
use vstd::prelude::*;

verus! {

/// A cell coordinate: zero-based column (`.0`) and row (`.1`).
#[derive(Debug, Clone, Copy, PartialEq, Eq, Structural)]
pub struct Position(pub usize, pub usize);

/// What a reveal of one cell reports back.
#[derive(Debug, PartialEq, Eq, Structural)]
pub enum PositionResult {
    /// The game had already ended; nothing happened.
    Over,
    /// The cell is clear and no dino is adjacent.
    Clear,
    /// The cell is clear; the payload counts the adjacent dinos.
    DinosInSurrounding(usize),
    /// The cell hides a dino: the game is lost.
    Dino,
    /// The cell is flagged and protected from reveals.
    Flagged,
}

/// How one cell should be presented, given the current outcome.
#[derive(Debug, PartialEq, Eq, Structural)]
pub enum CellInfo {
    /// An unflagged dino (distinguished only once the game has ended).
    Dino,
    /// A flagged cell that indeed hides a dino (terminal states only).
    FlagCorrect,
    /// A flagged cell that hides no dino (terminal states only).
    FlagWrong,
    /// A flagged cell while the game is still running.
    Flagged,
    /// A revealed cell with its adjacent-dino count.
    Revealed(usize),
    /// An untouched cell.
    Hidden,
}

/// Whether `q` is one of the up-to-eight cells adjacent to `p` on a
/// `width` x `height` board: in bounds, distinct from `p`, and at most
/// one step away in each coordinate.
pub open spec fn neighbor_of(width: int, height: int, p: Position, q: Position) -> bool {
    &&& 0 <= q.0 < width
    &&& 0 <= q.1 < height
    &&& !(q.0 == p.0 && q.1 == p.1)
    &&& p.0 - 1 <= q.0 <= p.0 + 1
    &&& p.1 - 1 <= q.1 <= p.1 + 1
}

/// The lowest coordinate of the adjacency box around coordinate `v`.
pub open spec fn nb_lo(v: int) -> int {
    if v > 0 {
        v - 1
    } else {
        0
    }
}

/// The highest coordinate of the adjacency box around coordinate `v`
/// on an axis of length `dim`.
pub open spec fn nb_hi(v: int, dim: int) -> int {
    if v + 1 < dim {
        v + 1
    } else {
        dim - 1
    }
}

/// How many distinct neighbors a cell at `p` has: the area of its
/// in-bounds adjacency box, minus the cell itself.
pub open spec fn neighbor_count(width: int, height: int, p: Position) -> int {
    (nb_hi(p.0 as int, width) - nb_lo(p.0 as int) + 1) * (nb_hi(p.1 as int, height) - nb_lo(
        p.1 as int,
    ) + 1) - 1
}

/// The board engine. It owns the dino layout, the set of revealed
/// cells, the set of flagged cells and the terminal flags, each set
/// stored as a boolean grid in row-major order beside its cached size.
pub struct Dinomite {
    /// Number of columns.
    pub width: usize,
    /// Number of rows.
    pub height: usize,
    /// Revealed cells, row-major.
    pub seen: Vec<bool>,
    /// Dino cells, row-major.
    pub dinos: Vec<bool>,
    /// Flagged cells, row-major.
    pub flags: Vec<bool>,
    /// Cached number of dinos.
    pub num_dinos: usize,
    /// Cached number of revealed cells.
    pub num_seen: usize,
    /// Cached number of flags.
    pub num_flags: usize,
    /// Whether the game has ended, by a win or by a dino hit.
    pub game_over: bool,
    /// Whether the game has been won.
    pub won: bool,
}

impl Dinomite {
    /// The number of cells of the board.
    pub open spec fn total(self) -> int {
        self.width * self.height
    }

    /// The row-major grid index of `p`.
    pub open spec fn cell(self, p: Position) -> int {
        p.1 * self.width + p.0
    }

    /// Whether `p` lies on the board.
    pub open spec fn in_bounds(self, p: Position) -> bool {
        p.0 < self.width && p.1 < self.height
    }

    /// Whether the cell at `p` hides a dino.
    pub open spec fn dino_at(self, p: Position) -> bool {
        self.in_bounds(p) && self.dinos@[self.cell(p)]
    }

    /// Whether the cell at `p` has been revealed.
    pub open spec fn seen_at(self, p: Position) -> bool {
        self.in_bounds(p) && self.seen@[self.cell(p)]
    }

    /// Whether the cell at `p` carries a flag.
    pub open spec fn flag_at(self, p: Position) -> bool {
        self.in_bounds(p) && self.flags@[self.cell(p)]
    }

    /// Whether `q` is adjacent to `p` on this board.
    pub open spec fn is_neighbor(self, p: Position, q: Position) -> bool {
        neighbor_of(self.width as int, self.height as int, p, q)
    }

    /// One if the cell at column `x`, row `y` is on the board and hides
    /// a dino, zero otherwise.
    pub open spec fn dino_at_xy(self, x: int, y: int) -> int {
        if 0 <= x < self.width && 0 <= y < self.height && self.dinos@[y * self.width + x] {
            1
        } else {
            0
        }
    }

    /// The number of dinos among the neighbors of `p`.
    pub open spec fn dino_count(self, p: Position) -> int {
        let x = p.0 as int;
        let y = p.1 as int;
        self.dino_at_xy(x - 1, y - 1) + self.dino_at_xy(x, y - 1) + self.dino_at_xy(x + 1, y - 1)
            + self.dino_at_xy(x - 1, y) + self.dino_at_xy(x + 1, y) + self.dino_at_xy(x - 1, y + 1)
            + self.dino_at_xy(x, y + 1) + self.dino_at_xy(x + 1, y + 1)
    }

    /// The internal invariant: the three grids span the whole board,
    /// the cached sizes count them, no revealed cell hides a dino or a
    /// flag, flags never outnumber dinos, and a won game is over with
    /// every non-dino cell revealed.
    pub open spec fn wf(self) -> bool {
        &&& 1 <= self.width
        &&& 1 <= self.height
        &&& self.width * self.height <= usize::MAX
        &&& self.dinos@.len() == self.total()
        &&& self.seen@.len() == self.total()
        &&& self.flags@.len() == self.total()
        &&& self.num_dinos == count_true(self.dinos@)
        &&& self.num_seen == count_true(self.seen@)
        &&& self.num_flags == count_true(self.flags@)
        &&& (forall|i: int| 0 <= i < self.total() && #[trigger] self.seen@[i] ==> !self.dinos@[i])
        &&& (forall|i: int| 0 <= i < self.total() && #[trigger] self.seen@[i] ==> !self.flags@[i])
        &&& self.num_flags <= self.num_dinos
        &&& (self.won ==> self.game_over)
        &&& (self.won ==> self.num_seen == self.total() - self.num_dinos)
    }
}

/// A row-major index stays below the cell count of the board.
pub proof fn lemma_cell_bound(w: int, h: int, x: int, y: int)
    by (nonlinear_arith)
    requires
        1 <= w,
        0 <= x < w,
        0 <= y < h,
    ensures
        0 <= y * w + x < w * h,
{
}

/// Distinct in-bounds cells have distinct row-major indices.
pub proof fn lemma_cell_injective(w: int, x1: int, y1: int, x2: int, y2: int)
    by (nonlinear_arith)
    requires
        1 <= w,
        0 <= x1 < w,
        0 <= x2 < w,
        0 <= y1,
        0 <= y2,
        y1 * w + x1 == y2 * w + x2,
    ensures
        x1 == x2,
        y1 == y2,
{
}

/// Relies on rand's `random_range`: the thread-local generator draws a
/// sample from `0..max`, a value strictly below `max`.
#[verifier::external_body]
fn random_below(max: usize) -> (r: usize)
    requires
        max > 0,
    ensures
        r < max,
{
    rand::random_range(0..max)
}

/// A vector of `n` entries, all `false`.
fn vec_false(n: usize) -> (r: Vec<bool>)
    ensures
        r@.len() == n,
        forall|i: int| 0 <= i < n ==> !r@[i],
{
    let mut v: Vec<bool> = Vec::new();
    let mut i: usize = 0;
    while i < n
        invariant
            i <= n,
            v@.len() == i,
            forall|j: int| 0 <= j < i ==> !v@[j],
        decreases n - i,
    {
        v.push(false);
        i = i + 1;
    }
    v
}

impl Dinomite {
    /// The row-major grid index of `pos`.
    fn cell_index(&self, pos: &Position) -> (i: usize)
        requires
            self.wf(),
            self.in_bounds(*pos),
        ensures
            i == self.cell(*pos),
            i < self.total(),
    {
        proof {
            lemma_cell_bound(
                self.width as int,
                self.height as int,
                pos.0 as int,
                pos.1 as int,
            );
        }
        pos.1 * self.width + pos.0
    }

    /// Create a `width` x `height` board hiding `num_dinos` dinos at
    /// cells drawn at random; a request beyond the board size is
    /// silently clamped to it. No cell starts revealed or flagged.
    pub fn new(width: usize, height: usize, num_dinos: usize) -> (r: Dinomite)
        requires
            1 <= width,
            1 <= height,
            width * height <= usize::MAX,
        ensures
            r.wf(),
            r.width == width,
            r.height == height,
            r.num_dinos == if num_dinos <= width * height {
                num_dinos as int
            } else {
                width * height
            },
            r.num_seen == 0,
            r.num_flags == 0,
            !r.game_over,
            !r.won,
            forall|q: Position| !r.seen_at(q),
            forall|q: Position| !r.flag_at(q),
    {
        let total = width * height;
        let num_dinos = if num_dinos <= total {
            num_dinos
        } else {
            total
        };
        let mut dinos = vec_false(total);
        let mut placed: usize = 0;
        proof {
            lemma_count_true_none(dinos@);
        }
        // Rejection sampling: draw random cells and keep the fresh ones
        // until enough dinos stand. The attempt budget is generous; it
        // exists so that the loop provably terminates.
        let mut budget: usize = if total < 100000 {
            64 * total + 64
        } else {
            0xffff_ffff
        };
        while placed < num_dinos && budget > 0
            invariant
                1 <= width,
                1 <= height,
                total == width * height,
                num_dinos <= total,
                dinos@.len() == total,
                placed == count_true(dinos@),
                placed <= num_dinos,
            decreases budget,
        {
            budget = budget - 1;
            let x = random_below(width);
            let y = random_below(height);
            proof {
                lemma_cell_bound(width as int, height as int, x as int, y as int);
            }
            let i = y * width + x;
            if !dinos[i] {
                proof {
                    lemma_count_true_update(dinos@, i as int, true);
                }
                dinos.set(i, true);
                placed = placed + 1;
            }
        }
        // In the rare case that the budget ran dry, fill the first free
        // cells; with the clamp, enough free cells always remain.
        let mut i: usize = 0;
        while i < total && placed < num_dinos
            invariant
                num_dinos <= total,
                dinos@.len() == total,
                placed == count_true(dinos@),
                placed <= num_dinos,
                i <= total,
                placed < num_dinos ==> forall|j: int| 0 <= j < i ==> dinos@[j],
            decreases total - i,
        {
            if !dinos[i] {
                proof {
                    lemma_count_true_update(dinos@, i as int, true);
                }
                dinos.set(i, true);
                placed = placed + 1;
            }
            i = i + 1;
        }
        proof {
            if placed < num_dinos {
                lemma_count_true_all(dinos@);
            }
        }
        let seen = vec_false(total);
        let flags = vec_false(total);
        proof {
            lemma_count_true_none(seen@);
            lemma_count_true_none(flags@);
        }
        let r = Dinomite {
            width,
            height,
            seen,
            dinos,
            flags,
            num_dinos: placed,
            num_seen: 0,
            num_flags: 0,
            game_over: false,
            won: false,
        };
        proof {
            assert forall|q: Position| !r.seen_at(q) && !r.flag_at(q) by {
                if r.in_bounds(q) {
                    lemma_cell_bound(width as int, height as int, q.0 as int, q.1 as int);
                }
            }
        }
        r
    }

    /// The number of dinos hidden on the board.
    pub fn get_num_dinos(&self) -> (r: usize)
        ensures
            r == self.num_dinos,
    {
        self.num_dinos
    }

    /// The number of columns.
    pub fn get_width(&self) -> (r: usize)
        ensures
            r == self.width,
    {
        self.width
    }

    /// The number of rows.
    pub fn get_height(&self) -> (r: usize)
        ensures
            r == self.height,
    {
        self.height
    }

    /// The number of cells revealed so far.
    pub fn get_num_seen(&self) -> (r: usize)
        ensures
            r == self.num_seen,
    {
        self.num_seen
    }

    /// The number of flags currently placed.
    pub fn get_num_flags(&self) -> (r: usize)
        ensures
            r == self.num_flags,
    {
        self.num_flags
    }

    /// Whether the game has ended.
    pub fn is_game_over(&self) -> (r: bool)
        ensures
            r == self.game_over,
    {
        self.game_over
    }

    /// Whether the game has been won.
    pub fn is_won(&self) -> (r: bool)
        ensures
            r == self.won,
    {
        self.won
    }

    /// Whether the cell at `pos` has been revealed.
    pub fn is_revealed(&self, pos: &Position) -> (r: bool)
        requires
            self.wf(),
            self.in_bounds(*pos),
        ensures
            r == self.seen_at(*pos),
    {
        let i = self.cell_index(pos);
        self.seen[i]
    }

    /// Place a dino at `pos`, to build a board deterministically. The
    /// cell must not have been revealed and the game must still run.
    pub fn add_dino(&mut self, pos: &Position)
        requires
            old(self).wf(),
            old(self).in_bounds(*pos),
            !old(self).seen_at(*pos),
            !old(self).game_over,
            !old(self).won,
        ensures
            final(self).wf(),
            final(self).width == old(self).width,
            final(self).height == old(self).height,
            forall|q: Position| #[trigger] final(self).dino_at(q) <==> old(self).dino_at(q) || q
                == *pos,
            final(self).num_dinos == old(self).num_dinos + if old(self).dino_at(*pos) {
                0int
            } else {
                1int
            },
            final(self).seen@ == old(self).seen@,
            final(self).num_seen == old(self).num_seen,
            final(self).flags@ == old(self).flags@,
            final(self).num_flags == old(self).num_flags,
            final(self).game_over == old(self).game_over,
            final(self).won == old(self).won,
    {
        let i = self.cell_index(pos);
        if !self.dinos[i] {
            proof {
                lemma_count_true_update(self.dinos@, i as int, true);
                lemma_count_true_bounds(self.dinos@.update(i as int, true));
            }
            self.dinos.set(i, true);
            self.num_dinos = self.num_dinos + 1;
        }
        proof {
            assert forall|q: Position| #[trigger] self.dino_at(q) <==> old(self).dino_at(q) || q
                == *pos by {
                if self.in_bounds(q) {
                    lemma_cell_bound(
                        self.width as int,
                        self.height as int,
                        q.0 as int,
                        q.1 as int,
                    );
                    if self.cell(q) == self.cell(*pos) {
                        lemma_cell_injective(
                            self.width as int,
                            q.0 as int,
                            q.1 as int,
                            pos.0 as int,
                            pos.1 as int,
                        );
                    }
                }
            }
        }
    }

    /// Toggle the flag at `pos`: a no-op once the game has ended, on a
    /// revealed cell, and when placing a flag while as many flags stand
    /// as there are dinos; otherwise the flag is removed or placed.
    pub fn toggle_flag(&mut self, pos: &Position)
        requires
            old(self).wf(),
            old(self).in_bounds(*pos),
        ensures
            final(self).wf(),
            toggle_rel(*old(self), *final(self), *pos),
    {
        if self.game_over || self.won {
            return ;
        }
        let i = self.cell_index(pos);
        if self.seen[i] {
            return ;
        }
        if self.flags[i] {
            proof {
                lemma_count_true_update(self.flags@, i as int, false);
                lemma_count_true_bounds(self.flags@.update(i as int, false));
            }
            self.flags.set(i, false);
            self.num_flags = self.num_flags - 1;
        } else {
            if self.num_flags == self.num_dinos {
                return ;
            }
            proof {
                lemma_count_true_update(self.flags@, i as int, true);
            }
            self.flags.set(i, true);
            self.num_flags = self.num_flags + 1;
        }
    }

    /// Whether the cell at column `x`, row `y` hides a dino.
    fn read_dino(&self, x: usize, y: usize) -> (r: bool)
        requires
            self.wf(),
            x < self.width,
            y < self.height,
        ensures
            r == (self.dino_at_xy(x as int, y as int) == 1),
    {
        proof {
            lemma_cell_bound(self.width as int, self.height as int, x as int, y as int);
        }
        self.dinos[y * self.width + x]
    }

    /// Count the dinos hidden among the neighbors of `pos`.
    pub fn get_neighboring_dino_count(&self, pos: &Position) -> (r: usize)
        requires
            self.wf(),
            self.in_bounds(*pos),
        ensures
            r == self.dino_count(*pos),
            r <= 8,
    {
        let x = pos.0;
        let y = pos.1;
        let mut c: usize = 0;
        if x > 0 && y > 0 && self.read_dino(x - 1, y - 1) {
            c = c + 1;
        }
        if y > 0 && self.read_dino(x, y - 1) {
            c = c + 1;
        }
        if x + 1 < self.width && y > 0 && self.read_dino(x + 1, y - 1) {
            c = c + 1;
        }
        if x > 0 && self.read_dino(x - 1, y) {
            c = c + 1;
        }
        if x + 1 < self.width && self.read_dino(x + 1, y) {
            c = c + 1;
        }
        if x > 0 && y + 1 < self.height && self.read_dino(x - 1, y + 1) {
            c = c + 1;
        }
        if y + 1 < self.height && self.read_dino(x, y + 1) {
            c = c + 1;
        }
        if x + 1 < self.width && y + 1 < self.height && self.read_dino(x + 1, y + 1) {
            c = c + 1;
        }
        c
    }

    /// Enumerate the distinct neighbors of `pos`: every in-bounds cell
    /// at most one step away in each coordinate, except `pos` itself.
    pub fn get_neighbors(&self, pos: &Position) -> (r: Vec<Position>)
        requires
            self.wf(),
            self.in_bounds(*pos),
        ensures
            forall|q: Position| #[trigger] r@.contains(q) <==> self.is_neighbor(*pos, q),
            r@.no_duplicates(),
            r@.len() == neighbor_count(self.width as int, self.height as int, *pos),
            r@.len() <= 8,
            forall|i: int| 0 <= i < r@.len() ==> self.is_neighbor(*pos, #[trigger] r@[i]),
    {
        let x = pos.0;
        let y = pos.1;
        let xlo = if x > 0 {
            x - 1
        } else {
            0
        };
        let xhi = if x + 1 < self.width {
            x + 1
        } else {
            self.width - 1
        };
        let ylo = if y > 0 {
            y - 1
        } else {
            0
        };
        let yhi = if y + 1 < self.height {
            y + 1
        } else {
            self.height - 1
        };
        let ghost w = (xhi - xlo + 1) as int;
        let mut r: Vec<Position> = Vec::new();
        let mut ny = ylo;
        while ny <= yhi
            invariant
                xlo == nb_lo(x as int),
                xhi == nb_hi(x as int, self.width as int),
                ylo == nb_lo(y as int),
                yhi == nb_hi(y as int, self.height as int),
                x < self.width,
                y < self.height,
                xlo <= x <= xhi,
                ylo <= y <= yhi,
                xhi < self.width,
                yhi < self.height,
                w == xhi - xlo + 1,
                ylo <= ny <= yhi + 1,
                forall|q: Position| #[trigger] r@.contains(q) <==> (xlo <= q.0 <= xhi && ylo <= q.1
                    && q.1 < ny && !(q.0 == x && q.1 == y)),
                r@.no_duplicates(),
                r@.len() == (ny - ylo) * w - if y < ny {
                    1int
                } else {
                    0int
                },
            decreases yhi + 1 - ny,
        {
            let mut nx = xlo;
            while nx <= xhi
                invariant
                    xlo == nb_lo(x as int),
                    xhi == nb_hi(x as int, self.width as int),
                    x < self.width,
                    y < self.height,
                    xlo <= x <= xhi,
                    ylo <= y <= yhi,
                    xhi < self.width,
                    yhi < self.height,
                    w == xhi - xlo + 1,
                    ylo <= ny <= yhi,
                    xlo <= nx <= xhi + 1,
                    forall|q: Position| #[trigger] r@.contains(q) <==> (xlo <= q.0 <= xhi && ylo
                        <= q.1 && (q.1 < ny || (q.1 == ny && q.0 < nx)) && !(q.0 == x && q.1 == y)),
                    r@.no_duplicates(),
                    r@.len() == (ny - ylo) * w + (nx - xlo) - if y < ny || (y == ny && x < nx) {
                        1int
                    } else {
                        0int
                    },
                decreases xhi + 1 - nx,
            {
                if !(nx == x && ny == y) {
                    let q = Position(nx, ny);
                    let ghost r0 = r@;
                    proof {
                        assert(!r0.contains(q));
                    }
                    r.push(q);
                    proof {
                        assert forall|p2: Position| #[trigger] r@.contains(p2) <==> (r0.contains(
                            p2,
                        ) || p2 == q) by {
                            if r@.contains(p2) {
                                let k = choose|k: int| 0 <= k < r@.len() && r@[k] == p2;
                                if k < r0.len() {
                                    assert(r0[k] == p2);
                                }
                            }
                            if r0.contains(p2) {
                                let k = choose|k: int| 0 <= k < r0.len() && r0[k] == p2;
                                assert(r@[k] == p2);
                            }
                            if p2 == q {
                                assert(r@[r@.len() - 1] == p2);
                            }
                        }
                    }
                }
                nx = nx + 1;
            }
            proof {
                assert((ny + 1 - ylo) * w == (ny - ylo) * w + w) by (nonlinear_arith);
            }
            ny = ny + 1;
        }
        proof {
            assert(r@.len() == (yhi + 1 - ylo) * w - 1);
            let bh = nb_hi(y as int, self.height as int) - nb_lo(y as int) + 1;
            assert((yhi + 1 - ylo) * w == w * bh) by (nonlinear_arith)
                requires
                    bh == yhi + 1 - ylo,
                    w == w,
            ;
            assert(r@.len() <= 8) by (nonlinear_arith)
                requires
                    r@.len() == (yhi + 1 - ylo) * w - 1,
                    1 <= w <= 3,
                    1 <= yhi + 1 - ylo <= 3,
            ;
            assert forall|i: int| 0 <= i < r@.len() implies self.is_neighbor(
                *pos,
                #[trigger] r@[i],
            ) by {
                assert(r@.contains(r@[i]));
            }
        }
        r
    }

    /// Reveal the cell at `pos` and report what the reveal found. A
    /// cell without adjacent dinos starts a cascading reveal of its
    /// whole zero-count region. A reveal after the game has ended, or
    /// of a flagged or an already revealed cell, changes nothing; a
    /// reveal of a dino ends the game without uncovering the cell; the
    /// reveal of the last unrevealed non-dino cell wins the game.
    #[verifier::rlimit(60)]
    pub fn check_position(&mut self, pos: &Position) -> (r: PositionResult)
        requires
            old(self).wf(),
            old(self).in_bounds(*pos),
        ensures
            final(self).wf(),
            ({
                let pre = *old(self);
                let post = *final(self);
                if pre.game_over || pre.won {
                    r == PositionResult::Over && unchanged(pre, post)
                } else if pre.flag_at(*pos) {
                    r == PositionResult::Flagged && unchanged(pre, post)
                } else if pre.dino_at(*pos) {
                    r == PositionResult::Dino && lost_rel(pre, post)
                } else if pre.seen_at(*pos) {
                    r == PositionResult::Clear && unchanged(pre, post)
                } else if pre.dino_count(*pos) == 0 {
                    r == PositionResult::Clear && reveal_cascade_rel(pre, post, *pos)
                } else {
                    r == PositionResult::DinosInSurrounding(pre.dino_count(*pos) as usize)
                        && reveal_one_rel(pre, post, *pos)
                }
            }),
    {
        let ghost pre = *old(self);
        if self.won || self.game_over {
            return PositionResult::Over;
        }
        let i = self.cell_index(pos);
        if self.flags[i] {
            return PositionResult::Flagged;
        }
        if self.dinos[i] {
            self.game_over = true;
            return PositionResult::Dino;
        }
        if self.seen[i] {
            return PositionResult::Clear;
        }
        proof {
            lemma_count_disjoint_lt(self.seen@, self.dinos@, i as int);
        }
        let count = self.get_neighboring_dino_count(pos);
        let total = self.width * self.height;
        // Win prediction: this reveal uncovers the last non-dino cell.
        if self.num_seen == total - self.num_dinos - 1 {
            self.won = true;
            self.game_over = true;
        }
        proof {
            lemma_count_true_update(self.seen@, i as int, true);
        }
        self.seen.set(i, true);
        self.num_seen = self.num_seen + 1;
        if count > 0 {
            return PositionResult::DinosInSurrounding(count);
        }
        proof {
            lemma_seen_insert(pre, *self, *pos);
            lemma_count_true_bounds(self.seen@);
        }
        let mut work = self.get_neighbors(pos);
        proof {
            assert forall|k: int| 0 <= k < work@.len() implies pre.in_bounds(#[trigger] work@[k])
                && !pre.dino_at(work@[k]) by {
                lemma_zero_count_no_dino_neighbor(*self, *pos, work@[k]);
            }
        }
        while work.len() > 0
            invariant
                self.wf(),
                same_board(pre, *self),
                self.flags@ == pre.flags@,
                self.num_flags == pre.num_flags,
                pre.wf(),
                pre.in_bounds(*pos),
                !pre.game_over,
                !pre.won,
                !pre.flag_at(*pos),
                !pre.dino_at(*pos),
                !pre.seen_at(*pos),
                pre.dino_count(*pos) == 0,
                self.seen_at(*pos),
                forall|q: Position| #![trigger pre.seen_at(q)] #![trigger self.seen_at(q)]
                    pre.seen_at(q) ==> self.seen_at(q),
                forall|q: Position| #[trigger] fresh_at(pre, *self, q) ==> !pre.flag_at(q)
                    && !pre.dino_at(q),
                forall|q: Position| #[trigger] fresh_at(pre, *self, q) ==> q == *pos || exists|
                    rr: Position,
                |
                    fresh_at(pre, *self, rr) && pre.dino_count(rr) == 0 && pre.is_neighbor(rr, q),
                forall|k: int| 0 <= k < work@.len() ==> pre.in_bounds(#[trigger] work@[k])
                    && !pre.dino_at(work@[k]),
                forall|k: int| 0 <= k < work@.len() ==> exists|rr: Position|
                    fresh_at(pre, *self, rr) && pre.dino_count(rr) == 0 && pre.is_neighbor(
                        rr,
                        #[trigger] work@[k],
                    ),
                forall|q: Position, n: Position|
                    fresh_at(pre, *self, q) && pre.dino_count(q) == 0 && #[trigger] pre.is_neighbor(
                        q,
                        n,
                    ) && !pre.flag_at(n) && !self.won ==> (self.seen_at(n) || work@.contains(n)),
                self.game_over == self.won,
                !self.won ==> self.num_seen < pre.total() - pre.num_dinos,
                self.num_seen <= pre.total(),
            decreases work@.len() + 9 * (pre.total() - self.num_seen),
        {
            let ghost sa = *self;
            let ghost w0 = work@;
            let q = work.pop().unwrap();
            proof {
                assert(q == w0[w0.len() - 1]);
                assert(forall|k: int| 0 <= k < work@.len() ==> #[trigger] work@[k] == w0[k]);
                assert forall|n: Position| #[trigger] w0.contains(n) implies (work@.contains(n) || n
                    == q) by {
                    let k = choose|k: int| 0 <= k < w0.len() && w0[k] == n;
                    if k < w0.len() - 1 {
                        assert(work@[k] == n);
                    }
                }
                assert forall|n: Position| #[trigger] work@.contains(n) implies w0.contains(n) by {
                    let k = choose|k: int| 0 <= k < work@.len() && work@[k] == n;
                    assert(w0[k] == n);
                }
            }
            if self.won || self.game_over {
                continue ;
            }
            let qi = self.cell_index(&q);
            if self.flags[qi] {
                proof {
                    assert(pre.flag_at(q));
                }
                continue ;
            }
            if self.dinos[qi] {
                proof {
                    // popped cells adjoin a zero-count cell and hide no dino
                    assert(!pre.dino_at(q));
                    assert(pre.dino_at(q));
                    assert(false);
                }
                self.game_over = true;
                continue ;
            }
            if self.seen[qi] {
                proof {
                    assert(self.seen_at(q));
                }
                continue ;
            }
            let c = self.get_neighboring_dino_count(&q);
            proof {
                lemma_count_true_bounds(self.dinos@);
                assert(!pre.seen_at(q));
                assert(pre.dino_count(q) == c);
            }
            let total = self.width * self.height;
            if self.num_seen == total - self.num_dinos - 1 {
                self.won = true;
                self.game_over = true;
            }
            proof {
                lemma_count_true_update(self.seen@, qi as int, true);
            }
            self.seen.set(qi, true);
            self.num_seen = self.num_seen + 1;
            proof {
                lemma_seen_insert(sa, *self, q);
                lemma_count_true_bounds(self.seen@);
                assert(fresh_at(pre, *self, q));
                // the revealed sets before and after the insertion
                assert forall|p2: Position| #[trigger] fresh_at(pre, *self, p2) implies fresh_at(
                    pre,
                    sa,
                    p2,
                ) || p2 == q by {}
                assert forall|p2: Position| #[trigger] fresh_at(pre, sa, p2) implies fresh_at(
                    pre,
                    *self,
                    p2,
                ) by {}
                // every cell revealed before stays revealed
                assert forall|p2: Position| #![trigger pre.seen_at(p2)] #![trigger self.seen_at(p2)]
                    pre.seen_at(p2) implies self.seen_at(p2) by {
                    assert(sa.seen_at(p2));
                }
                // newly revealed cells were neither flagged nor dinos
                assert forall|p2: Position| #[trigger] fresh_at(pre, *self, p2) implies !pre.flag_at(
                    p2,
                ) && !pre.dino_at(p2) by {
                    if p2 != q {
                        assert(fresh_at(pre, sa, p2));
                    }
                }
                // newly revealed cells adjoin a fresh zero-count cell
                assert forall|p2: Position| #[trigger] fresh_at(pre, *self, p2) implies p2 == *pos
                    || exists|rr: Position|
                    fresh_at(pre, *self, rr) && pre.dino_count(rr) == 0 && pre.is_neighbor(
                        rr,
                        p2,
                    ) by {
                    if p2 == q {
                        let rr = choose|rr: Position|
                            fresh_at(pre, sa, rr) && pre.dino_count(rr) == 0 && pre.is_neighbor(
                                rr,
                                w0[w0.len() - 1],
                            );
                        assert(fresh_at(pre, *self, rr) && pre.dino_count(rr) == 0
                            && pre.is_neighbor(rr, p2));
                    } else {
                        assert(fresh_at(pre, sa, p2));
                        if p2 != *pos {
                            let rr = choose|rr: Position|
                                fresh_at(pre, sa, rr) && pre.dino_count(rr) == 0 && pre.is_neighbor(
                                    rr,
                                    p2,
                                );
                            assert(fresh_at(pre, *self, rr) && pre.dino_count(rr) == 0
                                && pre.is_neighbor(rr, p2));
                        }
                    }
                }
            }
            if c == 0 {
                let mut ns = self.get_neighbors(&q);
                proof {
                    assert forall|k: int| 0 <= k < ns@.len() implies pre.in_bounds(
                        #[trigger] ns@[k],
                    ) && !pre.dino_at(ns@[k]) by {
                        lemma_zero_count_no_dino_neighbor(*self, q, ns@[k]);
                    }
                }
                let ghost w1 = work@;
                let ghost nsv = ns@;
                work.append(&mut ns);
                proof {
                    assert forall|n: Position| #[trigger] w1.contains(n) implies work@.contains(
                        n,
                    ) by {
                        let k = choose|k: int| 0 <= k < w1.len() && w1[k] == n;
                        assert(work@[k] == n);
                    }
                    assert forall|n: Position| #[trigger] nsv.contains(n) implies work@.contains(
                        n,
                    ) by {
                        let k = choose|k: int| 0 <= k < nsv.len() && nsv[k] == n;
                        assert(work@[w1.len() + k] == n);
                    }
                    // the pending cells all adjoin a fresh zero-count cell
                    assert forall|k: int| 0 <= k < work@.len() implies pre.in_bounds(
                        #[trigger] work@[k],
                    ) && !pre.dino_at(work@[k]) && exists|rr: Position|
                        fresh_at(pre, *self, rr) && pre.dino_count(rr) == 0 && pre.is_neighbor(
                            rr,
                            work@[k],
                        ) by {
                        if k < w1.len() {
                            assert(work@[k] == w0[k]);
                            let rr = choose|rr: Position|
                                fresh_at(pre, sa, rr) && pre.dino_count(rr) == 0 && pre.is_neighbor(
                                    rr,
                                    w0[k],
                                );
                            assert(fresh_at(pre, *self, rr) && pre.dino_count(rr) == 0
                                && pre.is_neighbor(rr, work@[k]));
                        } else {
                            assert(work@[k] == nsv[k - w1.len()]);
                            assert(ns@ == Seq::<Position>::empty());
                            assert(self.is_neighbor(q, nsv[k - w1.len()]));
                            assert(fresh_at(pre, *self, q) && pre.dino_count(q) == 0
                                && pre.is_neighbor(q, work@[k]));
                        }
                    }
                    // no unflagged neighbor of a fresh zero-count cell is missed
                    assert forall|p2: Position, n: Position|
                        fresh_at(pre, *self, p2) && pre.dino_count(p2) == 0
                            && #[trigger] pre.is_neighbor(p2, n) && !pre.flag_at(n)
                            && !self.won implies (self.seen_at(n) || work@.contains(n)) by {
                        if p2 == q {
                            assert(nsv.contains(n));
                        } else {
                            assert(fresh_at(pre, sa, p2));
                            assert(!sa.won);
                            if sa.seen_at(n) {
                                assert(self.seen_at(n));
                            } else {
                                assert(w0.contains(n));
                                if n == q {
                                    assert(self.seen_at(n));
                                } else {
                                    assert(w1.contains(n));
                                }
                            }
                        }
                    }
                }
            } else {
                proof {
                    // no cell was appended: transfer the pending-cell facts
                    assert forall|k: int| 0 <= k < work@.len() implies exists|rr: Position|
                        fresh_at(pre, *self, rr) && pre.dino_count(rr) == 0 && pre.is_neighbor(
                            rr,
                            #[trigger] work@[k],
                        ) by {
                        let rr = choose|rr: Position|
                            fresh_at(pre, sa, rr) && pre.dino_count(rr) == 0 && pre.is_neighbor(
                                rr,
                                w0[k],
                            );
                        assert(fresh_at(pre, *self, rr) && pre.dino_count(rr) == 0
                            && pre.is_neighbor(rr, work@[k]));
                    }
                    assert forall|p2: Position, n: Position|
                        fresh_at(pre, *self, p2) && pre.dino_count(p2) == 0
                            && #[trigger] pre.is_neighbor(p2, n) && !pre.flag_at(n)
                            && !self.won implies (self.seen_at(n) || work@.contains(n)) by {
                        if p2 != q {
                            assert(fresh_at(pre, sa, p2));
                            assert(!sa.won);
                            if sa.seen_at(n) {
                                assert(self.seen_at(n));
                            } else {
                                assert(w0.contains(n));
                                if n == q {
                                    assert(self.seen_at(n));
                                }
                            }
                        }
                    }
                }
            }
        }
        PositionResult::Clear
    }

    /// Classify the cell at `pos` for presentation. While the game
    /// runs, a cell shows as flagged, as revealed with its
    /// adjacent-dino count, or as hidden. Once the game has ended, a
    /// flag shows whether it was placed on a dino, and unflagged dinos
    /// show themselves.
    pub fn cell_info(&self, pos: &Position) -> (r: CellInfo)
        requires
            self.wf(),
            self.in_bounds(*pos),
        ensures
            r == if !self.game_over {
                if self.flag_at(*pos) {
                    CellInfo::Flagged
                } else if self.seen_at(*pos) {
                    CellInfo::Revealed(self.dino_count(*pos) as usize)
                } else {
                    CellInfo::Hidden
                }
            } else {
                if self.flag_at(*pos) {
                    if self.dino_at(*pos) {
                        CellInfo::FlagCorrect
                    } else {
                        CellInfo::FlagWrong
                    }
                } else if self.dino_at(*pos) {
                    CellInfo::Dino
                } else if self.seen_at(*pos) {
                    CellInfo::Revealed(self.dino_count(*pos) as usize)
                } else {
                    CellInfo::Hidden
                }
            },
    {
        let i = self.cell_index(pos);
        if !self.game_over {
            if self.flags[i] {
                CellInfo::Flagged
            } else if self.seen[i] {
                CellInfo::Revealed(self.get_neighboring_dino_count(pos))
            } else {
                CellInfo::Hidden
            }
        } else {
            if self.flags[i] {
                if self.dinos[i] {
                    CellInfo::FlagCorrect
                } else {
                    CellInfo::FlagWrong
                }
            } else if self.dinos[i] {
                CellInfo::Dino
            } else if self.seen[i] {
                CellInfo::Revealed(self.get_neighboring_dino_count(pos))
            } else {
                CellInfo::Hidden
            }
        }
    }
}

impl Default for Dinomite {
    /// The stock board: 9 columns, 8 rows, 9 dinos.
    fn default() -> (r: Self)
        ensures
            r.wf(),
            r.width == 9,
            r.height == 8,
            r.num_dinos == 9,
            r.num_seen == 0,
            r.num_flags == 0,
            !r.game_over,
            !r.won,
    {
        Dinomite::new(9, 8, 9)
    }
}

/// The dimensions and the dino layout of `post` are those of `pre`.
pub open spec fn same_board(pre: Dinomite, post: Dinomite) -> bool {
    &&& post.width == pre.width
    &&& post.height == pre.height
    &&& post.dinos@ == pre.dinos@
    &&& post.num_dinos == pre.num_dinos
}

/// `post` is `pre`, unchanged in every observable part.
pub open spec fn unchanged(pre: Dinomite, post: Dinomite) -> bool {
    &&& same_board(pre, post)
    &&& post.seen@ == pre.seen@
    &&& post.num_seen == pre.num_seen
    &&& post.flags@ == pre.flags@
    &&& post.num_flags == pre.num_flags
    &&& post.game_over == pre.game_over
    &&& post.won == pre.won
}

/// `post` is `pre` with the flag at `p` taken away.
pub open spec fn flag_removed(pre: Dinomite, post: Dinomite, p: Position) -> bool {
    &&& same_board(pre, post)
    &&& post.seen@ == pre.seen@
    &&& post.num_seen == pre.num_seen
    &&& post.flags@ == pre.flags@.update(pre.cell(p), false)
    &&& post.num_flags == pre.num_flags - 1
    &&& post.game_over == pre.game_over
    &&& post.won == pre.won
}

/// `post` is `pre` with a flag placed at `p`.
pub open spec fn flag_added(pre: Dinomite, post: Dinomite, p: Position) -> bool {
    &&& same_board(pre, post)
    &&& post.seen@ == pre.seen@
    &&& post.num_seen == pre.num_seen
    &&& post.flags@ == pre.flags@.update(pre.cell(p), true)
    &&& post.num_flags == pre.num_flags + 1
    &&& post.game_over == pre.game_over
    &&& post.won == pre.won
}

/// What a flag toggle at `p` does: nothing once the game has ended, on
/// a revealed cell, or when placing a flag at the flag budget; else it
/// removes a standing flag or places a new one.
pub open spec fn toggle_rel(pre: Dinomite, post: Dinomite, p: Position) -> bool {
    if pre.game_over || pre.won {
        unchanged(pre, post)
    } else if pre.seen_at(p) {
        unchanged(pre, post)
    } else if pre.flag_at(p) {
        flag_removed(pre, post, p)
    } else if pre.num_flags == pre.num_dinos {
        unchanged(pre, post)
    } else {
        flag_added(pre, post, p)
    }
}

/// `q` was newly revealed between `pre` and `post`.
pub open spec fn fresh_at(pre: Dinomite, post: Dinomite, q: Position) -> bool {
    post.seen_at(q) && !pre.seen_at(q)
}

/// `post` is `pre` with exactly the cell at `p` newly revealed; the
/// game is won exactly if `p` was the last unrevealed non-dino cell.
pub open spec fn reveal_one_rel(pre: Dinomite, post: Dinomite, p: Position) -> bool {
    &&& same_board(pre, post)
    &&& post.flags@ == pre.flags@
    &&& post.num_flags == pre.num_flags
    &&& post.seen@ == pre.seen@.update(pre.cell(p), true)
    &&& post.num_seen == pre.num_seen + 1
    &&& (post.won <==> pre.num_seen == pre.total() - pre.num_dinos - 1)
    &&& post.game_over == post.won
}

/// `post` is `pre` after the cascading reveal that starts at `p`, a
/// fresh cell without adjacent dinos:
/// - flags and dinos did not move, and revealed cells stay revealed;
/// - `p` itself is revealed;
/// - every newly revealed cell was neither flagged nor a dino;
/// - every newly revealed cell is `p` or a neighbor of some newly
///   revealed cell without adjacent dinos;
/// - unless the game was won on the way, every unflagged neighbor of a
///   newly revealed cell without adjacent dinos is revealed as well;
/// - the game is won exactly if every non-dino cell is now revealed,
///   and it is over exactly if it is won.
pub open spec fn reveal_cascade_rel(pre: Dinomite, post: Dinomite, p: Position) -> bool {
    &&& same_board(pre, post)
    &&& post.flags@ == pre.flags@
    &&& post.num_flags == pre.num_flags
    &&& post.seen_at(p)
    &&& forall|q: Position| #![trigger pre.seen_at(q)] #![trigger post.seen_at(q)]
        pre.seen_at(q) ==> post.seen_at(q)
    &&& forall|q: Position| #[trigger] fresh_at(pre, post, q) ==> !pre.flag_at(q) && !pre.dino_at(
        q,
    )
    &&& forall|q: Position| #[trigger] fresh_at(pre, post, q) ==> q == p || exists|r: Position|
        fresh_at(pre, post, r) && pre.dino_count(r) == 0 && pre.is_neighbor(r, q)
    &&& forall|q: Position, n: Position|
        fresh_at(pre, post, q) && pre.dino_count(q) == 0 && #[trigger] pre.is_neighbor(q, n)
            && !pre.flag_at(n) && !post.won ==> post.seen_at(n)
    &&& (post.won <==> post.num_seen == pre.total() - pre.num_dinos)
    &&& post.game_over == post.won
}

/// A neighbor of a cell without adjacent dinos hides no dino.
pub proof fn lemma_zero_count_no_dino_neighbor(b: Dinomite, p: Position, q: Position)
    requires
        b.wf(),
        b.in_bounds(p),
        b.dino_count(p) == 0,
        b.is_neighbor(p, q),
    ensures
        !b.dino_at(q),
{
    assert(b.dino_at_xy(q.0 as int, q.1 as int) == 0);
}

/// After writing `true` at the cell of `p`, exactly `p` joins the
/// revealed positions.
proof fn lemma_seen_insert(pre: Dinomite, post: Dinomite, p: Position)
    requires
        1 <= pre.width,
        pre.seen@.len() == pre.total(),
        pre.in_bounds(p),
        post.width == pre.width,
        post.height == pre.height,
        post.seen@ == pre.seen@.update(pre.cell(p), true),
    ensures
        forall|q: Position| #[trigger] post.seen_at(q) <==> pre.seen_at(q) || q == p,
{
    lemma_cell_bound(pre.width as int, pre.height as int, p.0 as int, p.1 as int);
    assert forall|q: Position| #[trigger] post.seen_at(q) <==> pre.seen_at(q) || q == p by {
        if post.in_bounds(q) {
            lemma_cell_bound(pre.width as int, pre.height as int, q.0 as int, q.1 as int);
            if pre.cell(q) == pre.cell(p) {
                lemma_cell_injective(
                    pre.width as int,
                    q.0 as int,
                    q.1 as int,
                    p.0 as int,
                    p.1 as int,
                );
            }
        }
    }
}

/// `post` is `pre` after a dino was hit: the game is over, nothing
/// else moved, and in particular the dino cell was not revealed.
pub open spec fn lost_rel(pre: Dinomite, post: Dinomite) -> bool {
    &&& same_board(pre, post)
    &&& post.seen@ == pre.seen@
    &&& post.num_seen == pre.num_seen
    &&& post.flags@ == pre.flags@
    &&& post.num_flags == pre.num_flags
    &&& post.game_over
    &&& post.won == pre.won
}

} // verus!
