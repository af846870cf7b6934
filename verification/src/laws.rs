//! Laws that relate several operations of the board engine.
//!
//! Each proof function here states a property of the engine that spans
//! more than one call or quantifies over the whole board, proved from
//! the contracts in [`crate::board`].

use crate::board::fresh_at;
use crate::board::lemma_cell_bound;
use crate::board::lemma_zero_count_no_dino_neighbor;
use crate::board::nb_hi;
use crate::board::nb_lo;
use crate::board::neighbor_count;
use crate::board::neighbor_of;
use crate::board::reveal_cascade_rel;
use crate::board::toggle_rel;
use crate::board::Dinomite;
use crate::board::Position;
use crate::counting::lemma_count_disjoint_full;
use vstd::prelude::*;

verus! {

/// Neighbor counts by cell category, on a board of at least 2 x 2
/// cells: a corner cell has exactly 3 distinct neighbors, an edge
/// (non-corner) cell 5, and an interior cell 8 — and no cell is its
/// own neighbor. Together with the contract of
/// [`Dinomite::get_neighbors`], whose result holds `neighbor_count`
/// distinct cells, this pins the size of every neighbor enumeration.
pub proof fn lemma_neighbor_counts(width: int, height: int, p: Position)
    requires
        2 <= width,
        2 <= height,
        0 <= p.0 < width,
        0 <= p.1 < height,
    ensures
        !neighbor_of(width, height, p, p),
        ((p.0 == 0 || p.0 == width - 1) && (p.1 == 0 || p.1 == height - 1)) ==> neighbor_count(
            width,
            height,
            p,
        ) == 3,
        ((p.0 == 0 || p.0 == width - 1) != (p.1 == 0 || p.1 == height - 1)) ==> neighbor_count(
            width,
            height,
            p,
        ) == 5,
        (0 < p.0 < width - 1 && 0 < p.1 < height - 1) ==> neighbor_count(width, height, p) == 8,
{
    let bw = nb_hi(p.0 as int, width) - nb_lo(p.0 as int) + 1;
    let bh = nb_hi(p.1 as int, height) - nb_lo(p.1 as int) + 1;
    assert(neighbor_count(width, height, p) == bw * bh - 1);
    assert(bw == if p.0 == 0 || p.0 == width - 1 {
        2int
    } else {
        3int
    });
    assert(bh == if p.1 == 0 || p.1 == height - 1 {
        2int
    } else {
        3int
    });
    if bw == 2 && bh == 2 {
        assert(bw * bh == 4);
    } else if bw == 2 && bh == 3 {
        assert(bw * bh == 6);
    } else if bw == 3 && bh == 2 {
        assert(bw * bh == 6);
    } else {
        assert(bw * bh == 9);
    }
}

/// A cascade path in `pre`: consecutive cells are neighbors, every
/// cell but the last is unrevealed, unflagged and without adjacent
/// dinos, and the last cell is unflagged.
pub open spec fn cascade_path(pre: Dinomite, path: Seq<Position>) -> bool {
    &&& path.len() >= 1
    &&& pre.in_bounds(path[0])
    &&& forall|i: int|
        0 <= i < path.len() - 1 ==> (!pre.seen_at(#[trigger] path[i]) && !pre.flag_at(path[i])
            && pre.dino_count(path[i]) == 0 && pre.is_neighbor(path[i], path[i + 1]))
    &&& !pre.flag_at(path.last())
}

/// In a well-formed board that was won, every non-dino cell has been
/// revealed.
pub proof fn lemma_won_all_revealed(b: Dinomite)
    requires
        b.wf(),
        b.won,
    ensures
        forall|q: Position| b.in_bounds(q) && !b.dino_at(q) ==> b.seen_at(q),
{
    lemma_count_disjoint_full(b.seen@, b.dinos@);
    assert forall|q: Position| b.in_bounds(q) && !b.dino_at(q) implies b.seen_at(q) by {
        lemma_cell_bound(b.width as int, b.height as int, q.0 as int, q.1 as int);
    }
}

/// The cascading reveal reaches its whole region: after a reveal of a
/// fresh zero-count cell turned `pre` into `post`, every cell at the
/// end of a cascade path from that cell — each step through a fresh,
/// unflagged cell without adjacent dinos, ending in an unflagged cell
/// — is revealed. The bordering numbered cells are the path ends.
pub proof fn lemma_cascade_reveals(pre: Dinomite, post: Dinomite, path: Seq<Position>)
    requires
        pre.wf(),
        post.wf(),
        !pre.game_over,
        !pre.won,
        !pre.seen_at(path[0]),
        !pre.dino_at(path[0]),
        pre.dino_count(path[0]) == 0,
        reveal_cascade_rel(pre, post, path[0]),
        cascade_path(pre, path),
    ensures
        post.seen_at(path.last()),
    decreases path.len(),
{
    if path.len() == 1 {
        assert(post.seen_at(path[0]));
    } else {
        let prefix = path.drop_last();
        assert(cascade_path(pre, prefix));
        lemma_cascade_reveals(pre, post, prefix);
        let a = path[path.len() - 2];
        let b = path.last();
        assert(prefix.last() == a);
        assert(fresh_at(pre, post, a));
        assert(pre.is_neighbor(a, b));
        if post.won {
            lemma_won_all_revealed(post);
            lemma_zero_count_no_dino_neighbor(pre, a, b);
            assert(!post.dino_at(b));
            assert(post.in_bounds(b));
        } else {
            assert(!pre.flag_at(b));
        }
        assert(post.seen_at(b));
    }
}

/// Toggling the flag of the same cell twice restores the board
/// entirely, whatever state it was in.
pub proof fn lemma_toggle_twice(a: Dinomite, b: Dinomite, c: Dinomite, p: Position)
    requires
        a.wf(),
        b.wf(),
        c.wf(),
        a.in_bounds(p),
        toggle_rel(a, b, p),
        toggle_rel(b, c, p),
    ensures
        c.width == a.width,
        c.height == a.height,
        c.dinos@ == a.dinos@,
        c.seen@ == a.seen@,
        c.flags@ == a.flags@,
        c.num_dinos == a.num_dinos,
        c.num_seen == a.num_seen,
        c.num_flags == a.num_flags,
        c.game_over == a.game_over,
        c.won == a.won,
{
    if !(a.game_over || a.won) && !a.seen_at(p) {
        lemma_cell_bound(a.width as int, a.height as int, p.0 as int, p.1 as int);
        if a.flag_at(p) {
            // the flag was removed, then placed again
            assert(!b.flag_at(p));
            assert(!b.seen_at(p));
            assert(c.flags@ =~= a.flags@);
        } else if a.num_flags == a.num_dinos {
            // both toggles were refused at the flag budget
        } else {
            // a flag was placed, then removed again
            assert(b.flag_at(p));
            assert(!b.seen_at(p));
            assert(c.flags@ =~= a.flags@);
        }
    }
}

} // verus!
