//! Walking the floor around the bot: which cells of a square room it can
//! reach from where it stands, the way back to any of them, and the height
//! at which a map column is walked.
//!
//! A room is a square of `width * width` cells in local coordinates `(a, b)`,
//! `0 <= a, b < width`; its passable cells are given row by row.
use vstd::prelude::*;

verus! {

/// Position of cell `(a, b)` in a grid stored row by row, `w` cells a row.
pub open spec fn cell_index(w: int, a: int, b: int) -> int {
    a * w + b
}

proof fn lemma_cell_index(w: int, a: int, b: int)
    requires
        0 <= a < w,
        0 <= b < w,
    ensures
        0 <= a * w,
        0 <= cell_index(w, a, b) < w * w,
{
    assert(0 <= a * w) by (nonlinear_arith)
        requires
            0 <= a,
            0 <= w,
    ;
    assert(a * w + w <= w * w) by (nonlinear_arith)
        requires
            0 <= a < w,
    ;
}

proof fn lemma_cell_index_injective(w: int, a: int, b: int, c: int, d: int)
    requires
        0 <= a,
        0 <= c,
        0 <= b < w,
        0 <= d < w,
        cell_index(w, a, b) == cell_index(w, c, d),
    ensures
        a == c,
        b == d,
{
    if a < c {
        assert(a * w + w <= c * w) by (nonlinear_arith)
            requires
                a < c,
                0 <= w,
        ;
    } else if c < a {
        assert(c * w + w <= a * w) by (nonlinear_arith)
            requires
                c < a,
                0 <= w,
        ;
    }
}

/// How many entries of `s` are true.
pub open spec fn count_true(s: Seq<bool>) -> nat
    decreases s.len(),
{
    if s.len() == 0 {
        0
    } else {
        count_true(s.drop_last()) + if s.last() {
            1nat
        } else {
            0nat
        }
    }
}

proof fn lemma_count_true_bound(s: Seq<bool>)
    ensures
        count_true(s) <= s.len(),
    decreases s.len(),
{
    if s.len() > 0 {
        lemma_count_true_bound(s.drop_last());
    }
}

proof fn lemma_count_true_none(s: Seq<bool>)
    requires
        forall|k: int| 0 <= k < s.len() ==> !s[k],
    ensures
        count_true(s) == 0,
    decreases s.len(),
{
    if s.len() > 0 {
        lemma_count_true_none(s.drop_last());
    }
}

proof fn lemma_count_true_mark(s: Seq<bool>, k: int)
    requires
        0 <= k < s.len(),
        !s[k],
    ensures
        count_true(s.update(k, true)) == count_true(s) + 1,
    decreases s.len(),
{
    let t = s.update(k, true);
    if k == s.len() - 1 {
        assert(t.drop_last() =~= s.drop_last());
    } else {
        assert(t.drop_last() =~= s.drop_last().update(k, true));
        lemma_count_true_mark(s.drop_last(), k);
    }
}


/// A cell of the room, in local coordinates.
pub type Cell = (usize, usize);

/// `c` lies in a room `w` cells wide.
pub open spec fn in_room(w: int, c: Cell) -> bool {
    c.0 < w && c.1 < w
}

/// Where cell `c` stands in the row-by-row grid.
pub open spec fn index_of(w: int, c: Cell) -> int {
    cell_index(w, c.0 as int, c.1 as int)
}

/// `c` lies in the room and one can stand on it.
pub open spec fn open_cell(w: int, pass: Seq<bool>, c: Cell) -> bool {
    in_room(w, c) && pass[index_of(w, c)]
}

/// `p` and `q` share a side.
pub open spec fn side_by_side(p: Cell, q: Cell) -> bool {
    ||| p.1 == q.1 && (p.0 + 1 == q.0 || q.0 + 1 == p.0)
    ||| p.0 == q.0 && (p.1 + 1 == q.1 || q.1 + 1 == p.1)
}

/// The cells in the order the search reached them, with the cell each was
/// reached from: `cells[0]` is the start, `parent[i] < i` for every other cell.
pub struct RoomScan {
    pub cells: Vec<Cell>,
    pub parent: Vec<usize>,
}

/// Which side of `c` the side-by-side cell `q` is, in the order the search
/// looks at them: 0 one further in `a`, 1 one back in `a`, 2 one further in
/// `b`, 3 one back in `b`.
pub open spec fn side_of(c: Cell, q: Cell) -> int {
    if q.0 == c.0 + 1 && q.1 == c.1 {
        0
    } else if q.0 + 1 == c.0 && q.1 == c.1 {
        1
    } else if q.0 == c.0 && q.1 == c.1 + 1 {
        2
    } else {
        3
    }
}

/// Cells reached from the same cell come in the order of their sides.
pub open spec fn siblings_in_side_order(cells: Seq<Cell>, parent: Seq<usize>) -> bool {
    forall|i: int, j: int|
        0 < i < j < cells.len() && #[trigger] parent[i] == #[trigger] parent[j] ==> side_of(
            cells[parent[i] as int],
            cells[i],
        ) < side_of(cells[parent[j] as int], cells[j])
}

/// What a finished search of a room from `start` holds: every reached cell
/// after the start is open and side by side with the cell it was reached
/// from, which was reached before it (and the cells it was reached from come
/// in the order the cells were; cells reached from one cell come in the
/// order of their sides), no cell comes twice, and every open cell that is
/// side by side with a reached cell was reached too, from a cell reached no
/// later than that one (so each cell is reached from the first reached cell
/// beside it).
pub open spec fn room_reached(w: int, pass: Seq<bool>, start: Cell, cells: Seq<Cell>, parent: Seq<usize>) -> bool {
    &&& cells.len() >= 1
    &&& cells.len() == parent.len()
    &&& cells[0] == start
    &&& parent[0] == 0
    &&& forall|i: int| 0 <= i < cells.len() ==> in_room(w, #[trigger] cells[i])
    &&& forall|i: int, j: int| 0 <= i < j < cells.len() ==> cells[i] != cells[j]
    &&& forall|i: int|
        0 < i < cells.len() ==> (#[trigger] parent[i]) < i && side_by_side(cells[parent[i] as int], cells[i])
            && open_cell(w, pass, cells[i])
    &&& forall|i: int, j: int| 0 < i < j < cells.len() ==> parent[i] <= parent[j]
    &&& siblings_in_side_order(cells, parent)
    &&& forall|i: int, q: Cell|
        0 <= i < cells.len() && #[trigger] side_by_side(cells[i], q) && open_cell(w, pass, q) ==> reached_from(
            cells,
            parent,
            q,
            i,
        )
}

/// `q` is one of `cells`, the start or a cell reached from a cell at or
/// before index `i`.
pub open spec fn reached_from(cells: Seq<Cell>, parent: Seq<usize>, q: Cell, i: int) -> bool {
    exists|j: int| 0 <= j < cells.len() && #[trigger] cells[j] == q && (j == 0 || parent[j] <= i)
}

proof fn lemma_reached_from_grows(c0: Seq<Cell>, p0: Seq<usize>, c1: Seq<Cell>, p1: Seq<usize>, q: Cell, i: int)
    requires
        reached_from(c0, p0, q, i),
        c1.len() >= c0.len(),
        forall|j: int| 0 <= j < c0.len() ==> c1[j] == c0[j] && p1[j] == p0[j],
    ensures
        reached_from(c1, p1, q, i),
{
    let j = choose|j: int| 0 <= j < c0.len() && #[trigger] c0[j] == q && (j == 0 || p0[j] <= i);
    assert(c1[j] == q && (j == 0 || p1[j] <= i));
}

/// What holds between the steps of the search, `head` being the next cell
/// whose sides are looked at.
spec fn scan_inv(w: int, pass: Seq<bool>, cells: Seq<Cell>, parent: Seq<usize>, seen: Seq<bool>, head: int) -> bool {
    &&& pass.len() == w * w
    &&& seen.len() == w * w
    &&& cells.len() >= 1
    &&& cells.len() == parent.len()
    &&& parent[0] == 0
    &&& 0 <= head <= cells.len()
    &&& count_true(seen) == cells.len()
    &&& forall|i: int| 0 <= i < cells.len() ==> in_room(w, #[trigger] cells[i])
    &&& forall|i: int| 0 <= i < cells.len() ==> seen[index_of(w, #[trigger] cells[i])]
    &&& forall|k: int| 0 <= k < seen.len() && #[trigger] seen[k] ==> exists|i: int| 0 <= i < cells.len() && index_of(w, #[trigger] cells[i]) == k
    &&& forall|i: int, j: int| 0 <= i < j < cells.len() ==> cells[i] != cells[j]
    &&& forall|i: int|
        0 < i < cells.len() ==> (#[trigger] parent[i]) <= head && parent[i] < i && side_by_side(
            cells[parent[i] as int],
            cells[i],
        ) && open_cell(w, pass, cells[i])
    &&& forall|i: int, j: int| 0 < i < j < cells.len() ==> parent[i] <= parent[j]
}

/// Looks at cell `q`, a side neighbour of the cell at `head`: an open cell
/// not reached yet is added, reached from `head`.
fn visit(
    width: usize,
    passable: &Vec<bool>,
    seen: &mut Vec<bool>,
    cells: &mut Vec<Cell>,
    parent: &mut Vec<usize>,
    head: usize,
    q: Cell,
)
    requires
        scan_inv(width as int, passable@, old(cells)@, old(parent)@, old(seen)@, head as int),
        head < old(cells)@.len(),
        in_room(width as int, q),
        side_by_side(old(cells)@[head as int], q),
    ensures
        scan_inv(width as int, passable@, final(cells)@, final(parent)@, final(seen)@, head as int),
        final(cells)@.len() >= old(cells)@.len(),
        forall|i: int| 0 <= i < old(cells)@.len() ==> final(cells)@[i] == old(cells)@[i],
        forall|i: int| 0 <= i < old(parent)@.len() ==> final(parent)@[i] == old(parent)@[i],
        forall|k: int| 0 <= k < old(seen)@.len() && old(seen)@[k] ==> final(seen)@[k],
        open_cell(width as int, passable@, q) ==> reached_from(final(cells)@, final(parent)@, q, head as int),
        final(cells)@.len() <= old(cells)@.len() + 1,
        final(cells)@.len() > old(cells)@.len() ==> final(cells)@.last() == q && final(parent)@.last() == head,
{
    let n = passable.len();
    proof {
        lemma_cell_index(width as int, q.0 as int, q.1 as int);
    }
    let k = q.0 * width + q.1;
    if seen[k] {
        proof {
            let w = width as int;
            let i = choose|i: int| 0 <= i < cells@.len() && index_of(w, #[trigger] cells@[i]) == k as int;
            assert(in_room(w, cells@[i]));
            lemma_cell_index_injective(w, cells@[i].0 as int, cells@[i].1 as int, q.0 as int, q.1 as int);
            assert(cells@[i] == q);
            assert(i == 0 || parent@[i] <= head);
        }
        return;
    }
    if !passable[k] {
        return;
    }
    let ghost s0 = seen@;
    let ghost c0 = cells@;
    let ghost p0 = parent@;
    proof {
        lemma_count_true_mark(s0, k as int);
        lemma_count_true_bound(s0);
        assert forall|i: int| 0 <= i < c0.len() implies c0[i] != q by {
            if c0[i] == q {
                assert(s0[index_of(width as int, c0[i])]);
            }
        }
    }
    seen.set(k, true);
    cells.push(q);
    parent.push(head);
    proof {
        let w = width as int;
        let c1 = cells@;
        assert(c1[c1.len() - 1] == q);
        assert forall|kk: int| 0 <= kk < seen@.len() && #[trigger] seen@[kk] implies exists|i: int|
            0 <= i < c1.len() && index_of(w, #[trigger] c1[i]) == kk by {
            if kk == k as int {
                assert(index_of(w, c1[c1.len() - 1]) == kk);
            } else {
                assert(s0[kk]);
                let i = choose|i: int| 0 <= i < c0.len() && index_of(w, #[trigger] c0[i]) == kk;
                assert(c1[i] == c0[i]);
            }
        }
        assert(seen@ == s0.update(k as int, true));
        assert forall|i: int| 0 <= i < c1.len() implies seen@[index_of(w, #[trigger] c1[i])] by {
            if i < c0.len() {
                assert(c1[i] == c0[i]);
                assert(in_room(w, c0[i]));
                lemma_cell_index(w, c0[i].0 as int, c0[i].1 as int);
                assert(s0[index_of(w, c0[i])]);
            } else {
                assert(c1[i] == q);
                assert(index_of(w, q) == k as int);
            }
        }
        assert forall|i: int, j: int| 0 <= i < j < c1.len() implies c1[i] != c1[j] by {
            if j < c0.len() {
                assert(c1[i] == c0[i] && c1[j] == c0[j]);
            } else {
                assert(c1[i] == c0[i]);
            }
        }
        assert forall|i: int|
            0 < i < c1.len() implies (#[trigger] parent@[i]) <= head && parent@[i] < i && side_by_side(
            c1[parent@[i] as int],
            c1[i],
        ) && open_cell(w, passable@, c1[i]) by {
            if i < c0.len() {
                assert(c1[i] == c0[i] && parent@[i] == p0[i]);
                assert(c1[p0[i] as int] == c0[p0[i] as int]);
            } else {
                assert(parent@[i] == head);
                assert(c1[head as int] == c0[head as int]);
            }
        }
        assert forall|i: int, j: int| 0 < i < j < c1.len() implies parent@[i] <= parent@[j] by {
            if j < c0.len() {
                assert(parent@[i] == p0[i] && parent@[j] == p0[j]);
            } else {
                assert(parent@[i] == p0[i] || i == j);
            }
        }
        assert(parent@[c1.len() - 1] == head);
        assert(reached_from(c1, parent@, q, head as int));
    }
}


/// Every open cell that is side by side with one of the first `upto` cells
/// was reached, from a cell no later than that one.
spec fn sides_reached(w: int, pass: Seq<bool>, cells: Seq<Cell>, parent: Seq<usize>, upto: int) -> bool {
    forall|i: int, q: Cell|
        0 <= i < upto && #[trigger] side_by_side(cells[i], q) && open_cell(w, pass, q) ==> reached_from(
            cells,
            parent,
            q,
            i,
        )
}

/// `q` is side `d` of `c`: one further in `a`, one back in `a`, one further
/// in `b`, one back in `b`.
pub open spec fn nth_side(c: Cell, q: Cell, d: int) -> bool {
    if d == 0 {
        q.0 == c.0 + 1 && q.1 == c.1
    } else if d == 1 {
        q.0 + 1 == c.0 && q.1 == c.1
    } else if d == 2 {
        q.0 == c.0 && q.1 == c.1 + 1
    } else {
        q.0 == c.0 && q.1 + 1 == c.1
    }
}

/// The first `k` sides of the cell at `head` have been looked at.
spec fn sides_done(w: int, pass: Seq<bool>, cells: Seq<Cell>, parent: Seq<usize>, head: int, k: int) -> bool {
    forall|q: Cell, d: int|
        0 <= d < k && #[trigger] nth_side(cells[head], q, d) && open_cell(w, pass, q) ==> reached_from(
            cells,
            parent,
            q,
            head,
        )
}

proof fn lemma_sides_grow(w: int, pass: Seq<bool>, c0: Seq<Cell>, p0: Seq<usize>, c1: Seq<Cell>, p1: Seq<usize>, upto: int)
    requires
        sides_reached(w, pass, c0, p0, upto),
        upto <= c0.len(),
        c1.len() >= c0.len(),
        forall|j: int| 0 <= j < c0.len() ==> c1[j] == c0[j] && p1[j] == p0[j],
    ensures
        sides_reached(w, pass, c1, p1, upto),
{
    assert forall|i: int, q: Cell|
        0 <= i < upto && #[trigger] side_by_side(c1[i], q) && open_cell(w, pass, q) implies reached_from(c1, p1, q, i) by {
        assert(c1[i] == c0[i]);
        lemma_reached_from_grows(c0, p0, c1, p1, q, i);
    }
}

proof fn lemma_done_grow(
    w: int,
    pass: Seq<bool>,
    c0: Seq<Cell>,
    p0: Seq<usize>,
    c1: Seq<Cell>,
    p1: Seq<usize>,
    head: int,
    k: int,
)
    requires
        sides_done(w, pass, c0, p0, head, k),
        0 <= head < c0.len(),
        c1.len() >= c0.len(),
        forall|j: int| 0 <= j < c0.len() ==> c1[j] == c0[j] && p1[j] == p0[j],
    ensures
        sides_done(w, pass, c1, p1, head, k),
{
    assert forall|q: Cell, d: int|
        0 <= d < k && #[trigger] nth_side(c1[head], q, d) && open_cell(w, pass, q) implies reached_from(
        c1,
        p1,
        q,
        head,
    ) by {
        assert(c1[head] == c0[head]);
        lemma_reached_from_grows(c0, p0, c1, p1, q, head);
    }
}

proof fn lemma_side_outside(w: int, pass: Seq<bool>, cells: Seq<Cell>, parent: Seq<usize>, head: int, d: int)
    requires
        sides_done(w, pass, cells, parent, head, d),
        forall|q: Cell| #[trigger] nth_side(cells[head], q, d) ==> !in_room(w, q),
    ensures
        sides_done(w, pass, cells, parent, head, d + 1),
{
}

proof fn lemma_close_head(w: int, pass: Seq<bool>, cells: Seq<Cell>, parent: Seq<usize>, head: int)
    requires
        sides_reached(w, pass, cells, parent, head),
        sides_done(w, pass, cells, parent, head, 4),
        0 <= head < cells.len(),
    ensures
        sides_reached(w, pass, cells, parent, head + 1),
{
    let c = cells[head];
    assert forall|i: int, q: Cell|
        0 <= i < head + 1 && #[trigger] side_by_side(cells[i], q) && open_cell(w, pass, q) implies reached_from(
        cells,
        parent,
        q,
        i,
    ) by {
        if i == head {
            if q.0 == c.0 + 1 && q.1 == c.1 {
                assert(nth_side(c, q, 0));
            } else if q.0 + 1 == c.0 && q.1 == c.1 {
                assert(nth_side(c, q, 1));
            } else if q.0 == c.0 && q.1 == c.1 + 1 {
                assert(nth_side(c, q, 2));
            } else {
                assert(nth_side(c, q, 3));
            }
        }
    }
}

/// `visit`, keeping track of which sides of the cell at `head` are done.
fn visit_side(
    width: usize,
    passable: &Vec<bool>,
    seen: &mut Vec<bool>,
    cells: &mut Vec<Cell>,
    parent: &mut Vec<usize>,
    head: usize,
    q: Cell,
    Ghost(d): Ghost<int>,
)
    requires
        scan_inv(width as int, passable@, old(cells)@, old(parent)@, old(seen)@, head as int),
        head < old(cells)@.len(),
        in_room(width as int, q),
        0 <= d < 4,
        nth_side(old(cells)@[head as int], q, d),
        sides_reached(width as int, passable@, old(cells)@, old(parent)@, head as int),
        sides_done(width as int, passable@, old(cells)@, old(parent)@, head as int, d),
        siblings_in_side_order(old(cells)@, old(parent)@),
        forall|i: int| 0 < i < old(cells)@.len() && #[trigger] old(parent)@[i] == head ==> side_of(old(cells)@[head as int], old(cells)@[i]) < d,
    ensures
        scan_inv(width as int, passable@, final(cells)@, final(parent)@, final(seen)@, head as int),
        final(cells)@.len() >= old(cells)@.len(),
        forall|i: int| 0 <= i < old(cells)@.len() ==> final(cells)@[i] == old(cells)@[i],
        sides_reached(width as int, passable@, final(cells)@, final(parent)@, head as int),
        sides_done(width as int, passable@, final(cells)@, final(parent)@, head as int, d + 1),
        siblings_in_side_order(final(cells)@, final(parent)@),
        forall|i: int| 0 < i < final(cells)@.len() && #[trigger] final(parent)@[i] == head ==> side_of(final(cells)@[head as int], final(cells)@[i]) < d + 1,
{
    let ghost w = width as int;
    let ghost c0 = cells@;
    let ghost p0 = parent@;
    visit(width, passable, seen, cells, parent, head, q);
    proof {
        lemma_sides_grow(w, passable@, c0, p0, cells@, parent@, head as int);
        lemma_done_grow(w, passable@, c0, p0, cells@, parent@, head as int, d);
        let c = cells@[head as int];
        assert(c == c0[head as int]);
        let c1 = cells@;
        let p1 = parent@;
        assert(forall|i: int| 0 <= i < c0.len() ==> p1[i] == p0[i]);
        if c1.len() > c0.len() {
            let n = c0.len() as int;
            assert(c1[n] == q && p1[n] == head);
            assert(side_of(c, q) == d);
            assert forall|i: int, j: int|
                0 < i < j < c1.len() && #[trigger] p1[i] == #[trigger] p1[j] implies side_of(
                c1[p1[i] as int],
                c1[i],
            ) < side_of(c1[p1[j] as int], c1[j]) by {
                if j < n {
                    assert(p1[i] == p0[i] && p1[j] == p0[j] && c1[i] == c0[i] && c1[j] == c0[j]);
                    assert(c1[p1[i] as int] == c0[p0[i] as int]);
                } else {
                    assert(p1[i] == p0[i] && c1[i] == c0[i]);
                    assert(p0[i] == head);
                }
            }
            assert forall|i: int| 0 < i < c1.len() && #[trigger] p1[i] == head implies side_of(c1[head as int], c1[i]) < d + 1 by {
                if i < n {
                    assert(p1[i] == p0[i] && c1[i] == c0[i]);
                }
            }
        } else {
            assert(c1 == c0);
            assert(p1 =~= p0);
        }
        assert forall|q2: Cell, d2: int|
            0 <= d2 < d + 1 && #[trigger] nth_side(c, q2, d2) && open_cell(w, passable@, q2) implies reached_from(
            cells@,
            parent@,
            q2,
            head as int,
        ) by {
            if d2 == d {
                assert(q2.0 == q.0 && q2.1 == q.1);
                assert(q2 == q);
            }
        }
    }
}

/// Searches the room breadth first from `start`, through open cells that
/// share a side, taking up reached cells in the order they were reached: the
/// cells reached and the cell each was reached from. The start itself need
/// not be open.
pub fn scan_room(width: usize, passable: &Vec<bool>, start: Cell) -> (r: RoomScan)
    requires
        passable@.len() == width * width,
        in_room(width as int, start),
    ensures
        room_reached(width as int, passable@, start, r.cells@, r.parent@),
{
    let ghost w = width as int;
    let n = passable.len();
    let mut seen: Vec<bool> = Vec::new();
    let mut k: usize = 0;
    while k < n
        invariant
            seen@.len() == k,
            k <= n,
            n == passable@.len(),
            forall|j: int| 0 <= j < k ==> !seen@[j],
        decreases n - k,
    {
        seen.push(false);
        k = k + 1;
    }
    proof {
        lemma_cell_index(w, start.0 as int, start.1 as int);
        lemma_count_true_none(seen@);
        lemma_count_true_mark(seen@, index_of(w, start));
    }
    let first = start.0 * width + start.1;
    seen.set(first, true);
    let mut cells: Vec<Cell> = Vec::new();
    cells.push(start);
    let mut parent: Vec<usize> = Vec::new();
    parent.push(0);
    let mut head: usize = 0;
    proof {
        assert forall|kk: int| 0 <= kk < seen@.len() && #[trigger] seen@[kk] implies exists|i: int|
            0 <= i < cells@.len() && index_of(w, #[trigger] cells@[i]) == kk by {
            assert(kk == first as int);
            assert(index_of(w, cells@[0]) == kk);
        }
    }
    while head < cells.len()
        invariant
            n == passable@.len(),
            passable@.len() == width * width,
            w == width as int,
            cells@[0] == start,
            scan_inv(w, passable@, cells@, parent@, seen@, head as int),
            forall|i: int| 0 < i < cells@.len() ==> (#[trigger] parent@[i]) < head,
            sides_reached(w, passable@, cells@, parent@, head as int),
            siblings_in_side_order(cells@, parent@),
        decreases n - head,
    {
        proof {
            lemma_count_true_bound(seen@);
        }
        let c = cells[head];
        let ghost w0 = w;
        if c.0 + 1 < width {
            visit_side(width, passable, &mut seen, &mut cells, &mut parent, head, (c.0 + 1, c.1), Ghost(0));
        } else {
            proof {
                lemma_side_outside(w0, passable@, cells@, parent@, head as int, 0);
            }
        }
        if c.0 > 0 {
            visit_side(width, passable, &mut seen, &mut cells, &mut parent, head, (c.0 - 1, c.1), Ghost(1));
        } else {
            proof {
                lemma_side_outside(w0, passable@, cells@, parent@, head as int, 1);
            }
        }
        if c.1 + 1 < width {
            visit_side(width, passable, &mut seen, &mut cells, &mut parent, head, (c.0, c.1 + 1), Ghost(2));
        } else {
            proof {
                lemma_side_outside(w0, passable@, cells@, parent@, head as int, 2);
            }
        }
        if c.1 > 0 {
            visit_side(width, passable, &mut seen, &mut cells, &mut parent, head, (c.0, c.1 - 1), Ghost(3));
        } else {
            proof {
                lemma_side_outside(w0, passable@, cells@, parent@, head as int, 3);
            }
        }
        proof {
            lemma_close_head(w0, passable@, cells@, parent@, head as int);
        }
        head = head + 1;
    }
    RoomScan { cells, parent }
}


/// The way from the start to cell `i`: the cells it was reached through, in
/// order, ending with cell `i`.
pub open spec fn way_to(cells: Seq<Cell>, parent: Seq<usize>, i: int) -> Seq<Cell>
    decreases i,
{
    if 0 < i && (parent[i] as int) < i {
        way_to(cells, parent, parent[i] as int).push(cells[i])
    } else {
        seq![cells[i]]
    }
}

/// `way` begins at `start` and steps from cell to side-by-side open cell.
pub open spec fn walk_from(w: int, pass: Seq<bool>, start: Cell, way: Seq<Cell>) -> bool {
    &&& way.len() >= 1
    &&& way[0] == start
    &&& forall|k: int| 0 < k < way.len() ==> side_by_side(way[k - 1], #[trigger] way[k]) && open_cell(w, pass, way[k])
}

pub(crate) proof fn lemma_way_walks(w: int, pass: Seq<bool>, start: Cell, cells: Seq<Cell>, parent: Seq<usize>, i: int)
    requires
        room_reached(w, pass, start, cells, parent),
        0 <= i < cells.len(),
    ensures
        walk_from(w, pass, start, way_to(cells, parent, i)),
        way_to(cells, parent, i).last() == cells[i],
    decreases i,
{
    if i > 0 {
        let p = parent[i] as int;
        assert(p < i);
        lemma_way_walks(w, pass, start, cells, parent, p);
        let a = way_to(cells, parent, p);
        let b = way_to(cells, parent, i);
        assert(b == a.push(cells[i]));
        assert forall|k: int| 0 < k < b.len() implies side_by_side(b[k - 1], #[trigger] b[k]) && open_cell(
            w,
            pass,
            b[k],
        ) by {
            if k < a.len() {
                assert(b[k] == a[k] && b[k - 1] == a[k - 1]);
            } else {
                assert(b[k - 1] == a.last());
            }
        }
    }
}

proof fn lemma_way_nonempty(cells: Seq<Cell>, parent: Seq<usize>, i: int)
    requires
        0 <= i < cells.len(),
        cells.len() == parent.len(),
        forall|j: int| 0 < j < cells.len() ==> #[trigger] parent[j] < j,
    ensures
        way_to(cells, parent, i).len() >= 1,
    decreases i,
{
    if i > 0 {
        lemma_way_nonempty(cells, parent, parent[i] as int);
    }
}

/// Cells reached later have ways at least as long.
proof fn lemma_way_len_monotone(w: int, pass: Seq<bool>, start: Cell, cells: Seq<Cell>, parent: Seq<usize>, a: int, b: int)
    requires
        room_reached(w, pass, start, cells, parent),
        0 <= a <= b < cells.len(),
    ensures
        way_to(cells, parent, a).len() <= way_to(cells, parent, b).len(),
    decreases b,
{
    if a == b {
    } else if a == 0 {
        lemma_way_nonempty(cells, parent, b);
    } else {
        let pa = parent[a] as int;
        let pb = parent[b] as int;
        assert(pa < a && pb < b && pa <= pb);
        lemma_way_len_monotone(w, pass, start, cells, parent, pa, pb);
    }
}

/// The `k`-th cell of a walk from the start was reached, by a way of at
/// most `k + 1` cells.
pub(crate) proof fn lemma_walk_depth(
    w: int,
    pass: Seq<bool>,
    start: Cell,
    cells: Seq<Cell>,
    parent: Seq<usize>,
    walk: Seq<Cell>,
    k: int,
)
    requires
        room_reached(w, pass, start, cells, parent),
        walk_from(w, pass, start, walk),
        0 <= k < walk.len(),
    ensures
        exists|j: int| 0 <= j < cells.len() && #[trigger] cells[j] == walk[k] && way_to(cells, parent, j).len() <= k + 1,
    decreases k,
{
    if k == 0 {
        assert(cells[0] == walk[0]);
        assert(way_to(cells, parent, 0).len() == 1);
    } else {
        lemma_walk_depth(w, pass, start, cells, parent, walk, k - 1);
        let jp = choose|j: int|
            0 <= j < cells.len() && #[trigger] cells[j] == walk[k - 1] && way_to(cells, parent, j).len() <= k;
        assert(side_by_side(walk[k - 1], walk[k]) && open_cell(w, pass, walk[k]));
        assert(side_by_side(cells[jp], walk[k]));
        assert(reached_from(cells, parent, walk[k], jp));
        let j = choose|j: int| 0 <= j < cells.len() && #[trigger] cells[j] == walk[k] && (j == 0 || parent[j] <= jp);
        if j == 0 {
            assert(way_to(cells, parent, 0).len() == 1);
        } else {
            let pj = parent[j] as int;
            assert(pj < j && pj <= jp);
            lemma_way_len_monotone(w, pass, start, cells, parent, pj, jp);
            assert(way_to(cells, parent, j) == way_to(cells, parent, pj).push(cells[j]));
        }
    }
}

fn way_cells(cells: &Vec<Cell>, parent: &Vec<usize>, i: usize) -> (v: Vec<Cell>)
    requires
        i < cells@.len(),
        cells@.len() == parent@.len(),
        forall|j: int| 0 < j < cells@.len() ==> #[trigger] parent@[j] < j,
    ensures
        v@ == way_to(cells@, parent@, i as int),
    decreases i,
{
    if i > 0 {
        let mut v = way_cells(cells, parent, parent[i]);
        v.push(cells[i]);
        v
    } else {
        let mut v: Vec<Cell> = Vec::new();
        v.push(cells[i]);
        v
    }
}

/// The first `limit` cells of `way`, or all of it where it is shorter.
pub open spec fn cut_way(way: Seq<Cell>, limit: int) -> Seq<Cell> {
    if way.len() > limit {
        way.take(limit)
    } else {
        way
    }
}

/// The way from the start to the reached cell `target`, cut to its first
/// `limit` cells. It begins at the start and steps from cell to side-by-side
/// open cell; uncut, it ends at the target.
pub fn room_path(width: usize, passable: &Vec<bool>, start: Cell, scan: &RoomScan, target: usize, limit: usize) -> (r: Vec<Cell>)
    requires
        room_reached(width as int, passable@, start, scan.cells@, scan.parent@),
        target < scan.cells@.len(),
        limit >= 1,
    ensures
        r@ == cut_way(way_to(scan.cells@, scan.parent@, target as int), limit as int),
        walk_from(width as int, passable@, start, r@),
        r@.len() < limit ==> r@.last() == scan.cells@[target as int],
{
    proof {
        lemma_way_walks(width as int, passable@, start, scan.cells@, scan.parent@, target as int);
    }
    let way = way_cells(&scan.cells, &scan.parent, target);
    if way.len() <= limit {
        return way;
    }
    let mut out: Vec<Cell> = Vec::new();
    let mut k: usize = 0;
    while k < limit
        invariant
            k <= limit,
            limit < way@.len(),
            out@ == way@.take(k as int),
        decreases limit - k,
    {
        out.push(way[k]);
        k = k + 1;
        assert(out@ =~= way@.take(k as int));
    }
    proof {
        let a = way@;
        assert forall|j: int| 0 < j < out@.len() implies side_by_side(out@[j - 1], #[trigger] out@[j]) && open_cell(
            width as int,
            passable@,
            out@[j],
        ) by {
            assert(out@[j] == a[j] && out@[j - 1] == a[j - 1]);
        }
    }
    out
}

/// Height rank of standing `d` blocks above (below, where negative) the
/// bot's feet: level first, then one up, one down, two up, and so on.
pub open spec fn level_rank(d: int) -> int {
    if d < 0 {
        -2 * d + 1
    } else {
        2 * d
    }
}

/// One of the columns shut by a blocked column: the column itself or one of
/// its eight neighbours.
pub open spec fn shut_by(x: i32, z: i32, b: (i32, i32, i32)) -> bool {
    -1 <= x - b.0 <= 1 && -1 <= z - b.1 <= 1
}

/// Column `(x, z)` is shut by one of the blocked columns.
pub fn column_blocked(x: i32, z: i32, blocked: &Vec<(i32, i32, i32)>) -> (r: bool)
    ensures
        r == exists|i: int| 0 <= i < blocked@.len() && shut_by(x, z, #[trigger] blocked@[i]),
{
    let mut i: usize = 0;
    while i < blocked.len()
        invariant
            i <= blocked@.len(),
            forall|j: int| 0 <= j < i ==> !shut_by(x, z, #[trigger] blocked@[j]),
        decreases blocked@.len() - i,
    {
        let b = blocked[i];
        let dx = x as i64 - b.0 as i64;
        let dz = z as i64 - b.1 as i64;
        if -1 <= dx && dx <= 1 && -1 <= dz && dz <= 1 {
            assert(shut_by(x, z, blocked@[i as int]));
            return true;
        }
        i = i + 1;
    }
    false
}

/// The nine heights of a column looked at, from four below the bot's feet to
/// four above: at each, `None` where one of its three blocks (floor, feet,
/// head) is not loaded, else whether one can stand there.
pub open spec fn all_loaded(levels: Seq<Option<bool>>) -> bool {
    forall|k: int| 0 <= k < 9 ==> (#[trigger] levels[k]) is Some
}

/// Some height of the column can be stood at.
pub open spec fn some_standable(levels: Seq<Option<bool>>) -> bool {
    exists|k: int| 0 <= k < 9 && #[trigger] levels[k] == Some(true)
}

/// The height at which column `(x, z)` is walked: none where the column is
/// shut by a blocked column (the bot's own column, `start`, never is), where
/// one of its nine heights is not loaded, or where no height can be stood
/// at; else the standable height of lowest rank.
pub fn walkable_y(
    x: i32,
    z: i32,
    start: (i32, i32),
    blocked: &Vec<(i32, i32, i32)>,
    base_y: i32,
    levels: &Vec<Option<bool>>,
) -> (r: Option<i32>)
    requires
        levels@.len() == 9,
        i32::MIN + 5 <= base_y <= i32::MAX - 5,
    ensures
        r is Some <==> !((exists|i: int| 0 <= i < blocked@.len() && shut_by(x, z, #[trigger] blocked@[i])) && (x, z)
            != start) && all_loaded(levels@) && some_standable(levels@),
        r matches Some(y) ==> base_y - 4 <= y <= base_y + 4 && levels@[y - base_y + 4] == Some(true) && forall|k: int|
            0 <= k < 9 && #[trigger] levels@[k] == Some(true) ==> level_rank(y - base_y) <= level_rank(k - 4),
{
    if column_blocked(x, z, blocked) && (x != start.0 || z != start.1) {
        return None;
    }
    let mut best: Option<i32> = None;
    let mut best_rank: i32 = i32::MAX;
    let mut k: usize = 0;
    while k < 9
        invariant
            k <= 9,
            levels@.len() == 9,
            i32::MIN + 5 <= base_y <= i32::MAX - 5,
            forall|j: int| 0 <= j < k ==> (#[trigger] levels@[j]) is Some,
            best is None <==> forall|j: int| 0 <= j < k ==> #[trigger] levels@[j] != Some(true),
            best is None ==> best_rank == i32::MAX,
            best matches Some(y) ==> base_y - 4 <= y <= base_y + 4 && y - base_y + 4 < k && levels@[y - base_y + 4]
                == Some(true) && best_rank == level_rank(y - base_y) && forall|j: int|
                0 <= j < k && #[trigger] levels@[j] == Some(true) ==> best_rank <= level_rank(j - 4),
        decreases 9 - k,
    {
        match levels[k] {
            None => {
                return None;
            },
            Some(standable) => {
                let y = base_y - 4 + k as i32;
                if standable {
                    let rank: i32 = if y < base_y {
                        (base_y - y) * 2 + 1
                    } else {
                        (y - base_y) * 2
                    };
                    if rank < best_rank {
                        best_rank = rank;
                        best = Some(y);
                    }
                }
            },
        }
        k = k + 1;
    }
    best
}

/// Whether the bot may step from a column walked at `current_y` to one
/// walked at `next_y`, and the height it then stands at: the next column
/// must be walkable within one block up or down, and a diagonal step also
/// needs both columns it cuts past to be walkable.
pub fn ground_step(current_y: i32, next_y: Option<i32>, diagonal: bool, side_a: Option<i32>, side_b: Option<i32>) -> (r: Option<i32>)
    ensures
        r == (if next_y is Some && -1 <= next_y->0 - current_y <= 1 && (!diagonal || (side_a is Some && side_b is Some)) {
            next_y
        } else {
            None
        }),
{
    match next_y {
        None => None,
        Some(y) => {
            let dy = y as i64 - current_y as i64;
            if dy < -1 || dy > 1 {
                None
            } else if diagonal && (side_a.is_none() || side_b.is_none()) {
                None
            } else {
                Some(y)
            }
        },
    }
}

} // verus!
