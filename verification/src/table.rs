//! The table that a password is assembled from: how it is built from a
//! digest, how it is balanced, and how the password is read off it.

use vstd::prelude::*;

use crate::seed::{alphabets, in_alphabet};

verus! {

/// One character of a password to be: where it stands, and the byte that
/// selects it within its class.
#[derive(Clone, Copy, PartialEq, Eq, Structural, Debug)]
pub struct Cell {
    /// The number of the digest chunk that the cell was made from.
    pub position: usize,
    /// The second byte of that chunk.
    pub selector: u8,
}

/// The number of bytes in all the sets together.
pub open spec fn total_size(sets: Seq<Seq<u8>>) -> nat
    decreases sets.len(),
{
    if sets.len() == 0 {
        0
    } else {
        sets.first().len() + total_size(sets.drop_first())
    }
}

/// The set that holds the byte at `offset`, the sets laid end to end: the sets
/// are walked in order and the size of each is taken off `offset` until what
/// is left falls inside one.
pub open spec fn class_index(sets: Seq<Seq<u8>>, offset: int) -> int
    decreases sets.len(),
{
    if sets.len() == 0 || offset < sets.first().len() {
        0
    } else {
        1 + class_index(sets.drop_first(), offset - sets.first().len())
    }
}

/// Sets that a table can be built on: at least one, none of them empty, and
/// their sizes add up to a machine integer.
pub open spec fn usable_sets(sets: Seq<Seq<u8>>) -> bool {
    &&& sets.len() >= 1
    &&& forall|c: int| 0 <= c < sets.len() ==> (#[trigger] sets[c]).len() >= 1
    &&& total_size(sets) <= usize::MAX
}

/// An offset that falls inside the sets laid end to end falls inside one of
/// them.
pub proof fn lemma_class_index_in_range(sets: Seq<Seq<u8>>, offset: int)
    requires
        0 <= offset < total_size(sets),
    ensures
        0 <= class_index(sets, offset) < sets.len(),
    decreases sets.len(),
{
    if sets.len() > 0 && offset >= sets.first().len() {
        lemma_class_index_in_range(sets.drop_first(), offset - sets.first().len());
    }
}

/// The sets from `from` on are no larger than all of them together.
proof fn lemma_total_size_skip(sets: Seq<Seq<u8>>, from: int)
    requires
        0 <= from <= sets.len(),
    ensures
        total_size(sets.skip(from)) <= total_size(sets),
    decreases from,
{
    if from > 0 {
        lemma_total_size_skip(sets, from - 1);
        assert(sets.skip(from - 1).drop_first() =~= sets.skip(from));
    } else {
        assert(sets.skip(0) =~= sets);
    }
}

/// Sets of at most `bound` bytes each have at most `bound` bytes for each set
/// in all.
pub proof fn lemma_total_size_bound(sets: Seq<Seq<u8>>, bound: nat)
    requires
        forall|c: int| 0 <= c < sets.len() ==> (#[trigger] sets[c]).len() <= bound,
    ensures
        total_size(sets) <= sets.len() * bound,
    decreases sets.len(),
{
    if sets.len() > 0 {
        let rest = sets.drop_first();
        assert forall|c: int| 0 <= c < rest.len() implies (#[trigger] rest[c]).len() <= bound by {
            assert(rest[c] == sets[c + 1]);
        }
        lemma_total_size_bound(rest, bound);
        assert(sets.len() * bound == rest.len() * bound + bound) by (nonlinear_arith)
            requires
                sets.len() == rest.len() + 1,
        ;
    }
}

/// The number of whole two-byte chunks in the digest.
pub open spec fn chunk_count(digest: Seq<u8>) -> nat {
    digest.len() / 2
}

/// The set that chunk `i` of the digest selects by its first byte.
pub open spec fn chunk_class(sets: Seq<Seq<u8>>, digest: Seq<u8>, i: int) -> int {
    class_index(sets, digest[2 * i] as int % total_size(sets) as int)
}

/// The cell that chunk `i` of the digest makes.
pub open spec fn chunk_cell(digest: Seq<u8>, i: int) -> Cell {
    Cell { position: i as usize, selector: digest[2 * i + 1] }
}

/// The cells of the first `n` chunks of the digest, in order.
pub open spec fn chunk_cells(digest: Seq<u8>, n: nat) -> Seq<Cell> {
    Seq::new(n, |i: int| chunk_cell(digest, i))
}

/// Whether a cell was made from a chunk that selects the set `class`.
pub open spec fn selects(sets: Seq<Seq<u8>>, digest: Seq<u8>, class: int) -> spec_fn(Cell) -> bool {
    |cell: Cell| chunk_class(sets, digest, cell.position as int) == class
}

/// The rows of a table after the first `n` chunks of the digest: row `c` holds,
/// in order, the cells of the chunks that select set `c`.
pub open spec fn rows_after(sets: Seq<Seq<u8>>, digest: Seq<u8>, n: nat) -> Seq<Seq<Cell>> {
    Seq::new(sets.len(), |c: int| chunk_cells(digest, n).filter(selects(sets, digest, c)))
}

/// The rows of a table just built from the digest.
pub open spec fn initial_rows(sets: Seq<Seq<u8>>, digest: Seq<u8>) -> Seq<Seq<Cell>> {
    rows_after(sets, digest, chunk_count(digest))
}

/// The number of cells in all the rows together.
pub open spec fn total_cells(rows: Seq<Seq<Cell>>) -> nat
    decreases rows.len(),
{
    if rows.len() == 0 {
        0
    } else {
        total_cells(rows.drop_last()) + rows.last().len()
    }
}

/// Whether the row holds a cell with this position.
pub open spec fn row_holds(row: Seq<Cell>, position: int) -> bool {
    exists|j: int| 0 <= j < row.len() && #[trigger] row[j].position == position
}

/// Whether one of the rows holds a cell with this position.
pub open spec fn held(rows: Seq<Seq<Cell>>, position: int) -> bool {
    exists|r: int| 0 <= r < rows.len() && #[trigger] row_holds(rows[r], position)
}

/// Whether the positions of the cells are the numbers from zero up to the
/// number of cells, each exactly once.
pub open spec fn counted(rows: Seq<Seq<Cell>>) -> bool {
    &&& forall|r: int, j: int|
        0 <= r < rows.len() && 0 <= j < rows[r].len() ==> (#[trigger] rows[r][j]).position
            < total_cells(rows)
    &&& forall|r1: int, j1: int, r2: int, j2: int|
        0 <= r1 < rows.len() && 0 <= j1 < rows[r1].len() && 0 <= r2 < rows.len() && 0 <= j2
            < rows[r2].len() && (#[trigger] rows[r1][j1]).position == (
        #[trigger] rows[r2][j2]).position ==> r1 == r2 && j1 == j2
    &&& forall|p: int| 0 <= p < total_cells(rows) ==> #[trigger] held(rows, p)
}

/// Whether one of the rows holds this cell.
pub open spec fn holds_cell(rows: Seq<Seq<Cell>>, cell: Cell) -> bool {
    exists|r: int, j: int| 0 <= r < rows.len() && 0 <= j < rows[r].len() && #[trigger] rows[r][j] == cell
}

/// What each of the rows holds.
pub open spec fn row_views(rows: Seq<Vec<Cell>>) -> Seq<Seq<Cell>> {
    Seq::new(rows.len(), |r: int| rows[r]@)
}

/// Replacing one row changes the number of cells by the difference of the
/// two rows' lengths.
pub proof fn lemma_total_cells_update(rows: Seq<Seq<Cell>>, c: int, row: Seq<Cell>)
    requires
        0 <= c < rows.len(),
    ensures
        total_cells(rows.update(c, row)) == total_cells(rows) - rows[c].len() + row.len(),
    decreases rows.len(),
{
    let updated = rows.update(c, row);
    if c == rows.len() - 1 {
        assert(updated.drop_last() =~= rows.drop_last());
    } else {
        assert(updated.drop_last() =~= rows.drop_last().update(c, row));
        lemma_total_cells_update(rows.drop_last(), c, row);
    }
}

/// Rows that are all empty hold no cell.
proof fn lemma_total_cells_empty(rows: Seq<Seq<Cell>>)
    requires
        forall|r: int| 0 <= r < rows.len() ==> (#[trigger] rows[r]).len() == 0,
    ensures
        total_cells(rows) == 0,
    decreases rows.len(),
{
    if rows.len() > 0 {
        lemma_total_cells_empty(rows.drop_last());
    }
}

/// The first rows hold no more cells than all of them.
proof fn lemma_total_cells_take(rows: Seq<Seq<Cell>>, n: int)
    requires
        0 <= n <= rows.len(),
    ensures
        total_cells(rows.take(n)) <= total_cells(rows),
        n < rows.len() ==> total_cells(rows.take(n + 1)) == total_cells(rows.take(n)) + rows[n].len(),
    decreases rows.len() - n,
{
    if n < rows.len() {
        assert(rows.take(n + 1).drop_last() =~= rows.take(n));
        lemma_total_cells_take(rows, n + 1);
    } else {
        assert(rows.take(n) =~= rows);
    }
}

/// Rows that are no longer than `bound` hold at most `bound` cells each, and
/// fewer in all if one of them is shorter.
proof fn lemma_total_cells_bound(rows: Seq<Seq<Cell>>, bound: nat)
    requires
        forall|r: int| 0 <= r < rows.len() ==> (#[trigger] rows[r]).len() <= bound,
    ensures
        total_cells(rows) <= rows.len() * bound,
        (exists|r: int| 0 <= r < rows.len() && (#[trigger] rows[r]).len() < bound) ==> total_cells(
            rows,
        ) < rows.len() * bound,
    decreases rows.len(),
{
    if rows.len() > 0 {
        let front = rows.drop_last();
        assert forall|r: int| 0 <= r < front.len() implies (#[trigger] front[r]).len() <= bound by {
            assert(front[r] == rows[r]);
        }
        lemma_total_cells_bound(front, bound);
        assert(rows.len() * bound == front.len() * bound + bound) by (nonlinear_arith)
            requires
                rows.len() == front.len() + 1,
        ;
        if exists|r: int| 0 <= r < rows.len() && (#[trigger] rows[r]).len() < bound {
            let r = choose|r: int| 0 <= r < rows.len() && (#[trigger] rows[r]).len() < bound;
            if r < front.len() {
                assert(front[r] == rows[r]);
            }
        }
    }
}

/// A cell whose position is the number of cells so far can be added to any
/// row, and the positions stay the numbers from zero upwards.
proof fn lemma_counted_push(rows: Seq<Seq<Cell>>, c: int, cell: Cell)
    requires
        counted(rows),
        0 <= c < rows.len(),
        cell.position == total_cells(rows),
    ensures
        counted(rows.update(c, rows[c].push(cell))),
        total_cells(rows.update(c, rows[c].push(cell))) == total_cells(rows) + 1,
{
    let grown = rows.update(c, rows[c].push(cell));
    lemma_total_cells_update(rows, c, rows[c].push(cell));
    assert forall|p: int| 0 <= p < total_cells(grown) implies #[trigger] held(grown, p) by {
        if p < total_cells(rows) {
            assert(held(rows, p));
            let r = choose|r: int| 0 <= r < rows.len() && #[trigger] row_holds(rows[r], p);
            let j = choose|j: int| 0 <= j < rows[r].len() && #[trigger] rows[r][j].position == p;
            assert(grown[r][j].position == p);
            assert(row_holds(grown[r], p));
        } else {
            assert(grown[c][rows[c].len() as int].position == p);
            assert(row_holds(grown[c], p));
        }
    }
    assert forall|r: int, j: int| 0 <= r < grown.len() && 0 <= j < grown[r].len() implies (
    #[trigger] grown[r][j]).position < total_cells(grown) by {
        if r == c && j == rows[c].len() {
        } else {
            assert(grown[r][j] == rows[r][j]);
        }
    }
    assert forall|r1: int, j1: int, r2: int, j2: int|
        0 <= r1 < grown.len() && 0 <= j1 < grown[r1].len() && 0 <= r2 < grown.len() && 0 <= j2
            < grown[r2].len() && (#[trigger] grown[r1][j1]).position == (
        #[trigger] grown[r2][j2]).position implies r1 == r2 && j1 == j2 by {
        let new1 = r1 == c && j1 == rows[c].len();
        let new2 = r2 == c && j2 == rows[c].len();
        if !new1 {
            assert(grown[r1][j1] == rows[r1][j1]);
        }
        if !new2 {
            assert(grown[r2][j2] == rows[r2][j2]);
        }
    }
}

/// Taking one more chunk of the digest adds its cell to the row of the set
/// that the chunk selects.
proof fn lemma_rows_after_next(sets: Seq<Seq<u8>>, digest: Seq<u8>, n: nat)
    requires
        n < chunk_count(digest),
        digest.len() <= usize::MAX,
        0 <= chunk_class(sets, digest, n as int) < sets.len(),
    ensures
        rows_after(sets, digest, n + 1) == rows_after(sets, digest, n).update(
            chunk_class(sets, digest, n as int),
            rows_after(sets, digest, n)[chunk_class(sets, digest, n as int)].push(
                chunk_cell(digest, n as int),
            ),
        ),
{
    let before = rows_after(sets, digest, n);
    let class = chunk_class(sets, digest, n as int);
    let cell = chunk_cell(digest, n as int);
    let after = before.update(class, before[class].push(cell));
    assert(chunk_cells(digest, n + 1) =~= chunk_cells(digest, n).push(cell));
    assert(cell.position as int == n);
    assert forall|c: int| 0 <= c < sets.len() implies #[trigger] rows_after(sets, digest, n + 1)[c]
        == after[c] by {
        chunk_cells(digest, n).lemma_filter_push(cell, selects(sets, digest, c));
    }
    assert(rows_after(sets, digest, n + 1) =~= after);
}

/// The rows of a table just built: one for each set, with one cell for each
/// chunk of the digest, the positions of the cells the numbers of the chunks.
pub proof fn lemma_rows_after_counted(sets: Seq<Seq<u8>>, digest: Seq<u8>, n: nat)
    requires
        usable_sets(sets),
        digest.len() <= usize::MAX,
        n <= chunk_count(digest),
    ensures
        rows_after(sets, digest, n).len() == sets.len(),
        counted(rows_after(sets, digest, n)),
        total_cells(rows_after(sets, digest, n)) == n,
    decreases n,
{
    if n == 0 {
        assert(chunk_cells(digest, 0) =~= Seq::<Cell>::empty());
        assert forall|c: int| 0 <= c < sets.len() implies (#[trigger] rows_after(sets, digest, 0)[c]).len()
            == 0 by {
            reveal(Seq::filter);
        }
        lemma_total_cells_empty(rows_after(sets, digest, 0));
    } else {
        let before = (n - 1) as nat;
        lemma_rows_after_counted(sets, digest, before);
        lemma_class_index_in_range(sets, digest[2 * (before as int)] as int % total_size(sets) as int);
        lemma_rows_after_next(sets, digest, before);
        lemma_counted_push(
            rows_after(sets, digest, before),
            chunk_class(sets, digest, before as int),
            chunk_cell(digest, before as int),
        );
    }
}

/// In rows whose positions are counted, a cell is found by its position.
pub proof fn lemma_cell_found(rows: Seq<Seq<Cell>>, r: int, j: int)
    requires
        counted(rows),
        0 <= r < rows.len(),
        0 <= j < rows[r].len(),
    ensures
        row_of(rows, rows[r][j].position as int) == r,
        index_in_row(rows[r], rows[r][j].position as int) == j,
        selector_at(rows, rows[r][j].position as int) == rows[r][j].selector,
{
    let p = rows[r][j].position as int;
    assert(row_holds(rows[r], p));
    let found = row_of(rows, p);
    assert(row_holds(rows[found], p));
    let k = choose|k: int| 0 <= k < rows[found].len() && #[trigger] rows[found][k].position == p;
    assert(rows[found][k].position == rows[r][j].position);
    let at = index_in_row(rows[r], p);
    assert(rows[r][at].position == rows[r][j].position);
}

/// The least number of cells that every row is to have: two, or fewer where
/// the password is too short to give two characters to every set.
pub open spec fn min_frequency(target_len: nat, classes: nat) -> nat {
    if classes == 0 {
        0
    } else if target_len / classes < 2 {
        target_len / classes
    } else {
        2
    }
}

/// The number of cells that a row of this length lacks.
pub open spec fn deficit(row_len: nat, min_freq: nat) -> nat {
    if row_len < min_freq {
        (min_freq - row_len) as nat
    } else {
        0
    }
}

/// `value`, `times` times.
pub open spec fn repeated(value: int, times: nat) -> Seq<int> {
    Seq::new(times, |k: int| value)
}

/// The rows that lack cells, in order, each as many times as it lacks cells.
pub open spec fn deficits(rows: Seq<Seq<Cell>>, min_freq: nat) -> Seq<int>
    decreases rows.len(),
{
    if rows.len() == 0 {
        Seq::empty()
    } else {
        deficits(rows.drop_last(), min_freq) + repeated(
            rows.len() - 1,
            deficit(rows.last().len(), min_freq),
        )
    }
}

/// The longest row; of several, the last.
pub open spec fn largest(rows: Seq<Seq<Cell>>) -> int
    decreases rows.len(),
{
    if rows.len() <= 1 {
        0
    } else {
        let before = largest(rows.drop_last());
        if rows.last().len() >= rows[before].len() {
            rows.len() - 1
        } else {
            before
        }
    }
}

/// The rows after the last cell of row `from` has moved to the end of row `to`.
pub open spec fn moved(rows: Seq<Seq<Cell>>, from: int, to: int) -> Seq<Seq<Cell>> {
    let taken = rows.update(from, rows[from].drop_last());
    taken.update(to, taken[to].push(rows[from].last()))
}

/// One step of balancing: the longest row gives its last cell to row `to`,
/// if it has more than `min_freq` cells. If it has not, no row has a cell to
/// spare, and nothing moves.
pub open spec fn relocated(rows: Seq<Seq<Cell>>, to: int, min_freq: nat) -> Seq<Seq<Cell>> {
    if 0 <= to < rows.len() && rows[largest(rows)].len() > min_freq {
        moved(rows, largest(rows), to)
    } else {
        rows
    }
}

/// The rows after one step of balancing for each entry of the queue, in order.
pub open spec fn settled(rows: Seq<Seq<Cell>>, queue: Seq<int>, min_freq: nat) -> Seq<Seq<Cell>>
    decreases queue.len(),
{
    if queue.len() == 0 {
        rows
    } else {
        settled(relocated(rows, queue.first(), min_freq), queue.drop_first(), min_freq)
    }
}

/// The rows after balancing: the rows that lack cells are queued, in order,
/// once for each cell that they lack, and each entry of the queue is served
/// by one step.
pub open spec fn balanced_rows(rows: Seq<Seq<Cell>>, target_len: nat) -> Seq<Seq<Cell>> {
    let min_freq = min_frequency(target_len, rows.len());
    settled(rows, deficits(rows, min_freq), min_freq)
}

/// The same values as integers.
pub open spec fn as_ints(values: Seq<usize>) -> Seq<int> {
    Seq::new(values.len(), |k: int| values[k] as int)
}

/// The longest row is a row, no row is longer, and no row after it is as long.
pub proof fn lemma_largest(rows: Seq<Seq<Cell>>)
    requires
        rows.len() >= 1,
    ensures
        0 <= largest(rows) < rows.len(),
        forall|r: int| 0 <= r < rows.len() ==> (#[trigger] rows[r]).len() <= rows[largest(rows)].len(),
        forall|r: int|
            largest(rows) < r < rows.len() ==> (#[trigger] rows[r]).len() < rows[largest(
                rows,
            )].len(),
    decreases rows.len(),
{
    if rows.len() > 1 {
        let front = rows.drop_last();
        lemma_largest(front);
        assert forall|r: int| 0 <= r < rows.len() implies (#[trigger] rows[r]).len() <= rows[largest(
            rows,
        )].len() by {
            if r < front.len() {
                assert(rows[r] == front[r]);
            }
        }
        assert forall|r: int| largest(rows) < r < rows.len() implies (#[trigger] rows[r]).len()
            < rows[largest(rows)].len() by {
            if r < front.len() {
                assert(rows[r] == front[r]);
            }
        }
    }
}

/// A move keeps the number of rows and of cells, and changes the lengths of
/// the two rows only.
proof fn lemma_moved_lengths(rows: Seq<Seq<Cell>>, from: int, to: int)
    requires
        0 <= from < rows.len(),
        0 <= to < rows.len(),
        rows[from].len() > 0,
    ensures
        moved(rows, from, to).len() == rows.len(),
        total_cells(moved(rows, from, to)) == total_cells(rows),
        forall|r: int|
            0 <= r < rows.len() && r != from && r != to ==> #[trigger] moved(rows, from, to)[r]
                == rows[r],
        from != to ==> moved(rows, from, to)[from] == rows[from].drop_last(),
        from != to ==> moved(rows, from, to)[to] == rows[to].push(rows[from].last()),
        from == to ==> moved(rows, from, to) == rows,
{
    let taken = rows.update(from, rows[from].drop_last());
    lemma_total_cells_update(rows, from, rows[from].drop_last());
    lemma_total_cells_update(taken, to, taken[to].push(rows[from].last()));
    if from == to {
        assert(rows[from].drop_last().push(rows[from].last()) =~= rows[from]);
        assert(moved(rows, from, to) =~= rows);
    }
}

/// A move keeps the cells: the positions stay the numbers from zero upwards,
/// and the rows hold the same cells as before.
proof fn lemma_moved_counted(rows: Seq<Seq<Cell>>, from: int, to: int)
    requires
        counted(rows),
        0 <= from < rows.len(),
        0 <= to < rows.len(),
        rows[from].len() > 0,
    ensures
        counted(moved(rows, from, to)),
        forall|cell: Cell| holds_cell(moved(rows, from, to), cell) == holds_cell(rows, cell),
{
    lemma_moved_lengths(rows, from, to);
    if from != to {
        let after = moved(rows, from, to);
        let last = rows[from].len() - 1;
        let end = rows[to].len() as int;
        // Where a cell of the new rows stood in the old ones.
        assert forall|r: int, j: int| 0 <= r < after.len() && 0 <= j < after[r].len() implies (
        #[trigger] after[r][j]) == (if r == to && j == end {
            rows[from][last]
        } else {
            rows[r][j]
        }) by {}
        assert forall|r: int, j: int| 0 <= r < after.len() && 0 <= j < after[r].len() implies (
        #[trigger] after[r][j]).position < total_cells(after) by {
            if r == to && j == end {
                assert(after[r][j] == rows[from][last]);
            } else {
                assert(after[r][j] == rows[r][j]);
            }
        }
        assert forall|r1: int, j1: int, r2: int, j2: int|
            0 <= r1 < after.len() && 0 <= j1 < after[r1].len() && 0 <= r2 < after.len() && 0 <= j2
                < after[r2].len() && (#[trigger] after[r1][j1]).position == (
            #[trigger] after[r2][j2]).position implies r1 == r2 && j1 == j2 by {
            let (s1, k1) = if r1 == to && j1 == end {
                (from, last)
            } else {
                (r1, j1)
            };
            let (s2, k2) = if r2 == to && j2 == end {
                (from, last)
            } else {
                (r2, j2)
            };
            assert(after[r1][j1] == rows[s1][k1]);
            assert(after[r2][j2] == rows[s2][k2]);
            assert(s1 == s2 && k1 == k2);
        }
        assert forall|p: int| 0 <= p < total_cells(after) implies #[trigger] held(after, p) by {
            assert(held(rows, p));
            let r = choose|r: int| 0 <= r < rows.len() && #[trigger] row_holds(rows[r], p);
            let j = choose|j: int| 0 <= j < rows[r].len() && #[trigger] rows[r][j].position == p;
            if r == from && j == last {
                assert(after[to][end].position == p);
                assert(row_holds(after[to], p));
            } else {
                assert(after[r][j].position == p);
                assert(row_holds(after[r], p));
            }
        }
        assert forall|cell: Cell| holds_cell(after, cell) == holds_cell(rows, cell) by {
            if holds_cell(after, cell) {
                let (r, j) = choose|r: int, j: int|
                    0 <= r < after.len() && 0 <= j < after[r].len() && #[trigger] after[r][j] == cell;
                if r == to && j == end {
                    assert(rows[from][last] == cell);
                } else {
                    assert(rows[r][j] == cell);
                }
            }
            if holds_cell(rows, cell) {
                let (r, j) = choose|r: int, j: int|
                    0 <= r < rows.len() && 0 <= j < rows[r].len() && #[trigger] rows[r][j] == cell;
                if r == from && j == last {
                    assert(after[to][end] == cell);
                } else {
                    assert(after[r][j] == cell);
                }
            }
        }
    }
}

/// One step of balancing keeps the number of rows and the cells.
proof fn lemma_relocated_counted(rows: Seq<Seq<Cell>>, to: int, min_freq: nat)
    requires
        counted(rows),
        rows.len() >= 1,
    ensures
        counted(relocated(rows, to, min_freq)),
        relocated(rows, to, min_freq).len() == rows.len(),
        total_cells(relocated(rows, to, min_freq)) == total_cells(rows),
        forall|cell: Cell| holds_cell(relocated(rows, to, min_freq), cell) == holds_cell(rows, cell),
{
    lemma_largest(rows);
    if 0 <= to < rows.len() && rows[largest(rows)].len() > min_freq {
        lemma_moved_lengths(rows, largest(rows), to);
        lemma_moved_counted(rows, largest(rows), to);
    }
}

/// Balancing moves cells and does nothing else: the number of rows and of
/// cells stays, the rows hold the same cells as before, and the positions
/// stay the numbers from zero upwards.
pub proof fn lemma_settled_counted(rows: Seq<Seq<Cell>>, queue: Seq<int>, min_freq: nat)
    requires
        counted(rows),
        rows.len() >= 1,
    ensures
        counted(settled(rows, queue, min_freq)),
        settled(rows, queue, min_freq).len() == rows.len(),
        total_cells(settled(rows, queue, min_freq)) == total_cells(rows),
        forall|cell: Cell|
            holds_cell(settled(rows, queue, min_freq), cell) == holds_cell(rows, cell),
    decreases queue.len(),
{
    if queue.len() > 0 {
        lemma_relocated_counted(rows, queue.first(), min_freq);
        lemma_settled_counted(
            relocated(rows, queue.first(), min_freq),
            queue.drop_first(),
            min_freq,
        );
    }
}

/// Every entry of the queue of deficits is a row.
proof fn lemma_deficits_in_range(rows: Seq<Seq<Cell>>, min_freq: nat)
    ensures
        forall|k: int|
            0 <= k < deficits(rows, min_freq).len() ==> 0 <= #[trigger] deficits(rows, min_freq)[k]
                < rows.len(),
    decreases rows.len(),
{
    if rows.len() > 0 {
        lemma_deficits_in_range(rows.drop_last(), min_freq);
        let front = deficits(rows.drop_last(), min_freq);
        let back = repeated(rows.len() - 1, deficit(rows.last().len(), min_freq));
        assert forall|k: int| 0 <= k < deficits(rows, min_freq).len() implies 0 <= #[trigger] deficits(
            rows,
            min_freq,
        )[k] < rows.len() by {
            if k < front.len() {
                assert((front + back)[k] == front[k]);
            } else {
                assert((front + back)[k] == back[k - front.len()]);
            }
        }
    }
}

/// How many times the row stands in the queue.
pub open spec fn pending(queue: Seq<int>, row: int) -> nat
    decreases queue.len(),
{
    if queue.len() == 0 {
        0
    } else {
        (if queue.first() == row {
            1nat
        } else {
            0
        }) + pending(queue.drop_first(), row)
    }
}

proof fn lemma_pending_add(a: Seq<int>, b: Seq<int>, row: int)
    ensures
        pending(a + b, row) == pending(a, row) + pending(b, row),
    decreases a.len(),
{
    if a.len() == 0 {
        assert(a + b =~= b);
    } else {
        assert((a + b).drop_first() =~= a.drop_first() + b);
        lemma_pending_add(a.drop_first(), b, row);
    }
}

proof fn lemma_pending_repeated(value: int, times: nat, row: int)
    ensures
        pending(repeated(value, times), row) == if value == row {
            times
        } else {
            0
        },
    decreases times,
{
    if times > 0 {
        assert(repeated(value, times).drop_first() =~= repeated(value, (times - 1) as nat));
        lemma_pending_repeated(value, (times - 1) as nat, row);
    }
}

/// A row stands in the queue of deficits once for each cell that it lacks.
proof fn lemma_pending_deficits(rows: Seq<Seq<Cell>>, min_freq: nat, row: int)
    ensures
        pending(deficits(rows, min_freq), row) == if 0 <= row < rows.len() {
            deficit(rows[row].len(), min_freq)
        } else {
            0
        },
    decreases rows.len(),
{
    if rows.len() > 0 {
        let front = rows.drop_last();
        lemma_pending_deficits(front, min_freq, row);
        lemma_pending_add(
            deficits(front, min_freq),
            repeated(rows.len() - 1, deficit(rows.last().len(), min_freq)),
            row,
        );
        lemma_pending_repeated(rows.len() - 1, deficit(rows.last().len(), min_freq), row);
        if 0 <= row < front.len() {
            assert(front[row] == rows[row]);
        }
    }
}

/// What balancing keeps true while it serves its queue: every row together
/// with what the queue still owes it has the least number of cells, and a row
/// that is still owed cells has exactly that number.
spec fn owed(rows: Seq<Seq<Cell>>, queue: Seq<int>, min_freq: nat) -> bool {
    forall|r: int|
        0 <= r < rows.len() ==> {
            &&& (#[trigger] rows[r]).len() + pending(queue, r) >= min_freq
            &&& pending(queue, r) > 0 ==> rows[r].len() + pending(queue, r) == min_freq
        }
}

proof fn lemma_settled_fills(rows: Seq<Seq<Cell>>, queue: Seq<int>, min_freq: nat)
    requires
        rows.len() >= 1,
        owed(rows, queue, min_freq),
        total_cells(rows) >= rows.len() * min_freq,
        forall|k: int| 0 <= k < queue.len() ==> 0 <= #[trigger] queue[k] < rows.len(),
    ensures
        settled(rows, queue, min_freq).len() == rows.len(),
        forall|r: int|
            0 <= r < rows.len() ==> (#[trigger] settled(rows, queue, min_freq)[r]).len() >= min_freq,
    decreases queue.len(),
{
    if queue.len() == 0 {
        assert forall|r: int| 0 <= r < rows.len() implies (#[trigger] settled(
            rows,
            queue,
            min_freq,
        )[r]).len() >= min_freq by {
            assert(rows[r].len() + pending(queue, r) >= min_freq);
        }
    } else {
        let to = queue.first();
        let rest = queue.drop_first();
        let from = largest(rows);
        assert(0 <= queue[0] < rows.len());
        assert(pending(queue, to) >= 1);
        assert(rows[to].len() + pending(queue, to) == min_freq);
        lemma_largest(rows);
        if rows[from].len() <= min_freq {
            assert forall|r: int| 0 <= r < rows.len() implies (#[trigger] rows[r]).len()
                <= min_freq by {}
            lemma_total_cells_bound(rows, min_freq);
            assert(rows[to].len() < min_freq);
        }
        assert(rows[from].len() > min_freq);
        assert(pending(queue, from) == 0) by {
            assert(rows[from].len() + pending(queue, from) >= min_freq);
        }
        let next = relocated(rows, to, min_freq);
        lemma_moved_lengths(rows, from, to);
        assert(next == moved(rows, from, to));
        assert forall|r: int| 0 <= r < next.len() implies {
            &&& (#[trigger] next[r]).len() + pending(rest, r) >= min_freq
            &&& pending(rest, r) > 0 ==> next[r].len() + pending(rest, r) == min_freq
        } by {
            assert(rows[r].len() + pending(queue, r) >= min_freq);
            if r != from && r != to {
                assert(next[r] == rows[r]);
            }
        }
        assert forall|k: int| 0 <= k < rest.len() implies 0 <= #[trigger] rest[k] < next.len() by {
            assert(rest[k] == queue[k + 1]);
        }
        lemma_settled_fills(next, rest, min_freq);
    }
}

/// Balancing gives every row its least number of cells, where there are cells
/// enough for that.
pub proof fn lemma_balanced_fills(rows: Seq<Seq<Cell>>, target_len: nat)
    requires
        rows.len() >= 1,
        total_cells(rows) >= rows.len() * min_frequency(target_len, rows.len()),
    ensures
        balanced_rows(rows, target_len).len() == rows.len(),
        forall|r: int|
            0 <= r < rows.len() ==> (#[trigger] balanced_rows(rows, target_len)[r]).len()
                >= min_frequency(target_len, rows.len()),
{
    let min_freq = min_frequency(target_len, rows.len());
    let queue = deficits(rows, min_freq);
    lemma_deficits_in_range(rows, min_freq);
    assert forall|r: int| 0 <= r < rows.len() implies {
        &&& (#[trigger] rows[r]).len() + pending(queue, r) >= min_freq
        &&& pending(queue, r) > 0 ==> rows[r].len() + pending(queue, r) == min_freq
    } by {
        lemma_pending_deficits(rows, min_freq, r);
    }
    lemma_settled_fills(rows, queue, min_freq);
}

/// The rows of a table built from the digest and balanced: one for each set,
/// with one cell for each chunk of the digest, and every row with its least
/// number of cells where the digest has a chunk for each character.
pub proof fn lemma_balanced_table(target_len: nat, sets: Seq<Seq<u8>>, digest: Seq<u8>)
    requires
        usable_sets(sets),
        digest.len() <= usize::MAX,
    ensures
        balanced_rows(initial_rows(sets, digest), target_len).len() == sets.len(),
        counted(balanced_rows(initial_rows(sets, digest), target_len)),
        total_cells(balanced_rows(initial_rows(sets, digest), target_len)) == chunk_count(digest),
        chunk_count(digest) >= target_len ==> forall|r: int|
            0 <= r < sets.len() ==> (#[trigger] balanced_rows(
                initial_rows(sets, digest),
                target_len,
            )[r]).len() >= min_frequency(target_len, sets.len()),
{
    let initial = initial_rows(sets, digest);
    lemma_rows_after_counted(sets, digest, chunk_count(digest));
    let min_freq = min_frequency(target_len, initial.len());
    lemma_settled_counted(initial, deficits(initial, min_freq), min_freq);
    if chunk_count(digest) >= target_len {
        assert(sets.len() * min_freq <= target_len) by (nonlinear_arith)
            requires
                sets.len() >= 1,
                min_freq <= target_len / sets.len(),
        ;
        lemma_balanced_fills(initial, target_len);
    }
}

/// The row that holds the cell with this position.
pub open spec fn row_of(rows: Seq<Seq<Cell>>, position: int) -> int {
    choose|r: int| 0 <= r < rows.len() && #[trigger] row_holds(rows[r], position)
}

/// Where in the row the cell with this position stands.
pub open spec fn index_in_row(row: Seq<Cell>, position: int) -> int {
    choose|j: int| 0 <= j < row.len() && #[trigger] row[j].position == position
}

/// The selector of the cell with this position.
pub open spec fn selector_at(rows: Seq<Seq<Cell>>, position: int) -> u8 {
    let row = rows[row_of(rows, position)];
    row[index_in_row(row, position)].selector
}

/// The byte that a selector picks from a set.
pub open spec fn pick(set: Seq<u8>, selector: u8) -> u8 {
    set[selector as int % set.len() as int]
}

/// The length of what is assembled: the target length, or the number of
/// cells where there are fewer.
pub open spec fn assembled_len(rows: Seq<Seq<Cell>>, target_len: nat) -> nat {
    if target_len <= total_cells(rows) {
        target_len
    } else {
        total_cells(rows)
    }
}

/// What is assembled from a table. The cells are taken in the order of their
/// positions, which are the numbers from zero upwards; the first `target_len`
/// of them are kept; and each gives the byte that its selector picks from the
/// set of the row that holds it.
pub open spec fn assembled(sets: Seq<Seq<u8>>, rows: Seq<Seq<Cell>>, target_len: nat) -> Seq<u8> {
    Seq::new(
        assembled_len(rows, target_len),
        |p: int| pick(sets[row_of(rows, p)], selector_at(rows, p)),
    )
}

/// The bytes as characters, each byte the character of the same number.
pub open spec fn as_chars(bytes: Seq<u8>) -> Seq<char> {
    Seq::new(bytes.len(), |i: int| bytes[i] as char)
}

/// Whether place `p` of what is assembled holds a byte of the set of the row
/// that holds the cell of position `p`.
pub open spec fn picked_from_row(
    sets: Seq<Seq<u8>>,
    rows: Seq<Seq<Cell>>,
    target_len: nat,
    p: int,
) -> bool {
    &&& 0 <= row_of(rows, p) < rows.len()
    &&& in_alphabet(assembled(sets, rows, target_len)[p] as char, sets[row_of(rows, p)])
}

/// Whether the two lists say, of every cell before row `r` and of the first
/// `j` cells of row `r`, in which row the cell stands and what its selector is.
spec fn listed(
    rows: Seq<Seq<Cell>>,
    class_at: Seq<usize>,
    selectors: Seq<u8>,
    r: int,
    j: int,
) -> bool {
    forall|r1: int, j1: int|
        0 <= r1 < rows.len() && 0 <= j1 < rows[r1].len() && (r1 < r || (r1 == r && j1 < j)) ==> {
            &&& class_at[(#[trigger] rows[r1][j1]).position as int] == r1
            &&& selectors[rows[r1][j1].position as int] == rows[r1][j1].selector
        }
}

/// What is assembled has the length asked for, where there are cells enough,
/// and each of its bytes is picked from the set of the row that holds the
/// cell of its position.
pub proof fn lemma_assembled(sets: Seq<Seq<u8>>, rows: Seq<Seq<Cell>>, target_len: nat)
    requires
        rows.len() == sets.len(),
        forall|c: int| 0 <= c < sets.len() ==> (#[trigger] sets[c]).len() >= 1,
        counted(rows),
    ensures
        total_cells(rows) >= target_len ==> assembled(sets, rows, target_len).len() == target_len,
        forall|p: int|
            0 <= p < assembled(sets, rows, target_len).len() ==> #[trigger] picked_from_row(
                sets,
                rows,
                target_len,
                p,
            ),
{
    assert forall|p: int| 0 <= p < assembled(sets, rows, target_len).len() implies #[trigger] picked_from_row(
        sets,
        rows,
        target_len,
        p,
    ) by {
        assert(held(rows, p));
        let set = sets[row_of(rows, p)];
        let k = selector_at(rows, p) as int % set.len() as int;
        assert(set[k] as char == assembled(sets, rows, target_len)[p] as char);
    }
}

/// The positions of the cells of a row are as many as the cells.
pub proof fn lemma_row_positions(rows: Seq<Seq<Cell>>, r: int, n: int)
    requires
        counted(rows),
        0 <= r < rows.len(),
        0 <= n <= rows[r].len(),
    ensures
        Set::new(|p: int| row_holds(rows[r].take(n), p)).finite(),
        Set::new(|p: int| row_holds(rows[r].take(n), p)).len() == n,
    decreases n,
{
    let row = rows[r];
    let now = Set::new(|p: int| row_holds(row.take(n), p));
    if n == 0 {
        assert(now =~= Set::<int>::empty());
    } else {
        lemma_row_positions(rows, r, n - 1);
        let before = Set::new(|p: int| row_holds(row.take(n - 1), p));
        let added = row[n - 1].position as int;
        assert forall|p: int| now.contains(p) == before.insert(added).contains(p) by {
            if now.contains(p) {
                let j = choose|j: int| 0 <= j < row.take(n).len() && #[trigger] row.take(n)[j].position == p;
                if j < n - 1 {
                    assert(row.take(n - 1)[j].position == p);
                }
            }
            if before.contains(p) {
                let j = choose|j: int|
                    0 <= j < row.take(n - 1).len() && #[trigger] row.take(n - 1)[j].position == p;
                assert(row.take(n)[j].position == p);
            }
            if p == added {
                assert(row.take(n)[n - 1].position == p);
            }
        }
        assert(now =~= before.insert(added));
        if before.contains(added) {
            let j = choose|j: int|
                0 <= j < row.take(n - 1).len() && #[trigger] row.take(n - 1)[j].position == added;
            assert(rows[r][j].position == rows[r][n - 1].position);
        }
    }
}

/// The table that a password is assembled from: one row of cells for each
/// set, and the length that the password is to have.
pub struct PasswordTable {
    target_len: usize,
    sets: Vec<&'static [u8]>,
    rows: Vec<Vec<Cell>>,
}

/// The number of bytes in all the sets together.
fn count_characters(sets: &Vec<&'static [u8]>) -> (count: usize)
    requires
        total_size(alphabets(sets@)) <= usize::MAX,
    ensures
        count == total_size(alphabets(sets@)),
{
    let ghost all = alphabets(sets@);
    let mut count: usize = 0;
    let mut c: usize = sets.len();
    assert(all.skip(c as int) =~= Seq::<Seq<u8>>::empty());
    while c > 0
        invariant
            c <= sets.len(),
            all == alphabets(sets@),
            count == total_size(all.skip(c as int)),
            total_size(all) <= usize::MAX,
        decreases c,
    {
        c -= 1;
        proof {
            assert(all.skip(c as int).drop_first() =~= all.skip(c + 1));
            lemma_total_size_skip(all, c as int);
        }
        count += sets[c].len();
    }
    assert(all.skip(0) =~= all);
    count
}

/// The set that holds the byte at `offset`, the sets laid end to end.
fn class_of(sets: &Vec<&'static [u8]>, offset: usize) -> (class: usize)
    requires
        offset < total_size(alphabets(sets@)),
    ensures
        class == class_index(alphabets(sets@), offset as int),
        class < sets.len(),
{
    let ghost all = alphabets(sets@);
    let mut rest: usize = offset;
    let mut class: usize = 0;
    assert(all.skip(0) =~= all);
    while class < sets.len() && rest >= sets[class].len()
        invariant
            class <= sets.len(),
            all == alphabets(sets@),
            class_index(all, offset as int) == class + class_index(all.skip(class as int), rest as int),
            rest < total_size(all.skip(class as int)),
        decreases sets.len() - class,
    {
        proof {
            assert(all.skip(class as int).drop_first() =~= all.skip(class + 1));
        }
        rest -= sets[class].len();
        class += 1;
    }
    class
}

/// The longest row; of several, the last.
fn largest_row(rows: &Vec<Vec<Cell>>) -> (best: usize)
    requires
        rows.len() >= 1,
    ensures
        best == largest(row_views(rows@)),
        best < rows.len(),
{
    let ghost views = row_views(rows@);
    let mut best: usize = 0;
    let mut r: usize = 1;
    while r < rows.len()
        invariant
            1 <= r <= rows.len(),
            views == row_views(rows@),
            best == largest(views.take(r as int)),
            best < r,
        decreases rows.len() - r,
    {
        proof {
            assert(views.take(r + 1).drop_last() =~= views.take(r as int));
        }
        if rows[r].len() >= rows[best].len() {
            best = r;
        }
        r += 1;
    }
    assert(views.take(rows.len() as int) =~= views);
    best
}

/// The rows that lack cells, in order, each as many times as it lacks cells.
fn queue_deficits(rows: &Vec<Vec<Cell>>, min_freq: usize) -> (queue: Vec<usize>)
    ensures
        as_ints(queue@) == deficits(row_views(rows@), min_freq as nat),
        forall|k: int| 0 <= k < queue.len() ==> #[trigger] queue[k] < rows.len(),
{
    let ghost views = row_views(rows@);
    let mut queue: Vec<usize> = Vec::new();
    let mut r: usize = 0;
    assert(as_ints(queue@) =~= deficits(views.take(0), min_freq as nat));
    while r < rows.len()
        invariant
            r <= rows.len(),
            views == row_views(rows@),
            as_ints(queue@) == deficits(views.take(r as int), min_freq as nat),
            forall|k: int| 0 <= k < queue.len() ==> #[trigger] queue[k] < rows.len(),
        decreases rows.len() - r,
    {
        let len = rows[r].len();
        let ghost front = as_ints(queue@);
        let mut k: usize = 0;
        while len < min_freq && k < min_freq - len
            invariant
                r < rows.len(),
                len == rows[r as int].len(),
                len < min_freq ==> k <= min_freq - len,
                len >= min_freq ==> k == 0,
                queue.len() == front.len() + k,
                forall|i: int| 0 <= i < front.len() ==> #[trigger] queue[i] as int == front[i],
                forall|i: int| front.len() <= i < queue.len() ==> #[trigger] queue[i] == r,
                forall|k: int| 0 <= k < queue.len() ==> #[trigger] queue[k] < rows.len(),
            decreases min_freq - k,
        {
            queue.push(r);
            k += 1;
        }
        proof {
            assert(views.take(r + 1).drop_last() =~= views.take(r as int));
            assert(views.take(r + 1).last() == views[r as int]);
            assert(k == deficit(len as nat, min_freq as nat));
            assert(as_ints(queue@) =~= front + repeated(r as int, k as nat));
        }
        r += 1;
    }
    assert(views.take(rows.len() as int) =~= views);
    queue
}

impl PasswordTable {
    /// The length that the password is to have.
    pub closed spec fn target_len(&self) -> nat {
        self.target_len as nat
    }

    /// The sets that the password draws on, one for each row.
    pub closed spec fn sets(&self) -> Seq<Seq<u8>> {
        alphabets(self.sets@)
    }

    /// The rows of cells, one for each set.
    pub closed spec fn rows(&self) -> Seq<Seq<Cell>> {
        row_views(self.rows@)
    }

    /// What holds of every table: it has one row for each set, at least one
    /// set and none empty, and the positions of its cells are the numbers from
    /// zero up to the number of cells, each exactly once.
    #[verifier::type_invariant]
    pub closed spec fn well_formed(&self) -> bool {
        &&& self.rows().len() == self.sets().len()
        &&& self.sets().len() >= 1
        &&& forall|c: int| 0 <= c < self.sets().len() ==> (#[trigger] self.sets()[c]).len() >= 1
        &&& counted(self.rows())
        &&& total_cells(self.rows()) <= usize::MAX
    }

    /// The rows of cells, one for each set.
    pub fn cells(&self) -> (rows: &Vec<Vec<Cell>>)
        ensures
            row_views(rows@) == self.rows(),
    {
        &self.rows
    }

    /// Builds the table from a digest. The digest is read in chunks of two
    /// bytes, and a last odd byte is left aside. The first byte of chunk `i`
    /// selects a set, and the cell `(i, second byte)` goes to the end of the
    /// row of that set.
    pub fn new(target_len: usize, sets: Vec<&'static [u8]>, digest: &[u8]) -> (table: PasswordTable)
        requires
            usable_sets(alphabets(sets@)),
        ensures
            table.target_len() == target_len,
            table.sets() == alphabets(sets@),
            table.rows() == initial_rows(alphabets(sets@), digest@),
            table.rows().len() == sets.len(),
            total_cells(table.rows()) == chunk_count(digest@),
    {
        let ghost all = alphabets(sets@);
        let char_count = count_characters(&sets);
        let mut rows: Vec<Vec<Cell>> = Vec::new();
        while rows.len() < sets.len()
            invariant
                rows.len() <= sets.len(),
                forall|r: int| 0 <= r < rows.len() ==> (#[trigger] rows[r])@.len() == 0,
            decreases sets.len() - rows.len(),
        {
            rows.push(Vec::new());
        }
        let chunks = digest.len() / 2;
        let mut i: usize = 0;
        proof {
            assert(chunk_cells(digest@, 0) =~= Seq::<Cell>::empty());
            assert forall|c: int| 0 <= c < sets.len() implies #[trigger] rows_after(all, digest@, 0)[c]
                =~= Seq::<Cell>::empty() by {
                reveal(Seq::filter);
            }
            assert forall|c: int| 0 <= c < sets.len() implies #[trigger] row_views(rows@)[c]
                =~= Seq::<Cell>::empty() by {}
            assert(row_views(rows@) =~= rows_after(all, digest@, 0));
            lemma_total_cells_empty(row_views(rows@));
        }
        while i < chunks
            invariant
                i <= chunks,
                chunks == chunk_count(digest@),
                2 * chunks <= digest.len(),
                all == alphabets(sets@),
                usable_sets(all),
                char_count == total_size(all),
                rows.len() == sets.len(),
                row_views(rows@) == rows_after(all, digest@, i as nat),
                counted(row_views(rows@)),
                total_cells(row_views(rows@)) == i,
            decreases chunks - i,
        {
            let set_seed = digest[2 * i];
            let char_seed = digest[2 * i + 1];
            let class = class_of(&sets, set_seed as usize % char_count);
            let cell = Cell { position: i, selector: char_seed };
            let ghost before = row_views(rows@);
            proof {
                assert(cell == chunk_cell(digest@, i as int));
                assert(class == chunk_class(all, digest@, i as int));
                lemma_rows_after_next(all, digest@, i as nat);
                lemma_counted_push(before, class as int, cell);
            }
            rows[class].push(cell);
            assert(row_views(rows@) =~= before.update(class as int, before[class as int].push(cell)));
            i += 1;
        }
        PasswordTable { target_len, sets, rows }
    }

    /// Sees to it that every row has its least number of cells. Each row that
    /// lacks cells is served once for each cell that it lacks, rows in order:
    /// the longest row (of several, the last) gives its last cell to the end of
    /// the row that is served. A row gives only while it has more than the
    /// least number: where no row has, nothing moves. Cells move and nothing
    /// else happens to them.
    pub fn balance(self) -> (table: PasswordTable)
        ensures
            table.target_len() == self.target_len(),
            table.sets() == self.sets(),
            table.rows() == balanced_rows(self.rows(), self.target_len()),
            table.rows().len() == self.rows().len(),
            total_cells(table.rows()) == total_cells(self.rows()),
            forall|cell: Cell| holds_cell(table.rows(), cell) == holds_cell(self.rows(), cell),
            total_cells(self.rows()) >= self.rows().len() * min_frequency(
                self.target_len(),
                self.rows().len(),
            ) ==> forall|r: int|
                0 <= r < table.rows().len() ==> (#[trigger] table.rows()[r]).len() >= min_frequency(
                    self.target_len(),
                    self.rows().len(),
                ),
    {
        proof {
            use_type_invariant(&self);
        }
        let ghost initial = self.rows();
        let PasswordTable { target_len, sets, mut rows } = self;
        let share = target_len / sets.len();
        let min_freq: usize = if share < 2 { share } else { 2 };
        let queue = queue_deficits(&rows, min_freq);
        let ghost entries = as_ints(queue@);
        let mut k: usize = 0;
        assert(entries.skip(0) =~= entries);
        while k < queue.len()
            invariant
                k <= queue.len(),
                entries == as_ints(queue@),
                forall|k: int| 0 <= k < queue.len() ==> #[trigger] queue[k] < rows.len(),
                rows.len() == initial.len(),
                rows.len() >= 1,
                counted(row_views(rows@)),
                settled(row_views(rows@), entries.skip(k as int), min_freq as nat) == settled(
                    initial,
                    entries,
                    min_freq as nat,
                ),
            decreases queue.len() - k,
        {
            let to = queue[k];
            let from = largest_row(&rows);
            let ghost before = row_views(rows@);
            proof {
                assert(entries.skip(k as int).first() == to);
                assert(entries.skip(k as int).drop_first() =~= entries.skip(k + 1));
                lemma_relocated_counted(before, to as int, min_freq as nat);
            }
            if rows[from].len() > min_freq {
                let cell = rows[from].pop().unwrap();
                rows[to].push(cell);
                assert(row_views(rows@) =~= moved(before, from as int, to as int));
            }
            k += 1;
        }
        proof {
            lemma_settled_counted(initial, entries, min_freq as nat);
            if total_cells(initial) >= initial.len() * (min_freq as nat) {
                lemma_balanced_fills(initial, target_len as nat);
            }
        }
        PasswordTable { target_len, sets, rows }
    }
    /// Assembles the password. The cells are taken in the order of their
    /// positions, the first `target_len` of them are kept, and each gives the
    /// character that its selector picks from the set of its row.
    pub fn build(self) -> (password: String)
        ensures
            password@ == as_chars(assembled(self.sets(), self.rows(), self.target_len())),
    {
        proof {
            use_type_invariant(&self);
        }
        let ghost rows = self.rows();
        let ghost sets = self.sets();
        let mut cells: usize = 0;
        let mut r: usize = 0;
        assert(rows.take(0) =~= Seq::<Seq<Cell>>::empty());
        while r < self.rows.len()
            invariant
                r <= self.rows.len(),
                rows == row_views(self.rows@),
                cells == total_cells(rows.take(r as int)),
                total_cells(rows) <= usize::MAX,
            decreases self.rows.len() - r,
        {
            proof {
                lemma_total_cells_take(rows, r as int);
                lemma_total_cells_take(rows, r + 1);
            }
            cells += self.rows[r].len();
            r += 1;
        }
        assert(rows.take(self.rows.len() as int) =~= rows);
        let mut class_at: Vec<usize> = vec![0; cells];
        let mut selectors: Vec<u8> = vec![0; cells];
        r = 0;
        while r < self.rows.len()
            invariant
                r <= self.rows.len(),
                rows == row_views(self.rows@),
                counted(rows),
                cells == total_cells(rows),
                class_at.len() == cells,
                selectors.len() == cells,
                listed(rows, class_at@, selectors@, r as int, 0),
            decreases self.rows.len() - r,
        {
            let mut j: usize = 0;
            while j < self.rows[r].len()
                invariant
                    r < self.rows.len(),
                    j <= self.rows[r as int].len(),
                    rows == row_views(self.rows@),
                    counted(rows),
                    cells == total_cells(rows),
                    class_at.len() == cells,
                    selectors.len() == cells,
                    listed(rows, class_at@, selectors@, r as int, j as int),
                decreases self.rows[r as int].len() - j,
            {
                let cell = self.rows[r][j];
                assert(cell == rows[r as int][j as int]);
                class_at[cell.position] = r;
                selectors[cell.position] = cell.selector;
                j += 1;
            }
            r += 1;
        }
        let len = if self.target_len <= cells { self.target_len } else { cells };
        let mut password = String::new();
        let mut p: usize = 0;
        let ghost whole = as_chars(assembled(sets, rows, self.target_len as nat));
        while p < len
            invariant
                p <= len,
                len == assembled_len(rows, self.target_len as nat),
                len <= cells,
                rows == row_views(self.rows@),
                sets == alphabets(self.sets@),
                sets.len() == rows.len(),
                forall|c: int| 0 <= c < sets.len() ==> (#[trigger] sets[c]).len() >= 1,
                counted(rows),
                cells == total_cells(rows),
                class_at.len() == cells,
                selectors.len() == cells,
                listed(rows, class_at@, selectors@, rows.len() as int, 0),
                whole == as_chars(assembled(sets, rows, self.target_len as nat)),
                password@ == whole.take(p as int),
            decreases len - p,
        {
            proof {
                assert(held(rows, p as int));
                let r0 = choose|r0: int| 0 <= r0 < rows.len() && #[trigger] row_holds(rows[r0], p as int);
                let j0 = choose|j0: int|
                    0 <= j0 < rows[r0].len() && #[trigger] rows[r0][j0].position == p;
                lemma_cell_found(rows, r0, j0);
                assert(class_at[rows[r0][j0].position as int] == r0);
            }
            let set = self.sets[class_at[p]];
            assert(set@ == sets[class_at[p as int] as int]);
            let byte = set[selectors[p] as usize % set.len()];
            password.push(byte as char);
            p += 1;
            assert(password@ =~= whole.take(p as int));
        }
        assert(whole.take(len as int) =~= whole);
        password
    }
}

} // verus!
