//! Rows of tiles, and what clearing the full ones makes of them.
//!
//! Everything here is stated of plain sequences: a row is a sequence of
//! tiles, a field is a sequence of rows from top to bottom.

use vstd::prelude::*;

verus! {

/// The tile of a cell that holds nothing.
pub const EMPTY_TILE: char = '\0';

/// A row is full when none of its cells is empty.
pub open spec fn row_full(row: Seq<char>) -> bool {
    forall|x: int| 0 <= x < row.len() ==> row[x] != EMPTY_TILE
}

/// A row is empty when none of its cells holds a tile.
pub open spec fn row_empty(row: Seq<char>) -> bool {
    forall|x: int| 0 <= x < row.len() ==> row[x] == EMPTY_TILE
}

/// A row of `width` empty cells.
pub open spec fn empty_row(width: nat) -> Seq<char> {
    Seq::new(width, |x: int| EMPTY_TILE)
}

/// `count` rows of `width` empty cells each.
pub open spec fn empty_rows(count: nat, width: nat) -> Seq<Seq<char>> {
    Seq::new(count, |y: int| empty_row(width))
}

/// The rows that are not full, in their order.
pub open spec fn kept_rows(rows: Seq<Seq<char>>) -> Seq<Seq<char>> {
    rows.filter(|row: Seq<char>| !row_full(row))
}

/// How many of the rows are full.
pub open spec fn full_row_count(rows: Seq<Seq<char>>) -> nat {
    (rows.len() - kept_rows(rows).len()) as nat
}

/// The rows after clearing: the full rows are gone, the others have sunk to
/// the bottom in their order, and as many empty rows as were cleared have
/// come in at the top.
pub open spec fn compacted(rows: Seq<Seq<char>>, width: nat) -> Seq<Seq<char>> {
    empty_rows(full_row_count(rows), width) + kept_rows(rows)
}

/// Of the rows from `y` on, the first is kept or dropped by itself and the
/// rest as they would be alone.
pub proof fn lemma_kept_rows_from(rows: Seq<Seq<char>>, y: int)
    requires
        0 <= y < rows.len(),
    ensures
        kept_rows(rows.subrange(y, rows.len() as int)) == if row_full(rows[y]) {
            kept_rows(rows.subrange(y + 1, rows.len() as int))
        } else {
            seq![rows[y]] + kept_rows(rows.subrange(y + 1, rows.len() as int))
        },
        full_row_count(rows.subrange(y, rows.len() as int)) == full_row_count(
            rows.subrange(y + 1, rows.len() as int),
        ) + if row_full(rows[y]) {
            1nat
        } else {
            0nat
        },
{
    let keep = |row: Seq<char>| !row_full(row);
    let head = seq![rows[y]];
    let tail = rows.subrange(y + 1, rows.len() as int);
    assert(rows.subrange(y, rows.len() as int) =~= head + tail);
    Seq::filter_distributes_over_add(head, tail, keep);
    assert(head.filter(keep) =~= if row_full(rows[y]) {
        Seq::<Seq<char>>::empty()
    } else {
        head
    }) by {
        reveal_with_fuel(Seq::filter, 2);
        assert(head.drop_last() =~= Seq::<Seq<char>>::empty());
        assert(head.last() == rows[y]);
    }
    assert(Seq::<Seq<char>>::empty() + tail.filter(keep) =~= tail.filter(keep));
    tail.lemma_filter_len(keep);
}

/// Splitting the rows at `y` splits what is kept and what is counted.
pub proof fn lemma_kept_rows_split(rows: Seq<Seq<char>>, y: int)
    requires
        0 <= y <= rows.len(),
    ensures
        kept_rows(rows) == kept_rows(rows.subrange(0, y)) + kept_rows(
            rows.subrange(y, rows.len() as int),
        ),
        full_row_count(rows) == full_row_count(rows.subrange(0, y)) + full_row_count(
            rows.subrange(y, rows.len() as int),
        ),
{
    let keep = |row: Seq<char>| !row_full(row);
    let upper = rows.subrange(0, y);
    let lower = rows.subrange(y, rows.len() as int);
    assert(rows =~= upper + lower);
    Seq::filter_distributes_over_add(upper, lower, keep);
    upper.lemma_filter_len(keep);
    lower.lemma_filter_len(keep);
}

/// Where no row is full, every row is kept.
pub proof fn lemma_kept_rows_none_full(rows: Seq<Seq<char>>)
    requires
        forall|y: int| 0 <= y < rows.len() ==> !row_full(#[trigger] rows[y]),
    ensures
        kept_rows(rows) == rows,
        full_row_count(rows) == 0,
    decreases rows.len(),
{
    reveal_with_fuel(Seq::filter, 1);
    if rows.len() > 0 {
        lemma_kept_rows_none_full(rows.drop_last());
        assert(rows.drop_last().push(rows.last()) =~= rows);
    }
}

/// Clearing keeps the number of rows, and the rows that come in at the top
/// are empty.
pub proof fn law_cleared_rows_come_in_empty(rows: Seq<Seq<char>>, width: nat, y: int)
    requires
        0 <= y < full_row_count(rows),
    ensures
        compacted(rows, width).len() == rows.len(),
        compacted(rows, width)[y] == empty_row(width),
{
    rows.lemma_filter_len(|row: Seq<char>| !row_full(row));
}

/// A row that is not full sinks by as many rows as there are full rows
/// beneath it.
pub proof fn law_row_sinks_by_full_rows_beneath(rows: Seq<Seq<char>>, width: nat, y: int)
    requires
        0 <= y < rows.len(),
        !row_full(rows[y]),
    ensures
        compacted(rows, width).len() == rows.len(),
        y + full_row_count(rows.subrange(y + 1, rows.len() as int)) < rows.len(),
        compacted(rows, width)[y + full_row_count(rows.subrange(y + 1, rows.len() as int))]
            == rows[y],
{
    let keep = |row: Seq<char>| !row_full(row);
    let n = rows.len() as int;
    rows.lemma_filter_len(keep);
    rows.subrange(0, y).lemma_filter_len(keep);
    rows.subrange(y + 1, n).lemma_filter_len(keep);
    lemma_kept_rows_split(rows, y);
    lemma_kept_rows_from(rows, y);
}

/// Where nothing is full, clearing returns nothing and changes nothing.
pub proof fn law_nothing_full_nothing_cleared(rows: Seq<Seq<char>>, width: nat)
    requires
        forall|y: int| 0 <= y < rows.len() ==> !row_full(#[trigger] rows[y]),
    ensures
        full_row_count(rows) == 0,
        compacted(rows, width) == rows,
{
    lemma_kept_rows_none_full(rows);
    assert(compacted(rows, width) =~= rows);
}

/// Clearing an empty field that has columns returns nothing and leaves the
/// field empty. (In a field without columns every row counts as full.)
pub proof fn law_empty_field_stays(width: nat, height: nat)
    requires
        width > 0,
    ensures
        full_row_count(empty_rows(height, width)) == 0,
        compacted(empty_rows(height, width), width) == empty_rows(height, width),
{
    assert forall|y: int| 0 <= y < height implies !row_full(
        #[trigger] empty_rows(height, width)[y],
    ) by {
        assert(empty_row(width)[0] == EMPTY_TILE);
    }
    law_nothing_full_nothing_cleared(empty_rows(height, width), width);
}

/// Where row `k` alone is full, one row is cleared: an empty row comes in at
/// the top, the rows above `k` sink by one, and the rows below `k` stay.
/// Row `k` itself then holds what was above it, and so is empty if it was
/// the top row or the row above it was empty.
pub proof fn law_single_full_row(rows: Seq<Seq<char>>, width: nat, k: int)
    requires
        0 <= k < rows.len(),
        row_full(rows[k]),
        forall|y: int| 0 <= y < rows.len() && y != k ==> !row_full(#[trigger] rows[y]),
    ensures
        full_row_count(rows) == 1,
        compacted(rows, width).len() == rows.len(),
        compacted(rows, width)[0] == empty_row(width),
        forall|y: int| 0 <= y < k ==> #[trigger] compacted(rows, width)[y + 1] == rows[y],
        forall|y: int| k < y < rows.len() ==> #[trigger] compacted(rows, width)[y] == rows[y],
        k == 0 || row_empty(rows[k - 1]) ==> row_empty(compacted(rows, width)[k]),
{
    let n = rows.len() as int;
    let upper = rows.subrange(0, k);
    let lower = rows.subrange(k + 1, n);
    lemma_kept_rows_split(rows, k);
    lemma_kept_rows_from(rows, k);
    lemma_kept_rows_none_full(upper);
    lemma_kept_rows_none_full(lower);
    assert(kept_rows(rows) =~= upper + lower);
    assert(compacted(rows, width) =~= seq![empty_row(width)] + upper + lower);
}

/// Where the full rows all lie beneath row `y`, that row sinks by the number
/// of rows cleared.
pub proof fn law_row_above_all_full_rows(rows: Seq<Seq<char>>, width: nat, y: int)
    requires
        0 <= y < rows.len(),
        forall|j: int| 0 <= j <= y ==> !row_full(#[trigger] rows[j]),
    ensures
        y + full_row_count(rows) < rows.len(),
        compacted(rows, width)[y + full_row_count(rows)] == rows[y],
{
    law_row_sinks_by_full_rows_beneath(rows, width, y);
    lemma_kept_rows_split(rows, y + 1);
    lemma_kept_rows_none_full(rows.subrange(0, y + 1));
}

/// After clearing, no row of a field with cells is full, and no more rows
/// were cleared than there are.
pub proof fn lemma_compacted_has_no_full_row(rows: Seq<Seq<char>>, width: nat)
    requires
        width > 0,
    ensures
        full_row_count(rows) <= rows.len(),
        compacted(rows, width).len() == rows.len(),
        forall|y: int| 0 <= y < rows.len() ==> !row_full(#[trigger] compacted(rows, width)[y]),
{
    let keep = |row: Seq<char>| !row_full(row);
    rows.lemma_filter_len(keep);
    assert forall|y: int| 0 <= y < rows.len() implies !row_full(
        #[trigger] compacted(rows, width)[y],
    ) by {
        if y < full_row_count(rows) {
            assert(empty_row(width)[0] == EMPTY_TILE);
        } else {
            rows.lemma_filter_pred(keep, y - full_row_count(rows));
        }
    }
}

/// Clearing keeps the width of the rows.
pub proof fn lemma_compacted_keeps_width(rows: Seq<Seq<char>>, width: nat)
    requires
        forall|y: int| 0 <= y < rows.len() ==> (#[trigger] rows[y]).len() == width,
    ensures
        compacted(rows, width).len() == rows.len(),
        forall|y: int| 0 <= y < rows.len() ==> (#[trigger] compacted(rows, width)[y]).len() == width,
{
    let keep = |row: Seq<char>| !row_full(row);
    rows.lemma_filter_len(keep);
    assert forall|y: int| 0 <= y < rows.len() implies (#[trigger] compacted(rows, width)[y]).len()
        == width by {
        let count = full_row_count(rows);
        if y >= count {
            let row = kept_rows(rows)[y - count];
            assert(kept_rows(rows).contains(row));
            rows.lemma_filter_contains_rev(keep, row);
            let i = choose|i: int| 0 <= i < rows.len() && rows[i] == row;
            assert(rows[i].len() == width);
        }
    }
}

} // verus!
