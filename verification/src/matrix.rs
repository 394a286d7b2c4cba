//! The result matrix: an ordered table of rows of string cells, with a header
//! row whose first cell is the row-key column's sentinel label.
//!
//! Columns are identified by a unique header string, rows by the value of
//! their first cell.  Both are append-only: an update may introduce a new
//! column or row at the end but never removes or reorders existing ones.  Rows
//! may be shorter than the header (sparse); reads and writes pad with empty
//! cells instead of failing.

use vstd::prelude::*;

verus! {

/// The sentinel label of the row-key column, held by the first header cell.
pub open spec fn row_key_label() -> Seq<char> {
    "attributes"@
}

/// The sentinel label of the row-key column.
pub fn row_key_label_str() -> (r: &'static str)
    ensures
        r@ == row_key_label(),
{
    "attributes"
}

/// An empty cell.
pub open spec fn empty_cell() -> Seq<char> {
    Seq::<char>::empty()
}

/// The index of the first cell equal to `name`, if any.
pub open spec fn find_cell(cells: Seq<Seq<char>>, name: Seq<char>) -> Option<int>
    decreases cells.len(),
{
    if cells.len() == 0 {
        None
    } else if cells[0] == name {
        Some(0)
    } else {
        match find_cell(cells.drop_first(), name) {
            Some(j) => Some(j + 1),
            None => None,
        }
    }
}

/// The index of the first data row keyed by `key`: the first row that is
/// non-empty and whose first cell equals `key`.
pub open spec fn find_row(rows: Seq<Seq<Seq<char>>>, key: Seq<char>) -> Option<int>
    decreases rows.len(),
{
    if rows.len() == 0 {
        None
    } else if rows[0].len() > 0 && rows[0][0] == key {
        Some(0)
    } else {
        match find_row(rows.drop_first(), key) {
            Some(i) => Some(i + 1),
            None => None,
        }
    }
}

/// A row extended with empty cells until it covers `n` cells; a row already
/// that long is unchanged.
pub open spec fn pad_row(row: Seq<Seq<char>>, n: int) -> Seq<Seq<char>> {
    if row.len() >= n {
        row
    } else {
        row + Seq::new((n - row.len()) as nat, |t: int| empty_cell())
    }
}

/// A table with no rows gains the header row; any other table is unchanged.
pub open spec fn ensure_nonempty(rows: Seq<Seq<Seq<char>>>) -> Seq<Seq<Seq<char>>> {
    if rows.len() == 0 {
        seq![seq![row_key_label()]]
    } else {
        rows
    }
}

/// The column index that an update of column `col` writes to: the existing
/// header position, or the position just past the current header.
pub open spec fn resolve_col_index(rows: Seq<Seq<Seq<char>>>, col: Seq<char>) -> int
    recommends
        rows.len() > 0,
{
    match find_cell(rows[0], col) {
        Some(j) => j,
        None => rows[0].len() as int,
    }
}

/// The table after resolving column `col`: unchanged when the header already
/// holds it; otherwise the header gains `col` at the end and every data row is
/// padded with empty cells up to the new header length.
pub open spec fn resolve_col_rows(rows: Seq<Seq<Seq<char>>>, col: Seq<char>) -> Seq<Seq<Seq<char>>>
    recommends
        rows.len() > 0,
{
    match find_cell(rows[0], col) {
        Some(j) => rows,
        None => Seq::new(
            rows.len(),
            |t: int|
                if t == 0 {
                    rows[0].push(col)
                } else {
                    pad_row(rows[t], rows[0].len() as int + 1)
                },
        ),
    }
}

/// The row index that an update of row key `key` writes to: the existing data
/// row, or the position just past the last row.
pub open spec fn resolve_row_index(rows: Seq<Seq<Seq<char>>>, key: Seq<char>) -> int
    recommends
        rows.len() > 0,
{
    match find_row(rows.skip(1), key) {
        Some(i) => i + 1,
        None => rows.len() as int,
    }
}

/// The table after resolving row key `key`: unchanged when a data row already
/// carries it; otherwise a new row is appended whose first cell is `key`,
/// sized to the current header length with empty cells elsewhere.
pub open spec fn resolve_row_rows(rows: Seq<Seq<Seq<char>>>, key: Seq<char>) -> Seq<Seq<Seq<char>>>
    recommends
        rows.len() > 0,
{
    match find_row(rows.skip(1), key) {
        Some(i) => rows,
        None => rows.push(pad_row(seq![key], rows[0].len() as int)),
    }
}

/// Row `i` padded to cover column `j` and its cell `j` overwritten.
pub open spec fn write_cell(rows: Seq<Seq<Seq<char>>>, i: int, j: int, value: Seq<char>) -> Seq<
    Seq<Seq<char>>,
>
    recommends
        0 <= i < rows.len(),
        0 <= j,
{
    rows.update(i, pad_row(rows[i], j + 1).update(j, value))
}

/// One whole read-modify-write update of a table: initialize the header row
/// of an empty table, resolve (or append) the column and the row, pad the
/// target row as far as the column, and overwrite that one cell.
pub open spec fn update_spec(
    rows: Seq<Seq<Seq<char>>>,
    key: Seq<char>,
    col: Seq<char>,
    value: Seq<char>,
) -> Seq<Seq<Seq<char>>> {
    let base = ensure_nonempty(rows);
    let with_col = resolve_col_rows(base, col);
    let j = resolve_col_index(base, col);
    let with_row = resolve_row_rows(with_col, key);
    let i = resolve_row_index(with_col, key);
    write_cell(with_row, i, j, value)
}

/// The value read back from a cell: `None` when the column or the row is
/// absent; an absent cell of a present row reads as the empty cell.
pub open spec fn cell_at(rows: Seq<Seq<Seq<char>>>, key: Seq<char>, col: Seq<char>) -> Option<
    Seq<char>,
> {
    if rows.len() == 0 {
        None
    } else {
        match find_cell(rows[0], col) {
            None => None,
            Some(j) => match find_row(rows.skip(1), key) {
                None => None,
                Some(i) => Some(
                    if j < rows[i + 1].len() {
                        rows[i + 1][j]
                    } else {
                        empty_cell()
                    },
                ),
            },
        }
    }
}

/// A found cell is the first match.
pub proof fn lemma_find_cell_at_first(cells: Seq<Seq<char>>, name: Seq<char>, k: int)
    requires
        0 <= k < cells.len(),
        cells[k] == name,
        forall|m: int| 0 <= m < k ==> cells[m] != name,
    ensures
        find_cell(cells, name) == Some(k),
    decreases cells.len(),
{
    if k == 0 {
    } else {
        assert(cells[0] != name);
        assert(cells.drop_first()[k - 1] == cells[k]);
        assert forall|m: int| 0 <= m < k - 1 implies cells.drop_first()[m] != name by {
            assert(cells.drop_first()[m] == cells[m + 1]);
        }
        lemma_find_cell_at_first(cells.drop_first(), name, k - 1);
    }
}

/// Nothing is found among cells that all differ from the name.
pub proof fn lemma_find_cell_absent(cells: Seq<Seq<char>>, name: Seq<char>)
    requires
        forall|m: int| 0 <= m < cells.len() ==> cells[m] != name,
    ensures
        find_cell(cells, name) == None::<int>,
    decreases cells.len(),
{
    if cells.len() > 0 {
        assert forall|m: int| 0 <= m < cells.drop_first().len() implies cells.drop_first()[m]
            != name by {
            assert(cells.drop_first()[m] == cells[m + 1]);
        }
        lemma_find_cell_absent(cells.drop_first(), name);
    }
}

/// What a cell search returns: the first matching index, or nothing when no
/// cell matches.
pub proof fn lemma_find_cell_props(cells: Seq<Seq<char>>, name: Seq<char>)
    ensures
        match find_cell(cells, name) {
            Some(j) => 0 <= j < cells.len() && cells[j] == name && (forall|m: int|
                0 <= m < j ==> cells[m] != name),
            None => forall|m: int| 0 <= m < cells.len() ==> cells[m] != name,
        },
    decreases cells.len(),
{
    if cells.len() == 0 {
    } else if cells[0] == name {
    } else {
        lemma_find_cell_props(cells.drop_first(), name);
        match find_cell(cells.drop_first(), name) {
            Some(j) => {
                assert(cells.drop_first()[j] == cells[j + 1]);
                assert forall|m: int| 0 <= m < j + 1 implies cells[m] != name by {
                    if m > 0 {
                        assert(cells.drop_first()[m - 1] == cells[m]);
                    }
                }
            },
            None => {
                assert forall|m: int| 0 <= m < cells.len() implies cells[m] != name by {
                    if m > 0 {
                        assert(cells.drop_first()[m - 1] == cells[m]);
                    }
                }
            },
        }
    }
}

/// A found row is the first matching data row.
pub proof fn lemma_find_row_at_first(rows: Seq<Seq<Seq<char>>>, key: Seq<char>, k: int)
    requires
        0 <= k < rows.len(),
        rows[k].len() > 0,
        rows[k][0] == key,
        forall|m: int| 0 <= m < k ==> !(rows[m].len() > 0 && rows[m][0] == key),
    ensures
        find_row(rows, key) == Some(k),
    decreases rows.len(),
{
    if k == 0 {
    } else {
        assert(!(rows[0].len() > 0 && rows[0][0] == key));
        assert(rows.drop_first()[k - 1] == rows[k]);
        assert forall|m: int|
            0 <= m < k - 1 implies !(rows.drop_first()[m].len() > 0 && rows.drop_first()[m][0]
            == key) by {
            assert(rows.drop_first()[m] == rows[m + 1]);
        }
        lemma_find_row_at_first(rows.drop_first(), key, k - 1);
    }
}

/// Nothing is found among rows none of which carries the key.
pub proof fn lemma_find_row_absent(rows: Seq<Seq<Seq<char>>>, key: Seq<char>)
    requires
        forall|m: int| 0 <= m < rows.len() ==> !(rows[m].len() > 0 && rows[m][0] == key),
    ensures
        find_row(rows, key) == None::<int>,
    decreases rows.len(),
{
    if rows.len() > 0 {
        assert forall|m: int|
            0 <= m < rows.drop_first().len() implies !(rows.drop_first()[m].len() > 0
            && rows.drop_first()[m][0] == key) by {
            assert(rows.drop_first()[m] == rows[m + 1]);
        }
        lemma_find_row_absent(rows.drop_first(), key);
    }
}

/// What a row search returns: the first data row carrying the key, or nothing
/// when no row carries it.
pub proof fn lemma_find_row_props(rows: Seq<Seq<Seq<char>>>, key: Seq<char>)
    ensures
        match find_row(rows, key) {
            Some(i) => 0 <= i < rows.len() && rows[i].len() > 0 && rows[i][0] == key && (forall|
                m: int,
            |
                0 <= m < i ==> !(rows[m].len() > 0 && rows[m][0] == key)),
            None => forall|m: int| 0 <= m < rows.len() ==> !(rows[m].len() > 0 && rows[m][0] == key),
        },
    decreases rows.len(),
{
    if rows.len() == 0 {
    } else if rows[0].len() > 0 && rows[0][0] == key {
    } else {
        lemma_find_row_props(rows.drop_first(), key);
        match find_row(rows.drop_first(), key) {
            Some(i) => {
                assert(rows.drop_first()[i] == rows[i + 1]);
                assert forall|m: int|
                    0 <= m < i + 1 implies !(rows[m].len() > 0 && rows[m][0] == key) by {
                    if m > 0 {
                        assert(rows.drop_first()[m - 1] == rows[m]);
                    }
                }
            },
            None => {
                assert forall|m: int|
                    0 <= m < rows.len() implies !(rows[m].len() > 0 && rows[m][0] == key) by {
                    if m > 0 {
                        assert(rows.drop_first()[m - 1] == rows[m]);
                    }
                }
            },
        }
    }
}

/// The effective row-key column name of a table: its first header cell, or
/// the sentinel label that an empty table gains.
pub open spec fn effective_key_label(rows: Seq<Seq<Seq<char>>>) -> Seq<char> {
    if rows.len() == 0 {
        row_key_label()
    } else {
        rows[0][0]
    }
}

/// A table whose header is present and non-empty, as every table written by
/// an update is.
pub open spec fn header_wf(rows: Seq<Seq<Seq<char>>>) -> bool {
    rows.len() > 0 ==> rows[0].len() > 0
}

/// Where an update writes: after `update_spec(rows, key, col, value)`, the
/// header holds `col` first at the resolved column index, the resolved row is
/// the first data row keyed by `key`, and that row holds `value` at that
/// index.  Asks that the column is not the row-key column itself, whose cells
/// double as row keys.
proof fn lemma_update_structure(
    rows: Seq<Seq<Seq<char>>>,
    key: Seq<char>,
    col: Seq<char>,
    value: Seq<char>,
)
    requires
        header_wf(rows),
        col != effective_key_label(rows),
    ensures
        ({
            let u = update_spec(rows, key, col, value);
            let base = ensure_nonempty(rows);
            let j = resolve_col_index(base, col);
            let i = resolve_row_index(resolve_col_rows(base, col), key);
            u.len() > 0 && 1 <= i < u.len() && 1 <= j && u[0] == resolve_col_rows(base, col)[0]
                && find_cell(u[0], col) == Some(j) && find_row(u.skip(1), key) == Some(i - 1)
                && u[i].len() > j && u[i][j] == value && u[i][0] == key && u[i].len() > 0
        }),
{
    let base = ensure_nonempty(rows);
    assert(base.len() > 0);
    assert(base[0].len() > 0 && col != base[0][0]) by {
        if rows.len() == 0 {
            assert(base[0] == seq![row_key_label()]);
            assert(base[0][0] == row_key_label());
        }
    }
    lemma_find_cell_props(base[0], col);
    let fc = find_cell(base[0], col);
    let j = resolve_col_index(base, col);
    let with_col = resolve_col_rows(base, col);
    match fc {
        Some(jj) => {
            assert(j == jj);
            assert(base[0][jj] == col);
            assert(jj != 0);
            assert(with_col == base);
            assert(find_cell(with_col[0], col) == Some(j));
            assert(with_col[0].len() > j);
        },
        None => {
            assert(j == base[0].len());
            assert(j >= 1);
            assert(with_col.len() == base.len());
            assert(with_col[0] == base[0].push(col));
            assert(with_col[0][j] == col);
            assert forall|m: int| 0 <= m < j implies with_col[0][m] != col by {
                assert(with_col[0][m] == base[0][m]);
            }
            lemma_find_cell_at_first(with_col[0], col, j);
            assert(with_col[0].len() == j + 1);
        },
    }
    assert(with_col.len() > 0);
    lemma_find_row_props(with_col.skip(1), key);
    let fr = find_row(with_col.skip(1), key);
    let i = resolve_row_index(with_col, key);
    let with_row = resolve_row_rows(with_col, key);
    match fr {
        Some(i0) => {
            assert(i == i0 + 1);
            assert(with_row == with_col);
            assert(with_col.skip(1)[i0] == with_col[i0 + 1]);
            assert(with_row[i].len() > 0 && with_row[i][0] == key);
            assert(1 <= i < with_row.len());
        },
        None => {
            assert(i == with_col.len());
            let newrow = pad_row(seq![key], with_col[0].len() as int);
            assert(with_row == with_col.push(newrow));
            assert(newrow[0] == key && newrow.len() > 0) by {
                if seq![key].len() < with_col[0].len() {
                    assert(newrow[0] == seq![key][0]);
                }
            }
            assert(with_row[i] == newrow);
            assert(1 <= i < with_row.len());
        },
    }
    let u = write_cell(with_row, i, j, value);
    let r_old = with_row[i];
    let padded = pad_row(r_old, j + 1);
    assert(padded.len() >= j + 1 && padded.len() >= r_old.len());
    assert(padded[0] == r_old[0]) by {
        if r_old.len() < j + 1 {
            assert(padded[0] == r_old[0]);
        }
    }
    let r_new = padded.update(j, value);
    assert(r_new[j] == value && r_new[0] == key && r_new.len() > j);
    assert(u == with_row.update(i as int, r_new));
    assert(u.len() == with_row.len());
    assert(u[0] == with_col[0]);
    assert(u[i] == r_new);
    assert(u.skip(1)[i - 1] == u[i]);
    assert forall|m: int|
        0 <= m < i - 1 implies !(u.skip(1)[m].len() > 0 && u.skip(1)[m][0] == key) by {
        assert(u.skip(1)[m] == u[m + 1]);
        assert(u[m + 1] == with_row[m + 1]);
        match fr {
            Some(i0) => {
                assert(with_row[m + 1] == with_col.skip(1)[m]);
            },
            None => {
                assert(with_row[m + 1] == with_col[m + 1]);
                assert(with_col[m + 1] == with_col.skip(1)[m]);
            },
        }
    }
    lemma_find_row_at_first(u.skip(1), key, i - 1);
}

/// LAW: reading back a written cell.  Updating any well-formed table at
/// (`key`, `col`) with `value` and reading the same cell back yields exactly
/// `value`, as long as `col` is not the row-key column itself.
pub proof fn lemma_update_then_get(
    rows: Seq<Seq<Seq<char>>>,
    key: Seq<char>,
    col: Seq<char>,
    value: Seq<char>,
)
    requires
        header_wf(rows),
        col != effective_key_label(rows),
    ensures
        cell_at(update_spec(rows, key, col, value), key, col) == Some(value),
{
    lemma_update_structure(rows, key, col, value);
}

/// LAW: idempotence.  Applying the same update twice in succession produces a
/// table identical to applying it once, as long as the written column is not
/// the row-key column itself (writing there renames the row's key).
pub proof fn lemma_update_idempotent(
    rows: Seq<Seq<Seq<char>>>,
    key: Seq<char>,
    col: Seq<char>,
    value: Seq<char>,
)
    requires
        header_wf(rows),
        col != effective_key_label(rows),
    ensures
        update_spec(update_spec(rows, key, col, value), key, col, value) == update_spec(
            rows,
            key,
            col,
            value,
        ),
{
    lemma_update_structure(rows, key, col, value);
    let u = update_spec(rows, key, col, value);
    let base = ensure_nonempty(rows);
    let j = resolve_col_index(base, col);
    let i = resolve_row_index(resolve_col_rows(base, col), key);
    assert(ensure_nonempty(u) == u);
    assert(resolve_col_rows(u, col) == u);
    assert(resolve_col_index(u, col) == j);
    assert(resolve_row_rows(u, key) == u);
    assert(resolve_row_index(u, key) == i);
    assert(pad_row(u[i], j + 1) == u[i]);
    assert(u[i].update(j, value) =~= u[i]);
    assert(u.update(i, u[i]) =~= u);
    assert(update_spec(u, key, col, value) == u);
}

/// LAW: round trip on a fresh table.  Persisting `v1` at (`key`, `col`) into
/// a table with no rows and reading the cell back yields exactly `v1`;
/// persisting `v2` at the same place afterwards yields `v2` (an overwrite,
/// not a duplicate), and the second update changes neither the row count nor
/// the header length.  The first update leaves a header row and one data row,
/// each two cells long.
pub proof fn lemma_fresh_round_trip(key: Seq<char>, col: Seq<char>, v1: Seq<char>, v2: Seq<char>)
    requires
        col != row_key_label(),
    ensures
        ({
            let t1 = update_spec(Seq::<Seq<Seq<char>>>::empty(), key, col, v1);
            let t2 = update_spec(t1, key, col, v2);
            cell_at(t1, key, col) == Some(v1) && cell_at(t2, key, col) == Some(v2) && t1.len() == 2
                && t1[0].len() == 2 && t2.len() == t1.len() && t2[0].len() == t1[0].len()
        }),
{
    let empty = Seq::<Seq<Seq<char>>>::empty();
    lemma_update_structure(empty, key, col, v1);
    lemma_update_then_get(empty, key, col, v1);
    let t1 = update_spec(empty, key, col, v1);
    let base = ensure_nonempty(empty);
    assert(base =~= seq![seq![row_key_label()]]);
    assert(base[0].len() == 1 && base[0][0] == row_key_label());
    assert(find_cell(base[0], col) == None::<int>) by {
        lemma_find_cell_absent(base[0], col);
    }
    let j = resolve_col_index(base, col);
    assert(j == 1);
    let with_col = resolve_col_rows(base, col);
    assert(with_col.len() == 1);
    assert(with_col[0] == base[0].push(col));
    assert(with_col[0].len() == 2);
    assert(with_col.skip(1) =~= Seq::<Seq<Seq<char>>>::empty());
    assert(find_row(with_col.skip(1), key) == None::<int>);
    let with_row = resolve_row_rows(with_col, key);
    let i = resolve_row_index(with_col, key);
    assert(i == 1);
    assert(with_row.len() == 2);
    assert(t1 == write_cell(with_row, i, j, v1));
    assert(t1.len() == 2);
    assert(t1[0] == with_col[0]);
    assert(t1[0].len() == 2);
    assert(t1[0][0] == base[0][0]);
    // the second update finds the same column and row and overwrites in place
    assert(header_wf(t1));
    assert(col != effective_key_label(t1));
    lemma_update_then_get(t1, key, col, v2);
    let t2 = update_spec(t1, key, col, v2);
    assert(ensure_nonempty(t1) == t1);
    assert(find_cell(t1[0], col) == Some(j));
    assert(resolve_col_rows(t1, col) == t1);
    assert(resolve_col_index(t1, col) == j);
    assert(find_row(t1.skip(1), key) == Some(i - 1));
    assert(resolve_row_rows(t1, key) == t1);
    assert(resolve_row_index(t1, key) == i);
    assert(t2 == write_cell(t1, i, j, v2));
    assert(t2.len() == t1.len());
    assert(t2[0] == t1[0]);
}

/// LAW: column append.  Writing to a column the header does not yet hold, on
/// a table whose data rows are non-empty and no longer than the header,
/// appends the column to the header and pads every pre-existing data row with
/// one empty cell at the new position; no existing cell value changes, and
/// only the row keyed by `key` (if one exists) receives `value` in the new
/// column.
pub proof fn lemma_column_append(
    rows: Seq<Seq<Seq<char>>>,
    key: Seq<char>,
    col: Seq<char>,
    value: Seq<char>,
)
    requires
        rows.len() > 0,
        rows[0].len() > 0,
        find_cell(rows[0], col) == None::<int>,
        forall|t: int| 1 <= t < rows.len() ==> 0 < (#[trigger] rows[t]).len() <= rows[0].len(),
    ensures
        ({
            let u = update_spec(rows, key, col, value);
            let h = rows[0].len() as int;
            u[0] == rows[0].push(col) && (forall|t: int|
                1 <= t < rows.len() ==> (#[trigger] u[t]).len() == h + 1) && (forall|t: int, m: int|
                1 <= t < rows.len() && 0 <= m < rows[t].len() ==> #[trigger] u[t][m] == rows[t][m])
                && (forall|t: int|
                1 <= t < rows.len() && find_row(rows.skip(1), key) != Some(t - 1)
                    ==> #[trigger] u[t][h] == empty_cell()) && (find_row(rows.skip(1), key)
                matches Some(i0) ==> u[i0 + 1][h] == value) && (find_row(rows.skip(1), key)
                is Some ==> u.len() == rows.len()) && (find_row(rows.skip(1), key) is None
                ==> u.len() == rows.len() + 1 && u[rows.len() as int].len() == h + 1
                    && u[rows.len() as int][0] == key && u[rows.len() as int][h] == value && (
                forall|m: int| 1 <= m < h ==> #[trigger] u[rows.len() as int][m] == empty_cell()))
        }),
{
    let u = update_spec(rows, key, col, value);
    let h = rows[0].len() as int;
    let base = ensure_nonempty(rows);
    assert(base == rows);
    let j = resolve_col_index(base, col);
    assert(j == h);
    let with_col = resolve_col_rows(base, col);
    assert(with_col.len() == rows.len());
    assert(with_col[0] == rows[0].push(col));
    assert forall|t: int| 1 <= t < rows.len() implies #[trigger] with_col[t] == pad_row(
        rows[t],
        h + 1,
    ) by {}
    // padding keeps each data row's first cell, so the row search is unmoved
    lemma_find_row_props(rows.skip(1), key);
    assert forall|m: int|
        0 <= m < rows.len() - 1 implies ((with_col.skip(1)[m].len() > 0 && with_col.skip(1)[m][0]
        == key) <==> (rows.skip(1)[m].len() > 0 && rows.skip(1)[m][0] == key)) by {
        assert(with_col.skip(1)[m] == with_col[m + 1]);
        assert(rows.skip(1)[m] == rows[m + 1]);
        assert(with_col[m + 1] == pad_row(rows[m + 1], h + 1));
        assert(rows[m + 1].len() > 0);
        assert(with_col[m + 1][0] == rows[m + 1][0]);
        assert(with_col[m + 1].len() > 0);
    }
    lemma_find_row_equiv(with_col.skip(1), rows.skip(1), key);
    let fr = find_row(rows.skip(1), key);
    let i = resolve_row_index(with_col, key);
    let with_row = resolve_row_rows(with_col, key);
    match fr {
        Some(i0) => {
            assert(with_row == with_col);
            assert(i == i0 + 1);
            assert(u == write_cell(with_col, i, h, value));
            assert(u.len() == rows.len());
            assert(0 <= i0 < rows.len() - 1);
            let r_old = with_col[i];
            assert(r_old == pad_row(rows[i], h + 1));
            assert(r_old.len() == h + 1);
            assert(pad_row(r_old, h + 1) == r_old);
            let r_new = r_old.update(h, value);
            assert(u == with_col.update(i, r_new));
            assert forall|t: int| 1 <= t < rows.len() implies (#[trigger] u[t]).len() == h + 1 by {
                assert(with_col[t] == pad_row(rows[t], h + 1));
                assert(with_col[t].len() == h + 1);
            }
            assert forall|t: int, m: int|
                1 <= t < rows.len() && 0 <= m < rows[t].len() implies #[trigger] u[t][m]
                == rows[t][m] by {
                assert(with_col[t] == pad_row(rows[t], h + 1));
                assert(with_col[t][m] == rows[t][m]);
                if t == i {
                    assert(u[t] == r_new);
                    assert(m < h);
                    assert(r_new[m] == r_old[m]);
                } else {
                    assert(u[t] == with_col[t]);
                }
            }
            assert forall|t: int|
                1 <= t < rows.len() && find_row(rows.skip(1), key) != Some(t - 1) implies #[trigger] u[t][h]
                == empty_cell() by {
                assert(t != i);
                assert(u[t] == with_col[t]);
                assert(with_col[t] == pad_row(rows[t], h + 1));
                assert(rows[t].len() <= h);
                assert(with_col[t][h] == empty_cell());
            }
            assert(u[i0 + 1][h] == value);
        },
        None => {
            assert(i == with_col.len());
            let newrow = pad_row(seq![key], h + 1);
            assert(with_row == with_col.push(newrow));
            assert(u == write_cell(with_row, i, h, value));
            assert(u.len() == rows.len() + 1);
            assert(newrow.len() == h + 1);
            assert(newrow[0] == seq![key][0]);
            assert forall|m: int| 1 <= m < h + 1 implies newrow[m] == empty_cell() by {
                assert(seq![key].len() == 1);
            }
            assert(pad_row(newrow, h + 1) == newrow);
            assert(u[rows.len() as int] == newrow.update(h, value));
            assert(u[rows.len() as int][0] == key);
            assert(u[rows.len() as int][h] == value);
            assert forall|m: int| 1 <= m < h implies #[trigger] u[rows.len() as int][m]
                == empty_cell() by {}
            assert forall|t: int| 1 <= t < rows.len() implies (#[trigger] u[t]).len() == h + 1 by {
                assert(u[t] == with_col[t]);
                assert(with_col[t] == pad_row(rows[t], h + 1));
            }
            assert forall|t: int, m: int|
                1 <= t < rows.len() && 0 <= m < rows[t].len() implies #[trigger] u[t][m]
                == rows[t][m] by {
                assert(u[t] == with_col[t]);
                assert(with_col[t] == pad_row(rows[t], h + 1));
            }
            assert forall|t: int|
                1 <= t < rows.len() && find_row(rows.skip(1), key) != Some(t - 1) implies #[trigger] u[t][h]
                == empty_cell() by {
                assert(u[t] == with_col[t]);
                assert(with_col[t] == pad_row(rows[t], h + 1));
                assert(rows[t].len() <= h);
            }
        },
    }
}

/// Two row sequences whose entries agree on carrying the key agree on the
/// first carrier.
proof fn lemma_find_row_equiv(a: Seq<Seq<Seq<char>>>, b: Seq<Seq<Seq<char>>>, key: Seq<char>)
    requires
        a.len() == b.len(),
        forall|m: int|
            0 <= m < a.len() ==> (((#[trigger] a[m]).len() > 0 && a[m][0] == key) <==> ((
            #[trigger] b[m]).len() > 0 && b[m][0] == key)),
    ensures
        find_row(a, key) == find_row(b, key),
    decreases a.len(),
{
    if a.len() > 0 {
        assert forall|m: int|
            0 <= m < a.drop_first().len() implies (((#[trigger] a.drop_first()[m]).len() > 0
            && a.drop_first()[m][0] == key) <==> ((#[trigger] b.drop_first()[m]).len() > 0
            && b.drop_first()[m][0] == key)) by {
            assert(a.drop_first()[m] == a[m + 1]);
            assert(b.drop_first()[m] == b[m + 1]);
        }
        lemma_find_row_equiv(a.drop_first(), b.drop_first(), key);
    }
}

/// LAW: row append.  Writing to a row key no data row carries, in a column
/// the header already holds (and which is not the row-key column), appends
/// one row: every existing row is unchanged, and the new row is sized to the
/// header with `key` in its first cell, `value` in the written column, and
/// empty cells elsewhere.
pub proof fn lemma_row_append(
    rows: Seq<Seq<Seq<char>>>,
    key: Seq<char>,
    col: Seq<char>,
    value: Seq<char>,
)
    requires
        rows.len() > 0,
        rows[0].len() > 0,
        find_row(rows.skip(1), key) == None::<int>,
        find_cell(rows[0], col) is Some,
        find_cell(rows[0], col) != Some(0int),
    ensures
        ({
            let u = update_spec(rows, key, col, value);
            let h = rows[0].len() as int;
            let j = resolve_col_index(rows, col);
            u.len() == rows.len() + 1 && (forall|t: int|
                0 <= t < rows.len() ==> #[trigger] u[t] == rows[t]) && u[rows.len() as int].len()
                == h && u[rows.len() as int][0] == key && u[rows.len() as int][j] == value && (
            forall|m: int|
                1 <= m < h && m != j ==> #[trigger] u[rows.len() as int][m] == empty_cell())
        }),
{
    let u = update_spec(rows, key, col, value);
    let h = rows[0].len() as int;
    let base = ensure_nonempty(rows);
    assert(base == rows);
    lemma_find_cell_props(rows[0], col);
    let j = resolve_col_index(rows, col);
    assert(1 <= j < h);
    let with_col = resolve_col_rows(base, col);
    assert(with_col == rows);
    let i = resolve_row_index(with_col, key);
    assert(i == rows.len());
    let with_row = resolve_row_rows(with_col, key);
    let newrow = pad_row(seq![key], h);
    assert(with_row == rows.push(newrow));
    assert(newrow.len() == h);
    assert(newrow[0] == key) by {
        if seq![key].len() < h {
            assert(newrow[0] == seq![key][0]);
        }
    }
    assert forall|m: int| 1 <= m < h implies #[trigger] newrow[m] == empty_cell() by {
        assert(seq![key].len() == 1);
    }
    assert(u == write_cell(with_row, i, j, value));
    assert(pad_row(newrow, j + 1) == newrow);
    let r_new = newrow.update(j, value);
    assert(u == with_row.update(i, r_new));
    assert(u.len() == rows.len() + 1);
    assert forall|t: int| 0 <= t < rows.len() implies #[trigger] u[t] == rows[t] by {}
    assert(u[rows.len() as int] == r_new);
}

/// The result matrix held in memory: ordered rows of string cells.
pub struct Table {
    rows: Vec<Vec<String>>,
}

impl View for Table {
    type V = Seq<Seq<Seq<char>>>;

    closed spec fn view(&self) -> Seq<Seq<Seq<char>>> {
        self.rows.deep_view()
    }
}

impl Table {
    /// A table with no rows at all.
    pub fn new() -> (t: Table)
        ensures
            t@ == Seq::<Seq<Seq<char>>>::empty(),
    {
        let t = Table { rows: Vec::new() };
        proof {
            assert(t@ =~= Seq::<Seq<Seq<char>>>::empty());
        }
        t
    }

    /// Wraps parsed records as a table.
    pub fn from_records(records: Vec<Vec<String>>) -> (t: Table)
        ensures
            t@ == records.deep_view(),
    {
        Table { rows: records }
    }

    /// The rows as records, for rendering back to storage.
    pub fn as_records(&self) -> (r: &Vec<Vec<String>>)
        ensures
            r.deep_view() == self@,
    {
        &self.rows
    }

    /// The number of rows, the header row included.
    pub fn row_count(&self) -> (n: usize)
        ensures
            n == self@.len(),
    {
        self.rows.len()
    }

    /// The number of header cells, zero for a table with no rows.
    pub fn header_count(&self) -> (n: usize)
        ensures
            n == (if self@.len() == 0 {
                0int
            } else {
                self@[0].len() as int
            }),
    {
        if self.rows.len() == 0 {
            0
        } else {
            let n = self.rows[0].len();
            proof {
                assert(self@[0] == self.rows@[0].deep_view());
            }
            n
        }
    }

    fn find_col_in_header(&self, name: &String) -> (r: Option<usize>)
        requires
            self@.len() > 0,
        ensures
            (r matches Some(j) ==> find_cell(self@[0], name@) == Some(j as int) && j
                < self@[0].len()),
            (r is None ==> find_cell(self@[0], name@) == None::<int>),
    {
        let hlen = self.rows[0].len();
        proof {
            assert(self@[0] == self.rows@[0].deep_view());
        }
        let mut k: usize = 0;
        while k < hlen
            invariant
                self@.len() > 0,
                self@[0] == self.rows@[0].deep_view(),
                hlen == self@[0].len(),
                0 <= k <= hlen,
                forall|m: int| 0 <= m < k ==> self@[0][m] != name@,
            decreases hlen - k,
        {
            proof {
                assert(self@[0][k as int] == self.rows@[0].deep_view()[k as int]);
            }
            if self.rows[0][k] == *name {
                proof {
                    lemma_find_cell_at_first(self@[0], name@, k as int);
                }
                return Some(k);
            }
            k += 1;
        }
        proof {
            lemma_find_cell_absent(self@[0], name@);
        }
        None
    }

    fn find_data_row(&self, key: &String) -> (r: Option<usize>)
        requires
            self@.len() > 0,
        ensures
            (r matches Some(i) ==> 1 <= i < self@.len() && find_row(self@.skip(1), key@) == Some(
                i - 1,
            )),
            (r is None ==> find_row(self@.skip(1), key@) == None::<int>),
    {
        let n = self.rows.len();
        let mut i: usize = 1;
        while i < n
            invariant
                self@.len() == n,
                n >= 1,
                1 <= i <= n,
                forall|m: int|
                    0 <= m < i - 1 ==> !((#[trigger] self@[m + 1]).len() > 0 && self@[m + 1][0]
                        == key@),
            decreases n - i,
        {
            proof {
                assert(self@[i as int] == self.rows@[i as int].deep_view());
            }
            let row_len = self.rows[i].len();
            if row_len > 0 {
                proof {
                    assert(self@[i as int][0] == self.rows@[i as int].deep_view()[0]);
                }
                if self.rows[i][0] == *key {
                    proof {
                        assert forall|m: int|
                            0 <= m < i - 1 implies !(self@.skip(1)[m].len() > 0 && self@.skip(
                            1,
                        )[m][0] == key@) by {
                            assert(self@.skip(1)[m] == self@[m + 1]);
                        }
                        assert(self@.skip(1)[i - 1] == self@[i as int]);
                        lemma_find_row_at_first(self@.skip(1), key@, i - 1);
                    }
                    return Some(i);
                }
            }
            i += 1;
        }
        proof {
            assert forall|m: int|
                0 <= m < self@.skip(1).len() implies !(self@.skip(1)[m].len() > 0 && self@.skip(
                1,
            )[m][0] == key@) by {
                assert(self@.skip(1)[m] == self@[m + 1]);
            }
            lemma_find_row_absent(self@.skip(1), key@);
        }
        None
    }

    fn ensure_header(&mut self)
        ensures
            final(self)@ == ensure_nonempty(old(self)@),
            final(self)@.len() > 0,
    {
        if self.rows.len() == 0 {
            let mut header: Vec<String> = Vec::new();
            header.push(row_key_label_str().to_owned());
            self.rows.push(header);
            proof {
                assert(self@ =~~= seq![seq![row_key_label()]]);
            }
        }
    }

    fn resolve_col(&mut self, col: &String) -> (j: usize)
        requires
            old(self)@.len() > 0,
        ensures
            final(self)@ == resolve_col_rows(old(self)@, col@),
            j as int == resolve_col_index(old(self)@, col@),
            final(self)@.len() == old(self)@.len(),
            final(self)@.len() > 0,
            0 <= j < final(self)@[0].len(),
    {
        let ghost orig = self@;
        if let Some(k) = self.find_col_in_header(col) {
            proof {
                lemma_find_cell_props(orig[0], col@);
            }
            return k;
        }
        // the column is new: append it to the header and pad every data row
        let hlen = self.rows[0].len();
        proof {
            assert(orig[0] == self.rows@[0].deep_view());
        }
        let mut header = self.rows.remove(0);
        header.push(col.clone());
        let new_len = header.len();
        self.rows.insert(0, header);
        proof {
            assert(self@[0] =~= orig[0].push(col@));
            assert forall|t: int| 1 <= t < self@.len() implies self@[t] == orig[t] by {}
        }
        let ghost with_hdr = self@;
        let mut i: usize = 1;
        while i < self.rows.len()
            invariant
                self@.len() == with_hdr.len(),
                with_hdr.len() == orig.len(),
                1 <= i <= self@.len(),
                new_len == orig[0].len() + 1,
                self@[0] == with_hdr[0],
                forall|t: int| 1 <= t < i ==> self@[t] =~= pad_row(with_hdr[t], new_len as int),
                forall|t: int| i <= t < self@.len() ==> self@[t] == with_hdr[t],
            decreases self@.len() - i,
        {
            let ghost before = self@;
            let mut row = self.rows.remove(i);
            let ghost row_orig = row.deep_view();
            proof {
                assert(row_orig == before[i as int]);
            }
            while row.len() < new_len
                invariant
                    row_orig.len() <= row.deep_view().len(),
                    row.deep_view().len() <= (if row_orig.len() >= new_len {
                        row_orig.len() as int
                    } else {
                        new_len as int
                    }),
                    forall|t: int| 0 <= t < row_orig.len() ==> row.deep_view()[t] == row_orig[t],
                    forall|t: int|
                        row_orig.len() <= t < row.deep_view().len() ==> row.deep_view()[t]
                            == empty_cell(),
                decreases new_len - row.len(),
            {
                let ghost dv = row.deep_view();
                row.push(String::new());
                proof {
                    assert(row.deep_view() =~= dv.push(empty_cell()));
                }
            }
            proof {
                assert(row.deep_view() =~= pad_row(row_orig, new_len as int));
            }
            self.rows.insert(i, row);
            proof {
                assert(self@ =~= before.update(
                    i as int,
                    pad_row(before[i as int], new_len as int),
                ));
                assert(before[i as int] == with_hdr[i as int]);
            }
            i += 1;
        }
        proof {
            assert(self@ =~~= resolve_col_rows(orig, col@));
        }
        hlen
    }

    fn resolve_row(&mut self, key: &String) -> (i: usize)
        requires
            old(self)@.len() > 0,
        ensures
            final(self)@ == resolve_row_rows(old(self)@, key@),
            i as int == resolve_row_index(old(self)@, key@),
            final(self)@.len() > 0,
            1 <= i < final(self)@.len(),
            final(self)@[0] == old(self)@[0],
    {
        let ghost orig = self@;
        if let Some(i) = self.find_data_row(key) {
            return i;
        }
        // the row key is new: append a row sized to the header
        let n = self.rows.len();
        let hlen = self.rows[0].len();
        proof {
            assert(orig[0] == self.rows@[0].deep_view());
        }
        let mut row: Vec<String> = Vec::new();
        row.push(key.clone());
        proof {
            assert(row.deep_view() =~= seq![key@]);
        }
        while row.len() < hlen
            invariant
                1 <= row.deep_view().len(),
                row.deep_view().len() <= (if 1 >= hlen {
                    1int
                } else {
                    hlen as int
                }),
                row.deep_view()[0] == key@,
                forall|t: int| 1 <= t < row.deep_view().len() ==> row.deep_view()[t] == empty_cell(),
            decreases hlen - row.len(),
        {
            let ghost dv = row.deep_view();
            row.push(String::new());
            proof {
                assert(row.deep_view() =~= dv.push(empty_cell()));
            }
        }
        proof {
            assert(row.deep_view() =~= pad_row(seq![key@], hlen as int));
        }
        self.rows.push(row);
        proof {
            assert(self@ =~= orig.push(pad_row(seq![key@], orig[0].len() as int)));
        }
        n
    }

    fn write_value(&mut self, i: usize, j: usize, value: &str)
        requires
            0 <= i < old(self)@.len(),
        ensures
            final(self)@ == write_cell(old(self)@, i as int, j as int, value@),
    {
        let ghost orig = self@;
        let value_string = value.to_owned();
        let mut row = self.rows.remove(i);
        let ghost row_orig = row.deep_view();
        proof {
            assert(row_orig == orig[i as int]);
        }
        while row.len() <= j
            invariant
                row_orig.len() <= row.deep_view().len(),
                row.deep_view().len() <= (if row_orig.len() >= j + 1 {
                    row_orig.len() as int
                } else {
                    j + 1
                }),
                forall|t: int| 0 <= t < row_orig.len() ==> row.deep_view()[t] == row_orig[t],
                forall|t: int|
                    row_orig.len() <= t < row.deep_view().len() ==> row.deep_view()[t]
                        == empty_cell(),
            decreases j + 1 - row.len(),
        {
            let ghost dv = row.deep_view();
            row.push(String::new());
            proof {
                assert(row.deep_view() =~= dv.push(empty_cell()));
            }
        }
        proof {
            assert(row.deep_view() =~= pad_row(row_orig, j + 1));
        }
        let ghost padded = row.deep_view();
        row.remove(j);
        row.insert(j, value_string);
        proof {
            assert(row.deep_view() =~= padded.update(j as int, value@));
        }
        self.rows.insert(i, row);
        proof {
            assert(self@ =~= write_cell(orig, i as int, j as int, value@));
        }
    }

    /// One read-modify-write update: resolves or appends the column and the
    /// row, pads the target row as far as the column, and overwrites that one
    /// cell with `value`.
    pub fn update(&mut self, key: &str, col: &str, value: &str)
        ensures
            final(self)@ == update_spec(old(self)@, key@, col@, value@),
    {
        let key_string = key.to_owned();
        let col_string = col.to_owned();
        self.ensure_header();
        let j = self.resolve_col(&col_string);
        let i = self.resolve_row(&key_string);
        self.write_value(i, j, value);
    }

    /// Reads one cell back: `None` when the column or the row is absent; a
    /// present row's missing cell reads as the empty string.
    pub fn get(&self, key: &str, col: &str) -> (r: Option<String>)
        ensures
            r.deep_view() == cell_at(self@, key@, col@),
    {
        if self.rows.len() == 0 {
            return None;
        }
        let col_string = col.to_owned();
        let key_string = key.to_owned();
        let j = match self.find_col_in_header(&col_string) {
            None => {
                return None;
            },
            Some(j) => j,
        };
        let i = match self.find_data_row(&key_string) {
            None => {
                return None;
            },
            Some(i) => i,
        };
        proof {
            assert(self@[i as int] == self.rows@[i as int].deep_view());
        }
        let row_len = self.rows[i].len();
        if j < row_len {
            let cell = self.rows[i][j].clone();
            proof {
                let jj = j as int;
                assert(self@[i as int][jj] == self.rows@[i as int].deep_view()[jj]);
            }
            Some(cell)
        } else {
            Some(String::new())
        }
    }
}

} // verus!
