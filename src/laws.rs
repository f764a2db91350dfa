//! Properties of the tables that the accumulator builds.
use vstd::prelude::*;
use crate::table::{
    aligned, aligned_columns, cells_named, fill, finalized, first_seen, flat, max_len, names_of,
    record_cells, selected, selected_rows, stream_cells, tabulated, lemma_cells_named_absent,
    lemma_first_seen_contains, lemma_first_seen_distinct, lemma_max_len_bounds, Record,
};
use crate::value::CellV;

verus! {

/// The rows of two streams, one after the other, are those of the whole.
pub proof fn lemma_selected_rows_append(
    a: Seq<Record>,
    b: Seq<Record>,
    w: Seq<char>,
    m: Seq<(Seq<char>, Seq<char>)>,
)
    ensures
        selected_rows(a + b, w, m) == selected_rows(a, w, m) + selected_rows(b, w, m),
    decreases b.len(),
{
    if b.len() == 0 {
        assert(a + b =~= a);
        assert(selected_rows(a, w, m) + selected_rows(b, w, m) =~= selected_rows(a, w, m));
    } else {
        lemma_selected_rows_append(a, b.drop_last(), w, m);
        assert((a + b).drop_last() =~= a + b.drop_last());
        assert((a + b).last() == b.last());
        if selected(b.last(), w) {
            assert(selected_rows(a, w, m) + selected_rows(b.drop_last(), w, m).push(
                record_cells(b.last(), m),
            ) =~= (selected_rows(a, w, m) + selected_rows(b.drop_last(), w, m)).push(
                record_cells(b.last(), m),
            ));
        }
    }
}

/// Every column of a finished table has the same length: the greatest
/// length that any column reached while accumulating, and at least one
/// column reached it. A column keeps its own cells in order, and every cell
/// after them is the absent marker.
pub proof fn lemma_rectangular(rs: Seq<Record>, w: Seq<char>, m: Seq<(Seq<char>, Seq<char>)>)
    ensures
        ({
            let cols = aligned_columns(selected_rows(rs, w, m));
            let t = tabulated(rs, w, m);
            &&& t.len() == cols.len()
            &&& forall|j: int| 0 <= j < cols.len() ==> cols[j].1.len() <= max_len(cols)
            &&& cols.len() > 0 ==> exists|j: int|
                0 <= j < cols.len() && cols[j].1.len() == max_len(cols)
            &&& forall|j: int| 0 <= j < t.len() ==> #[trigger] t[j].1.len() == max_len(cols)
            &&& forall|j: int, k: int|
                0 <= j < t.len() && 0 <= k < cols[j].1.len() ==> #[trigger] t[j].1[k]
                    == cols[j].1[k]
            &&& forall|j: int, k: int|
                0 <= j < t.len() && cols[j].1.len() <= k < max_len(cols) ==> #[trigger] t[j].1[k]
                    == CellV::Null
        }),
{
    let cols = aligned_columns(selected_rows(rs, w, m));
    lemma_max_len_bounds(cols);
}

/// The columns come in the order in which their names were first seen in
/// the stream of selected records, each name once.
pub proof fn lemma_column_order(rs: Seq<Record>, w: Seq<char>, m: Seq<(Seq<char>, Seq<char>)>)
    ensures
        tabulated(rs, w, m).map_values(|c: (Seq<char>, Seq<CellV>)| c.0) == first_seen(
            names_of(stream_cells(rs, w, m)),
        ),
        first_seen(names_of(stream_cells(rs, w, m))).no_duplicates(),
{
    lemma_first_seen_distinct(names_of(stream_cells(rs, w, m)));
    assert(tabulated(rs, w, m).map_values(|c: (Seq<char>, Seq<CellV>)| c.0) =~= first_seen(
        names_of(stream_cells(rs, w, m)),
    ));
}

/// A record of another kind contributes nothing: taking it out of the
/// stream, wherever it stands, leaves the table unchanged.
pub proof fn lemma_other_kinds_ignored(
    a: Seq<Record>,
    r: Record,
    b: Seq<Record>,
    w: Seq<char>,
    m: Seq<(Seq<char>, Seq<char>)>,
)
    requires
        !selected(r, w),
    ensures
        tabulated(a + seq![r] + b, w, m) == tabulated(a + b, w, m),
{
    lemma_selected_rows_append(a + seq![r], b, w, m);
    lemma_selected_rows_append(a, seq![r], w, m);
    lemma_selected_rows_append(a, b, w, m);
    assert(seq![r].drop_last() =~= Seq::<Record>::empty());
    assert(seq![r].last() == r);
    assert(selected_rows(seq![r], w, m) == selected_rows(seq![r].drop_last(), w, m));
    assert(selected_rows(Seq::<Record>::empty(), w, m) =~= Seq::empty());
    assert(selected_rows(seq![r], w, m) =~= Seq::empty());
    assert(selected_rows(a, w, m) + selected_rows(seq![r], w, m) =~= selected_rows(a, w, m));
}

/// Only the records of the wanted kind count: the table of a stream is the
/// table of its records of that kind alone, however many others stand
/// between them.
pub proof fn lemma_only_wanted_kind_counts(
    rs: Seq<Record>,
    w: Seq<char>,
    m: Seq<(Seq<char>, Seq<char>)>,
)
    ensures
        selected_rows(rs, w, m) == selected_rows(rs.filter(|r: Record| selected(r, w)), w, m),
        tabulated(rs, w, m) == tabulated(rs.filter(|r: Record| selected(r, w)), w, m),
    decreases rs.len(),
{
    reveal(Seq::filter);
    if rs.len() > 0 {
        lemma_only_wanted_kind_counts(rs.drop_last(), w, m);
        let f = rs.drop_last().filter(|r: Record| selected(r, w));
        if selected(rs.last(), w) {
            assert(f.push(rs.last()).drop_last() =~= f);
            assert(f.push(rs.last()).last() == rs.last());
        }
    }
}

/// A record of the wanted kind, in whatever letter case, adds one row: its
/// fields' cells, in field order, after the rows of the records before it.
pub proof fn lemma_wanted_kind_kept(
    a: Seq<Record>,
    r: Record,
    w: Seq<char>,
    m: Seq<(Seq<char>, Seq<char>)>,
)
    requires
        selected(r, w),
    ensures
        selected_rows(a.push(r), w, m) == selected_rows(a, w, m).push(record_cells(r, m)),
        record_cells(r, m).len() == r.fields@.len(),
{
    assert(a.push(r).drop_last() =~= a);
}

/// Where no record is of the wanted kind, the table has no columns, and so
/// no rows.
pub proof fn lemma_absent_kind_empty(rs: Seq<Record>, w: Seq<char>, m: Seq<(Seq<char>, Seq<char>)>)
    requires
        forall|i: int| 0 <= i < rs.len() ==> !selected(#[trigger] rs[i], w),
    ensures
        tabulated(rs, w, m).len() == 0,
        selected_rows(rs, w, m).len() == 0,
    decreases rs.len(),
{
    if rs.len() > 0 {
        assert forall|i: int| 0 <= i < rs.drop_last().len() implies !selected(
            #[trigger] rs.drop_last()[i],
            w,
        ) by {
            assert(rs.drop_last()[i] == rs[i]);
        }
        lemma_absent_kind_empty(rs.drop_last(), w, m);
        assert(!selected(rs[rs.len() - 1], w));
    }
    assert(selected_rows(rs, w, m) =~= Seq::empty());
    assert(flat(selected_rows(rs, w, m)) =~= Seq::empty());
    assert(names_of(flat(selected_rows(rs, w, m))) =~= Seq::empty());
}

/// The table is a function of the records, the wanted kind and the mapping
/// alone: two tables built from the same input are identical.
pub proof fn lemma_deterministic(
    rs: Seq<Record>,
    w: Seq<char>,
    m: Seq<(Seq<char>, Seq<char>)>,
    t1: Seq<(Seq<char>, Seq<CellV>)>,
    t2: Seq<(Seq<char>, Seq<CellV>)>,
)
    requires
        t1 == tabulated(rs, w, m),
        t2 == tabulated(rs, w, m),
    ensures
        t1 == t2,
        t1 == finalized(aligned_columns(selected_rows(rs, w, m))),
{
}

/// The cell that a row gives column `n`: its first cell under that name,
/// or the absent marker.
pub open spec fn row_cell(row: Seq<(Seq<char>, CellV)>, n: Seq<char>) -> CellV {
    if cells_named(row, n).len() > 0 {
        cells_named(row, n)[0]
    } else {
        CellV::Null
    }
}

proof fn lemma_names_of_append(a: Seq<(Seq<char>, CellV)>, b: Seq<(Seq<char>, CellV)>)
    ensures
        names_of(a + b) == names_of(a) + names_of(b),
{
    assert(names_of(a + b) =~= names_of(a) + names_of(b));
}

/// A row without repeated names has at most one cell under each name.
proof fn lemma_cells_named_at_most_one(row: Seq<(Seq<char>, CellV)>, n: Seq<char>)
    requires
        names_of(row).no_duplicates(),
    ensures
        cells_named(row, n).len() <= 1,
    decreases row.len(),
{
    if row.len() > 0 {
        let d = row.drop_last();
        assert(names_of(d) =~= names_of(row).drop_last());
        assert(names_of(d).no_duplicates()) by {
            assert forall|i: int, j: int|
                0 <= i < names_of(d).len() && 0 <= j < names_of(d).len() && i != j implies names_of(
                d,
            )[i] != names_of(d)[j] by {
                assert(names_of(d)[i] == names_of(row)[i]);
                assert(names_of(d)[j] == names_of(row)[j]);
            }
        }
        if row.last().0 == n {
            assert forall|i: int| 0 <= i < names_of(d).len() implies names_of(d)[i] != n by {
                assert(names_of(row)[i] == names_of(d)[i]);
                assert(names_of(row)[row.len() - 1] == n);
            }
            lemma_cells_named_absent(d, n);
        } else {
            lemma_cells_named_at_most_one(d, n);
        }
    }
}

/// A name of any one row is a name of the rows together.
proof fn lemma_flat_contains(rows: Seq<Seq<(Seq<char>, CellV)>>, i: int, n: Seq<char>)
    requires
        0 <= i < rows.len(),
        names_of(rows[i]).contains(n),
    ensures
        names_of(flat(rows)).contains(n),
    decreases rows.len(),
{
    let d = rows.drop_last();
    lemma_names_of_append(flat(d), rows.last());
    if i == rows.len() - 1 {
        let k = choose|k: int| 0 <= k < names_of(rows[i]).len() && names_of(rows[i])[k] == n;
        assert(names_of(flat(rows))[names_of(flat(d)).len() + k] == n);
    } else {
        assert(d[i] == rows[i]);
        lemma_flat_contains(d, i, n);
        let k = choose|k: int| 0 <= k < names_of(flat(d)).len() && names_of(flat(d))[k] == n;
        assert(names_of(flat(rows))[k] == n);
    }
}

/// One row per record: where no row repeats a name, each column has one
/// cell per row, and the cell of row `i` is what row `i` filed under the
/// column's name, or the absent marker.
pub proof fn lemma_column_per_row(rows: Seq<Seq<(Seq<char>, CellV)>>, n: Seq<char>)
    requires
        forall|i: int| 0 <= i < rows.len() ==> (#[trigger] names_of(rows[i])).no_duplicates(),
        names_of(flat(rows)).contains(n),
    ensures
        aligned(rows, n).len() == rows.len(),
        forall|i: int| 0 <= i < rows.len() ==> #[trigger] aligned(rows, n)[i] == row_cell(rows[i], n),
    decreases rows.len(),
{
    if rows.len() == 0 {
        assert(names_of(flat(rows)).len() == 0);
    } else {
        let d = rows.drop_last();
        let j = d.len();
        let l = rows.last();
        assert(names_of(l).no_duplicates()) by {
            assert(names_of(rows[rows.len() - 1]).no_duplicates());
        }
        lemma_cells_named_at_most_one(l, n);
        let c = cells_named(l, n);
        let a = aligned(d, n);
        if names_of(flat(d)).contains(n) {
            assert forall|i: int| 0 <= i < d.len() implies (#[trigger] names_of(
                d[i],
            )).no_duplicates() by {
                assert(d[i] == rows[i]);
            }
            lemma_column_per_row(d, n);
            assert(fill(a, j as nat) == a);
        } else {
            assert(a == Seq::<CellV>::empty());
            assert forall|i: int| 0 <= i < j implies row_cell(d[i], n) == CellV::Null by {
                if names_of(d[i]).contains(n) {
                    lemma_flat_contains(d, i, n);
                }
                lemma_cells_named_absent(d[i], n);
            }
        }
        let b = fill(a, j as nat) + c;
        assert(aligned(rows, n) == fill(b, rows.len()));
        assert forall|i: int| 0 <= i < rows.len() implies #[trigger] aligned(rows, n)[i]
            == row_cell(rows[i], n) by {
            if i < j {
                assert(rows[i] == d[i]);
            } else {
                assert(rows[i] == l);
            }
        }
    }
}

/// One row per record, for a whole table: where no selected record repeats
/// a column name, every column has exactly one cell per selected record,
/// and row `i` of a column holds what the `i`-th selected record filed
/// under its name, or the absent marker.
pub proof fn lemma_one_row_per_record(
    rs: Seq<Record>,
    w: Seq<char>,
    m: Seq<(Seq<char>, Seq<char>)>,
)
    requires
        forall|i: int|
            0 <= i < selected_rows(rs, w, m).len() ==> (#[trigger] names_of(
                selected_rows(rs, w, m)[i],
            )).no_duplicates(),
    ensures
        ({
            let rows = selected_rows(rs, w, m);
            let t = tabulated(rs, w, m);
            forall|j: int|
                0 <= j < t.len() ==> {
                    &&& (#[trigger] t[j]).1.len() == rows.len()
                    &&& forall|i: int|
                        0 <= i < rows.len() ==> #[trigger] t[j].1[i] == row_cell(rows[i], t[j].0)
                }
        }),
{
    let rows = selected_rows(rs, w, m);
    let cols = aligned_columns(rows);
    let fs = first_seen(names_of(flat(rows)));
    assert forall|j: int| 0 <= j < cols.len() implies #[trigger] cols[j].1.len() == rows.len()
        && forall|i: int| 0 <= i < rows.len() ==> #[trigger] cols[j].1[i] == row_cell(
        rows[i],
        cols[j].0,
    ) by {
        lemma_first_seen_contains(names_of(flat(rows)), fs[j]);
        lemma_column_per_row(rows, fs[j]);
    }
    lemma_max_len_bounds(cols);
    if cols.len() > 0 {
        let j = choose|j: int| 0 <= j < cols.len() && cols[j].1.len() == max_len(cols);
        assert(max_len(cols) == rows.len());
    }
    let t = tabulated(rs, w, m);
    assert forall|j: int| 0 <= j < t.len() implies (#[trigger] t[j]).1.len() == rows.len()
        && forall|i: int| 0 <= i < rows.len() ==> #[trigger] t[j].1[i] == row_cell(rows[i], t[j].0)
        by {
        assert(cols[j].1.len() == rows.len());
        assert(t[j].1 == fill(cols[j].1, max_len(cols)));
        assert(t[j].1 == cols[j].1);
    }
}

} // verus!
