//! Records, the column accumulator and the finished table.
use vstd::prelude::*;
use crate::kinds::{lower_of, lowercase};
use crate::naming::{column_name, mapping_view, resolve_name};
use crate::value::{coerce, coerced, Cell, CellV, Value};

verus! {

/// One key/value pair of a record.
#[derive(Debug, Clone, PartialEq, Eq)]
pub struct Field {
    pub key: usize,
    pub value: Value,
}

/// One decoded record: its kind's textual form and its fields in order.
#[derive(Debug, Clone, PartialEq, Eq)]
pub struct Record {
    pub kind: String,
    pub fields: Vec<Field>,
}

/// A named sequence of cells.
#[derive(Debug, Clone, PartialEq, Eq)]
pub struct Column {
    pub name: String,
    pub cells: Vec<Cell>,
}

/// The finished table: its columns in order.
#[derive(Debug, Clone, PartialEq, Eq)]
pub struct Table {
    pub columns: Vec<Column>,
}

pub open spec fn cells_view(c: Seq<Cell>) -> Seq<CellV> {
    c.map_values(|x: Cell| x@)
}

impl View for Column {
    type V = (Seq<char>, Seq<CellV>);

    open spec fn view(&self) -> (Seq<char>, Seq<CellV>) {
        (self.name@, cells_view(self.cells@))
    }
}

pub open spec fn columns_view(c: Seq<Column>) -> Seq<(Seq<char>, Seq<CellV>)> {
    c.map_values(|x: Column| x@)
}

impl View for Table {
    type V = Seq<(Seq<char>, Seq<CellV>)>;

    open spec fn view(&self) -> Seq<(Seq<char>, Seq<CellV>)> {
        columns_view(self.columns@)
    }
}

/// Whether a record is of the wanted kind, given the wanted kind's lower-case form.
pub open spec fn selected(r: Record, wanted: Seq<char>) -> bool {
    lower_of(r.kind@) == wanted
}

/// The (column name, cell) pairs that a record contributes, in field order.
pub open spec fn record_cells(r: Record, m: Seq<(Seq<char>, Seq<char>)>) -> Seq<(Seq<char>, CellV)> {
    r.fields@.map_values(|f: Field| (column_name(m, f.key as nat), coerced(f.value)))
}

/// The pairs of each selected record, one sequence per record, in stream order.
pub open spec fn selected_rows(
    rs: Seq<Record>,
    wanted: Seq<char>,
    m: Seq<(Seq<char>, Seq<char>)>,
) -> Seq<Seq<(Seq<char>, CellV)>>
    decreases rs.len(),
{
    if rs.len() == 0 {
        Seq::empty()
    } else if selected(rs.last(), wanted) {
        selected_rows(rs.drop_last(), wanted, m).push(record_cells(rs.last(), m))
    } else {
        selected_rows(rs.drop_last(), wanted, m)
    }
}

/// The rows one after the other.
pub open spec fn flat(rows: Seq<Seq<(Seq<char>, CellV)>>) -> Seq<(Seq<char>, CellV)>
    decreases rows.len(),
{
    if rows.len() == 0 {
        Seq::empty()
    } else {
        flat(rows.drop_last()) + rows.last()
    }
}

/// The (column name, cell) pairs of all selected records, in stream order.
pub open spec fn stream_cells(
    rs: Seq<Record>,
    wanted: Seq<char>,
    m: Seq<(Seq<char>, Seq<char>)>,
) -> Seq<(Seq<char>, CellV)> {
    flat(selected_rows(rs, wanted, m))
}

/// The distinct names of `s`, in the order of their first occurrence.
pub open spec fn first_seen(s: Seq<Seq<char>>) -> Seq<Seq<char>>
    decreases s.len(),
{
    if s.len() == 0 {
        Seq::empty()
    } else if first_seen(s.drop_last()).contains(s.last()) {
        first_seen(s.drop_last())
    } else {
        first_seen(s.drop_last()).push(s.last())
    }
}

pub open spec fn names_of(p: Seq<(Seq<char>, CellV)>) -> Seq<Seq<char>> {
    p.map_values(|x: (Seq<char>, CellV)| x.0)
}

/// The cells filed under name `n`, in order.
pub open spec fn cells_named(p: Seq<(Seq<char>, CellV)>, n: Seq<char>) -> Seq<CellV>
    decreases p.len(),
{
    if p.len() == 0 {
        Seq::empty()
    } else if p.last().0 == n {
        cells_named(p.drop_last(), n).push(p.last().1)
    } else {
        cells_named(p.drop_last(), n)
    }
}


/// `cells` followed by absent markers up to length `n`, where shorter.
pub open spec fn fill(cells: Seq<CellV>, n: nat) -> Seq<CellV> {
    if cells.len() >= n {
        cells
    } else {
        cells + Seq::new((n - cells.len()) as nat, |i: int| CellV::Null)
    }
}

/// The cells of column `n` after `rows`: a column first seen in row `k`
/// starts with `k` absent markers; each row appends the column's cells of
/// that row, and a column that row does not fill gets an absent marker.
pub open spec fn aligned(rows: Seq<Seq<(Seq<char>, CellV)>>, n: Seq<char>) -> Seq<CellV>
    decreases rows.len(),
{
    if rows.len() == 0 || !names_of(flat(rows)).contains(n) {
        Seq::empty()
    } else {
        fill(
            fill(aligned(rows.drop_last(), n), (rows.len() - 1) as nat) + cells_named(rows.last(), n),
            rows.len(),
        )
    }
}

/// The columns after `rows`, in first-seen order, before the final padding.
pub open spec fn aligned_columns(rows: Seq<Seq<(Seq<char>, CellV)>>) -> Seq<(Seq<char>, Seq<CellV>)> {
    first_seen(names_of(flat(rows))).map_values(|n: Seq<char>| (n, aligned(rows, n)))
}

/// The columns after `rows` and the first pairs `cur` of the next row.
pub open spec fn partial(
    rows: Seq<Seq<(Seq<char>, CellV)>>,
    cur: Seq<(Seq<char>, CellV)>,
) -> Seq<(Seq<char>, Seq<CellV>)> {
    first_seen(names_of(flat(rows) + cur)).map_values(
        |n: Seq<char>| (n, fill(aligned(rows, n), rows.len()) + cells_named(cur, n)),
    )
}

/// The greatest column length (0 for no columns).
pub open spec fn max_len(cols: Seq<(Seq<char>, Seq<CellV>)>) -> nat
    decreases cols.len(),
{
    if cols.len() == 0 {
        0
    } else if max_len(cols.drop_last()) >= cols.last().1.len() {
        max_len(cols.drop_last())
    } else {
        cols.last().1.len()
    }
}

/// Every column padded with absent markers to the greatest length.
pub open spec fn finalized(cols: Seq<(Seq<char>, Seq<CellV>)>) -> Seq<(Seq<char>, Seq<CellV>)> {
    cols.map_values(|c: (Seq<char>, Seq<CellV>)| (c.0, fill(c.1, max_len(cols))))
}

/// The table built from `rs` for the kind whose lower-case form is `wanted`.
pub open spec fn tabulated(
    rs: Seq<Record>,
    wanted: Seq<char>,
    m: Seq<(Seq<char>, Seq<char>)>,
) -> Seq<(Seq<char>, Seq<CellV>)> {
    finalized(aligned_columns(selected_rows(rs, wanted, m)))
}

pub proof fn lemma_first_seen_contains(s: Seq<Seq<char>>, n: Seq<char>)
    ensures
        first_seen(s).contains(n) <==> s.contains(n),
    decreases s.len(),
{
    if s.len() > 0 {
        let s0 = s.drop_last();
        let f0 = first_seen(s0);
        lemma_first_seen_contains(s0, n);
        if s.contains(n) {
            if n == s.last() {
                if !f0.contains(n) {
                    assert(first_seen(s)[f0.len() as int] == n);
                }
            } else {
                let j = choose|j: int| 0 <= j < s.len() && s[j] == n;
                assert(s0[j] == n);
                let k = choose|k: int| 0 <= k < f0.len() && f0[k] == n;
                assert(first_seen(s)[k] == n);
            }
        }
        if first_seen(s).contains(n) {
            let k = choose|k: int| 0 <= k < first_seen(s).len() && first_seen(s)[k] == n;
            if k < f0.len() {
                assert(f0[k] == n);
                let j = choose|j: int| 0 <= j < s0.len() && s0[j] == n;
                assert(s[j] == n);
            } else {
                assert(s[s.len() - 1] == n);
            }
        }
    }
}

pub proof fn lemma_first_seen_distinct(s: Seq<Seq<char>>)
    ensures
        first_seen(s).no_duplicates(),
    decreases s.len(),
{
    if s.len() > 0 {
        lemma_first_seen_distinct(s.drop_last());
    }
}

pub proof fn lemma_cells_named_absent(p: Seq<(Seq<char>, CellV)>, n: Seq<char>)
    requires
        !names_of(p).contains(n),
    ensures
        cells_named(p, n) == Seq::<CellV>::empty(),
    decreases p.len(),
{
    if p.len() > 0 {
        assert(names_of(p)[p.len() - 1] == p.last().0);
        assert forall|j: int| 0 <= j < p.len() - 1 implies names_of(p.drop_last())[j] != n by {
            assert(names_of(p)[j] == names_of(p.drop_last())[j]);
        }
        lemma_cells_named_absent(p.drop_last(), n);
    }
}

pub proof fn lemma_max_len_bounds(cols: Seq<(Seq<char>, Seq<CellV>)>)
    ensures
        forall|j: int| 0 <= j < cols.len() ==> cols[j].1.len() <= max_len(cols),
        cols.len() > 0 ==> exists|j: int| 0 <= j < cols.len() && cols[j].1.len() == max_len(cols),
    decreases cols.len(),
{
    if cols.len() > 0 {
        lemma_max_len_bounds(cols.drop_last());
        assert forall|j: int| 0 <= j < cols.len() implies cols[j].1.len() <= max_len(cols) by {
            if j < cols.len() - 1 {
                assert(cols[j] == cols.drop_last()[j]);
            }
        }
        if max_len(cols.drop_last()) >= cols.last().1.len() && cols.len() > 1 {
            let j = choose|j: int|
                0 <= j < cols.drop_last().len() && cols.drop_last()[j].1.len() == max_len(
                    cols.drop_last(),
                );
            assert(cols[j] == cols.drop_last()[j]);
        } else {
            assert(cols[cols.len() - 1].1.len() == max_len(cols));
        }
    }
}

/// The greatest length among the columns' cell sequences.
fn max_column_len(cols: &Vec<Column>) -> (r: usize)
    ensures
        r == max_len(columns_view(cols@)),
{
    let mut m: usize = 0;
    let mut i: usize = 0;
    while i < cols.len()
        invariant
            i <= cols.len(),
            m == max_len(columns_view(cols@).take(i as int)),
        decreases cols.len() - i,
    {
        let ghost t = columns_view(cols@).take(i + 1);
        assert(t.drop_last() =~= columns_view(cols@).take(i as int));
        assert(t.last() == cols@[i as int]@);
        if cols[i].cells.len() > m {
            m = cols[i].cells.len();
        }
        i = i + 1;
    }
    assert(columns_view(cols@).take(i as int) =~= columns_view(cols@));
    m
}

/// Appends absent markers to `cells` until it holds at least `n` of them.
fn pad_cells(cells: &mut Vec<Cell>, n: usize)
    ensures
        cells_view(final(cells)@) == fill(cells_view(old(cells)@), n as nat),
{
    while cells.len() < n
        invariant
            old(cells).len() <= cells.len(),
            old(cells).len() >= n ==> cells@ == old(cells)@,
            cells.len() > old(cells).len() ==> cells.len() <= n,
            cells_view(cells@) =~= cells_view(old(cells)@) + Seq::new(
                (cells.len() - old(cells).len()) as nat,
                |i: int| CellV::Null,
            ),
        decreases n - cells.len(),
    {
        let ghost before = cells@;
        cells.push(Cell::Null);
        assert(cells_view(cells@) =~= cells_view(before).push(CellV::Null));
    }
    assert(old(cells).len() >= n ==> cells_view(cells@) =~= cells_view(old(cells)@));
}

pub proof fn lemma_selected_rows_len(
    rs: Seq<Record>,
    wanted: Seq<char>,
    m: Seq<(Seq<char>, Seq<char>)>,
)
    ensures
        selected_rows(rs, wanted, m).len() <= rs.len(),
    decreases rs.len(),
{
    if rs.len() > 0 {
        lemma_selected_rows_len(rs.drop_last(), wanted, m);
    }
}

/// A column that exists after some rows has a cell for each of them.
pub proof fn lemma_aligned_len(rows: Seq<Seq<(Seq<char>, CellV)>>, n: Seq<char>)
    requires
        names_of(flat(rows)).contains(n),
    ensures
        aligned(rows, n).len() >= rows.len(),
{
    if rows.len() == 0 {
        assert(names_of(flat(rows)).len() == 0);
    }
}

/// Builds the columns of the records of one kind, one record at a time,
/// one row per record.
pub struct ColumnAccumulator {
    wanted: String,
    mapping: Option<Vec<(String, String)>>,
    columns: Vec<Column>,
    count: usize,
    rows: Ghost<Seq<Seq<(Seq<char>, CellV)>>>,
    cur: Ghost<Seq<(Seq<char>, CellV)>>,
}

impl ColumnAccumulator {
    /// The lower-case form of the kind that is kept.
    pub closed spec fn wanted(&self) -> Seq<char> {
        self.wanted@
    }

    /// The mapping from labels to chosen names.
    pub closed spec fn mapping(&self) -> Seq<(Seq<char>, Seq<char>)> {
        mapping_view(self.mapping)
    }

    /// The (column name, cell) pairs of each record taken in so far.
    pub closed spec fn rows(&self) -> Seq<Seq<(Seq<char>, CellV)>> {
        self.rows@
    }

    /// The columns hold what the rows taken in so far, and the pairs of the
    /// row being taken in, build.
    closed spec fn inv(&self) -> bool {
        &&& columns_view(self.columns@) == partial(self.rows@, self.cur@)
        &&& self.count == self.rows@.len()
    }

    /// Between records: the columns hold what the rows taken in so far build.
    pub closed spec fn wf(&self) -> bool {
        self.inv() && self.cur@.len() == 0
    }

    /// An accumulator for records of kind `message_type` (matched without
    /// regard to case), with an optional mapping from labels to names.
    pub fn new(message_type: &str, field_mapping: Option<Vec<(String, String)>>) -> (r: Self)
        ensures
            r.wf(),
            r.wanted() == lower_of(message_type@),
            r.mapping() == mapping_view(field_mapping),
            r.rows() == Seq::<Seq<(Seq<char>, CellV)>>::empty(),
    {
        let r = ColumnAccumulator {
            wanted: lowercase(message_type),
            mapping: field_mapping,
            columns: Vec::new(),
            count: 0,
            rows: Ghost(Seq::empty()),
            cur: Ghost(Seq::empty()),
        };
        assert(flat(r.rows@) + r.cur@ =~= Seq::empty());
        assert(names_of(Seq::empty()) =~= Seq::empty());
        assert(columns_view(r.columns@) =~= partial(r.rows@, r.cur@));
        r
    }

    /// Files one cell of the current row under column `name`; a new column
    /// is created at the end, with an absent marker for each earlier row.
    fn add_cell(&mut self, name: String, cell: Cell)
        requires
            old(self).inv(),
        ensures
            final(self).inv(),
            final(self).cur@ == old(self).cur@.push((name@, cell@)),
            final(self).rows@ == old(self).rows@,
            final(self).wanted == old(self).wanted,
            final(self).mapping == old(self).mapping,
    {
        let ghost rows = self.rows@;
        let ghost cur = self.cur@;
        let ghost k = rows.len();
        let ghost x = (name@, cell@);
        let ghost p = flat(rows) + cur;
        let ghost q = flat(rows) + cur.push(x);
        let ghost fs = first_seen(names_of(p));
        proof {
            assert(q =~= p.push(x));
            assert(names_of(q) =~= names_of(p).push(name@));
            assert(names_of(q).drop_last() =~= names_of(p));
            assert(cur.push(x).drop_last() =~= cur);
            lemma_first_seen_distinct(names_of(p));
            assert(columns_view(self.columns@).len() == self.columns@.len());
        }
        let mut i: usize = 0;
        while i < self.columns.len()
            invariant
                i <= self.columns.len(),
                columns_view(self.columns@) == partial(rows, cur),
                fs == first_seen(names_of(p)),
                fs.len() == self.columns@.len(),
                forall|j: int| 0 <= j < i ==> fs[j] != name@,
                self.rows@ == rows,
                self.cur@ == cur,
                self.count == k,
                k == rows.len(),
                self.wanted == old(self).wanted,
                self.mapping == old(self).mapping,
                rows == old(self).rows@,
                cur == old(self).cur@,
                x == (name@, cell@),
                p == flat(rows) + cur,
                q == flat(rows) + cur.push(x),
                names_of(q) == names_of(p).push(name@),
                names_of(q).drop_last() == names_of(p),
                cur.push(x).drop_last() == cur,
                fs.no_duplicates(),
            decreases self.columns.len() - i,
        {
            assert(columns_view(self.columns@)[i as int] == partial(rows, cur)[i as int]);
            if self.columns[i].name == name {
                let ghost before = self.columns@;
                proof {
                    assert(fs[i as int] == name@);
                }
                self.columns[i].cells.push(cell);
                self.cur = Ghost(cur.push(x));
                proof {
                    assert(fs.contains(name@));
                    assert(first_seen(names_of(q)) == fs);
                    assert forall|j: int| 0 <= j < fs.len() implies columns_view(
                        self.columns@,
                    )[j] == partial(rows, cur.push(x))[j] by {
                        assert(columns_view(before)[j] == partial(rows, cur)[j]);
                        if j == i {
                            assert(self.columns@[j].name == before[j].name);
                            assert(cells_view(self.columns@[j].cells@) =~= cells_view(
                                before[j].cells@,
                            ).push(cell@));
                            assert(cells_view(self.columns@[j].cells@) =~= fill(
                                aligned(rows, fs[j]),
                                k,
                            ) + cells_named(cur.push(x), fs[j]));
                        } else {
                            assert(fs[j] != fs[i as int]);
                            assert(self.columns@[j] == before[j]);
                        }
                    }
                    assert(columns_view(self.columns@) =~= partial(rows, cur.push(x)));
                }
                return;
            }
            i = i + 1;
        }
        let mut cells: Vec<Cell> = Vec::new();
        pad_cells(&mut cells, self.count);
        let ghost padded_cells = cells@;
        cells.push(cell);
        let ghost before = self.columns@;
        self.columns.push(Column { name, cells });
        self.cur = Ghost(cur.push(x));
        proof {
            assert(!fs.contains(name@));
            assert(first_seen(names_of(q)) == fs.push(name@));
            lemma_first_seen_contains(names_of(p), name@);
            assert(names_of(p) =~= names_of(flat(rows)) + names_of(cur));
            if names_of(flat(rows)).contains(name@) {
                let j = choose|j: int|
                    0 <= j < names_of(flat(rows)).len() && names_of(flat(rows))[j] == name@;
                assert(names_of(p)[j] == name@);
            }
            if names_of(cur).contains(name@) {
                let j = choose|j: int| 0 <= j < names_of(cur).len() && names_of(cur)[j] == name@;
                assert(names_of(p)[names_of(flat(rows)).len() + j] == name@);
            }
            assert(aligned(rows, name@) == Seq::<CellV>::empty());
            lemma_cells_named_absent(cur, name@);
            assert(cells_view(padded_cells) =~= Seq::new(k, |i: int| CellV::Null));
            assert forall|j: int| 0 <= j < fs.len() + 1 implies columns_view(self.columns@)[j]
                == partial(rows, cur.push(x))[j] by {
                if j == fs.len() {
                    assert(cells_view(self.columns@[j].cells@) =~= cells_view(padded_cells).push(
                        cell@,
                    ));
                    assert(cells_view(self.columns@[j].cells@) =~= fill(aligned(rows, name@), k)
                        + cells_named(cur.push(x), name@));
                } else {
                    assert(self.columns@[j] == before[j]);
                    assert(columns_view(before)[j] == partial(rows, cur)[j]);
                    assert(fs[j] != name@);
                }
            }
            assert(columns_view(self.columns@) =~= partial(rows, cur.push(x)));
        }
    }

    /// Closes the current row: every column gets an absent marker where
    /// the row filled none of it.
    fn finish_row(&mut self)
        requires
            old(self).inv(),
            old(self).rows@.len() < usize::MAX,
        ensures
            final(self).wf(),
            final(self).rows@ == old(self).rows@.push(old(self).cur@),
            final(self).wanted == old(self).wanted,
            final(self).mapping == old(self).mapping,
    {
        let ghost rows = self.rows@;
        let ghost cur = self.cur@;
        let ghost k = rows.len();
        let ghost r2 = rows.push(cur);
        let ghost old_cols = columns_view(self.columns@);
        let ghost fs = first_seen(names_of(flat(rows) + cur));
        let k1 = self.count + 1;
        proof {
            assert(r2.drop_last() =~= rows);
            assert(flat(r2) == flat(rows) + cur);
            assert(flat(r2) + Seq::<(Seq<char>, CellV)>::empty() =~= flat(r2));
            assert(old_cols.len() == self.columns@.len());
        }
        let mut i: usize = 0;
        while i < self.columns.len()
            invariant
                i <= self.columns.len(),
                old_cols.len() == self.columns@.len(),
                k1 == k + 1,
                forall|j: int|
                    0 <= j < i ==> #[trigger] columns_view(self.columns@)[j] == (
                        old_cols[j].0,
                        fill(old_cols[j].1, k1 as nat),
                    ),
                forall|j: int|
                    i <= j < self.columns@.len() ==> #[trigger] columns_view(self.columns@)[j]
                        == old_cols[j],
                self.wanted == old(self).wanted,
                self.mapping == old(self).mapping,
                self.rows@ == rows,
                self.cur@ == cur,
                rows == old(self).rows@,
                cur == old(self).cur@,
                self.count == k,
                k == rows.len(),
                old_cols == partial(rows, cur),
            decreases self.columns.len() - i,
        {
            let ghost before = self.columns@;
            assert(columns_view(before)[i as int] == old_cols[i as int]);
            pad_cells(&mut self.columns[i].cells, k1);
            proof {
                assert(self.columns@[i as int].name == before[i as int].name);
                assert forall|j: int| 0 <= j < self.columns@.len() && j != i implies #[trigger] self.columns@[j]
                    == before[j] by {}
                assert(columns_view(self.columns@)[i as int] == (
                    old_cols[i as int].0,
                    fill(old_cols[i as int].1, k1 as nat),
                ));
                assert forall|j: int| 0 <= j < self.columns@.len() && j != i implies #[trigger] columns_view(self.columns@)[j]
                    == columns_view(before)[j] by {
                    assert(self.columns@[j] == before[j]);
                }
            }
            i = i + 1;
        }
        self.count = k1;
        self.rows = Ghost(r2);
        self.cur = Ghost(Seq::empty());
        proof {
            assert forall|j: int| 0 <= j < fs.len() implies columns_view(self.columns@)[j]
                == partial(r2, Seq::empty())[j] by {
                let n = fs[j];
                lemma_first_seen_contains(names_of(flat(rows) + cur), n);
                assert(old_cols[j] == partial(rows, cur)[j]);
                assert(r2.last() == cur);
                assert(aligned(r2, n) == fill(fill(aligned(rows, n), k) + cells_named(cur, n), k + 1));
                assert(cells_named(Seq::<(Seq<char>, CellV)>::empty(), n) =~= Seq::empty());
                assert(fill(aligned(r2, n), k + 1) =~= aligned(r2, n));
                assert(columns_view(self.columns@)[j].1 =~= fill(aligned(r2, n), r2.len()) + cells_named(
                    Seq::<(Seq<char>, CellV)>::empty(),
                    n,
                ));
            }
            assert(columns_view(self.columns@) =~= partial(r2, Seq::empty()));
        }
    }

    /// Takes in one record, given the lower-case form of its kind: where
    /// that matches the wanted kind, the record adds one row, its fields
    /// resolved, coerced and filed in field order; otherwise nothing changes.
    pub fn ingest_lowered(&mut self, record: &Record, kind_lower: &String)
        requires
            old(self).wf(),
            old(self).rows().len() < usize::MAX,
        ensures
            final(self).wf(),
            final(self).wanted() == old(self).wanted(),
            final(self).mapping() == old(self).mapping(),
            final(self).rows() == (if kind_lower@ == old(self).wanted() {
                old(self).rows().push(record_cells(*record, old(self).mapping()))
            } else {
                old(self).rows()
            }),
    {
        if *kind_lower == self.wanted {
            let ghost rc = record_cells(*record, self.mapping());
            let mut i: usize = 0;
            assert(self.cur@ =~= rc.take(0));
            while i < record.fields.len()
                invariant
                    i <= record.fields.len(),
                    rc == record_cells(*record, old(self).mapping()),
                    self.inv(),
                    self.wanted == old(self).wanted,
                    self.mapping == old(self).mapping,
                    self.rows@ == old(self).rows@,
                    self.cur@ == rc.take(i as int),
                decreases record.fields.len() - i,
            {
                let name = resolve_name(record.fields[i].key, &self.mapping);
                let cell = coerce(&record.fields[i].value);
                self.add_cell(name, cell);
                assert(rc.take(i + 1) =~= rc.take(i as int).push(rc[i as int]));
                i = i + 1;
            }
            assert(rc.take(i as int) =~= rc);
            self.finish_row();
        }
    }

    /// Takes in one record: where its kind matches (without regard to case),
    /// the record adds one row; otherwise nothing changes.
    pub fn ingest(&mut self, record: &Record)
        requires
            old(self).wf(),
            old(self).rows().len() < usize::MAX,
        ensures
            final(self).wf(),
            final(self).wanted() == old(self).wanted(),
            final(self).mapping() == old(self).mapping(),
            final(self).rows() == (if selected(*record, old(self).wanted()) {
                old(self).rows().push(record_cells(*record, old(self).mapping()))
            } else {
                old(self).rows()
            }),
    {
        let k = lowercase(record.kind.as_str());
        self.ingest_lowered(record, &k);
    }

    /// Pads every column with absent markers to the greatest column length
    /// and hands over the columns, in first-seen order, as the table.
    pub fn finalize(self) -> (r: Table)
        requires
            self.wf(),
        ensures
            r@ == finalized(aligned_columns(self.rows())),
    {
        let ghost rows = self.rows@;
        let ghost v = aligned_columns(rows);
        proof {
            assert(flat(rows) + self.cur@ =~= flat(rows));
            assert forall|j: int| 0 <= j < v.len() implies partial(rows, self.cur@)[j] == v[j] by {
                let n = first_seen(names_of(flat(rows)))[j];
                lemma_first_seen_contains(names_of(flat(rows)), n);
                lemma_aligned_len(rows, n);
                lemma_cells_named_absent(self.cur@, n);
                assert(fill(aligned(rows, n), rows.len()) + cells_named(self.cur@, n) =~= aligned(
                    rows,
                    n,
                ));
            }
            assert(partial(rows, self.cur@) =~= v);
        }
        let n = max_column_len(&self.columns);
        let mut rest = self.columns;
        let mut out: Vec<Column> = Vec::new();
        proof {
            lemma_max_len_bounds(v);
            assert(rest@.skip(0) =~= rest@);
        }
        let ghost all = rest@;
        while rest.len() > 0
            invariant
                columns_view(all) == v,
                n == max_len(v),
                out.len() + rest.len() == all.len(),
                rest@ == all.skip(out.len() as int),
                columns_view(out@) == finalized(v).take(out.len() as int),
            decreases rest.len(),
        {
            let ghost k = out.len() as int;
            assert(rest@[0] == all[k]);
            assert(columns_view(all)[k] == v[k]);
            let mut col = rest.remove(0);
            pad_cells(&mut col.cells, n);
            out.push(col);
            assert(rest@ =~= all.skip(out.len() as int));
            assert(columns_view(out@) =~= finalized(v).take(out.len() as int));
        }
        assert(finalized(v).take(out.len() as int) =~= finalized(v));
        Table { columns: out }
    }
}

} // verus!

verus! {

/// Builds the table of the records of kind `message_type` (matched without
/// regard to case), one row per such record, with column names resolved
/// through `field_mapping`.
pub fn read_data(
    records: &Vec<Record>,
    message_type: &str,
    field_mapping: Option<Vec<(String, String)>>,
) -> (r: Table)
    ensures
        r@ == tabulated(records@, lower_of(message_type@), mapping_view(field_mapping)),
{
    let mut acc = ColumnAccumulator::new(message_type, field_mapping);
    let ghost w = acc.wanted();
    let ghost m = acc.mapping();
    let mut i: usize = 0;
    while i < records.len()
        invariant
            i <= records.len(),
            acc.wf(),
            acc.wanted() == w,
            acc.mapping() == m,
            acc.rows() == selected_rows(records@.take(i as int), w, m),
        decreases records.len() - i,
    {
        proof {
            lemma_selected_rows_len(records@.take(i as int), w, m);
        }
        acc.ingest(&records[i]);
        proof {
            let t = records@.take(i + 1);
            assert(t.drop_last() =~= records@.take(i as int));
            assert(t.last() == records@[i as int]);
        }
        i = i + 1;
    }
    assert(records@.take(i as int) =~= records@);
    acc.finalize()
}

/// Builds the table of the telemetry sample records, those of kind `record`.
pub fn read_recordmesgs(records: &Vec<Record>, field_mapping: Option<Vec<(String, String)>>) -> (r:
    Table)
    ensures
        r@ == tabulated(
            records@,
            lower_of(seq!['r', 'e', 'c', 'o', 'r', 'd']),
            mapping_view(field_mapping),
        ),
{
    proof {
        reveal_strlit("record");
        assert("record"@ =~= seq!['r', 'e', 'c', 'o', 'r', 'd']);
    }
    read_data(records, "record", field_mapping)
}

} // verus!
