//! The in-memory tabular data model: an ordered sequence of named, typed
//! columns whose cells are nullable text values aligned by row index. Every
//! pipeline stage consumes one table and produces a new one.

use vstd::prelude::*;

verus! {

/// The semantic value type of a column, inferred from its physical unit.
#[derive(Copy, Clone, Debug, PartialEq, Eq, Structural)]
pub enum ValueType {
    Text,
    Integer,
    Float,
    Date,
    Timestamp,
}

/// Mathematical model of one column.
#[verifier::ext_equal]
pub struct ColumnModel {
    pub name: Seq<char>,
    pub vtype: ValueType,
    pub cells: Seq<Option<Seq<char>>>,
}

/// Mathematical model of a table: the sequence of its column models.
#[verifier::ext_equal]
pub struct TableModel {
    pub cols: Seq<ColumnModel>,
}

impl TableModel {
    /// Number of columns.
    pub open spec fn width(self) -> nat {
        self.cols.len()
    }

    /// Number of rows; every column of a well-formed table has this many cells.
    pub open spec fn height(self) -> nat {
        if self.cols.len() == 0 {
            0
        } else {
            self.cols[0].cells.len()
        }
    }

    /// Well-formedness: the row count is uniform across columns.
    pub open spec fn wf(self) -> bool {
        forall|i: int| 0 <= i < self.cols.len() ==> #[trigger] self.cols[i].cells.len() == self.height()
    }

    /// The names of the columns, in order.
    pub open spec fn names(self) -> Seq<Seq<char>> {
        self.cols.map_values(|c: ColumnModel| c.name)
    }

    /// Whether every cell of row `r` is null.
    pub open spec fn row_empty(self, r: int) -> bool {
        forall|i: int| 0 <= i < self.cols.len() ==> #[trigger] self.cols[i].cells[r] is None
    }

    /// Whether some cell of row `r` is null.
    pub open spec fn row_has_null(self, r: int) -> bool {
        exists|i: int| 0 <= i < self.cols.len() && #[trigger] self.cols[i].cells[r] is None
    }
}

/// Index of the first column named `name`, or `-1` if there is none.
pub open spec fn col_index(cols: Seq<ColumnModel>, name: Seq<char>) -> int
    decreases cols.len(),
{
    if cols.len() == 0 {
        -1
    } else if cols[0].name == name {
        0
    } else {
        let r = col_index(cols.drop_first(), name);
        if r < 0 {
            -1
        } else {
            r + 1
        }
    }
}

pub proof fn lemma_col_index_props(cols: Seq<ColumnModel>, name: Seq<char>)
    ensures
        -1 <= col_index(cols, name) < cols.len(),
        col_index(cols, name) >= 0 ==> cols[col_index(cols, name)].name == name,
        forall|k: int| 0 <= k < col_index(cols, name) ==> cols[k].name != name,
        col_index(cols, name) == -1 ==> forall|k: int| 0 <= k < cols.len() ==> cols[k].name != name,
    decreases cols.len(),
{
    if cols.len() == 0 {
    } else if cols[0].name == name {
    } else {
        lemma_col_index_props(cols.drop_first(), name);
        let r = col_index(cols.drop_first(), name);
        if r >= 0 {
            assert forall|k: int| 0 <= k < r + 1 implies cols[k].name != name by {
                if k > 0 {
                    assert(cols.drop_first()[k - 1].name != name);
                }
            }
        } else {
            assert forall|k: int| 0 <= k < cols.len() implies cols[k].name != name by {
                if k > 0 {
                    assert(cols.drop_first()[k - 1].name != name);
                }
            }
        }
    }
}

/// One named, typed column of nullable text cells.
#[derive(Debug)]
pub struct Column {
    pub name: String,
    pub vtype: ValueType,
    pub cells: Vec<Option<String>>,
}

impl View for Column {
    type V = ColumnModel;

    open spec fn view(&self) -> ColumnModel {
        ColumnModel { name: self.name@, vtype: self.vtype, cells: self.cells.deep_view() }
    }
}

/// An ordered sequence of named typed columns with uniform row count.
#[derive(Debug)]
pub struct Table {
    pub columns: Vec<Column>,
}

/// The column models of a sequence of columns.
pub open spec fn cols_of(v: Seq<Column>) -> Seq<ColumnModel> {
    v.map_values(|c: Column| c@)
}

impl View for Table {
    type V = TableModel;

    open spec fn view(&self) -> TableModel {
        TableModel { cols: cols_of(self.columns@) }
    }
}

impl Table {
    /// Number of columns.
    pub fn width(&self) -> (r: usize)
        ensures
            r == self@.width(),
    {
        self.columns.len()
    }

    /// Number of rows, read from the first column.
    pub fn height(&self) -> (r: usize)
        ensures
            r == self@.height(),
    {
        if self.columns.len() == 0 {
            0
        } else {
            self.columns[0].cells.len()
        }
    }

    /// Index of the first column named `name`.
    pub fn find_column(&self, name: &str) -> (r: Option<usize>)
        ensures
            match r {
                Option::Some(i) => col_index(self@.cols, name@) == i as int && i
                    < self.columns.len(),
                Option::None => col_index(self@.cols, name@) == -1,
            },
    {
        let n = self.columns.len();
        let mut i: usize = 0;
        while i < n
            invariant
                n == self.columns.len(),
                0 <= i <= n,
                forall|k: int| 0 <= k < i ==> self@.cols[k].name != name@,
            decreases n - i,
        {
            if crate::text::str_eq(self.columns[i].name.as_str(), name) {
                proof {
                    lemma_col_index_at(self@.cols, name@, i as int);
                }
                return Some(i);
            }
            i += 1;
        }
        proof {
            lemma_col_index_props(self@.cols, name@);
        }
        None
    }

    /// An exact copy of the table.
    pub fn duplicate(&self) -> (r: Table)
        ensures
            r@ == self@,
    {
        let mut columns: Vec<Column> = Vec::new();
        let n = self.columns.len();
        let mut i: usize = 0;
        proof {
            assert(cols_of(columns@) =~~= self@.cols.subrange(0, 0));
        }
        while i < n
            invariant
                n == self.columns.len(),
                0 <= i <= n,
                cols_of(columns@) == self@.cols.subrange(0, i as int),
            decreases n - i,
        {
            let c = duplicate_column(&self.columns[i]);
            proof {
                assert(c@ == self@.cols[i as int]);
            }
            let ghost oldv = columns@;
            proof {
                assert(cols_of(oldv) == self@.cols.subrange(0, i as int));
                assert(cols_of(oldv).len() == oldv.len());
                assert(oldv.len() == i as int);
            }
            columns.push(c);
            proof {
                assert(columns@ == oldv.push(c));
                assert(columns@.len() == i + 1);
                assert forall|k: int| 0 <= k < i implies cols_of(columns@)[k] == self@.cols[k] by {
                    assert(columns@[k] == oldv[k]);
                    assert(cols_of(oldv)[k] == self@.cols.subrange(0, i as int)[k]);
                }
                assert(cols_of(columns@)[i as int] == self@.cols[i as int]);
                assert(cols_of(columns@) =~~= self@.cols.subrange(0, i + 1));
            }
            i += 1;
        }
        proof {
            assert(self@.cols.subrange(0, n as int) =~~= self@.cols);
        }
        let t = Table { columns };
        proof {
            assert(t@ =~~= self@);
        }
        t
    }
}

/// An exact copy of one column.
pub fn duplicate_column(c: &Column) -> (r: Column)
    ensures
        r@ == c@,
{
    let name = clone_string(&c.name);
    let mut cells: Vec<Option<String>> = Vec::new();
    let n = c.cells.len();
    let mut i: usize = 0;
    proof {
        assert(cells.deep_view() =~~= c.cells.deep_view().subrange(0, 0));
    }
    while i < n
        invariant
            n == c.cells.len(),
            0 <= i <= n,
            cells.deep_view() == c.cells.deep_view().subrange(0, i as int),
        decreases n - i,
    {
        let cell: Option<String> = match &c.cells[i] {
            Option::Some(s) => Some(clone_string(s)),
            Option::None => None,
        };
        proof {
            assert(cell.deep_view() == c.cells.deep_view()[i as int]);
        }
        let ghost oldv = cells@;
        proof {
            assert(cells.deep_view() == c.cells.deep_view().subrange(0, i as int));
            assert(cells.deep_view().len() == oldv.len());
            assert(oldv.len() == i as int);
        }
        cells.push(cell);
        proof {
            assert(cells@ == oldv.push(cell));
            assert(cells@.len() == i + 1);
            assert forall|k: int| 0 <= k < i implies cells.deep_view()[k] == c.cells.deep_view()[
                k
            ] by {
                assert(cells@[k] == oldv[k]);
                assert(cells.deep_view()[k] == oldv[k].deep_view());
                assert(oldv[k].deep_view() == c.cells.deep_view().subrange(0, i as int)[k]);
            }
            assert(cells.deep_view()[i as int] == c.cells.deep_view()[i as int]);
            assert(cells.deep_view() =~~= c.cells.deep_view().subrange(0, i + 1));
        }
        i += 1;
    }
    proof {
        assert(c.cells.deep_view().subrange(0, n as int) =~~= c.cells.deep_view());
    }
    let r = Column { name, vtype: c.vtype, cells };
    proof {
        assert(r@ =~~= c@);
    }
    r
}

/// A copy of a string with the same characters.
pub fn clone_string(s: &String) -> (r: String)
    ensures
        r@ == s@,
{
    s.clone()
}

pub proof fn lemma_col_index_at(cols: Seq<ColumnModel>, name: Seq<char>, i: int)
    requires
        0 <= i < cols.len(),
        cols[i].name == name,
        forall|k: int| 0 <= k < i ==> cols[k].name != name,
    ensures
        col_index(cols, name) == i,
    decreases cols.len(),
{
    if i > 0 {
        lemma_col_index_at(cols.drop_first(), name, i - 1);
    }
}

/// The elements of `s` whose position carries `true` in the mask `m`.
pub open spec fn mask_filter<A>(s: Seq<A>, m: Seq<bool>) -> Seq<A>
    decreases s.len(),
{
    if s.len() == 0 || m.len() == 0 {
        Seq::empty()
    } else if m[0] {
        seq![s[0]] + mask_filter(s.drop_first(), m.drop_first())
    } else {
        mask_filter(s.drop_first(), m.drop_first())
    }
}

/// Filtering distributes over concatenation of equally long halves.
pub proof fn lemma_mask_filter_concat<A>(s1: Seq<A>, s2: Seq<A>, m1: Seq<bool>, m2: Seq<bool>)
    requires
        s1.len() == m1.len(),
    ensures
        mask_filter(s1 + s2, m1 + m2) == mask_filter(s1, m1) + mask_filter(s2, m2),
    decreases s1.len(),
{
    if s1.len() == 0 {
        assert(s1 + s2 =~= s2);
        assert(m1 + m2 =~= m2);
        assert(mask_filter(s1, m1) + mask_filter(s2, m2) =~= mask_filter(s2, m2));
    } else {
        lemma_mask_filter_concat(s1.drop_first(), s2, m1.drop_first(), m2);
        assert((s1 + s2).drop_first() =~= s1.drop_first() + s2);
        assert((m1 + m2).drop_first() =~= m1.drop_first() + m2);
        assert((s1 + s2)[0] == s1[0]);
        assert((m1 + m2)[0] == m1[0]);
        assert((s1 + s2).len() > 0 && (m1 + m2).len() > 0);
        assert((s1 + s2).drop_first() == s1.drop_first() + s2);
        assert((m1 + m2).drop_first() == m1.drop_first() + m2);
        let f1 = mask_filter(s1.drop_first(), m1.drop_first());
        let f2 = mask_filter(s2, m2);
        assert(mask_filter((s1 + s2).drop_first(), (m1 + m2).drop_first()) == f1 + f2);
        if m1[0] {
            let a = seq![s1[0]];
            assert(mask_filter(s1 + s2, m1 + m2) == seq![(s1 + s2)[0]] + mask_filter(
                (s1 + s2).drop_first(),
                (m1 + m2).drop_first(),
            ));
            assert(seq![(s1 + s2)[0]] =~= a);
            assert(mask_filter(s1 + s2, m1 + m2) == a + (f1 + f2));
            assert(mask_filter(s1, m1) == a + f1);
            assert(a + (f1 + f2) =~= (a + f1) + f2);
        } else {
            assert(mask_filter(s1 + s2, m1 + m2) == mask_filter(
                (s1 + s2).drop_first(),
                (m1 + m2).drop_first(),
            ));
            assert(mask_filter(s1, m1) == mask_filter(s1.drop_first(), m1.drop_first()));
        }
    }
}

/// A mask of all `true` keeps every element.
pub proof fn lemma_mask_filter_all_true<A>(s: Seq<A>, m: Seq<bool>)
    requires
        s.len() == m.len(),
        forall|k: int| 0 <= k < m.len() ==> m[k],
    ensures
        mask_filter(s, m) == s,
    decreases s.len(),
{
    if s.len() > 0 {
        lemma_mask_filter_all_true(s.drop_first(), m.drop_first());
        assert(mask_filter(s, m) =~= s);
    }
}

/// The position in the unfiltered sequence of the `j`-th kept element.
pub open spec fn nth_true(m: Seq<bool>, j: int) -> int
    decreases m.len(),
{
    if m.len() == 0 {
        0
    } else if m[0] {
        if j == 0 {
            0
        } else {
            1 + nth_true(m.drop_first(), j - 1)
        }
    } else {
        1 + nth_true(m.drop_first(), j)
    }
}

/// Each element of a filtered sequence is the element of the original at the
/// position the mask kept, and that position carries `true`.
pub proof fn lemma_mask_filter_index<A>(s: Seq<A>, m: Seq<bool>, j: int)
    requires
        s.len() == m.len(),
        0 <= j < mask_filter(s, m).len(),
    ensures
        0 <= nth_true(m, j) < m.len(),
        m[nth_true(m, j)],
        mask_filter(s, m)[j] == s[nth_true(m, j)],
    decreases s.len(),
{
    if s.len() == 0 {
    } else if m[0] {
        if j == 0 {
        } else {
            lemma_mask_filter_index(s.drop_first(), m.drop_first(), j - 1);
        }
    } else {
        lemma_mask_filter_index(s.drop_first(), m.drop_first(), j);
    }
}

/// The filtered cells of one column.
pub fn filter_cells(cells: &Vec<Option<String>>, mask: &Vec<bool>) -> (r: Vec<Option<String>>)
    requires
        cells.len() == mask.len(),
    ensures
        r.deep_view() == mask_filter(cells.deep_view(), mask@),
{
    let mut out: Vec<Option<String>> = Vec::new();
    let n = cells.len();
    let mut i: usize = 0;
    proof {
        assert(cells.deep_view().subrange(0, 0) =~= Seq::<Option<Seq<char>>>::empty());
        assert(mask@.subrange(0, 0) =~= Seq::<bool>::empty());
        assert(out.deep_view() =~= Seq::<Option<Seq<char>>>::empty());
    }
    while i < n
        invariant
            n == cells.len(),
            cells.len() == mask.len(),
            0 <= i <= n,
            out.deep_view() == mask_filter(
                cells.deep_view().subrange(0, i as int),
                mask@.subrange(0, i as int),
            ),
        decreases n - i,
    {
        let ghost pre_cells = cells.deep_view().subrange(0, i as int);
        let ghost pre_mask = mask@.subrange(0, i as int);
        if mask[i] {
            let cell: Option<String> = match &cells[i] {
                Option::Some(s) => Some(clone_string(s)),
                Option::None => None,
            };
            let ghost prev = out.deep_view();
            out.push(cell);
            proof {
                assert(out.deep_view() =~= prev + seq![cells.deep_view()[i as int]]);
            }
        }
        proof {
            let cell_i = cells.deep_view()[i as int];
            lemma_mask_filter_concat(pre_cells, seq![cell_i], pre_mask, seq![mask@[i as int]]);
            assert(pre_cells + seq![cell_i] =~= cells.deep_view().subrange(0, i + 1));
            assert(pre_mask + seq![mask@[i as int]] =~= mask@.subrange(0, i + 1));
            let single_s = seq![cell_i];
            let single_m = seq![mask@[i as int]];
            assert(single_s.drop_first() =~= Seq::<Option<Seq<char>>>::empty());
            assert(single_m.drop_first() =~= Seq::<bool>::empty());
            assert(mask_filter(single_s.drop_first(), single_m.drop_first())
                =~= Seq::<Option<Seq<char>>>::empty());
            if mask@[i as int] {
                assert(mask_filter(single_s, single_m) == seq![single_s[0]] + mask_filter(
                    single_s.drop_first(),
                    single_m.drop_first(),
                ));
                assert(mask_filter(single_s, single_m) =~= seq![cell_i]);
            } else {
                assert(mask_filter(single_s, single_m) == mask_filter(
                    single_s.drop_first(),
                    single_m.drop_first(),
                ));
                assert(out.deep_view() =~= mask_filter(pre_cells, pre_mask) + mask_filter(
                    single_s,
                    single_m,
                ));
            }
        }
        i += 1;
    }
    proof {
        assert(cells.deep_view().subrange(0, n as int) =~= cells.deep_view());
        assert(mask@.subrange(0, n as int) =~= mask@);
    }
    out
}


/// The number of `true` entries in a mask.
pub open spec fn count_true(m: Seq<bool>) -> int
    decreases m.len(),
{
    if m.len() == 0 {
        0
    } else {
        count_true(m.drop_first()) + if m[0] {
            1int
        } else {
            0int
        }
    }
}

/// The length of a filtered sequence depends only on the mask.
pub proof fn lemma_mask_filter_len<A>(s: Seq<A>, m: Seq<bool>)
    requires
        s.len() == m.len(),
    ensures
        mask_filter(s, m).len() == count_true(m),
    decreases s.len(),
{
    if s.len() > 0 {
        lemma_mask_filter_len(s.drop_first(), m.drop_first());
    }
}

} // verus!
