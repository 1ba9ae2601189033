//! The aggregate table: an ordered collection of named, nullable columns.
//!
//! A table holds one row per successfully ingested file.  Columns carry
//! scalar numeric values, variable-length numeric lists, or strings; a
//! 64-bit scalar slot carries the bit pattern of the file's double-precision
//! header value, so the table itself stays purely integral.
//!
//! The central operation is `merge`: a binary, schema-reconciling
//! concatenation.  The result's column sequence is the left operand's
//! column order followed by the right operand's first-seen new names, and
//! every row has an explicit null in each column its source table did not
//! carry.  Alignment is driven purely by column-name membership, never by
//! position, which makes the operation associative.

use vstd::prelude::*;

verus! {

/// One cell of a table.
///
/// `Float` carries the IEEE-754 bit pattern of a double-precision scalar;
/// the table logic never interprets the pattern, it only moves it.
#[derive(Clone, Debug, PartialEq)]
pub enum CellValue {
    Float(u64),
    Int(i64),
    IntList(Vec<i64>),
    Str(String),
    Null,
}

/// Mathematical model of one cell.
#[verifier::ext_equal]
pub enum CellV {
    Float(u64),
    Int(i64),
    IntList(Seq<i64>),
    Str(Seq<char>),
    Null,
}

/// One named column.
#[derive(Clone, Debug, PartialEq)]
pub struct Column {
    pub name: String,
    pub cells: Vec<CellValue>,
}

/// Mathematical model of one column.
#[verifier::ext_equal]
pub struct ColV {
    pub name: Seq<char>,
    pub cells: Seq<CellV>,
}

/// An ordered collection of named columns; all columns have equal length
/// and pairwise distinct names.
#[derive(Clone, Debug, PartialEq)]
pub struct Table {
    pub cols: Vec<Column>,
}

/// Mathematical model of a table.
#[verifier::ext_equal]
pub struct TableV {
    pub cols: Seq<ColV>,
}

impl View for CellValue {
    type V = CellV;

    open spec fn view(&self) -> CellV {
        match self {
            CellValue::Float(x) => CellV::Float(*x),
            CellValue::Int(x) => CellV::Int(*x),
            CellValue::IntList(v) => CellV::IntList(v@),
            CellValue::Str(s) => CellV::Str(s@),
            CellValue::Null => CellV::Null,
        }
    }
}

/// The model of a sequence of cells.
pub open spec fn cells_view(s: Seq<CellValue>) -> Seq<CellV> {
    s.map_values(|c: CellValue| c@)
}

impl View for Column {
    type V = ColV;

    open spec fn view(&self) -> ColV {
        ColV { name: self.name@, cells: cells_view(self.cells@) }
    }
}

impl View for Table {
    type V = TableV;

    open spec fn view(&self) -> TableV {
        TableV { cols: self.cols@.map_values(|c: Column| c@) }
    }
}

impl TableV {
    /// The column names, in column order.
    pub open spec fn names(self) -> Seq<Seq<char>> {
        self.cols.map_values(|c: ColV| c.name)
    }

    /// The number of rows.  A table without columns has no rows.
    pub open spec fn height(self) -> nat {
        if self.cols.len() == 0 {
            0
        } else {
            self.cols[0].cells.len()
        }
    }

    /// Whether a column of the given name exists.
    pub open spec fn has_col(self, n: Seq<char>) -> bool {
        self.names().contains(n)
    }

    /// The index of the column of the given name.
    pub open spec fn col_index(self, n: Seq<char>) -> int {
        self.names().index_of(n)
    }

    /// The column of the given name.
    pub open spec fn col(self, n: Seq<char>) -> ColV {
        self.cols[self.col_index(n)]
    }

    /// The cell in the named column at the given row.
    pub open spec fn cell(self, n: Seq<char>, i: int) -> CellV {
        self.col(n).cells[i]
    }

    /// Well-formedness: columns of equal length with distinct names.
    pub open spec fn wf(self) -> bool {
        &&& forall|k: int|
            0 <= k < self.cols.len() ==> (#[trigger] self.cols[k].cells.len()) == self.height()
        &&& forall|k1: int, k2: int|
            0 <= k1 < k2 < self.cols.len() ==> self.cols[k1].name != self.cols[k2].name
    }
}

/// A run of null cells of the given length.
pub open spec fn null_cells(h: nat) -> Seq<CellV> {
    Seq::new(h, |i: int| CellV::Null)
}

/// The cells the table contributes to a merged column of name `n`: its own
/// cells when it has the column, one null per row otherwise.
pub open spec fn side_cells(t: TableV, n: Seq<char>) -> Seq<CellV> {
    if t.has_col(n) {
        t.col(n).cells
    } else {
        null_cells(t.height())
    }
}

/// The column of name `n` in the merge of `a` and `b`.
pub open spec fn merged_col(a: TableV, b: TableV, n: Seq<char>) -> ColV {
    ColV { name: n, cells: side_cells(a, n) + side_cells(b, n) }
}

/// The names of `b` that are not excluded, in `b`'s order.
pub open spec fn diff_names(b: Seq<Seq<char>>, ex: Set<Seq<char>>) -> Seq<Seq<char>>
    decreases b.len(),
{
    if b.len() == 0 {
        Seq::empty()
    } else if ex.contains(b.first()) {
        diff_names(b.drop_first(), ex)
    } else {
        seq![b.first()] + diff_names(b.drop_first(), ex)
    }
}

/// Stable union of two name sequences: all of `a`, then `b`'s new names in
/// first-seen order.
pub open spec fn union_names(a: Seq<Seq<char>>, b: Seq<Seq<char>>) -> Seq<Seq<char>> {
    a + diff_names(b, a.to_set())
}

/// The schema-reconciled concatenation of two tables: one column per name
/// of the stable union, each padded with nulls for the rows of the operand
/// that lacks the name.
pub open spec fn spec_merge(a: TableV, b: TableV) -> TableV {
    TableV {
        cols: union_names(a.names(), b.names()).map_values(|n: Seq<char>| merged_col(a, b, n)),
    }
}

impl CellValue {
    /// An exact copy of the cell.
    pub fn duplicate(&self) -> (r: CellValue)
        ensures
            r@ == self@,
    {
        match self {
            CellValue::Float(x) => CellValue::Float(*x),
            CellValue::Int(x) => CellValue::Int(*x),
            CellValue::IntList(v) => {
                let mut w: Vec<i64> = Vec::new();
                let n = v.len();
                for i in 0..n
                    invariant
                        n == v@.len(),
                        w@ =~= v@.take(i as int),
                {
                    w.push(v[i]);
                }
                assert(w@ =~= v@);
                CellValue::IntList(w)
            },
            CellValue::Str(s) => CellValue::Str(s.clone()),
            CellValue::Null => CellValue::Null,
        }
    }

    /// Whether the cell is a null.
    pub fn is_null(&self) -> (r: bool)
        ensures
            r == (self@ is Null),
    {
        match self {
            CellValue::Null => true,
            _ => false,
        }
    }
}

/// An exact copy of a cell vector.
pub fn duplicate_cells(v: &Vec<CellValue>) -> (r: Vec<CellValue>)
    ensures
        cells_view(r@) == cells_view(v@),
        r@.len() == v@.len(),
{
    let mut w: Vec<CellValue> = Vec::new();
    let n = v.len();
    for i in 0..n
        invariant
            n == v@.len(),
            w@.len() == i,
            forall|j: int| 0 <= j < i ==> #[trigger] w@[j]@ == v@[j]@,
    {
        w.push(v[i].duplicate());
    }
    assert(cells_view(w@) =~= cells_view(v@));
    w
}

/// A vector of `h` null cells.
pub fn null_cell_vec(h: usize) -> (r: Vec<CellValue>)
    ensures
        cells_view(r@) == null_cells(h as nat),
{
    let mut w: Vec<CellValue> = Vec::new();
    for i in 0..h
        invariant
            w@.len() == i,
            forall|j: int| 0 <= j < i ==> #[trigger] w@[j]@ == CellV::Null,
    {
        w.push(CellValue::Null);
    }
    assert(cells_view(w@) =~= null_cells(h as nat));
    w
}

impl Table {
    /// A table with no columns and hence no rows.
    pub fn empty() -> (r: Table)
        ensures
            r@.cols.len() == 0,
            r@.wf(),
    {
        let r = Table { cols: Vec::new() };
        assert(r@.cols =~= Seq::<ColV>::empty());
        r
    }

    /// The number of rows.
    pub fn height(&self) -> (r: usize)
        ensures
            r as nat == self@.height(),
    {
        if self.cols.len() == 0 {
            0
        } else {
            self.cols[0].cells.len()
        }
    }

    /// The number of columns.
    pub fn width(&self) -> (r: usize)
        ensures
            r as nat == self@.cols.len(),
    {
        self.cols.len()
    }

    /// The cells the table contributes under a name: its own column when
    /// present, nulls otherwise.
    pub fn side_cells_exec(&self, name: &String) -> (r: Vec<CellValue>)
        requires
            self@.wf(),
        ensures
            cells_view(r@) == side_cells(self@, name@),
    {
        match self.find_col(name) {
            Some(i) => duplicate_cells(&self.cols[i].cells),
            None => null_cell_vec(self.height()),
        }
    }

    /// The index of the column of the given name, if the table has one.
    pub fn find_col(&self, name: &String) -> (r: Option<usize>)
        ensures
            match r {
                Some(i) => i < self@.cols.len() && self@.cols[i as int].name == name@
                    && self@.has_col(name@),
                None => !self@.has_col(name@),
            },
    {
        let n = self.cols.len();
        for i in 0..n
            invariant
                n == self@.cols.len(),
                forall|j: int| 0 <= j < i ==> self@.cols[j].name != name@,
        {
            if self.cols[i].name.eq(name) {
                assert(self@.names()[i as int] == name@);
                return Some(i);
            }
        }
        assert(!self@.has_col(name@)) by {
            if self@.has_col(name@) {
                let k = choose|k: int|
                    0 <= k < self@.names().len() && self@.names()[k] == name@;
                assert(self@.cols[k].name == name@);
            }
        }
        None
    }
}

/// In a table with distinct column names, any index whose column carries
/// the name is the looked-up column.
pub proof fn lemma_col_at_index(t: TableV, i: int)
    requires
        t.wf(),
        0 <= i < t.cols.len(),
    ensures
        t.has_col(t.cols[i].name),
        t.col(t.cols[i].name) == t.cols[i],
{
    let n = t.cols[i].name;
    assert(t.names()[i] == n);
    let k = t.col_index(n);
    assert(0 <= k < t.names().len() && t.names()[k] == n);
    assert(t.cols[k].name == n);
    if k != i {
        if k < i {
            assert(t.cols[k].name != t.cols[i].name);
        } else {
            assert(t.cols[i].name != t.cols[k].name);
        }
        assert(false);
    }
}

/// Membership in a concatenation of sequences.
pub proof fn lemma_concat_contains<A>(x: Seq<A>, y: Seq<A>, n: A)
    ensures
        (x + y).contains(n) <==> x.contains(n) || y.contains(n),
{
    if x.contains(n) {
        let i = choose|i: int| 0 <= i < x.len() && x[i] == n;
        assert((x + y)[i] == n);
    }
    if y.contains(n) {
        let i = choose|i: int| 0 <= i < y.len() && y[i] == n;
        assert((x + y)[x.len() + i] == n);
    }
    if (x + y).contains(n) {
        let i = choose|i: int| 0 <= i < (x + y).len() && (x + y)[i] == n;
        if i < x.len() {
            assert(x[i] == n);
        } else {
            assert(y[i - x.len()] == n);
        }
    }
}

/// `diff_names` distributes over concatenation.
pub proof fn lemma_diff_names_concat(b1: Seq<Seq<char>>, b2: Seq<Seq<char>>, ex: Set<Seq<char>>)
    ensures
        diff_names(b1 + b2, ex) == diff_names(b1, ex) + diff_names(b2, ex),
    decreases b1.len(),
{
    if b1.len() == 0 {
        assert(b1 + b2 =~= b2);
        assert(diff_names(b1, ex) + diff_names(b2, ex) =~= diff_names(b2, ex));
    } else {
        assert((b1 + b2).len() > 0);
        assert((b1 + b2).first() == b1.first());
        assert((b1 + b2).drop_first() =~= b1.drop_first() + b2);
        lemma_diff_names_concat(b1.drop_first(), b2, ex);
        if ex.contains(b1.first()) {
        } else {
            assert(seq![b1.first()] + (diff_names(b1.drop_first(), ex) + diff_names(b2, ex)) =~= (
            seq![b1.first()] + diff_names(b1.drop_first(), ex)) + diff_names(b2, ex));
        }
    }
}

/// `diff_names` of a one-element sequence.
pub proof fn lemma_diff_names_singleton(n: Seq<char>, ex: Set<Seq<char>>)
    ensures
        diff_names(seq![n], ex) == if ex.contains(n) {
            Seq::<Seq<char>>::empty()
        } else {
            seq![n]
        },
{
    assert(seq![n].first() == n);
    let e = Seq::<Seq<char>>::empty();
    assert(seq![n].drop_first() =~= e);
    assert(seq![n].drop_first() == e);
    assert(diff_names(e, ex) == e);
    if !ex.contains(n) {
        assert(seq![n] + e =~= seq![n]);
    }
}

/// What `diff_names` keeps: exactly the names of `b` outside `ex`.
pub proof fn lemma_diff_names_membership(b: Seq<Seq<char>>, ex: Set<Seq<char>>, n: Seq<char>)
    ensures
        diff_names(b, ex).contains(n) <==> (b.contains(n) && !ex.contains(n)),
    decreases b.len(),
{
    if b.len() == 0 {
    } else {
        lemma_diff_names_membership(b.drop_first(), ex, n);
        assert(b.contains(n) <==> (b.first() == n || b.drop_first().contains(n))) by {
            if b.contains(n) {
                let i = choose|i: int| 0 <= i < b.len() && b[i] == n;
                if i == 0 {
                } else {
                    assert(b.drop_first()[i - 1] == n);
                }
            }
            if b.drop_first().contains(n) {
                let i = choose|i: int| 0 <= i < b.drop_first().len() && b.drop_first()[i] == n;
                assert(b[i + 1] == n);
            }
            if b.first() == n {
                assert(b[0] == n);
            }
        }
        if ex.contains(b.first()) {
        } else {
            lemma_concat_contains(seq![b.first()], diff_names(b.drop_first(), ex), n);
            assert(seq![b.first()].contains(n) <==> b.first() == n) by {
                if seq![b.first()].contains(n) {
                    let i = choose|i: int| 0 <= i < 1 && seq![b.first()][i] == n;
                    assert(seq![b.first()][0] == b.first());
                }
                if b.first() == n {
                    assert(seq![b.first()][0] == n);
                }
            }
        }
    }
}

/// Pairwise distinctness of a name sequence.
pub open spec fn distinct_names(s: Seq<Seq<char>>) -> bool {
    forall|i: int, j: int| 0 <= i < j < s.len() ==> s[i] != s[j]
}

/// `diff_names` keeps a distinct sequence distinct.
pub proof fn lemma_diff_names_distinct(b: Seq<Seq<char>>, ex: Set<Seq<char>>)
    requires
        distinct_names(b),
    ensures
        distinct_names(diff_names(b, ex)),
    decreases b.len(),
{
    if b.len() == 0 {
    } else {
        assert(distinct_names(b.drop_first())) by {
            assert forall|i: int, j: int|
                0 <= i < j < b.drop_first().len() implies b.drop_first()[i]
                != b.drop_first()[j] by {
                assert(b[i + 1] != b[j + 1]);
            }
        }
        lemma_diff_names_distinct(b.drop_first(), ex);
        if ex.contains(b.first()) {
        } else {
            let d = diff_names(b.drop_first(), ex);
            assert(!d.contains(b.first())) by {
                lemma_diff_names_membership(b.drop_first(), ex, b.first());
                if b.drop_first().contains(b.first()) {
                    let i = choose|i: int|
                        0 <= i < b.drop_first().len() && b.drop_first()[i] == b.first();
                    assert(b[i + 1] == b[0]);
                }
            }
            let r = seq![b.first()] + d;
            assert forall|i: int, j: int| 0 <= i < j < r.len() implies r[i] != r[j] by {
                if i == 0 {
                    if r[0] == r[j] {
                        assert(d[j - 1] == b.first());
                        assert(d.contains(b.first()));
                    }
                } else {
                    assert(d[i - 1] != d[j - 1]);
                }
            }
        }
    }
}

/// Membership in the stable union of two name sequences.
pub proof fn lemma_union_names_membership(a: Seq<Seq<char>>, b: Seq<Seq<char>>, n: Seq<char>)
    ensures
        union_names(a, b).contains(n) <==> a.contains(n) || b.contains(n),
{
    lemma_concat_contains(a, diff_names(b, a.to_set()), n);
    lemma_diff_names_membership(b, a.to_set(), n);
}

/// The stable union of two distinct name sequences is distinct.
pub proof fn lemma_union_names_distinct(a: Seq<Seq<char>>, b: Seq<Seq<char>>)
    requires
        distinct_names(a),
        distinct_names(b),
    ensures
        distinct_names(union_names(a, b)),
{
    lemma_diff_names_distinct(b, a.to_set());
    let d = diff_names(b, a.to_set());
    let r = a + d;
    assert forall|i: int, j: int| 0 <= i < j < r.len() implies r[i] != r[j] by {
        if j < a.len() {
        } else if i >= a.len() {
            assert(d[i - a.len()] != d[j - a.len()]);
        } else {
            lemma_diff_names_membership(b, a.to_set(), r[j]);
            if r[i] == r[j] {
                assert(a.contains(r[j]));
                assert(d[j - a.len()] == r[j]);
                assert(d.contains(r[j]));
            }
        }
    }
}

/// Excluding two sets in turn is excluding their union.
pub proof fn lemma_diff_names_twice(c: Seq<Seq<char>>, ex1: Set<Seq<char>>, ex2: Set<Seq<char>>)
    ensures
        diff_names(diff_names(c, ex2), ex1) == diff_names(c, ex1.union(ex2)),
    decreases c.len(),
{
    if c.len() == 0 {
    } else {
        let c0 = c.first();
        lemma_diff_names_twice(c.drop_first(), ex1, ex2);
        if ex2.contains(c0) {
        } else {
            assert(diff_names(c, ex2) =~= seq![c0] + diff_names(c.drop_first(), ex2));
            lemma_diff_names_concat(seq![c0], diff_names(c.drop_first(), ex2), ex1);
            lemma_diff_names_singleton(c0, ex1);
            if ex1.contains(c0) {
                assert(Seq::<Seq<char>>::empty() + diff_names(
                    diff_names(c.drop_first(), ex2),
                    ex1,
                ) =~= diff_names(diff_names(c.drop_first(), ex2), ex1));
            }
        }
    }
}

/// The name set of a stable union is the union of the name sets.
pub proof fn lemma_union_names_to_set(a: Seq<Seq<char>>, b: Seq<Seq<char>>)
    ensures
        union_names(a, b).to_set() == a.to_set().union(b.to_set()),
{
    assert forall|n: Seq<char>| #[trigger]
        union_names(a, b).to_set().contains(n) <==> a.to_set().union(b.to_set()).contains(n) by {
        lemma_union_names_membership(a, b, n);
    }
    assert(union_names(a, b).to_set() =~= a.to_set().union(b.to_set()));
}

/// The names of a merge are the stable union of the operands' names.
pub proof fn lemma_merge_names(a: TableV, b: TableV)
    ensures
        spec_merge(a, b).names() == union_names(a.names(), b.names()),
{
    let u = union_names(a.names(), b.names());
    assert(spec_merge(a, b).names() =~= u);
}

/// The contribution of a table under any name is one cell per row.
pub proof fn lemma_side_cells_len(t: TableV, n: Seq<char>)
    requires
        t.wf(),
    ensures
        side_cells(t, n).len() == t.height(),
{
    if t.has_col(n) {
        let k = t.col_index(n);
        assert(0 <= k < t.names().len() && t.names()[k] == n);
        assert(t.cols[k].cells.len() == t.height());
    }
}

/// A well-formed table's name sequence is distinct.
pub proof fn lemma_wf_distinct(t: TableV)
    requires
        t.wf(),
    ensures
        distinct_names(t.names()),
{
    assert forall|i: int, j: int|
        0 <= i < j < t.names().len() implies t.names()[i] != t.names()[j] by {
        assert(t.cols[i].name != t.cols[j].name);
    }
}

/// Shape of a merge: its names are the stable union, its height the sum of
/// the heights, it is well formed, it has exactly the operands' columns,
/// and each column is the name-aligned concatenation of the two sides.
pub proof fn lemma_merge_model(a: TableV, b: TableV)
    requires
        a.wf(),
        b.wf(),
    ensures
        spec_merge(a, b).names() == union_names(a.names(), b.names()),
        spec_merge(a, b).height() == a.height() + b.height(),
        spec_merge(a, b).wf(),
        forall|n: Seq<char>| #[trigger]
            spec_merge(a, b).has_col(n) <==> (a.has_col(n) || b.has_col(n)),
        forall|n: Seq<char>|
            #[trigger] spec_merge(a, b).has_col(n) ==> spec_merge(a, b).col(n) == merged_col(
                a,
                b,
                n,
            ),
{
    let m = spec_merge(a, b);
    let u = union_names(a.names(), b.names());
    lemma_merge_names(a, b);
    assert(m.cols.len() == u.len());
    assert forall|k: int| 0 <= k < m.cols.len() implies (#[trigger] m.cols[k].cells.len())
        == a.height() + b.height() by {
        assert(m.cols[k] == merged_col(a, b, u[k]));
        lemma_side_cells_len(a, u[k]);
        lemma_side_cells_len(b, u[k]);
    }
    if m.cols.len() == 0 {
        assert(a.names().len() == 0);
        assert(a.cols.len() == 0);
        if b.names().len() > 0 {
            lemma_diff_names_membership(b.names(), a.names().to_set(), b.names()[0]);
            assert(b.names().contains(b.names()[0]));
            assert(!a.names().contains(b.names()[0]));
            assert(diff_names(b.names(), a.names().to_set()).len() > 0);
            assert(false);
        }
        assert(b.cols.len() == 0);
    } else {
        assert(m.height() == m.cols[0].cells.len());
    }
    assert forall|n: Seq<char>| #[trigger]
        m.has_col(n) <==> (a.has_col(n) || b.has_col(n)) by {
        lemma_union_names_membership(a.names(), b.names(), n);
    }
    assert forall|n: Seq<char>| #[trigger] m.has_col(n) implies m.col(n) == merged_col(
        a,
        b,
        n,
    ) by {
        let k = m.col_index(n);
        assert(0 <= k < m.names().len() && m.names()[k] == n);
        assert(m.cols[k] == merged_col(a, b, u[k]));
    }
    lemma_wf_distinct(a);
    lemma_wf_distinct(b);
    lemma_union_names_distinct(a.names(), b.names());
    assert forall|k1: int, k2: int|
        0 <= k1 < k2 < m.cols.len() implies m.cols[k1].name != m.cols[k2].name by {
        assert(m.names()[k1] == m.cols[k1].name);
        assert(m.names()[k2] == m.cols[k2].name);
        assert(u[k1] != u[k2]);
    }
}

/// A merge's contribution under any name splits into the operands'
/// contributions, whether or not either operand has the column.
pub proof fn lemma_side_cells_merge(a: TableV, b: TableV, n: Seq<char>)
    requires
        a.wf(),
        b.wf(),
    ensures
        side_cells(spec_merge(a, b), n) == side_cells(a, n) + side_cells(b, n),
{
    lemma_merge_model(a, b);
    let m = spec_merge(a, b);
    if m.has_col(n) {
        assert(m.col(n) == merged_col(a, b, n));
    } else {
        assert(!a.has_col(n) && !b.has_col(n));
        assert(null_cells(m.height()) =~= null_cells(a.height()) + null_cells(b.height()));
    }
}

/// The stable union of name sequences is associative.
pub proof fn lemma_union_names_assoc(a: Seq<Seq<char>>, b: Seq<Seq<char>>, c: Seq<Seq<char>>)
    ensures
        union_names(union_names(a, b), c) == union_names(a, union_names(b, c)),
{
    let sa = a.to_set();
    let sb = b.to_set();
    let dba = diff_names(b, sa);
    lemma_union_names_to_set(a, b);
    assert(union_names(a, b).to_set() == sa.union(sb));
    // the left association
    assert(union_names(union_names(a, b), c) == (a + dba) + diff_names(c, sa.union(sb)));
    // the right association
    lemma_diff_names_concat(b, diff_names(c, sb), sa);
    lemma_diff_names_twice(c, sa, sb);
    assert(union_names(a, union_names(b, c)) == a + (dba + diff_names(c, sa.union(sb))));
    assert((a + dba) + diff_names(c, sa.union(sb)) =~= a + (dba + diff_names(c, sa.union(sb))));
}

/// Union invariant of the merge: the result's column-name set is the union
/// of the operands' name sets, no row is dropped, every operand cell keeps
/// its value and position, and every row lacking a column in its source
/// table carries an explicit null there.
pub proof fn lemma_merge_union_invariant(a: TableV, b: TableV)
    requires
        a.wf(),
        b.wf(),
    ensures
        spec_merge(a, b).wf(),
        spec_merge(a, b).names().to_set() == a.names().to_set().union(b.names().to_set()),
        spec_merge(a, b).height() == a.height() + b.height(),
        forall|n: Seq<char>, i: int|
            a.has_col(n) && 0 <= i < a.height() ==> #[trigger] spec_merge(a, b).cell(n, i)
                == a.cell(n, i),
        forall|n: Seq<char>, i: int|
            b.has_col(n) && 0 <= i < b.height() ==> #[trigger] spec_merge(a, b).cell(
                n,
                a.height() + i,
            ) == b.cell(n, i),
        forall|n: Seq<char>, i: int|
            !a.has_col(n) && b.has_col(n) && 0 <= i < a.height() ==> #[trigger] spec_merge(
                a,
                b,
            ).cell(n, i) == CellV::Null,
        forall|n: Seq<char>, i: int|
            !b.has_col(n) && a.has_col(n) && 0 <= i < b.height() ==> #[trigger] spec_merge(
                a,
                b,
            ).cell(n, a.height() + i) == CellV::Null,
{
    let m = spec_merge(a, b);
    lemma_merge_model(a, b);
    lemma_union_names_to_set(a.names(), b.names());
    assert forall|n: Seq<char>, i: int|
        (a.has_col(n) || b.has_col(n)) && 0 <= i < a.height() + b.height() implies #[trigger] m.cell(
        n,
        i,
    ) == (side_cells(a, n) + side_cells(b, n))[i] by {
        assert(m.has_col(n));
        assert(m.col(n) == merged_col(a, b, n));
    }
    assert forall|n: Seq<char>, i: int|
        a.has_col(n) && 0 <= i < a.height() implies #[trigger] m.cell(n, i) == a.cell(n, i) by {
        lemma_side_cells_len(a, n);
        assert((side_cells(a, n) + side_cells(b, n))[i] == side_cells(a, n)[i]);
    }
    assert forall|n: Seq<char>, i: int|
        b.has_col(n) && 0 <= i < b.height() implies #[trigger] m.cell(n, a.height() + i) == b.cell(
        n,
        i,
    ) by {
        lemma_side_cells_len(a, n);
        assert((side_cells(a, n) + side_cells(b, n))[a.height() + i] == side_cells(b, n)[i]);
    }
    assert forall|n: Seq<char>, i: int|
        !a.has_col(n) && b.has_col(n) && 0 <= i < a.height() implies #[trigger] m.cell(n, i)
        == CellV::Null by {
        lemma_side_cells_len(a, n);
        assert((side_cells(a, n) + side_cells(b, n))[i] == null_cells(a.height())[i]);
    }
    assert forall|n: Seq<char>, i: int|
        !b.has_col(n) && a.has_col(n) && 0 <= i < b.height() implies #[trigger] m.cell(
        n,
        a.height() + i,
    ) == CellV::Null by {
        lemma_side_cells_len(a, n);
        assert((side_cells(a, n) + side_cells(b, n))[a.height() + i] == null_cells(b.height())[i]);
    }
}

/// Associativity of the merge: either association of three well-formed
/// tables yields the same table, column order and cell content included, so
/// a parallel tree-reduction may parenthesize the fold in any way.
pub proof fn lemma_merge_associative(a: TableV, b: TableV, c: TableV)
    requires
        a.wf(),
        b.wf(),
        c.wf(),
    ensures
        spec_merge(spec_merge(a, b), c) == spec_merge(a, spec_merge(b, c)),
{
    let ab = spec_merge(a, b);
    let bc = spec_merge(b, c);
    lemma_merge_model(a, b);
    lemma_merge_model(b, c);
    lemma_merge_model(ab, c);
    lemma_merge_model(a, bc);
    lemma_union_names_assoc(a.names(), b.names(), c.names());
    let u = union_names(ab.names(), c.names());
    assert(union_names(a.names(), bc.names()) == u);
    let l = spec_merge(ab, c);
    let r = spec_merge(a, bc);
    assert(l.cols.len() == u.len() && r.cols.len() == u.len());
    assert forall|k: int| 0 <= k < u.len() implies l.cols[k] == r.cols[k] by {
        let n = u[k];
        assert(l.cols[k] == merged_col(ab, c, n));
        assert(r.cols[k] == merged_col(a, bc, n));
        lemma_side_cells_merge(a, b, n);
        lemma_side_cells_merge(b, c, n);
        assert((side_cells(a, n) + side_cells(b, n)) + side_cells(c, n) =~= side_cells(a, n) + (
        side_cells(b, n) + side_cells(c, n)));
        assert(l.cols[k] =~= r.cols[k]);
    }
    assert(l.cols =~= r.cols);
    assert(l =~= r);
}

/// The views of a string vector.
pub open spec fn str_views(s: Seq<String>) -> Seq<Seq<char>> {
    s.map_values(|x: String| x@)
}

/// The union of the two tables' column names, in stable first-seen order:
/// all of `a`'s names in order, then `b`'s new names in order.
pub fn union_name_vec(a: &Table, b: &Table) -> (r: Vec<String>)
    ensures
        str_views(r@) == union_names(a@.names(), b@.names()),
{
    let mut r: Vec<String> = Vec::new();
    let na = a.cols.len();
    for i in 0..na
        invariant
            na == a@.cols.len(),
            r@.len() == i,
            forall|j: int| 0 <= j < i ==> #[trigger] r@[j]@ == a@.names()[j],
    {
        r.push(a.cols[i].name.clone());
        assert(r@[i as int]@ == a@.names()[i as int]);
    }
    assert(str_views(r@) =~= a@.names());
    let ghost sa = a@.names().to_set();
    let ghost prefix = a@.names();
    let ghost bnames = b@.names();
    let nb = b.cols.len();
    assert(bnames.take(0) =~= Seq::<Seq<char>>::empty());
    assert(diff_names(bnames.take(0), sa) =~= Seq::<Seq<char>>::empty());
    assert(str_views(r@) =~= prefix + diff_names(bnames.take(0), sa));
    for i in 0..nb
        invariant
            nb == b@.cols.len(),
            str_views(r@) == prefix + diff_names(bnames.take(i as int), sa),
            bnames == b@.names(),
            prefix == a@.names(),
            sa == a@.names().to_set(),
    {
        let name = &b.cols[i].name;
        proof {
            assert(bnames[i as int] == name@);
            assert(bnames.take(i + 1) =~= bnames.take(i as int) + seq![bnames[i as int]]);
            lemma_diff_names_concat(bnames.take(i as int), seq![bnames[i as int]], sa);
            lemma_diff_names_singleton(bnames[i as int], sa);
        }
        match a.find_col(name) {
            Some(_) => {
                proof {
                    assert(sa.contains(name@));
                    assert(diff_names(bnames.take(i + 1), sa) =~= diff_names(
                        bnames.take(i as int),
                        sa,
                    ));
                }
            },
            None => {
                let ghost r_old = r@;
                r.push(name.clone());
                proof {
                    assert(!sa.contains(name@));
                    assert(r@ == r_old.push(*name));
                    assert(str_views(r@) =~= str_views(r_old) + seq![name@]);
                    assert(diff_names(bnames.take(i + 1), sa) =~= diff_names(
                        bnames.take(i as int),
                        sa,
                    ) + seq![name@]);
                    assert(str_views(r@) =~= prefix + diff_names(bnames.take(i + 1), sa));
                }
            },
        }
    }
    proof {
        assert(bnames.take(nb as int) =~= bnames);
    }
    r
}

/// The schema-reconciled concatenation of two tables.
///
/// The result carries one column per name of the stable union of the
/// operands' column sets; each column holds `a`'s cells above `b`'s, with
/// an explicit null for every row of an operand that lacks the name.
pub fn merge(a: &Table, b: &Table) -> (r: Table)
    requires
        a@.wf(),
        b@.wf(),
    ensures
        r@ == spec_merge(a@, b@),
        r@.wf(),
{
    let names = union_name_vec(a, b);
    let ghost u = union_names(a@.names(), b@.names());
    let n = names.len();
    let mut cols: Vec<Column> = Vec::new();
    for k in 0..n
        invariant
            a@.wf(),
            b@.wf(),
            n == names@.len(),
            str_views(names@) == u,
            u == union_names(a@.names(), b@.names()),
            cols@.len() == k,
            forall|j: int| 0 <= j < k ==> #[trigger] cols@[j]@ == merged_col(a@, b@, u[j]),
    {
        let mut cells = a.side_cells_exec(&names[k]);
        let mut bcells = b.side_cells_exec(&names[k]);
        cells.append(&mut bcells);
        proof {
            assert(names@[k as int]@ == u[k as int]);
            assert(cells_view(cells@) =~= side_cells(a@, u[k as int]) + side_cells(
                b@,
                u[k as int],
            ));
        }
        let name_k = (&names[k]).clone();
        cols.push(Column { name: name_k, cells });
        proof {
            assert(cols@[k as int]@ =~= merged_col(a@, b@, u[k as int]));
        }
    }
    let r = Table { cols };
    proof {
        lemma_merge_model(a@, b@);
        assert(r@.cols =~= spec_merge(a@, b@).cols);
        assert(r@ =~= spec_merge(a@, b@));
    }
    r
}

} // verus!
