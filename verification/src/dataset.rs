//! Tables of examples: splitting the label column from the feature columns and
//! laying a table out as a matrix with one example per column.

use vstd::prelude::*;
use crate::error::LoadError;
use crate::matrix::{shape_fits, Matrix};

verus! {

/// One named column of a table. A cell that holds no single-precision number
/// (text, or a missing value) is `None`.
#[derive(Debug)]
pub struct Column {
    pub name: String,
    pub cells: Vec<Option<u32>>,
}

/// Mathematical model of a column.
pub struct ColumnView {
    pub name: Seq<char>,
    pub cells: Seq<Option<u32>>,
}

impl View for Column {
    type V = ColumnView;

    open spec fn view(&self) -> ColumnView {
        ColumnView { name: self.name@, cells: self.cells@ }
    }
}

/// Mathematical model of a table: its row count and its columns, left to
/// right.
pub struct TableView {
    pub height: nat,
    pub columns: Seq<ColumnView>,
}

/// The name of the column that holds the labels.
pub open spec fn label_name() -> Seq<char> {
    "y"@
}

/// The predicate that picks the label columns.
pub open spec fn is_label() -> spec_fn(ColumnView) -> bool {
    |c: ColumnView| c.name == label_name()
}

/// The predicate that picks the feature columns.
pub open spec fn is_feature() -> spec_fn(ColumnView) -> bool {
    |c: ColumnView| c.name != label_name()
}

impl TableView {
    /// Every column has exactly `height` cells.
    pub open spec fn wf(self) -> bool {
        forall|j: int| 0 <= j < self.columns.len() ==> (#[trigger] self.columns[j]).cells.len() == self.height
    }

    /// The number of columns.
    pub open spec fn width(self) -> nat {
        self.columns.len()
    }

    /// The column names, left to right.
    pub open spec fn names(self) -> Seq<Seq<char>> {
        self.columns.map_values(|c: ColumnView| c.name)
    }

    /// Every cell holds a number.
    pub open spec fn all_numeric(self) -> bool {
        forall|j: int, i: int|
            0 <= j < self.columns.len() && 0 <= i < self.height ==> (#[trigger] self.columns[j].cells[i]) is Some
    }
}

/// A table: columns of equal length, each with a name.
pub struct Table {
    height: usize,
    columns: Vec<Column>,
}

impl View for Table {
    type V = TableView;

    closed spec fn view(&self) -> TableView {
        TableView { height: self.height as nat, columns: self.columns@.map_values(|c: Column| c@) }
    }
}

impl Table {
    #[verifier::type_invariant]
    spec fn inv(&self) -> bool {
        self@.wf()
    }

    /// Builds a table of `height` rows from its columns. There is no such
    /// table unless every column has exactly `height` cells.
    pub fn new(height: usize, columns: Vec<Column>) -> (r: Option<Table>)
        ensures
            r is Some <==> (forall|j: int| 0 <= j < columns@.len() ==> (#[trigger] columns@[j]).cells@.len() == height),
            r matches Some(t) ==> t@.wf() && t@.height == height && t@.columns == columns@.map_values(|c: Column| c@),
    {
        let mut j: usize = 0;
        while j < columns.len()
            invariant
                j <= columns@.len(),
                forall|k: int| 0 <= k < j ==> (#[trigger] columns@[k]).cells@.len() == height,
            decreases columns@.len() - j,
        {
            if columns[j].cells.len() != height {
                return None;
            }
            j += 1;
        }
        Some(Table { height, columns })
    }

    /// The number of rows.
    pub fn height(&self) -> (r: usize)
        ensures
            r == self@.height,
            self@.wf(),
    {
        proof {
            use_type_invariant(self);
        }
        self.height
    }

    /// The number of columns.
    pub fn width(&self) -> (r: usize)
        ensures
            r == self@.width(),
            self@.wf(),
    {
        proof {
            use_type_invariant(self);
        }
        self.columns.len()
    }

    /// The column at position `j`, counted from the left.
    pub fn column(&self, j: usize) -> (r: Option<&Column>)
        ensures
            self@.wf(),
            r is Some <==> j < self@.width(),
            r matches Some(c) ==> c@ == self@.columns[j as int],
    {
        proof {
            use_type_invariant(self);
        }
        if j < self.columns.len() {
            Some(&self.columns[j])
        } else {
            None
        }
    }
}

/// Filtering a sequence that ends in `x` filters what comes before `x`, and
/// keeps `x` after it exactly when `x` passes.
pub proof fn lemma_filter_push<A>(s: Seq<A>, x: A, pred: spec_fn(A) -> bool)
    ensures
        s.push(x).filter(pred) == (if pred(x) {
            s.filter(pred).push(x)
        } else {
            s.filter(pred)
        }),
{
    reveal(Seq::filter);
    assert(s.push(x).drop_last() =~= s);
}

/// A value is in a filtered sequence exactly when it is in the sequence and
/// passes the filter.
pub proof fn lemma_filter_members<A>(s: Seq<A>, pred: spec_fn(A) -> bool)
    ensures
        forall|x: A| #[trigger] s.filter(pred).contains(x) <==> s.contains(x) && pred(x),
    decreases s.len(),
{
    if s.len() == 0 {
        reveal(Seq::filter);
    } else {
        let front = s.drop_last();
        let last = s.last();
        lemma_filter_members(front, pred);
        assert(front.push(last) =~= s);
        lemma_filter_push(front, last, pred);
        let whole = s.filter(pred);
        let part = front.filter(pred);
        assert(whole == (if pred(last) {
            part.push(last)
        } else {
            part
        }));
        assert forall|x: A| #[trigger] whole.contains(x) <==> s.contains(x) && pred(x) by {
            if whole.contains(x) {
                let k = choose|k: int| 0 <= k < whole.len() && whole[k] == x;
                if k < part.len() {
                    assert(part[k] == x);
                    assert(part.contains(x));
                    assert(front.contains(x));
                    let m = choose|m: int| 0 <= m < front.len() && front[m] == x;
                    assert(s[m] == x);
                } else {
                    assert(s[s.len() - 1] == x);
                }
            }
            if s.contains(x) && pred(x) {
                let m = choose|m: int| 0 <= m < s.len() && s[m] == x;
                if m == s.len() - 1 {
                    assert(whole[part.len() as int] == x);
                } else {
                    assert(front[m] == x);
                    assert(front.contains(x));
                    assert(part.contains(x));
                    let k = choose|k: int| 0 <= k < part.len() && part[k] == x;
                    assert(whole[k] == x);
                }
            }
        }
    }
}

/// Taking the label columns out of a table that has one leaves every other
/// column name in place: the feature names together with the label name are
/// the names of the table.
pub proof fn lemma_split_keeps_names(columns: Seq<ColumnView>)
    requires
        columns.map_values(|c: ColumnView| c.name).contains(label_name()),
    ensures
        columns.filter(is_feature()).map_values(|c: ColumnView| c.name).to_set().insert(label_name())
            == columns.map_values(|c: ColumnView| c.name).to_set(),
        columns.filter(is_label()).map_values(|c: ColumnView| c.name).to_set() == set![label_name()],
{
    let name_of = |c: ColumnView| c.name;
    let all = columns.map_values(name_of);
    let kept = columns.filter(is_feature());
    let labels = columns.filter(is_label());
    lemma_filter_members(columns, is_feature());
    lemma_filter_members(columns, is_label());
    assert forall|n: Seq<char>| kept.map_values(name_of).to_set().insert(label_name()).contains(n)
        <==> all.to_set().contains(n) by {
        if kept.map_values(name_of).contains(n) {
            let k = choose|k: int| 0 <= k < kept.map_values(name_of).len() && kept.map_values(name_of)[k] == n;
            assert(kept.contains(kept[k]));
            assert(columns.contains(kept[k]));
            let m = choose|m: int| 0 <= m < columns.len() && columns[m] == kept[k];
            assert(all[m] == n);
        }
        if all.contains(n) && n != label_name() {
            let m = choose|m: int| 0 <= m < all.len() && all[m] == n;
            assert(columns.contains(columns[m]));
            assert(kept.contains(columns[m]));
            let k = choose|k: int| 0 <= k < kept.len() && kept[k] == columns[m];
            assert(kept.map_values(name_of)[k] == n);
        }
    }
    assert(kept.map_values(name_of).to_set().insert(label_name()) =~= all.to_set());
    assert forall|n: Seq<char>| labels.map_values(name_of).to_set().contains(n) <==> n
        == label_name() by {
        if labels.map_values(name_of).contains(n) {
            let k = choose|k: int| 0 <= k < labels.map_values(name_of).len() && labels.map_values(name_of)[k] == n;
            assert(labels.contains(labels[k]));
        }
        if n == label_name() {
            let m = choose|m: int| 0 <= m < all.len() && all[m] == n;
            assert(columns.contains(columns[m]));
            assert(labels.contains(columns[m]));
            let k = choose|k: int| 0 <= k < labels.len() && labels[k] == columns[m];
            assert(labels.map_values(name_of)[k] == n);
        }
    }
    assert(labels.map_values(name_of).to_set() =~= set![label_name()]);
}

/// A copy of a column.
fn copy_column(c: &Column) -> (r: Column)
    ensures
        r@ == c@,
{
    let mut cells: Vec<Option<u32>> = Vec::new();
    let mut i: usize = 0;
    while i < c.cells.len()
        invariant
            i <= c.cells@.len(),
            cells@ == c.cells@.take(i as int),
        decreases c.cells@.len() - i,
    {
        cells.push(c.cells[i]);
        assert(cells@ =~= c.cells@.take(i + 1));
        i += 1;
    }
    assert(cells@ =~= c.cells@);
    Column { name: c.name.clone(), cells }
}

/// Splits a table into its features and its labels.
///
/// Every column named `y` goes to the label table and every other column to the
/// feature table, each in the order they had. Both tables keep the row count.
/// A table without a column named `y` is refused as malformed.
pub fn load_data_as_dataframe(data: &Table) -> (r: Result<(Table, Table), LoadError>)
    ensures
        r is Ok <==> data@.names().contains(label_name()),
        r matches Err(e) ==> e == LoadError::Format,
        r matches Ok(pair) ==> pair.0@.wf() && pair.1@.wf(),
        r matches Ok(pair) ==> pair.0@.height == data@.height && pair.1@.height == data@.height,
        r matches Ok(pair) ==> pair.0@.columns == data@.columns.filter(is_feature()),
        r matches Ok(pair) ==> pair.1@.columns == data@.columns.filter(is_label()),
        r matches Ok(pair) ==> pair.0@.names().to_set().insert(label_name()) == data@.names().to_set(),
        r matches Ok(pair) ==> pair.1@.names().to_set() == set![label_name()],
{
    proof {
        use_type_invariant(data);
    }
    let label = "y".to_owned();
    let ghost source = data@.columns;
    let mut features: Vec<Column> = Vec::new();
    let mut labels: Vec<Column> = Vec::new();
    let mut j: usize = 0;
    assert(source.take(0).filter(is_feature()) =~= Seq::<ColumnView>::empty()) by {
        reveal(Seq::filter);
    }
    assert(source.take(0).filter(is_label()) =~= Seq::<ColumnView>::empty()) by {
        reveal(Seq::filter);
    }
    while j < data.columns.len()
        invariant
            j <= data.columns@.len(),
            label@ == label_name(),
            source == data@.columns,
            data@.wf(),
            features@.map_values(|c: Column| c@) == source.take(j as int).filter(is_feature()),
            labels@.map_values(|c: Column| c@) == source.take(j as int).filter(is_label()),
        decreases data.columns@.len() - j,
    {
        let column = copy_column(&data.columns[j]);
        proof {
            assert(column@ == source[j as int]);
            assert(source.take(j + 1) =~= source.take(j as int).push(source[j as int]));
            lemma_filter_push(source.take(j as int), source[j as int], is_feature());
            lemma_filter_push(source.take(j as int), source[j as int], is_label());
        }
        if column.name == label {
            labels.push(column);
            assert(labels@.map_values(|c: Column| c@) =~= source.take(j as int).filter(
                is_label(),
            ).push(source[j as int]));
        } else {
            features.push(column);
            assert(features@.map_values(|c: Column| c@) =~= source.take(j as int).filter(
                is_feature(),
            ).push(source[j as int]));
        }
        j += 1;
    }
    proof {
        assert(source.take(j as int) =~= source);
        lemma_filter_members(source, is_label());
        lemma_filter_members(source, is_feature());
        if data@.names().contains(label_name()) {
            let m = choose|m: int| 0 <= m < data@.names().len() && data@.names()[m] == label_name();
            assert(source.contains(source[m]));
            assert(source.filter(is_label()).contains(source[m]));
            lemma_split_keeps_names(source);
        }
        if labels@.len() > 0 {
            let first = labels@.map_values(|c: Column| c@)[0];
            assert(source.filter(is_label()).contains(first));
            let m = choose|m: int| 0 <= m < source.len() && source[m] == first;
            assert(data@.names()[m] == label_name());
        }
        assert forall|k: int| 0 <= k < features@.len() implies (#[trigger] features@[k]).cells@.len()
            == data.height by {
            let c = features@.map_values(|c: Column| c@)[k];
            assert(source.filter(is_feature()).contains(c));
            let m = choose|m: int| 0 <= m < source.len() && source[m] == c;
        }
        assert forall|k: int| 0 <= k < labels@.len() implies (#[trigger] labels@[k]).cells@.len()
            == data.height by {
            let c = labels@.map_values(|c: Column| c@)[k];
            assert(source.filter(is_label()).contains(c));
            let m = choose|m: int| 0 <= m < source.len() && source[m] == c;
        }
    }
    if labels.len() == 0 {
        return Err(LoadError::Format);
    }
    let x = Table { height: data.height, columns: features };
    let y = Table { height: data.height, columns: labels };
    Ok((x, y))
}

/// Lays a table out as a matrix with one row per column of the table and one
/// column per row of the table, so that each matrix column is one example.
///
/// The table is first taken in its natural layout, rows by columns, and then
/// transposed. A table with a cell that holds no number is refused, and so is
/// one whose shape is beyond what a matrix can have.
pub fn array_from_dataframe(dataframe: &Table) -> (r: Result<Matrix, LoadError>)
    ensures
        r is Ok <==> (dataframe@.all_numeric() && shape_fits(
            dataframe@.height,
            dataframe@.width(),
        )),
        r matches Err(e) ==> e == LoadError::Format,
        r matches Ok(a) ==> a.wf() && a@.rows == dataframe@.width() && a@.cols
            == dataframe@.height,
        r matches Ok(a) ==> forall|j: int, i: int|
            0 <= j < dataframe@.width() && 0 <= i < dataframe@.height ==> Some(
                #[trigger] a@.at(j, i),
            ) == dataframe@.columns[j].cells[i],
{
    proof {
        use_type_invariant(dataframe);
    }
    let height = dataframe.height;
    let width = dataframe.columns.len();
    let ghost table = dataframe@;
    let mut natural: Vec<u32> = Vec::new();
    let mut i: usize = 0;
    while i < height
        invariant
            i <= height,
            height == table.height,
            width == table.width(),
            table == dataframe@,
            table.wf(),
            natural@.len() == i * width,
            forall|p: int, q: int|
                0 <= p < i && 0 <= q < width ==> Some(#[trigger] natural@[p * width + q])
                    == table.columns[q].cells[p],
        decreases height - i,
    {
        let mut j: usize = 0;
        while j < width
            invariant
                i < height,
                j <= width,
                height == table.height,
                width == table.width(),
                table == dataframe@,
                table.wf(),
                natural@.len() == i * width + j,
                forall|p: int, q: int|
                    0 <= p < i && 0 <= q < width ==> Some(#[trigger] natural@[p * width + q])
                        == table.columns[q].cells[p],
                forall|q: int|
                    0 <= q < j ==> Some(#[trigger] natural@[i * width + q]) == table.columns[q].cells[i as int],
            decreases width - j,
        {
            let column = &dataframe.columns[j];
            assert(column@ == table.columns[j as int]);
            let ghost before = natural@;
            match column.cells[i] {
                Some(x) => {
                    natural.push(x);
                },
                None => {
                    assert(!table.all_numeric()) by {
                        assert(table.columns[j as int].cells[i as int] is None);
                    }
                    return Err(LoadError::Format);
                },
            }
            proof {
                assert forall|p: int, q: int| 0 <= p < i && 0 <= q < width implies Some(
                    #[trigger] natural@[p * width + q],
                ) == table.columns[q].cells[p] by {
                    crate::matrix::lemma_cell_index(i as nat, width as nat, p, q);
                    assert(natural@[p * width + q] == before[p * width + q]);
                }
                assert forall|q: int| 0 <= q < j + 1 implies Some(
                    #[trigger] natural@[i * width + q],
                ) == table.columns[q].cells[i as int] by {
                    if q < j {
                        assert(natural@[i * width + q] == before[i * width + q]);
                    }
                }
            }
            j += 1;
        }
        proof {
            assert((i + 1) * width == i * width + width) by (nonlinear_arith);
            assert forall|p: int, q: int| 0 <= p < i + 1 && 0 <= q < width implies Some(
                #[trigger] natural@[p * width + q],
            ) == table.columns[q].cells[p] by {
                if p == i {
                    assert(Some(natural@[i * width + q]) == table.columns[q].cells[i as int]);
                }
            }
        }
        i += 1;
    }
    proof {
        assert(table.all_numeric()) by {
            assert forall|q: int, p: int|
                0 <= q < table.columns.len() && 0 <= p < table.height implies (
            #[trigger] table.columns[q].cells[p]) is Some by {
                assert(Some(natural@[p * width + q]) == table.columns[q].cells[p]);
            }
        }
    }
    let ghost flat = natural@;
    match Matrix::from_shape_vec(height, width, natural) {
        Some(rows_by_columns) => {
            let a = rows_by_columns.transposed();
            proof {
                assert forall|q: int, p: int|
                    0 <= q < table.width() && 0 <= p < table.height implies Some(
                    #[trigger] a@.at(q, p),
                ) == table.columns[q].cells[p] by {
                    assert(a@.at(q, p) == rows_by_columns@.at(p, q));
                    assert(rows_by_columns@.at(p, q) == flat[p * width + q]);
                }
            }
            Ok(a)
        },
        None => Err(LoadError::Format),
    }
}

} // verus!
