//! The weight file: named parameter matrices as a JSON document.
//!
//! The document is an object with one member per parameter. Each member is an
//! object with a `dim` array of two integers, rows then columns, and a `data`
//! array with the `rows * cols` entries in row-major order.

use vstd::prelude::*;
use serde_json::Value;
use crate::error::LoadError;
use crate::json::{
    integer, items, json_document, json_integer, json_items, json_members, json_single, members,
    parse, single,
};
use crate::matrix::{shape_fits, Grid, Matrix};

verus! {

/// One member of a weight document as it is written: a name, the `dim`
/// integers and the `data` scalars, before any shape rule is applied.
#[derive(Debug)]
pub struct WeightRecord {
    pub name: String,
    pub dim: Vec<i64>,
    pub data: Vec<u32>,
}

/// Mathematical model of a weight record.
pub struct RecordView {
    pub name: Seq<char>,
    pub dim: Seq<i64>,
    pub data: Seq<u32>,
}

impl View for WeightRecord {
    type V = RecordView;

    open spec fn view(&self) -> RecordView {
        RecordView { name: self.name@, dim: self.dim@, data: self.data@ }
    }
}

/// The models of a sequence of records.
pub open spec fn record_views(records: Seq<WeightRecord>) -> Seq<RecordView> {
    records.map_values(|w: WeightRecord| w@)
}

/// The value of the first member with the given key, if there is one.
pub open spec fn field(members: Seq<(Seq<char>, Value)>, key: Seq<char>) -> Option<Value>
    decreases members.len(),
{
    if members.len() == 0 {
        None
    } else if members[0].0 == key {
        Some(members[0].1)
    } else {
        field(members.drop_first(), key)
    }
}

/// The elements of an array as integers, if every one of them is an integer.
pub open spec fn integers(list: Seq<Value>) -> Option<Seq<i64>> {
    if forall|k: int| 0 <= k < list.len() ==> (#[trigger] json_integer(list[k])) is Some {
        Some(Seq::new(list.len(), |k: int| json_integer(list[k]).unwrap()))
    } else {
        None
    }
}

/// The elements of an array as scalars, if every one of them is a number.
pub open spec fn singles(list: Seq<Value>) -> Option<Seq<u32>> {
    if forall|k: int| 0 <= k < list.len() ==> (#[trigger] json_single(list[k])) is Some {
        Some(Seq::new(list.len(), |k: int| json_single(list[k]).unwrap()))
    } else {
        None
    }
}

/// The array of integers under the key `dim` of an object's members.
pub open spec fn dim_of(fields: Seq<(Seq<char>, Value)>) -> Option<Seq<i64>> {
    match field(fields, "dim"@) {
        Some(d) => match json_items(d) {
            Some(list) => integers(list),
            None => None,
        },
        None => None,
    }
}

/// The array of scalars under the key `data` of an object's members.
pub open spec fn data_of(fields: Seq<(Seq<char>, Value)>) -> Option<Seq<u32>> {
    match field(fields, "data"@) {
        Some(d) => match json_items(d) {
            Some(list) => singles(list),
            None => None,
        },
        None => None,
    }
}

/// The record that one member of a weight document holds: its value must be an
/// object with an array of integers under `dim` and an array of numbers under
/// `data`.
pub open spec fn record_of(name: Seq<char>, value: Value) -> Option<RecordView> {
    match json_members(value) {
        Some(fields) => match (dim_of(fields), data_of(fields)) {
            (Some(dim), Some(data)) => Some(RecordView { name, dim, data }),
            _ => None,
        },
        None => None,
    }
}

/// The records of a weight document, one per member and in the members' order:
/// the document must be an object, and every member must hold a record.
pub open spec fn document_records(doc: Value) -> Option<Seq<RecordView>> {
    match json_members(doc) {
        Some(entries) => if forall|k: int|
            0 <= k < entries.len() ==> (#[trigger] record_of(entries[k].0, entries[k].1)) is Some {
            Some(Seq::new(entries.len(), |k: int| record_of(entries[k].0, entries[k].1).unwrap()))
        } else {
            None
        },
        None => None,
    }
}

/// Looks up the first member with the given key.
fn find_field<'a>(fields: &Vec<(&'a String, &'a Value)>, key: &str) -> (r: Option<&'a Value>)
    ensures
        r is Some <==> field(fields@.map_values(|e: (&String, &Value)| (e.0@, *e.1)), key@) is Some,
        r matches Some(v) ==> field(fields@.map_values(|e: (&String, &Value)| (e.0@, *e.1)), key@)
            == Some(*v),
{
    let wanted = key.to_owned();
    let ghost all = fields@.map_values(|e: (&String, &Value)| (e.0@, *e.1));
    let mut k: usize = 0;
    assert(all.skip(0) =~= all);
    while k < fields.len()
        invariant
            k <= fields@.len(),
            wanted@ == key@,
            all == fields@.map_values(|e: (&String, &Value)| (e.0@, *e.1)),
            field(all, key@) == field(all.skip(k as int), key@),
        decreases fields@.len() - k,
    {
        let entry = fields[k];
        proof {
            assert(all.skip(k as int)[0] == all[k as int]);
            assert(all.skip(k as int).drop_first() =~= all.skip(k + 1));
        }
        if *entry.0 == wanted {
            return Some(entry.1);
        }
        k += 1;
    }
    None
}

/// Reads every element of an array as an integer.
fn read_integers(list: &Vec<Value>) -> (r: Option<Vec<i64>>)
    ensures
        r is Some <==> integers(list@) is Some,
        r matches Some(v) ==> integers(list@) == Some(v@),
{
    let mut out: Vec<i64> = Vec::new();
    let mut k: usize = 0;
    while k < list.len()
        invariant
            k <= list@.len(),
            out@.len() == k,
            forall|i: int| 0 <= i < k ==> json_integer(list@[i]) == Some(#[trigger] out@[i]),
        decreases list@.len() - k,
    {
        match integer(&list[k]) {
            Some(n) => {
                out.push(n);
            },
            None => {
                assert(json_integer(list@[k as int]) is None);
                return None;
            },
        }
        k += 1;
    }
    assert(integers(list@) is Some) by {
        assert forall|i: int| 0 <= i < list@.len() implies (#[trigger] json_integer(list@[i])) is Some by {
            assert(json_integer(list@[i]) == Some(out@[i]));
        }
    }
    assert(integers(list@).unwrap() =~= out@);
    Some(out)
}

/// Reads every element of an array as a scalar.
fn read_singles(list: &Vec<Value>) -> (r: Option<Vec<u32>>)
    ensures
        r is Some <==> singles(list@) is Some,
        r matches Some(v) ==> singles(list@) == Some(v@),
{
    let mut out: Vec<u32> = Vec::new();
    let mut k: usize = 0;
    while k < list.len()
        invariant
            k <= list@.len(),
            out@.len() == k,
            forall|i: int| 0 <= i < k ==> json_single(list@[i]) == Some(#[trigger] out@[i]),
        decreases list@.len() - k,
    {
        match single(&list[k]) {
            Some(x) => {
                out.push(x);
            },
            None => {
                assert(json_single(list@[k as int]) is None);
                return None;
            },
        }
        k += 1;
    }
    assert(singles(list@) is Some) by {
        assert forall|i: int| 0 <= i < list@.len() implies (#[trigger] json_single(list@[i])) is Some by {
            assert(json_single(list@[i]) == Some(out@[i]));
        }
    }
    assert(singles(list@).unwrap() =~= out@);
    Some(out)
}

/// Reads the record that one member of a weight document holds.
fn read_record(name: &String, value: &Value) -> (r: Option<WeightRecord>)
    ensures
        r is Some <==> record_of(name@, *value) is Some,
        r matches Some(rec) ==> record_of(name@, *value) == Some(rec@),
{
    let fields = match members(value) {
        Some(fields) => fields,
        None => {
            return None;
        },
    };
    let dim = match find_field(&fields, "dim") {
        Some(d) => match items(d) {
            Some(list) => match read_integers(list) {
                Some(dim) => dim,
                None => {
                    return None;
                },
            },
            None => {
                return None;
            },
        },
        None => {
            return None;
        },
    };
    let data = match find_field(&fields, "data") {
        Some(d) => match items(d) {
            Some(list) => match read_singles(list) {
                Some(data) => data,
                None => {
                    return None;
                },
            },
            None => {
                return None;
            },
        },
        None => {
            return None;
        },
    };
    Some(WeightRecord { name: name.clone(), dim, data })
}

/// Reads the records of a parsed weight document, one per member.
///
/// The document must be an object, and each member's value an object with an
/// array of integers under `dim` and an array of numbers under `data`;
/// anything else is refused as malformed.
pub fn records_from_document(doc: &Value) -> (r: Result<Vec<WeightRecord>, LoadError>)
    ensures
        r is Ok <==> document_records(*doc) is Some,
        r matches Ok(records) ==> document_records(*doc) == Some(record_views(records@)),
        r matches Err(e) ==> e == LoadError::Format,
{
    let entries = match members(doc) {
        Some(entries) => entries,
        None => {
            return Err(LoadError::Format);
        },
    };
    let ghost all = json_members(*doc).unwrap();
    let mut records: Vec<WeightRecord> = Vec::new();
    let mut k: usize = 0;
    while k < entries.len()
        invariant
            k <= entries@.len(),
            json_members(*doc) == Some(all),
            all == entries@.map_values(|e: (&String, &Value)| (e.0@, *e.1)),
            records@.len() == k,
            forall|i: int|
                0 <= i < k ==> record_of(all[i].0, all[i].1) == Some((#[trigger] records@[i])@),
        decreases entries@.len() - k,
    {
        let entry = entries[k];
        assert(all[k as int] == (entry.0@, *entry.1));
        match read_record(entry.0, entry.1) {
            Some(rec) => {
                records.push(rec);
            },
            None => {
                assert(record_of(all[k as int].0, all[k as int].1) is None);
                return Err(LoadError::Format);
            },
        }
        k += 1;
    }
    proof {
        assert forall|i: int| 0 <= i < all.len() implies (#[trigger] record_of(all[i].0, all[i].1)) is Some by {
            assert(record_of(all[i].0, all[i].1) == Some(records@[i]@));
        }
        assert(document_records(*doc).unwrap() =~= record_views(records@));
    }
    Ok(records)
}

/// The grid that a record describes: `dim` must be exactly two integers that
/// are valid axis lengths, rows then columns, and `data` must have exactly
/// `rows * cols` entries, which are the grid's entries in row-major order.
pub open spec fn record_grid(rec: RecordView) -> Option<Grid> {
    if rec.dim.len() == 2 && 0 <= rec.dim[0] <= usize::MAX && 0 <= rec.dim[1] <= usize::MAX
        && shape_fits(rec.dim[0] as nat, rec.dim[1] as nat) && rec.data.len() == rec.dim[0]
        * rec.dim[1] {
        Some(Grid { rows: rec.dim[0] as nat, cols: rec.dim[1] as nat, cells: rec.data })
    } else {
        None
    }
}

/// The record under which a grid is saved: its name, its two axis lengths and
/// its entries in row-major order.
pub open spec fn saved_record(entry: (Seq<char>, Grid)) -> RecordView {
    RecordView {
        name: entry.0,
        dim: seq![entry.1.rows as i64, entry.1.cols as i64],
        data: entry.1.cells,
    }
}

/// The map that a sequence of named grids stands for; where a name occurs
/// twice, the later grid stays.
pub open spec fn entries_map(entries: Seq<(Seq<char>, Grid)>) -> Map<Seq<char>, Grid>
    decreases entries.len(),
{
    if entries.len() == 0 {
        Map::empty()
    } else {
        entries_map(entries.drop_last()).insert(entries.last().0, entries.last().1)
    }
}

/// The parameter map that a sequence of records describes, if every record
/// describes a grid; where a name occurs twice, the later record stays.
pub open spec fn records_map(records: Seq<RecordView>) -> Option<Map<Seq<char>, Grid>>
    decreases records.len(),
{
    if records.len() == 0 {
        Some(Map::empty())
    } else {
        match (records_map(records.drop_last()), record_grid(records.last())) {
            (Some(m), Some(g)) => Some(m.insert(records.last().name, g)),
            _ => None,
        }
    }
}

/// No two entries have the same name.
pub open spec fn distinct_names(entries: Seq<(Seq<char>, Grid)>) -> bool {
    forall|i: int, j: int| 0 <= i < j < entries.len() ==> entries[i].0 != entries[j].0
}

/// A sequence of records describes a map exactly when each record describes a
/// grid.
pub proof fn lemma_records_map_some(records: Seq<RecordView>)
    ensures
        records_map(records) is Some <==> forall|k: int|
            0 <= k < records.len() ==> (#[trigger] record_grid(records[k])) is Some,
    decreases records.len(),
{
    if records.len() > 0 {
        lemma_records_map_some(records.drop_last());
        if records_map(records) is Some {
            assert forall|k: int| 0 <= k < records.len() implies (#[trigger] record_grid(
                records[k],
            )) is Some by {
                if k < records.len() - 1 {
                    assert(records.drop_last()[k] == records[k]);
                }
            }
        } else if record_grid(records.last()) is Some {
            let k = choose|k: int|
                0 <= k < records.len() - 1 && !((#[trigger] record_grid(records.drop_last()[k])) is Some);
            assert(records.drop_last()[k] == records[k]);
        }
    }
}

/// A name is in the map of a sequence of entries exactly when an entry has it.
pub proof fn lemma_entries_map_domain(entries: Seq<(Seq<char>, Grid)>)
    ensures
        forall|name: Seq<char>| #[trigger]
            entries_map(entries).contains_key(name) <==> exists|k: int|
                0 <= k < entries.len() && (#[trigger] entries[k]).0 == name,
    decreases entries.len(),
{
    if entries.len() > 0 {
        let front = entries.drop_last();
        lemma_entries_map_domain(front);
        assert forall|name: Seq<char>| #[trigger]
            entries_map(entries).contains_key(name) <==> exists|k: int|
                0 <= k < entries.len() && (#[trigger] entries[k]).0 == name by {
            if entries_map(entries).contains_key(name) {
                if name == entries.last().0 {
                    assert(entries[entries.len() - 1].0 == name);
                } else {
                    assert(entries_map(front).contains_key(name));
                    let k = choose|k: int| 0 <= k < front.len() && (#[trigger] front[k]).0 == name;
                    assert(entries[k].0 == name);
                }
            }
            if exists|k: int| 0 <= k < entries.len() && (#[trigger] entries[k]).0 == name {
                let k = choose|k: int| 0 <= k < entries.len() && (#[trigger] entries[k]).0 == name;
                if k < entries.len() - 1 {
                    assert(front[k].0 == name);
                    assert(entries_map(front).contains_key(name));
                }
            }
        }
    }
}

/// With distinct names, the map of a sequence of entries holds each entry's
/// grid under that entry's name.
pub proof fn lemma_entries_map_value(entries: Seq<(Seq<char>, Grid)>, k: int)
    requires
        distinct_names(entries),
        0 <= k < entries.len(),
    ensures
        entries_map(entries).contains_key(entries[k].0),
        entries_map(entries)[entries[k].0] == entries[k].1,
    decreases entries.len(),
{
    if k < entries.len() - 1 {
        let front = entries.drop_last();
        assert(front[k] == entries[k]);
        lemma_entries_map_value(front, k);
    }
}

/// With distinct names, replacing the grid of one entry replaces the grid
/// under that entry's name in the map.
pub proof fn lemma_entries_map_update(entries: Seq<(Seq<char>, Grid)>, k: int, g: Grid)
    requires
        distinct_names(entries),
        0 <= k < entries.len(),
    ensures
        entries_map(entries.update(k, (entries[k].0, g))) == entries_map(entries).insert(
            entries[k].0,
            g,
        ),
    decreases entries.len(),
{
    let changed = entries.update(k, (entries[k].0, g));
    let front = entries.drop_last();
    if k == entries.len() - 1 {
        assert(changed.drop_last() =~= front);
        assert(entries_map(changed) =~= entries_map(entries).insert(entries[k].0, g));
    } else {
        assert(front[k] == entries[k]);
        assert(changed.drop_last() =~= front.update(k, (front[k].0, g)));
        lemma_entries_map_update(front, k, g);
        assert(entries_map(changed) =~= entries_map(entries).insert(entries[k].0, g));
    }
}

/// With distinct names, the map of a sequence of entries has as many names as
/// there are entries.
pub proof fn lemma_entries_map_len(entries: Seq<(Seq<char>, Grid)>)
    requires
        distinct_names(entries),
    ensures
        entries_map(entries).dom().finite(),
        entries_map(entries).len() == entries.len(),
    decreases entries.len(),
{
    if entries.len() > 0 {
        let front = entries.drop_last();
        lemma_entries_map_len(front);
        lemma_entries_map_domain(front);
        if entries_map(front).contains_key(entries.last().0) {
            let k = choose|k: int| 0 <= k < front.len() && (#[trigger] front[k]).0 == entries.last().0;
            assert(entries[k].0 == entries[entries.len() - 1].0);
        }
    }
}

/// Saving and loading back gives the same parameters: the records under which
/// a sequence of named grids is saved describe the map of those same grids,
/// provided that each grid is one that a matrix can hold.
pub proof fn lemma_saved_records_load_back(entries: Seq<(Seq<char>, Grid)>)
    requires
        forall|k: int| 0 <= k < entries.len() ==> (#[trigger] entries[k]).1.storable(),
    ensures
        records_map(entries.map_values(|e: (Seq<char>, Grid)| saved_record(e))) == Some(
            entries_map(entries),
        ),
    decreases entries.len(),
{
    let saved = entries.map_values(|e: (Seq<char>, Grid)| saved_record(e));
    if entries.len() > 0 {
        let front = entries.drop_last();
        assert forall|k: int| 0 <= k < front.len() implies (#[trigger] front[k]).1.storable() by {
            assert(front[k] == entries[k]);
        }
        lemma_saved_records_load_back(front);
        assert(saved.drop_last() =~= front.map_values(|e: (Seq<char>, Grid)| saved_record(e)));
        lemma_saved_record_grid(entries.last());
    }
}

/// The record under which a storable grid is saved describes that grid.
pub proof fn lemma_saved_record_grid(entry: (Seq<char>, Grid))
    requires
        entry.1.storable(),
    ensures
        record_grid(saved_record(entry)) == Some(entry.1),
{
    let g = entry.1;
    assert(g.rows <= isize::MAX && g.cols <= isize::MAX) by (nonlinear_arith)
        requires
            crate::matrix::axis_weight(g.rows) * crate::matrix::axis_weight(g.cols) <= isize::MAX,
            crate::matrix::axis_weight(g.rows) >= 1,
            crate::matrix::axis_weight(g.cols) >= 1,
            crate::matrix::axis_weight(g.rows) >= g.rows,
            crate::matrix::axis_weight(g.cols) >= g.cols,
    ;
    let rec = saved_record(entry);
    assert(rec.dim[0] == g.rows && rec.dim[1] == g.cols);
}

/// One parameter: a matrix under its name.
struct Parameter {
    name: String,
    matrix: Matrix,
}

/// The named grids of a sequence of parameters.
spec fn named_grids(items: Seq<Parameter>) -> Seq<(Seq<char>, Grid)> {
    Seq::new(items.len(), |k: int| (items[k].name@, items[k].matrix@))
}

/// Named parameter matrices. A name occurs at most once.
pub struct ParameterMap {
    items: Vec<Parameter>,
}

impl View for ParameterMap {
    type V = Map<Seq<char>, Grid>;

    open spec fn view(&self) -> Map<Seq<char>, Grid> {
        entries_map(self.entries())
    }
}

impl ParameterMap {
    /// The parameters as named grids, in the order in which they are stored.
    pub closed spec fn entries(&self) -> Seq<(Seq<char>, Grid)> {
        named_grids(self.items@)
    }

    /// No name occurs twice, and every grid is one that a matrix can hold.
    pub open spec fn wf(&self) -> bool {
        &&& distinct_names(self.entries())
        &&& forall|k: int| 0 <= k < self.entries().len() ==> (#[trigger] self.entries()[k]).1.storable()
    }

    /// The records under which the parameters are saved, in stored order.
    pub open spec fn saved_records(&self) -> Seq<RecordView> {
        self.entries().map_values(|e: (Seq<char>, Grid)| saved_record(e))
    }

    #[verifier::type_invariant]
    spec fn inv(&self) -> bool {
        self.wf()
    }

    /// Saving a parameter map and loading the records back gives the same
    /// map: the same names, and under each name the same matrix.
    pub proof fn lemma_save_load_round_trip(&self)
        requires
            self.wf(),
        ensures
            records_map(self.saved_records()) == Some(self@),
    {
        lemma_saved_records_load_back(self.entries());
    }

    /// A map without parameters.
    pub fn new() -> (r: ParameterMap)
        ensures
            r.wf(),
            r@ == Map::<Seq<char>, Grid>::empty(),
    {
        let r = ParameterMap { items: Vec::new() };
        assert(r.entries() =~= Seq::empty());
        r
    }

    /// The number of parameters.
    pub fn len(&self) -> (r: usize)
        ensures
            self.wf(),
            self@.dom().finite(),
            r == self@.len(),
    {
        proof {
            use_type_invariant(self);
            lemma_entries_map_len(self.entries());
        }
        self.items.len()
    }

    /// Where the parameter with the given name is stored.
    fn position(&self, name: &String) -> (r: Option<usize>)
        ensures
            r matches Some(k) ==> k < self.entries().len() && self.entries()[k as int].0 == name@,
            r is None ==> forall|k: int|
                0 <= k < self.entries().len() ==> (#[trigger] self.entries()[k]).0 != name@,
    {
        proof {
            use_type_invariant(self);
        }
        let mut k: usize = 0;
        while k < self.items.len()
            invariant
                k <= self.items@.len(),
                self.items@.len() == self.entries().len(),
                forall|i: int| 0 <= i < k ==> (#[trigger] self.entries()[i]).0 != name@,
            decreases self.items@.len() - k,
        {
            if self.items[k].name == *name {
                return Some(k);
            }
            k += 1;
        }
        None
    }

    /// The matrix stored under a name, if there is one.
    pub fn get(&self, name: &str) -> (r: Option<&Matrix>)
        ensures
            self.wf(),
            r is Some <==> self@.contains_key(name@),
            r matches Some(m) ==> m.wf() && m@ == self@[name@],
    {
        proof {
            use_type_invariant(self);
            lemma_entries_map_domain(self.entries());
        }
        let wanted = name.to_owned();
        match self.position(&wanted) {
            Some(k) => {
                proof {
                    lemma_entries_map_value(self.entries(), k as int);
                    assert(self.entries()[k as int].1.storable());
                }
                Some(&self.items[k].matrix)
            },
            None => None,
        }
    }

    /// Stores a matrix under a name, in place of the matrix that the name had
    /// before, if it had one.
    pub fn insert(&mut self, name: String, matrix: Matrix)
        ensures
            final(self).wf(),
            final(self)@ == old(self)@.insert(name@, matrix@),
    {
        proof {
            use_type_invariant(&*self);
        }
        let _ = matrix.dim();
        let ghost before = self.entries();
        let found = self.position(&name);
        let mut items: Vec<Parameter> = Vec::new();
        core::mem::swap(&mut items, &mut self.items);
        match found {
            Some(k) => {
                items.set(k, Parameter { name, matrix });
                proof {
                    let after = named_grids(items@);
                    assert(after =~= before.update(k as int, (before[k as int].0, matrix@)));
                    lemma_entries_map_update(before, k as int, matrix@);
                    assert forall|i: int| 0 <= i < after.len() implies (#[trigger] after[i]).1.storable() by {
                        if i != k {
                            assert(after[i] == before[i]);
                        }
                    }
                }
                self.items = items;
            },
            None => {
                items.push(Parameter { name, matrix });
                proof {
                    let after = named_grids(items@);
                    assert(after =~= before.push((name@, matrix@)));
                    assert(after.drop_last() =~= before);
                    assert forall|i: int| 0 <= i < after.len() implies (#[trigger] after[i]).1.storable() by {
                        if i < before.len() {
                            assert(after[i] == before[i]);
                        }
                    }
                }
                self.items = items;
            },
        }
    }
}

/// Builds the matrix that a record describes, if it describes one.
pub fn matrix_from_record(rec: &WeightRecord) -> (r: Option<Matrix>)
    ensures
        r is Some <==> record_grid(rec@) is Some,
        r matches Some(m) ==> m.wf() && Some(m@) == record_grid(rec@),
{
    if rec.dim.len() != 2 {
        return None;
    }
    let rows = rec.dim[0];
    let cols = rec.dim[1];
    if rows < 0 || cols < 0 {
        return None;
    }
    if rows as u64 > usize::MAX as u64 || cols as u64 > usize::MAX as u64 {
        return None;
    }
    let mut data: Vec<u32> = Vec::new();
    let mut k: usize = 0;
    while k < rec.data.len()
        invariant
            k <= rec.data@.len(),
            data@ == rec.data@.take(k as int),
        decreases rec.data@.len() - k,
    {
        data.push(rec.data[k]);
        assert(data@ =~= rec.data@.take(k + 1));
        k += 1;
    }
    assert(data@ =~= rec.data@);
    Matrix::from_shape_vec(rows as usize, cols as usize, data)
}

/// Builds the parameter map that a sequence of records describes.
///
/// Every record must describe a matrix: exactly two axis lengths under `dim`,
/// neither negative, and exactly `rows * cols` entries under `data`. One record
/// that does not makes the whole sequence malformed.
pub fn parameters_from_records(records: &Vec<WeightRecord>) -> (r: Result<ParameterMap, LoadError>)
    ensures
        r is Ok <==> records_map(record_views(records@)) is Some,
        r matches Ok(p) ==> p.wf() && Some(p@) == records_map(record_views(records@)),
        r matches Err(e) ==> e == LoadError::Format,
{
    let ghost all = record_views(records@);
    let mut params = ParameterMap::new();
    let mut k: usize = 0;
    while k < records.len()
        invariant
            k <= records@.len(),
            all == record_views(records@),
            params.wf(),
            records_map(all.take(k as int)) == Some(params@),
        decreases records@.len() - k,
    {
        let rec = &records[k];
        assert(rec@ == all[k as int]);
        match matrix_from_record(rec) {
            Some(m) => {
                proof {
                    assert(all.take(k + 1).drop_last() =~= all.take(k as int));
                }
                params.insert(rec.name.clone(), m);
            },
            None => {
                proof {
                    lemma_records_map_some(all);
                }
                return Err(LoadError::Format);
            },
        }
        k += 1;
    }
    assert(all.take(k as int) =~= all);
    Ok(params)
}

/// The records under which a parameter map is saved: for each parameter its
/// name, its row and column counts under `dim`, and its entries in row-major
/// order under `data`.
pub fn save_parameters(params: &ParameterMap) -> (records: Vec<WeightRecord>)
    ensures
        params.wf(),
        records@.len() == params@.len(),
        record_views(records@) == params.saved_records(),
        records_map(record_views(records@)) == Some(params@),
{
    proof {
        use_type_invariant(params);
        lemma_saved_records_load_back(params.entries());
        lemma_entries_map_len(params.entries());
    }
    let mut records: Vec<WeightRecord> = Vec::new();
    let mut k: usize = 0;
    while k < params.items.len()
        invariant
            k <= params.items@.len(),
            params.items@.len() == params.entries().len(),
            params.wf(),
            records@.len() == k,
            params.saved_records().len() == params.entries().len(),
            record_views(records@) == params.saved_records().take(k as int),
        decreases params.items@.len() - k,
    {
        let matrix = &params.items[k].matrix;
        let shape = matrix.dim();
        let data = matrix.to_vec();
        proof {
            assert(params.entries()[k as int] == (params.items@[k as int].name@, matrix@));
            lemma_saved_record_grid(params.entries()[k as int]);
        }
        let mut dim: Vec<i64> = Vec::new();
        dim.push(shape.0 as i64);
        dim.push(shape.1 as i64);
        let rec = WeightRecord { name: params.items[k].name.clone(), dim, data };
        let ghost earlier = records@;
        proof {
            assert(rec@.dim =~= saved_record(params.entries()[k as int]).dim);
            assert(rec@ == saved_record(params.entries()[k as int]));
            assert(params.saved_records()[k as int] == rec@);
        }
        records.push(rec);
        proof {
            assert(records@ == earlier.push(rec));
            assert(record_views(records@).len() == k + 1);
            assert(params.saved_records().take(k + 1).len() == k + 1);
            assert forall|i: int| 0 <= i < k + 1 implies record_views(records@)[i]
                == params.saved_records().take(k + 1)[i] by {
                if i < k {
                    assert(records@[i] == earlier[i]);
                    assert(record_views(earlier)[i] == params.saved_records().take(k as int)[i]);
                } else {
                    assert(records@[i] == rec);
                }
            }
        }
        assert(record_views(records@) =~= params.saved_records().take(k + 1));
        k += 1;
    }
    assert(params.saved_records().take(k as int) =~= params.saved_records());
    records
}

/// What a weight document reads as: a parsing failure where the text is not
/// well-formed JSON, a format failure where it is JSON of another structure or
/// one of its records describes no matrix, and the map of its records
/// otherwise.
pub open spec fn decoded(text: Seq<char>) -> Result<Map<Seq<char>, Grid>, LoadError> {
    match json_document(text) {
        None => Err(LoadError::Parse),
        Some(doc) => match document_records(doc) {
            None => Err(LoadError::Format),
            Some(records) => match records_map(records) {
                None => Err(LoadError::Format),
                Some(map) => Ok(map),
            },
        },
    }
}

/// Reads the parameter matrices out of the text of a weight file.
pub fn load_weights_from_json(text: &str) -> (r: Result<ParameterMap, LoadError>)
    ensures
        r matches Ok(p) ==> p.wf() && decoded(text@) == Ok::<Map<Seq<char>, Grid>, LoadError>(p@),
        r matches Err(e) ==> decoded(text@) == Err::<Map<Seq<char>, Grid>, LoadError>(e),
{
    let doc = match parse(text) {
        Ok(doc) => doc,
        Err(_) => {
            return Err(LoadError::Parse);
        },
    };
    let records = match records_from_document(&doc) {
        Ok(records) => records,
        Err(e) => {
            return Err(e);
        },
    };
    parameters_from_records(&records)
}

} // verus!
