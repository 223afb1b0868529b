use crate::types::{
    accepts_row, column_position, compare_spec, lemma_column_position, row_rejection, rows_view,
    Column, ColumnView, DataType, Operator, Row, Schema, TypeError, Value, ValueView,
};
use vstd::prelude::*;

verus! {

/// Errors raised by the table store.
#[derive(Debug)]
pub enum StorageError {
    TableNotFound(String),
    TableAlreadyExists(String),
    SchemaMismatch(String),
    ColumnNotFound(String),
    ValidationError(TypeError),
    ConcurrencyError(String),
    IOError(String),
    SerializationError(String),
}

/// The name and schema of a table.
#[derive(Debug)]
pub struct TableMetadata {
    pub name: String,
    pub schema: Schema,
}

impl Clone for TableMetadata {
    fn clone(&self) -> (r: Self)
        ensures
            r.name == self.name,
            r.schema.columns@ == self.schema.columns@,
    {
        TableMetadata { name: self.name.clone(), schema: self.schema.clone() }
    }
}

/// A table: its metadata and its rows in the order they were inserted.
#[derive(Debug, Clone)]
pub struct Table {
    pub metadata: TableMetadata,
    pub rows: Vec<Row>,
}

/// What a table holds, as mathematical values.
pub struct TableView {
    pub name: Seq<char>,
    pub columns: Seq<ColumnView>,
    pub rows: Seq<Seq<ValueView>>,
}

impl View for Table {
    type V = TableView;

    open spec fn view(&self) -> TableView {
        TableView {
            name: self.metadata.name@,
            columns: self.metadata.schema@,
            rows: rows_view(self.rows@),
        }
    }
}

/// The table with one more row at the end.
pub open spec fn with_row(t: TableView, row: Seq<ValueView>) -> TableView {
    TableView { name: t.name, columns: t.columns, rows: t.rows.push(row) }
}

/// The table with more rows at the end.
pub open spec fn with_rows(t: TableView, rows: Seq<Seq<ValueView>>) -> TableView {
    TableView { name: t.name, columns: t.columns, rows: t.rows + rows }
}

/// The error is the `InvalidValue` that `validate_row` gives for a row the schema rejects.
pub open spec fn rejected_with(e: StorageError, cols: Seq<ColumnView>, row: Seq<ValueView>) -> bool {
    e matches StorageError::ValidationError(TypeError::InvalidValue(a, b)) && row_rejection(cols, row)
        == Some((a@, b@))
}

/// The error is that of the first row, among `rows`, that the schema rejects.
pub open spec fn first_rejected_row(
    e: StorageError,
    cols: Seq<ColumnView>,
    rows: Seq<Seq<ValueView>>,
) -> bool {
    exists|k: int|
        0 <= k < rows.len() && rejected_with(e, cols, #[trigger] rows[k]) && forall|j: int|
            0 <= j < k ==> accepts_row(cols, #[trigger] rows[j])
}

/// Every row of the table fits its schema.
pub open spec fn table_wf(t: TableView) -> bool {
    forall|k: int| 0 <= k < t.rows.len() ==> accepts_row(t.columns, #[trigger] t.rows[k])
}

/// The rows, among `rows`, whose value at `idx` satisfies `op` against `v`, in their order;
/// `None` when a row has no value there or a comparison is an error.
pub open spec fn filter_spec(rows: Seq<Seq<ValueView>>, idx: int, op: Operator, v: ValueView) -> Option<
    Seq<Seq<ValueView>>,
>
    decreases rows.len(),
{
    if rows.len() == 0 {
        Some(Seq::empty())
    } else {
        match filter_spec(rows.drop_last(), idx, op, v) {
            None => None,
            Some(prev) => {
                let r = rows.last();
                if idx < 0 || idx >= r.len() {
                    None
                } else {
                    match compare_spec(r[idx], op, v) {
                        None => None,
                        Some(true) => Some(prev.push(r)),
                        Some(false) => Some(prev),
                    }
                }
            },
        }
    }
}

proof fn lemma_filter_none_extends(
    rows: Seq<Seq<ValueView>>,
    k: int,
    idx: int,
    op: Operator,
    v: ValueView,
)
    requires
        0 <= k <= rows.len(),
        filter_spec(rows.subrange(0, k), idx, op, v) is None,
    ensures
        filter_spec(rows, idx, op, v) is None,
    decreases rows.len(),
{
    if k == rows.len() {
        assert(rows.subrange(0, k) == rows);
    } else {
        assert(rows.drop_last().subrange(0, k) == rows.subrange(0, k));
        lemma_filter_none_extends(rows.drop_last(), k, idx, op, v);
    }
}

/// Keeps the rows whose value at `idx` satisfies `op` against `v`.
pub fn filter_by(rows: &Vec<Row>, idx: usize, op: &Operator, v: &Value) -> (r: Result<
    Vec<Row>,
    TypeError,
>)
    ensures
        match r {
            Ok(out) => filter_spec(rows_view(rows@), idx as int, *op, v@) == Some(rows_view(out@)),
            Err(_) => filter_spec(rows_view(rows@), idx as int, *op, v@) is None,
        },
{
    let mut out: Vec<Row> = Vec::new();
    let mut i: usize = 0;
    while i < rows.len()
        invariant
            i <= rows@.len(),
            filter_spec(rows_view(rows@).subrange(0, i as int), idx as int, *op, v@) == Some(
                rows_view(out@),
            ),
        decreases rows@.len() - i,
    {
        let ghost pre = rows_view(rows@).subrange(0, i as int + 1);
        assert(pre.drop_last() == rows_view(rows@).subrange(0, i as int));
        assert(pre.last() == rows@[i as int]@);
        let row = &rows[i];
        match row.get_value(idx) {
            None => {
                proof {
                    lemma_filter_none_extends(rows_view(rows@), i as int + 1, idx as int, *op, v@);
                }
                return Err(
                    TypeError::InvalidValue("Row".to_owned(), "Missing value at index".to_owned()),
                );
            },
            Some(x) => {
                assert(rows@[i as int]@[idx as int] == x@);
                match x.compare(op, v) {
                    Ok(true) => {
                        let ghost before = out@;
                        out.push(row.clone());
                        assert(rows_view(out@) =~= rows_view(before).push(row@));
                    },
                    Ok(false) => {},
                    Err(e) => {
                        proof {
                            lemma_filter_none_extends(
                                rows_view(rows@),
                                i as int + 1,
                                idx as int,
                                *op,
                                v@,
                            );
                        }
                        return Err(e);
                    },
                }
            },
        }
        i = i + 1;
    }
    assert(rows_view(rows@).subrange(0, i as int) == rows_view(rows@));
    Ok(out)
}

impl Table {
    /// An empty table.
    pub fn new(name: String, schema: Schema) -> (r: Self)
        ensures
            r@ == (TableView { name: name@, columns: schema@, rows: Seq::empty() }),
    {
        let r = Table { metadata: TableMetadata { name, schema }, rows: Vec::new() };
        assert(r@.rows =~= Seq::empty());
        r
    }

    /// Appends a row after checking it against the schema; a rejected row leaves the table
    /// as it was.
    pub fn insert_row(&mut self, row: Row) -> (r: Result<(), StorageError>)
        ensures
            r is Ok <==> accepts_row(old(self)@.columns, row@),
            r is Ok ==> final(self)@ == with_row(old(self)@, row@),
            r matches Err(e) ==> rejected_with(e, old(self)@.columns, row@) && final(self)@ == old(
                self,
            )@,
    {
        match self.metadata.schema.validate_row(&row) {
            Ok(()) => {},
            Err(e) => {
                return Err(StorageError::ValidationError(e));
            },
        }
        let ghost row_view = row@;
        self.rows.push(row);
        assert(rows_view(self.rows@) =~= rows_view(old(self).rows@).push(row_view));
        Ok(())
    }

    /// Appends rows after checking all of them against the schema; if any is rejected,
    /// none is appended.
    pub fn insert_rows(&mut self, rows: Vec<Row>) -> (r: Result<(), StorageError>)
        ensures
            r is Ok <==> forall|k: int|
                0 <= k < rows@.len() ==> accepts_row(old(self)@.columns, #[trigger] rows@[k]@),
            r is Ok ==> final(self)@ == with_rows(old(self)@, rows_view(rows@)),
            r matches Err(e) ==> first_rejected_row(e, old(self)@.columns, rows_view(rows@))
                && final(self)@ == old(self)@,
    {
        let mut i: usize = 0;
        while i < rows.len()
            invariant
                i <= rows@.len(),
                forall|k: int|
                        0 <= k < i ==> accepts_row(self@.columns, #[trigger] rows@[k]@),
                forall|k: int|
                    0 <= k < i ==> accepts_row(self@.columns, #[trigger] rows_view(rows@)[k]),
            decreases rows@.len() - i,
        {
            match self.metadata.schema.validate_row(&rows[i]) {
                Ok(()) => {},
                Err(e) => {
                    assert(rows_view(rows@)[i as int] == rows@[i as int]@);
                    return Err(StorageError::ValidationError(e));
                },
            }
            i = i + 1;
        }
        let mut rows = rows;
        let ghost added = rows@;
        self.rows.append(&mut rows);
        assert(rows_view(self.rows@) =~= rows_view(old(self).rows@) + rows_view(added));
        Ok(())
    }

    /// A copy of all rows.
    pub fn scan(&self) -> (r: Vec<Row>)
        ensures
            rows_view(r@) == self@.rows,
    {
        let mut out: Vec<Row> = Vec::new();
        let mut i: usize = 0;
        while i < self.rows.len()
            invariant
                i <= self.rows@.len(),
                rows_view(out@) == rows_view(self.rows@).subrange(0, i as int),
            decreases self.rows@.len() - i,
        {
            let c = self.rows[i].clone();
            assert(c@ == self.rows@[i as int]@);
            let ghost before = out@;
            out.push(c);
            assert(rows_view(out@) =~= rows_view(before).push(c@));
            assert(rows_view(self.rows@).subrange(0, i as int + 1) =~= rows_view(
                self.rows@,
            ).subrange(0, i as int).push(c@));
            i = i + 1;
        }
        assert(rows_view(self.rows@).subrange(0, i as int) == rows_view(self.rows@));
        out
    }

    /// The rows whose value in the named column satisfies `op` against `value`.
    pub fn filter(&self, column: &str, op: &Operator, value: &Value) -> (r: Result<
        Vec<Row>,
        StorageError,
    >)
        ensures
            match column_position(self@.columns, column@) {
                None => r matches Err(e) && e matches StorageError::ColumnNotFound(n) && n@
                    == column@,
                Some(idx) => match filter_spec(self@.rows, idx, *op, value@) {
                    Some(rows) => r matches Ok(out) && rows_view(out@) == rows,
                    None => r matches Err(e) && e is ValidationError,
                },
            },
    {
        proof {
            lemma_column_position(self@.columns, column@);
        }
        let n = self.metadata.schema.columns.len();
        assert(self@.columns.len() == n);
        let idx = match self.metadata.schema.get_column_index(column) {
            Some(i) => i,
            None => {
                return Err(StorageError::ColumnNotFound(column.to_owned()));
            },
        };
        match filter_by(&self.rows, idx, op, value) {
            Ok(out) => Ok(out),
            Err(e) => Err(StorageError::ValidationError(e)),
        }
    }
}

/// The first position at or after `i` of a table named `name`.
pub open spec fn table_position_from(db: Seq<TableView>, name: Seq<char>, i: nat) -> Option<int>
    decreases db.len() - i,
{
    if i >= db.len() {
        None
    } else if db[i as int].name == name {
        Some(i as int)
    } else {
        table_position_from(db, name, i + 1)
    }
}

/// The position of the table named `name`.
pub open spec fn table_position(db: Seq<TableView>, name: Seq<char>) -> Option<int> {
    table_position_from(db, name, 0)
}

proof fn lemma_table_position_from(db: Seq<TableView>, name: Seq<char>, i: nat)
    ensures
        match table_position_from(db, name, i) {
            Some(k) => i <= k < db.len() && db[k].name == name && forall|j: int|
                i <= j < k ==> #[trigger] db[j].name != name,
            None => forall|j: int| i <= j < db.len() ==> #[trigger] db[j].name != name,
        },
    decreases db.len() - i,
{
    if i < db.len() && db[i as int].name != name {
        lemma_table_position_from(db, name, i + 1);
    }
}

/// `table_position` names a table of that name, or none when there is none.
pub proof fn lemma_table_position(db: Seq<TableView>, name: Seq<char>)
    ensures
        match table_position(db, name) {
            Some(k) => 0 <= k < db.len() && db[k].name == name && forall|j: int|
                0 <= j < k ==> #[trigger] db[j].name != name,
            None => forall|j: int| 0 <= j < db.len() ==> #[trigger] db[j].name != name,
        },
{
    lemma_table_position_from(db, name, 0);
}

/// Table names are unique, and every table's rows fit its schema.
pub open spec fn db_wf(db: Seq<TableView>) -> bool {
    &&& forall|i: int, j: int|
        0 <= i < db.len() && 0 <= j < db.len() && i != j ==> #[trigger] db[i].name
            != #[trigger] db[j].name
    &&& forall|i: int| 0 <= i < db.len() ==> table_wf(#[trigger] db[i])
}

pub open spec fn tables_view(ts: Seq<Table>) -> Seq<TableView> {
    ts.map_values(|t: Table| t@)
}

/// The schema of the tables that `create_table_from_defs` makes: `id`, `name` and `email`,
/// each a nullable text.
pub open spec fn default_columns() -> Seq<ColumnView> {
    seq![
        ColumnView { name: seq!['i', 'd'], data_type: DataType::Text, nullable: true },
        ColumnView { name: seq!['n', 'a', 'm', 'e'], data_type: DataType::Text, nullable: true },
        ColumnView {
            name: seq!['e', 'm', 'a', 'i', 'l'],
            data_type: DataType::Text,
            nullable: true,
        },
    ]
}

/// The in-memory store: uniquely named tables, kept in the order they were created. A table
/// is found by its name; the type invariant keeps names unique.
#[derive(Debug)]
pub struct Database {
    tables: Vec<Table>,
}

impl View for Database {
    type V = Seq<TableView>;

    closed spec fn view(&self) -> Seq<TableView> {
        tables_view(self.tables@)
    }
}

impl Database {
    /// Table names are unique, and every table's rows fit its schema.
    #[verifier::type_invariant]
    pub open spec fn well_formed(self) -> bool {
        db_wf(self@)
    }

    fn take_tables(&mut self) -> (r: Vec<Table>)
        ensures
            tables_view(r@) == old(self)@,
            final(self)@ == Seq::<TableView>::empty(),
    {
        let mut r: Vec<Table> = Vec::new();
        assert(tables_view(r@) =~= Seq::<TableView>::empty());
        core::mem::swap(&mut self.tables, &mut r);
        proof {
            assert(final(self)@ =~= Seq::<TableView>::empty());
        }
        r
    }

    fn put_tables(&mut self, ts: Vec<Table>)
        requires
            db_wf(tables_view(ts@)),
        ensures
            final(self)@ == tables_view(ts@),
    {
        self.tables = ts;
    }

    fn find_table(&self, name: &str) -> (r: Option<usize>)
        ensures
            match r {
                Some(j) => table_position(self@, name@) == Some(j as int) && j < self@.len(),
                None => table_position(self@, name@) is None,
            },
            self@.len() == self.tables@.len(),
            forall|k: int| 0 <= k < self@.len() ==> #[trigger] self@[k] == self.tables@[k]@,
    {
        proof {
            lemma_table_position(self@, name@);
        }
        let n = self.tables.len();
        assert(self@.len() == n);
        let mut i: usize = 0;
        while i < n
            invariant
                i <= n,
                n == self@.len(),
                self@.len() == self.tables@.len(),
                table_position(self@, name@) == table_position_from(self@, name@, i as nat),
            decreases n - i,
        {
            assert(self@[i as int] == self.tables@[i as int]@);
            if self.tables[i].metadata.name.as_str().eq(name) {
                return Some(i);
            }
            i = i + 1;
        }
        None
    }

    /// An empty database.
    pub fn new() -> (r: Self)
        ensures
            r@ == Seq::<TableView>::empty(),
    {
        let tables: Vec<Table> = Vec::new();
        assert(tables_view(tables@) =~= Seq::<TableView>::empty());
        Database { tables }
    }

    /// A database backed by a file; there is no persistence yet, so it starts empty.
    pub fn with_persistence(_filename: &str) -> (r: Result<Self, StorageError>)
        ensures
            r matches Ok(d) && d@ == Seq::<TableView>::empty(),
    {
        Ok(Database::new())
    }

    /// Creates an empty table; fails when a table of that name exists.
    pub fn create_table(&mut self, name: String, schema: Schema) -> (r: Result<(), StorageError>)
        ensures
            match table_position(old(self)@, name@) {
                Some(_) => r matches Err(e) && e matches StorageError::TableAlreadyExists(n)
                    && n@ == name@ && final(self)@ == old(self)@,
                None => r is Ok && final(self)@ == old(self)@.push(
                    TableView { name: name@, columns: schema@, rows: Seq::empty() },
                ),
            },
    {
        proof {
            use_type_invariant(&*self);
            lemma_table_position(self@, name@);
        }
        match self.find_table(name.as_str()) {
            Some(_) => {
                return Err(StorageError::TableAlreadyExists(name));
            },
            None => {},
        }
        let table = Table::new(name, schema);
        let mut ts = self.take_tables();
        let ghost before = ts@;
        ts.push(table);
        assert(tables_view(ts@) =~= tables_view(before).push(table@));
        self.put_tables(ts);
        Ok(())
    }

    /// Creates a table of three nullable text columns, `id`, `name` and `email`; the column
    /// list given is not read.
    pub fn create_table_from_defs(&mut self, name: &str, _columns: &[&str]) -> (r: Result<
        (),
        StorageError,
    >)
        ensures
            match table_position(old(self)@, name@) {
                Some(_) => r matches Err(e) && e is TableAlreadyExists && final(self)@ == old(
                    self,
                )@,
                None => r is Ok && final(self)@ == old(self)@.push(
                    TableView { name: name@, columns: default_columns(), rows: Seq::empty() },
                ),
            },
    {
        proof {
            reveal_strlit("id");
            reveal_strlit("name");
            reveal_strlit("email");
        }
        assert("id"@ =~= seq!['i', 'd']);
        assert("name"@ =~= seq!['n', 'a', 'm', 'e']);
        assert("email"@ =~= seq!['e', 'm', 'a', 'i', 'l']);
        let mut columns: Vec<Column> = Vec::new();
        columns.push(Column::new("id".to_owned(), DataType::Text, true));
        columns.push(Column::new("name".to_owned(), DataType::Text, true));
        columns.push(Column::new("email".to_owned(), DataType::Text, true));
        let schema = Schema::new(columns);
        assert(schema@ =~= default_columns());
        self.create_table(name.to_owned(), schema)
    }

    /// Removes a table.
    pub fn drop_table(&mut self, name: &str) -> (r: Result<(), StorageError>)
        ensures
            match table_position(old(self)@, name@) {
                Some(i) => r is Ok && final(self)@ == old(self)@.remove(i),
                None => r matches Err(e) && e matches StorageError::TableNotFound(n) && n@
                    == name@ && final(self)@ == old(self)@,
            },
    {
        proof {
            use_type_invariant(&*self);
        }
        let i = match self.find_table(name) {
            Some(i) => i,
            None => {
                return Err(StorageError::TableNotFound(name.to_owned()));
            },
        };
        let mut ts = self.take_tables();
        let ghost before = ts@;
        let _gone = ts.remove(i);
        assert(tables_view(ts@) =~= tables_view(before).remove(i as int));
        proof {
            let d = tables_view(ts@);
            let o = tables_view(before);
            assert forall|a: int, b: int|
                0 <= a < d.len() && 0 <= b < d.len() && a != b implies #[trigger] d[a].name
                != #[trigger] d[b].name by {
                let oa = if a < i { a } else { a + 1 };
                let ob = if b < i { b } else { b + 1 };
                assert(d[a] == o[oa]);
                assert(d[b] == o[ob]);
            }
            assert forall|a: int| 0 <= a < d.len() implies table_wf(#[trigger] d[a]) by {
                let oa = if a < i { a } else { a + 1 };
                assert(d[a] == o[oa]);
            }
        }
        self.put_tables(ts);
        Ok(())
    }

    /// Whether a table of that name exists.
    pub fn table_exists(&self, name: &str) -> (r: Result<bool, StorageError>)
        ensures
            r == Ok::<bool, StorageError>(table_position(self@, name@) is Some),
    {
        Ok(self.find_table(name).is_some())
    }

    /// The name and schema of a table.
    pub fn get_table_metadata(&self, name: &str) -> (r: Result<TableMetadata, StorageError>)
        ensures
            match table_position(self@, name@) {
                Some(i) => r matches Ok(m) && m.name@ == self@[i].name && m.schema@
                    == self@[i].columns,
                None => r matches Err(e) && e matches StorageError::TableNotFound(n) && n@
                    == name@,
            },
    {
        match self.find_table(name) {
            Some(i) => {
                assert(self@[i as int] == self.tables@[i as int]@);
                Ok(self.tables[i].metadata.clone())
            },
            None => Err(StorageError::TableNotFound(name.to_owned())),
        }
    }

    /// Appends a row to a table after checking it against the table's schema.
    pub fn insert(&mut self, table_name: &str, row: Row) -> (r: Result<(), StorageError>)
        ensures
            match table_position(old(self)@, table_name@) {
                None => r matches Err(e) && e matches StorageError::TableNotFound(n) && n@
                    == table_name@ && final(self)@ == old(self)@,
                Some(i) => if accepts_row(old(self)@[i].columns, row@) {
                    r is Ok && final(self)@ == old(self)@.update(i, with_row(old(self)@[i], row@))
                } else {
                    r matches Err(e) && rejected_with(e, old(self)@[i].columns, row@)
                        && final(self)@ == old(self)@
                },
            },
    {
        proof {
            use_type_invariant(&*self);
        }
        let i = match self.find_table(table_name) {
            Some(i) => i,
            None => {
                return Err(StorageError::TableNotFound(table_name.to_owned()));
            },
        };
        let mut ts = self.take_tables();
        let ghost before = ts@;
        let mut t = ts.remove(i);
        assert(t@ == tables_view(before)[i as int]);
        let res = t.insert_row(row);
        ts.insert(i, t);
        proof {
            let d = tables_view(ts@);
            let o = tables_view(before);
            assert(d =~= o.update(i as int, t@));
            assert forall|a: int, b: int|
                0 <= a < d.len() && 0 <= b < d.len() && a != b implies #[trigger] d[a].name
                != #[trigger] d[b].name by {
                assert(d[a].name == o[a].name);
                assert(d[b].name == o[b].name);
            }
            assert forall|a: int| 0 <= a < d.len() implies table_wf(#[trigger] d[a]) by {
                if a == i {
                    assert(table_wf(o[a]));
                    if res is Ok {
                        assert forall|k: int| 0 <= k < d[a].rows.len() implies accepts_row(
                            d[a].columns,
                            #[trigger] d[a].rows[k],
                        ) by {
                            if k < o[a].rows.len() {
                                assert(d[a].rows[k] == o[a].rows[k]);
                            }
                        }
                    }
                }
            }
            if res is Err {
                assert(d =~= o);
            }
        }
        self.put_tables(ts);
        res
    }

    /// Appends rows to a table after checking all of them; if any is rejected, none is
    /// appended.
    pub fn insert_many(&mut self, table_name: &str, rows: Vec<Row>) -> (r: Result<
        (),
        StorageError,
    >)
        ensures
            match table_position(old(self)@, table_name@) {
                None => r matches Err(e) && e matches StorageError::TableNotFound(n) && n@
                    == table_name@ && final(self)@ == old(self)@,
                Some(i) => if forall|k: int|
                    0 <= k < rows@.len() ==> accepts_row(
                        old(self)@[i].columns,
                        #[trigger] rows@[k]@,
                    ) {
                    r is Ok && final(self)@ == old(self)@.update(
                        i,
                        with_rows(old(self)@[i], rows_view(rows@)),
                    )
                } else {
                    r matches Err(e) && first_rejected_row(e, old(self)@[i].columns, rows_view(rows@))
                        && final(self)@ == old(self)@
                },
            },
    {
        proof {
            use_type_invariant(&*self);
        }
        let i = match self.find_table(table_name) {
            Some(i) => i,
            None => {
                return Err(StorageError::TableNotFound(table_name.to_owned()));
            },
        };
        let ghost added = rows_view(rows@);
        let mut ts = self.take_tables();
        let ghost before = ts@;
        let mut t = ts.remove(i);
        assert(t@ == tables_view(before)[i as int]);
        let res = t.insert_rows(rows);
        ts.insert(i, t);
        proof {
            let d = tables_view(ts@);
            let o = tables_view(before);
            assert(d =~= o.update(i as int, t@));
            assert forall|a: int, b: int|
                0 <= a < d.len() && 0 <= b < d.len() && a != b implies #[trigger] d[a].name
                != #[trigger] d[b].name by {
                assert(d[a].name == o[a].name);
                assert(d[b].name == o[b].name);
            }
            assert forall|a: int| 0 <= a < d.len() implies table_wf(#[trigger] d[a]) by {
                if a == i {
                    assert(table_wf(o[a]));
                    if res is Ok {
                        assert forall|k: int| 0 <= k < d[a].rows.len() implies accepts_row(
                            d[a].columns,
                            #[trigger] d[a].rows[k],
                        ) by {
                            if k < o[a].rows.len() {
                                assert(d[a].rows[k] == o[a].rows[k]);
                            } else {
                                let m = k - o[a].rows.len();
                                assert(d[a].rows[k] == added[m]);
                                assert(added[m] == rows@[m]@);
                            }
                        }
                    }
                }
            }
            if res is Err {
                assert(d =~= o);
            }
        }
        self.put_tables(ts);
        res
    }

    /// A copy of all rows of a table.
    pub fn scan(&self, table_name: &str) -> (r: Result<Vec<Row>, StorageError>)
        ensures
            match table_position(self@, table_name@) {
                Some(i) => r matches Ok(rows) && rows_view(rows@) == self@[i].rows,
                None => r matches Err(e) && e matches StorageError::TableNotFound(n) && n@
                    == table_name@,
            },
    {
        match self.find_table(table_name) {
            Some(i) => {
                assert(self@[i as int] == self.tables@[i as int]@);
                Ok(self.tables[i].scan())
            },
            None => Err(StorageError::TableNotFound(table_name.to_owned())),
        }
    }

    /// The rows of a table whose value in the named column satisfies `op` against `value`.
    pub fn select_where(&self, table_name: &str, column: &str, op: &Operator, value: &Value) -> (r:
        Result<Vec<Row>, StorageError>)
        ensures
            match table_position(self@, table_name@) {
                None => r matches Err(e) && e matches StorageError::TableNotFound(n) && n@
                    == table_name@,
                Some(i) => match column_position(self@[i].columns, column@) {
                    None => r matches Err(e) && e matches StorageError::ColumnNotFound(n) && n@
                        == column@,
                    Some(idx) => match filter_spec(self@[i].rows, idx, *op, value@) {
                        Some(rows) => r matches Ok(out) && rows_view(out@) == rows,
                        None => r matches Err(e) && e is ValidationError,
                    },
                },
            },
    {
        match self.find_table(table_name) {
            Some(i) => {
                assert(self@[i as int] == self.tables@[i as int]@);
                self.tables[i].filter(column, op, value)
            },
            None => Err(StorageError::TableNotFound(table_name.to_owned())),
        }
    }

    /// The names of all tables.
    pub fn get_table_names(&self) -> (r: Result<Vec<String>, StorageError>)
        ensures
            r matches Ok(names) && names@.len() == self@.len() && forall|i: int|
                0 <= i < self@.len() ==> #[trigger] names@[i]@ == self@[i].name,
    {
        let mut names: Vec<String> = Vec::new();
        let mut i: usize = 0;
        while i < self.tables.len()
            invariant
                i <= self.tables@.len(),
                self@.len() == self.tables@.len(),
                names@.len() == i,
                forall|k: int| 0 <= k < i ==> #[trigger] names@[k]@ == self@[k].name,
            decreases self.tables@.len() - i,
        {
            assert(self@[i as int] == self.tables@[i as int]@);
            names.push(self.tables[i].metadata.name.clone());
            i = i + 1;
        }
        Ok(names)
    }

    /// The number of rows of a table.
    pub fn get_row_count(&self, table_name: &str) -> (r: Result<usize, StorageError>)
        ensures
            match table_position(self@, table_name@) {
                Some(i) => r matches Ok(n) && n == self@[i].rows.len(),
                None => r matches Err(e) && e matches StorageError::TableNotFound(n) && n@
                    == table_name@,
            },
    {
        match self.find_table(table_name) {
            Some(i) => {
                assert(self@[i as int] == self.tables@[i as int]@);
                Ok(self.tables[i].rows.len())
            },
            None => Err(StorageError::TableNotFound(table_name.to_owned())),
        }
    }
}

/// The store under its earlier name.
pub type MemoryStorage = Database;

} // verus!
