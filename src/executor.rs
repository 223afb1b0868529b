use crate::parser::{
    conditions_view, defs_view, strings_view, tuples_view, ConditionView, CreateTableStatement,
    InsertStatement, SelectStatement, Statement, StatementView, WhereClause,
};
use crate::storage::{
    filter_by, filter_spec, lemma_table_position, table_position, table_position_from, table_wf,
    Database, StorageError, TableView,
};
use crate::text::{format_count, nat_digits};
use crate::types::{
    accepts_row, column_position, compare_spec, copy_values, lemma_column_position,
    lemma_row_rejection, row_rejection, rows_view, values_view, Column, ColumnView, ResultSet, Row,
    Schema, TypeError, Value, ValueView,
};
use vstd::prelude::*;

verus! {

/// Errors raised while executing a statement.
#[derive(Debug)]
pub enum ExecutionError {
    StorageError(StorageError),
    ExecutionFailed(String),
    ColumnNotFound(String),
    InvalidValue(String),
    UnsupportedOperation(String),
}

/// What filtering or projecting rows yields: a schema and rows, the name of a column that
/// the table lacks, or a comparison that failed.
pub enum QueryOutcome {
    Rows(Seq<ColumnView>, Seq<Seq<ValueView>>),
    NoColumn(Seq<char>),
    Failed,
}

/// Filters `rows` by each condition in turn.
pub open spec fn apply_conditions(
    cols: Seq<ColumnView>,
    rows: Seq<Seq<ValueView>>,
    conds: Seq<ConditionView>,
) -> QueryOutcome
    decreases conds.len(),
{
    if conds.len() == 0 {
        QueryOutcome::Rows(cols, rows)
    } else {
        match apply_conditions(cols, rows, conds.drop_last()) {
            QueryOutcome::Rows(_, kept) => {
                let c = conds.last();
                match column_position(cols, c.column) {
                    None => QueryOutcome::NoColumn(c.column),
                    Some(idx) => match filter_spec(kept, idx, c.op, c.value) {
                        Some(out) => QueryOutcome::Rows(cols, out),
                        None => QueryOutcome::Failed,
                    },
                }
            },
            other => other,
        }
    }
}

/// Whether every name is the name of a column.
pub open spec fn all_known(cols: Seq<ColumnView>, names: Seq<Seq<char>>) -> bool {
    forall|k: int| 0 <= k < names.len() ==> (#[trigger] column_position(cols, names[k])) is Some
}

/// The first position at or after `i` of a name that no column has.
pub open spec fn first_unknown_from(cols: Seq<ColumnView>, names: Seq<Seq<char>>, i: nat) -> Option<
    int,
>
    decreases names.len() - i,
{
    if i >= names.len() {
        None
    } else if column_position(cols, names[i as int]) is None {
        Some(i as int)
    } else {
        first_unknown_from(cols, names, i + 1)
    }
}

/// The position of the first name that no column has.
pub open spec fn first_unknown(cols: Seq<ColumnView>, names: Seq<Seq<char>>) -> Option<int> {
    first_unknown_from(cols, names, 0)
}

/// The first target column of an INSERT that the table lacks.
pub open spec fn unknown_target(cols: Seq<ColumnView>, names: Option<Seq<Seq<char>>>) -> Option<
    Seq<char>,
> {
    match names {
        Some(ns) => match first_unknown(cols, ns) {
            Some(k) => Some(ns[k]),
            None => None,
        },
        None => None,
    }
}

proof fn lemma_first_unknown_from(cols: Seq<ColumnView>, names: Seq<Seq<char>>, i: nat)
    ensures
        match first_unknown_from(cols, names, i) {
            Some(k) => i <= k < names.len() && column_position(cols, names[k]) is None && forall|
                j: int,
            |
                i <= j < k ==> (#[trigger] column_position(cols, names[j])) is Some,
            None => forall|j: int|
                i <= j < names.len() ==> (#[trigger] column_position(cols, names[j])) is Some,
        },
    decreases names.len() - i,
{
    if i < names.len() && column_position(cols, names[i as int]) is Some {
        lemma_first_unknown_from(cols, names, i + 1);
    }
}

/// `first_unknown` names the first unknown name, and is `None` exactly when all are known.
pub proof fn lemma_first_unknown(cols: Seq<ColumnView>, names: Seq<Seq<char>>)
    ensures
        first_unknown(cols, names) is None <==> all_known(cols, names),
        match first_unknown(cols, names) {
            Some(k) => 0 <= k < names.len() && column_position(cols, names[k]) is None,
            None => true,
        },
{
    lemma_first_unknown_from(cols, names, 0);
}

/// The message of a value tuple whose length is not the number of target columns.
pub open spec fn arity_text(expected: int, got: int) -> Seq<char> {
    "Column count ("@ + nat_digits(expected as nat) + ") does not match value count ("@
        + nat_digits(got as nat) + ")"@
}

/// The number of values each tuple of an INSERT must have.
pub open spec fn target_count(cols: Seq<ColumnView>, names: Option<Seq<Seq<char>>>) -> int {
    match names {
        Some(ns) => ns.len() as int,
        None => cols.len() as int,
    }
}

/// Whether the projection list asks for every column.
pub open spec fn is_star(names: Seq<Seq<char>>) -> bool {
    names.contains(seq!['*'])
}

/// The columns named, in the order asked, each found by its first occurrence in the table.
pub open spec fn project_columns(cols: Seq<ColumnView>, names: Seq<Seq<char>>) -> Seq<ColumnView> {
    names.map_values(|n: Seq<char>| cols[column_position(cols, n)->0])
}

/// The values of a row under the columns named, in the order asked.
pub open spec fn project_row(cols: Seq<ColumnView>, names: Seq<Seq<char>>, row: Seq<ValueView>) -> Seq<
    ValueView,
> {
    names.map_values(|n: Seq<char>| row[column_position(cols, n)->0])
}

/// The outcome of a SELECT on a table: filtering first, then projecting.
pub open spec fn select_spec(
    t: TableView,
    names: Seq<Seq<char>>,
    conds: Option<Seq<ConditionView>>,
) -> QueryOutcome {
    let filtered = match conds {
        None => QueryOutcome::Rows(t.columns, t.rows),
        Some(cs) => apply_conditions(t.columns, t.rows, cs),
    };
    match filtered {
        QueryOutcome::Rows(_, rows) => if is_star(names) {
            QueryOutcome::Rows(t.columns, rows)
        } else {
            match first_unknown(t.columns, names) {
                None => QueryOutcome::Rows(
                    project_columns(t.columns, names),
                    rows.map_values(|r: Seq<ValueView>| project_row(t.columns, names, r)),
                ),
                Some(k) => QueryOutcome::NoColumn(names[k]),
            }
        },
        other => other,
    }
}

/// A row of `n` NULLs.
pub open spec fn null_row(n: nat) -> Seq<ValueView> {
    Seq::new(n, |_i: int| ValueView::Null)
}

/// The row that the first `k` named values fill in, the other columns NULL; a name given
/// twice takes its later value.
pub open spec fn placed(
    cols: Seq<ColumnView>,
    names: Seq<Seq<char>>,
    vals: Seq<ValueView>,
    k: nat,
) -> Seq<ValueView>
    decreases k,
{
    if k == 0 {
        null_row(cols.len())
    } else {
        let prev = placed(cols, names, vals, (k - 1) as nat);
        match column_position(cols, names[k - 1]) {
            Some(p) => prev.update(p, vals[k - 1]),
            None => prev,
        }
    }
}

/// The full row that a value tuple stands for, or `None` when the tuple has the wrong
/// number of values.
pub open spec fn build_row(
    cols: Seq<ColumnView>,
    names: Option<Seq<Seq<char>>>,
    vals: Seq<ValueView>,
) -> Option<Seq<ValueView>> {
    match names {
        None => if vals.len() == cols.len() {
            Some(vals)
        } else {
            None
        },
        Some(ns) => if vals.len() == ns.len() {
            Some(placed(cols, ns, vals, ns.len()))
        } else {
            None
        },
    }
}

/// How a run of insertions ended.
pub enum InsertStop {
    /// every tuple was inserted
    Done,
    /// a tuple had the wrong number of values: how many it needed, and how many it had
    Arity(int, int),
    /// a row did not fit the schema: the tag and message of the rejection
    Invalid(Seq<char>, Seq<char>),
}

/// The rows of the table after inserting the tuples in order, stopping at the first that
/// fails, and how the run ended. Tuples before a failing one stay inserted.
pub open spec fn run_inserts(
    t: TableView,
    names: Option<Seq<Seq<char>>>,
    tuples: Seq<Seq<ValueView>>,
) -> (Seq<Seq<ValueView>>, InsertStop)
    decreases tuples.len(),
{
    if tuples.len() == 0 {
        (t.rows, InsertStop::Done)
    } else {
        let (rows, stop) = run_inserts(t, names, tuples.drop_last());
        if stop !is Done {
            (rows, stop)
        } else {
            match build_row(t.columns, names, tuples.last()) {
                None => (
                    rows,
                    InsertStop::Arity(target_count(t.columns, names), tuples.last().len() as int),
                ),
                Some(row) => if accepts_row(t.columns, row) {
                    (rows.push(row), InsertStop::Done)
                } else {
                    let (tag, msg) = row_rejection(t.columns, row)->0;
                    (rows, InsertStop::Invalid(tag, msg))
                },
            }
        }
    }
}

pub open spec fn with_rows_replaced(t: TableView, rows: Seq<Seq<ValueView>>) -> TableView {
    TableView { name: t.name, columns: t.columns, rows }
}

pub open spec fn is_empty_result(rs: ResultSet) -> bool {
    rs.schema.columns@.len() == 0 && rs.rows@.len() == 0
}

/// The effect of a statement on the database and its outcome.
pub open spec fn executes(
    db: Seq<TableView>,
    stmt: StatementView,
    db2: Seq<TableView>,
    r: Result<ResultSet, ExecutionError>,
) -> bool {
    match stmt {
        StatementView::CreateTable { table, columns } => match table_position(db, table) {
            Some(_) => r matches Err(ExecutionError::StorageError(e)) && e matches StorageError::TableAlreadyExists(
                n,
            ) && n@ == table && db2 == db,
            None => r matches Ok(rs) && is_empty_result(rs) && db2 == db.push(
                TableView { name: table, columns, rows: Seq::empty() },
            ),
        },
        StatementView::Insert { table, columns, values } => match table_position(db, table) {
            None => r matches Err(ExecutionError::StorageError(e)) && e matches StorageError::TableNotFound(
                n,
            ) && n@ == table && db2 == db,
            Some(i) => match unknown_target(db[i].columns, columns) {
                Some(c) => r matches Err(ExecutionError::ColumnNotFound(n)) && n@ == c && db2 == db,
                None => {
                    let (rows, stop) = run_inserts(db[i], columns, values);
                    &&& db2 == db.update(i, with_rows_replaced(db[i], rows))
                    &&& match stop {
                        InsertStop::Done => r matches Ok(rs) && is_empty_result(rs),
                        InsertStop::Arity(k, n) => r matches Err(ExecutionError::ExecutionFailed(m))
                            && m@ == arity_text(k, n),
                        InsertStop::Invalid(a, b) => r matches Err(ExecutionError::StorageError(e))
                            && e matches StorageError::ValidationError(TypeError::InvalidValue(x, y))
                            && x@ == a && y@ == b,
                    }
                },
            },
        },
        StatementView::Select { columns, table, conditions } => db2 == db && match table_position(
            db,
            table,
        ) {
            None => r matches Err(ExecutionError::StorageError(e)) && e matches StorageError::TableNotFound(
                n,
            ) && n@ == table,
            Some(i) => match select_spec(db[i], columns, conditions) {
                QueryOutcome::Rows(cols, rows) => r matches Ok(rs) && rs.schema@ == cols
                    && rows_view(rs.rows@) == rows,
                QueryOutcome::NoColumn(c) => r matches Err(ExecutionError::ColumnNotFound(n)) && n@
                    == c,
                QueryOutcome::Failed => r matches Err(ExecutionError::ExecutionFailed(_)),
            },
        },
    }
}

/// Runs statements against a database that it owns.
pub struct QueryExecutor {
    storage: Database,
}

impl View for QueryExecutor {
    type V = Seq<TableView>;

    closed spec fn view(&self) -> Seq<TableView> {
        self.storage@
    }
}

impl QueryExecutor {
    pub fn new(storage: Database) -> (r: Self)
        ensures
            r@ == storage@,
    {
        QueryExecutor { storage }
    }

    /// The database that the executor runs against.
    pub fn get_storage(&self) -> (r: &Database)
        ensures
            r@ == self@,
    {
        &self.storage
    }

    /// Runs a statement: creates a table, inserts rows, or selects rows.
    pub fn execute(&mut self, statement: Statement) -> (r: Result<ResultSet, ExecutionError>)
        ensures
            executes(old(self)@, statement@, final(self)@, r),
    {
        match statement {
            Statement::CreateTable(create) => self.execute_create_table(create),
            Statement::Insert(insert) => self.execute_insert(insert),
            Statement::Select(select) => self.execute_select(select),
        }
    }

    fn execute_create_table(&mut self, stmt: CreateTableStatement) -> (r: Result<
        ResultSet,
        ExecutionError,
    >)
        ensures
            executes(
                old(self)@,
                StatementView::CreateTable {
                    table: stmt.table_name@,
                    columns: defs_view(stmt.columns@),
                },
                final(self)@,
                r,
            ),
    {
        let CreateTableStatement { table_name, columns: defs } = stmt;
        let mut columns: Vec<Column> = Vec::new();
        let mut i: usize = 0;
        while i < defs.len()
            invariant
                i <= defs@.len(),
                columns@.len() == i,
                forall|k: int| 0 <= k < i ==> #[trigger] columns@[k]@ == defs@[k]@,
            decreases defs@.len() - i,
        {
            let d = &defs[i];
            columns.push(Column::new(d.name.clone(), d.data_type, d.nullable));
            i = i + 1;
        }
        let schema = Schema::new(columns);
        assert(schema@ =~= defs_view(defs@));
        match self.storage.create_table(table_name, schema) {
            Ok(()) => Ok(ResultSet::empty(Schema::new(Vec::new()))),
            Err(e) => Err(ExecutionError::StorageError(e)),
        }
    }

    #[verifier::loop_isolation(false)]
    fn execute_insert(&mut self, stmt: InsertStatement) -> (r: Result<ResultSet, ExecutionError>)
        ensures
            executes(
                old(self)@,
                StatementView::Insert {
                    table: stmt.table_name@,
                    columns: match stmt.columns {
                        Some(v) => Some(strings_view(v@)),
                        None => None,
                    },
                    values: tuples_view(stmt.values@),
                },
                final(self)@,
                r,
            ),
    {
        let InsertStatement { table_name, columns, values } = stmt;
        let ghost names_view: Option<Seq<Seq<char>>> = match columns {
            Some(ref v) => Some(strings_view(v@)),
            None => None,
        };
        let ghost tv = tuples_view(values@);
        let ghost db0 = self.storage@;
        proof {
            lemma_table_position(db0, table_name@);
        }
        let metadata = match self.storage.get_table_metadata(table_name.as_str()) {
            Ok(m) => m,
            Err(e) => {
                return Err(ExecutionError::StorageError(e));
            },
        };
        let schema = metadata.schema;
        let ghost i = table_position(db0, table_name@)->0;
        let ghost t0 = db0[i];
        let ncols = schema.columns.len();
        assert(schema@.len() == ncols);
        let mut positions: Vec<usize> = Vec::new();
        match &columns {
            Some(names) => {
                let mut k: usize = 0;
                while k < names.len()
                    invariant
                        k <= names@.len(),
                        schema@ == t0.columns,
                        ncols == t0.columns.len(),
                        positions@.len() == k,
                        forall|j: int|
                            0 <= j < k ==> column_position(t0.columns, #[trigger] names@[j]@)
                                == Some(positions@[j] as int),
                        forall|j: int| 0 <= j < k ==> #[trigger] positions@[j] < ncols,
                        first_unknown(t0.columns, strings_view(names@)) == first_unknown_from(
                            t0.columns,
                            strings_view(names@),
                            k as nat,
                        ),
                    decreases names@.len() - k,
                {
                    assert(strings_view(names@)[k as int] == names@[k as int]@);
                    proof {
                        lemma_column_position(schema@, names@[k as int]@);
                    }
                    match schema.get_column_index(names[k].as_str()) {
                        Some(p) => {
                            positions.push(p);
                        },
                        None => {
                            assert(strings_view(names@)[k as int] == names@[k as int]@);
                            assert(column_position(t0.columns, strings_view(names@)[k as int])
                                is None);
                            assert(names_view == Some(strings_view(names@)));
                            assert(unknown_target(t0.columns, names_view) == Some(names@[k as int]@));
                            return Err(ExecutionError::ColumnNotFound(names[k].clone()));
                        },
                    }
                    k = k + 1;
                }
                assert forall|j: int| 0 <= j < names@.len() implies (#[trigger] column_position(
                    t0.columns,
                    strings_view(names@)[j],
                )) is Some by {
                    assert(strings_view(names@)[j] == names@[j]@);
                }
                assert(unknown_target(t0.columns, names_view) is None);
            },
            None => {},
        }
        let mut t: usize = 0;
        assert(tv.take(0) =~= Seq::<Seq<ValueView>>::empty());
        assert(db0.update(i, with_rows_replaced(t0, t0.rows)) =~= db0);
        while t < values.len()
            invariant
                t <= values@.len(),
                tv == tuples_view(values@),
                0 <= i < db0.len(),
                table_position(db0, table_name@) == Some(i),
                t0 == db0[i],
                schema@ == t0.columns,
                ncols == t0.columns.len(),
                names_view == match columns {
                    Some(v) => Some(strings_view(v@)),
                    None => None::<Seq<Seq<char>>>,
                },
                columns matches Some(names) ==> positions@.len() == names@.len() && (forall|j: int|
                    0 <= j < names@.len() ==> column_position(t0.columns, #[trigger] names@[j]@)
                        == Some(positions@[j] as int)) && (forall|j: int|
                    0 <= j < names@.len() ==> #[trigger] positions@[j] < ncols),
                self.storage@ == db0.update(
                    i,
                    with_rows_replaced(t0, run_inserts(t0, names_view, tv.take(t as int)).0),
                ),
                run_inserts(t0, names_view, tv.take(t as int)).1 is Done,
            decreases values@.len() - t,
        {
            let ghost pre = tv.take(t as int + 1);
            assert(pre.drop_last() == tv.take(t as int));
            assert(pre.last() == values_view(values@[t as int]@));
            let ghost rows_k = run_inserts(t0, names_view, tv.take(t as int)).0;
            let vals = &values[t];
            let row_values: Vec<Value> = match &columns {
                Some(names) => {
                    if vals.len() != names.len() {
                        assert(target_count(t0.columns, names_view) == names@.len());
                        assert(run_inserts(t0, names_view, pre) == (
                            rows_k,
                            InsertStop::Arity(target_count(t0.columns, names_view), vals@.len() as int),
                        ));
                        proof {
                            lemma_inserts_stop(t0, names_view, tv, t as int + 1);
                            assert(db0.update(i, with_rows_replaced(t0, rows_k)) == self.storage@);
                        }
                        return Err(
                            ExecutionError::ExecutionFailed(arity_message(names.len(), vals.len())),
                        );
                    }
                    let mut rv: Vec<Value> = Vec::new();
                    let mut z: usize = 0;
                    while z < ncols
                        invariant
                            z <= ncols,
                            values_view(rv@) == null_row(z as nat),
                        decreases ncols - z,
                    {
                        let ghost o = rv@;
                        rv.push(Value::Null);
                        assert(values_view(rv@) =~= values_view(o).push(ValueView::Null));
                        z = z + 1;
                        assert(null_row(z as nat) =~= null_row((z - 1) as nat).push(ValueView::Null));
                    }
                    let ghost ns = strings_view(names@);
                    let ghost vs = values_view(vals@);
                    let mut k: usize = 0;
                    while k < names.len()
                        invariant
                            k <= names@.len(),
                            vals@.len() == names@.len(),
                            rv@.len() == ncols,
                            ncols == t0.columns.len(),
                            ns == strings_view(names@),
                            vs == values_view(vals@),
                            positions@.len() == names@.len(),
                            forall|j: int|
                                0 <= j < names@.len() ==> column_position(
                                    t0.columns,
                                    #[trigger] names@[j]@,
                                ) == Some(positions@[j] as int),
                            forall|j: int| 0 <= j < names@.len() ==> #[trigger] positions@[j] < ncols,
                            values_view(rv@) == placed(t0.columns, ns, vs, k as nat),
                        decreases names@.len() - k,
                    {
                        let ghost old_rv = rv@;
                        let p = positions[k];
                        assert(ns[k as int] == names@[k as int]@);
                        assert(column_position(t0.columns, names@[k as int]@) == Some(p as int));
                        rv[p] = vals[k].clone();
                        k = k + 1;
                        assert(values_view(rv@) =~= values_view(old_rv).update(p as int, vs[k - 1]));
                    }
                    rv
                },
                None => {
                    if vals.len() != ncols {
                        assert(target_count(t0.columns, names_view) == ncols);
                        assert(run_inserts(t0, names_view, pre) == (
                            rows_k,
                            InsertStop::Arity(target_count(t0.columns, names_view), vals@.len() as int),
                        ));
                        proof {
                            lemma_inserts_stop(t0, names_view, tv, t as int + 1);
                            assert(db0.update(i, with_rows_replaced(t0, rows_k)) == self.storage@);
                        }
                        return Err(
                            ExecutionError::ExecutionFailed(arity_message(ncols, vals.len())),
                        );
                    }
                    copy_values(vals)
                },
            };
            let ghost rowv = values_view(row_values@);
            assert(build_row(t0.columns, names_view, values_view(vals@)) == Some(rowv));
            let ghost before = self.storage@;
            proof {
                lemma_same_names_same_position(db0, before, table_name@);
            }
            match self.storage.insert(table_name.as_str(), Row::new(row_values)) {
                Ok(()) => {
                    assert(self.storage@ =~= db0.update(
                        i,
                        with_rows_replaced(t0, run_inserts(t0, names_view, pre).0),
                    ));
                },
                Err(e) => {
                    assert(!accepts_row(t0.columns, rowv));
                    let ghost rj = row_rejection(t0.columns, rowv)->0;
                    assert(run_inserts(t0, names_view, pre) == (
                        rows_k,
                        InsertStop::Invalid(rj.0, rj.1),
                    ));
                    proof {
                        lemma_inserts_stop(t0, names_view, tv, t as int + 1);
                    }
                    return Err(ExecutionError::StorageError(e));
                },
            }
            t = t + 1;
        }
        assert(tv.take(t as int) == tv);
        Ok(ResultSet::empty(Schema::new(Vec::new())))
    }

    #[verifier::loop_isolation(false)]
    pub fn execute_select(&self, stmt: SelectStatement) -> (r: Result<ResultSet, ExecutionError>)
        ensures
            executes(
                self@,
                StatementView::Select {
                    columns: strings_view(stmt.columns@),
                    table: stmt.table_name@,
                    conditions: match stmt.where_clause {
                        Some(w) => Some(conditions_view(w.conditions@)),
                        None => None,
                    },
                },
                self@,
                r,
            ),
    {
        let SelectStatement { columns: names, table_name, where_clause } = stmt;
        let ghost db = self.storage@;
        let ghost ns = strings_view(names@);
        let ghost condsv = match where_clause {
            Some(ref w) => Some(conditions_view(w.conditions@)),
            None => None,
        };
        proof {
            use_type_invariant(&self.storage);
            lemma_table_position(db, table_name@);
        }
        let metadata = match self.storage.get_table_metadata(table_name.as_str()) {
            Ok(m) => m,
            Err(e) => {
                return Err(ExecutionError::StorageError(e));
            },
        };
        let table_schema = metadata.schema;
        let ghost i = table_position(db, table_name@)->0;
        let ghost t0 = db[i];
        let ncols = table_schema.columns.len();
        assert(table_schema@.len() == ncols);
        let scanned = match self.storage.scan(table_name.as_str()) {
            Ok(rows) => rows,
            Err(e) => {
                return Err(ExecutionError::StorageError(e));
            },
        };
        assert(table_wf(t0));
        let ghost filtered_spec = match where_clause {
            Some(ref w) => apply_conditions(t0.columns, t0.rows, conditions_view(w.conditions@)),
            None => QueryOutcome::Rows(t0.columns, t0.rows),
        };
        let rows = match &where_clause {
            Some(w) => match self.filter_rows(scanned, w, &table_schema) {
                Ok(rows) => rows,
                Err(e) => {
                    return Err(e);
                },
            },
            None => scanned,
        };
        assert(filtered_spec == QueryOutcome::Rows(t0.columns, rows_view(rows@)));
        proof {
            match where_clause {
                Some(ref w) => {
                    lemma_conditions_keep_width(
                        t0.columns,
                        t0.rows,
                        conditions_view(w.conditions@),
                    );
                },
                None => {},
            }
        }
        assert forall|k: int| 0 <= k < rows@.len() implies #[trigger] rows@[k].values@.len()
            == ncols by {
            assert(rows_view(rows@)[k] == rows@[k]@);
        }
        if contains_star(&names) {
            return Ok(ResultSet::new(table_schema, rows));
        }
        let mut cols: Vec<Column> = Vec::new();
        let mut positions: Vec<usize> = Vec::new();
        let mut k: usize = 0;
        while k < names.len()
            invariant
                k <= names@.len(),
                ns == strings_view(names@),
                table_schema@ == t0.columns,
                ncols == t0.columns.len(),
                positions@.len() == k,
                cols@.len() == k,
                forall|j: int|
                    0 <= j < k ==> column_position(t0.columns, #[trigger] ns[j]) == Some(
                        positions@[j] as int,
                    ),
                forall|j: int| 0 <= j < k ==> #[trigger] positions@[j] < ncols,
                forall|j: int| 0 <= j < k ==> #[trigger] cols@[j]@ == t0.columns[positions@[j] as int],
                first_unknown(t0.columns, ns) == first_unknown_from(t0.columns, ns, k as nat),
            decreases names@.len() - k,
        {
            assert(ns[k as int] == names@[k as int]@);
            proof {
                lemma_column_position(t0.columns, ns[k as int]);
            }
            match table_schema.get_column_index(names[k].as_str()) {
                Some(p) => {
                    assert(table_schema@[p as int] == table_schema.columns@[p as int]@);
                    cols.push(table_schema.columns[p].clone());
                    positions.push(p);
                },
                None => {
                    assert(first_unknown(t0.columns, ns) == Some(k as int));
                    assert(select_spec(t0, ns, condsv) == QueryOutcome::NoColumn(ns[k as int]));
                    return Err(ExecutionError::ColumnNotFound(names[k].clone()));
                },
            }
            k = k + 1;
        }
        assert(first_unknown(t0.columns, ns) is None);
        let result_schema = Schema::new(cols);
        assert(result_schema@ =~= project_columns(t0.columns, ns));
        let mut out: Vec<Row> = Vec::new();
        let mut a: usize = 0;
        while a < rows.len()
            invariant
                a <= rows@.len(),
                ns == strings_view(names@),
                positions@.len() == names@.len(),
                forall|j: int|
                    0 <= j < names@.len() ==> column_position(t0.columns, #[trigger] ns[j])
                        == Some(positions@[j] as int),
                forall|j: int| 0 <= j < names@.len() ==> #[trigger] positions@[j] < ncols,
                forall|b: int| 0 <= b < rows@.len() ==> #[trigger] rows@[b].values@.len() == ncols,
                out@.len() == a,
                forall|b: int|
                    0 <= b < a ==> #[trigger] out@[b]@ == project_row(t0.columns, ns, rows@[b]@),
            decreases rows@.len() - a,
        {
            let row = &rows[a];
            let mut vals: Vec<Value> = Vec::new();
            let mut c: usize = 0;
            while c < positions.len()
                invariant
                    c <= positions@.len(),
                    positions@.len() == names@.len(),
                    row.values@.len() == ncols,
                    forall|j: int| 0 <= j < names@.len() ==> #[trigger] positions@[j] < ncols,
                    vals@.len() == c,
                    forall|j: int|
                        0 <= j < c ==> #[trigger] vals@[j]@ == row.values@[positions@[j] as int]@,
                decreases positions@.len() - c,
            {
                vals.push(row.values[positions[c]].clone());
                c = c + 1;
            }
            let projected = Row::new(vals);
            assert(projected@ =~= project_row(t0.columns, ns, row@)) by {
                assert forall|j: int| 0 <= j < names@.len() implies projected@[j] == project_row(
                    t0.columns,
                    ns,
                    row@,
                )[j] by {
                    assert(column_position(t0.columns, ns[j]) == Some(positions@[j] as int));
                }
            }
            out.push(projected);
            a = a + 1;
        }
        assert(rows_view(out@) =~= rows_view(rows@).map_values(
            |r: Seq<ValueView>| project_row(t0.columns, ns, r),
        ));
        Ok(ResultSet::new(result_schema, out))
    }

    /// Filters rows by the conditions of a WHERE clause, in turn.
    fn filter_rows(&self, rows: Vec<Row>, where_clause: &WhereClause, schema: &Schema) -> (r:
        Result<Vec<Row>, ExecutionError>)
        ensures
            match apply_conditions(
                schema@,
                rows_view(rows@),
                conditions_view(where_clause.conditions@),
            ) {
                QueryOutcome::Rows(_, out) => r matches Ok(v) && rows_view(v@) == out,
                QueryOutcome::NoColumn(c) => r matches Err(ExecutionError::ColumnNotFound(n)) && n@
                    == c,
                QueryOutcome::Failed => r matches Err(ExecutionError::ExecutionFailed(_)),
            },
    {
        let ghost conds = conditions_view(where_clause.conditions@);
        let ghost start = rows_view(rows@);
        let mut filtered = rows;
        let mut k: usize = 0;
        assert(conds.take(0) =~= Seq::<ConditionView>::empty());
        while k < where_clause.conditions.len()
            invariant
                k <= where_clause.conditions@.len(),
                conds == conditions_view(where_clause.conditions@),
                start == rows_view(rows@),
                apply_conditions(schema@, start, conds.take(k as int)) == QueryOutcome::Rows(
                    schema@,
                    rows_view(filtered@),
                ),
            decreases where_clause.conditions@.len() - k,
        {
            let condition = &where_clause.conditions[k];
            let ghost pre = conds.take(k as int + 1);
            assert(pre.drop_last() == conds.take(k as int));
            assert(pre.last() == condition@);
            proof {
                lemma_column_position(schema@, condition.column@);
            }
            let n = schema.columns.len();
            assert(schema@.len() == n);
            let idx = match schema.get_column_index(condition.column.as_str()) {
                Some(i) => i,
                None => {
                    assert(apply_conditions(schema@, start, pre) == QueryOutcome::NoColumn(condition.column@));
                    proof {
                        lemma_conditions_stop(schema@, start, conds, k as int + 1);
                    }
                    return Err(ExecutionError::ColumnNotFound(condition.column.clone()));
                },
            };
            let op = condition.operator.to_value_op();
            match filter_by(&filtered, idx, &op, &condition.value) {
                Ok(out) => {
                    filtered = out;
                },
                Err(e) => {
                    assert(apply_conditions(schema@, start, pre) == QueryOutcome::Failed);
                    proof {
                        lemma_conditions_stop(schema@, start, conds, k as int + 1);
                    }
                    return Err(ExecutionError::ExecutionFailed(e.into_message()));
                },
            }
            k = k + 1;
        }
        assert(conds.take(k as int) == conds);
        Ok(filtered)
    }
}

/// Once a run of insertions stops on a tuple, the later tuples do not change the outcome.
proof fn lemma_inserts_stop(
    t: TableView,
    names: Option<Seq<Seq<char>>>,
    tuples: Seq<Seq<ValueView>>,
    k: int,
)
    requires
        0 <= k <= tuples.len(),
        run_inserts(t, names, tuples.take(k)).1 !is Done,
    ensures
        run_inserts(t, names, tuples) == run_inserts(t, names, tuples.take(k)),
    decreases tuples.len(),
{
    if k == tuples.len() {
        assert(tuples.take(k) == tuples);
    } else {
        assert(tuples.drop_last().take(k) == tuples.take(k));
        lemma_inserts_stop(t, names, tuples.drop_last(), k);
    }
}

proof fn lemma_same_names_from(db1: Seq<TableView>, db2: Seq<TableView>, name: Seq<char>, i: nat)
    requires
        db1.len() == db2.len(),
        forall|j: int| 0 <= j < db1.len() ==> #[trigger] db1[j].name == db2[j].name,
    ensures
        table_position_from(db1, name, i) == table_position_from(db2, name, i),
    decreases db1.len() - i,
{
    if i < db1.len() {
        lemma_same_names_from(db1, db2, name, i + 1);
    }
}

/// Tables found by name stay where they are when only rows change.
proof fn lemma_same_names_same_position(db1: Seq<TableView>, db2: Seq<TableView>, name: Seq<char>)
    requires
        db1.len() == db2.len(),
        forall|j: int| 0 <= j < db1.len() ==> #[trigger] db1[j].name == db2[j].name,
    ensures
        table_position(db1, name) == table_position(db2, name),
{
    lemma_same_names_from(db1, db2, name, 0);
}

/// The message of a tuple whose number of values is not the number of target columns.
fn arity_message(expected: usize, got: usize) -> (r: String)
    ensures
        r@ == arity_text(expected as int, got as int),
{
    let mut msg = "Column count (".to_owned();
    msg.append(format_count(expected).as_str());
    msg.append(") does not match value count (");
    msg.append(format_count(got).as_str());
    msg.append(")");
    msg
}

/// Whether the projection list holds `*`.
fn contains_star(names: &Vec<String>) -> (r: bool)
    ensures
        r == is_star(strings_view(names@)),
{
    proof {
        reveal_strlit("*");
    }
    assert("*"@ =~= seq!['*']);
    let mut k: usize = 0;
    while k < names.len()
        invariant
            k <= names@.len(),
            "*"@ == seq!['*'],
            forall|j: int| 0 <= j < k ==> #[trigger] names@[j]@ != seq!['*'],
        decreases names@.len() - k,
    {
        if names[k].as_str().eq("*") {
            assert(strings_view(names@)[k as int] == seq!['*']);
            return true;
        }
        k = k + 1;
    }
    assert forall|j: int| 0 <= j < names@.len() implies #[trigger] strings_view(names@)[j] != seq![
        '*',
    ] by {
        assert(strings_view(names@)[j] == names@[j]@);
    }
    false
}

proof fn lemma_filter_keeps_width(
    rows: Seq<Seq<ValueView>>,
    idx: int,
    op: crate::types::Operator,
    v: ValueView,
    n: nat,
)
    requires
        forall|k: int| 0 <= k < rows.len() ==> (#[trigger] rows[k]).len() == n,
    ensures
        filter_spec(rows, idx, op, v) matches Some(out) ==> forall|k: int|
            0 <= k < out.len() ==> (#[trigger] out[k]).len() == n,
    decreases rows.len(),
{
    if rows.len() > 0 {
        let d = rows.drop_last();
        assert forall|k: int| 0 <= k < d.len() implies (#[trigger] d[k]).len() == n by {
            assert(d[k] == rows[k]);
        }
        lemma_filter_keeps_width(d, idx, op, v, n);
    }
}

/// Filtering keeps rows whole: every row that comes out has the width of the table.
proof fn lemma_conditions_keep_width(
    cols: Seq<ColumnView>,
    rows: Seq<Seq<ValueView>>,
    conds: Seq<ConditionView>,
)
    requires
        forall|k: int| 0 <= k < rows.len() ==> accepts_row(cols, #[trigger] rows[k]),
    ensures
        apply_conditions(cols, rows, conds) matches QueryOutcome::Rows(c, out) ==> c == cols
            && forall|k: int| 0 <= k < out.len() ==> (#[trigger] out[k]).len() == cols.len(),
    decreases conds.len(),
{
    if conds.len() == 0 {
        assert forall|k: int| 0 <= k < rows.len() implies (#[trigger] rows[k]).len()
            == cols.len() by {
            assert(accepts_row(cols, rows[k]));
        }
    } else {
        lemma_conditions_keep_width(cols, rows, conds.drop_last());
        match apply_conditions(cols, rows, conds.drop_last()) {
            QueryOutcome::Rows(_, kept) => {
                let c = conds.last();
                match column_position(cols, c.column) {
                    Some(idx) => {
                        lemma_filter_keeps_width(kept, idx, c.op, c.value, cols.len());
                    },
                    None => {},
                }
            },
            _ => {},
        }
    }
}

/// Once filtering stops on a condition, the later conditions do not change the outcome.
proof fn lemma_conditions_stop(
    cols: Seq<ColumnView>,
    rows: Seq<Seq<ValueView>>,
    conds: Seq<ConditionView>,
    k: int,
)
    requires
        0 <= k <= conds.len(),
        apply_conditions(cols, rows, conds.take(k)) !is Rows,
    ensures
        apply_conditions(cols, rows, conds) == apply_conditions(cols, rows, conds.take(k)),
    decreases conds.len(),
{
    if k == conds.len() {
        assert(conds.take(k) == conds);
    } else {
        assert(conds.drop_last().take(k) == conds.take(k));
        lemma_conditions_stop(cols, rows, conds.drop_last(), k);
    }
}

/// Creating a table and inserting a row that fits its schema, then selecting `*`, gives back
/// exactly that row under the declared columns.
pub proof fn law_round_trip(
    db0: Seq<TableView>,
    name: Seq<char>,
    cols: Seq<ColumnView>,
    row: Seq<ValueView>,
    db1: Seq<TableView>,
    r1: Result<ResultSet, ExecutionError>,
    db2: Seq<TableView>,
    r2: Result<ResultSet, ExecutionError>,
    db3: Seq<TableView>,
    r3: Result<ResultSet, ExecutionError>,
)
    requires
        table_position(db0, name) is None,
        accepts_row(cols, row),
        executes(db0, StatementView::CreateTable { table: name, columns: cols }, db1, r1),
        executes(
            db1,
            StatementView::Insert { table: name, columns: None, values: seq![row] },
            db2,
            r2,
        ),
        executes(
            db2,
            StatementView::Select { columns: seq![seq!['*']], table: name, conditions: None },
            db3,
            r3,
        ),
    ensures
        r1 is Ok,
        r2 is Ok,
        r3 matches Ok(rs) && rs.schema@ == cols && rows_view(rs.rows@) == seq![row],
{
    let n = db0.len() as int;
    lemma_table_position(db0, name);
    lemma_table_position(db1, name);
    assert(db1[n].name == name);
    let i = table_position(db1, name)->0;
    assert(i == n);
    let t1 = db1[i];
    let tuples = seq![row];
    assert(tuples.drop_last() =~= Seq::<Seq<ValueView>>::empty());
    assert(run_inserts(t1, None, tuples.drop_last()) == (t1.rows, InsertStop::Done));
    assert(t1.rows.push(row) =~= seq![row]);
    assert(run_inserts(t1, None, tuples) == (seq![row], InsertStop::Done));
    lemma_same_names_same_position(db1, db2, name);
    assert(seq![seq!['*']].contains(seq!['*'])) by {
        assert(seq![seq!['*']][0] == seq!['*']);
    }
}

/// A value tuple whose length is not the table's number of columns, inserted without a
/// column list, fails with an arity error and inserts nothing.
pub proof fn law_arity(
    db: Seq<TableView>,
    name: Seq<char>,
    tuple: Seq<ValueView>,
    db2: Seq<TableView>,
    r: Result<ResultSet, ExecutionError>,
)
    requires
        table_position(db, name) matches Some(i) && tuple.len() != db[i].columns.len(),
        executes(db, StatementView::Insert { table: name, columns: None, values: seq![tuple] }, db2, r),
    ensures
        r matches Err(ExecutionError::ExecutionFailed(_)),
        db2 == db,
{
    let i = table_position(db, name)->0;
    lemma_table_position(db, name);
    let tuples = seq![tuple];
    assert(tuples.drop_last() =~= Seq::<Seq<ValueView>>::empty());
    assert(run_inserts(db[i], None, tuples.drop_last()) == (db[i].rows, InsertStop::Done));
    assert(run_inserts(db[i], None, tuples) == (
        db[i].rows,
        InsertStop::Arity(db[i].columns.len() as int, tuple.len() as int),
    ));
    assert(db.update(i, with_rows_replaced(db[i], db[i].rows)) =~= db);
}

/// A NULL inserted into a column that does not admit NULL is rejected, and nothing is
/// inserted.
pub proof fn law_null_rejected(
    db: Seq<TableView>,
    name: Seq<char>,
    tuple: Seq<ValueView>,
    k: int,
    db2: Seq<TableView>,
    r: Result<ResultSet, ExecutionError>,
)
    requires
        table_position(db, name) matches Some(i) && tuple.len() == db[i].columns.len() && 0 <= k
            < tuple.len() && tuple[k] is Null && !db[i].columns[k].nullable,
        executes(db, StatementView::Insert { table: name, columns: None, values: seq![tuple] }, db2, r),
    ensures
        r matches Err(ExecutionError::StorageError(e)) && e is ValidationError,
        db2 == db,
{
    let i = table_position(db, name)->0;
    lemma_table_position(db, name);
    let tuples = seq![tuple];
    assert(tuples.drop_last() =~= Seq::<Seq<ValueView>>::empty());
    assert(!accepts_row(db[i].columns, tuple));
    assert(run_inserts(db[i], None, tuples.drop_last()) == (db[i].rows, InsertStop::Done));
    let rj = row_rejection(db[i].columns, tuple)->0;
    assert(run_inserts(db[i], None, tuples) == (db[i].rows, InsertStop::Invalid(rj.0, rj.1)));
    assert(db.update(i, with_rows_replaced(db[i], db[i].rows)) =~= db);
}

/// A NULL inserted into a nullable column, beside values that fit their columns, is
/// accepted and is stored as NULL.
pub proof fn law_null_accepted(
    db: Seq<TableView>,
    name: Seq<char>,
    tuple: Seq<ValueView>,
    k: int,
    db2: Seq<TableView>,
    r: Result<ResultSet, ExecutionError>,
)
    requires
        table_position(db, name) matches Some(i) && accepts_row(db[i].columns, tuple) && 0 <= k
            < tuple.len() && tuple[k] is Null,
        executes(db, StatementView::Insert { table: name, columns: None, values: seq![tuple] }, db2, r),
    ensures
        r is Ok,
        table_position(db, name) matches Some(i) && db2[i].rows == db[i].rows.push(tuple)
            && db2[i].rows.last()[k] is Null,
{
    let i = table_position(db, name)->0;
    lemma_table_position(db, name);
    let tuples = seq![tuple];
    assert(tuples.drop_last() =~= Seq::<Seq<ValueView>>::empty());
    assert(run_inserts(db[i], None, tuples.drop_last()) == (db[i].rows, InsertStop::Done));
    assert(run_inserts(db[i], None, tuples) == (db[i].rows.push(tuple), InsertStop::Done));
}

/// A comparison with NULL on either side is false for every operator, never an error.
pub proof fn law_null_comparison(op: crate::types::Operator, v: ValueView)
    ensures
        compare_spec(ValueView::Null, op, v) == Some(false),
        compare_spec(v, op, ValueView::Null) == Some(false),
{
}

/// Selecting named columns gives a schema of those columns in the order asked, and each
/// row's values in that order, whatever the table's own order.
pub proof fn law_projection(
    db: Seq<TableView>,
    table: Seq<char>,
    names: Seq<Seq<char>>,
    db2: Seq<TableView>,
    r: Result<ResultSet, ExecutionError>,
)
    requires
        table_position(db, table) matches Some(i) && all_known(db[i].columns, names),
        !is_star(names),
        executes(db, StatementView::Select { columns: names, table, conditions: None }, db2, r),
    ensures
        r matches Ok(rs) && rs.schema@.len() == names.len() && (forall|k: int|
            0 <= k < names.len() ==> (#[trigger] rs.schema@[k]).name == names[k])
            && rows_view(rs.rows@).len() == db[table_position(db, table)->0].rows.len() && (forall|
            a: int,
            k: int,
        |
            0 <= a < rows_view(rs.rows@).len() && 0 <= k < names.len() ==> #[trigger] rows_view(
                rs.rows@,
            )[a][k] == db[table_position(db, table)->0].rows[a][column_position(
                db[table_position(db, table)->0].columns,
                names[k],
            )->0]),
{
    let i = table_position(db, table)->0;
    let cols = db[i].columns;
    lemma_first_unknown(cols, names);
    assert forall|k: int| 0 <= k < names.len() implies (#[trigger] project_columns(cols, names)[k]).name
        == names[k] by {
        assert(column_position(cols, names[k]) is Some);
        lemma_column_position(cols, names[k]);
    }
}

/// A second CREATE TABLE of a name fails with "already exists" and leaves the database,
/// and so the table's schema, as the first left it.
pub proof fn law_duplicate_create(
    db0: Seq<TableView>,
    name: Seq<char>,
    cols1: Seq<ColumnView>,
    cols2: Seq<ColumnView>,
    db1: Seq<TableView>,
    r1: Result<ResultSet, ExecutionError>,
    db2: Seq<TableView>,
    r2: Result<ResultSet, ExecutionError>,
)
    requires
        executes(db0, StatementView::CreateTable { table: name, columns: cols1 }, db1, r1),
        executes(db1, StatementView::CreateTable { table: name, columns: cols2 }, db2, r2),
    ensures
        r2 matches Err(ExecutionError::StorageError(e)) && e is TableAlreadyExists,
        db2 == db1,
{
    lemma_table_position(db1, name);
    if table_position(db0, name) is None {
        assert(db1[db0.len() as int].name == name);
    }
}

} // verus!
