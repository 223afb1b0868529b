use langdb::executor::{ExecutionError, QueryExecutor};
use langdb::parser::{parse_sql, ParseError, Statement};
use langdb::storage::{Database, MemoryStorage, StorageError, Table};
use langdb::types::{Column, DataType, Operator, ResultSet, Row, Schema, TypeError, Value};

fn run(executor: &mut QueryExecutor, sql: &str) -> Result<ResultSet, String> {
    match parse_sql(sql) {
        Ok(stmt) => executor
            .execute(stmt)
            .map_err(|e| format!("Execution error: {:?}", e)),
        Err(e) => Err(format!("Parse error: {:?}", e)),
    }
}

fn fresh() -> QueryExecutor {
    QueryExecutor::new(Database::new())
}

fn text(s: &str) -> Value {
    Value::Text(s.to_string())
}

#[test]
fn end_to_end_users_scenario() {
    let mut ex = fresh();
    run(&mut ex, "CREATE TABLE users (id INTEGER, name TEXT)").unwrap();
    run(&mut ex, "INSERT INTO users VALUES (1, 'Alice')").unwrap();
    run(&mut ex, "INSERT INTO users VALUES (2, 'Bob')").unwrap();
    let rs = run(&mut ex, "SELECT * FROM users WHERE id > 1").unwrap();
    assert_eq!(rs.rows.len(), 1);
    assert_eq!(rs.rows[0].values, vec![Value::Integer(2), text("Bob")]);
    let names: Vec<&str> = rs.schema.columns.iter().map(|c| c.name.as_str()).collect();
    assert_eq!(names, vec!["id", "name"]);
}

#[test]
fn column_targeted_insert_fills_null() {
    let mut ex = fresh();
    run(&mut ex, "CREATE TABLE t (a INTEGER, b TEXT NULL)").unwrap();
    run(&mut ex, "INSERT INTO t (a) VALUES (7)").unwrap();
    let rs = run(&mut ex, "SELECT * FROM t").unwrap();
    assert_eq!(rs.rows.len(), 1);
    assert_eq!(rs.rows[0].values, vec![Value::Integer(7), Value::Null]);
}

#[test]
fn round_trip_of_inserted_row() {
    let mut ex = fresh();
    run(&mut ex, "CREATE TABLE items (id INTEGER, label TEXT, qty INT)").unwrap();
    run(&mut ex, "INSERT INTO items VALUES (10, 'pen', 3)").unwrap();
    let rs = run(&mut ex, "SELECT * FROM items").unwrap();
    assert_eq!(rs.rows.len(), 1);
    assert_eq!(
        rs.rows[0].values,
        vec![Value::Integer(10), text("pen"), Value::Integer(3)]
    );
    assert_eq!(rs.schema.columns.len(), 3);
    assert_eq!(rs.schema.columns[2].data_type, DataType::Integer);
}

#[test]
fn arity_mismatch_is_rejected_without_insert() {
    let mut ex = fresh();
    run(&mut ex, "CREATE TABLE t (a INTEGER, b TEXT)").unwrap();
    let err = run(&mut ex, "INSERT INTO t VALUES (1)").unwrap_err();
    assert!(err.contains("ExecutionFailed"));
    assert!(err.contains("Column count (2) does not match value count (1)"));
    let err = run(&mut ex, "INSERT INTO t VALUES (1, 'x', 3)").unwrap_err();
    assert!(err.contains("ExecutionFailed"));
    assert_eq!(ex.get_storage().get_row_count("t").unwrap(), 0);
}

#[test]
fn earlier_tuples_stay_when_a_later_one_fails() {
    let mut ex = fresh();
    run(&mut ex, "CREATE TABLE t (a INTEGER)").unwrap();
    let err = run(&mut ex, "INSERT INTO t VALUES (1), (2), ('x'), (4)").unwrap_err();
    assert!(err.contains("ValidationError"));
    let rs = run(&mut ex, "SELECT * FROM t").unwrap();
    assert_eq!(rs.rows.len(), 2);
}

#[test]
fn null_into_non_nullable_fails() {
    let mut ex = fresh();
    run(&mut ex, "CREATE TABLE t (a INTEGER, b TEXT)").unwrap();
    let err = run(&mut ex, "INSERT INTO t VALUES (1, NULL)").unwrap_err();
    assert!(err.contains("ValidationError"));
    assert_eq!(ex.get_storage().get_row_count("t").unwrap(), 0);
}

#[test]
fn null_into_nullable_round_trips() {
    let mut ex = fresh();
    run(&mut ex, "CREATE TABLE t (a INTEGER, b TEXT NULL)").unwrap();
    run(&mut ex, "INSERT INTO t VALUES (1, null)").unwrap();
    let rs = run(&mut ex, "SELECT b FROM t").unwrap();
    assert_eq!(rs.rows[0].values, vec![Value::Null]);
}

#[test]
fn type_mismatch_is_rejected() {
    let mut ex = fresh();
    run(&mut ex, "CREATE TABLE t (a INTEGER)").unwrap();
    assert!(run(&mut ex, "INSERT INTO t VALUES ('one')").is_err());
}

#[test]
fn null_comparisons_are_false() {
    let ops = [
        Operator::Eq,
        Operator::NotEq,
        Operator::Gt,
        Operator::Lt,
        Operator::GtEq,
        Operator::LtEq,
    ];
    for op in ops.iter() {
        for v in [Value::Integer(3), text("abc"), Value::Null].iter() {
            assert_eq!(Value::Null.compare(op, v).unwrap(), false);
            assert_eq!(v.compare(op, &Value::Null).unwrap(), false);
        }
    }
}

#[test]
fn mixed_type_comparison() {
    assert_eq!(
        Value::Integer(5).compare(&Operator::Eq, &text("5")).unwrap(),
        true
    );
    assert!(matches!(
        Value::Integer(5).compare(&Operator::Eq, &text("abc")),
        Err(TypeError::ComparisonError(_))
    ));
    assert_eq!(
        text("-12").compare(&Operator::Lt, &Value::Integer(0)).unwrap(),
        true
    );
    assert_eq!(
        Value::Integer(7).compare(&Operator::GtEq, &text("+7")).unwrap(),
        true
    );
}

#[test]
fn integer_and_text_orderings() {
    assert!(Value::Integer(2).compare(&Operator::Gt, &Value::Integer(1)).unwrap());
    assert!(Value::Integer(2).compare(&Operator::NotEq, &Value::Integer(1)).unwrap());
    assert!(!Value::Integer(2).compare(&Operator::LtEq, &Value::Integer(1)).unwrap());
    assert!(text("apple").compare(&Operator::Lt, &text("banana")).unwrap());
    assert!(text("ab").compare(&Operator::Lt, &text("abc")).unwrap());
    assert!(text("Zed").compare(&Operator::Lt, &text("abc")).unwrap());
    assert!(text("é").compare(&Operator::Gt, &text("z")).unwrap());
    assert!(text("same").compare(&Operator::Eq, &text("same")).unwrap());
}

#[test]
fn projection_reorders_columns() {
    let mut ex = fresh();
    run(&mut ex, "CREATE TABLE t (id INTEGER, name TEXT)").unwrap();
    run(&mut ex, "INSERT INTO t VALUES (1, 'Alice'), (2, 'Bob')").unwrap();
    let rs = run(&mut ex, "SELECT name, id FROM t").unwrap();
    let names: Vec<&str> = rs.schema.columns.iter().map(|c| c.name.as_str()).collect();
    assert_eq!(names, vec!["name", "id"]);
    assert_eq!(rs.rows[0].values, vec![text("Alice"), Value::Integer(1)]);
    assert_eq!(rs.rows[1].values, vec![text("Bob"), Value::Integer(2)]);
    let rs = run(&mut ex, "SELECT id, id FROM t").unwrap();
    assert_eq!(rs.rows[1].values, vec![Value::Integer(2), Value::Integer(2)]);
}

#[test]
fn unknown_projection_column_fails() {
    let mut ex = fresh();
    run(&mut ex, "CREATE TABLE t (id INTEGER)").unwrap();
    let r = ex.execute(parse_sql("SELECT nope FROM t").unwrap());
    assert!(matches!(r, Err(ExecutionError::ColumnNotFound(ref n)) if n == "nope"));
}

#[test]
fn duplicate_table_is_rejected() {
    let mut ex = fresh();
    run(&mut ex, "CREATE TABLE t (a INTEGER)").unwrap();
    let r = ex.execute(parse_sql("CREATE TABLE t (b TEXT, c TEXT)").unwrap());
    assert!(matches!(
        r,
        Err(ExecutionError::StorageError(StorageError::TableAlreadyExists(ref n))) if n == "t"
    ));
    let meta = ex.get_storage().get_table_metadata("t").unwrap();
    assert_eq!(meta.schema.columns.len(), 1);
    assert_eq!(meta.schema.columns[0].name, "a");
}

#[test]
fn missing_table_errors() {
    let mut ex = fresh();
    let r = ex.execute(parse_sql("SELECT * FROM ghost").unwrap());
    assert!(matches!(
        r,
        Err(ExecutionError::StorageError(StorageError::TableNotFound(_)))
    ));
    let r = ex.execute(parse_sql("INSERT INTO ghost VALUES (1)").unwrap());
    assert!(matches!(
        r,
        Err(ExecutionError::StorageError(StorageError::TableNotFound(_)))
    ));
}

#[test]
fn insert_with_unknown_column_fails() {
    let mut ex = fresh();
    run(&mut ex, "CREATE TABLE t (a INTEGER NULL)").unwrap();
    let r = ex.execute(parse_sql("INSERT INTO t (zz) VALUES (1)").unwrap());
    assert!(matches!(r, Err(ExecutionError::ColumnNotFound(_))));
    let r = ex.execute(parse_sql("INSERT INTO t (a) VALUES (1, 2)").unwrap());
    assert!(matches!(r, Err(ExecutionError::ExecutionFailed(_))));
}

#[test]
fn where_on_unknown_column_fails() {
    let mut ex = fresh();
    run(&mut ex, "CREATE TABLE t (a INTEGER)").unwrap();
    let r = ex.execute(parse_sql("SELECT * FROM t WHERE b = 1").unwrap());
    assert!(matches!(r, Err(ExecutionError::ColumnNotFound(_))));
}

#[test]
fn where_comparison_error_propagates() {
    let mut ex = fresh();
    run(&mut ex, "CREATE TABLE t (a TEXT)").unwrap();
    run(&mut ex, "INSERT INTO t VALUES ('x')").unwrap();
    let r = ex.execute(parse_sql("SELECT * FROM t WHERE a = 1").unwrap());
    assert!(matches!(r, Err(ExecutionError::ExecutionFailed(_))));
}

#[test]
fn where_filters_with_each_operator() {
    let mut ex = fresh();
    run(&mut ex, "CREATE TABLE n (v INTEGER)").unwrap();
    run(&mut ex, "INSERT INTO n VALUES (1), (2), (3)").unwrap();
    let count = |ex: &mut QueryExecutor, q: &str| run(ex, q).unwrap().rows.len();
    assert_eq!(count(&mut ex, "SELECT * FROM n WHERE v = 2"), 1);
    assert_eq!(count(&mut ex, "SELECT * FROM n WHERE v <> 2"), 2);
    assert_eq!(count(&mut ex, "SELECT * FROM n WHERE v != 2"), 2);
    assert_eq!(count(&mut ex, "SELECT * FROM n WHERE v >= 2"), 2);
    assert_eq!(count(&mut ex, "SELECT * FROM n WHERE v <= 2"), 2);
    assert_eq!(count(&mut ex, "SELECT * FROM n WHERE v > 2"), 1);
    assert_eq!(count(&mut ex, "SELECT * FROM n WHERE v < 2"), 1);
    assert_eq!(count(&mut ex, "SELECT * FROM n WHERE v = '3'"), 1);
}

#[test]
fn parser_reads_create_table() {
    match parse_sql("  create  table Users ( id INT , name varchar NULL, email STRING )").unwrap() {
        Statement::CreateTable(c) => {
            assert_eq!(c.table_name, "Users");
            assert_eq!(c.columns.len(), 3);
            assert_eq!(c.columns[0].name, "id");
            assert_eq!(c.columns[0].data_type, DataType::Integer);
            assert!(!c.columns[0].nullable);
            assert_eq!(c.columns[1].data_type, DataType::Text);
            assert!(c.columns[1].nullable);
            assert_eq!(c.columns[2].data_type, DataType::Text);
        }
        other => panic!("unexpected {:?}", other),
    }
}

#[test]
fn parser_reads_insert() {
    match parse_sql("INSERT INTO t (a, b) VALUES (1, 'x y'), (007, NULL)").unwrap() {
        Statement::Insert(i) => {
            assert_eq!(i.table_name, "t");
            assert_eq!(
                i.columns,
                Some(vec!["a".to_string(), "b".to_string()])
            );
            assert_eq!(i.values.len(), 2);
            assert_eq!(i.values[0], vec![Value::Integer(1), text("x y")]);
            assert_eq!(i.values[1], vec![Value::Integer(7), Value::Null]);
        }
        other => panic!("unexpected {:?}", other),
    }
}

#[test]
fn parser_reads_select() {
    match parse_sql("SELECT a, b FROM t WHERE a >= 'q'").unwrap() {
        Statement::Select(s) => {
            assert_eq!(s.columns, vec!["a".to_string(), "b".to_string()]);
            assert_eq!(s.table_name, "t");
            let w = s.where_clause.unwrap();
            assert_eq!(w.conditions.len(), 1);
            assert_eq!(w.conditions[0].column, "a");
            assert_eq!(
                w.conditions[0].operator,
                langdb::parser::Operator::GreaterThanOrEqual
            );
            assert_eq!(w.conditions[0].value, text("q"));
        }
        other => panic!("unexpected {:?}", other),
    }
    match parse_sql("select * from t").unwrap() {
        Statement::Select(s) => {
            assert_eq!(s.columns, vec!["*".to_string()]);
            assert!(s.where_clause.is_none());
        }
        other => panic!("unexpected {:?}", other),
    }
}

#[test]
fn parser_rejects_bad_input() {
    assert!(matches!(parse_sql("SELEKT * FROM t"), Err(ParseError::SyntaxError(_))));
    match parse_sql("SELECT * FROM t extra") {
        Err(ParseError::SyntaxError(m)) => assert!(m.contains("Unexpected trailing input: 'extra'")),
        other => panic!("unexpected {:?}", other),
    }
    assert!(parse_sql("SELECT * FROM t WHERE a = 1 AND b = 2").is_err());
    assert!(parse_sql("INSERT INTO t VALUES (-1)").is_err());
    assert!(parse_sql("INSERT INTO t VALUES (99999999999999999999)").is_err());
    assert!(parse_sql("INSERT INTO t VALUES ('open)").is_err());
    assert!(parse_sql("CREATE TABLE t (a FLOAT)").is_err());
    assert!(parse_sql("").is_err());
    assert!(parse_sql("SELECT * FROM t   \n").is_ok());
}

#[test]
fn largest_integer_literal_is_read() {
    match parse_sql("INSERT INTO t VALUES (9223372036854775807)").unwrap() {
        Statement::Insert(i) => assert_eq!(i.values[0], vec![Value::Integer(i64::MAX)]),
        other => panic!("unexpected {:?}", other),
    }
}

#[test]
fn as_type_conversions() {
    assert_eq!(text("42").as_type(&DataType::Integer).unwrap(), Value::Integer(42));
    assert!(matches!(
        text("4x").as_type(&DataType::Integer),
        Err(TypeError::ConversionError(_))
    ));
    assert_eq!(Value::Integer(-7).as_type(&DataType::Text).unwrap(), text("-7"));
    assert_eq!(
        Value::Integer(i64::MIN).as_type(&DataType::Text).unwrap(),
        text("-9223372036854775808")
    );
    assert_eq!(Value::Null.as_type(&DataType::Integer).unwrap(), Value::Null);
    assert_eq!(text("abc").as_type(&DataType::Text).unwrap(), text("abc"));
    assert!(Value::Null.is_null());
    assert!(!Value::Integer(0).is_null());
}

#[test]
fn column_and_schema_validation() {
    let col = Column::new("a".to_string(), DataType::Integer, false);
    assert!(col.validate_value(&Value::Integer(1)).is_ok());
    assert!(matches!(
        col.validate_value(&Value::Null),
        Err(TypeError::InvalidValue(ref n, _)) if n == "a"
    ));
    assert!(col.validate_value(&text("1")).is_err());
    let schema = Schema::new(vec![
        col,
        Column::new("b".to_string(), DataType::Text, true),
    ]);
    assert!(schema.validate_row(&Row::new(vec![Value::Integer(1), Value::Null])).is_ok());
    assert!(schema.validate_row(&Row::new(vec![Value::Integer(1)])).is_err());
    assert_eq!(schema.get_column_index("b"), Some(1));
    assert_eq!(schema.get_column_index("c"), None);
    assert_eq!(schema.get_column("a").unwrap().data_type, DataType::Integer);
    let row = Row::new(vec![Value::Integer(1)]);
    assert_eq!(row.get_value(0), Some(&Value::Integer(1)));
    assert_eq!(row.get_value(1), None);
}

#[test]
fn database_operations() {
    let mut db = Database::new();
    let schema = Schema::new(vec![Column::new("x".to_string(), DataType::Integer, false)]);
    db.create_table("a".to_string(), schema).unwrap();
    assert!(db.table_exists("a").unwrap());
    assert!(!db.table_exists("b").unwrap());
    db.insert("a", Row::new(vec![Value::Integer(5)])).unwrap();
    assert!(matches!(
        db.insert("a", Row::new(vec![text("no")])),
        Err(StorageError::ValidationError(_))
    ));
    assert!(matches!(
        db.insert_many(
            "a",
            vec![Row::new(vec![Value::Integer(6)]), Row::new(vec![Value::Null])]
        ),
        Err(StorageError::ValidationError(_))
    ));
    assert_eq!(db.get_row_count("a").unwrap(), 1);
    db.insert_many(
        "a",
        vec![Row::new(vec![Value::Integer(6)]), Row::new(vec![Value::Integer(7)])],
    )
    .unwrap();
    assert_eq!(db.scan("a").unwrap().len(), 3);
    let hits = db
        .select_where("a", "x", &Operator::GtEq, &Value::Integer(6))
        .unwrap();
    assert_eq!(hits.len(), 2);
    assert!(matches!(
        db.select_where("a", "y", &Operator::Eq, &Value::Integer(6)),
        Err(StorageError::ColumnNotFound(_))
    ));
    db.create_table_from_defs("people", &["ignored"]).unwrap();
    let meta = db.get_table_metadata("people").unwrap();
    let names: Vec<&str> = meta.schema.columns.iter().map(|c| c.name.as_str()).collect();
    assert_eq!(names, vec!["id", "name", "email"]);
    assert_eq!(db.get_table_names().unwrap(), vec!["a".to_string(), "people".to_string()]);
    db.drop_table("a").unwrap();
    assert!(matches!(db.drop_table("a"), Err(StorageError::TableNotFound(_))));
    assert!(matches!(db.scan("a"), Err(StorageError::TableNotFound(_))));
    assert!(Database::with_persistence("file.db").unwrap().get_table_names().unwrap().is_empty());
}

#[test]
fn result_set_helpers() {
    let schema = Schema::new(vec![
        Column::new("id".to_string(), DataType::Integer, false),
        Column::new("name".to_string(), DataType::Text, true),
    ]);
    let rs = ResultSet::new(
        schema,
        vec![Row::new(vec![Value::Integer(-3), text("Al")]), Row::new(vec![Value::Integer(4), Value::Null])],
    );
    assert_eq!(rs.row_count(), 2);
    assert!(!rs.is_empty());
    let v = rs.to_vec();
    assert_eq!(v[0], vec!["id".to_string(), "name".to_string()]);
    assert_eq!(v[1], vec!["-3".to_string(), "'Al'".to_string()]);
    assert_eq!(v[2], vec!["4".to_string(), "NULL".to_string()]);
    assert!(ResultSet::empty(Schema::new(vec![])).is_empty());
}

#[test]
fn table_level_operations() {
    let schema = Schema::new(vec![
        Column::new("k".to_string(), DataType::Integer, false),
        Column::new("v".to_string(), DataType::Text, true),
    ]);
    let mut t = Table::new("kv".to_string(), schema);
    assert_eq!(t.metadata.name, "kv");
    assert!(t.scan().is_empty());
    t.insert_row(Row::new(vec![Value::Integer(1), text("one")])).unwrap();
    assert!(matches!(
        t.insert_row(Row::new(vec![Value::Null, text("x")])),
        Err(StorageError::ValidationError(_))
    ));
    assert!(t
        .insert_rows(vec![
            Row::new(vec![Value::Integer(2), Value::Null]),
            Row::new(vec![text("bad"), Value::Null]),
        ])
        .is_err());
    assert_eq!(t.rows.len(), 1);
    t.insert_rows(vec![
        Row::new(vec![Value::Integer(2), Value::Null]),
        Row::new(vec![Value::Integer(3), text("three")]),
    ])
    .unwrap();
    assert_eq!(t.scan().len(), 3);
    let hits = t.filter("v", &Operator::Eq, &text("three")).unwrap();
    assert_eq!(hits.len(), 1);
    assert_eq!(hits[0].values[0], Value::Integer(3));
    assert!(matches!(
        t.filter("k", &Operator::Eq, &text("zz")),
        Err(StorageError::ValidationError(TypeError::ComparisonError(_)))
    ));
    assert!(matches!(
        t.filter("nope", &Operator::Eq, &Value::Null),
        Err(StorageError::ColumnNotFound(_))
    ));
    let store: MemoryStorage = Database::new();
    assert!(store.get_table_names().unwrap().is_empty());
}

#[test]
fn optional_whitespace_after_values_and_star() {
    let mut ex = fresh();
    run(&mut ex, "CREATE TABLE t (a INTEGER)").unwrap();
    run(&mut ex, "INSERT INTO t VALUES(1),(2)").unwrap();
    run(&mut ex, "INSERT INTO t(a)VALUES(3)").unwrap();
    assert_eq!(run(&mut ex, "SELECT *FROM t").unwrap().rows.len(), 3);
    assert_eq!(run(&mut ex, "SELECT* FROM t WHERE a>=2").unwrap().rows.len(), 2);
    assert!(parse_sql("SELECTa FROM t").is_err());
}

#[test]
fn error_payloads_name_what_failed() {
    let mut ex = fresh();
    let r = ex.execute(parse_sql("SELECT * FROM ghost").unwrap());
    assert!(matches!(
        r,
        Err(ExecutionError::StorageError(StorageError::TableNotFound(ref n))) if n == "ghost"
    ));
    run(&mut ex, "CREATE TABLE t (a INTEGER NULL, b TEXT NULL)").unwrap();
    let r = ex.execute(parse_sql("INSERT INTO t (a, x, y) VALUES (1, 2, 3)").unwrap());
    assert!(matches!(r, Err(ExecutionError::ColumnNotFound(ref n)) if n == "x"));
    let r = ex.execute(parse_sql("SELECT a FROM t WHERE zz = 1").unwrap());
    assert!(matches!(r, Err(ExecutionError::ColumnNotFound(ref n)) if n == "zz"));
    let r = ex.execute(parse_sql("SELECT a, q, w FROM t").unwrap());
    assert!(matches!(r, Err(ExecutionError::ColumnNotFound(ref n)) if n == "q"));
    let r = ex.execute(parse_sql("INSERT INTO t (a) VALUES (1, 2)").unwrap());
    assert!(matches!(
        r,
        Err(ExecutionError::ExecutionFailed(ref m)) if m == "Column count (1) does not match value count (2)"
    ));
    let r = ex.execute(parse_sql("INSERT INTO t VALUES ('x', NULL)").unwrap());
    assert!(matches!(
        r,
        Err(ExecutionError::StorageError(StorageError::ValidationError(TypeError::InvalidValue(ref c, ref m))))
            if c == "a" && m == "Value 'x' does not match column type INTEGER"
    ));
}

#[test]
fn null_rejection_names_the_column() {
    let mut db = Database::new();
    let schema = Schema::new(vec![Column::new("k".to_string(), DataType::Integer, false)]);
    db.create_table("t".to_string(), schema).unwrap();
    assert!(matches!(
        db.insert("t", Row::new(vec![Value::Null])),
        Err(StorageError::ValidationError(TypeError::InvalidValue(ref c, ref m)))
            if c == "k" && m == "NULL value not allowed for non-nullable column"
    ));
    assert!(matches!(
        db.insert("t", Row::new(vec![])),
        Err(StorageError::ValidationError(TypeError::InvalidValue(ref c, ref m)))
            if c == "row" && m == "Expected 1 values, got 0"
    ));
}

#[test]
fn select_runs_without_mutable_access() {
    let mut ex = fresh();
    run(&mut ex, "CREATE TABLE t (a INTEGER)").unwrap();
    run(&mut ex, "INSERT INTO t VALUES (4)").unwrap();
    let shared: &QueryExecutor = &ex;
    match parse_sql("SELECT a FROM t").unwrap() {
        Statement::Select(s) => {
            let rs = shared.execute_select(s).unwrap();
            assert_eq!(rs.rows[0].values, vec![Value::Integer(4)]);
        }
        other => panic!("unexpected {:?}", other),
    }
}

#[test]
fn error_messages_name_operands_and_remainder() {
    assert!(matches!(
        Value::Integer(5).compare(&Operator::Eq, &text("abc")),
        Err(TypeError::ComparisonError(ref m)) if m == "Cannot compare INTEGER with TEXT: 5 and 'abc'"
    ));
    assert!(matches!(
        text("x1").compare(&Operator::Lt, &Value::Integer(-2)),
        Err(TypeError::ComparisonError(ref m)) if m == "Cannot compare TEXT with INTEGER: 'x1' and -2"
    ));
    assert!(matches!(
        text("4x").as_type(&DataType::Integer),
        Err(TypeError::ConversionError(ref m)) if m == "Cannot convert '4x' to INTEGER"
    ));
    assert!(matches!(
        parse_sql("SELECT * FROM users extra"),
        Err(ParseError::SyntaxError(ref m)) if m == "Unexpected trailing input: 'extra'"
    ));
    assert_eq!(
        TypeError::ComparisonError("m".to_string()).into_message(),
        "m"
    );
}
