use langdb::text::{format_integer, parse_integer};
use langdb::types::{
    create_schema_from_strs, type_from_upper, Column, DataType, ResultSet, Row, Schema, TypeError,
    Value,
};

#[test]
fn table_rendering() {
    let schema = Schema::new(vec![
        Column::new("id".to_string(), DataType::Integer, false),
        Column::new("name".to_string(), DataType::Text, true),
    ]);
    let rs = ResultSet::new(
        schema,
        vec![
            Row::new(vec![Value::Integer(1), Value::Text("Alice".to_string())]),
            Row::new(vec![Value::Integer(22), Value::Null]),
        ],
    );
    let expected = "| id | name    |\n\
                    +----+---------+\n\
                    | 1  | 'Alice' |\n\
                    | 22 | NULL    |\n\
                    \n2 row(s) returned";
    assert_eq!(rs.to_string(), expected);
}

#[test]
fn table_rendering_counts_bytes_for_width() {
    let schema = Schema::new(vec![Column::new("n".to_string(), DataType::Text, false)]);
    let rs = ResultSet::new(schema, vec![Row::new(vec![Value::Text("é".to_string())])]);
    assert_eq!(rs.to_string(), "| n    |\n+------+\n| 'é'  |\n\n1 row(s) returned");
}

#[test]
fn empty_schema_rendering() {
    let rs = ResultSet::empty(Schema::new(vec![]));
    assert_eq!(rs.to_string(), "Empty result set");
}

#[test]
fn header_only_rendering() {
    let schema = Schema::new(vec![Column::new("abc".to_string(), DataType::Text, false)]);
    let rs = ResultSet::new(schema, vec![]);
    assert_eq!(rs.to_string(), "| abc |\n+-----+\n\n0 row(s) returned");
}

#[test]
fn type_names() {
    assert_eq!(DataType::from_name("integer").unwrap(), DataType::Integer);
    assert_eq!(DataType::from_name("Int").unwrap(), DataType::Integer);
    assert_eq!(DataType::from_name("varchar").unwrap(), DataType::Text);
    assert_eq!(DataType::from_name("char").unwrap(), DataType::Text);
    assert_eq!("STRING".parse::<DataType>().unwrap(), DataType::Text);
    assert!(matches!(
        DataType::from_name("float"),
        Err(TypeError::UnsupportedType(ref n)) if n == "float"
    ));
    assert_eq!(type_from_upper("TEXT"), Some(DataType::Text));
    assert_eq!(type_from_upper("text"), None);
    assert_eq!(DataType::Integer.name(), "INTEGER");
    assert_eq!(DataType::Text.name(), "TEXT");
}

#[test]
fn schema_from_definitions() {
    let schema = create_schema_from_strs(vec!["id INTEGER", "  name   text  null ", "x TEXT NOT"]).unwrap();
    assert_eq!(schema.columns.len(), 3);
    assert_eq!(schema.columns[0].name, "id");
    assert_eq!(schema.columns[0].data_type, DataType::Integer);
    assert!(!schema.columns[0].nullable);
    assert_eq!(schema.columns[1].name, "name");
    assert_eq!(schema.columns[1].data_type, DataType::Text);
    assert!(schema.columns[1].nullable);
    assert!(!schema.columns[2].nullable);
    assert!(matches!(
        create_schema_from_strs(vec!["id"]),
        Err(TypeError::InvalidValue(_, _))
    ));
    assert!(matches!(
        create_schema_from_strs(vec!["id INT"]),
        Err(TypeError::UnsupportedType(ref t)) if t == "INT"
    ));
}

#[test]
fn integer_text_forms() {
    assert_eq!(parse_integer("0"), Some(0));
    assert_eq!(parse_integer("-42"), Some(-42));
    assert_eq!(parse_integer("+42"), Some(42));
    assert_eq!(parse_integer("-9223372036854775808"), Some(i64::MIN));
    assert_eq!(parse_integer("9223372036854775808"), None);
    assert_eq!(parse_integer(""), None);
    assert_eq!(parse_integer("-"), None);
    assert_eq!(parse_integer(" 1"), None);
    assert_eq!(parse_integer("1a"), None);
    assert_eq!(format_integer(0), "0");
    assert_eq!(format_integer(1200), "1200");
    assert_eq!(format_integer(i64::MAX), "9223372036854775807");
}

#[test]
fn value_display() {
    assert_eq!(Value::Integer(-5).display(), "-5");
    assert_eq!(Value::Text("a b".to_string()).display(), "'a b'");
    assert_eq!(Value::Null.display(), "NULL");
}

#[test]
fn schema_column_from_upper_words() {
    let c = langdb::types::schema_column("a".to_string(), "TEXT", Some("NULL")).unwrap();
    assert_eq!(c.data_type, DataType::Text);
    assert!(c.nullable);
    let c = langdb::types::schema_column("b".to_string(), "INTEGER", None).unwrap();
    assert_eq!(c.data_type, DataType::Integer);
    assert!(!c.nullable);
    assert!(langdb::types::schema_column("c".to_string(), "integer", None).is_none());
    assert!(!langdb::types::schema_column("d".to_string(), "TEXT", Some("null")).unwrap().nullable);
}
