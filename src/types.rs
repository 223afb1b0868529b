use crate::text::{
    chars_of, compare_text, decimal, format_count, format_integer, is_word, lex_cmp, parse_int,
    nat_digits, parse_integer, split_words, string_from_chars, upper_of, uppercase, words_from,
};
use vstd::prelude::*;

verus! {

/// Errors raised by the value and type model.
#[derive(Debug)]
pub enum TypeError {
    ConversionError(String),
    UnsupportedType(String),
    InvalidValue(String, String),
    ComparisonError(String),
}

/// The column types of the engine.
#[derive(Debug, Clone, Copy, PartialEq, Eq, Structural)]
pub enum DataType {
    /// 64-bit signed integer
    Integer,
    /// character string
    Text,
}

/// A scalar value as stored in a row.
#[derive(Debug)]
pub enum Value {
    Integer(i64),
    Text(String),
    Null,
}

/// The mathematical meaning of a `Value`.
pub enum ValueView {
    Integer(int),
    Text(Seq<char>),
    Null,
}

impl View for Value {
    type V = ValueView;

    open spec fn view(&self) -> ValueView {
        match self {
            Value::Integer(i) => ValueView::Integer(*i as int),
            Value::Text(s) => ValueView::Text(s@),
            Value::Null => ValueView::Null,
        }
    }
}

impl Clone for Value {
    fn clone(&self) -> (r: Self)
        ensures
            r == *self,
    {
        match self {
            Value::Integer(i) => Value::Integer(*i),
            Value::Text(s) => Value::Text(s.clone()),
            Value::Null => Value::Null,
        }
    }
}

impl PartialEq for Value {
    fn eq(&self, other: &Value) -> (r: bool)
        ensures
            r == (self@ == other@),
    {
        match (self, other) {
            (Value::Integer(a), Value::Integer(b)) => *a == *b,
            (Value::Text(a), Value::Text(b)) => a.eq(b),
            (Value::Null, Value::Null) => true,
            _ => false,
        }
    }
}

impl vstd::std_specs::cmp::PartialEqSpecImpl for Value {
    open spec fn obeys_eq_spec() -> bool {
        true
    }

    open spec fn eq_spec(&self, other: &Value) -> bool {
        self@ == other@
    }
}

/// Comparison operators of a filter condition.
#[derive(Debug, Clone, Copy, PartialEq, Eq, Structural)]
pub enum Operator {
    Eq,
    NotEq,
    Gt,
    Lt,
    GtEq,
    LtEq,
}

/// Whether `op` holds between two integers.
pub open spec fn int_op_holds(op: Operator, a: int, b: int) -> bool {
    match op {
        Operator::Eq => a == b,
        Operator::NotEq => a != b,
        Operator::Gt => a > b,
        Operator::Lt => a < b,
        Operator::GtEq => a >= b,
        Operator::LtEq => a <= b,
    }
}

/// The result of comparing two values: `None` when the comparison is an error.
pub open spec fn compare_spec(a: ValueView, op: Operator, b: ValueView) -> Option<bool> {
    if a is Null || b is Null {
        Some(false)
    } else {
        match (a, b) {
            (ValueView::Integer(x), ValueView::Integer(y)) => Some(int_op_holds(op, x, y)),
            (ValueView::Text(s), ValueView::Text(t)) => Some(int_op_holds(op, lex_cmp(s, t), 0)),
            (ValueView::Integer(x), ValueView::Text(t)) => match parse_int(t) {
                Some(y) => Some(int_op_holds(op, x, y)),
                None => None,
            },
            (ValueView::Text(s), ValueView::Integer(y)) => match parse_int(s) {
                Some(x) => Some(int_op_holds(op, x, y)),
                None => None,
            },
            _ => Some(false),
        }
    }
}

/// What `as_type` yields: `None` when the conversion is an error.
pub open spec fn convert_spec(v: ValueView, t: DataType) -> Option<ValueView> {
    match (v, t) {
        (ValueView::Text(s), DataType::Integer) => match parse_int(s) {
            Some(n) => Some(ValueView::Integer(n)),
            None => None,
        },
        (ValueView::Integer(n), DataType::Text) => Some(ValueView::Text(decimal(n))),
        _ => Some(v),
    }
}

fn int_op_exec(op: &Operator, a: i64, b: i64) -> (r: bool)
    ensures
        r == int_op_holds(*op, a as int, b as int),
{
    match op {
        Operator::Eq => a == b,
        Operator::NotEq => a != b,
        Operator::Gt => a > b,
        Operator::Lt => a < b,
        Operator::GtEq => a >= b,
        Operator::LtEq => a <= b,
    }
}

impl Value {
    /// Whether the value is NULL.
    pub fn is_null(&self) -> (r: bool)
        ensures
            r == (*self is Null),
    {
        matches!(self, Value::Null)
    }

    /// Converts the value to the given type: text to integer when the text is an integer
    /// literal, integer to text by its decimal form; NULL and values already of the type
    /// stay as they are.
    pub fn as_type(&self, data_type: &DataType) -> (r: Result<Value, TypeError>)
        ensures
            match r {
                Ok(v) => convert_spec(self@, *data_type) == Some(v@),
                Err(e) => convert_spec(self@, *data_type) is None && (e matches TypeError::ConversionError(
                    m,
                ) && self@ matches ValueView::Text(t) && m@ == "Cannot convert '"@ + t
                    + "' to INTEGER"@),
            },
    {
        match (self, data_type) {
            (Value::Text(s), DataType::Integer) => match parse_integer(s.as_str()) {
                Some(i) => Ok(Value::Integer(i)),
                None => {
                    let mut msg = "Cannot convert '".to_owned();
                    msg.append(s.as_str());
                    msg.append("' to INTEGER");
                    Err(TypeError::ConversionError(msg))
                },
            },
            (Value::Integer(i), DataType::Text) => Ok(Value::Text(format_integer(*i))),
            _ => Ok(self.clone()),
        }
    }

    /// Compares two values with `op`. NULL on either side gives `false`; a text beside an
    /// integer is read as an integer, and is an error when it is not one.
    pub fn compare(&self, op: &Operator, other: &Value) -> (r: Result<bool, TypeError>)
        ensures
            match r {
                Ok(b) => compare_spec(self@, *op, other@) == Some(b),
                Err(e) => compare_spec(self@, *op, other@) is None && (e matches TypeError::ComparisonError(
                    m,
                ) && m@ == comparison_failure(self@, other@)),
            },
    {
        match (self, other) {
            (Value::Null, _) => Ok(false),
            (_, Value::Null) => Ok(false),
            (Value::Integer(a), Value::Integer(b)) => Ok(int_op_exec(op, *a, *b)),
            (Value::Text(a), Value::Text(b)) => Ok(int_op_exec(op, compare_text(a, b) as i64, 0)),
            (Value::Integer(a), Value::Text(b)) => match parse_integer(b.as_str()) {
                Some(bi) => Ok(int_op_exec(op, *a, bi)),
                None => {
                    let mut msg = "Cannot compare INTEGER with TEXT: ".to_owned();
                    msg.append(format_integer(*a).as_str());
                    msg.append(" and '");
                    msg.append(b.as_str());
                    msg.append("'");
                    Err(TypeError::ComparisonError(msg))
                },
            },
            (Value::Text(a), Value::Integer(b)) => match parse_integer(a.as_str()) {
                Some(ai) => Ok(int_op_exec(op, ai, *b)),
                None => {
                    let mut msg = "Cannot compare TEXT with INTEGER: '".to_owned();
                    msg.append(a.as_str());
                    msg.append("' and ");
                    msg.append(format_integer(*b).as_str());
                    Err(TypeError::ComparisonError(msg))
                },
            },
        }
    }
}

/// The message of a comparison between an integer and a text that is no integer.
pub open spec fn comparison_failure(a: ValueView, b: ValueView) -> Seq<char> {
    match (a, b) {
        (ValueView::Integer(x), ValueView::Text(t)) => "Cannot compare INTEGER with TEXT: "@
            + decimal(x) + " and '"@ + t + "'"@,
        (ValueView::Text(t), ValueView::Integer(y)) => "Cannot compare TEXT with INTEGER: '"@ + t
            + "' and "@ + decimal(y),
        _ => Seq::empty(),
    }
}

/// A column of a table: its name, type and whether it admits NULL.
#[derive(Debug)]
pub struct Column {
    pub name: String,
    pub data_type: DataType,
    pub nullable: bool,
}

pub struct ColumnView {
    pub name: Seq<char>,
    pub data_type: DataType,
    pub nullable: bool,
}

impl View for Column {
    type V = ColumnView;

    open spec fn view(&self) -> ColumnView {
        ColumnView { name: self.name@, data_type: self.data_type, nullable: self.nullable }
    }
}

impl Clone for Column {
    fn clone(&self) -> (r: Self)
        ensures
            r == *self,
    {
        Column { name: self.name.clone(), data_type: self.data_type, nullable: self.nullable }
    }
}

/// Whether a column admits a value: NULL where the column is nullable, otherwise a value
/// of the column's type.
pub open spec fn accepts(c: ColumnView, v: ValueView) -> bool {
    match v {
        ValueView::Null => c.nullable,
        ValueView::Integer(_) => c.data_type == DataType::Integer,
        ValueView::Text(_) => c.data_type == DataType::Text,
    }
}

/// Whether a row fits a schema: one value per column, each admitted by its column.
pub open spec fn accepts_row(cols: Seq<ColumnView>, vals: Seq<ValueView>) -> bool {
    &&& vals.len() == cols.len()
    &&& forall|i: int| 0 <= i < cols.len() ==> accepts(cols[i], #[trigger] vals[i])
}

/// The first position at or after `i` of a column named `name`.
pub open spec fn position_from(cols: Seq<ColumnView>, name: Seq<char>, i: nat) -> Option<int>
    decreases cols.len() - i,
{
    if i >= cols.len() {
        None
    } else if cols[i as int].name == name {
        Some(i as int)
    } else {
        position_from(cols, name, i + 1)
    }
}

/// The position of the first column named `name`.
pub open spec fn column_position(cols: Seq<ColumnView>, name: Seq<char>) -> Option<int> {
    position_from(cols, name, 0)
}

proof fn lemma_position_from(cols: Seq<ColumnView>, name: Seq<char>, i: nat)
    ensures
        match position_from(cols, name, i) {
            Some(k) => i <= k < cols.len() && cols[k].name == name && forall|j: int|
                i <= j < k ==> #[trigger] cols[j].name != name,
            None => forall|j: int| i <= j < cols.len() ==> #[trigger] cols[j].name != name,
        },
    decreases cols.len() - i,
{
    if i < cols.len() && cols[i as int].name != name {
        lemma_position_from(cols, name, i + 1);
    }
}

/// `column_position` names the first column of that name, or none when there is none.
pub proof fn lemma_column_position(cols: Seq<ColumnView>, name: Seq<char>)
    ensures
        match column_position(cols, name) {
            Some(k) => 0 <= k < cols.len() && cols[k].name == name && forall|j: int|
                0 <= j < k ==> #[trigger] cols[j].name != name,
            None => forall|j: int| 0 <= j < cols.len() ==> #[trigger] cols[j].name != name,
        },
{
    lemma_position_from(cols, name, 0);
}

impl Column {
    pub fn new(name: String, data_type: DataType, nullable: bool) -> (r: Self)
        ensures
            r.name == name,
            r.data_type == data_type,
            r.nullable == nullable,
    {
        Column { name, data_type, nullable }
    }

    /// Checks that the column admits the value.
    pub fn validate_value(&self, value: &Value) -> (r: Result<(), TypeError>)
        ensures
            r is Ok <==> accepts(self@, value@),
            match value_rejection(self@, value@) {
                None => r is Ok,
                Some(m) => r matches Err(TypeError::InvalidValue(n, msg)) && n@ == self.name@
                    && msg@ == m,
            },
    {
        if value.is_null() && !self.nullable {
            return Err(
                TypeError::InvalidValue(
                    self.name.clone(),
                    "NULL value not allowed for non-nullable column".to_owned(),
                ),
            );
        }
        match (&self.data_type, value) {
            (_, Value::Null) => Ok(()),
            (DataType::Integer, Value::Integer(_)) => Ok(()),
            (DataType::Text, Value::Text(_)) => Ok(()),
            _ => {
                let mut msg = "Value ".to_owned();
                msg.append(value.display().as_str());
                msg.append(" does not match column type ");
                msg.append(self.data_type.name().as_str());
                Err(TypeError::InvalidValue(self.name.clone(), msg))
            },
        }
    }
}

/// Why a column rejects a value, or `None` when it admits it.
pub open spec fn value_rejection(c: ColumnView, v: ValueView) -> Option<Seq<char>> {
    if accepts(c, v) {
        None
    } else if v is Null {
        Some("NULL value not allowed for non-nullable column"@)
    } else {
        Some("Value "@ + value_text(v) + " does not match column type "@ + sql_type_name(c.data_type))
    }
}

/// The first position at or after `i` whose column rejects its value.
pub open spec fn first_rejected_from(cols: Seq<ColumnView>, vals: Seq<ValueView>, i: nat) -> Option<
    int,
>
    decreases cols.len() - i,
{
    if i >= cols.len() {
        None
    } else if !accepts(cols[i as int], vals[i as int]) {
        Some(i as int)
    } else {
        first_rejected_from(cols, vals, i + 1)
    }
}

/// Why a schema rejects a row, as the tag and message of its `InvalidValue` error: the
/// counts when the row has the wrong number of values, else the first column that rejects
/// its value. `None` when the row fits.
pub open spec fn row_rejection(cols: Seq<ColumnView>, vals: Seq<ValueView>) -> Option<
    (Seq<char>, Seq<char>),
> {
    if vals.len() != cols.len() {
        Some(
            (
                "row"@,
                "Expected "@ + nat_digits(cols.len()) + " values, got "@ + nat_digits(vals.len()),
            ),
        )
    } else {
        match first_rejected_from(cols, vals, 0) {
            Some(k) => Some((cols[k].name, value_rejection(cols[k], vals[k])->0)),
            None => None,
        }
    }
}

proof fn lemma_first_rejected_from(cols: Seq<ColumnView>, vals: Seq<ValueView>, i: nat)
    ensures
        match first_rejected_from(cols, vals, i) {
            Some(k) => i <= k < cols.len() && !accepts(cols[k], vals[k]) && forall|j: int|
                i <= j < k ==> accepts(cols[j], #[trigger] vals[j]),
            None => forall|j: int| i <= j < cols.len() ==> accepts(cols[j], #[trigger] vals[j]),
        },
    decreases cols.len() - i,
{
    if i < cols.len() && accepts(cols[i as int], vals[i as int]) {
        lemma_first_rejected_from(cols, vals, i + 1);
    }
}

/// A row is rejected exactly when it does not fit the schema.
pub proof fn lemma_row_rejection(cols: Seq<ColumnView>, vals: Seq<ValueView>)
    ensures
        row_rejection(cols, vals) is None <==> accepts_row(cols, vals),
{
    lemma_first_rejected_from(cols, vals, 0);
}

/// The name of a data type as written in SQL.
pub open spec fn sql_type_name(t: DataType) -> Seq<char> {
    match t {
        DataType::Integer => seq!['I', 'N', 'T', 'E', 'G', 'E', 'R'],
        DataType::Text => seq!['T', 'E', 'X', 'T'],
    }
}

impl DataType {
    /// The name of the type as written in SQL.
    pub fn name(&self) -> (r: String)
        ensures
            r@ == sql_type_name(*self),
    {
        match self {
            DataType::Integer => string_from_chars(&['I', 'N', 'T', 'E', 'G', 'E', 'R']),
            DataType::Text => string_from_chars(&['T', 'E', 'X', 'T']),
        }
    }
}

/// How a value is shown: an integer in decimal, a text between single quotes, NULL as `NULL`.
pub open spec fn value_text(v: ValueView) -> Seq<char> {
    match v {
        ValueView::Integer(n) => decimal(n),
        ValueView::Text(s) => seq!['\''] + s + seq!['\''],
        ValueView::Null => seq!['N', 'U', 'L', 'L'],
    }
}

impl Value {
    /// The value as it is shown in a result table.
    pub fn display(&self) -> (r: String)
        ensures
            r@ == value_text(self@),
    {
        match self {
            Value::Integer(i) => format_integer(*i),
            Value::Text(s) => {
                let mut r = String::new();
                r.push('\'');
                r.append(s.as_str());
                r.push('\'');
                r
            },
            Value::Null => string_from_chars(&['N', 'U', 'L', 'L']),
        }
    }
}

pub open spec fn columns_view(cols: Seq<Column>) -> Seq<ColumnView> {
    cols.map_values(|c: Column| c@)
}

pub open spec fn values_view(vals: Seq<Value>) -> Seq<ValueView> {
    vals.map_values(|v: Value| v@)
}

/// The ordered columns of a table.
#[derive(Debug)]
pub struct Schema {
    pub columns: Vec<Column>,
}

impl View for Schema {
    type V = Seq<ColumnView>;

    open spec fn view(&self) -> Seq<ColumnView> {
        columns_view(self.columns@)
    }
}

impl Clone for Schema {
    fn clone(&self) -> (r: Self)
        ensures
            r.columns@ == self.columns@,
    {
        let mut columns: Vec<Column> = Vec::new();
        let mut i: usize = 0;
        while i < self.columns.len()
            invariant
                i <= self.columns@.len(),
                columns@ == self.columns@.subrange(0, i as int),
            decreases self.columns@.len() - i,
        {
            columns.push(self.columns[i].clone());
            i = i + 1;
            assert(columns@ == self.columns@.subrange(0, i as int));
        }
        assert(columns@ == self.columns@);
        Schema { columns }
    }
}

impl Schema {
    pub fn new(columns: Vec<Column>) -> (r: Self)
        ensures
            r.columns == columns,
    {
        Schema { columns }
    }

    /// The first column of that name.
    pub fn get_column(&self, name: &str) -> (r: Option<&Column>)
        ensures
            match column_position(self@, name@) {
                Some(i) => r == Some(&self.columns@[i]),
                None => r is None,
            },
    {
        proof {
            lemma_column_position(self@, name@);
        }
        let n = self.columns.len();
        assert(self@.len() == n);
        match self.get_column_index(name) {
            Some(i) => Some(&self.columns[i]),
            None => None,
        }
    }

    /// The position of the first column of that name.
    pub fn get_column_index(&self, name: &str) -> (r: Option<usize>)
        ensures
            match column_position(self@, name@) {
                Some(i) => r == Some(i as usize),
                None => r is None,
            },
    {
        let mut i: usize = 0;
        while i < self.columns.len()
            invariant
                i <= self.columns@.len(),
                column_position(self@, name@) == position_from(self@, name@, i as nat),
            decreases self.columns@.len() - i,
        {
            let same = self.columns[i].name.as_str().eq(name);
            if same {
                return Some(i);
            }
            i = i + 1;
        }
        None
    }

    /// Checks that a row has one value per column and that each column admits its value.
    pub fn validate_row(&self, row: &Row) -> (r: Result<(), TypeError>)
        ensures
            r is Ok <==> accepts_row(self@, row@),
            match row_rejection(self@, row@) {
                None => r is Ok,
                Some((t, m)) => r matches Err(TypeError::InvalidValue(a, b)) && a@ == t && b@ == m,
            },
    {
        proof {
            lemma_row_rejection(self@, row@);
            lemma_first_rejected_from(self@, row@, 0);
        }
        if row.values.len() != self.columns.len() {
            let mut msg = "Expected ".to_owned();
            msg.append(format_count(self.columns.len()).as_str());
            msg.append(" values, got ");
            msg.append(format_count(row.values.len()).as_str());
            return Err(TypeError::InvalidValue("row".to_owned(), msg));
        }
        let mut i: usize = 0;
        while i < row.values.len()
            invariant
                i <= row.values@.len(),
                row.values@.len() == self.columns@.len(),
                forall|j: int| 0 <= j < i ==> accepts(self@[j], #[trigger] row@[j]),
                first_rejected_from(self@, row@, 0) == first_rejected_from(self@, row@, i as nat),
            decreases row.values@.len() - i,
        {
            assert(self@[i as int] == self.columns@[i as int]@);
            assert(row@[i as int] == row.values@[i as int]@);
            match self.columns[i].validate_value(&row.values[i]) {
                Ok(()) => {},
                Err(e) => {
                    return Err(e);
                },
            }
            i = i + 1;
        }
        Ok(())
    }
}

/// The values of one row, one per column of its schema.
#[derive(Debug)]
pub struct Row {
    pub values: Vec<Value>,
}

impl View for Row {
    type V = Seq<ValueView>;

    open spec fn view(&self) -> Seq<ValueView> {
        values_view(self.values@)
    }
}

impl Clone for Row {
    fn clone(&self) -> (r: Self)
        ensures
            r.values@ == self.values@,
    {
        Row { values: copy_values(&self.values) }
    }
}

impl Row {
    pub fn new(values: Vec<Value>) -> (r: Self)
        ensures
            r.values == values,
    {
        Row { values }
    }

    /// The value at a position, if the row has one there.
    pub fn get_value(&self, index: usize) -> (r: Option<&Value>)
        ensures
            index < self.values@.len() ==> r == Some(&self.values@[index as int]),
            index >= self.values@.len() ==> r is None,
    {
        if index < self.values.len() {
            Some(&self.values[index])
        } else {
            None
        }
    }
}

/// A copy of a list of values.
pub fn copy_values(v: &Vec<Value>) -> (r: Vec<Value>)
    ensures
        r@ == v@,
{
    let mut values: Vec<Value> = Vec::new();
    let mut i: usize = 0;
    while i < v.len()
        invariant
            i <= v@.len(),
            values@ == v@.subrange(0, i as int),
        decreases v@.len() - i,
    {
        values.push(v[i].clone());
        i = i + 1;
        assert(values@ == v@.subrange(0, i as int));
    }
    assert(values@ == v@);
    values
}

impl TypeError {
    /// The message that the error carries.
    pub fn into_message(self) -> (r: String)
        ensures
            r == match self {
                TypeError::ConversionError(m) => m,
                TypeError::UnsupportedType(m) => m,
                TypeError::InvalidValue(_, m) => m,
                TypeError::ComparisonError(m) => m,
            },
    {
        match self {
            TypeError::ConversionError(m) => m,
            TypeError::UnsupportedType(m) => m,
            TypeError::InvalidValue(_, m) => m,
            TypeError::ComparisonError(m) => m,
        }
    }
}

pub open spec fn rows_view(rows: Seq<Row>) -> Seq<Seq<ValueView>> {
    rows.map_values(|r: Row| r@)
}

/// The outcome of a statement: a schema and the rows under it.
#[derive(Debug, Clone)]
pub struct ResultSet {
    pub schema: Schema,
    pub rows: Vec<Row>,
}

impl ResultSet {
    pub fn new(schema: Schema, rows: Vec<Row>) -> (r: Self)
        ensures
            r.schema == schema,
            r.rows == rows,
    {
        ResultSet { schema, rows }
    }

    /// A result with the given schema and no rows.
    pub fn empty(schema: Schema) -> (r: Self)
        ensures
            r.schema == schema,
            r.rows@.len() == 0,
    {
        ResultSet { schema, rows: Vec::new() }
    }

    pub fn row_count(&self) -> (r: usize)
        ensures
            r == self.rows@.len(),
    {
        self.rows.len()
    }

    pub fn is_empty(&self) -> (r: bool)
        ensures
            r == (self.rows@.len() == 0),
    {
        self.rows.len() == 0
    }

    /// The column names, then each row's values as they are shown.
    pub fn to_vec(&self) -> (r: Vec<Vec<String>>)
        ensures
            r@.len() == self.rows@.len() + 1,
            r@[0]@.len() == self.schema.columns@.len(),
            forall|j: int|
                0 <= j < self.schema.columns@.len() ==> #[trigger] r@[0]@[j]@
                    == self.schema.columns@[j].name@,
            forall|i: int|
                0 <= i < self.rows@.len() ==> #[trigger] r@[i + 1]@.len()
                    == self.rows@[i].values@.len(),
            forall|i: int, j: int|
                0 <= i < self.rows@.len() && 0 <= j < self.rows@[i].values@.len()
                    ==> #[trigger] r@[i + 1]@[j]@ == value_text(self.rows@[i].values@[j]@),
    {
        let mut result: Vec<Vec<String>> = Vec::new();
        let mut headers: Vec<String> = Vec::new();
        let mut j: usize = 0;
        while j < self.schema.columns.len()
            invariant
                j <= self.schema.columns@.len(),
                headers@.len() == j,
                forall|k: int| 0 <= k < j ==> #[trigger] headers@[k]@ == self.schema.columns@[k].name@,
            decreases self.schema.columns@.len() - j,
        {
            headers.push(self.schema.columns[j].name.clone());
            j = j + 1;
        }
        result.push(headers);
        let mut i: usize = 0;
        while i < self.rows.len()
            invariant
                i <= self.rows@.len(),
                result@.len() == i + 1,
                result@[0]@.len() == self.schema.columns@.len(),
                forall|k: int|
                    0 <= k < self.schema.columns@.len() ==> #[trigger] result@[0]@[k]@
                        == self.schema.columns@[k].name@,
                forall|a: int|
                    0 <= a < i ==> #[trigger] result@[a + 1]@.len() == self.rows@[a].values@.len(),
                forall|a: int, b: int|
                    0 <= a < i && 0 <= b < self.rows@[a].values@.len() ==> #[trigger] result@[a
                        + 1]@[b]@ == value_text(self.rows@[a].values@[b]@),
            decreases self.rows@.len() - i,
        {
            let row = &self.rows[i];
            let mut texts: Vec<String> = Vec::new();
            let mut k: usize = 0;
            while k < row.values.len()
                invariant
                    k <= row.values@.len(),
                    texts@.len() == k,
                    forall|b: int| 0 <= b < k ==> #[trigger] texts@[b]@ == value_text(row.values@[b]@),
                decreases row.values@.len() - k,
            {
                texts.push(row.values[k].display());
                k = k + 1;
            }
            result.push(texts);
            i = i + 1;
        }
        result
    }
}

/// The type that an upper-case type name stands for.
pub open spec fn type_named(u: Seq<char>) -> Option<DataType> {
    if u == seq!['I', 'N', 'T', 'E', 'G', 'E', 'R'] || u == seq!['I', 'N', 'T'] {
        Some(DataType::Integer)
    } else if u == seq!['T', 'E', 'X', 'T'] || u == seq!['V', 'A', 'R', 'C', 'H', 'A', 'R'] || u
        == seq!['S', 'T', 'R', 'I', 'N', 'G'] || u == seq!['C', 'H', 'A', 'R'] {
        Some(DataType::Text)
    } else {
        None
    }
}

/// The type that an upper-case type name stands for.
pub fn type_from_upper(u: &str) -> (r: Option<DataType>)
    ensures
        r == type_named(u@),
{
    if is_word(u, &['I', 'N', 'T', 'E', 'G', 'E', 'R']) || is_word(u, &['I', 'N', 'T']) {
        Some(DataType::Integer)
    } else if is_word(u, &['T', 'E', 'X', 'T']) || is_word(u, &['V', 'A', 'R', 'C', 'H', 'A', 'R'])
        || is_word(u, &['S', 'T', 'R', 'I', 'N', 'G']) || is_word(u, &['C', 'H', 'A', 'R']) {
        Some(DataType::Text)
    } else {
        None
    }
}

impl DataType {
    /// The type that a type name stands for, in any case.
    pub fn from_name(s: &str) -> (r: Result<DataType, TypeError>)
        ensures
            match type_named(upper_of(s@)) {
                Some(t) => r matches Ok(x) && x == t,
                None => r matches Err(TypeError::UnsupportedType(n)) && n@ == s@,
            },
    {
        let u = uppercase(s);
        match type_from_upper(u.as_str()) {
            Some(t) => Ok(t),
            None => Err(TypeError::UnsupportedType(s.to_owned())),
        }
    }
}

impl core::str::FromStr for DataType {
    type Err = TypeError;

    fn from_str(s: &str) -> Result<DataType, TypeError> {
        DataType::from_name(s)
    }
}

/// The column that a definition such as `id INTEGER` or `name TEXT NULL` describes, once
/// its second and third words are in upper case: a name, a type (`INTEGER` or `TEXT`), and
/// `NULL` for a nullable column.
pub open spec fn column_from_parts(
    name: Seq<char>,
    upper_type: Seq<char>,
    upper_flag: Option<Seq<char>>,
) -> Option<ColumnView> {
    let data_type = if upper_type == seq!['I', 'N', 'T', 'E', 'G', 'E', 'R'] {
        Some(DataType::Integer)
    } else if upper_type == seq!['T', 'E', 'X', 'T'] {
        Some(DataType::Text)
    } else {
        None
    };
    match data_type {
        None => None,
        Some(dt) => Some(
            ColumnView {
                name,
                data_type: dt,
                nullable: upper_flag == Some(seq!['N', 'U', 'L', 'L']),
            },
        ),
    }
}

/// The column that the words of a definition describe.
pub open spec fn column_from_words(ws: Seq<Seq<char>>) -> Option<ColumnView> {
    if ws.len() < 2 {
        None
    } else {
        column_from_parts(
            ws[0],
            upper_of(ws[1]),
            if ws.len() > 2 {
                Some(upper_of(ws[2]))
            } else {
                None
            },
        )
    }
}

/// The column named `name` whose upper-case type word and optional upper-case flag word
/// are given.
pub fn schema_column(name: String, upper_type: &str, upper_flag: Option<&str>) -> (r: Option<
    Column,
>)
    ensures
        match column_from_parts(
            name@,
            upper_type@,
            match upper_flag {
                Some(f) => Some(f@),
                None => None,
            },
        ) {
            Some(c) => r matches Some(col) && col@ == c,
            None => r is None,
        },
{
    let data_type = if is_word(upper_type, &['I', 'N', 'T', 'E', 'G', 'E', 'R']) {
        DataType::Integer
    } else if is_word(upper_type, &['T', 'E', 'X', 'T']) {
        DataType::Text
    } else {
        return None;
    };
    let nullable = match upper_flag {
        Some(f) => is_word(f, &['N', 'U', 'L', 'L']),
        None => false,
    };
    Some(Column::new(name, data_type, nullable))
}

/// Builds a schema from column definitions such as `id INTEGER` and `name TEXT NULL`.
pub fn create_schema_from_strs(column_defs: Vec<&str>) -> (r: Result<Schema, TypeError>)
    ensures
        match r {
            Ok(schema) => schema@.len() == column_defs@.len() && forall|i: int|
                0 <= i < column_defs@.len() ==> column_from_words(
                    words_from(#[trigger] column_defs@[i]@, 0),
                ) == Some(schema@[i]),
            Err(_) => exists|i: int|
                0 <= i < column_defs@.len() && column_from_words(
                    words_from(#[trigger] column_defs@[i]@, 0),
                ) is None,
        },
{
    let mut columns: Vec<Column> = Vec::new();
    let mut i: usize = 0;
    while i < column_defs.len()
        invariant
            i <= column_defs@.len(),
            columns@.len() == i,
            forall|k: int|
                0 <= k < i ==> column_from_words(words_from(#[trigger] column_defs@[k]@, 0))
                    == Some(columns@[k]@),
        decreases column_defs@.len() - i,
    {
        let def = column_defs[i];
        let cs = chars_of(def);
        let parts = split_words(&cs, 0);
        let ghost ws = parts@.map_values(|w: String| w@);
        assert(ws == words_from(def@, 0));
        if parts.len() < 2 {
            let mut msg = "Invalid column definition: ".to_owned();
            msg.append(def);
            return Err(TypeError::InvalidValue("column".to_owned(), msg));
        }
        assert(ws[0] == parts@[0]@);
        assert(ws[1] == parts@[1]@);
        let upper_type = uppercase(parts[1].as_str());
        let column = if parts.len() > 2 {
            assert(ws[2] == parts@[2]@);
            let upper_flag = uppercase(parts[2].as_str());
            schema_column(parts[0].clone(), upper_type.as_str(), Some(upper_flag.as_str()))
        } else {
            schema_column(parts[0].clone(), upper_type.as_str(), None)
        };
        match column {
            Some(c) => {
                columns.push(c);
            },
            None => {
                return Err(TypeError::UnsupportedType(parts[1].clone()));
            },
        }
        i = i + 1;
    }
    let schema = Schema::new(columns);
    assert forall|k: int| 0 <= k < column_defs@.len() implies column_from_words(
        words_from(#[trigger] column_defs@[k]@, 0),
    ) == Some(schema@[k]) by {
        assert(schema@[k] == columns@[k]@);
    }
    Ok(schema)
}

} // verus!
