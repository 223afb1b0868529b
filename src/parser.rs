use crate::text::{
    all_digits, chars_of, digits_value, fits_i64, is_digit_char, is_white, parse_integer,
    string_from_chars, white_char,
};
use crate::types::{values_view, ColumnView, DataType, Value, ValueView};
use vstd::prelude::*;

verus! {

/// Errors raised while reading a statement.
#[derive(Debug)]
pub enum ParseError {
    SyntaxError(String),
    UnsupportedFeature(String),
    InvalidToken(String),
}

/// A parsed statement.
#[derive(Debug, Clone)]
pub enum Statement {
    CreateTable(CreateTableStatement),
    Insert(InsertStatement),
    Select(SelectStatement),
}

/// `CREATE TABLE name (column_def, ...)`
#[derive(Debug, Clone)]
pub struct CreateTableStatement {
    pub table_name: String,
    pub columns: Vec<ColumnDef>,
}

/// One column of a `CREATE TABLE`.
#[derive(Debug, Clone)]
pub struct ColumnDef {
    pub name: String,
    pub data_type: DataType,
    pub nullable: bool,
}

/// `INSERT INTO name [(column, ...)] VALUES (value, ...), ...`
#[derive(Debug, Clone)]
pub struct InsertStatement {
    pub table_name: String,
    pub columns: Option<Vec<String>>,
    pub values: Vec<Vec<Value>>,
}

/// `SELECT * | column, ... FROM name [WHERE condition]`
#[derive(Debug, Clone)]
pub struct SelectStatement {
    pub columns: Vec<String>,
    pub table_name: String,
    pub where_clause: Option<WhereClause>,
}

/// The conditions of a `WHERE`; the grammar gives exactly one.
#[derive(Debug, Clone)]
pub struct WhereClause {
    pub conditions: Vec<Condition>,
}

/// `column operator value`
#[derive(Debug, Clone)]
pub struct Condition {
    pub column: String,
    pub operator: Operator,
    pub value: Value,
}

/// The comparison operators as written in a statement.
#[derive(Debug, Clone, Copy, PartialEq, Eq, Structural)]
pub enum Operator {
    Equals,
    NotEquals,
    GreaterThan,
    LessThan,
    GreaterThanOrEqual,
    LessThanOrEqual,
}

/// The value operator that a written operator stands for.
pub open spec fn value_op(op: Operator) -> crate::types::Operator {
    match op {
        Operator::Equals => crate::types::Operator::Eq,
        Operator::NotEquals => crate::types::Operator::NotEq,
        Operator::GreaterThan => crate::types::Operator::Gt,
        Operator::LessThan => crate::types::Operator::Lt,
        Operator::GreaterThanOrEqual => crate::types::Operator::GtEq,
        Operator::LessThanOrEqual => crate::types::Operator::LtEq,
    }
}

impl Operator {
    /// The value operator that this operator stands for.
    pub fn to_value_op(&self) -> (r: crate::types::Operator)
        ensures
            r == value_op(*self),
    {
        match self {
            Operator::Equals => crate::types::Operator::Eq,
            Operator::NotEquals => crate::types::Operator::NotEq,
            Operator::GreaterThan => crate::types::Operator::Gt,
            Operator::LessThan => crate::types::Operator::Lt,
            Operator::GreaterThanOrEqual => crate::types::Operator::GtEq,
            Operator::LessThanOrEqual => crate::types::Operator::LtEq,
        }
    }
}

pub struct ConditionView {
    pub column: Seq<char>,
    pub op: crate::types::Operator,
    pub value: ValueView,
}

impl View for Condition {
    type V = ConditionView;

    open spec fn view(&self) -> ConditionView {
        ConditionView { column: self.column@, op: value_op(self.operator), value: self.value@ }
    }
}

impl View for ColumnDef {
    type V = ColumnView;

    open spec fn view(&self) -> ColumnView {
        ColumnView { name: self.name@, data_type: self.data_type, nullable: self.nullable }
    }
}

pub open spec fn strings_view(v: Seq<String>) -> Seq<Seq<char>> {
    v.map_values(|s: String| s@)
}

pub open spec fn tuples_view(v: Seq<Vec<Value>>) -> Seq<Seq<ValueView>> {
    v.map_values(|t: Vec<Value>| values_view(t@))
}

pub open spec fn conditions_view(v: Seq<Condition>) -> Seq<ConditionView> {
    v.map_values(|c: Condition| c@)
}

pub open spec fn defs_view(v: Seq<ColumnDef>) -> Seq<ColumnView> {
    v.map_values(|c: ColumnDef| c@)
}

/// A statement as mathematical values.
pub enum StatementView {
    CreateTable { table: Seq<char>, columns: Seq<ColumnView> },
    Insert {
        table: Seq<char>,
        columns: Option<Seq<Seq<char>>>,
        values: Seq<Seq<ValueView>>,
    },
    Select {
        columns: Seq<Seq<char>>,
        table: Seq<char>,
        conditions: Option<Seq<ConditionView>>,
    },
}

impl View for Statement {
    type V = StatementView;

    open spec fn view(&self) -> StatementView {
        match self {
            Statement::CreateTable(c) => StatementView::CreateTable {
                table: c.table_name@,
                columns: defs_view(c.columns@),
            },
            Statement::Insert(i) => StatementView::Insert {
                table: i.table_name@,
                columns: match i.columns {
                    Some(v) => Some(strings_view(v@)),
                    None => None,
                },
                values: tuples_view(i.values@),
            },
            Statement::Select(s) => StatementView::Select {
                columns: strings_view(s.columns@),
                table: s.table_name@,
                conditions: match s.where_clause {
                    Some(w) => Some(conditions_view(w.conditions@)),
                    None => None,
                },
            },
        }
    }
}

/// The whitespace that separates tokens: space, tab, carriage return, line feed.
pub open spec fn is_ws(c: char) -> bool {
    c == ' ' || c == '\t' || c == '\r' || c == '\n'
}

pub open spec fn is_alpha(c: char) -> bool {
    ('a' <= c && c <= 'z') || ('A' <= c && c <= 'Z')
}

pub open spec fn is_ident_start(c: char) -> bool {
    is_alpha(c) || c == '_'
}

pub open spec fn is_ident_char(c: char) -> bool {
    is_alpha(c) || is_digit_char(c) || c == '_'
}

/// The end of the run of whitespace that starts at `i`.
pub open spec fn ws_end(s: Seq<char>, i: int) -> int
    decreases s.len() - i,
{
    if 0 <= i < s.len() && is_ws(s[i]) {
        ws_end(s, i + 1)
    } else {
        i
    }
}

/// At least one whitespace character at `i`, and the end of the run.
pub open spec fn ws1(s: Seq<char>, i: int) -> Option<int> {
    if 0 <= i < s.len() && is_ws(s[i]) {
        Some(ws_end(s, i))
    } else {
        None
    }
}

/// The end of the run of identifier characters that starts at `i`.
pub open spec fn ident_end(s: Seq<char>, i: int) -> int
    decreases s.len() - i,
{
    if 0 <= i < s.len() && is_ident_char(s[i]) {
        ident_end(s, i + 1)
    } else {
        i
    }
}

/// The end of the run of digits that starts at `i`.
pub open spec fn digits_end(s: Seq<char>, i: int) -> int
    decreases s.len() - i,
{
    if 0 <= i < s.len() && is_digit_char(s[i]) {
        digits_end(s, i + 1)
    } else {
        i
    }
}

/// The first `'` at or after `i`.
pub open spec fn quote_end(s: Seq<char>, i: int) -> Option<int>
    decreases s.len() - i,
{
    if i < 0 || i >= s.len() {
        None
    } else if s[i] == '\'' {
        Some(i)
    } else {
        quote_end(s, i + 1)
    }
}

/// Whether the word, given in upper and in lower case, stands at `j`, in either case
/// letter by letter.
pub open spec fn word_at(s: Seq<char>, j: int, up: Seq<char>, low: Seq<char>) -> bool {
    &&& 0 <= j
    &&& j + up.len() <= s.len()
    &&& forall|k: int|
        0 <= k < up.len() ==> #[trigger] s[j + k] == up[k] || s[j + k] == low[k]
}

/// A keyword after optional whitespace: the position after it.
pub open spec fn keyword_end(s: Seq<char>, i: int, up: Seq<char>, low: Seq<char>) -> Option<int> {
    let j = ws_end(s, i);
    if word_at(s, j, up, low) {
        Some(j + up.len())
    } else {
        None
    }
}

/// An identifier `[A-Za-z_][A-Za-z0-9_]*` at `i`.
pub open spec fn identifier(s: Seq<char>, i: int) -> Option<(Seq<char>, int)> {
    if 0 <= i < s.len() && is_ident_start(s[i]) {
        let e = ident_end(s, i + 1);
        Some((s.subrange(i, e), e))
    } else {
        None
    }
}

/// A single character `c` after optional whitespace, and optional whitespace after it.
pub open spec fn punct(s: Seq<char>, i: int, c: char) -> Option<int> {
    let j = ws_end(s, i);
    if 0 <= j < s.len() && s[j] == c {
        Some(ws_end(s, j + 1))
    } else {
        None
    }
}

/// A closing parenthesis after optional whitespace.
pub open spec fn close_paren(s: Seq<char>, i: int) -> Option<int> {
    let j = ws_end(s, i);
    if 0 <= j < s.len() && s[j] == ')' {
        Some(j + 1)
    } else {
        None
    }
}

/// Identifiers separated by commas, at least one.
pub open spec fn identifiers(s: Seq<char>, i: int) -> Option<(Seq<Seq<char>>, int)>
    decreases s.len() - i,
{
    match identifier(s, i) {
        None => None,
        Some((x, j)) => match punct(s, j, ',') {
            None => Some((seq![x], j)),
            Some(k) => if i < k <= s.len() {
                match identifiers(s, k) {
                    Some((rest, e)) => Some((seq![x] + rest, e)),
                    None => Some((seq![x], j)),
                }
            } else {
                Some((seq![x], j))
            },
        },
    }
}

/// A type name after optional whitespace.
pub open spec fn data_type_at(s: Seq<char>, i: int) -> Option<(DataType, int)> {
    let j = ws_end(s, i);
    if word_at(s, j, seq!['I', 'N', 'T', 'E', 'G', 'E', 'R'], seq!['i', 'n', 't', 'e', 'g', 'e', 'r']) {
        Some((DataType::Integer, j + 7))
    } else if word_at(s, j, seq!['I', 'N', 'T'], seq!['i', 'n', 't']) {
        Some((DataType::Integer, j + 3))
    } else if word_at(s, j, seq!['T', 'E', 'X', 'T'], seq!['t', 'e', 'x', 't']) {
        Some((DataType::Text, j + 4))
    } else if word_at(
        s,
        j,
        seq!['V', 'A', 'R', 'C', 'H', 'A', 'R'],
        seq!['v', 'a', 'r', 'c', 'h', 'a', 'r'],
    ) {
        Some((DataType::Text, j + 7))
    } else if word_at(s, j, seq!['S', 'T', 'R', 'I', 'N', 'G'], seq!['s', 't', 'r', 'i', 'n', 'g']) {
        Some((DataType::Text, j + 6))
    } else {
        None
    }
}

pub open spec fn null_upper() -> Seq<char> {
    seq!['N', 'U', 'L', 'L']
}

pub open spec fn null_lower() -> Seq<char> {
    seq!['n', 'u', 'l', 'l']
}

/// A column definition: name, type, and an optional `NULL` after whitespace.
pub open spec fn column_def_at(s: Seq<char>, i: int) -> Option<(ColumnView, int)> {
    match identifier(s, ws_end(s, i)) {
        None => None,
        Some((name, j)) => match data_type_at(s, ws_end(s, j)) {
            None => None,
            Some((t, k)) => match ws1(s, k) {
                Some(m) => if word_at(s, m, null_upper(), null_lower()) {
                    Some((ColumnView { name, data_type: t, nullable: true }, m + 4))
                } else {
                    Some((ColumnView { name, data_type: t, nullable: false }, k))
                },
                None => Some((ColumnView { name, data_type: t, nullable: false }, k)),
            },
        },
    }
}

/// Column definitions separated by commas, at least one.
pub open spec fn column_defs(s: Seq<char>, i: int) -> Option<(Seq<ColumnView>, int)>
    decreases s.len() - i,
{
    match column_def_at(s, i) {
        None => None,
        Some((x, j)) => match punct(s, j, ',') {
            None => Some((seq![x], j)),
            Some(k) => if i < k <= s.len() {
                match column_defs(s, k) {
                    Some((rest, e)) => Some((seq![x] + rest, e)),
                    None => Some((seq![x], j)),
                }
            } else {
                Some((seq![x], j))
            },
        },
    }
}

/// A literal after optional whitespace: a quoted text, a run of digits that fits in 64
/// bits, or `NULL`.
pub open spec fn value_at(s: Seq<char>, i: int) -> Option<(ValueView, int)> {
    let j = ws_end(s, i);
    if 0 <= j < s.len() && s[j] == '\'' {
        match quote_end(s, j + 1) {
            Some(q) => Some((ValueView::Text(s.subrange(j + 1, q)), q + 1)),
            None => None,
        }
    } else if 0 <= j < s.len() && is_digit_char(s[j]) && fits_i64(
        digits_value(s.subrange(j, digits_end(s, j))),
    ) {
        let e = digits_end(s, j);
        Some((ValueView::Integer(digits_value(s.subrange(j, e))), e))
    } else if word_at(s, j, null_upper(), null_lower()) {
        Some((ValueView::Null, j + 4))
    } else {
        None
    }
}

/// Literals separated by commas, at least one.
pub open spec fn value_items(s: Seq<char>, i: int) -> Option<(Seq<ValueView>, int)>
    decreases s.len() - i,
{
    match value_at(s, i) {
        None => None,
        Some((x, j)) => match punct(s, j, ',') {
            None => Some((seq![x], j)),
            Some(k) => if i < k <= s.len() {
                match value_items(s, k) {
                    Some((rest, e)) => Some((seq![x] + rest, e)),
                    None => Some((seq![x], j)),
                }
            } else {
                Some((seq![x], j))
            },
        },
    }
}

/// `( value, ... )`
pub open spec fn value_list_at(s: Seq<char>, i: int) -> Option<(Seq<ValueView>, int)> {
    match punct(s, i, '(') {
        None => None,
        Some(j) => match value_items(s, j) {
            None => None,
            Some((vs, k)) => match close_paren(s, k) {
                None => None,
                Some(e) => Some((vs, e)),
            },
        },
    }
}

/// Value lists separated by commas, at least one.
pub open spec fn value_lists(s: Seq<char>, i: int) -> Option<(Seq<Seq<ValueView>>, int)>
    decreases s.len() - i,
{
    match value_list_at(s, i) {
        None => None,
        Some((x, j)) => match punct(s, j, ',') {
            None => Some((seq![x], j)),
            Some(k) => if i < k <= s.len() {
                match value_lists(s, k) {
                    Some((rest, e)) => Some((seq![x] + rest, e)),
                    None => Some((seq![x], j)),
                }
            } else {
                Some((seq![x], j))
            },
        },
    }
}

/// `CREATE TABLE name ( column_def, ... )`
pub open spec fn create_at(s: Seq<char>, i: int) -> Option<(StatementView, int)> {
    match keyword_end(s, i, seq!['C', 'R', 'E', 'A', 'T', 'E'], seq!['c', 'r', 'e', 'a', 't', 'e']) {
        None => None,
        Some(a) => match ws1(s, a) {
            None => None,
            Some(b) => match keyword_end(
                s,
                b,
                seq!['T', 'A', 'B', 'L', 'E'],
                seq!['t', 'a', 'b', 'l', 'e'],
            ) {
                None => None,
                Some(c) => match ws1(s, c) {
                    None => None,
                    Some(d) => match identifier(s, d) {
                        None => None,
                        Some((name, e)) => match punct(s, e, '(') {
                            None => None,
                            Some(f) => match column_defs(s, f) {
                                None => None,
                                Some((cols, g)) => match close_paren(s, g) {
                                    None => None,
                                    Some(h) => Some(
                                        (StatementView::CreateTable { table: name, columns: cols }, h),
                                    ),
                                },
                            },
                        },
                    },
                },
            },
        },
    }
}

/// `( column, ... )`
pub open spec fn column_list_at(s: Seq<char>, i: int) -> Option<(Seq<Seq<char>>, int)> {
    match punct(s, i, '(') {
        None => None,
        Some(j) => match identifiers(s, j) {
            None => None,
            Some((names, k)) => match close_paren(s, k) {
                None => None,
                Some(e) => Some((names, e)),
            },
        },
    }
}

/// `VALUES (value, ...), ...`
pub open spec fn values_clause_at(s: Seq<char>, i: int) -> Option<(Seq<Seq<ValueView>>, int)> {
    match keyword_end(s, i, seq!['V', 'A', 'L', 'U', 'E', 'S'], seq!['v', 'a', 'l', 'u', 'e', 's']) {
        None => None,
        Some(a) => value_lists(s, a),
    }
}

/// `INSERT INTO name [( column, ... )] VALUES ...`
pub open spec fn insert_at(s: Seq<char>, i: int) -> Option<(StatementView, int)> {
    match keyword_end(s, i, seq!['I', 'N', 'S', 'E', 'R', 'T'], seq!['i', 'n', 's', 'e', 'r', 't']) {
        None => None,
        Some(a) => match ws1(s, a) {
            None => None,
            Some(b) => match keyword_end(s, b, seq!['I', 'N', 'T', 'O'], seq!['i', 'n', 't', 'o']) {
                None => None,
                Some(c) => match ws1(s, c) {
                    None => None,
                    Some(d) => match identifier(s, d) {
                        None => None,
                        Some((table, e)) => {
                            let (columns, f) = match column_list_at(s, e) {
                                Some((names, f)) => (Some(names), f),
                                None => (None, e),
                            };
                            match values_clause_at(s, ws_end(s, f)) {
                                None => None,
                                Some((values, g)) => Some(
                                    (StatementView::Insert { table, columns, values }, g),
                                ),
                            }
                        },
                    },
                },
            },
        },
    }
}

/// A comparison operator after optional whitespace.
pub open spec fn operator_at(s: Seq<char>, i: int) -> Option<(Operator, int)> {
    let j = ws_end(s, i);
    let c0 = if 0 <= j < s.len() {
        s[j]
    } else {
        ' '
    };
    let c1 = if 0 <= j + 1 < s.len() {
        s[j + 1]
    } else {
        ' '
    };
    if !(0 <= j < s.len()) {
        None
    } else if c0 == '=' {
        Some((Operator::Equals, j + 1))
    } else if c0 == '<' && c1 == '>' && j + 1 < s.len() {
        Some((Operator::NotEquals, j + 2))
    } else if c0 == '!' && c1 == '=' && j + 1 < s.len() {
        Some((Operator::NotEquals, j + 2))
    } else if c0 == '>' && c1 == '=' && j + 1 < s.len() {
        Some((Operator::GreaterThanOrEqual, j + 2))
    } else if c0 == '<' && c1 == '=' && j + 1 < s.len() {
        Some((Operator::LessThanOrEqual, j + 2))
    } else if c0 == '>' {
        Some((Operator::GreaterThan, j + 1))
    } else if c0 == '<' {
        Some((Operator::LessThan, j + 1))
    } else {
        None
    }
}

/// `column operator value`
pub open spec fn condition_at(s: Seq<char>, i: int) -> Option<(ConditionView, int)> {
    match identifier(s, ws_end(s, i)) {
        None => None,
        Some((column, j)) => match operator_at(s, j) {
            None => None,
            Some((op, k)) => match value_at(s, k) {
                None => None,
                Some((value, e)) => Some(
                    (ConditionView { column, op: value_op(op), value }, e),
                ),
            },
        },
    }
}

/// `WHERE condition`
pub open spec fn where_at(s: Seq<char>, i: int) -> Option<(ConditionView, int)> {
    match keyword_end(s, i, seq!['W', 'H', 'E', 'R', 'E'], seq!['w', 'h', 'e', 'r', 'e']) {
        None => None,
        Some(a) => match ws1(s, a) {
            None => None,
            Some(b) => condition_at(s, b),
        },
    }
}

/// `SELECT * | column, ... FROM name [WHERE condition]`
pub open spec fn select_at(s: Seq<char>, i: int) -> Option<(StatementView, int)> {
    match keyword_end(s, i, seq!['S', 'E', 'L', 'E', 'C', 'T'], seq!['s', 'e', 'l', 'e', 'c', 't']) {
        None => None,
        Some(a) => {
            let b = ws_end(s, a);
            let projection = if 0 <= b < s.len() && s[b] == '*' {
                Some((seq![seq!['*']], b + 1))
            } else if b > a {
                identifiers(s, b)
            } else {
                None
            };
            match projection {
                None => None,
                Some((columns, c)) => match keyword_end(
                    s,
                    c,
                    seq!['F', 'R', 'O', 'M'],
                    seq!['f', 'r', 'o', 'm'],
                ) {
                    None => None,
                    Some(e) => match ws1(s, e) {
                        None => None,
                        Some(f) => match identifier(s, f) {
                            None => None,
                            Some((table, g)) => {
                                let h = ws_end(s, g);
                                match where_at(s, h) {
                                    Some((cond, k)) => Some(
                                        (
                                            StatementView::Select {
                                                columns,
                                                table,
                                                conditions: Some(seq![cond]),
                                            },
                                            k,
                                        ),
                                    ),
                                    None => Some(
                                        (
                                            StatementView::Select {
                                                columns,
                                                table,
                                                conditions: None,
                                            },
                                            h,
                                        ),
                                    ),
                                }
                            },
                        },
                    },
                },
            }
        },
    }
}

/// A statement after optional whitespace, and the position after it.
pub open spec fn statement_at(s: Seq<char>) -> Option<(StatementView, int)> {
    let i = ws_end(s, 0);
    match create_at(s, i) {
        Some(r) => Some(r),
        None => match insert_at(s, i) {
            Some(r) => Some(r),
            None => select_at(s, i),
        },
    }
}

/// Whether everything from `i` on is whitespace.
pub open spec fn blank_from(s: Seq<char>, i: int) -> bool {
    forall|k: int| i <= k < s.len() ==> is_white(#[trigger] s[k])
}

/// The statement that the text holds: one statement, with nothing after it but whitespace.
pub open spec fn sql_statement(s: Seq<char>) -> Option<StatementView> {
    match statement_at(s) {
        Some((stmt, e)) => if blank_from(s, e) {
            Some(stmt)
        } else {
            None
        },
        None => None,
    }
}

fn ws_char(c: char) -> (r: bool)
    ensures
        r == is_ws(c),
{
    c == ' ' || c == '\t' || c == '\r' || c == '\n'
}

fn digit_char_exec(c: char) -> (r: bool)
    ensures
        r == is_digit_char(c),
{
    '0' <= c && c <= '9'
}

fn ident_start_char(c: char) -> (r: bool)
    ensures
        r == is_ident_start(c),
{
    ('a' <= c && c <= 'z') || ('A' <= c && c <= 'Z') || c == '_'
}

fn ident_char(c: char) -> (r: bool)
    ensures
        r == is_ident_char(c),
{
    ('a' <= c && c <= 'z') || ('A' <= c && c <= 'Z') || ('0' <= c && c <= '9') || c == '_'
}

/// The characters from `a` to `b` as a string.
fn substring(s: &Vec<char>, a: usize, b: usize) -> (r: String)
    requires
        a <= b <= s@.len(),
    ensures
        r@ == s@.subrange(a as int, b as int),
{
    let mut r = String::new();
    let mut k: usize = a;
    while k < b
        invariant
            a <= k <= b,
            b <= s@.len(),
            r@ == s@.subrange(a as int, k as int),
        decreases b - k,
    {
        r.push(s[k]);
        k = k + 1;
        assert(r@ =~= s@.subrange(a as int, k as int));
    }
    r
}

/// Skips whitespace.
fn parse_whitespace(s: &Vec<char>, i: usize) -> (r: usize)
    requires
        i <= s@.len(),
    ensures
        r == ws_end(s@, i as int),
        i <= r <= s@.len(),
{
    let mut j = i;
    while j < s.len() && ws_char(s[j])
        invariant
            i <= j <= s@.len(),
            ws_end(s@, i as int) == ws_end(s@, j as int),
        decreases s@.len() - j,
    {
        j = j + 1;
    }
    j
}

/// At least one whitespace character.
fn parse_whitespace1(s: &Vec<char>, i: usize) -> (r: Option<usize>)
    requires
        i <= s@.len(),
    ensures
        r matches Some(k) ==> k <= s@.len(),
        match r {
            Some(k) => ws1(s@, i as int) == Some(k as int),
            None => ws1(s@, i as int) is None,
        },
{
    if i < s.len() && ws_char(s[i]) {
        Some(parse_whitespace(s, i))
    } else {
        None
    }
}

/// Whether the word stands at `j`, in either case letter by letter.
fn word_matches(s: &Vec<char>, j: usize, up: &[char], low: &[char]) -> (r: bool)
    requires
        up@.len() == low@.len(),
    ensures
        r == word_at(s@, j as int, up@, low@),
        r ==> j + up@.len() <= s@.len() <= usize::MAX,
{
    let n = s.len();
    if up.len() > n || j > n - up.len() {
        return false;
    }
    let mut k: usize = 0;
    while k < up.len()
        invariant
            n == s@.len(),
            k <= up@.len(),
            up@.len() == low@.len(),
            j + up@.len() <= s@.len(),
            forall|m: int| 0 <= m < k ==> #[trigger] s@[j + m] == up@[m] || s@[j + m] == low@[m],
        decreases up@.len() - k,
    {
        let c = s[j + k];
        if !(c == up[k] || c == low[k]) {
            assert(!(s@[j + k as int] == up@[k as int] || s@[j + k as int] == low@[k as int]));
            return false;
        }
        k = k + 1;
    }
    true
}

/// A keyword after optional whitespace.
fn keyword(s: &Vec<char>, i: usize, up: &[char], low: &[char]) -> (r: Option<usize>)
    requires
        i <= s@.len(),
        up@.len() == low@.len(),
    ensures
        r matches Some(k) ==> k <= s@.len(),
        match r {
            Some(k) => keyword_end(s@, i as int, up@, low@) == Some(k as int),
            None => keyword_end(s@, i as int, up@, low@) is None,
        },
{
    let j = parse_whitespace(s, i);
    let n = s.len();
    if word_matches(s, j, up, low) {
        Some(j + up.len())
    } else {
        None
    }
}

/// An identifier.
fn parse_identifier(s: &Vec<char>, i: usize) -> (r: Option<(String, usize)>)
    requires
        i <= s@.len(),
    ensures
        match identifier(s@, i as int) {
            Some((x, e)) => r matches Some((v, f)) && v@ == x && f == e && i < f <= s@.len(),
            None => r is None,
        },
{
    if i < s.len() && ident_start_char(s[i]) {
        let mut e = i + 1;
        while e < s.len() && ident_char(s[e])
            invariant
                i < e <= s@.len(),
                ident_end(s@, i as int + 1) == ident_end(s@, e as int),
            decreases s@.len() - e,
        {
            e = e + 1;
        }
        Some((substring(s, i, e), e))
    } else {
        None
    }
}

/// A character after optional whitespace, then optional whitespace.
fn parse_punct(s: &Vec<char>, i: usize, c: char) -> (r: Option<usize>)
    requires
        i <= s@.len(),
    ensures
        r matches Some(k) ==> k <= s@.len(),
        match r {
            Some(k) => punct(s@, i as int, c) == Some(k as int),
            None => punct(s@, i as int, c) is None,
        },
{
    let j = parse_whitespace(s, i);
    if j < s.len() && s[j] == c {
        Some(parse_whitespace(s, j + 1))
    } else {
        None
    }
}

/// A closing parenthesis after optional whitespace.
fn parse_close(s: &Vec<char>, i: usize) -> (r: Option<usize>)
    requires
        i <= s@.len(),
    ensures
        r matches Some(k) ==> k <= s@.len(),
        match r {
            Some(k) => close_paren(s@, i as int) == Some(k as int),
            None => close_paren(s@, i as int) is None,
        },
{
    let j = parse_whitespace(s, i);
    if j < s.len() && s[j] == ')' {
        Some(j + 1)
    } else {
        None
    }
}

/// Identifiers separated by commas.
fn parse_identifiers(s: &Vec<char>, i: usize) -> (r: Option<(Vec<String>, usize)>)
    requires
        i <= s@.len(),
    ensures
        match identifiers(s@, i as int) {
            Some((xs, e)) => r matches Some((v, f)) && strings_view(v@) == xs && f == e && f
                <= s@.len(),
            None => r is None,
        },
    decreases s@.len() - i,
{
    match parse_identifier(s, i) {
        None => None,
        Some((x, j)) => {
            let ghost xv = x@;
            let mut v: Vec<String> = Vec::new();
            v.push(x);
            assert(strings_view(v@) =~= seq![xv]);
            match parse_punct(s, j, ',') {
                Some(k) => {
                    if i < k && k <= s.len() {
                        match parse_identifiers(s, k) {
                            Some((rest, e)) => {
                                let mut rest = rest;
                                let ghost rv = rest@;
                                v.append(&mut rest);
                                assert(strings_view(v@) =~= seq![xv] + strings_view(rv));
                                Some((v, e))
                            },
                            None => Some((v, j)),
                        }
                    } else {
                        Some((v, j))
                    }
                },
                None => Some((v, j)),
            }
        },
    }
}

/// A type name after optional whitespace.
fn parse_data_type(s: &Vec<char>, i: usize) -> (r: Option<(DataType, usize)>)
    requires
        i <= s@.len(),
    ensures
        match r {
            Some((t, f)) => data_type_at(s@, i as int) == Some((t, f as int)) && f <= s@.len(),
            None => data_type_at(s@, i as int) is None,
        },
{
    let j = parse_whitespace(s, i);
    if word_matches(s, j, &['I', 'N', 'T', 'E', 'G', 'E', 'R'], &['i', 'n', 't', 'e', 'g', 'e', 'r']) {
        Some((DataType::Integer, j + 7))
    } else if word_matches(s, j, &['I', 'N', 'T'], &['i', 'n', 't']) {
        Some((DataType::Integer, j + 3))
    } else if word_matches(s, j, &['T', 'E', 'X', 'T'], &['t', 'e', 'x', 't']) {
        Some((DataType::Text, j + 4))
    } else if word_matches(
        s,
        j,
        &['V', 'A', 'R', 'C', 'H', 'A', 'R'],
        &['v', 'a', 'r', 'c', 'h', 'a', 'r'],
    ) {
        Some((DataType::Text, j + 7))
    } else if word_matches(s, j, &['S', 'T', 'R', 'I', 'N', 'G'], &['s', 't', 'r', 'i', 'n', 'g']) {
        Some((DataType::Text, j + 6))
    } else {
        None
    }
}

/// A column definition.
fn parse_column_def(s: &Vec<char>, i: usize) -> (r: Option<(ColumnDef, usize)>)
    requires
        i <= s@.len(),
    ensures
        match r {
            Some((d, f)) => column_def_at(s@, i as int) == Some((d@, f as int)) && f <= s@.len(),
            None => column_def_at(s@, i as int) is None,
        },
{
    let a = parse_whitespace(s, i);
    let (name, j) = match parse_identifier(s, a) {
        Some(x) => x,
        None => {
            return None;
        },
    };
    let b = parse_whitespace(s, j);
    let (data_type, k) = match parse_data_type(s, b) {
        Some(x) => x,
        None => {
            return None;
        },
    };
    match parse_whitespace1(s, k) {
        Some(m) => {
            if word_matches(s, m, &['N', 'U', 'L', 'L'], &['n', 'u', 'l', 'l']) {
                Some((ColumnDef { name, data_type, nullable: true }, m + 4))
            } else {
                Some((ColumnDef { name, data_type, nullable: false }, k))
            }
        },
        None => Some((ColumnDef { name, data_type, nullable: false }, k)),
    }
}

/// Column definitions separated by commas.
fn parse_column_defs(s: &Vec<char>, i: usize) -> (r: Option<(Vec<ColumnDef>, usize)>)
    requires
        i <= s@.len(),
    ensures
        match r {
            Some((v, f)) => column_defs(s@, i as int) == Some((defs_view(v@), f as int)) && f
                <= s@.len(),
            None => column_defs(s@, i as int) is None,
        },
    decreases s@.len() - i,
{
    match parse_column_def(s, i) {
        None => None,
        Some((x, j)) => {
            let ghost xv = x@;
            let mut v: Vec<ColumnDef> = Vec::new();
            v.push(x);
            assert(defs_view(v@) =~= seq![xv]);
            match parse_punct(s, j, ',') {
                Some(k) => {
                    if i < k && k <= s.len() {
                        match parse_column_defs(s, k) {
                            Some((rest, e)) => {
                                let mut rest = rest;
                                let ghost rv = rest@;
                                v.append(&mut rest);
                                assert(defs_view(v@) =~= seq![xv] + defs_view(rv));
                                Some((v, e))
                            },
                            None => Some((v, j)),
                        }
                    } else {
                        Some((v, j))
                    }
                },
                None => Some((v, j)),
            }
        },
    }
}

/// A literal after optional whitespace.
fn parse_value(s: &Vec<char>, i: usize) -> (r: Option<(Value, usize)>)
    requires
        i <= s@.len(),
    ensures
        match r {
            Some((v, f)) => value_at(s@, i as int) == Some((v@, f as int)) && f <= s@.len(),
            None => value_at(s@, i as int) is None,
        },
{
    let j = parse_whitespace(s, i);
    if j < s.len() && s[j] == '\'' {
        let mut q = j + 1;
        while q < s.len() && s[q] != '\''
            invariant
                j < q <= s@.len(),
                quote_end(s@, j as int + 1) == quote_end(s@, q as int),
            decreases s@.len() - q,
        {
            q = q + 1;
        }
        if q < s.len() {
            Some((Value::Text(substring(s, j + 1, q)), q + 1))
        } else {
            None
        }
    } else if j < s.len() && digit_char_exec(s[j]) {
        let mut e = j + 1;
        while e < s.len() && digit_char_exec(s[e])
            invariant
                j < e <= s@.len(),
                digits_end(s@, j as int + 1) == digits_end(s@, e as int),
                forall|m: int| j <= m < e ==> is_digit_char(#[trigger] s@[m]),
            decreases s@.len() - e,
        {
            e = e + 1;
        }
        let text = substring(s, j, e);
        assert(all_digits(text@));
        assert(digits_end(s@, j as int) == e);
        assert(text@[0] == s@[j as int]);
        assert(word_at(s@, j as int, null_upper(), null_lower()) ==> s@[j + 0] == 'N' || s@[j + 0]
            == 'n');
        match parse_integer(text.as_str()) {
            Some(n) => Some((Value::Integer(n), e)),
            None => None,
        }
    } else if word_matches(s, j, &['N', 'U', 'L', 'L'], &['n', 'u', 'l', 'l']) {
        Some((Value::Null, j + 4))
    } else {
        None
    }
}

/// Literals separated by commas.
fn parse_value_items(s: &Vec<char>, i: usize) -> (r: Option<(Vec<Value>, usize)>)
    requires
        i <= s@.len(),
    ensures
        match r {
            Some((v, f)) => value_items(s@, i as int) == Some((values_view(v@), f as int)) && f
                <= s@.len(),
            None => value_items(s@, i as int) is None,
        },
    decreases s@.len() - i,
{
    match parse_value(s, i) {
        None => None,
        Some((x, j)) => {
            let ghost xv = x@;
            let mut v: Vec<Value> = Vec::new();
            v.push(x);
            assert(values_view(v@) =~= seq![xv]);
            match parse_punct(s, j, ',') {
                Some(k) => {
                    if i < k && k <= s.len() {
                        match parse_value_items(s, k) {
                            Some((rest, e)) => {
                                let mut rest = rest;
                                let ghost rv = rest@;
                                v.append(&mut rest);
                                assert(values_view(v@) =~= seq![xv] + values_view(rv));
                                Some((v, e))
                            },
                            None => Some((v, j)),
                        }
                    } else {
                        Some((v, j))
                    }
                },
                None => Some((v, j)),
            }
        },
    }
}

/// A parenthesized list of literals.
fn parse_value_list(s: &Vec<char>, i: usize) -> (r: Option<(Vec<Value>, usize)>)
    requires
        i <= s@.len(),
    ensures
        match r {
            Some((v, f)) => value_list_at(s@, i as int) == Some((values_view(v@), f as int)) && f
                <= s@.len(),
            None => value_list_at(s@, i as int) is None,
        },
{
    let j = match parse_punct(s, i, '(') {
        Some(j) => j,
        None => {
            return None;
        },
    };
    let (vs, k) = match parse_value_items(s, j) {
        Some(x) => x,
        None => {
            return None;
        },
    };
    match parse_close(s, k) {
        Some(e) => Some((vs, e)),
        None => None,
    }
}

/// Value lists separated by commas.
fn parse_value_lists(s: &Vec<char>, i: usize) -> (r: Option<(Vec<Vec<Value>>, usize)>)
    requires
        i <= s@.len(),
    ensures
        match r {
            Some((v, f)) => value_lists(s@, i as int) == Some((tuples_view(v@), f as int)) && f
                <= s@.len(),
            None => value_lists(s@, i as int) is None,
        },
    decreases s@.len() - i,
{
    match parse_value_list(s, i) {
        None => None,
        Some((x, j)) => {
            let ghost xv = values_view(x@);
            let mut v: Vec<Vec<Value>> = Vec::new();
            v.push(x);
            assert(tuples_view(v@) =~= seq![xv]);
            match parse_punct(s, j, ',') {
                Some(k) => {
                    if i < k && k <= s.len() {
                        match parse_value_lists(s, k) {
                            Some((rest, e)) => {
                                let mut rest = rest;
                                let ghost rv = rest@;
                                v.append(&mut rest);
                                assert(tuples_view(v@) =~= seq![xv] + tuples_view(rv));
                                Some((v, e))
                            },
                            None => Some((v, j)),
                        }
                    } else {
                        Some((v, j))
                    }
                },
                None => Some((v, j)),
            }
        },
    }
}

/// A CREATE TABLE statement.
fn parse_create_table(s: &Vec<char>, i: usize) -> (r: Option<(Statement, usize)>)
    requires
        i <= s@.len(),
    ensures
        match r {
            Some((st, f)) => create_at(s@, i as int) == Some((st@, f as int)) && f <= s@.len(),
            None => create_at(s@, i as int) is None,
        },
{
    let a = match keyword(s, i, &['C', 'R', 'E', 'A', 'T', 'E'], &['c', 'r', 'e', 'a', 't', 'e']) {
        Some(a) => a,
        None => {
            return None;
        },
    };
    let b = match parse_whitespace1(s, a) {
        Some(b) => b,
        None => {
            return None;
        },
    };
    let c = match keyword(s, b, &['T', 'A', 'B', 'L', 'E'], &['t', 'a', 'b', 'l', 'e']) {
        Some(c) => c,
        None => {
            return None;
        },
    };
    let d = match parse_whitespace1(s, c) {
        Some(d) => d,
        None => {
            return None;
        },
    };
    let (table_name, e) = match parse_identifier(s, d) {
        Some(x) => x,
        None => {
            return None;
        },
    };
    let f = match parse_punct(s, e, '(') {
        Some(f) => f,
        None => {
            return None;
        },
    };
    let (columns, g) = match parse_column_defs(s, f) {
        Some(x) => x,
        None => {
            return None;
        },
    };
    match parse_close(s, g) {
        Some(h) => Some((Statement::CreateTable(CreateTableStatement { table_name, columns }), h)),
        None => None,
    }
}

/// A parenthesized list of column names.
fn parse_column_list(s: &Vec<char>, i: usize) -> (r: Option<(Vec<String>, usize)>)
    requires
        i <= s@.len(),
    ensures
        match r {
            Some((v, f)) => column_list_at(s@, i as int) == Some((strings_view(v@), f as int))
                && f <= s@.len(),
            None => column_list_at(s@, i as int) is None,
        },
{
    let j = match parse_punct(s, i, '(') {
        Some(j) => j,
        None => {
            return None;
        },
    };
    let (names, k) = match parse_identifiers(s, j) {
        Some(x) => x,
        None => {
            return None;
        },
    };
    match parse_close(s, k) {
        Some(e) => Some((names, e)),
        None => None,
    }
}

/// `VALUES` and the value lists after it.
fn parse_values_clause(s: &Vec<char>, i: usize) -> (r: Option<(Vec<Vec<Value>>, usize)>)
    requires
        i <= s@.len(),
    ensures
        match r {
            Some((v, f)) => values_clause_at(s@, i as int) == Some((tuples_view(v@), f as int))
                && f <= s@.len(),
            None => values_clause_at(s@, i as int) is None,
        },
{
    let a = match keyword(s, i, &['V', 'A', 'L', 'U', 'E', 'S'], &['v', 'a', 'l', 'u', 'e', 's']) {
        Some(a) => a,
        None => {
            return None;
        },
    };
    parse_value_lists(s, a)
}

/// An INSERT statement.
fn parse_insert(s: &Vec<char>, i: usize) -> (r: Option<(Statement, usize)>)
    requires
        i <= s@.len(),
    ensures
        match r {
            Some((st, f)) => insert_at(s@, i as int) == Some((st@, f as int)) && f <= s@.len(),
            None => insert_at(s@, i as int) is None,
        },
{
    let a = match keyword(s, i, &['I', 'N', 'S', 'E', 'R', 'T'], &['i', 'n', 's', 'e', 'r', 't']) {
        Some(a) => a,
        None => {
            return None;
        },
    };
    let b = match parse_whitespace1(s, a) {
        Some(b) => b,
        None => {
            return None;
        },
    };
    let c = match keyword(s, b, &['I', 'N', 'T', 'O'], &['i', 'n', 't', 'o']) {
        Some(c) => c,
        None => {
            return None;
        },
    };
    let d = match parse_whitespace1(s, c) {
        Some(d) => d,
        None => {
            return None;
        },
    };
    let (table_name, e) = match parse_identifier(s, d) {
        Some(x) => x,
        None => {
            return None;
        },
    };
    let (columns, f) = match parse_column_list(s, e) {
        Some((names, f)) => (Some(names), f),
        None => (None, e),
    };
    let g = parse_whitespace(s, f);
    match parse_values_clause(s, g) {
        Some((values, h)) => Some(
            (Statement::Insert(InsertStatement { table_name, columns, values }), h),
        ),
        None => None,
    }
}

/// A comparison operator after optional whitespace.
fn parse_operator(s: &Vec<char>, i: usize) -> (r: Option<(Operator, usize)>)
    requires
        i <= s@.len(),
    ensures
        match r {
            Some((op, f)) => operator_at(s@, i as int) == Some((op, f as int)) && f <= s@.len(),
            None => operator_at(s@, i as int) is None,
        },
{
    let j = parse_whitespace(s, i);
    if j >= s.len() {
        return None;
    }
    let c0 = s[j];
    let two = j + 1 < s.len();
    let c1 = if two {
        s[j + 1]
    } else {
        ' '
    };
    if c0 == '=' {
        Some((Operator::Equals, j + 1))
    } else if c0 == '<' && c1 == '>' && two {
        Some((Operator::NotEquals, j + 2))
    } else if c0 == '!' && c1 == '=' && two {
        Some((Operator::NotEquals, j + 2))
    } else if c0 == '>' && c1 == '=' && two {
        Some((Operator::GreaterThanOrEqual, j + 2))
    } else if c0 == '<' && c1 == '=' && two {
        Some((Operator::LessThanOrEqual, j + 2))
    } else if c0 == '>' {
        Some((Operator::GreaterThan, j + 1))
    } else if c0 == '<' {
        Some((Operator::LessThan, j + 1))
    } else {
        None
    }
}

/// `column operator value`
fn parse_condition(s: &Vec<char>, i: usize) -> (r: Option<(Condition, usize)>)
    requires
        i <= s@.len(),
    ensures
        match r {
            Some((c, f)) => condition_at(s@, i as int) == Some((c@, f as int)) && f <= s@.len(),
            None => condition_at(s@, i as int) is None,
        },
{
    let a = parse_whitespace(s, i);
    let (column, j) = match parse_identifier(s, a) {
        Some(x) => x,
        None => {
            return None;
        },
    };
    let (operator, k) = match parse_operator(s, j) {
        Some(x) => x,
        None => {
            return None;
        },
    };
    match parse_value(s, k) {
        Some((value, e)) => Some((Condition { column, operator, value }, e)),
        None => None,
    }
}

/// `WHERE condition`
fn parse_where_clause(s: &Vec<char>, i: usize) -> (r: Option<(WhereClause, usize)>)
    requires
        i <= s@.len(),
    ensures
        match r {
            Some((w, f)) => where_at(s@, i as int) matches Some((c, e)) && conditions_view(
                w.conditions@,
            ) == seq![c] && e == f as int && f <= s@.len(),
            None => where_at(s@, i as int) is None,
        },
{
    let a = match keyword(s, i, &['W', 'H', 'E', 'R', 'E'], &['w', 'h', 'e', 'r', 'e']) {
        Some(a) => a,
        None => {
            return None;
        },
    };
    let b = match parse_whitespace1(s, a) {
        Some(b) => b,
        None => {
            return None;
        },
    };
    match parse_condition(s, b) {
        Some((condition, e)) => {
            let ghost cv = condition@;
            let mut conditions: Vec<Condition> = Vec::new();
            conditions.push(condition);
            assert(conditions_view(conditions@) =~= seq![cv]);
            Some((WhereClause { conditions }, e))
        },
        None => None,
    }
}

/// A SELECT statement.
fn parse_select(s: &Vec<char>, i: usize) -> (r: Option<(Statement, usize)>)
    requires
        i <= s@.len(),
    ensures
        match r {
            Some((st, f)) => select_at(s@, i as int) == Some((st@, f as int)) && f <= s@.len(),
            None => select_at(s@, i as int) is None,
        },
{
    let a = match keyword(s, i, &['S', 'E', 'L', 'E', 'C', 'T'], &['s', 'e', 'l', 'e', 'c', 't']) {
        Some(a) => a,
        None => {
            return None;
        },
    };
    let b = parse_whitespace(s, a);
    let (columns, c) = if b < s.len() && s[b] == '*' {
        let mut star: Vec<String> = Vec::new();
        let st = string_from_chars(&['*']);
        assert(st@ =~= seq!['*']);
        star.push(st);
        assert(strings_view(star@) =~= seq![seq!['*']]);
        (star, b + 1)
    } else if b > a {
        match parse_identifiers(s, b) {
            Some(x) => x,
            None => {
                return None;
            },
        }
    } else {
        return None;
    };
    let d = c;
    let e = match keyword(s, d, &['F', 'R', 'O', 'M'], &['f', 'r', 'o', 'm']) {
        Some(e) => e,
        None => {
            return None;
        },
    };
    let f = match parse_whitespace1(s, e) {
        Some(f) => f,
        None => {
            return None;
        },
    };
    let (table_name, g) = match parse_identifier(s, f) {
        Some(x) => x,
        None => {
            return None;
        },
    };
    let h = parse_whitespace(s, g);
    match parse_where_clause(s, h) {
        Some((w, k)) => Some(
            (Statement::Select(SelectStatement { columns, table_name, where_clause: Some(w) }), k),
        ),
        None => Some(
            (Statement::Select(SelectStatement { columns, table_name, where_clause: None }), h),
        ),
    }
}

/// A statement after optional whitespace.
fn parse_statement(s: &Vec<char>) -> (r: Option<(Statement, usize)>)
    ensures
        match r {
            Some((st, f)) => statement_at(s@) == Some((st@, f as int)) && f <= s@.len(),
            None => statement_at(s@) is None,
        },
{
    let i = parse_whitespace(s, 0);
    match parse_create_table(s, i) {
        Some(x) => {
            return Some(x);
        },
        None => {},
    }
    match parse_insert(s, i) {
        Some(x) => {
            return Some(x);
        },
        None => {},
    }
    parse_select(s, i)
}

/// Reads one statement. The whole text must be consumed, but for whitespace at its end.
#[verifier::loop_isolation(false)]
pub fn parse_sql(input: &str) -> (r: Result<Statement, ParseError>)
    ensures
        match sql_statement(input@) {
            Some(v) => r matches Ok(st) && st@ == v,
            None => r matches Err(e) && e is SyntaxError,
        },
        match statement_at(input@) {
            Some((_, e)) => !blank_from(input@, e) ==> (r matches Err(ParseError::SyntaxError(m))
                && m@ == "Unexpected trailing input: '"@ + input@.subrange(e, input@.len() as int)
                + "'"@),
            None => r matches Err(ParseError::SyntaxError(m)) && m@
                == "SQL parsing error: no statement matches '"@ + input@ + "'"@,
        },
{
    let s = chars_of(input);
    match parse_statement(&s) {
        None => {
            let mut msg = "SQL parsing error: no statement matches '".to_owned();
            msg.append(input);
            msg.append("'");
            Err(ParseError::SyntaxError(msg))
        },
        Some((stmt, e)) => {
            let mut k = e;
            while k < s.len()
                invariant
                    e <= k <= s@.len(),
                    forall|m: int| e <= m < k ==> is_white(#[trigger] s@[m]),
                decreases s@.len() - k,
            {
                if !white_char(s[k]) {
                    assert(!is_white(s@[k as int]));
                    assert(!blank_from(s@, e as int));
                    let mut msg = "Unexpected trailing input: '".to_owned();
                    msg.append(substring(&s, e, s.len()).as_str());
                    msg.append("'");
                    return Err(ParseError::SyntaxError(msg));
                }
                k = k + 1;
            }
            Ok(stmt)
        },
    }
}

} // verus!
