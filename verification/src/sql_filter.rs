//! Filters written as SQL WHERE clauses. The `sqlparser` crate parses the
//! clause; the parts of its syntax tree that a filter is made of are read
//! into [`SqlExpr`], and the conversion from there to a filter is verified.

use crate::errors::VectorDbError;
use crate::filtering::{ComparisonOperator, LogicalOperator};
use crate::text::concat;
use sqlparser::ast::{BinaryOperator, Expr, SetExpr, Statement, UnaryOperator, Value};
use sqlparser::dialect::GenericDialect;
use sqlparser::parser::Parser;
use vstd::prelude::*;

verus! {

#[verifier::external_type_specification]
#[verifier::external_body]
pub struct ExSqlParserExpr(Expr);

#[verifier::external_type_specification]
#[verifier::external_body]
pub struct ExSqlParserBinaryOperator(BinaryOperator);

#[verifier::external_type_specification]
#[verifier::external_body]
pub struct ExSqlParserValue(Value);

/// A binary operator of an SQL expression; `Other` holds the debug text of
/// one a filter has no use for.
#[derive(Debug)]
pub enum SqlBinaryOperator {
    Eq,
    NotEq,
    Lt,
    LtEq,
    Gt,
    GtEq,
    And,
    Or,
    Other(String),
}

/// A unary operator of an SQL expression; `Other` holds the debug text of
/// one other than NOT.
#[derive(Debug)]
pub enum SqlUnaryOperator {
    Not,
    Other(String),
}

/// A literal of an SQL expression: a quoted text, a number as written, a
/// boolean, NULL, or the debug text of another kind of literal.
#[derive(Debug)]
pub enum SqlLiteral {
    Text(String),
    Number(String),
    Boolean(bool),
    Null,
    Other(String),
}

/// The parts of an SQL expression that a filter is made of; anything else
/// is `Other`.
#[derive(Debug)]
pub enum SqlExpr {
    Binary { left: Box<SqlExpr>, op: SqlBinaryOperator, right: Box<SqlExpr> },
    Unary { op: SqlUnaryOperator, operand: Box<SqlExpr> },
    Identifier(String),
    Literal(SqlLiteral),
    Other,
}

/// What parsing a query gives: a parse error's text, a first statement that
/// is no query, a query whose body is no plain SELECT, a SELECT without
/// WHERE, or the WHERE condition.
#[derive(Debug)]
pub enum ParsedWhere {
    Failed(String),
    NotQuery,
    NotSelect,
    NoWhere,
    Condition(SqlExpr),
}

/// What `sqlparser` makes of the query `sql` under its generic dialect.
pub uninterp spec fn parsed_where(sql: Seq<char>) -> ParsedWhere;

/// Reads a binary operator of `sqlparser` (a conversion, variant by
/// variant; nothing is claimed of it).
#[verifier::external_body]
fn sql_binary_operator(op: &BinaryOperator) -> (r: SqlBinaryOperator) {
    match op {
        BinaryOperator::Eq => SqlBinaryOperator::Eq,
        BinaryOperator::NotEq => SqlBinaryOperator::NotEq,
        BinaryOperator::Lt => SqlBinaryOperator::Lt,
        BinaryOperator::LtEq => SqlBinaryOperator::LtEq,
        BinaryOperator::Gt => SqlBinaryOperator::Gt,
        BinaryOperator::GtEq => SqlBinaryOperator::GtEq,
        BinaryOperator::And => SqlBinaryOperator::And,
        BinaryOperator::Or => SqlBinaryOperator::Or,
        _ => SqlBinaryOperator::Other(format!("{:?}", op)),
    }
}

/// Reads a literal of `sqlparser` (a conversion, variant by variant;
/// nothing is claimed of it).
#[verifier::external_body]
fn sql_literal(v: &Value) -> (r: SqlLiteral) {
    match v {
        Value::SingleQuotedString(s) => SqlLiteral::Text(s.clone()),
        Value::DoubleQuotedString(s) => SqlLiteral::Text(s.clone()),
        Value::Number(n, _) => SqlLiteral::Number(n.clone()),
        Value::Boolean(b) => SqlLiteral::Boolean(*b),
        Value::Null => SqlLiteral::Null,
        _ => SqlLiteral::Other(format!("{:?}", v)),
    }
}

/// Reads an expression of `sqlparser`, node by node (a conversion; nothing
/// is claimed of it).
#[verifier::external_body]
fn sql_expr_of(e: &Expr) -> (r: SqlExpr) {
    match e {
        Expr::BinaryOp { left, op, right } => SqlExpr::Binary {
            left: Box::new(sql_expr_of(left)),
            op: sql_binary_operator(op),
            right: Box::new(sql_expr_of(right)),
        },
        Expr::UnaryOp { op: UnaryOperator::Not, expr } => SqlExpr::Unary { op: SqlUnaryOperator::Not, operand: Box::new(sql_expr_of(expr)) },
        Expr::UnaryOp { op, expr } => SqlExpr::Unary { op: SqlUnaryOperator::Other(format!("{:?}", op)), operand: Box::new(sql_expr_of(expr)) },
        Expr::Identifier(ident) => SqlExpr::Identifier(ident.value.clone()),
        Expr::Value(v) => SqlExpr::Literal(sql_literal(&v.value)),
        _ => SqlExpr::Other,
    }
}

/// Calls `Parser::parse_sql` of `sqlparser` with the generic dialect on
/// `sql` and reads the WHERE condition of its first statement, telling the
/// parser's variants apart. The result is named, not spelled out: it
/// depends on `sql` alone.
#[verifier::external_body]
fn parse_where(sql: &str) -> (r: ParsedWhere)
    ensures
        r == parsed_where(sql@),
{
    match Parser::parse_sql(&GenericDialect {}, sql) {
        Err(e) => ParsedWhere::Failed(e.to_string()),
        Ok(statements) => match statements.first() {
            Some(Statement::Query(query)) => match &*query.body {
                SetExpr::Select(select) => match &select.selection {
                    None => ParsedWhere::NoWhere,
                    Some(e) => ParsedWhere::Condition(sql_expr_of(e)),
                },
                _ => ParsedWhere::NotSelect,
            },
            _ => ParsedWhere::NotQuery,
        },
    }
}

/// A value of a filter written in SQL; a number stays as written, for the
/// caller to read.
#[derive(Debug)]
pub enum SqlValue {
    String(String),
    Number(String),
    Boolean(bool),
    Null,
}

/// A filter written in SQL: comparisons of a field with a value, joined by
/// AND, OR and NOT.
#[derive(Debug)]
pub enum SqlFilter {
    Comparison { field: String, operator: ComparisonOperator, value: SqlValue },
    Logical { operator: LogicalOperator, operands: Vec<SqlFilter> },
}

/// Whether `v` is the filter value of the literal `l`: a quoted text or
/// the text of another literal as a text, a number as written, a boolean,
/// NULL.
pub open spec fn value_of_literal(v: SqlValue, l: SqlLiteral) -> bool {
    match l {
        SqlLiteral::Text(s) => v matches SqlValue::String(t) && t@ == s@,
        SqlLiteral::Number(n) => v matches SqlValue::Number(t) && t@ == n@,
        SqlLiteral::Boolean(b) => v == SqlValue::Boolean(b),
        SqlLiteral::Null => v == SqlValue::Null,
        SqlLiteral::Other(d) => v matches SqlValue::String(t) && t@ == d@,
    }
}

/// The field and literal compared by `left` and `right`: an identifier and
/// a literal, in either order.
pub open spec fn field_and_literal(left: SqlExpr, right: SqlExpr) -> Option<(Seq<char>, SqlLiteral)> {
    match (left, right) {
        (SqlExpr::Identifier(f), SqlExpr::Literal(l)) => Some((f@, l)),
        (SqlExpr::Literal(l), SqlExpr::Identifier(f)) => Some((f@, l)),
        _ => None,
    }
}

/// The comparison an SQL operator stands for, if it stands for one.
pub open spec fn comparison_of(op: SqlBinaryOperator) -> Option<ComparisonOperator> {
    match op {
        SqlBinaryOperator::Eq => Some(ComparisonOperator::Equal),
        SqlBinaryOperator::NotEq => Some(ComparisonOperator::NotEqual),
        SqlBinaryOperator::Lt => Some(ComparisonOperator::LessThan),
        SqlBinaryOperator::LtEq => Some(ComparisonOperator::LessThanOrEqual),
        SqlBinaryOperator::Gt => Some(ComparisonOperator::GreaterThan),
        SqlBinaryOperator::GtEq => Some(ComparisonOperator::GreaterThanOrEqual),
        _ => None,
    }
}

/// The text of the error that converting `e` ends with, if it fails: the
/// first unsupported operator or comparison without a field and a value,
/// left before right.
pub open spec fn sql_error(e: SqlExpr) -> Option<Seq<char>>
    decreases e,
{
    match e {
        SqlExpr::Binary { left, op, right } => match op {
            SqlBinaryOperator::And | SqlBinaryOperator::Or => match sql_error(*left) {
                Some(m) => Some(m),
                None => sql_error(*right),
            },
            SqlBinaryOperator::Other(d) => Some("Unsupported SQL operator: "@ + d@),
            _ => if field_and_literal(*left, *right) is Some {
                None
            } else {
                Some("Unable to extract field and value from SQL expression"@)
            },
        },
        SqlExpr::Unary { op, operand } => match op {
            SqlUnaryOperator::Not => sql_error(*operand),
            SqlUnaryOperator::Other(d) => Some("Unsupported unary operator: "@ + d@),
        },
        _ => None,
    }
}

/// Whether `f` is the filter of `e`: a comparison for a comparing
/// operator, AND and OR of the two sides, NOT of the operand, and for any
/// other expression the equality of the field "id" with "unknown".
pub open spec fn sql_converts(e: SqlExpr, f: SqlFilter) -> bool
    decreases e,
{
    match e {
        SqlExpr::Binary { left, op, right } => match op {
            SqlBinaryOperator::And | SqlBinaryOperator::Or => f matches SqlFilter::Logical { operator, operands }
                && operator == (if op is And {
                LogicalOperator::And
            } else {
                LogicalOperator::Or
            }) && operands@.len() == 2 && sql_converts(*left, operands@[0]) && sql_converts(*right, operands@[1]),
            _ => match (comparison_of(op), field_and_literal(*left, *right)) {
                (Some(c), Some((name, lit))) => f matches SqlFilter::Comparison { field, operator, value } && field@
                    == name && operator == c && value_of_literal(value, lit),
                _ => false,
            },
        },
        SqlExpr::Unary { op, operand } => match op {
            SqlUnaryOperator::Not => f matches SqlFilter::Logical { operator, operands } && operator
                == LogicalOperator::Not && operands@.len() == 1 && sql_converts(*operand, operands@[0]),
            SqlUnaryOperator::Other(_) => false,
        },
        _ => f matches SqlFilter::Comparison { field, operator, value } && field@ == "id"@ && operator
            == ComparisonOperator::Equal && (value matches SqlValue::String(s) && s@ == "unknown"@),
    }
}

/// The filter value of the literal `l` (see [`value_of_literal`]).
fn sql_value(l: &SqlLiteral) -> (v: SqlValue)
    ensures
        value_of_literal(v, *l),
{
    match l {
        SqlLiteral::Text(s) => SqlValue::String(s.clone()),
        SqlLiteral::Number(n) => SqlValue::Number(n.clone()),
        SqlLiteral::Boolean(b) => SqlValue::Boolean(*b),
        SqlLiteral::Null => SqlValue::Null,
        SqlLiteral::Other(d) => SqlValue::String(d.clone()),
    }
}

/// The field and value that `left` and `right` compare: an identifier and
/// a literal, in either order; anything else is an error.
pub fn extract_field_value(left: &SqlExpr, right: &SqlExpr) -> (r: Result<(String, SqlValue), VectorDbError>)
    ensures
        match field_and_literal(*left, *right) {
            Some((name, lit)) => r matches Ok((f, v)) && f@ == name && value_of_literal(v, lit),
            None => r matches Err(VectorDbError::Other(t)) && t@ == "Unable to extract field and value from SQL expression"@,
        },
{
    match (left, right) {
        (SqlExpr::Identifier(f), SqlExpr::Literal(l)) => Ok((f.clone(), sql_value(l))),
        (SqlExpr::Literal(l), SqlExpr::Identifier(f)) => Ok((f.clone(), sql_value(l))),
        _ => Err(VectorDbError::Other(String::from_str("Unable to extract field and value from SQL expression"))),
    }
}

/// The comparison of an operator that [`comparison_of`] maps.
fn comparison_operator(op: &SqlBinaryOperator) -> (c: ComparisonOperator)
    requires
        comparison_of(*op) is Some,
    ensures
        comparison_of(*op) == Some(c),
{
    match op {
        SqlBinaryOperator::Eq => ComparisonOperator::Equal,
        SqlBinaryOperator::NotEq => ComparisonOperator::NotEqual,
        SqlBinaryOperator::Lt => ComparisonOperator::LessThan,
        SqlBinaryOperator::LtEq => ComparisonOperator::LessThanOrEqual,
        SqlBinaryOperator::Gt => ComparisonOperator::GreaterThan,
        _ => ComparisonOperator::GreaterThanOrEqual,
    }
}

/// Converts the SQL expression `expr` into a filter (see [`sql_converts`]),
/// or fails with the error of [`sql_error`].
pub fn convert_sql_expr_to_filter(expr: &SqlExpr) -> (r: Result<SqlFilter, VectorDbError>)
    ensures
        match sql_error(*expr) {
            Some(m) => r matches Err(VectorDbError::Other(t)) && t@ == m,
            None => r matches Ok(f) && sql_converts(*expr, f),
        },
    decreases expr,
{
    match expr {
        SqlExpr::Binary { left, op, right } => match op {
            SqlBinaryOperator::And | SqlBinaryOperator::Or => {
                let l = match convert_sql_expr_to_filter(left) {
                    Ok(f) => f,
                    Err(e) => return Err(e),
                };
                let r = match convert_sql_expr_to_filter(right) {
                    Ok(f) => f,
                    Err(e) => return Err(e),
                };
                let operator = match op {
                    SqlBinaryOperator::And => LogicalOperator::And,
                    _ => LogicalOperator::Or,
                };
                let mut operands: Vec<SqlFilter> = Vec::new();
                operands.push(l);
                operands.push(r);
                Ok(SqlFilter::Logical { operator, operands })
            },
            SqlBinaryOperator::Other(d) => Err(VectorDbError::Other(concat("Unsupported SQL operator: ", d.as_str()))),
            _ => {
                let (field, value) = match extract_field_value(left, right) {
                    Ok(p) => p,
                    Err(e) => return Err(e),
                };
                Ok(SqlFilter::Comparison { field, operator: comparison_operator(op), value })
            },
        },
        SqlExpr::Unary { op, operand } => match op {
            SqlUnaryOperator::Not => {
                let inner = match convert_sql_expr_to_filter(operand) {
                    Ok(f) => f,
                    Err(e) => return Err(e),
                };
                let mut operands: Vec<SqlFilter> = Vec::new();
                operands.push(inner);
                Ok(SqlFilter::Logical { operator: LogicalOperator::Not, operands })
            },
            SqlUnaryOperator::Other(d) => Err(VectorDbError::Other(concat("Unsupported unary operator: ", d.as_str()))),
        },
        _ => Ok(
            SqlFilter::Comparison {
                field: String::from_str("id"),
                operator: ComparisonOperator::Equal,
                value: SqlValue::String(String::from_str("unknown")),
            },
        ),
    }
}

/// The query whose WHERE clause is `sql`.
pub open spec fn where_query(sql: Seq<char>) -> Seq<char> {
    "SELECT * FROM table WHERE "@ + sql
}

/// What parsing the WHERE clause of `parsed` gives (see
/// [`SqlFilterParser::parse_where_clause`]): the error of a failed parse, a
/// statement that is no query, a missing WHERE clause, or the conversion
/// of the condition.
pub open spec fn where_outcome_ok(parsed: ParsedWhere, r: Result<SqlFilter, VectorDbError>) -> bool {
    match parsed {
        ParsedWhere::Failed(m) => r matches Err(VectorDbError::Other(t)) && t@ == "SQL parsing error: "@ + m@,
        ParsedWhere::NotQuery => r matches Err(VectorDbError::Other(t)) && t@ == "Invalid SQL statement"@,
        ParsedWhere::NoWhere => r matches Err(VectorDbError::Other(t)) && t@ == "No WHERE clause found"@,
        ParsedWhere::Condition(e) => match sql_error(e) {
            Some(m) => r matches Err(VectorDbError::Other(t)) && t@ == m,
            None => r matches Ok(f) && sql_converts(e, f),
        },
        ParsedWhere::NotSelect => false,
    }
}

/// Parses SQL WHERE clauses into filters, with the generic SQL dialect.
#[derive(Debug)]
pub struct SqlFilterParser {}

impl SqlFilterParser {
    /// A parser.
    pub fn new() -> (p: Self)
        ensures
            p == (SqlFilterParser {}),
    {
        SqlFilterParser {}
    }

    /// Parses the WHERE clause `sql` of a query on the table `table` into a
    /// filter. A query whose body is no plain SELECT (a clause that goes on
    /// with a UNION, say) is not accepted. The `sqlparser` release in use
    /// reads `FROM table` as the start of a table function and fails there,
    /// so every clause ends in that parse error.
    pub fn parse_where_clause(&self, sql: &str) -> (r: Result<SqlFilter, VectorDbError>)
        requires
            !(parsed_where(where_query(sql@)) is NotSelect),
        ensures
            where_outcome_ok(parsed_where(where_query(sql@)), r),
    {
        let full_sql = concat("SELECT * FROM table WHERE ", sql);
        match parse_where(full_sql.as_str()) {
            ParsedWhere::Failed(m) => Err(VectorDbError::Other(concat("SQL parsing error: ", m.as_str()))),
            ParsedWhere::NotQuery => Err(VectorDbError::Other(String::from_str("Invalid SQL statement"))),
            ParsedWhere::NoWhere => Err(VectorDbError::Other(String::from_str("No WHERE clause found"))),
            ParsedWhere::Condition(e) => convert_sql_expr_to_filter(&e),
            ParsedWhere::NotSelect => Err(VectorDbError::Other(String::from_str("Invalid SQL statement"))),
        }
    }

    /// Parses the WHERE clause `sql` where the query it makes has a plain
    /// SELECT body (see [`SqlFilterParser::parse_where_clause`]); `None`
    /// where it does not.
    pub fn parse_select_where_clause(&self, sql: &str) -> (r: Option<Result<SqlFilter, VectorDbError>>)
        ensures
            r is None <==> parsed_where(where_query(sql@)) is NotSelect,
            r matches Some(x) ==> where_outcome_ok(parsed_where(where_query(sql@)), x),
    {
        let full_sql = concat("SELECT * FROM table WHERE ", sql);
        match parse_where(full_sql.as_str()) {
            ParsedWhere::NotSelect => None,
            _ => Some(self.parse_where_clause(sql)),
        }
    }
}

impl Default for SqlFilterParser {
    fn default() -> (p: Self)
        ensures
            p == (SqlFilterParser {}),
    {
        SqlFilterParser::new()
    }
}

} // verus!
