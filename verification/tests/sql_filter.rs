use grape_vector_db::errors::VectorDbError;
use grape_vector_db::filtering::{ComparisonOperator, LogicalOperator};
use grape_vector_db::sql_filter::{
    convert_sql_expr_to_filter, extract_field_value, SqlBinaryOperator, SqlExpr, SqlFilter, SqlFilterParser,
    SqlLiteral, SqlUnaryOperator, SqlValue,
};

fn other_text(r: Result<SqlFilter, VectorDbError>) -> String {
    match r {
        Err(VectorDbError::Other(m)) => m,
        other => panic!("unexpected {:?}", other),
    }
}

fn comparison(f: &SqlFilter) -> (&str, ComparisonOperator, &SqlValue) {
    match f {
        SqlFilter::Comparison { field, operator, value } => (field.as_str(), *operator, value),
        other => panic!("not a comparison: {:?}", other),
    }
}

#[test]
fn test_sql_parser_creation() {
    let _parser = SqlFilterParser::new();
    let _default = SqlFilterParser::default();
}

const TABLE_ERROR: &str = "SQL parsing error: sql parser error: Expected: (, found: WHERE at Line: 1, Column: 21";

#[test]
fn the_query_on_table_does_not_parse_with_this_sqlparser() {
    let p = SqlFilterParser::new();
    for clause in ["name = 'alice'", "age > 30", "a = 1 AND b = 2", "a + 1", ""] {
        assert_eq!(other_text(p.parse_where_clause(clause)), TABLE_ERROR);
    }
    match p.parse_select_where_clause("a = 1") {
        Some(r) => assert_eq!(other_text(r), TABLE_ERROR),
        None => panic!("the parse failed before any body was read"),
    }
}

fn ident(s: &str) -> Box<SqlExpr> {
    Box::new(SqlExpr::Identifier(s.to_string()))
}

fn lit(l: SqlLiteral) -> Box<SqlExpr> {
    Box::new(SqlExpr::Literal(l))
}

fn bin(left: Box<SqlExpr>, op: SqlBinaryOperator, right: Box<SqlExpr>) -> Box<SqlExpr> {
    Box::new(SqlExpr::Binary { left, op, right })
}

#[test]
fn a_comparison_of_a_field_with_a_text() {
    let e = bin(ident("name"), SqlBinaryOperator::Eq, lit(SqlLiteral::Text("alice".to_string())));
    let f = convert_sql_expr_to_filter(&e).unwrap();
    let (field, op, value) = comparison(&f);
    assert_eq!(field, "name");
    assert_eq!(op, ComparisonOperator::Equal);
    assert!(matches!(value, SqlValue::String(s) if s == "alice"));
}

#[test]
fn numbers_stay_as_written_and_sides_may_swap() {
    let e = bin(ident("age"), SqlBinaryOperator::Gt, lit(SqlLiteral::Number("30".to_string())));
    let f = convert_sql_expr_to_filter(&e).unwrap();
    let (field, op, value) = comparison(&f);
    assert_eq!((field, op), ("age", ComparisonOperator::GreaterThan));
    assert!(matches!(value, SqlValue::Number(n) if n == "30"));
    let g = convert_sql_expr_to_filter(&bin(lit(SqlLiteral::Text("x".to_string())), SqlBinaryOperator::LtEq, ident("name"))).unwrap();
    let (field, op, value) = comparison(&g);
    assert_eq!((field, op), ("name", ComparisonOperator::LessThanOrEqual));
    assert!(matches!(value, SqlValue::String(s) if s == "x"));
    let h = convert_sql_expr_to_filter(&bin(ident("flag"), SqlBinaryOperator::NotEq, lit(SqlLiteral::Boolean(true)))).unwrap();
    let (field, op, value) = comparison(&h);
    assert_eq!((field, op), ("flag", ComparisonOperator::NotEqual));
    assert!(matches!(value, SqlValue::Boolean(true)));
    let k = convert_sql_expr_to_filter(&bin(ident("n"), SqlBinaryOperator::Lt, lit(SqlLiteral::Number("2".to_string())))).unwrap();
    assert_eq!(comparison(&k).1, ComparisonOperator::LessThan);
    let m = convert_sql_expr_to_filter(&bin(ident("n"), SqlBinaryOperator::GtEq, lit(SqlLiteral::Null))).unwrap();
    assert_eq!(comparison(&m).1, ComparisonOperator::GreaterThanOrEqual);
}

#[test]
fn and_or_not_become_logical_filters() {
    let a = bin(ident("a"), SqlBinaryOperator::Eq, lit(SqlLiteral::Number("1".to_string())));
    let c = bin(ident("c"), SqlBinaryOperator::GtEq, lit(SqlLiteral::Number("3".to_string())));
    let not_c = Box::new(SqlExpr::Unary { op: SqlUnaryOperator::Not, operand: c });
    let e = bin(a, SqlBinaryOperator::And, bin(Box::new(SqlExpr::Other), SqlBinaryOperator::Or, not_c));
    match convert_sql_expr_to_filter(&e).unwrap() {
        SqlFilter::Logical { operator: LogicalOperator::And, operands } => {
            assert_eq!(operands.len(), 2);
            assert_eq!(comparison(&operands[0]).0, "a");
            match &operands[1] {
                SqlFilter::Logical { operator: LogicalOperator::Or, operands } => {
                    assert_eq!(operands.len(), 2);
                    assert_eq!(comparison(&operands[0]).0, "id");
                    match &operands[1] {
                        SqlFilter::Logical { operator: LogicalOperator::Not, operands } => {
                            assert_eq!(operands.len(), 1);
                            assert_eq!(comparison(&operands[0]).1, ComparisonOperator::GreaterThanOrEqual);
                        }
                        other => panic!("unexpected {:?}", other),
                    }
                }
                other => panic!("unexpected {:?}", other),
            }
        }
        other => panic!("unexpected {:?}", other),
    }
}

#[test]
fn unsupported_sql_is_an_error() {
    let plus = bin(ident("a"), SqlBinaryOperator::Other("Plus".to_string()), lit(SqlLiteral::Number("1".to_string())));
    assert_eq!(other_text(convert_sql_expr_to_filter(&plus)), "Unsupported SQL operator: Plus");
    let both_fields = bin(ident("a"), SqlBinaryOperator::Eq, ident("b"));
    assert_eq!(other_text(convert_sql_expr_to_filter(&both_fields)), "Unable to extract field and value from SQL expression");
    let minus = SqlExpr::Unary { op: SqlUnaryOperator::Other("Minus".to_string()), operand: ident("a") };
    assert_eq!(other_text(convert_sql_expr_to_filter(&minus)), "Unsupported unary operator: Minus");
    let left_first = bin(
        bin(ident("a"), SqlBinaryOperator::Other("Plus".to_string()), ident("b")),
        SqlBinaryOperator::Or,
        bin(ident("a"), SqlBinaryOperator::Eq, ident("b")),
    );
    assert_eq!(other_text(convert_sql_expr_to_filter(&left_first)), "Unsupported SQL operator: Plus");
}

#[test]
fn conversion_of_expressions_built_by_hand() {
    let e = SqlExpr::Binary {
        left: Box::new(SqlExpr::Identifier("k".to_string())),
        op: SqlBinaryOperator::Eq,
        right: Box::new(SqlExpr::Literal(SqlLiteral::Null)),
    };
    let f = convert_sql_expr_to_filter(&e).unwrap();
    assert!(matches!(comparison(&f).2, SqlValue::Null));
    let u = SqlExpr::Unary { op: SqlUnaryOperator::Other("Plus".to_string()), operand: Box::new(SqlExpr::Other) };
    assert_eq!(other_text(convert_sql_expr_to_filter(&u)), "Unsupported unary operator: Plus");
    let fallback = convert_sql_expr_to_filter(&SqlExpr::Other).unwrap();
    let (field, op, value) = comparison(&fallback);
    assert_eq!((field, op), ("id", ComparisonOperator::Equal));
    assert!(matches!(value, SqlValue::String(s) if s == "unknown"));
    let lit = SqlExpr::Literal(SqlLiteral::Other("HexString(\"ff\")".to_string()));
    let id = SqlExpr::Identifier("h".to_string());
    match extract_field_value(&lit, &id) {
        Ok((f, SqlValue::String(v))) => assert_eq!((f.as_str(), v.as_str()), ("h", "HexString(\"ff\")")),
        other => panic!("unexpected {:?}", other),
    }
    assert!(extract_field_value(&id, &id).is_err());
}
