use datafusion::catalog::NameMap;
use datafusion::parser::{parse_statement, tokenize, Keyword, Parser, ParserError, Token};
use datafusion::rel::{DataType, Expr, Field, LogicalPlan, Operator, Schema, Value};
use datafusion::sql::{ASTNode, SQLOperator, SQLType};
use datafusion::sqltorel::SqlToRel;

fn kinds(tokens: &[Token]) -> Vec<String> {
    tokens.iter().map(|t| format!("{:?}", t)).collect()
}

#[test]
fn tokenize_words_numbers_and_symbols() {
    let tokens = tokenize("select a, b2 FROM t WHERE a >= 10").unwrap();
    assert_eq!(
        kinds(&tokens),
        vec![
            "Keyword(Select)",
            "Identifier(\"a\")",
            "Comma",
            "Identifier(\"b2\")",
            "Keyword(From)",
            "Identifier(\"t\")",
            "Keyword(Where)",
            "Identifier(\"a\")",
            "GtEq",
            "Number(10)",
        ]
    );
}

#[test]
fn tokenize_two_character_operators() {
    let tokens = tokenize("a<=b<>c!=d<e>f=g").unwrap();
    assert_eq!(
        kinds(&tokens),
        vec![
            "Identifier(\"a\")",
            "LtEq",
            "Identifier(\"b\")",
            "NotEq",
            "Identifier(\"c\")",
            "NotEq",
            "Identifier(\"d\")",
            "Lt",
            "Identifier(\"e\")",
            "Gt",
            "Identifier(\"f\")",
            "Eq",
            "Identifier(\"g\")",
        ]
    );
}

#[test]
fn tokenize_rejects_unknown_characters_and_huge_numbers() {
    assert!(matches!(tokenize("SELECT 'a'"), Err(ParserError::TokenizerError(m)) if m == "unexpected character"));
    assert!(matches!(tokenize("SELECT 9223372036854775808"), Err(ParserError::TokenizerError(m)) if m == "number out of range"));
    let ok = tokenize("9223372036854775807").unwrap();
    assert!(matches!(ok[0], Token::Number(9223372036854775807)));
    assert!(tokenize("   ").unwrap().is_empty());
}

#[test]
fn parse_select_with_filter() {
    let ast = Parser::parse_sql("SELECT id, sqrt(id) FROM people WHERE id > 3".to_string()).unwrap();
    match ast {
        ASTNode::SQLSelect { projection, relation, selection, order_by, limit } => {
            assert_eq!(projection.len(), 2);
            assert!(matches!(&projection[0], ASTNode::SQLIdentifier { id } if id == "id"));
            match &projection[1] {
                ASTNode::SQLFunction { id, args } => {
                    assert_eq!(id, "sqrt");
                    assert_eq!(args.len(), 1);
                },
                other => panic!("unexpected {:?}", other),
            }
            assert!(matches!(relation.as_deref(), Some(ASTNode::SQLIdentifier { id }) if id == "people"));
            match selection.as_deref() {
                Some(ASTNode::SQLBinaryExpr { left, op, right }) => {
                    assert!(matches!(&**left, ASTNode::SQLIdentifier { id } if id == "id"));
                    assert_eq!(*op, SQLOperator::GT);
                    assert!(matches!(**right, ASTNode::SQLLiteralInt(3)));
                },
                other => panic!("unexpected {:?}", other),
            }
            assert!(order_by.is_none());
            assert!(limit.is_none());
        },
        other => panic!("unexpected {:?}", other),
    }
}

#[test]
fn parse_nested_function_calls() {
    let ast = Parser::parse_sql("SELECT ST_AsText(ST_Point(lat, lng)) FROM uk_cities".to_string()).unwrap();
    match ast {
        ASTNode::SQLSelect { projection, .. } => match &projection[0] {
            ASTNode::SQLFunction { id, args } => {
                assert_eq!(id, "ST_AsText");
                match &args[0] {
                    ASTNode::SQLFunction { id, args } => {
                        assert_eq!(id, "ST_Point");
                        assert_eq!(args.len(), 2);
                    },
                    other => panic!("unexpected {:?}", other),
                }
            },
            other => panic!("unexpected {:?}", other),
        },
        other => panic!("unexpected {:?}", other),
    }
}

#[test]
fn parse_parenthesized_operands() {
    let ast = Parser::parse_sql("SELECT a FROM t WHERE (a > 1) AND (b < 2)".to_string()).unwrap();
    match ast {
        ASTNode::SQLSelect { selection: Some(sel), .. } => match *sel {
            ASTNode::SQLBinaryExpr { left, op, right } => {
                assert_eq!(op, SQLOperator::And);
                assert!(matches!(*left, ASTNode::SQLBinaryExpr { op: SQLOperator::GT, .. }));
                assert!(matches!(*right, ASTNode::SQLBinaryExpr { op: SQLOperator::LT, .. }));
            },
            other => panic!("unexpected {:?}", other),
        },
        other => panic!("unexpected {:?}", other),
    }
}

#[test]
fn parse_create_table() {
    let ast = Parser::parse_sql("CREATE TABLE people (id BIGINT NOT NULL, name VARCHAR(50))".to_string()).unwrap();
    match ast {
        ASTNode::SQLCreateTable { name, columns } => {
            assert_eq!(name, "people");
            assert_eq!(columns.len(), 2);
            assert_eq!(columns[0].name, "id");
            assert_eq!(columns[0].data_type, SQLType::BigInt);
            assert!(!columns[0].allow_null);
            assert_eq!(columns[1].name, "name");
            assert_eq!(columns[1].data_type, SQLType::Varchar(50));
            assert!(columns[1].allow_null);
        },
        other => panic!("unexpected {:?}", other),
    }
}

#[test]
fn parse_errors() {
    for sql in [
        "",
        "SELECT",
        "SELECT a FROM",
        "SELECT a b",
        "SELECT a > b > c",
        "SELECT a FROM t WHERE",
        "CREATE TABLE t ()",
        "CREATE TABLE t (a INT",
        "CREATE TABLE t (a FLOAT)",
        "INSERT INTO t",
    ] {
        assert!(
            matches!(Parser::parse_sql(sql.to_string()), Err(ParserError::ParserError(_))),
            "{} should not parse",
            sql
        );
    }
}

#[test]
fn parse_statement_from_tokens() {
    let tokens = vec![
        Token::Keyword(Keyword::Select),
        Token::Number(1),
        Token::Comma,
        Token::Identifier("x".to_string()),
    ];
    match parse_statement(&tokens).unwrap() {
        ASTNode::SQLSelect { projection, relation, .. } => {
            assert!(matches!(projection[0], ASTNode::SQLLiteralInt(1)));
            assert!(relation.is_none());
        },
        other => panic!("unexpected {:?}", other),
    }
}

fn planner() -> SqlToRel {
    let mut schemas = NameMap::new();
    schemas.insert(
        "people".to_string(),
        Schema::new(vec![
            Field::new("id", DataType::UnsignedLong, false),
            Field::new("name", DataType::String, false),
        ]),
    );
    SqlToRel::new(schemas)
}

#[test]
fn sql_to_rel_plans_a_select() {
    let ast = Parser::parse_sql("SELECT name FROM people WHERE id > 10".to_string()).unwrap();
    let plan = planner().sql_to_rel(&ast).unwrap();
    match *plan {
        LogicalPlan::Projection { expr, input, schema } => {
            assert!(matches!(expr[0], Expr::TupleValue(1)));
            assert_eq!(schema.columns[0].name, "name");
            assert!(matches!(*input, LogicalPlan::Selection { .. }));
        },
        other => panic!("unexpected {:?}", other),
    }
}

#[test]
fn sql_to_rex_plans_expressions() {
    let p = planner();
    let schema = Schema::new(vec![
        Field::new("id", DataType::UnsignedLong, false),
        Field::new("name", DataType::String, false),
    ]);
    let e = p.sql_to_rex(&ASTNode::SQLLiteralInt(42), &schema).unwrap();
    assert!(matches!(e, Expr::Literal(Value::UnsignedLong(42))));
    let e = p.sql_to_rex(&ASTNode::SQLIdentifier { id: "name".to_string() }, &schema).unwrap();
    assert!(matches!(e, Expr::TupleValue(1)));
    assert_eq!(
        p.sql_to_rex(&ASTNode::SQLIdentifier { id: "age".to_string() }, &schema).unwrap_err(),
        "Invalid identifier"
    );
    let gt = ASTNode::SQLBinaryExpr {
        left: Box::new(ASTNode::SQLIdentifier { id: "id".to_string() }),
        op: SQLOperator::GT,
        right: Box::new(ASTNode::SQLLiteralInt(1)),
    };
    match p.sql_to_rex(&gt, &schema).unwrap() {
        Expr::Binary { left, op, right } => {
            assert!(matches!(*left, Expr::TupleValue(0)));
            assert_eq!(op, Operator::Gt);
            assert!(matches!(*right, Expr::Literal(Value::UnsignedLong(1))));
        },
        other => panic!("unexpected {:?}", other),
    }
    assert_eq!(
        p.sql_to_rex(&ASTNode::SQLLiteralString("x".to_string()), &schema).unwrap_err(),
        "Unsupported ast node SQLLiteralString(\"x\")"
    );
    let call = ASTNode::SQLFunction {
        id: "sqrt".to_string(),
        args: vec![ASTNode::SQLIdentifier { id: "id".to_string() }, ASTNode::SQLIdentifier { id: "zz".to_string() }],
    };
    assert_eq!(p.sql_to_rex(&call, &schema).unwrap_err(), "Invalid identifier");
    let ok_call = ASTNode::SQLFunction { id: "sqrt".to_string(), args: vec![ASTNode::SQLIdentifier { id: "id".to_string() }] };
    match p.sql_to_rex(&ok_call, &schema).unwrap() {
        Expr::ScalarFunction { name, args } => {
            assert_eq!(name, "sqrt");
            assert!(matches!(args[0], Expr::TupleValue(0)));
        },
        other => panic!("unexpected {:?}", other),
    }
}

#[test]
fn sql_to_rel_rejects_other_nodes() {
    let p = planner();
    assert_eq!(
        p.sql_to_rel(&ASTNode::SQLLiteralInt(1)).unwrap_err(),
        "sql_to_rel does not support this relation: SQLLiteralInt(1)"
    );
    assert!(!p.plan_aborts(&ASTNode::SQLLiteralInt(1)));
    assert!(p.plan_aborts(&ASTNode::SQLIdentifier { id: "nobody".to_string() }));
}

#[test]
fn name_map_insert_get_duplicate() {
    let mut m: NameMap<Schema> = NameMap::new();
    m.insert("a".to_string(), Schema::empty());
    m.insert("b".to_string(), Schema::new(vec![Field::new("x", DataType::Int, true)]));
    m.insert("a".to_string(), Schema::new(vec![Field::new("y", DataType::Boolean, false)]));
    assert_eq!(m.get("a").unwrap().columns[0].name, "y");
    assert_eq!(m.get("b").unwrap().columns[0].name, "x");
    assert!(m.get("c").is_none());
    let d = m.duplicate();
    assert_eq!(d.get("a").unwrap().columns[0].name, "y");
}
