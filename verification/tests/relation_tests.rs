use datafusion::executor::{execute, scan_plan};
use datafusion::rel::LogicalPlan;
use datafusion::datasource::{parse_u64, CsvRelation};
use datafusion::eval::{evaluate_expr, text_less, value_equal, value_less};
use datafusion::exec::ExecutionError;
use datafusion::rel::{
    chars_of, decimal_string, position_of_column, same_text, value_to_string, DataType, Expr, Field,
    Operator, Row, Schema, Value,
};
use datafusion::relation::{compare_rows, filter_rows, limit_rows, project_rows, sort_rows, Item};

fn n(x: u64) -> Value {
    Value::UnsignedLong(x)
}

fn s(x: &str) -> Value {
    Value::String(x.to_string())
}

fn row_texts(items: &[Item]) -> Vec<String> {
    items
        .iter()
        .map(|i| match i {
            Ok(r) => r.to_string(),
            Err(_) => "<error>".to_string(),
        })
        .collect()
}

fn people() -> Vec<Item> {
    vec![
        Ok(Row::new(vec![n(3), s("carol")])),
        Ok(Row::new(vec![n(1), s("alice")])),
        Ok(Row::new(vec![n(2), s("bob")])),
        Ok(Row::new(vec![n(1), s("anne")])),
    ]
}

fn gt(col: usize, x: u64) -> Expr {
    Expr::Binary {
        left: Box::new(Expr::TupleValue(col)),
        op: Operator::Gt,
        right: Box::new(Expr::Literal(n(x))),
    }
}

#[test]
fn row_to_string_joins_values_with_commas() {
    let r = Row::new(vec![n(12), s("a b"), Value::Boolean(true), Value::Boolean(false)]);
    assert_eq!(r.to_string(), "12,a b,true,false");
    assert_eq!(Row::new(vec![]).to_string(), "");
    assert_eq!(Row::new(vec![n(0)]).to_string(), "0");
}

#[test]
fn decimal_and_value_text() {
    assert_eq!(decimal_string(0), "0");
    assert_eq!(decimal_string(1234), "1234");
    assert_eq!(decimal_string(u64::MAX), "18446744073709551615");
    assert_eq!(value_to_string(&s("x")), "x");
    assert_eq!(value_to_string(&Value::Boolean(true)), "true");
}

#[test]
fn parse_u64_reads_decimal_text() {
    assert_eq!(parse_u64("42"), Some(42));
    assert_eq!(parse_u64("+7"), Some(7));
    assert_eq!(parse_u64("007"), Some(7));
    assert_eq!(parse_u64("18446744073709551615"), Some(u64::MAX));
    assert_eq!(parse_u64("18446744073709551616"), None);
    assert_eq!(parse_u64(""), None);
    assert_eq!(parse_u64("+"), None);
    assert_eq!(parse_u64("-1"), None);
    assert_eq!(parse_u64("1a"), None);
    assert_eq!(parse_u64(" 1"), None);
}

#[test]
fn written_number_reads_back() {
    for x in [0u64, 9, 10, 4321, u64::MAX] {
        let text = Row::new(vec![n(x)]).to_string();
        assert_eq!(parse_u64(&text), Some(x));
    }
}

#[test]
fn text_and_value_order() {
    assert!(text_less("abc", "abd"));
    assert!(text_less("ab", "abc"));
    assert!(!text_less("abc", "abc"));
    assert!(!text_less("b", "abc"));
    assert!(value_less(&Value::Boolean(false), &Value::Boolean(true)));
    assert!(value_less(&Value::Boolean(true), &n(0)));
    assert!(value_less(&n(5), &s("")));
    assert!(value_less(&n(4), &n(5)));
    assert!(!value_less(&n(5), &n(5)));
    assert!(value_equal(&s("x"), &s("x")));
    assert!(!value_equal(&s("x"), &n(1)));
}

#[test]
fn comparisons_agree() {
    let pairs = [(n(1), n(2)), (n(2), n(2)), (s("b"), s("a")), (n(1), s("a"))];
    for (a, b) in pairs.iter() {
        let row = Row::new(vec![a.clone(), b.clone()]);
        let cmp = |op: Operator| {
            let e = Expr::Binary { left: Box::new(Expr::TupleValue(0)), op, right: Box::new(Expr::TupleValue(1)) };
            matches!(evaluate_expr(&row, &e), Value::Boolean(true))
        };
        assert_eq!(cmp(Operator::Gt), !cmp(Operator::LtEq));
        assert_eq!(cmp(Operator::NotEq), !cmp(Operator::Eq));
        assert_eq!(cmp(Operator::GtEq), cmp(Operator::Gt) || cmp(Operator::Eq));
        let count = [cmp(Operator::Lt), cmp(Operator::Eq), cmp(Operator::Gt)].iter().filter(|b| **b).count();
        assert_eq!(count, 1);
    }
}

#[test]
fn evaluate_expr_columns_literals_and_sort_keys() {
    let row = Row::new(vec![n(3), s("carol")]);
    assert!(matches!(evaluate_expr(&row, &Expr::TupleValue(0)), Value::UnsignedLong(3)));
    assert!(matches!(evaluate_expr(&row, &Expr::Literal(n(9))), Value::UnsignedLong(9)));
    let key = Expr::Sort { expr: Box::new(Expr::TupleValue(1)), asc: false };
    assert!(matches!(evaluate_expr(&row, &key), Value::String(ref t) if t == "carol"));
    assert!(matches!(evaluate_expr(&row, &gt(0, 2)), Value::Boolean(true)));
}

#[test]
fn filter_keeps_matching_rows_and_errors_in_order() {
    let mut items = people();
    items.insert(1, Err(ExecutionError::Custom("bad record".to_string())));
    let out = filter_rows(items, &gt(0, 1));
    assert_eq!(row_texts(&out), vec!["3,carol", "<error>", "2,bob"]);
}

#[test]
fn filter_twice_is_filter_once() {
    let once = filter_rows(people(), &gt(0, 1));
    let twice = filter_rows(filter_rows(people(), &gt(0, 1)), &gt(0, 1));
    assert_eq!(row_texts(&once), row_texts(&twice));
}

#[test]
fn project_evaluates_expressions_per_row() {
    let out = project_rows(people(), &vec![Expr::TupleValue(1), gt(0, 1)]);
    assert_eq!(row_texts(&out), vec!["carol,true", "alice,false", "bob,true", "anne,false"]);
}

#[test]
fn limit_takes_the_first_rows() {
    assert_eq!(row_texts(&limit_rows(people(), 2)), vec!["3,carol", "1,alice"]);
    assert_eq!(limit_rows(people(), 10).len(), 4);
    assert_eq!(limit_rows(people(), 0).len(), 0);
    let twice = limit_rows(limit_rows(people(), 3), 2);
    assert_eq!(row_texts(&twice), row_texts(&limit_rows(people(), 2)));
}

#[test]
fn sort_is_stable_and_ordered() {
    let keys = vec![Expr::Sort { expr: Box::new(Expr::TupleValue(0)), asc: true }];
    let out = sort_rows(people(), &keys);
    assert_eq!(row_texts(&out), vec!["1,alice", "1,anne", "2,bob", "3,carol"]);

    let desc = vec![Expr::Sort { expr: Box::new(Expr::TupleValue(0)), asc: false }];
    let out = sort_rows(people(), &desc);
    assert_eq!(row_texts(&out), vec!["3,carol", "2,bob", "1,alice", "1,anne"]);

    let two = vec![
        Expr::Sort { expr: Box::new(Expr::TupleValue(0)), asc: true },
        Expr::Sort { expr: Box::new(Expr::TupleValue(1)), asc: false },
    ];
    let out = sort_rows(people(), &two);
    assert_eq!(row_texts(&out), vec!["1,anne", "1,alice", "2,bob", "3,carol"]);
}

#[test]
fn compare_rows_by_keys() {
    let keys = vec![Expr::Sort { expr: Box::new(Expr::TupleValue(0)), asc: true }];
    let a = Row::new(vec![n(1), s("x")]);
    let b = Row::new(vec![n(2), s("y")]);
    assert_eq!(compare_rows(&a, &b, &keys), -1);
    assert_eq!(compare_rows(&b, &a, &keys), 1);
    assert_eq!(compare_rows(&a, &a, &keys), 0);
    assert_eq!(compare_rows(&a, &b, &vec![]), 0);
}

#[test]
fn schema_column_lookup() {
    let schema = Schema::new(vec![
        Field::new("a", DataType::Int, true),
        Field::new("b", DataType::String, false),
        Field::new("a", DataType::Boolean, false),
    ]);
    let (i, f) = schema.column("a").unwrap();
    assert_eq!(i, 0);
    assert_eq!(f.data_type, DataType::Int);
    assert_eq!(schema.column("b").unwrap().0, 1);
    assert!(schema.column("c").is_none());
    assert_eq!(position_of_column(&schema.columns, "b"), Some(1));
    assert_eq!(Schema::empty().columns.len(), 0);
}

#[test]
fn text_helpers() {
    assert_eq!(chars_of("héllo"), vec!['h', 'é', 'l', 'l', 'o']);
    assert!(same_text(&"abc".to_string(), "abc"));
    assert!(!same_text(&"abc".to_string(), "abd"));
}

fn people_schema() -> Schema {
    Schema::new(vec![
        Field::new("id", DataType::UnsignedLong, false),
        Field::new("name", DataType::String, false),
    ])
}

#[test]
fn csv_scan_reads_typed_rows() {
    let data = b"id,name\n1,alice\n22,bob\n".to_vec();
    let rel = CsvRelation::open(data, people_schema()).unwrap();
    let items = rel.scan().unwrap();
    assert_eq!(row_texts(&items), vec!["1,alice", "22,bob"]);
    match &items[1] {
        Ok(r) => {
            assert!(matches!(r.values[0], Value::UnsignedLong(22)));
            assert!(matches!(&r.values[1], Value::String(t) if t == "bob"));
        },
        Err(e) => panic!("unexpected {:?}", e),
    }
}

#[test]
fn csv_scan_refuses_records_that_do_not_fit() {
    let not_a_number = b"id,name\nx,alice\n".to_vec();
    assert!(CsvRelation::open(not_a_number, people_schema()).unwrap().scan().is_none());
    let unsupported = Schema::new(vec![Field::new("lat", DataType::Double, false)]);
    assert!(CsvRelation::open(b"lat\n52.1\n".to_vec(), unsupported).unwrap().scan().is_none());
}

#[test]
fn csv_scan_reports_unreadable_records() {
    let ragged = b"id,name\n1,alice\n2\n".to_vec();
    let items = CsvRelation::open(ragged, people_schema()).unwrap().scan().unwrap();
    assert_eq!(row_texts(&items), vec!["1,alice", "<error>"]);
    assert!(matches!(items[1], Err(ExecutionError::CsvError(_))));
}

#[test]
fn create_tuple_converts_by_schema() {
    let rel = CsvRelation::open(Vec::new(), people_schema()).unwrap();
    let row = rel.create_tuple(&vec!["+5".to_string(), "eve".to_string()]).unwrap();
    assert_eq!(row.to_string(), "5,eve");
}

#[test]
fn write_text_puts_each_row_on_a_line() {
    let items: Vec<Item> = vec![Ok(Row::new(vec![n(1), s("alice")])), Ok(Row::new(vec![n(2), s("bob")]))];
    assert_eq!(datafusion::relation::write_text(&items), "1,alice\n2,bob\n");
    assert_eq!(datafusion::relation::write_text(&vec![]), "");
}

#[test]
fn rows_of_records_keeps_csv_errors_in_place() {
    let rel = CsvRelation::open(Vec::new(), people_schema()).unwrap();
    let items = rel.rows_of_records(vec![Ok(vec!["4".to_string(), "dan".to_string()])]).unwrap();
    assert_eq!(row_texts(&items), vec!["4,dan"]);
    assert!(rel.rows_of_records(vec![Ok(vec!["x".to_string(), "dan".to_string()])]).is_none());
    assert!(rel.rows_of_records(vec![Ok(vec!["1".to_string()])]).is_none());
}

#[test]
fn errors_pass_through_filter_project_and_limit() {
    let items: Vec<Item> = vec![Err(ExecutionError::Custom("e1".to_string())), Ok(Row::new(vec![n(0), s("z")]))];
    let f = filter_rows(items, &gt(0, 1));
    assert_eq!(f.len(), 1);
    assert!(matches!(&f[0], Err(ExecutionError::Custom(m)) if m == "e1"));
    let items: Vec<Item> = vec![Err(ExecutionError::Custom("e2".to_string())), Ok(Row::new(vec![n(0), s("z")]))];
    let p = project_rows(items, &vec![Expr::TupleValue(1)]);
    assert!(matches!(&p[0], Err(ExecutionError::Custom(m)) if m == "e2"));
    let items: Vec<Item> = vec![Err(ExecutionError::Custom("e3".to_string())), Ok(Row::new(vec![n(0)]))];
    let l = limit_rows(items, 1);
    assert!(matches!(&l[0], Err(ExecutionError::Custom(m)) if m == "e3"));
}

fn people_items() -> Vec<Item> {
    people()
}

#[test]
fn execute_runs_a_plan_over_scanned_rows() {
    let scan = LogicalPlan::CsvFile { filename: "people.csv".to_string(), schema: people_schema() };
    let filtered = LogicalPlan::Selection { expr: gt(0, 1), input: Box::new(scan), schema: people_schema() };
    let sorted = LogicalPlan::Sort {
        expr: vec![Expr::Sort { expr: Box::new(Expr::TupleValue(1)), asc: true }],
        input: Box::new(filtered),
        schema: people_schema(),
    };
    let projected = LogicalPlan::Projection { expr: vec![Expr::TupleValue(1)], input: Box::new(sorted), schema: people_schema() };
    let limited = LogicalPlan::Limit { limit: 1, input: Box::new(projected), schema: people_schema() };
    assert!(matches!(scan_plan(&limited), LogicalPlan::CsvFile { .. }));
    let out = execute(&limited, people_items()).unwrap();
    assert_eq!(row_texts(&out), vec!["bob"]);

    let bad = LogicalPlan::Selection {
        expr: Expr::TupleValue(1),
        input: Box::new(LogicalPlan::CsvFile { filename: "p.csv".to_string(), schema: people_schema() }),
        schema: people_schema(),
    };
    match execute(&bad, people_items()) {
        Err(ExecutionError::Custom(m)) => assert_eq!(m, "the plan cannot be run on these rows"),
        other => panic!("unexpected {:?}", other.map(|v| v.len())),
    }
    assert!(execute(&LogicalPlan::EmptyRelation, people_items()).is_err());
}
