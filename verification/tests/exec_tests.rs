use datafusion::exec::{
    builtin_function, compile_expr, convert_data_type, BuiltinFunction, DataFrameError, ExecutionContext,
    ExecutionError,
};
use datafusion::rel::{DataType, Expr, Field, FunctionMeta, LogicalPlan, Operator, Row, Schema, Value};
use datafusion::sql::SQLType;

fn people_schema() -> Schema {
    Schema::new(vec![
        Field::new("id", DataType::UnsignedLong, false),
        Field::new("name", DataType::String, false),
    ])
}

fn uk_cities_schema() -> Schema {
    Schema::new(vec![
        Field::new("city", DataType::String, false),
        Field::new("lat", DataType::Double, false),
        Field::new("lng", DataType::Double, false),
    ])
}

fn create_context() -> ExecutionContext {
    let mut ctx = ExecutionContext::new("./test/data".to_string());
    ctx.define_schema("people", &people_schema());
    ctx.define_schema("uk_cities", &uk_cities_schema());
    ctx
}

fn column_names(schema: &Schema) -> Vec<String> {
    schema.columns.iter().map(|f| f.name.clone()).collect()
}

fn as_u64(v: &Value) -> Option<u64> {
    match v {
        Value::UnsignedLong(n) => Some(*n),
        _ => None,
    }
}

#[test]
fn test_compile_literal_expr() {
    let lit_fn_1 = compile_expr(&Expr::Literal(Value::UnsignedLong(1234_u64))).unwrap();
    let lit_fn_2 = compile_expr(&Expr::Literal(Value::UnsignedLong(4321_u64))).unwrap();

    let row = Row::new(vec![]);

    let value_1 = lit_fn_1.call(&row).unwrap();
    let value_2 = lit_fn_2.call(&row).unwrap();
    assert_eq!(as_u64(&value_1), Some(1234));
    assert_eq!(as_u64(&value_2), Some(4321));
}

#[test]
fn test_compile_binary_expr() {
    let expr = Expr::Binary {
        left: Box::new(Expr::Literal(Value::UnsignedLong(123_u64))),
        op: Operator::Plus,
        right: Box::new(Expr::Literal(Value::UnsignedLong(4321_u64))),
    };

    let compiled_expr = compile_expr(&expr).unwrap();

    let row = Row::new(vec![]);
    assert!(compiled_expr.call(&row).is_ok());
}

#[test]
fn compiled_sum_and_comparison() {
    let row = Row::new(vec![]);
    let sum = Expr::Binary {
        left: Box::new(Expr::Literal(Value::UnsignedLong(123))),
        op: Operator::Plus,
        right: Box::new(Expr::Literal(Value::UnsignedLong(4321))),
    };
    assert_eq!(as_u64(&compile_expr(&sum).unwrap().call(&row).unwrap()), Some(4444));
    let cmp = Expr::Binary { left: Box::new(sum), op: Operator::Gt, right: Box::new(Expr::Literal(Value::UnsignedLong(4000))) };
    assert!(matches!(*compile_expr(&cmp).unwrap().call(&row).unwrap(), Value::Boolean(true)));
    let overflow = Expr::Binary {
        left: Box::new(Expr::Literal(Value::UnsignedLong(u64::MAX))),
        op: Operator::Plus,
        right: Box::new(Expr::Literal(Value::UnsignedLong(1))),
    };
    match compile_expr(&overflow).unwrap().call(&row) {
        Err(e) => assert!(matches!(*e, ExecutionError::Custom(ref m) if m == "expression cannot be computed")),
        Ok(v) => panic!("unexpected {:?}", v),
    }
}

fn sqrt_meta() -> FunctionMeta {
    FunctionMeta { name: "sqrt".to_string(), args: vec![Field::new("n", DataType::Double, false)], return_type: DataType::Double }
}

fn st_point_meta() -> FunctionMeta {
    FunctionMeta {
        name: "ST_Point".to_string(),
        args: vec![Field::new("lat", DataType::Double, false), Field::new("lng", DataType::Double, false)],
        return_type: DataType::String,
    }
}

#[test]
fn test_sqrt() {
    let mut ctx = create_context();

    ctx.define_function(&sqrt_meta());

    let df = ctx.sql(&"SELECT id, sqrt(id) FROM people").unwrap();

    match df.logical_plan() {
        LogicalPlan::Projection { expr, schema, .. } => {
            assert!(matches!(expr[0], Expr::TupleValue(0)));
            assert!(matches!(&expr[1], Expr::ScalarFunction { name, args } if name == "sqrt" && args.len() == 1));
            assert_eq!(column_names(schema), vec!["id".to_string(), "sqrt".to_string()]);
            assert_eq!(schema.columns[1].data_type, DataType::Double);
        },
        other => panic!("unexpected {:?}", other),
    }
}

#[test]
fn test_sql_udf_udt() {
    let mut ctx = create_context();

    ctx.define_function(&st_point_meta());

    let df = ctx.sql(&"SELECT ST_Point(lat, lng) FROM uk_cities").unwrap();

    match df.logical_plan() {
        LogicalPlan::Projection { expr, .. } => match &expr[0] {
            Expr::ScalarFunction { name, args } => {
                assert_eq!(name, "ST_Point");
                assert!(matches!(args[0], Expr::TupleValue(1)));
                assert!(matches!(args[1], Expr::TupleValue(2)));
            },
            other => panic!("unexpected {:?}", other),
        },
        other => panic!("unexpected {:?}", other),
    }
}

#[test]
fn test_chaining_functions() {
    let mut ctx = create_context();

    ctx.define_function(&st_point_meta());

    let df = ctx.sql(&"SELECT ST_AsText(ST_Point(lat, lng)) FROM uk_cities").unwrap();

    match df.logical_plan() {
        LogicalPlan::Projection { expr, .. } => match &expr[0] {
            Expr::ScalarFunction { name, args } => {
                assert_eq!(name, "ST_AsText");
                assert!(matches!(&args[0], Expr::ScalarFunction { name, .. } if name == "ST_Point"));
            },
            other => panic!("unexpected {:?}", other),
        },
        other => panic!("unexpected {:?}", other),
    }
}

#[test]
fn test_df_udf_udt() {
    let mut ctx = create_context();

    ctx.define_function(&st_point_meta());

    let df = ctx.load("test/data/uk_cities.csv", &uk_cities_schema()).unwrap();

    let func_expr = ctx.udf("ST_Point", vec![df.col("lat").unwrap(), df.col("lng").unwrap()]);

    let df2 = df.select(vec![func_expr]).unwrap();

    assert!(matches!(df2.logical_plan(), LogicalPlan::Projection { .. }));
}

#[test]
fn test_sort() {
    let mut ctx = create_context();

    ctx.define_function(&st_point_meta());

    let df = ctx.load("test/data/uk_cities.csv", &uk_cities_schema()).unwrap();

    let df2 = df.sort(vec![
        Expr::Sort { expr: Box::new(Expr::TupleValue(1)), asc: true },
        Expr::Sort { expr: Box::new(Expr::TupleValue(2)), asc: true },
    ]).unwrap();

    assert!(matches!(df2.logical_plan(), LogicalPlan::Sort { expr, .. } if expr.len() == 2));
}

#[test]
fn planner_errors_name_their_cause() {
    let ctx = create_context();
    match ctx.create_logical_plan("SELECT id, age FROM people") {
        Err(ExecutionError::Custom(m)) => assert_eq!(m, "Invalid identifier"),
        other => panic!("unexpected {:?}", other),
    }
    match ctx.create_logical_plan("SELECT sqrt(age) FROM people") {
        Err(ExecutionError::Custom(m)) => assert_eq!(m, "Invalid identifier"),
        other => panic!("unexpected {:?}", other),
    }
    match ctx.create_logical_plan("CREATE TABLE t (a INT)") {
        Err(ExecutionError::Custom(m)) => assert!(m.starts_with("sql_to_rel does not support this relation: SQLCreateTable")),
        other => panic!("unexpected {:?}", other),
    }
    match ctx.create_logical_plan("SELECT id FROM people;") {
        Err(ExecutionError::ParserError(datafusion::parser::ParserError::TokenizerError(m))) => {
            assert_eq!(m, "unexpected character")
        },
        other => panic!("unexpected {:?}", other),
    }
    match ctx.create_logical_plan("SELECT FROM people") {
        Err(ExecutionError::ParserError(datafusion::parser::ParserError::ParserError(m))) => {
            assert_eq!(m, "unexpected token")
        },
        other => panic!("unexpected {:?}", other),
    }
}

#[test]
fn can_plan_decides_what_the_planner_accepts() {
    let ctx = create_context();
    assert!(ctx.can_plan("SELECT id FROM people"));
    assert!(ctx.can_plan("SELECT nope FROM people"));
    assert!(ctx.can_plan("not sql at all"));
    assert!(!ctx.can_plan("SELECT id FROM nobody"));
    assert!(!ctx.can_plan("SELECT 5 FROM people"));
    assert!(!ctx.can_plan("SELECT id FROM people WHERE id < 3"));
    assert!(ctx.can_plan("SELECT id FROM people WHERE id > 3"));
}

#[test]
fn builtin_function_names() {
    assert_eq!(builtin_function("sqrt"), Some(BuiltinFunction::Sqrt));
    assert_eq!(builtin_function("st_point"), Some(BuiltinFunction::STPoint));
    assert_eq!(builtin_function("st_astext"), Some(BuiltinFunction::STAsText));
    assert_eq!(builtin_function("SQRT"), None);
}

#[test]
fn defined_schema_is_read_back() {
    let ctx = create_context();
    let s = ctx.table_schema("people").unwrap();
    assert_eq!(column_names(s), vec!["id".to_string(), "name".to_string()]);
    assert!(ctx.table_schema("nobody").is_none());
}

#[test]
fn redefined_schema_replaces_the_old_one() {
    let mut ctx = create_context();
    ctx.define_schema("people", &uk_cities_schema());
    let s = ctx.table_schema("people").unwrap();
    assert_eq!(column_names(s), vec!["city".to_string(), "lat".to_string(), "lng".to_string()]);
    let other = ctx.table_schema("uk_cities").unwrap();
    assert_eq!(other.columns.len(), 3);
}

#[test]
fn registered_table_is_read_back() {
    let mut ctx = ExecutionContext::new("data".to_string());
    ctx.register_table("t".to_string(), people_schema());
    assert_eq!(column_names(ctx.table_schema("t").unwrap()), vec!["id".to_string(), "name".to_string()]);
}

#[test]
fn defined_function_is_known_by_lower_case_name() {
    let mut ctx = create_context();
    let f = FunctionMeta {
        name: "ST_Point".to_string(),
        args: vec![Field::new("lat", DataType::Double, false), Field::new("lng", DataType::Double, false)],
        return_type: DataType::String,
    };
    ctx.define_function(&f);
    let m = ctx.function("st_point").unwrap();
    assert_eq!(m.name, "ST_Point");
    assert_eq!(m.args.len(), 2);
    assert_eq!(m.return_type, DataType::String);
    assert!(ctx.function("ST_Point").is_none());
}

#[test]
fn function_impls_are_found_case_aside() {
    let ctx = create_context();
    assert_eq!(ctx.load_function_impl("SqRt").unwrap(), BuiltinFunction::Sqrt);
    assert_eq!(ctx.load_function_impl("ST_Point").unwrap(), BuiltinFunction::STPoint);
    assert_eq!(ctx.load_function_impl("st_astext").unwrap(), BuiltinFunction::STAsText);
    match ctx.load_function_impl("cube") {
        Err(e) => match *e {
            ExecutionError::Custom(m) => assert_eq!(m, "Unknown function cube"),
            other => panic!("unexpected {:?}", other),
        },
        other => panic!("unexpected {:?}", other),
    }
}

#[test]
fn udf_builds_a_call() {
    let ctx = create_context();
    let e = ctx.udf("ST_Point", vec![Expr::TupleValue(1), Expr::TupleValue(2)]);
    match e {
        Expr::ScalarFunction { name, args } => {
            assert_eq!(name, "ST_Point");
            assert_eq!(args.len(), 2);
            assert!(matches!(args[0], Expr::TupleValue(1)));
            assert!(matches!(args[1], Expr::TupleValue(2)));
        },
        other => panic!("unexpected {:?}", other),
    }
}

#[test]
fn load_gives_a_csv_plan() {
    let ctx = create_context();
    let df = ctx.load("test/data/uk_cities.csv", &uk_cities_schema()).unwrap();
    match df.logical_plan() {
        LogicalPlan::CsvFile { filename, schema } => {
            assert_eq!(filename, "test/data/uk_cities.csv");
            assert_eq!(schema.columns.len(), 3);
        },
        other => panic!("unexpected {:?}", other),
    }
    assert_eq!(column_names(&df.schema()), vec!["city".to_string(), "lat".to_string(), "lng".to_string()]);
}

#[test]
fn data_frame_col_select_sort_filter() {
    let ctx = create_context();
    let df = ctx.load("test/data/uk_cities.csv", &uk_cities_schema()).unwrap();
    let lat = df.col("lat").unwrap();
    let lng = df.col("lng").unwrap();
    assert!(matches!(lat, Expr::TupleValue(1)));
    assert!(matches!(lng, Expr::TupleValue(2)));
    match df.col("population") {
        Err(DataFrameError::InvalidColumn(c)) => assert_eq!(c, "population"),
        other => panic!("unexpected {:?}", other),
    }

    let func_expr = ctx.udf("ST_Point", vec![lat, lng]);
    let df2 = df.select(vec![func_expr]).unwrap();
    match df2.logical_plan() {
        LogicalPlan::Projection { expr, input, schema } => {
            assert_eq!(expr.len(), 1);
            assert!(matches!(**input, LogicalPlan::CsvFile { .. }));
            assert_eq!(schema.columns.len(), 3);
        },
        other => panic!("unexpected {:?}", other),
    }

    let df3 = df.sort(vec![
        Expr::Sort { expr: Box::new(Expr::TupleValue(1)), asc: true },
        Expr::Sort { expr: Box::new(Expr::TupleValue(2)), asc: true },
    ]).unwrap();
    assert!(matches!(df3.logical_plan(), LogicalPlan::Sort { expr, .. } if expr.len() == 2));

    let pred = Expr::Binary {
        left: Box::new(Expr::TupleValue(1)),
        op: Operator::Gt,
        right: Box::new(Expr::Literal(Value::UnsignedLong(52))),
    };
    let df4 = df.filter(pred).unwrap();
    assert!(matches!(df4.logical_plan(), LogicalPlan::Selection { .. }));
    assert_eq!(column_names(&df4.schema()), column_names(&df.schema()));
}

#[test]
fn create_logical_plan_plans_a_projection_of_a_scan() {
    let ctx = create_context();
    let plan = ctx.create_logical_plan("SELECT id, name FROM people").unwrap();
    match *plan {
        LogicalPlan::Projection { expr, input, schema } => {
            assert!(matches!(expr[0], Expr::TupleValue(0)));
            assert!(matches!(expr[1], Expr::TupleValue(1)));
            assert_eq!(column_names(&schema), vec!["id".to_string(), "name".to_string()]);
            match *input {
                LogicalPlan::TableScan { schema_name, table_name, schema } => {
                    assert_eq!(schema_name, "default");
                    assert_eq!(table_name, "people");
                    assert_eq!(schema.columns.len(), 2);
                },
                other => panic!("unexpected {:?}", other),
            }
        },
        other => panic!("unexpected {:?}", other),
    }
}

#[test]
fn create_logical_plan_puts_the_filter_under_the_projection() {
    let ctx = create_context();
    let plan = ctx.create_logical_plan("select name from people where id > 5").unwrap();
    match *plan {
        LogicalPlan::Projection { expr, input, schema } => {
            assert!(matches!(expr[0], Expr::TupleValue(1)));
            assert_eq!(column_names(&schema), vec!["name".to_string()]);
            match *input {
                LogicalPlan::Selection { expr, input, .. } => {
                    match expr {
                        Expr::Binary { left, op, right } => {
                            assert!(matches!(*left, Expr::TupleValue(0)));
                            assert_eq!(op, Operator::Gt);
                            assert!(matches!(*right, Expr::Literal(Value::UnsignedLong(5))));
                        },
                        other => panic!("unexpected {:?}", other),
                    }
                    assert!(matches!(*input, LogicalPlan::TableScan { .. }));
                },
                other => panic!("unexpected {:?}", other),
            }
        },
        other => panic!("unexpected {:?}", other),
    }
}

#[test]
fn create_logical_plan_errors() {
    let ctx = create_context();
    match ctx.create_logical_plan("SELECT age FROM people") {
        Err(ExecutionError::Custom(m)) => assert_eq!(m, "Invalid identifier"),
        other => panic!("unexpected {:?}", other),
    }
    assert!(matches!(ctx.create_logical_plan("SELECT FROM people"), Err(ExecutionError::ParserError(_))));
    assert!(matches!(ctx.create_logical_plan("SELECT id FROM people;"), Err(ExecutionError::ParserError(_))));
    assert!(matches!(
        ctx.create_logical_plan("CREATE TABLE t (a INT)"),
        Err(ExecutionError::Custom(_))
    ));
}

#[test]
fn sql_create_table_then_select() {
    let mut ctx = ExecutionContext::new("data".to_string());
    let df = ctx.sql("CREATE TABLE t (a BIGINT NOT NULL, b VARCHAR(20), c DOUBLE, d BOOLEAN, e INT)").unwrap();
    assert!(matches!(df.logical_plan(), LogicalPlan::EmptyRelation));
    let s = ctx.table_schema("t").unwrap();
    assert_eq!(column_names(s), vec!["a", "b", "c", "d", "e"].into_iter().map(String::from).collect::<Vec<_>>());
    let types: Vec<DataType> = s.columns.iter().map(|f| f.data_type).collect();
    assert_eq!(
        types,
        vec![DataType::UnsignedLong, DataType::String, DataType::Double, DataType::Boolean, DataType::Int]
    );
    let nullable: Vec<bool> = s.columns.iter().map(|f| f.nullable).collect();
    assert_eq!(nullable, vec![false, true, true, true, true]);

    let df2 = ctx.sql("SELECT b, a FROM t").unwrap();
    match df2.logical_plan() {
        LogicalPlan::Projection { expr, schema, .. } => {
            assert!(matches!(expr[0], Expr::TupleValue(1)));
            assert!(matches!(expr[1], Expr::TupleValue(0)));
            assert_eq!(column_names(schema), vec!["b".to_string(), "a".to_string()]);
        },
        other => panic!("unexpected {:?}", other),
    }
}

#[test]
fn sql_errors_leave_the_tables() {
    let mut ctx = create_context();
    assert!(matches!(ctx.sql("DROP TABLE people"), Err(ExecutionError::ParserError(_))));
    assert!(matches!(ctx.sql("SELECT nope FROM people"), Err(ExecutionError::Custom(_))));
    assert!(ctx.table_schema("people").is_some());
    assert!(ctx.table_schema("uk_cities").is_some());
}

#[test]
fn csv_source_of_a_table_is_in_the_data_dir() {
    let ctx = create_context();
    let plan = LogicalPlan::TableScan {
        schema_name: "default".to_string(),
        table_name: "people".to_string(),
        schema: people_schema(),
    };
    let src = ctx.csv_source(&plan).unwrap();
    assert_eq!(src.filename, "./test/data/people.csv");
    assert_eq!(src.schema.columns.len(), 2);
    let file_plan = LogicalPlan::CsvFile { filename: "x.csv".to_string(), schema: people_schema() };
    assert_eq!(ctx.csv_source(&file_plan).unwrap().filename, "x.csv");
    match ctx.csv_source(&LogicalPlan::EmptyRelation) {
        Err(ExecutionError::Custom(m)) => assert_eq!(m, "empty relation is not implemented yet"),
        other => panic!("unexpected {:?}", other),
    }
}

#[test]
fn evaluate_a_comparison() {
    let ctx = create_context();
    let row = Row::new(vec![Value::UnsignedLong(7), Value::String("bob".to_string())]);
    let gt = Expr::Binary {
        left: Box::new(Expr::TupleValue(0)),
        op: Operator::Gt,
        right: Box::new(Expr::Literal(Value::UnsignedLong(5))),
    };
    assert!(matches!(*ctx.evaluate(&row, &people_schema(), &gt).unwrap(), Value::Boolean(true)));
    let lt = Expr::Binary {
        left: Box::new(Expr::TupleValue(1)),
        op: Operator::Lt,
        right: Box::new(Expr::Literal(Value::String("alice".to_string()))),
    };
    assert!(matches!(*ctx.evaluate(&row, &people_schema(), &lt).unwrap(), Value::Boolean(false)));
    match *ctx.evaluate(&row, &people_schema(), &Expr::TupleValue(1)).unwrap() {
        Value::String(s) => assert_eq!(s, "bob"),
        other => panic!("unexpected {:?}", other),
    }
}

#[test]
fn convert_data_type_maps_sql_types() {
    assert_eq!(convert_data_type(&SQLType::Boolean), DataType::Boolean);
    assert_eq!(convert_data_type(&SQLType::Int), DataType::Int);
    assert_eq!(convert_data_type(&SQLType::BigInt), DataType::UnsignedLong);
    assert_eq!(convert_data_type(&SQLType::Double), DataType::Double);
    assert_eq!(convert_data_type(&SQLType::Varchar(10)), DataType::String);
}

#[test]
fn cloned_context_keeps_tables() {
    let ctx = create_context();
    let c2 = ctx.clone();
    assert!(c2.table_schema("people").is_some());
    assert!(c2.table_schema("uk_cities").is_some());
}

