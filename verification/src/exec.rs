use vstd::prelude::*;

use crate::catalog::{clone_keeps_view, NameMap};
use crate::eval::{compare, eval, eval_aborts, evaluate_expr, has_call, is_comparison, value_equal, value_less};
use crate::parser::{parse_failure, parses_to, Parser};
use crate::rel::{
    Row, Value, same_text, DataType, Expr, ExprV, Field, FieldV, fields_view, FunctionMeta, Operator, LogicalPlan, PlanV, Schema,
};
use crate::sql::{columns_view, ASTNode, AstV, SQLColumnDef, SQLColumnDefV, SQLType};
use crate::sqltorel::{rel_aborts, rel_error, rel_of, SqlToRel};

verus! {

/// What `str::to_lowercase` returns for a text.
pub uninterp spec fn lowercase(s: Seq<char>) -> Seq<char>;

/// Calls `str::to_lowercase`: the result is the lower-case form of `s`, named by
/// [`lowercase`]; what that form is (Unicode's case mapping) is left unsaid.
#[verifier::external_body]
fn to_lowercase(s: &str) -> (r: String)
    ensures
        r@ == lowercase(s@),
{
    s.to_lowercase()
}

/// Errors of planning and execution.
#[derive(Debug)]
pub enum ExecutionError {
    ParserError(crate::parser::ParserError),
    CsvError(csv::Error),
    Custom(String),
}

/// Errors of the data frame interface.
#[derive(Debug)]
pub enum DataFrameError {
    InvalidColumn(String),
    ExecutionError(ExecutionError),
}

/// A scalar function that queries can call.
pub trait ScalarFunction {
    spec fn spec_name(&self) -> Seq<char>;

    spec fn spec_args(&self) -> Seq<Field>;

    spec fn spec_return_type(&self) -> DataType;

    fn name(&self) -> (r: String)
        ensures
            r@ == self.spec_name(),
    ;

    fn args(&self) -> (r: Vec<Field>)
        ensures
            r@ == self.spec_args(),
    ;

    fn return_type(&self) -> (r: DataType)
        ensures
            r == self.spec_return_type(),
    ;
}

impl ScalarFunction for FunctionMeta {
    open spec fn spec_name(&self) -> Seq<char> {
        self.name@
    }

    open spec fn spec_args(&self) -> Seq<Field> {
        self.args@
    }

    open spec fn spec_return_type(&self) -> DataType {
        self.return_type
    }

    fn name(&self) -> (r: String) {
        self.name.clone()
    }

    fn args(&self) -> (r: Vec<Field>) {
        self.args.clone()
    }

    fn return_type(&self) -> (r: DataType) {
        self.return_type
    }
}

/// The built-in implementations of scalar functions.
#[derive(Debug, Clone, Copy, PartialEq, Eq, Structural)]
pub enum BuiltinFunction {
    Sqrt,
    STPoint,
    STAsText,
}

/// The built-in function that a function name selects, case aside.
pub open spec fn builtin_named(name: Seq<char>) -> Option<BuiltinFunction> {
    builtin_of_lowercase(lowercase(name))
}

/// The built-in function that a lower-case function name names.
pub open spec fn builtin_of_lowercase(n: Seq<char>) -> Option<BuiltinFunction> {
    if n == "sqrt"@ {
        Some(BuiltinFunction::Sqrt)
    } else if n == "st_point"@ {
        Some(BuiltinFunction::STPoint)
    } else if n == "st_astext"@ {
        Some(BuiltinFunction::STAsText)
    } else {
        None
    }
}

/// The built-in function that the lower-case function name `name` names.
pub fn builtin_function(name: &str) -> (r: Option<BuiltinFunction>)
    ensures
        r == builtin_of_lowercase(name@),
{
    let owned = name.to_owned();
    if same_text(&owned, "sqrt") {
        Some(BuiltinFunction::Sqrt)
    } else if same_text(&owned, "st_point") {
        Some(BuiltinFunction::STPoint)
    } else if same_text(&owned, "st_astext") {
        Some(BuiltinFunction::STAsText)
    } else {
        None
    }
}

/// Execution plans are sent to worker nodes for execution.
#[derive(Debug)]
pub enum ExecutionPlan {
    /// Run a query and return the results to the client
    Interactive { plan: Box<LogicalPlan> },
    /// Partition the relation
    Partition { plan: Box<LogicalPlan>, partition_count: usize, partition_expr: Expr },
}

/// The tables and functions that queries can name.
#[derive(Debug)]
pub struct ExecutionContext {
    schemas: NameMap<Schema>,
    functions: NameMap<FunctionMeta>,
    data_dir: String,
}

impl Clone for ExecutionContext {
    fn clone(&self) -> (r: Self)
        ensures
            r.tables() == self.tables(),
            r.functions() == self.functions(),
            r.data_dir() == self.data_dir(),
    {
        proof {
            lemma_clone_keeps_view();
        }
        ExecutionContext {
            schemas: self.schemas.duplicate(),
            functions: self.functions.duplicate(),
            data_dir: self.data_dir.clone(),
        }
    }
}

proof fn lemma_clone_keeps_view()
    ensures
        clone_keeps_view::<Schema>(),
        clone_keeps_view::<FunctionMeta>(),
{
}

impl ExecutionContext {
    /// The schemas of the known tables, by table name.
    pub closed spec fn tables(&self) -> Map<Seq<char>, Seq<FieldV>> {
        self.schemas@
    }

    /// The known functions, by lower-case name.
    pub closed spec fn functions(&self) -> Map<Seq<char>, crate::rel::FunctionMetaV> {
        self.functions@
    }

    /// The directory that holds the tables' files.
    pub closed spec fn data_dir(&self) -> Seq<char> {
        self.data_dir@
    }

    pub fn new(data_dir: String) -> (r: Self)
        ensures
            r.tables() == Map::<Seq<char>, Seq<FieldV>>::empty(),
            r.functions() == Map::<Seq<char>, crate::rel::FunctionMetaV>::empty(),
            r.data_dir() == data_dir@,
    {
        ExecutionContext { schemas: NameMap::new(), functions: NameMap::new(), data_dir }
    }

    /// Defines (or redefines) the schema of the table `name`.
    pub fn define_schema(&mut self, name: &str, schema: &Schema)
        ensures
            final(self).tables() == old(self).tables().insert(name@, schema@),
            final(self).functions() == old(self).functions(),
            final(self).data_dir() == old(self).data_dir(),
    {
        self.schemas.insert(name.to_owned(), schema.clone());
    }

    /// Registers the table `name` with its schema.
    pub fn register_table(&mut self, name: String, schema: Schema)
        ensures
            final(self).tables() == old(self).tables().insert(name@, schema@),
            final(self).functions() == old(self).functions(),
            final(self).data_dir() == old(self).data_dir(),
    {
        self.schemas.insert(name, schema);
    }

    /// Makes a scalar function known under its lower-case name.
    pub fn define_function<F: ScalarFunction>(&mut self, func: &F)
        ensures
            final(self).functions() == old(self).functions().insert(
                lowercase(func.spec_name()),
                crate::rel::FunctionMetaV {
                    name: func.spec_name(),
                    args: func.spec_args(),
                    return_type: func.spec_return_type(),
                },
            ),
            final(self).tables() == old(self).tables(),
            final(self).data_dir() == old(self).data_dir(),
    {
        let fm = FunctionMeta { name: func.name(), args: func.args(), return_type: func.return_type() };
        let key = to_lowercase(fm.name.as_str());
        self.functions.insert(key, fm);
    }

    /// The metadata of the function known under the lower-case name `name`.
    pub fn function(&self, name: &str) -> (r: Option<&FunctionMeta>)
        ensures
            match r {
                Some(f) => self.functions().contains_key(name@) && f@ == self.functions()[name@],
                None => !self.functions().contains_key(name@),
            },
    {
        self.functions.get(name)
    }

    /// The schema of the table `name`.
    pub fn table_schema(&self, name: &str) -> (r: Option<&Schema>)
        ensures
            match r {
                Some(s) => self.tables().contains_key(name@) && s@ == self.tables()[name@],
                None => !self.tables().contains_key(name@),
            },
    {
        self.schemas.get(name)
    }

    /// A data frame that reads the CSV file `filename`, whose columns are `schema`.
    pub fn load(&self, filename: &str, schema: &Schema) -> (r: Result<Box<DF>, ExecutionError>)
        ensures
            r matches Ok(df) && df.plan() == (PlanV::CsvFile { filename: filename@, schema: schema@ })
                && df.context().tables() == self.tables() && df.context().functions()
                == self.functions() && df.context().data_dir() == self.data_dir(),
    {
        let plan = LogicalPlan::CsvFile { filename: filename.to_owned(), schema: schema.clone() };
        Ok(Box::new(DF { ctx: Box::new(self.clone()), plan: Box::new(plan) }))
    }

    /// The built-in implementation of the function `function_name`, case aside.
    pub fn load_function_impl(&self, function_name: &str) -> (r: Result<BuiltinFunction, Box<ExecutionError>>)
        ensures
            match r {
                Ok(f) => builtin_named(function_name@) == Some(f),
                Err(e) => builtin_named(function_name@) is None && (*e matches ExecutionError::Custom(m)
                    && m@ == "Unknown function "@ + function_name@),
            },
    {
        let name = to_lowercase(function_name);
        match builtin_function(name.as_str()) {
            Some(f) => Ok(f),
            None => Err(Box::new(ExecutionError::Custom(unknown_function(function_name)))),
        }
    }

    /// An expression that calls the function `name` on `args`.
    pub fn udf(&self, name: &str, args: Vec<Expr>) -> (r: Expr)
        ensures
            r@ == (ExprV::ScalarFunction { name: name@, args: crate::rel::exprs_view(args@) }),
    {
        Expr::ScalarFunction { name: name.to_owned(), args: args }
    }
}

/// The column type that a SQL column type declares.
pub open spec fn data_type_of(t: SQLType) -> DataType {
    match t {
        SQLType::Boolean => DataType::Boolean,
        SQLType::Int => DataType::Int,
        SQLType::BigInt => DataType::UnsignedLong,
        SQLType::Double => DataType::Double,
        SQLType::Varchar(_) => DataType::String,
    }
}

/// The column type that a SQL column type declares.
pub fn convert_data_type(t: &SQLType) -> (r: DataType)
    ensures
        r == data_type_of(*t),
{
    match t {
        SQLType::Boolean => DataType::Boolean,
        SQLType::Int => DataType::Int,
        SQLType::BigInt => DataType::UnsignedLong,
        SQLType::Double => DataType::Double,
        SQLType::Varchar(_) => DataType::String,
    }
}

/// The field that a column definition declares.
pub open spec fn declared_field(c: SQLColumnDefV) -> FieldV {
    FieldV { name: c.name, data_type: data_type_of(c.data_type), nullable: c.allow_null }
}

/// The schema that the column definitions of a `CREATE TABLE` statement declare.
pub open spec fn declared_schema(cs: Seq<SQLColumnDefV>) -> Seq<FieldV> {
    Seq::new(cs.len(), |i: int| declared_field(cs[i]))
}

/// The fields that the column definitions of a `CREATE TABLE` statement declare.
fn fields_of_columns(columns: &Vec<SQLColumnDef>) -> (r: Vec<Field>)
    ensures
        fields_view(r@) == declared_schema(columns_view(columns@)),
{
    let mut fields: Vec<Field> = Vec::new();
    let mut i: usize = 0;
    while i < columns.len()
        invariant
            i <= columns.len(),
            fields.len() == i,
            forall|j: int| 0 <= j < i ==> (#[trigger] fields@[j])@ == declared_field(columns@[j]@),
        decreases columns.len() - i,
    {
        let c = &columns[i];
        fields.push(Field::new(c.name.as_str(), convert_data_type(&c.data_type), c.allow_null));
        i = i + 1;
    }
    proof {
        assert(fields_view(fields@) =~= declared_schema(columns_view(columns@)));
    }
    fields
}

/// What running the statement `a` does: a `CREATE TABLE` defines the table and gives an
/// empty plan; any other statement leaves the tables as they are and gives its plan.
pub open spec fn statement_effect(
    a: AstV,
    before: Map<Seq<char>, Seq<FieldV>>,
    after: Map<Seq<char>, Seq<FieldV>>,
    plan: PlanV,
) -> bool {
    match a {
        AstV::SQLCreateTable { name, columns } => plan == PlanV::EmptyRelation && after == before.insert(
            name,
            declared_schema(columns),
        ),
        _ => after == before && rel_of(a, before) == Some(plan),
    }
}

impl ExecutionContext {
    /// Plans the SQL statement `sql` over the known tables.
    pub fn create_logical_plan(&self, sql: &str) -> (r: Result<Box<LogicalPlan>, ExecutionError>)
        requires
            forall|a: AstV| parses_to(sql@, a) ==> !rel_aborts(a, self.tables()),
        ensures
            match r {
                Ok(plan) => exists|a: AstV| parses_to(sql@, a) && rel_of(a, self.tables()) == Some(plan@),
                Err(ExecutionError::ParserError(e)) => parse_failure(sql@, e),
                Err(ExecutionError::Custom(m)) => exists|a: AstV|
                    parses_to(sql@, a) && rel_of(a, self.tables()) is None && m@ == rel_error(a, self.tables()),
                Err(_) => false,
            },
    {
        let ast = match Parser::parse_sql(sql.to_owned()) {
            Ok(a) => a,
            Err(e) => return Err(ExecutionError::ParserError(e)),
        };
        proof {
            lemma_clone_keeps_view();
        }
        let planner = SqlToRel::new(self.schemas.duplicate());
        match planner.sql_to_rel(&ast) {
            Ok(plan) => Ok(plan),
            Err(m) => Err(ExecutionError::Custom(m)),
        }
    }

    /// Whether `sql` can be handed to [`ExecutionContext::create_logical_plan`] and
    /// [`ExecutionContext::sql`]: planning the statement it parses to, if any, does not
    /// abort.
    pub fn can_plan(&self, sql: &str) -> (r: bool)
        ensures
            r == forall|a: AstV| parses_to(sql@, a) ==> !rel_aborts(a, self.tables()),
    {
        let ast = match Parser::parse_sql(sql.to_owned()) {
            Ok(a) => a,
            Err(_) => return true,
        };
        proof {
            lemma_clone_keeps_view();
        }
        let planner = SqlToRel::new(self.schemas.duplicate());
        !planner.plan_aborts(&ast)
    }

    /// Runs the SQL statement `sql`: a `CREATE TABLE` defines a table, any other statement
    /// is planned over the known tables. The result is a data frame over this context.
    pub fn sql(&mut self, sql: &str) -> (r: Result<Box<DF>, ExecutionError>)
        requires
            forall|a: AstV| parses_to(sql@, a) && !(a is SQLCreateTable) ==> !rel_aborts(a, old(self).tables()),
        ensures
            final(self).functions() == old(self).functions(),
            final(self).data_dir() == old(self).data_dir(),
            match r {
                Ok(df) => df.context().tables() == final(self).tables() && df.context().functions()
                    == final(self).functions() && df.context().data_dir() == final(self).data_dir()
                    && exists|a: AstV| parses_to(sql@, a) && statement_effect(a, old(self).tables(), final(self).tables(), df.plan()),
                Err(ExecutionError::ParserError(e)) => final(self).tables() == old(self).tables()
                    && parse_failure(sql@, e),
                Err(ExecutionError::Custom(m)) => final(self).tables() == old(self).tables() && exists|a: AstV|
                    parses_to(sql@, a) && !(a is SQLCreateTable) && rel_of(a, old(self).tables()) is None
                    && m@ == rel_error(a, old(self).tables()),
                Err(_) => false,
            },
    {
        let ast = match Parser::parse_sql(sql.to_owned()) {
            Ok(a) => a,
            Err(e) => return Err(ExecutionError::ParserError(e)),
        };
        proof {
            lemma_clone_keeps_view();
        }
        match ast {
            ASTNode::SQLCreateTable { name, columns } => {
                let ghost av = ASTNode::SQLCreateTable { name, columns }@;
                let fields = fields_of_columns(&columns);
                let schema = Schema::new(fields);
                self.define_schema(name.as_str(), &schema);
                let df = Box::new(DF { ctx: Box::new(self.clone()), plan: Box::new(LogicalPlan::EmptyRelation) });
                assert(statement_effect(av, old(self).tables(), self.tables(), df.plan()));
                Ok(df)
            },
            _ => {
                let planner = SqlToRel::new(self.schemas.duplicate());
                match planner.sql_to_rel(&ast) {
                    Ok(plan) => {
                        let df = Box::new(DF { ctx: Box::new(self.clone()), plan });
                        assert(statement_effect(ast@, old(self).tables(), self.tables(), df.plan()));
                        Ok(df)
                    },
                    Err(m) => Err(ExecutionError::Custom(m)),
                }
            },
        }
    }
}

/// The CSV file that a plan reads, and the schema of its rows.
#[derive(Debug)]
pub struct CsvSource {
    pub filename: String,
    pub schema: Schema,
}

/// The path of the file that holds the table `table` in the directory `dir`.
pub open spec fn table_path(dir: Seq<char>, table: Seq<char>) -> Seq<char> {
    dir + "/"@ + table + ".csv"@
}

impl ExecutionContext {
    /// The CSV file that a plan that reads a table or a file scans.
    pub fn csv_source(&self, plan: &LogicalPlan) -> (r: Result<CsvSource, ExecutionError>)
        requires
            plan@ is EmptyRelation || plan@ is TableScan || plan@ is CsvFile,
        ensures
            match plan@ {
                PlanV::TableScan { table_name, schema, .. } => r matches Ok(src) && src.filename@
                    == table_path(self.data_dir(), table_name) && src.schema@ == schema,
                PlanV::CsvFile { filename, schema } => r matches Ok(src) && src.filename@ == filename
                    && src.schema@ == schema,
                _ => r matches Err(ExecutionError::Custom(m)) && m@
                    == "empty relation is not implemented yet"@,
            },
    {
        match plan {
            LogicalPlan::EmptyRelation => Err(
                ExecutionError::Custom(String::from_str("empty relation is not implemented yet")),
            ),
            LogicalPlan::TableScan { table_name, schema, .. } => {
                let path = self.data_dir.clone().concat("/").concat(table_name.as_str()).concat(".csv");
                Ok(CsvSource { filename: path, schema: schema.clone() })
            },
            LogicalPlan::CsvFile { filename, schema } => Ok(
                CsvSource { filename: filename.clone(), schema: schema.clone() },
            ),
            _ => {
                proof {
                    assert(false);
                }
                Err(ExecutionError::Custom(String::new()))
            },
        }
    }

    /// Evaluates an expression (without function calls) on a row.
    pub fn evaluate(&self, row: &Row, schema: &Schema, expr: &Expr) -> (r: Result<Box<Value>, Box<ExecutionError>>)
        requires
            !has_call(expr@),
            !eval_aborts(row@, expr@),
        ensures
            r matches Ok(v) && *v == eval(row@, expr@),
    {
        Ok(Box::new(evaluate_expr(row, expr)))
    }
}

/// Whether an expression compiles: a literal, or a binary expression of expressions that
/// compile.
pub open spec fn compilable(e: ExprV) -> bool
    decreases e,
{
    match e {
        ExprV::Literal(_) => true,
        ExprV::Binary { left, right, .. } => compilable(*left) && compilable(*right),
        _ => false,
    }
}

/// The value that a compiled expression gives, or `None` where running it fails: a sum
/// of two numbers that exceeds `u64::MAX` or of operands that are not numbers, or an
/// operator that is neither `+` nor a comparison.
pub open spec fn computed(e: ExprV) -> Option<Value>
    decreases e,
{
    match e {
        ExprV::Literal(v) => Some(v),
        ExprV::Binary { left, op, right } => match (computed(*left), computed(*right)) {
            (Some(a), Some(b)) => if op == Operator::Plus {
                match (a, b) {
                    (Value::UnsignedLong(x), Value::UnsignedLong(y)) => if x + y <= u64::MAX {
                        Some(Value::UnsignedLong((x + y) as u64))
                    } else {
                        None
                    },
                    _ => None,
                }
            } else if is_comparison(op) {
                Some(Value::Boolean(compare(op, a, b)))
            } else {
                None
            },
            _ => None,
        },
        _ => None,
    }
}

/// Computes the value of an expression that compiles.
fn compute(e: &Expr) -> (r: Option<Value>)
    requires
        compilable(e@),
    ensures
        r == computed(e@),
    decreases e,
{
    match e {
        Expr::Literal(v) => Some(v.clone()),
        Expr::Binary { left, op, right } => {
            let a = match compute(left) {
                Some(a) => a,
                None => return None,
            };
            let b = match compute(right) {
                Some(b) => b,
                None => return None,
            };
            if *op == Operator::Plus {
                match (&a, &b) {
                    (Value::UnsignedLong(x), Value::UnsignedLong(y)) => match x.checked_add(*y) {
                        Some(z) => Some(Value::UnsignedLong(z)),
                        None => None,
                    },
                    _ => None,
                }
            } else if *op == Operator::Eq || *op == Operator::NotEq || *op == Operator::Lt || *op
                == Operator::LtEq || *op == Operator::Gt || *op == Operator::GtEq {
                let lt = value_less(&a, &b);
                let gt = value_less(&b, &a);
                let eq = value_equal(&a, &b);
                let truth = if *op == Operator::Eq {
                    eq
                } else if *op == Operator::NotEq {
                    !eq
                } else if *op == Operator::Lt {
                    lt
                } else if *op == Operator::LtEq {
                    lt || eq
                } else if *op == Operator::Gt {
                    gt
                } else {
                    gt || eq
                };
                Some(Value::Boolean(truth))
            } else {
                None
            }
        },
        _ => {
            proof {
                assert(false);
            }
            None
        },
    }
}

/// An expression compiled to a function of a row.
pub struct CompiledExpr {
    expr: Expr,
}

impl CompiledExpr {
    /// The expression that was compiled.
    pub closed spec fn source(&self) -> ExprV {
        self.expr@
    }

    /// Runs the compiled expression on a row.
    pub fn call(&self, row: &Row) -> (r: Result<Box<Value>, Box<ExecutionError>>)
        requires
            compilable(self.source()),
        ensures
            match r {
                Ok(v) => computed(self.source()) == Some(*v),
                Err(e) => computed(self.source()) is None && (*e matches ExecutionError::Custom(m)
                    && m@ == "expression cannot be computed"@),
            },
    {
        match compute(&self.expr) {
            Some(v) => Ok(Box::new(v)),
            None => {
                proof {
                    reveal_strlit("expression cannot be computed");
                }
                Err(Box::new(ExecutionError::Custom(String::from_str("expression cannot be computed"))))
            },
        }
    }
}

/// Compiles an expression to a function of a row: literals and binary expressions of
/// such expressions compile.
pub fn compile_expr(expr: &Expr) -> (r: Result<CompiledExpr, Box<ExecutionError>>)
    requires
        compilable(expr@),
    ensures
        r matches Ok(c) && c.source() == expr@,
{
    Ok(CompiledExpr { expr: expr.clone() })
}

/// The message that names an unknown function.
fn unknown_function(name: &str) -> (r: String)
    ensures
        r@ == "Unknown function "@ + name@,
{
    let prefix = String::from_str("Unknown function ");
    prefix.concat(name)
}

/// A data frame: a logical plan with the context that it runs in.
#[derive(Debug)]
pub struct DF {
    ctx: Box<ExecutionContext>,
    plan: Box<LogicalPlan>,
}

impl DF {
    /// The plan of this data frame.
    pub closed spec fn plan(&self) -> PlanV {
        self.plan@
    }

    /// The context of this data frame.
    pub closed spec fn context(&self) -> ExecutionContext {
        *self.ctx
    }

    /// The context that this data frame runs in.
    pub fn execution_context(&self) -> (r: &ExecutionContext)
        ensures
            *r == self.context(),
    {
        &self.ctx
    }

    /// The logical plan of this data frame.
    pub fn logical_plan(&self) -> (r: &LogicalPlan)
        ensures
            r@ == self.plan(),
    {
        &self.plan
    }

    fn with_plan(&self, plan: LogicalPlan) -> (r: Box<DF>)
        ensures
            r.plan() == plan@,
            r.context().tables() == self.context().tables(),
            r.context().functions() == self.context().functions(),
            r.context().data_dir() == self.context().data_dir(),
    {
        Box::new(DF { ctx: Box::new((*self.ctx).clone()), plan: Box::new(plan) })
    }

    /// A projection of this data frame on `expr`.
    pub fn select(&self, expr: Vec<Expr>) -> (r: Result<Box<DF>, DataFrameError>)
        ensures
            r matches Ok(df) && df.plan() == (PlanV::Projection {
                expr: crate::rel::exprs_view(expr@),
                input: Box::new(self.plan()),
                schema: self.plan().schema(),
            }) && df.context().tables() == self.context().tables() && df.context().functions()
                == self.context().functions() && df.context().data_dir() == self.context().data_dir(),
    {
        let schema = self.plan.schema();
        let plan = LogicalPlan::Projection { expr: expr, input: Box::new((*self.plan).clone()), schema };
        Ok(self.with_plan(plan))
    }

    /// This data frame sorted by `expr`.
    pub fn sort(&self, expr: Vec<Expr>) -> (r: Result<Box<DF>, DataFrameError>)
        ensures
            r matches Ok(df) && df.plan() == (PlanV::Sort {
                expr: crate::rel::exprs_view(expr@),
                input: Box::new(self.plan()),
                schema: self.plan().schema(),
            }) && df.context().tables() == self.context().tables() && df.context().functions()
                == self.context().functions() && df.context().data_dir() == self.context().data_dir(),
    {
        let schema = self.plan.schema();
        let plan = LogicalPlan::Sort { expr: expr, input: Box::new((*self.plan).clone()), schema };
        Ok(self.with_plan(plan))
    }

    /// The rows of this data frame for which `expr` holds.
    pub fn filter(&self, expr: Expr) -> (r: Result<Box<DF>, DataFrameError>)
        ensures
            r matches Ok(df) && df.plan() == (PlanV::Selection {
                expr: expr@,
                input: Box::new(self.plan()),
                schema: self.plan().schema(),
            }) && df.context().tables() == self.context().tables() && df.context().functions()
                == self.context().functions() && df.context().data_dir() == self.context().data_dir(),
    {
        let schema = self.plan.schema();
        let plan = LogicalPlan::Selection { expr: expr, input: Box::new((*self.plan).clone()), schema };
        Ok(self.with_plan(plan))
    }

    /// An expression for the first column named `column_name`.
    pub fn col(&self, column_name: &str) -> (r: Result<Expr, DataFrameError>)
        ensures
            match r {
                Ok(e) => crate::rel::first_column_named(self.plan().schema(), column_name@) matches Some(i)
                    && e@ == ExprV::TupleValue(i as usize),
                Err(err) => crate::rel::first_column_named(self.plan().schema(), column_name@) is None
                    && (err matches DataFrameError::InvalidColumn(m) && m@ == column_name@),
            },
    {
        let schema = self.plan.schema();
        match schema.column(column_name) {
            Some((i, _)) => Ok(Expr::TupleValue(i)),
            None => Err(DataFrameError::InvalidColumn(column_name.to_owned())),
        }
    }

    /// The schema of this data frame.
    pub fn schema(&self) -> (r: Schema)
        ensures
            r@ == self.plan().schema(),
    {
        self.plan.schema()
    }
}

}
