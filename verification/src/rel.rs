use vstd::prelude::*;

verus! {

/// The type of a column.
#[derive(Debug, Clone, Copy, PartialEq, Eq, Structural)]
pub enum DataType {
    Boolean,
    Int,
    UnsignedLong,
    Double,
    String,
}

/// A named, typed column of a schema.
#[derive(Debug)]
pub struct Field {
    pub name: String,
    pub data_type: DataType,
    pub nullable: bool,
}

impl Clone for Field {
    fn clone(&self) -> (r: Self)
        ensures
            r == *self,
    {
        Field { name: self.name.clone(), data_type: self.data_type, nullable: self.nullable }
    }
}

/// The columns of a relation, in order.
#[derive(Debug)]
pub struct Schema {
    pub columns: Vec<Field>,
}

/// The mathematical model of a [`Field`].
pub struct FieldV {
    pub name: Seq<char>,
    pub data_type: DataType,
    pub nullable: bool,
}

impl View for Field {
    type V = FieldV;

    open spec fn view(&self) -> FieldV {
        FieldV { name: self.name@, data_type: self.data_type, nullable: self.nullable }
    }
}

/// The models of a list of fields.
pub open spec fn fields_view(fs: Seq<Field>) -> Seq<FieldV> {
    Seq::new(fs.len(), |i: int| fs[i]@)
}

impl View for Schema {
    type V = Seq<FieldV>;

    open spec fn view(&self) -> Seq<FieldV> {
        fields_view(self.columns@)
    }
}

impl Clone for Schema {
    fn clone(&self) -> (r: Self)
        ensures
            r@ == self@,
    {
        Schema { columns: self.columns.clone() }
    }
}

/// A scalar value.
#[derive(Debug)]
pub enum Value {
    Boolean(bool),
    UnsignedLong(u64),
    String(String),
}

impl Clone for Value {
    fn clone(&self) -> (r: Self)
        ensures
            r == *self,
    {
        match self {
            Value::Boolean(b) => Value::Boolean(*b),
            Value::UnsignedLong(n) => Value::UnsignedLong(*n),
            Value::String(s) => Value::String(s.clone()),
        }
    }
}

/// Binary operators of expressions.
#[derive(Debug, Clone, Copy, PartialEq, Eq, Structural)]
pub enum Operator {
    Eq,
    NotEq,
    Lt,
    LtEq,
    Gt,
    GtEq,
    Plus,
    Minus,
    Multiply,
    Divide,
    Modulus,
    And,
    Or,
}

/// Relational expressions.
#[derive(Debug)]
pub enum Expr {
    /// Index of a column in the input tuple.
    TupleValue(usize),
    /// A literal value.
    Literal(Value),
    /// A binary expression such as `a > b`.
    Binary { left: Box<Expr>, op: Operator, right: Box<Expr> },
    /// A sort key with its direction.
    Sort { expr: Box<Expr>, asc: bool },
    /// A call of a scalar function.
    ScalarFunction { name: String, args: Vec<Expr> },
}

/// The mathematical model of an [`Expr`].
pub enum ExprV {
    TupleValue(usize),
    Literal(Value),
    Binary { left: Box<ExprV>, op: Operator, right: Box<ExprV> },
    Sort { expr: Box<ExprV>, asc: bool },
    ScalarFunction { name: Seq<char>, args: Seq<ExprV> },
}

pub open spec fn exprs_view(s: Seq<Expr>) -> Seq<ExprV>
    decreases s,
{
    if s.len() == 0 {
        Seq::empty()
    } else {
        seq![expr_view(s[0])] + exprs_view(s.subrange(1, s.len() as int))
    }
}

pub open spec fn expr_view(e: Expr) -> ExprV
    decreases e,
{
    match e {
        Expr::TupleValue(i) => ExprV::TupleValue(i),
        Expr::Literal(v) => ExprV::Literal(v),
        Expr::Binary { left, op, right } => ExprV::Binary {
            left: Box::new(expr_view(*left)),
            op,
            right: Box::new(expr_view(*right)),
        },
        Expr::Sort { expr, asc } => ExprV::Sort { expr: Box::new(expr_view(*expr)), asc },
        Expr::ScalarFunction { name, args } => ExprV::ScalarFunction {
            name: name@,
            args: exprs_view(args@),
        },
    }
}

impl View for Expr {
    type V = ExprV;

    open spec fn view(&self) -> ExprV {
        expr_view(*self)
    }
}


pub proof fn lemma_exprs_view(s: Seq<Expr>)
    ensures
        exprs_view(s).len() == s.len(),
        forall|i: int| 0 <= i < s.len() ==> #[trigger] exprs_view(s)[i] == expr_view(s[i]),
    decreases s.len(),
{
    if s.len() > 0 {
        lemma_exprs_view(s.subrange(1, s.len() as int));
    }
}

pub proof fn lemma_exprs_view_eq(a: Seq<Expr>, b: Seq<Expr>)
    requires
        a.len() == b.len(),
        forall|i: int| 0 <= i < a.len() ==> expr_view(#[trigger] a[i]) == expr_view(b[i]),
    ensures
        exprs_view(a) == exprs_view(b),
{
    lemma_exprs_view(a);
    lemma_exprs_view(b);
    assert(exprs_view(a) =~= exprs_view(b));
}

impl Clone for Expr {
    fn clone(&self) -> (r: Self)
        ensures
            r@ == self@,
        decreases self,
    {
        match self {
            Expr::TupleValue(i) => Expr::TupleValue(*i),
            Expr::Literal(v) => Expr::Literal(v.clone()),
            Expr::Binary { left, op, right } => Expr::Binary {
                left: Box::new((**left).clone()),
                op: *op,
                right: Box::new((**right).clone()),
            },
            Expr::Sort { expr, asc } => Expr::Sort { expr: Box::new((**expr).clone()), asc: *asc },
            Expr::ScalarFunction { name, args } => {
                let mut out: Vec<Expr> = Vec::new();
                let mut i: usize = 0;
                while i < args.len()
                    invariant
                        i <= args.len(),
                        out.len() == i,
                        self is ScalarFunction,
                        self->ScalarFunction_args == *args,
                        forall|j: int| 0 <= j < i ==> expr_view(#[trigger] out@[j]) == expr_view(args@[j]),
                    decreases args.len() - i,
                {
                    let c = args[i].clone();
                    out.push(c);
                    i = i + 1;
                }
                proof {
                    lemma_exprs_view_eq(out@, args@);
                }
                Expr::ScalarFunction { name: name.clone(), args: out }
            },
        }
    }
}


impl Field {
    pub fn new(name: &str, data_type: DataType, nullable: bool) -> (r: Field)
        ensures
            r.name@ == name@,
            r.data_type == data_type,
            r.nullable == nullable,
    {
        Field { name: name.to_owned(), data_type, nullable }
    }
}

impl Schema {
    pub fn new(columns: Vec<Field>) -> (r: Schema)
        ensures
            r@ == fields_view(columns@),
    {
        Schema { columns }
    }

    pub fn empty() -> (r: Schema)
        ensures
            r@ == Seq::<FieldV>::empty(),
    {
        let r = Schema { columns: Vec::new() };
        assert(r@ =~= Seq::<FieldV>::empty());
        r
    }

    /// The index and field of the first column named `name`.
    pub fn column(&self, name: &str) -> (r: Option<(usize, &Field)>)
        ensures
            match r {
                Some((i, f)) => first_column_named(self@, name@) == Some(i as int) && f@ == self@[i as int],
                None => first_column_named(self@, name@) is None,
            },
    {
        match position_of_column(&self.columns, name) {
            Some(i) => Some((i, &self.columns[i])),
            None => None,
        }
    }
}

/// The characters of a text.
pub fn chars_of(s: &str) -> (r: Vec<char>)
    ensures
        r@ == s@,
{
    let mut v: Vec<char> = Vec::new();
    for c in it: s.chars()
        invariant
            v@ == it.seq().take(it.index() as int),
    {
        v.push(c);
    }
    v
}

/// Whether two texts are equal.
pub fn same_text(a: &String, b: &str) -> (r: bool)
    ensures
        r == (a@ == b@),
{
    let owned = b.to_owned();
    *a == owned
}

/// The index of the first field named `name`, if there is one.
pub open spec fn first_column_named(columns: Seq<FieldV>, name: Seq<char>) -> Option<int> {
    if exists|i: int| 0 <= i < columns.len() && #[trigger] columns[i].name == name {
        let i = choose|i: int|
            0 <= i < columns.len() && #[trigger] columns[i].name == name && forall|j: int|
                0 <= j < i ==> #[trigger] columns[j].name != name;
        Some(i)
    } else {
        None
    }
}

pub proof fn lemma_first_column_named(columns: Seq<FieldV>, name: Seq<char>, i: int)
    requires
        0 <= i < columns.len(),
        columns[i].name == name,
        forall|j: int| 0 <= j < i ==> #[trigger] columns[j].name != name,
    ensures
        first_column_named(columns, name) == Some(i),
{
    let k = choose|k: int|
        0 <= k < columns.len() && #[trigger] columns[k].name == name && forall|j: int|
            0 <= j < k ==> #[trigger] columns[j].name != name;
    assert(0 <= k < columns.len() && columns[k].name == name && forall|j: int|
        0 <= j < k ==> #[trigger] columns[j].name != name);
    if k < i {
        assert(columns[k].name != name);
    }
    if i < k {
        assert(columns[i].name != name);
    }
}

pub proof fn lemma_first_column_named_found(columns: Seq<FieldV>, name: Seq<char>)
    ensures
        match first_column_named(columns, name) {
            Some(i) => 0 <= i < columns.len() && columns[i].name == name && forall|j: int|
                0 <= j < i ==> #[trigger] columns[j].name != name,
            None => forall|j: int| 0 <= j < columns.len() ==> #[trigger] columns[j].name != name,
        },
{
    if exists|i: int| 0 <= i < columns.len() && #[trigger] columns[i].name == name {
        let i = choose|i: int| 0 <= i < columns.len() && #[trigger] columns[i].name == name;
        lemma_first_exists(columns, name, i);
    }
}

proof fn lemma_first_exists(columns: Seq<FieldV>, name: Seq<char>, i: int)
    requires
        0 <= i < columns.len(),
        columns[i].name == name,
    ensures
        exists|k: int|
            0 <= k < columns.len() && #[trigger] columns[k].name == name && forall|j: int|
                0 <= j < k ==> #[trigger] columns[j].name != name,
    decreases i,
{
    if exists|j: int| 0 <= j < i && #[trigger] columns[j].name == name {
        let j = choose|j: int| 0 <= j < i && #[trigger] columns[j].name == name;
        lemma_first_exists(columns, name, j);
    } else {
        assert(forall|j: int| 0 <= j < i ==> #[trigger] columns[j].name != name);
    }
}

/// The index of the first of `columns` named `name`.
pub fn position_of_column(columns: &Vec<Field>, name: &str) -> (r: Option<usize>)
    ensures
        match r {
            Some(i) => first_column_named(fields_view(columns@), name@) == Some(i as int) && i < columns.len()
                && columns@[i as int].name@ == name@,
            None => first_column_named(fields_view(columns@), name@) is None && forall|j: int|
                0 <= j < columns.len() ==> #[trigger] columns@[j].name@ != name@,
        },
{
    let mut i: usize = 0;
    while i < columns.len()
        invariant
            i <= columns.len(),
            forall|j: int| 0 <= j < i ==> #[trigger] columns@[j].name@ != name@,
        decreases columns.len() - i,
    {
        if same_text(&columns[i].name, name) {
            proof {
                lemma_first_column_named(fields_view(columns@), name@, i as int);
            }
            return Some(i);
        }
        i = i + 1;
    }
    proof {
        assert(forall|j: int| 0 <= j < columns.len() ==> #[trigger] fields_view(columns@)[j].name == columns@[j].name@);
    }
    None
}

/// A tuple of values.
#[derive(Debug)]
pub struct Row {
    pub values: Vec<Value>,
}

impl View for Row {
    type V = Seq<Value>;

    open spec fn view(&self) -> Seq<Value> {
        self.values@
    }
}

impl Clone for Row {
    fn clone(&self) -> (r: Self)
        ensures
            r@ == self@,
    {
        Row { values: self.values.clone() }
    }
}

impl Row {
    pub fn new(values: Vec<Value>) -> (r: Row)
        ensures
            r@ == values@,
    {
        Row { values }
    }

    /// The values of the row as text, separated by commas.
    pub fn to_string(&self) -> (r: String)
        ensures
            r@ == row_text(self@),
    {
        let mut out = String::new();
        let mut i: usize = 0;
        while i < self.values.len()
            invariant
                i <= self.values.len(),
                out@ == row_text(self@.take(i as int)),
            decreases self.values.len() - i,
        {
            proof {
                assert(self@.take(i as int + 1).drop_last() == self@.take(i as int));
                assert(self@.take(i as int + 1).last() == self@[i as int]);
            }
            if i > 0 {
                out = out.concat(",");
            }
            let text = value_to_string(&self.values[i]);
            out = out.concat(text.as_str());
            proof {
                reveal_strlit(",");
            }
            i = i + 1;
        }
        proof {
            assert(self@.take(self@.len() as int) == self@);
        }
        out
    }
}

/// The decimal digit for `d`.
pub open spec fn digit_char(d: nat) -> char {
    if d == 0 { '0' } else if d == 1 { '1' } else if d == 2 { '2' } else if d == 3 { '3' }
    else if d == 4 { '4' } else if d == 5 { '5' } else if d == 6 { '6' } else if d == 7 { '7' }
    else if d == 8 { '8' } else { '9' }
}

/// The decimal text of a number, without leading zeros.
pub open spec fn decimal_text(n: nat) -> Seq<char>
    decreases n,
{
    if n < 10 {
        seq![digit_char(n)]
    } else {
        decimal_text(n / 10).push(digit_char(n % 10))
    }
}

/// The text of a value.
pub open spec fn value_text(v: Value) -> Seq<char> {
    match v {
        Value::Boolean(b) => if b { "true"@ } else { "false"@ },
        Value::UnsignedLong(n) => decimal_text(n as nat),
        Value::String(s) => s@,
    }
}

/// The texts of values, separated by commas.
pub open spec fn row_text(values: Seq<Value>) -> Seq<char>
    decreases values.len(),
{
    if values.len() == 0 {
        Seq::empty()
    } else if values.len() == 1 {
        value_text(values[0])
    } else {
        row_text(values.drop_last()) + ","@ + value_text(values.last())
    }
}

fn digit_text(d: u64) -> (r: &'static str)
    requires
        d < 10,
    ensures
        r@ == seq![digit_char(d as nat)],
{
    proof {
        reveal_strlit("0");
        reveal_strlit("1");
        reveal_strlit("2");
        reveal_strlit("3");
        reveal_strlit("4");
        reveal_strlit("5");
        reveal_strlit("6");
        reveal_strlit("7");
        reveal_strlit("8");
        reveal_strlit("9");
    }
    if d == 0 { "0" } else if d == 1 { "1" } else if d == 2 { "2" } else if d == 3 { "3" }
    else if d == 4 { "4" } else if d == 5 { "5" } else if d == 6 { "6" } else if d == 7 { "7" }
    else if d == 8 { "8" } else { "9" }
}

/// The decimal text of a number.
pub fn decimal_string(n: u64) -> (r: String)
    ensures
        r@ == decimal_text(n as nat),
    decreases n,
{
    if n < 10 {
        String::from_str(digit_text(n))
    } else {
        let head = decimal_string(n / 10);
        head.concat(digit_text(n % 10))
    }
}

/// The text of a value.
pub fn value_to_string(v: &Value) -> (r: String)
    ensures
        r@ == value_text(*v),
{
    match v {
        Value::Boolean(b) => if *b { String::from_str("true") } else { String::from_str("false") },
        Value::UnsignedLong(n) => decimal_string(*n),
        Value::String(s) => s.clone(),
    }
}

/// The description of a scalar function: its name, parameters and result type.
#[derive(Debug)]
pub struct FunctionMeta {
    pub name: String,
    pub args: Vec<Field>,
    pub return_type: DataType,
}

/// The mathematical model of a [`FunctionMeta`].
pub struct FunctionMetaV {
    pub name: Seq<char>,
    pub args: Seq<Field>,
    pub return_type: DataType,
}

impl View for FunctionMeta {
    type V = FunctionMetaV;

    open spec fn view(&self) -> FunctionMetaV {
        FunctionMetaV { name: self.name@, args: self.args@, return_type: self.return_type }
    }
}

impl Clone for FunctionMeta {
    fn clone(&self) -> (r: Self)
        ensures
            r@ == self@,
    {
        FunctionMeta {
            name: self.name.clone(),
            args: self.args.clone(),
            return_type: self.return_type,
        }
    }
}

/// A logical query plan.
#[derive(Debug)]
#[allow(inconsistent_fields)]
pub enum LogicalPlan {
    EmptyRelation,
    TableScan { schema_name: String, table_name: String, schema: Schema },
    CsvFile { filename: String, schema: Schema },
    Projection { expr: Vec<Expr>, input: Box<LogicalPlan>, schema: Schema },
    Selection { expr: Expr, input: Box<LogicalPlan>, schema: Schema },
    Sort { expr: Vec<Expr>, input: Box<LogicalPlan>, schema: Schema },
    Limit { limit: usize, input: Box<LogicalPlan>, schema: Schema },
}

/// The mathematical model of a [`LogicalPlan`].
#[allow(inconsistent_fields)]
pub enum PlanV {
    EmptyRelation,
    TableScan { schema_name: Seq<char>, table_name: Seq<char>, schema: Seq<FieldV> },
    CsvFile { filename: Seq<char>, schema: Seq<FieldV> },
    Projection { expr: Seq<ExprV>, input: Box<PlanV>, schema: Seq<FieldV> },
    Selection { expr: ExprV, input: Box<PlanV>, schema: Seq<FieldV> },
    Sort { expr: Seq<ExprV>, input: Box<PlanV>, schema: Seq<FieldV> },
    Limit { limit: usize, input: Box<PlanV>, schema: Seq<FieldV> },
}

impl PlanV {
    /// The schema of the relation that a plan produces.
    pub open spec fn schema(self) -> Seq<FieldV> {
        match self {
            PlanV::EmptyRelation => Seq::empty(),
            PlanV::TableScan { schema, .. } => schema,
            PlanV::CsvFile { schema, .. } => schema,
            PlanV::Projection { schema, .. } => schema,
            PlanV::Selection { schema, .. } => schema,
            PlanV::Sort { schema, .. } => schema,
            PlanV::Limit { schema, .. } => schema,
        }
    }
}

pub open spec fn plan_view(p: LogicalPlan) -> PlanV
    decreases p,
{
    match p {
        LogicalPlan::EmptyRelation => PlanV::EmptyRelation,
        LogicalPlan::TableScan { schema_name, table_name, schema } => PlanV::TableScan {
            schema_name: schema_name@,
            table_name: table_name@,
            schema: schema@,
        },
        LogicalPlan::CsvFile { filename, schema } => PlanV::CsvFile {
            filename: filename@,
            schema: schema@,
        },
        LogicalPlan::Projection { expr, input, schema } => PlanV::Projection {
            expr: exprs_view(expr@),
            input: Box::new(plan_view(*input)),
            schema: schema@,
        },
        LogicalPlan::Selection { expr, input, schema } => PlanV::Selection {
            expr: expr@,
            input: Box::new(plan_view(*input)),
            schema: schema@,
        },
        LogicalPlan::Sort { expr, input, schema } => PlanV::Sort {
            expr: exprs_view(expr@),
            input: Box::new(plan_view(*input)),
            schema: schema@,
        },
        LogicalPlan::Limit { limit, input, schema } => PlanV::Limit {
            limit,
            input: Box::new(plan_view(*input)),
            schema: schema@,
        },
    }
}

impl View for LogicalPlan {
    type V = PlanV;

    open spec fn view(&self) -> PlanV {
        plan_view(*self)
    }
}

/// Copies a list of expressions.
pub fn clone_exprs(v: &Vec<Expr>) -> (r: Vec<Expr>)
    ensures
        exprs_view(r@) == exprs_view(v@),
{
    let mut out: Vec<Expr> = Vec::new();
    let mut i: usize = 0;
    while i < v.len()
        invariant
            i <= v.len(),
            out.len() == i,
            forall|j: int| 0 <= j < i ==> expr_view(#[trigger] out@[j]) == expr_view(v@[j]),
        decreases v.len() - i,
    {
        out.push(v[i].clone());
        i = i + 1;
    }
    proof {
        lemma_exprs_view_eq(out@, v@);
    }
    out
}

impl Clone for LogicalPlan {
    fn clone(&self) -> (r: Self)
        ensures
            r@ == self@,
        decreases self,
    {
        match self {
            LogicalPlan::EmptyRelation => LogicalPlan::EmptyRelation,
            LogicalPlan::TableScan { schema_name, table_name, schema } => LogicalPlan::TableScan {
                schema_name: schema_name.clone(),
                table_name: table_name.clone(),
                schema: schema.clone(),
            },
            LogicalPlan::CsvFile { filename, schema } => LogicalPlan::CsvFile {
                filename: filename.clone(),
                schema: schema.clone(),
            },
            LogicalPlan::Projection { expr, input, schema } => LogicalPlan::Projection {
                expr: clone_exprs(expr),
                input: Box::new((**input).clone()),
                schema: schema.clone(),
            },
            LogicalPlan::Selection { expr, input, schema } => LogicalPlan::Selection {
                expr: expr.clone(),
                input: Box::new((**input).clone()),
                schema: schema.clone(),
            },
            LogicalPlan::Sort { expr, input, schema } => LogicalPlan::Sort {
                expr: clone_exprs(expr),
                input: Box::new((**input).clone()),
                schema: schema.clone(),
            },
            LogicalPlan::Limit { limit, input, schema } => LogicalPlan::Limit {
                limit: *limit,
                input: Box::new((**input).clone()),
                schema: schema.clone(),
            },
        }
    }
}

impl LogicalPlan {
    /// The schema of the relation that this plan produces.
    pub fn schema(&self) -> (r: Schema)
        ensures
            r@ == self@.schema(),
    {
        match self {
            LogicalPlan::EmptyRelation => Schema::empty(),
            LogicalPlan::TableScan { schema, .. } => schema.clone(),
            LogicalPlan::CsvFile { schema, .. } => schema.clone(),
            LogicalPlan::Projection { schema, .. } => schema.clone(),
            LogicalPlan::Selection { schema, .. } => schema.clone(),
            LogicalPlan::Sort { schema, .. } => schema.clone(),
            LogicalPlan::Limit { schema, .. } => schema.clone(),
        }
    }
}

}
