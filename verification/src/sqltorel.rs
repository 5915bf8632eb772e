use vstd::prelude::*;

use crate::catalog::NameMap;
use crate::rel::{
    expr_view, exprs_view, first_column_named, lemma_exprs_view, lemma_first_column_named_found,
    fields_view, position_of_column, DataType, Expr, ExprV, Field, FieldV, LogicalPlan, Operator, PlanV, Schema, Value,
};
use crate::sql::{ast_view, asts_view, opt_ast_view, lemma_asts_view, ASTNode, AstV, SQLOperator};

verus! {

/// The expression that a SQL expression denotes over the columns `cols`, or `None` where
/// the planner rejects it.
pub open spec fn rex_of(a: AstV, cols: Seq<FieldV>) -> Option<ExprV>
    decreases a,
{
    match a {
        AstV::SQLLiteralInt(n) => Some(ExprV::Literal(Value::UnsignedLong(n as u64))),
        AstV::SQLIdentifier { id } => match first_column_named(cols, id) {
            Some(i) => Some(ExprV::TupleValue(i as usize)),
            None => None,
        },
        AstV::SQLBinaryExpr { left, op, right } => match (rex_of(*left, cols), rex_of(*right, cols)) {
            (Some(l), Some(r)) => Some(ExprV::Binary { left: Box::new(l), op: Operator::Gt, right: Box::new(r) }),
            _ => None,
        },
        AstV::SQLFunction { id, args } => match rex_list(args, cols) {
            Some(es) => Some(ExprV::ScalarFunction { name: id, args: es }),
            None => None,
        },
        _ => None,
    }
}

/// The expressions that a list of SQL expressions denotes, or `None` if one is rejected.
pub open spec fn rex_list(items: Seq<AstV>, cols: Seq<FieldV>) -> Option<Seq<ExprV>>
    decreases items,
{
    if items.len() == 0 {
        Some(Seq::empty())
    } else {
        match rex_list(items.subrange(0, items.len() - 1), cols) {
            Some(es) => match rex_of(items[items.len() - 1], cols) {
                Some(e) => Some(es.push(e)),
                None => None,
            },
            None => None,
        }
    }
}

/// Whether planning the SQL expression `a` aborts: it meets an operator other than `>`
/// before it meets an error.
pub open spec fn rex_aborts(a: AstV, cols: Seq<FieldV>) -> bool
    decreases a,
{
    match a {
        AstV::SQLBinaryExpr { left, op, right } => op != SQLOperator::GT || rex_aborts(*left, cols)
            || (rex_of(*left, cols) is Some && rex_aborts(*right, cols)),
        AstV::SQLFunction { args, .. } => rex_list_aborts(args, cols),
        _ => false,
    }
}

/// Whether planning a list of SQL expressions, from the first on, aborts before it meets
/// an error.
pub open spec fn rex_list_aborts(items: Seq<AstV>, cols: Seq<FieldV>) -> bool
    decreases items,
{
    items.len() > 0 && (rex_list_aborts(items.subrange(0, items.len() - 1), cols) || (rex_list(
        items.subrange(0, items.len() - 1),
        cols,
    ) is Some && rex_aborts(items[items.len() - 1], cols)))
}

/// The text that the `Debug` form of a syntax tree gives.
pub uninterp spec fn ast_debug(a: AstV) -> Seq<char>;

/// The message with which planning the SQL expression `a` fails, where it fails: the
/// error of the first operand or argument that fails.
pub open spec fn rex_error(a: AstV, cols: Seq<FieldV>) -> Seq<char>
    decreases a,
{
    match a {
        AstV::SQLIdentifier { .. } => "Invalid identifier"@,
        AstV::SQLBinaryExpr { left, right, .. } => if rex_of(*left, cols) is None {
            rex_error(*left, cols)
        } else {
            rex_error(*right, cols)
        },
        AstV::SQLFunction { args, .. } => list_error(args, cols),
        _ => "Unsupported ast node "@ + ast_debug(a),
    }
}

/// The message with which planning a list of SQL expressions fails: that of its first
/// expression that fails.
pub open spec fn list_error(items: Seq<AstV>, cols: Seq<FieldV>) -> Seq<char>
    decreases items,
{
    if items.len() == 0 {
        Seq::empty()
    } else if rex_list(items.subrange(0, items.len() - 1), cols) is None {
        list_error(items.subrange(0, items.len() - 1), cols)
    } else {
        rex_error(items[items.len() - 1], cols)
    }
}

/// Whether every expression is a column reference or a function call: the expressions
/// that a projection gives a field for.
pub open spec fn all_projectable(es: Seq<ExprV>) -> bool {
    forall|k: int| 0 <= k < es.len() ==> (#[trigger] es[k] is TupleValue || es[k] is ScalarFunction)
}

/// The field that a projection gives for an expression: the column a reference names,
/// or a nullable `Double` named after the function that a call calls.
pub open spec fn projected_field(e: ExprV, cols: Seq<FieldV>) -> FieldV {
    match e {
        ExprV::ScalarFunction { name, .. } => FieldV { name, data_type: DataType::Double, nullable: true },
        _ => cols[e->TupleValue_0 as int],
    }
}

/// The fields that a projection on `es` selects from `cols`.
pub open spec fn projected_fields(es: Seq<ExprV>, cols: Seq<FieldV>) -> Seq<FieldV> {
    Seq::new(es.len(), |k: int| projected_field(es[k], cols))
}

/// The relation that the input of a `SELECT` denotes.
pub open spec fn input_of(relation: Option<Box<AstV>>, schemas: Map<Seq<char>, Seq<FieldV>>) -> Option<PlanV>
    decreases relation,
{
    match relation {
        Some(r) => rel_of(*r, schemas),
        None => Some(PlanV::EmptyRelation),
    }
}

/// The logical plan that a SQL statement denotes over the tables `schemas`, or `None`
/// where the planner rejects it.
pub open spec fn rel_of(a: AstV, schemas: Map<Seq<char>, Seq<FieldV>>) -> Option<PlanV>
    decreases a,
{
    match a {
        AstV::SQLSelect { projection, relation, selection, .. } => match input_of(relation, schemas) {
            None => None,
            Some(input) => {
                let cols = input.schema();
                match rex_list(projection, cols) {
                    None => None,
                    Some(es) => {
                        let fields = projected_fields(es, cols);
                        match selection {
                            Some(f) => match rex_of(*f, cols) {
                                Some(fe) => Some(PlanV::Projection {
                                    expr: es,
                                    input: Box::new(PlanV::Selection { expr: fe, input: Box::new(input), schema: cols }),
                                    schema: fields,
                                }),
                                None => None,
                            },
                            None => Some(PlanV::Projection { expr: es, input: Box::new(input), schema: fields }),
                        }
                    },
                }
            },
        },
        AstV::SQLIdentifier { id } => if schemas.contains_key(id) {
            Some(PlanV::TableScan { schema_name: "default"@, table_name: id, schema: schemas[id] })
        } else {
            None
        },
        _ => None,
    }
}

/// The message with which planning the SQL statement `a` fails, where it fails: that of
/// its input relation, else of its first projected expression that fails, else of its
/// filter.
pub open spec fn rel_error(a: AstV, schemas: Map<Seq<char>, Seq<FieldV>>) -> Seq<char>
    decreases a,
{
    match a {
        AstV::SQLSelect { projection, relation, selection, .. } => match input_of(relation, schemas) {
            None => rel_error(*relation->0, schemas),
            Some(input) => {
                let cols = input.schema();
                if rex_list(projection, cols) is None {
                    list_error(projection, cols)
                } else {
                    rex_error(*selection->0, cols)
                }
            },
        },
        AstV::SQLIdentifier { .. } => Seq::empty(),
        _ => "sql_to_rel does not support this relation: "@ + ast_debug(a),
    }
}

/// Whether planning the SQL statement `a` aborts: it names a table with no schema, or
/// projects an expression that is neither a column nor a function call, or meets an
/// operator other than `>`, before it meets an error.
pub open spec fn rel_aborts(a: AstV, schemas: Map<Seq<char>, Seq<FieldV>>) -> bool
    decreases a,
{
    match a {
        AstV::SQLSelect { projection, relation, selection, .. } => {
            ||| (relation matches Some(r) && rel_aborts(*r, schemas))
            ||| (input_of(relation, schemas) matches Some(input) && {
                let cols = input.schema();
                ||| rex_list_aborts(projection, cols)
                ||| (rex_list(projection, cols) matches Some(es) && {
                    ||| !all_projectable(es)
                    ||| (selection matches Some(f) && rex_aborts(*f, cols))
                })
            })
        },
        AstV::SQLIdentifier { id } => !schemas.contains_key(id),
        _ => false,
    }
}

pub proof fn lemma_rex_column(a: AstV, cols: Seq<FieldV>)
    ensures
        rex_of(a, cols) matches Some(ExprV::TupleValue(i)) ==> i < cols.len(),
{
    if let AstV::SQLIdentifier { id } = a {
        lemma_first_column_named_found(cols, id);
    }
}

/// Plans SQL statements over a set of known tables.
pub struct SqlToRel {
    default_schema: Option<String>,
    schemas: NameMap<Schema>,
}

impl SqlToRel {
    /// The schemas of the known tables, by table name.
    pub closed spec fn tables(&self) -> Map<Seq<char>, Seq<FieldV>> {
        self.schemas@
    }

    pub fn new(schemas: NameMap<Schema>) -> (r: Self)
        ensures
            r.tables() == schemas@,
    {
        SqlToRel { default_schema: None, schemas }
    }

    /// Plans a SQL statement.
    pub fn sql_to_rel(&self, sql: &ASTNode) -> (r: Result<Box<LogicalPlan>, String>)
        requires
            !rel_aborts(sql@, self.tables()),
        ensures
            match r {
                Ok(plan) => rel_of(sql@, self.tables()) == Some(plan@),
                Err(m) => rel_of(sql@, self.tables()) is None && m@ == rel_error(sql@, self.tables()),
            },
        decreases sql,
    {
        match sql {
            ASTNode::SQLSelect { projection, relation, selection, .. } => {
                proof {
                    assert(sql@->SQLSelect_relation == opt_ast_view(*relation));
                    assert(sql@->SQLSelect_selection == opt_ast_view(*selection));
                    assert(sql@->SQLSelect_projection == asts_view(projection@));
                }
                // the input relation, which gives the columns that the expressions refer to
                let input = match relation {
                    Some(r) => match self.sql_to_rel(r) {
                        Ok(p) => p,
                        Err(m) => {
                            assert(rel_of(sql@, self.tables()) is None);
                            return Err(m);
                        },
                    },
                    None => Box::new(LogicalPlan::EmptyRelation),
                };
                let input_schema = input.schema();
                assert(input_of(sql@->SQLSelect_relation, self.tables()) == Some(input@));
                let expr = match self.sql_to_rex_list(projection, &input_schema) {
                    Ok(es) => es,
                    Err(m) => {
                        assert(rel_of(sql@, self.tables()) is None);
                        return Err(m);
                    },
                };
                proof {
                    lemma_rex_list_columns(asts_view(projection@), input_schema@);
                    lemma_exprs_view(expr@);
                }
                let projection_schema = Schema::new(fields_of(&expr, &input_schema));
                match selection {
                    Some(filter_expr) => {
                        let filter = match self.sql_to_rex(filter_expr, &input_schema) {
                            Ok(e) => e,
                            Err(m) => {
                                assert(rex_of(*sql@->SQLSelect_selection->0, input_schema@) is None);
                                assert(rel_of(sql@, self.tables()) is None);
                                return Err(m);
                            },
                        };
                        let selection_rel = LogicalPlan::Selection {
                            expr: filter,
                            input: input,
                            schema: input_schema.clone(),
                        };
                        let ghost sel = PlanV::Selection { expr: filter@, input: Box::new(input@), schema: input_schema@ };
                        assert(selection_rel@ == sel);
                        let plan = Box::new(
                            LogicalPlan::Projection {
                                expr: expr,
                                input: Box::new(selection_rel),
                                schema: projection_schema,
                            },
                        );
                        assert(plan@ == PlanV::Projection { expr: exprs_view(expr@), input: Box::new(sel), schema: projection_schema@ });
                        Ok(plan)
                    },
                    None => Ok(
                        Box::new(LogicalPlan::Projection { expr: expr, input: input, schema: projection_schema }),
                    ),
                }
            },
            ASTNode::SQLIdentifier { id } => {
                match self.schemas.get(id.as_str()) {
                    Some(schema) => {
                        let default_name = String::from_str("default");
                        proof {
                            reveal_strlit("default");
                        }
                        let r = Box::new(
                                LogicalPlan::TableScan {
                                    schema_name: default_name,
                                    table_name: id.clone(),
                                    schema: schema.clone(),
                                },
                            );
                        Ok(r)
                    },
                    None => {
                        proof {
                            assert(false);
                        }
                        Err(String::new())
                    },
                }
            },
            _ => {
                proof {
                    assert(!(sql@ is SQLSelect) && !(sql@ is SQLIdentifier));
                    assert(rel_of(sql@, self.tables()) is None);
                    reveal_strlit("sql_to_rel does not support this relation: ");
                }
                let prefix = String::from_str("sql_to_rel does not support this relation: ");
                let text = debug_text(sql);
                Err(prefix.concat(text.as_str()))
            },
        }
    }

    /// Plans the expressions of a list, in order, stopping at the first error.
    fn sql_to_rex_list(&self, items: &Vec<ASTNode>, tt: &Schema) -> (r: Result<Vec<Expr>, String>)
        requires
            !rex_list_aborts(asts_view(items@), tt@),
        ensures
            match r {
                Ok(es) => rex_list(asts_view(items@), tt@) == Some(exprs_view(es@)),
                Err(m) => rex_list(asts_view(items@), tt@) is None && m@ == list_error(asts_view(items@), tt@),
            },
        decreases items,
    {
        let ghost all = asts_view(items@);
        proof {
            lemma_asts_view(items@);
        }
        let mut out: Vec<Expr> = Vec::new();
        let mut i: usize = 0;
        while i < items.len()
            invariant
                i <= items.len(),
                all == asts_view(items@),
                all.len() == items.len(),
                forall|k: int| 0 <= k < items.len() ==> #[trigger] all[k] == ast_view(items@[k]),
                !rex_list_aborts(all, tt@),
                rex_list(all.take(i as int), tt@) == Some(exprs_view(out@)),
                !rex_list_aborts(all.take(i as int), tt@),
            decreases items.len() - i,
        {
            proof {
                lemma_rex_list_prefix(all, tt@, i as int + 1);
                assert(all.take(i as int + 1).drop_last() == all.take(i as int));
                assert(all.take(i as int + 1).last() == all[i as int]);
                assert(decreases_to!(items => items@[i as int]));
            }
            match self.sql_to_rex(&items[i], tt) {
                Ok(e) => {
                    proof {
                        lemma_exprs_view(out@);
                        lemma_exprs_view(out@.push(e));
                        assert(exprs_view(out@.push(e)) =~= exprs_view(out@).push(e@));
                    }
                    out.push(e);
                },
                Err(m) => {
                    proof {
                        lemma_rex_list_none_extends(all, tt@, i as int + 1);
                        lemma_list_error_extends(all, tt@, i as int + 1);
                    }
                    return Err(m);
                },
            }
            i = i + 1;
        }
        proof {
            assert(all.take(items.len() as int) == all);
        }
        Ok(out)
    }

    /// Plans a SQL expression over the columns `tt`.
    pub fn sql_to_rex(&self, sql: &ASTNode, tt: &Schema) -> (r: Result<Expr, String>)
        requires
            !rex_aborts(sql@, tt@),
        ensures
            match r {
                Ok(e) => rex_of(sql@, tt@) == Some(e@),
                Err(m) => rex_of(sql@, tt@) is None && m@ == rex_error(sql@, tt@),
            },
        decreases sql,
    {
        match sql {
            ASTNode::SQLLiteralInt(n) => Ok(Expr::Literal(Value::UnsignedLong(*n as u64))),
            ASTNode::SQLIdentifier { id } => {
                match position_of_column(&tt.columns, id.as_str()) {
                    Some(index) => Ok(Expr::TupleValue(index)),
                    None => {
                        proof {
                            reveal_strlit("Invalid identifier");
                        }
                        Err(String::from_str("Invalid identifier"))
                    },
                }
            },
            ASTNode::SQLBinaryExpr { left, op, right } => {
                let operator = match op {
                    SQLOperator::GT => Operator::Gt,
                    _ => {
                        proof {
                            assert(false);
                        }
                        Operator::Gt
                    },
                };
                let l = match self.sql_to_rex(left, tt) {
                    Ok(e) => e,
                    Err(m) => return Err(m),
                };
                let r = match self.sql_to_rex(right, tt) {
                    Ok(e) => e,
                    Err(m) => return Err(m),
                };
                Ok(Expr::Binary { left: Box::new(l), op: operator, right: Box::new(r) })
            },
            ASTNode::SQLFunction { id, args } => {
                proof {
                    assert(sql@->SQLFunction_args == asts_view(args@));
                }
                let es = match self.sql_to_rex_list(args, tt) {
                    Ok(es) => es,
                    Err(m) => return Err(m),
                };
                Ok(Expr::ScalarFunction { name: id.clone(), args: es })
            },
            _ => {
                proof {
                    reveal_strlit("Unsupported ast node ");
                }
                let prefix = String::from_str("Unsupported ast node ");
                let text = debug_text(sql);
                Err(prefix.concat(text.as_str()))
            },
        }
    }
}

impl SqlToRel {
    /// Whether planning the SQL statement `sql` aborts (see [`rel_aborts`]); where it does
    /// not, [`SqlToRel::sql_to_rel`] may be called on it.
    pub fn plan_aborts(&self, sql: &ASTNode) -> (r: bool)
        ensures
            r == rel_aborts(sql@, self.tables()),
        decreases sql,
    {
        match sql {
            ASTNode::SQLSelect { projection, relation, selection, .. } => {
                proof {
                    assert(sql@->SQLSelect_relation == opt_ast_view(*relation));
                    assert(sql@->SQLSelect_selection == opt_ast_view(*selection));
                    assert(sql@->SQLSelect_projection == asts_view(projection@));
                }
                let input = match relation {
                    Some(r) => {
                        if self.plan_aborts(r) {
                            return true;
                        }
                        match self.sql_to_rel(r) {
                            Ok(p) => p,
                            Err(_) => return false,
                        }
                    },
                    None => Box::new(LogicalPlan::EmptyRelation),
                };
                let cols = input.schema();
                assert(input_of(sql@->SQLSelect_relation, self.tables()) == Some(input@));
                if list_aborts(projection, &cols) {
                    return true;
                }
                let es = match self.sql_to_rex_list(projection, &cols) {
                    Ok(es) => es,
                    Err(_) => return false,
                };
                if !projectable(&es) {
                    return true;
                }
                match selection {
                    Some(f) => rex_aborts_of(f, &cols),
                    None => false,
                }
            },
            ASTNode::SQLIdentifier { id } => self.schemas.get(id.as_str()).is_none(),
            _ => false,
        }
    }
}

/// Whether planning the SQL expression `sql` over the columns `tt` aborts.
fn rex_aborts_of(sql: &ASTNode, tt: &Schema) -> (r: bool)
    ensures
        r == rex_aborts(sql@, tt@),
    decreases sql,
{
    match sql {
        ASTNode::SQLBinaryExpr { left, op, right } => {
            if *op != SQLOperator::GT {
                return true;
            }
            if rex_aborts_of(left, tt) {
                return true;
            }
            let planner = SqlToRel { default_schema: None, schemas: NameMap::new() };
            match planner.sql_to_rex(left, tt) {
                Ok(_) => rex_aborts_of(right, tt),
                Err(_) => false,
            }
        },
        ASTNode::SQLFunction { args, .. } => {
            proof {
                assert(sql@->SQLFunction_args == asts_view(args@));
            }
            list_aborts(args, tt)
        },
        _ => false,
    }
}

/// Whether planning a list of SQL expressions over the columns `tt` aborts.
fn list_aborts(items: &Vec<ASTNode>, tt: &Schema) -> (r: bool)
    ensures
        r == rex_list_aborts(asts_view(items@), tt@),
    decreases items,
{
    let ghost all = asts_view(items@);
    proof {
        lemma_asts_view(items@);
    }
    let planner = SqlToRel { default_schema: None, schemas: NameMap::new() };
    let mut i: usize = 0;
    while i < items.len()
        invariant
            i <= items.len(),
            all == asts_view(items@),
            all.len() == items.len(),
            forall|k: int| 0 <= k < items.len() ==> #[trigger] all[k] == ast_view(items@[k]),
            rex_list(all.take(i as int), tt@) is Some,
            !rex_list_aborts(all.take(i as int), tt@),
        decreases items.len() - i,
    {
        proof {
            assert(all.take(i as int + 1).drop_last() == all.take(i as int));
            assert(all.take(i as int + 1).last() == all[i as int]);
            assert(decreases_to!(items => items@[i as int]));
        }
        if rex_aborts_of(&items[i], tt) {
            proof {
                lemma_rex_list_aborts_extends(all, tt@, i as int + 1);
            }
            return true;
        }
        match planner.sql_to_rex(&items[i], tt) {
            Ok(_) => {},
            Err(_) => {
                proof {
                    lemma_rex_list_none_stops(all, tt@, i as int + 1);
                }
                return false;
            },
        }
        i = i + 1;
    }
    proof {
        assert(all.take(items.len() as int) == all);
    }
    false
}

/// Whether each of a list of expressions is a column reference or a function call.
fn projectable(es: &Vec<Expr>) -> (r: bool)
    ensures
        r == all_projectable(exprs_view(es@)),
{
    proof {
        lemma_exprs_view(es@);
    }
    let mut i: usize = 0;
    while i < es.len()
        invariant
            i <= es.len(),
            exprs_view(es@).len() == es.len(),
            forall|k: int| 0 <= k < es.len() ==> #[trigger] exprs_view(es@)[k] == expr_view(es@[k]),
            forall|k: int| 0 <= k < i ==> (#[trigger] exprs_view(es@)[k] is TupleValue || exprs_view(es@)[k] is ScalarFunction),
        decreases es.len() - i,
    {
        match &es[i] {
            Expr::TupleValue(_) => {},
            Expr::ScalarFunction { .. } => {},
            _ => {
                assert(!(exprs_view(es@)[i as int] is TupleValue || exprs_view(es@)[i as int] is ScalarFunction));
                return false;
            },
        }
        i = i + 1;
    }
    true
}

/// Once a prefix of a list aborts, so does the list.
pub proof fn lemma_rex_list_aborts_extends(items: Seq<AstV>, cols: Seq<FieldV>, n: int)
    requires
        0 <= n <= items.len(),
        rex_list_aborts(items.take(n), cols),
    ensures
        rex_list_aborts(items, cols),
    decreases items.len() - n,
{
    if n < items.len() {
        assert(items.take(n + 1).drop_last() == items.take(n));
        lemma_rex_list_aborts_extends(items, cols, n + 1);
    } else {
        assert(items.take(n) == items);
    }
}

/// Once a prefix of a list fails to plan without aborting, the list does not abort.
pub proof fn lemma_rex_list_none_stops(items: Seq<AstV>, cols: Seq<FieldV>, n: int)
    requires
        0 <= n <= items.len(),
        rex_list(items.take(n), cols) is None,
        !rex_list_aborts(items.take(n), cols),
    ensures
        !rex_list_aborts(items, cols),
    decreases items.len() - n,
{
    if n < items.len() {
        assert(items.take(n + 1).drop_last() == items.take(n));
        lemma_rex_list_none_stops(items, cols, n + 1);
    } else {
        assert(items.take(n) == items);
    }
}

/// The fields that a projection on column references and function calls selects from
/// `tt`.
fn fields_of(es: &Vec<Expr>, tt: &Schema) -> (r: Vec<Field>)
    requires
        all_projectable(exprs_view(es@)),
        forall|k: int| 0 <= k < es.len() && (#[trigger] exprs_view(es@)[k]) is TupleValue
            ==> exprs_view(es@)[k]->TupleValue_0 < tt@.len(),
    ensures
        fields_view(r@) == projected_fields(exprs_view(es@), tt@),
{
    proof {
        lemma_exprs_view(es@);
    }
    let mut out: Vec<Field> = Vec::new();
    let mut i: usize = 0;
    while i < es.len()
        invariant
            i <= es.len(),
            out.len() == i,
            exprs_view(es@).len() == es.len(),
            all_projectable(exprs_view(es@)),
            forall|k: int| 0 <= k < es.len() && (#[trigger] exprs_view(es@)[k]) is TupleValue
                ==> exprs_view(es@)[k]->TupleValue_0 < tt@.len(),
            forall|k: int| 0 <= k < es.len() ==> #[trigger] exprs_view(es@)[k] == expr_view(es@[k]),
            forall|k: int| 0 <= k < i ==> #[trigger] out@[k]@ == projected_fields(exprs_view(es@), tt@)[k],
        decreases es.len() - i,
    {
        assert(exprs_view(es@)[i as int] is TupleValue || exprs_view(es@)[i as int] is ScalarFunction);
        match &es[i] {
            Expr::TupleValue(c) => {
                out.push(tt.columns[*c].clone());
            },
            Expr::ScalarFunction { name, .. } => {
                out.push(Field::new(name.as_str(), DataType::Double, true));
            },
            _ => {
                proof {
                    assert(false);
                }
            },
        }
        i = i + 1;
    }
    proof {
        assert(fields_view(out@) =~= projected_fields(exprs_view(es@), tt@));
    }
    out
}

pub proof fn lemma_rex_list_columns(items: Seq<AstV>, cols: Seq<FieldV>)
    ensures
        rex_list(items, cols) matches Some(es) ==> es.len() == items.len() && forall|k: int|
            0 <= k < es.len() && (#[trigger] es[k]) is TupleValue ==> es[k]->TupleValue_0 < cols.len(),
    decreases items.len(),
{
    if items.len() > 0 {
        lemma_rex_list_columns(items.drop_last(), cols);
        lemma_rex_column(items.last(), cols);
    }
}

pub proof fn lemma_rex_list_prefix(items: Seq<AstV>, cols: Seq<FieldV>, n: int)
    requires
        0 <= n <= items.len(),
        !rex_list_aborts(items, cols),
    ensures
        !rex_list_aborts(items.take(n), cols),
    decreases items.len() - n,
{
    if n < items.len() {
        lemma_rex_list_prefix(items, cols, n + 1);
        assert(items.take(n + 1).drop_last() == items.take(n));
    } else {
        assert(items.take(n) == items);
    }
}

pub proof fn lemma_rex_list_none_extends(items: Seq<AstV>, cols: Seq<FieldV>, n: int)
    requires
        0 <= n <= items.len(),
        rex_list(items.take(n), cols) is None,
    ensures
        rex_list(items, cols) is None,
    decreases items.len() - n,
{
    if n < items.len() {
        assert(items.take(n + 1).drop_last() == items.take(n));
        lemma_rex_list_none_extends(items, cols, n + 1);
    } else {
        assert(items.take(n) == items);
    }
}

/// Once a prefix of a list fails to plan, the list fails with the prefix's message.
pub proof fn lemma_list_error_extends(items: Seq<AstV>, cols: Seq<FieldV>, n: int)
    requires
        0 <= n <= items.len(),
        rex_list(items.take(n), cols) is None,
    ensures
        list_error(items, cols) == list_error(items.take(n), cols),
    decreases items.len() - n,
{
    if n < items.len() {
        assert(items.take(n + 1).drop_last() == items.take(n));
        lemma_rex_list_none_extends(items.take(n + 1), cols, n);
        assert(items.take(n + 1).take(n) == items.take(n));
        lemma_list_error_extends(items, cols, n + 1);
    } else {
        assert(items.take(n) == items);
    }
}

/// The `Debug` text of a syntax tree, made by `format!`; the text is named by
/// [`ast_debug`], what it holds is left unsaid.
#[verifier::external_body]
fn debug_text(sql: &ASTNode) -> (r: String)
    ensures
        r@ == ast_debug(sql@),
{
    format!("{:?}", sql)
}

}
