use vstd::prelude::*;

verus! {

/// Operators of SQL expressions.
#[derive(Debug, Clone, Copy, PartialEq, Eq, Structural)]
pub enum SQLOperator {
    Plus,
    Minus,
    Mult,
    Div,
    Modulus,
    GT,
    GTEq,
    LT,
    LTEq,
    Eq,
    NotEq,
    And,
    Or,
}

/// Column types of a `CREATE TABLE` statement.
#[derive(Debug, Clone, Copy, PartialEq, Eq, Structural)]
pub enum SQLType {
    Boolean,
    Int,
    BigInt,
    Double,
    Varchar(u64),
}

/// A column of a `CREATE TABLE` statement.
#[derive(Debug)]
pub struct SQLColumnDef {
    pub name: String,
    pub data_type: SQLType,
    pub allow_null: bool,
}

/// The mathematical model of a [`SQLColumnDef`].
pub struct SQLColumnDefV {
    pub name: Seq<char>,
    pub data_type: SQLType,
    pub allow_null: bool,
}

impl View for SQLColumnDef {
    type V = SQLColumnDefV;

    open spec fn view(&self) -> SQLColumnDefV {
        SQLColumnDefV { name: self.name@, data_type: self.data_type, allow_null: self.allow_null }
    }
}

/// The models of a list of column definitions.
pub open spec fn columns_view(cs: Seq<SQLColumnDef>) -> Seq<SQLColumnDefV> {
    Seq::new(cs.len(), |i: int| cs[i]@)
}

impl Clone for SQLColumnDef {
    fn clone(&self) -> (r: Self)
        ensures
            r == *self,
    {
        SQLColumnDef { name: self.name.clone(), data_type: self.data_type, allow_null: self.allow_null }
    }
}

/// The syntax tree of a SQL statement or expression.
#[derive(Debug)]
#[allow(inconsistent_fields)]
pub enum ASTNode {
    SQLIdentifier { id: String },
    SQLLiteralInt(i64),
    SQLLiteralString(String),
    SQLBinaryExpr { left: Box<ASTNode>, op: SQLOperator, right: Box<ASTNode> },
    SQLFunction { id: String, args: Vec<ASTNode> },
    SQLOrderBy { expr: Box<ASTNode>, asc: bool },
    SQLSelect {
        projection: Vec<ASTNode>,
        relation: Option<Box<ASTNode>>,
        selection: Option<Box<ASTNode>>,
        order_by: Option<Vec<ASTNode>>,
        limit: Option<Box<ASTNode>>,
    },
    SQLCreateTable { name: String, columns: Vec<SQLColumnDef> },
}

/// The mathematical model of an [`ASTNode`].
#[allow(inconsistent_fields)]
pub enum AstV {
    SQLIdentifier { id: Seq<char> },
    SQLLiteralInt(i64),
    SQLLiteralString(Seq<char>),
    SQLBinaryExpr { left: Box<AstV>, op: SQLOperator, right: Box<AstV> },
    SQLFunction { id: Seq<char>, args: Seq<AstV> },
    SQLOrderBy { expr: Box<AstV>, asc: bool },
    SQLSelect {
        projection: Seq<AstV>,
        relation: Option<Box<AstV>>,
        selection: Option<Box<AstV>>,
        order_by: Option<Seq<AstV>>,
        limit: Option<Box<AstV>>,
    },
    SQLCreateTable { name: Seq<char>, columns: Seq<SQLColumnDefV> },
}

pub open spec fn asts_view(s: Seq<ASTNode>) -> Seq<AstV>
    decreases s,
{
    if s.len() == 0 {
        Seq::empty()
    } else {
        seq![ast_view(s[0])] + asts_view(s.subrange(1, s.len() as int))
    }
}

pub open spec fn opt_ast_view(o: Option<Box<ASTNode>>) -> Option<Box<AstV>>
    decreases o,
{
    match o {
        Some(b) => Some(Box::new(ast_view(*b))),
        None => None,
    }
}

pub open spec fn ast_view(a: ASTNode) -> AstV
    decreases a,
{
    match a {
        ASTNode::SQLIdentifier { id } => AstV::SQLIdentifier { id: id@ },
        ASTNode::SQLLiteralInt(n) => AstV::SQLLiteralInt(n),
        ASTNode::SQLLiteralString(s) => AstV::SQLLiteralString(s@),
        ASTNode::SQLBinaryExpr { left, op, right } => AstV::SQLBinaryExpr {
            left: Box::new(ast_view(*left)),
            op,
            right: Box::new(ast_view(*right)),
        },
        ASTNode::SQLFunction { id, args } => AstV::SQLFunction { id: id@, args: asts_view(args@) },
        ASTNode::SQLOrderBy { expr, asc } => AstV::SQLOrderBy { expr: Box::new(ast_view(*expr)), asc },
        ASTNode::SQLSelect { projection, relation, selection, order_by, limit } => AstV::SQLSelect {
            projection: asts_view(projection@),
            relation: opt_ast_view(relation),
            selection: opt_ast_view(selection),
            order_by: match order_by {
                Some(v) => Some(asts_view(v@)),
                None => None,
            },
            limit: opt_ast_view(limit),
        },
        ASTNode::SQLCreateTable { name, columns } => AstV::SQLCreateTable {
            name: name@,
            columns: columns_view(columns@),
        },
    }
}

impl View for ASTNode {
    type V = AstV;

    open spec fn view(&self) -> AstV {
        ast_view(*self)
    }
}

pub proof fn lemma_asts_view(s: Seq<ASTNode>)
    ensures
        asts_view(s).len() == s.len(),
        forall|i: int| 0 <= i < s.len() ==> #[trigger] asts_view(s)[i] == ast_view(s[i]),
    decreases s.len(),
{
    if s.len() > 0 {
        lemma_asts_view(s.subrange(1, s.len() as int));
    }
}

}
