//! Data model of programs, statements and expressions, together with the
//! mathematical model of each node kind that the contracts of the parser and
//! the evaluator speak of.

use vstd::prelude::*;

verus! {

broadcast use vstd::seq::axiom_seq_index_decreases;

/// Binding strength of an operator position in the Pratt parser:
/// `Lowest < Equals < LessGreater < Sum < Product < Prefix < Call`.
#[derive(Debug, Clone, Copy, PartialEq, Eq, Structural)]
pub enum Precedence {
    Lowest,
    Equals,
    LessGreater,
    Sum,
    Product,
    Prefix,
    Call,
}

impl Precedence {
    /// Numeric rank of this binding strength.
    pub open spec fn rank(self) -> int {
        match self {
            Precedence::Lowest => 0,
            Precedence::Equals => 1,
            Precedence::LessGreater => 2,
            Precedence::Sum => 3,
            Precedence::Product => 4,
            Precedence::Prefix => 5,
            Precedence::Call => 6,
        }
    }

    /// Strict order on binding strengths, by rank.
    pub fn lt(&self, other: &Precedence) -> (r: bool)
        ensures
            r == (self.rank() < other.rank()),
    {
        self.level() < other.level()
    }

    fn level(&self) -> (r: u8)
        ensures
            r as int == self.rank(),
    {
        match self {
            Precedence::Lowest => 0,
            Precedence::Equals => 1,
            Precedence::LessGreater => 2,
            Precedence::Sum => 3,
            Precedence::Product => 4,
            Precedence::Prefix => 5,
            Precedence::Call => 6,
        }
    }
}

/// Unary operator of a prefix expression.
#[derive(Debug, Clone, Copy, PartialEq, Eq, Structural)]
pub enum Prefix {
    Plus,
    Minus,
    Not,
}

impl Prefix {
    /// The source symbol of this operator, as it appears in diagnostics.
    pub open spec fn spec_symbol(self) -> Seq<char> {
        match self {
            Prefix::Plus => "+"@,
            Prefix::Minus => "-"@,
            Prefix::Not => "!"@,
        }
    }

    /// The source symbol of this operator.
    pub fn symbol(&self) -> (r: &'static str)
        ensures
            r@ == self.spec_symbol(),
    {
        match self {
            Prefix::Plus => "+",
            Prefix::Minus => "-",
            Prefix::Not => "!",
        }
    }
}

/// Binary operator of an infix expression.
#[derive(Debug, Clone, Copy, PartialEq, Eq, Structural)]
pub enum Infix {
    Plus,
    Minus,
    Divide,
    Product,
    Equal,
    NotEqual,
    GreaterThan,
    LessThan,
}

impl Infix {
    /// The source symbol of this operator, as it appears in diagnostics.
    pub open spec fn spec_symbol(self) -> Seq<char> {
        match self {
            Infix::Plus => "+"@,
            Infix::Minus => "-"@,
            Infix::Divide => "/"@,
            Infix::Product => "*"@,
            Infix::Equal => "=="@,
            Infix::NotEqual => "!="@,
            Infix::GreaterThan => ">"@,
            Infix::LessThan => "<"@,
        }
    }

    /// The source symbol of this operator.
    pub fn symbol(&self) -> (r: &'static str)
        ensures
            r@ == self.spec_symbol(),
    {
        match self {
            Infix::Plus => "+",
            Infix::Minus => "-",
            Infix::Divide => "/",
            Infix::Product => "*",
            Infix::Equal => "==",
            Infix::NotEqual => "!=",
            Infix::GreaterThan => ">",
            Infix::LessThan => "<",
        }
    }
}

/// A name occurring in the source text.
#[derive(Debug, PartialEq)]
pub struct Identifier(pub String);

impl View for Identifier {
    type V = Seq<char>;

    open spec fn view(&self) -> Seq<char> {
        self.0@
    }
}

/// An expression node.
#[derive(Debug, PartialEq)]
pub enum Expression {
    Identifier(Identifier),
    Literal(Literal),
    Prefix(Prefix, Box<Expression>),
    Infix(Infix, Box<Expression>, Box<Expression>),
    If(IfExpression),
    Function { params: Vec<Identifier>, body: BlockStatement },
    Call { function: Box<Expression>, args: Vec<Expression> },
}

/// A literal expression.
#[derive(Debug, PartialEq)]
pub enum Literal {
    Int(i64),
    Str(String),
    Bool(bool),
}

/// A conditional with a consequence block and an (optionally empty)
/// alternative block; an absent `else` is the empty alternative.
#[derive(Debug, PartialEq)]
pub struct IfExpression {
    pub condition: Box<Expression>,
    pub consequence: BlockStatement,
    pub alternative: BlockStatement,
}

/// An ordered sequence of statements between `{` and `}`.
pub type BlockStatement = Vec<Statement>;

/// A statement node.
#[derive(Debug, PartialEq)]
pub enum Statement {
    Let(Identifier, Expression),
    Return(Expression),
    Expression(Expression),
}

/// Mathematical model of an expression: names and string literals become
/// character sequences, blocks become sequences of statement models.
pub enum ExprM {
    Ident(Seq<char>),
    IntLit(i64),
    StrLit(Seq<char>),
    BoolLit(bool),
    Prefix(Prefix, Box<ExprM>),
    Infix(Infix, Box<ExprM>, Box<ExprM>),
    If { cond: Box<ExprM>, cons: Seq<StmtM>, alt: Seq<StmtM> },
    Func { params: Seq<Seq<char>>, body: Seq<StmtM> },
    Call { target: Box<ExprM>, args: Seq<ExprM> },
}

/// Mathematical model of a statement.
pub enum StmtM {
    Let(Seq<char>, ExprM),
    Return(ExprM),
    Expr(ExprM),
}

/// Model of an expression node.
pub open spec fn expr_model(e: Expression) -> ExprM
    decreases e, 1int,
{
    match e {
        Expression::Identifier(id) => ExprM::Ident(id@),
        Expression::Literal(l) => match l {
            Literal::Int(n) => ExprM::IntLit(n),
            Literal::Str(s) => ExprM::StrLit(s@),
            Literal::Bool(b) => ExprM::BoolLit(b),
        },
        Expression::Prefix(op, inner) => ExprM::Prefix(op, Box::new(expr_model(*inner))),
        Expression::Infix(op, l, r) => ExprM::Infix(
            op,
            Box::new(expr_model(*l)),
            Box::new(expr_model(*r)),
        ),
        Expression::If(ie) => ExprM::If {
            cond: Box::new(expr_model(*ie.condition)),
            cons: block_model(ie.consequence@),
            alt: block_model(ie.alternative@),
        },
        Expression::Function { params, body } => ExprM::Func {
            params: params@.map_values(|p: Identifier| p@),
            body: block_model(body@),
        },
        Expression::Call { function, args } => ExprM::Call {
            target: Box::new(expr_model(*function)),
            args: exprs_model(args@),
        },
    }
}

/// Model of a statement node.
pub open spec fn stmt_model(s: Statement) -> StmtM
    decreases s, 1int,
{
    match s {
        Statement::Let(id, e) => StmtM::Let(id@, expr_model(e)),
        Statement::Return(e) => StmtM::Return(expr_model(e)),
        Statement::Expression(e) => StmtM::Expr(expr_model(e)),
    }
}

/// Model of a block: the models of its statements in order.
pub open spec fn block_model(ss: Seq<Statement>) -> Seq<StmtM>
    decreases ss, 0int,
{
    Seq::new(
        ss.len(),
        |i: int|
            if 0 <= i < ss.len() {
                stmt_model(ss[i])
            } else {
                arbitrary()
            },
    )
}

/// A copy of an identifier with the same model.
pub fn clone_ident(id: &Identifier) -> (r: Identifier)
    ensures
        r@ == id@,
{
    Identifier(id.0.clone())
}

/// A copy of a parameter list with the same models.
pub fn clone_idents(ps: &Vec<Identifier>) -> (r: Vec<Identifier>)
    ensures
        r@.map_values(|p: Identifier| p@) == ps@.map_values(|p: Identifier| p@),
{
    let mut out: Vec<Identifier> = Vec::new();
    let mut k: usize = 0;
    while k < ps.len()
        invariant
            0 <= k <= ps@.len(),
            out@.len() == k,
            forall|j: int| 0 <= j < k ==> out@[j]@ == ps@[j]@,
        decreases ps@.len() - k,
    {
        out.push(clone_ident(&ps[k]));
        k = k + 1;
    }
    proof {
        assert(out@.map_values(|p: Identifier| p@) =~= ps@.map_values(|p: Identifier| p@));
    }
    out
}

/// A copy of an expression with the same model.
pub fn clone_expr(e: &Expression) -> (r: Expression)
    ensures
        expr_model(r) == expr_model(*e),
    decreases e, 1int,
{
    match e {
        Expression::Identifier(id) => Expression::Identifier(clone_ident(id)),
        Expression::Literal(l) => Expression::Literal(
            match l {
                Literal::Int(n) => Literal::Int(*n),
                Literal::Str(s) => Literal::Str(s.clone()),
                Literal::Bool(b) => Literal::Bool(*b),
            },
        ),
        Expression::Prefix(op, inner) => Expression::Prefix(*op, Box::new(clone_expr(inner))),
        Expression::Infix(op, l, r) => Expression::Infix(
            *op,
            Box::new(clone_expr(l)),
            Box::new(clone_expr(r)),
        ),
        Expression::If(ie) => Expression::If(
            IfExpression {
                condition: Box::new(clone_expr(&ie.condition)),
                consequence: clone_block(&ie.consequence),
                alternative: clone_block(&ie.alternative),
            },
        ),
        Expression::Function { params, body } => Expression::Function {
            params: clone_idents(params),
            body: clone_block(body),
        },
        Expression::Call { function, args } => Expression::Call {
            function: Box::new(clone_expr(function)),
            args: clone_exprs(args),
        },
    }
}

/// A copy of a statement with the same model.
pub fn clone_stmt(s: &Statement) -> (r: Statement)
    ensures
        stmt_model(r) == stmt_model(*s),
    decreases s, 1int,
{
    match s {
        Statement::Let(id, e) => Statement::Let(clone_ident(id), clone_expr(e)),
        Statement::Return(e) => Statement::Return(clone_expr(e)),
        Statement::Expression(e) => Statement::Expression(clone_expr(e)),
    }
}

/// A copy of a block with the same model.
pub fn clone_block(b: &Vec<Statement>) -> (r: Vec<Statement>)
    ensures
        block_model(r@) == block_model(b@),
    decreases b, 0int,
{
    let mut out: Vec<Statement> = Vec::new();
    let mut k: usize = 0;
    while k < b.len()
        invariant
            0 <= k <= b@.len(),
            out@.len() == k,
            forall|j: int| 0 <= j < k ==> stmt_model(out@[j]) == stmt_model(b@[j]),
        decreases b@.len() - k,
    {
        out.push(clone_stmt(&b[k]));
        k = k + 1;
    }
    proof {
        assert(block_model(out@) =~= block_model(b@));
    }
    out
}

/// A copy of an argument list with the same models.
pub fn clone_exprs(es: &Vec<Expression>) -> (r: Vec<Expression>)
    ensures
        exprs_model(r@) == exprs_model(es@),
    decreases es, 0int,
{
    let mut out: Vec<Expression> = Vec::new();
    let mut k: usize = 0;
    while k < es.len()
        invariant
            0 <= k <= es@.len(),
            out@.len() == k,
            forall|j: int| 0 <= j < k ==> expr_model(out@[j]) == expr_model(es@[j]),
        decreases es@.len() - k,
    {
        out.push(clone_expr(&es[k]));
        k = k + 1;
    }
    proof {
        assert(exprs_model(out@) =~= exprs_model(es@));
    }
    out
}

/// Model of an argument list: the models of its expressions in order.
pub open spec fn exprs_model(es: Seq<Expression>) -> Seq<ExprM>
    decreases es, 0int,
{
    Seq::new(
        es.len(),
        |i: int|
            if 0 <= i < es.len() {
                expr_model(es[i])
            } else {
                arbitrary()
            },
    )
}

} // verus!
