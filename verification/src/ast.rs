use vstd::prelude::*;

verus! {

/// One statement of the game language.
#[derive(Debug, PartialEq)]
pub enum Statement {
    Declaration(Declaration),
    Definition(Definition),
    Transfer(Transfer),
    FunctionCall(FunctionCall),
    IfStatement(IfStatement),
    CheckStatement(CheckStatement),
    ReturnStatement(ReturnStatement),
}

/// One expression of the game language.
#[derive(Debug, PartialEq)]
pub enum Expression {
    Symbol(String),
    Number(i64),
    Comparison(Box<Comparison>),
    Bool(bool),
    And(Box<And>),
    FunctionCall(FunctionCall),
}

impl Expression {
    /// The numeric payload of a number expression; any other expression
    /// counts as zero.
    pub fn to_number(&self) -> (r: i64)
        ensures
            r as int == match self {
                Expression::Number(n) => *n as int,
                _ => 0,
            },
    {
        match self {
            Self::Number(n) => *n,
            _ => 0,
        }
    }
}

/// The key of a global declaration.
#[derive(Debug, PartialEq, Copy, Clone)]
pub enum GlobalKey {
    Name,
    Players,
    Stack,
    Deck,
    CurrentPlayer,
}

#[derive(Debug, PartialEq)]
pub struct Declaration {
    pub key: GlobalKey,
    pub value: Expression,
}

/// A named, parameterized statement block.
#[derive(Debug, PartialEq)]
pub struct Definition {
    pub name: String,
    pub arguments: Vec<String>,
    pub body: Vec<Statement>,
}

#[derive(Debug, PartialEq)]
pub struct IfStatement {
    pub expression: Expression,
    pub body: Vec<Statement>,
}

/// A guard: when its expression resolves false, the rest of the enclosing
/// body is skipped.
#[derive(Debug, PartialEq)]
pub struct CheckStatement {
    pub expression: Expression,
}

#[derive(Debug, PartialEq)]
pub struct ReturnStatement {
    pub expression: Expression,
}

/// A card movement between two symbolic stack references.
#[derive(Debug, PartialEq)]
pub struct Transfer {
    pub from: String,
    pub to: String,
    pub modifier: Option<TransferModifier>,
    pub count: Option<TransferCount>,
}

#[derive(Debug, PartialEq, Copy, Clone)]
pub enum TransferModifier {
    Alternate,
}

#[derive(Debug, PartialEq, Copy, Clone)]
pub enum TransferCount {
    End,
}

#[derive(Debug, PartialEq)]
pub struct FunctionCall {
    pub name: String,
    pub arguments: Vec<Expression>,
}

#[derive(Debug, PartialEq)]
pub struct Comparison {
    pub left: Expression,
    pub right: Expression,
}

#[derive(Debug, PartialEq)]
pub struct And {
    pub left: Expression,
    pub right: Expression,
}

/// Mathematical forms of the syntax tree, with symbol names as character
/// sequences and numbers as unbounded integers.
pub enum StatementModel {
    Declaration(DeclarationModel),
    Definition(DefinitionModel),
    Transfer(TransferModel),
    FunctionCall(FunctionCallModel),
    IfStatement(IfStatementModel),
    CheckStatement(CheckStatementModel),
    ReturnStatement(ReturnStatementModel),
}

pub enum ExpressionModel {
    Symbol(Seq<char>),
    Number(int),
    Comparison(Box<ComparisonModel>),
    Bool(bool),
    And(Box<AndModel>),
    FunctionCall(FunctionCallModel),
}

pub struct DeclarationModel {
    pub key: GlobalKey,
    pub value: ExpressionModel,
}

pub struct DefinitionModel {
    pub name: Seq<char>,
    pub arguments: Seq<Seq<char>>,
    pub body: Seq<StatementModel>,
}

pub struct IfStatementModel {
    pub expression: ExpressionModel,
    pub body: Seq<StatementModel>,
}

pub struct CheckStatementModel {
    pub expression: ExpressionModel,
}

pub struct ReturnStatementModel {
    pub expression: ExpressionModel,
}

pub struct TransferModel {
    pub from: Seq<char>,
    pub to: Seq<char>,
    pub modifier: Option<TransferModifier>,
    pub count: Option<TransferCount>,
}

pub struct FunctionCallModel {
    pub name: Seq<char>,
    pub arguments: Seq<ExpressionModel>,
}

pub struct ComparisonModel {
    pub left: ExpressionModel,
    pub right: ExpressionModel,
}

pub struct AndModel {
    pub left: ExpressionModel,
    pub right: ExpressionModel,
}

pub open spec fn stmt_model(s: Statement) -> StatementModel
    decreases s,
{
    match s {
        Statement::Declaration(d) => StatementModel::Declaration(
            DeclarationModel { key: d.key, value: expr_model(d.value) },
        ),
        Statement::Definition(d) => StatementModel::Definition(
            DefinitionModel {
                name: d.name@,
                arguments: d.arguments@.map_values(|a: String| a@),
                body: stmts_model(d.body@),
            },
        ),
        Statement::Transfer(t) => StatementModel::Transfer(
            TransferModel { from: t.from@, to: t.to@, modifier: t.modifier, count: t.count },
        ),
        Statement::FunctionCall(f) => StatementModel::FunctionCall(fncall_model(f)),
        Statement::IfStatement(i) => StatementModel::IfStatement(
            IfStatementModel { expression: expr_model(i.expression), body: stmts_model(i.body@) },
        ),
        Statement::CheckStatement(c) => StatementModel::CheckStatement(
            CheckStatementModel { expression: expr_model(c.expression) },
        ),
        Statement::ReturnStatement(r) => StatementModel::ReturnStatement(
            ReturnStatementModel { expression: expr_model(r.expression) },
        ),
    }
}

pub open spec fn stmts_model(ss: Seq<Statement>) -> Seq<StatementModel>
    decreases ss,
{
    if ss.len() == 0 {
        Seq::empty()
    } else {
        stmts_model(ss.drop_last()).push(stmt_model(ss.last()))
    }
}

pub open spec fn expr_model(e: Expression) -> ExpressionModel
    decreases e,
{
    match e {
        Expression::Symbol(s) => ExpressionModel::Symbol(s@),
        Expression::Number(n) => ExpressionModel::Number(n as int),
        Expression::Comparison(c) => ExpressionModel::Comparison(
            Box::new(ComparisonModel { left: expr_model(c.left), right: expr_model(c.right) }),
        ),
        Expression::Bool(b) => ExpressionModel::Bool(b),
        Expression::And(a) => ExpressionModel::And(
            Box::new(AndModel { left: expr_model(a.left), right: expr_model(a.right) }),
        ),
        Expression::FunctionCall(f) => ExpressionModel::FunctionCall(fncall_model(f)),
    }
}

pub open spec fn fncall_model(f: FunctionCall) -> FunctionCallModel
    decreases f,
{
    FunctionCallModel { name: f.name@, arguments: exprs_model(f.arguments@) }
}

pub open spec fn exprs_model(es: Seq<Expression>) -> Seq<ExpressionModel>
    decreases es,
{
    if es.len() == 0 {
        Seq::empty()
    } else {
        exprs_model(es.drop_last()).push(expr_model(es.last()))
    }
}

pub proof fn lemma_stmts_model_len(ss: Seq<Statement>)
    ensures
        stmts_model(ss).len() == ss.len(),
        forall|i: int| 0 <= i < ss.len() ==> #[trigger] stmts_model(ss)[i] == stmt_model(ss[i]),
    decreases ss.len(),
{
    if ss.len() > 0 {
        lemma_stmts_model_len(ss.drop_last());
    }
}

pub proof fn lemma_exprs_model_len(es: Seq<Expression>)
    ensures
        exprs_model(es).len() == es.len(),
        forall|i: int| 0 <= i < es.len() ==> #[trigger] exprs_model(es)[i] == expr_model(es[i]),
    decreases es.len(),
{
    if es.len() > 0 {
        lemma_exprs_model_len(es.drop_last());
    }
}

pub proof fn lemma_stmts_model_push(ss: Seq<Statement>, s: Statement)
    ensures
        stmts_model(ss.push(s)) == stmts_model(ss).push(stmt_model(s)),
{
    assert(ss.push(s).drop_last() =~= ss);
    assert(ss.push(s).last() == s);
}

pub proof fn lemma_exprs_model_push(es: Seq<Expression>, e: Expression)
    ensures
        exprs_model(es.push(e)) == exprs_model(es).push(expr_model(e)),
{
    assert(es.push(e).drop_last() =~= es);
    assert(es.push(e).last() == e);
}

} // verus!
