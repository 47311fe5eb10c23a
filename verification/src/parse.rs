use vstd::prelude::*;
use crate::ast::{
    And, AndModel, CheckStatement, CheckStatementModel, Comparison, ComparisonModel, Declaration,
    DeclarationModel, Definition, DefinitionModel, Expression, ExpressionModel, FunctionCall,
    FunctionCallModel, GlobalKey, IfStatement, IfStatementModel, ReturnStatement,
    ReturnStatementModel, Statement, StatementModel, Transfer, TransferCount, TransferModel,
    expr_model, exprs_model, fncall_model, lemma_exprs_model_len, lemma_exprs_model_push,
    lemma_stmts_model_push, stmt_model, stmts_model,
};
use crate::text::str_eq;
use crate::token::{SourceToken, SourceTokenModel, Token, TokenModel, tokens_view};

verus! {

/// Why parsing failed.
#[derive(Debug, PartialEq, Clone)]
pub enum ParseErrorType {
    ExpectedSymbol,
    UnexpectedEndOfStream,
    UnexpectedToken,
}

/// A parsing failure with the 1-based line it happened on (0 where no token
/// context is available).
#[derive(Debug, PartialEq, Clone)]
pub struct ParseError {
    pub error_type: ParseErrorType,
    pub line_number: u32,
}

impl ParseError {
    pub fn new(error_type: ParseErrorType, line_number: u32) -> (e: ParseError)
        ensures
            e.error_type == error_type,
            e.line_number == line_number,
    {
        ParseError { error_type, line_number }
    }
}

/// The next position: `i + k`, capped at the end of the token stream.
pub open spec fn spec_bump(i: int, k: int, len: int) -> int {
    if i + k > len {
        len
    } else {
        i + k
    }
}

/// A dynamic next position, forced into `(i, len]` so that the parser
/// always advances.
pub open spec fn spec_forward(j: int, i: int, len: int) -> int {
    if j <= i {
        i + 1
    } else if j > len {
        len
    } else {
        j
    }
}

/// The key a leading declaration token stands for.
pub open spec fn spec_key_of(t: TokenModel) -> Option<GlobalKey> {
    match t {
        TokenModel::Name => Some(GlobalKey::Name),
        TokenModel::Players => Some(GlobalKey::Players),
        TokenModel::Deck => Some(GlobalKey::Deck),
        TokenModel::CurrentPlayer => Some(GlobalKey::CurrentPlayer),
        TokenModel::Stack => Some(GlobalKey::Stack),
        _ => None,
    }
}

/// The declared value: a symbol or a number, and nothing else.
pub open spec fn spec_value_of(t: TokenModel) -> Option<ExpressionModel> {
    match t {
        TokenModel::Symbol(s) => Some(ExpressionModel::Symbol(s)),
        TokenModel::Number(n) => Some(ExpressionModel::Number(n)),
        _ => None,
    }
}

/// The stack name a transfer operand token stands for.
pub open spec fn spec_transfer_value(t: TokenModel) -> Seq<char> {
    match t {
        TokenModel::Deck => "deck"@,
        TokenModel::Players => "players"@,
        TokenModel::Symbol(s) => s,
        _ => Seq::empty(),
    }
}

/// A transfer statement: the operand after `>`, then an optional `end`
/// count; the token after the operand is consumed either way.
pub open spec fn spec_create_transfer(
    ts: Seq<SourceTokenModel>,
    i: int,
    from: Seq<char>,
    line: u32,
) -> Result<(StatementModel, int), ParseError> {
    let len = ts.len() as int;
    if i >= len {
        Err(ParseError { error_type: ParseErrorType::UnexpectedEndOfStream, line_number: line })
    } else {
        let to = spec_transfer_value(ts[i].token);
        let count = if i + 1 < len && (ts[i + 1].token matches TokenModel::Symbol(s) && s
            == "end"@) {
            Some(TransferCount::End)
        } else {
            None
        };
        let stmt = StatementModel::Transfer(
            TransferModel { from, to, modifier: None, count },
        );
        Ok((stmt, spec_bump(i, 2, len)))
    }
}

/// The argument list of a definition: symbols up to the closing parenthesis.
pub open spec fn spec_build_args(
    ts: Seq<SourceTokenModel>,
    i: int,
    acc: Seq<Seq<char>>,
) -> Result<(Seq<Seq<char>>, int), ParseError>
    decreases ts.len() - i,
{
    let len = ts.len() as int;
    if i < 0 || i >= len {
        Err(ParseError { error_type: ParseErrorType::UnexpectedEndOfStream, line_number: 0 })
    } else {
        match ts[i].token {
            TokenModel::Symbol(s) => spec_build_args(ts, i + 1, acc.push(s)),
            TokenModel::CloseParens => Ok((acc, i + 1)),
            _ => Err(
                ParseError {
                    error_type: ParseErrorType::ExpectedSymbol,
                    line_number: ts[i].line_number,
                },
            ),
        }
    }
}

/// The raw tokens of a brace-delimited block, tracking nested brackets so
/// inner blocks are not cut short; the block's own opening bracket is kept
/// (the statement parser skips it).
pub open spec fn spec_collect_block(
    ts: Seq<SourceTokenModel>,
    i: int,
    count: int,
    last_line: u32,
    acc: Seq<SourceTokenModel>,
) -> Result<(Seq<SourceTokenModel>, int), ParseError>
    decreases ts.len() - i,
{
    let len = ts.len() as int;
    if i < 0 || i >= len {
        Err(
            ParseError {
                error_type: ParseErrorType::UnexpectedEndOfStream,
                line_number: last_line,
            },
        )
    } else {
        let t = ts[i];
        match t.token {
            TokenModel::CloseBracket => {
                if count > 1 {
                    spec_collect_block(ts, i + 1, count - 1, last_line, acc.push(t))
                } else {
                    Ok((acc, i + 1))
                }
            },
            _ => {
                let c2 = if t.token is OpenBracket {
                    count + 1
                } else {
                    count
                };
                spec_collect_block(ts, i + 1, c2, t.line_number, acc.push(t))
            },
        }
    }
}

/// A collected block consumes at least one token past its contents, so the
/// block is strictly shorter than what remains of the stream.
proof fn lemma_collect_block_len(ts: Seq<SourceTokenModel>)
    ensures
        forall|i: int, count: int, last_line: u32, acc: Seq<SourceTokenModel>|
            (#[trigger] spec_collect_block(ts, i, count, last_line, acc)) matches Ok(p) ==> i < p.1
                <= ts.len() && p.0.len() - acc.len() <= p.1 - i - 1,
{
    assert forall|i: int, count: int, last_line: u32, acc: Seq<SourceTokenModel>|
        #![trigger spec_collect_block(ts, i, count, last_line, acc)]
        (spec_collect_block(ts, i, count, last_line, acc) matches Ok(p) ==> i < p.1 <= ts.len()
            && p.0.len() - acc.len() <= p.1 - i - 1) by {
        lemma_collect_block_len_one(ts, i, count, last_line, acc);
    }
}

proof fn lemma_collect_block_len_one(
    ts: Seq<SourceTokenModel>,
    i: int,
    count: int,
    last_line: u32,
    acc: Seq<SourceTokenModel>,
)
    ensures
        spec_collect_block(ts, i, count, last_line, acc) matches Ok(p) ==> i < p.1 <= ts.len()
            && p.0.len() - acc.len() <= p.1 - i - 1,
    decreases ts.len() - i,
{
    let len = ts.len() as int;
    if i < 0 || i >= len {
    } else {
        let t = ts[i];
        match t.token {
            TokenModel::CloseBracket => {
                if count > 1 {
                    lemma_collect_block_len_one(ts, i + 1, count - 1, last_line, acc.push(t));
                }
            },
            _ => {
                let c2 = if t.token is OpenBracket {
                    count + 1
                } else {
                    count
                };
                lemma_collect_block_len_one(ts, i + 1, c2, t.line_number, acc.push(t));
            },
        }
    }
}

/// A primitive expression: a boolean, symbol or number literal, with
/// `current_player` read as a symbol; then any combining suffix.
pub open spec fn spec_build_expression(ts: Seq<SourceTokenModel>, i: int) -> Result<
    (ExpressionModel, int),
    ParseError,
>
    decreases ts.len() - i, 1int,
{
    let len = ts.len() as int;
    if i < 0 || i >= len {
        Err(ParseError { error_type: ParseErrorType::UnexpectedEndOfStream, line_number: 0 })
    } else {
        let left = match ts[i].token {
            TokenModel::True => Some(ExpressionModel::Bool(true)),
            TokenModel::False => Some(ExpressionModel::Bool(false)),
            TokenModel::Symbol(s) => Some(ExpressionModel::Symbol(s)),
            TokenModel::Number(n) => Some(ExpressionModel::Number(n)),
            TokenModel::CurrentPlayer => Some(ExpressionModel::Symbol("current_player"@)),
            _ => None,
        };
        match left {
            Some(l) => spec_combine_expression(ts, i + 1, l),
            None => Err(
                ParseError { error_type: ParseErrorType::UnexpectedToken, line_number: 0 },
            ),
        }
    }
}

/// Left-to-right combination: `is` builds a comparison, `&` a conjunction,
/// and an opening parenthesis after a bare symbol a function call; a closing
/// parenthesis or the end of the stream finishes the expression.
pub open spec fn spec_combine_expression(
    ts: Seq<SourceTokenModel>,
    i: int,
    left: ExpressionModel,
) -> Result<(ExpressionModel, int), ParseError>
    decreases ts.len() - i, 0int,
{
    let len = ts.len() as int;
    if i < 0 || i >= len {
        Ok((left, i))
    } else {
        match ts[i].token {
            TokenModel::CloseParens => Ok((left, i + 1)),
            TokenModel::Is => match spec_build_expression(ts, spec_bump(i, 1, len)) {
                Ok((right, j)) => Ok(
                    (
                        ExpressionModel::Comparison(Box::new(ComparisonModel { left, right })),
                        j,
                    ),
                ),
                Err(e) => Err(e),
            },
            TokenModel::Ampersand => match spec_build_expression(ts, spec_bump(i, 1, len)) {
                Ok((right, j)) => Ok(
                    (ExpressionModel::And(Box::new(AndModel { left, right })), j),
                ),
                Err(e) => Err(e),
            },
            TokenModel::OpenParens => match left {
                ExpressionModel::Symbol(s) => match spec_build_expression(
                    ts,
                    spec_bump(i, 1, len),
                ) {
                    Ok((arg, j)) => spec_combine_expression(
                        ts,
                        spec_forward(j, i, len),
                        ExpressionModel::FunctionCall(
                            FunctionCallModel { name: s, arguments: seq![arg] },
                        ),
                    ),
                    Err(e) => Err(e),
                },
                _ => Err(
                    ParseError { error_type: ParseErrorType::UnexpectedToken, line_number: 0 },
                ),
            },
            _ => Err(ParseError { error_type: ParseErrorType::UnexpectedToken, line_number: 0 }),
        }
    }
}

/// A statement-level function call: at most one argument (a symbol, or the
/// `deck` keyword), whose token is consumed whatever it is.
pub open spec fn spec_create_function(ts: Seq<SourceTokenModel>, i: int, name: Seq<char>) -> (
    StatementModel,
    int,
) {
    let len = ts.len() as int;
    if i >= len {
        (
            StatementModel::FunctionCall(FunctionCallModel { name, arguments: Seq::empty() }),
            i,
        )
    } else {
        let arguments: Seq<ExpressionModel> = match ts[i].token {
            TokenModel::Deck => seq![ExpressionModel::Symbol("deck"@)],
            TokenModel::Symbol(s) => seq![ExpressionModel::Symbol(s)],
            _ => Seq::empty(),
        };
        (StatementModel::FunctionCall(FunctionCallModel { name, arguments }), i + 1)
    }
}

/// The whole parser: recursive descent over the token stream, one statement
/// per leading token, skipping newlines and stray tokens.
pub open spec fn spec_parse_from(
    ts: Seq<SourceTokenModel>,
    i: int,
    acc: Seq<StatementModel>,
) -> Result<Seq<StatementModel>, ParseError>
    decreases ts.len() - i,
    via spec_parse_from_decreases
{
    let len = ts.len() as int;
    if i < 0 || i >= len {
        Ok(acc)
    } else {
        let t = ts[i];
        match t.token {
            TokenModel::Name | TokenModel::Players | TokenModel::CurrentPlayer
                | TokenModel::Stack => {
                let key = spec_key_of(t.token)->Some_0;
                if i + 1 >= len {
                    Err(
                        ParseError {
                            error_type: ParseErrorType::UnexpectedEndOfStream,
                            line_number: t.line_number,
                        },
                    )
                } else {
                    match spec_value_of(ts[i + 1].token) {
                        Some(value) => spec_parse_from(
                            ts,
                            i + 2,
                            acc.push(
                                StatementModel::Declaration(DeclarationModel { key, value }),
                            ),
                        ),
                        None => Err(
                            ParseError {
                                error_type: ParseErrorType::UnexpectedToken,
                                line_number: ts[i + 1].line_number,
                            },
                        ),
                    }
                }
            },
            TokenModel::Deck => {
                if i + 1 >= len {
                    Err(
                        ParseError {
                            error_type: ParseErrorType::UnexpectedToken,
                            line_number: t.line_number,
                        },
                    )
                } else {
                    match ts[i + 1].token {
                        TokenModel::Symbol(s) => spec_parse_from(
                            ts,
                            i + 2,
                            acc.push(
                                StatementModel::Declaration(
                                    DeclarationModel {
                                        key: GlobalKey::Deck,
                                        value: ExpressionModel::Symbol(s),
                                    },
                                ),
                            ),
                        ),
                        TokenModel::Transfer => {
                            match spec_create_transfer(ts, i + 2, "deck"@, t.line_number) {
                                Ok((stmt, j)) => spec_parse_from(
                                    ts,
                                    spec_forward(j, i, len),
                                    acc.push(stmt),
                                ),
                                Err(e) => Err(e),
                            }
                        },
                        _ => Err(
                            ParseError {
                                error_type: ParseErrorType::UnexpectedToken,
                                line_number: t.line_number,
                            },
                        ),
                    }
                }
            },
            TokenModel::Define => {
                if i + 1 >= len {
                    Err(
                        ParseError {
                            error_type: ParseErrorType::UnexpectedEndOfStream,
                            line_number: t.line_number,
                        },
                    )
                } else {
                    match ts[i + 1].token {
                        TokenModel::Symbol(name) => {
                            // the token after the name is consumed blindly as the
                            // opening parenthesis
                            match spec_build_args(ts, spec_bump(i, 3, len), Seq::empty()) {
                                Ok((arguments, j1)) => {
                                    match spec_collect_block(
                                        ts,
                                        spec_forward(j1, i, len),
                                        0,
                                        0,
                                        Seq::empty(),
                                    ) {
                                        Ok((body_tokens, j2)) => {
                                            match spec_parse_from(
                                                body_tokens,
                                                0,
                                                Seq::empty(),
                                            ) {
                                                Ok(body) => spec_parse_from(
                                                    ts,
                                                    spec_forward(j2, i, len),
                                                    acc.push(
                                                        StatementModel::Definition(
                                                            DefinitionModel { name, arguments, body },
                                                        ),
                                                    ),
                                                ),
                                                Err(e) => Err(e),
                                            }
                                        },
                                        Err(e) => Err(e),
                                    }
                                },
                                Err(e) => Err(e),
                            }
                        },
                        _ => Err(
                            ParseError {
                                error_type: ParseErrorType::ExpectedSymbol,
                                line_number: ts[i + 1].line_number,
                            },
                        ),
                    }
                }
            },
            TokenModel::Symbol(name) => {
                if i + 1 >= len {
                    Err(
                        ParseError {
                            error_type: ParseErrorType::UnexpectedToken,
                            line_number: t.line_number,
                        },
                    )
                } else {
                    match ts[i + 1].token {
                        TokenModel::OpenParens => {
                            let (stmt, j) = spec_create_function(ts, i + 2, name);
                            spec_parse_from(ts, spec_forward(j, i, len), acc.push(stmt))
                        },
                        TokenModel::Transfer => {
                            match spec_create_transfer(ts, i + 2, name, t.line_number) {
                                Ok((stmt, j)) => spec_parse_from(
                                    ts,
                                    spec_forward(j, i, len),
                                    acc.push(stmt),
                                ),
                                Err(e) => Err(e),
                            }
                        },
                        _ => Err(
                            ParseError {
                                error_type: ParseErrorType::UnexpectedToken,
                                line_number: t.line_number,
                            },
                        ),
                    }
                }
            },
            TokenModel::If => {
                // the token after `if` is consumed blindly as the opening
                // parenthesis
                match spec_build_expression(ts, spec_bump(i, 2, len)) {
                    Ok((expression, j1)) => {
                        match spec_collect_block(
                            ts,
                            spec_forward(j1, i, len),
                            0,
                            0,
                            Seq::empty(),
                        ) {
                            Ok((body_tokens, j2)) => {
                                match spec_parse_from(body_tokens, 0, Seq::empty()) {
                                    Ok(body) => spec_parse_from(
                                        ts,
                                        spec_forward(j2, i, len),
                                        acc.push(
                                            StatementModel::IfStatement(
                                                IfStatementModel { expression, body },
                                            ),
                                        ),
                                    ),
                                    Err(e) => Err(e),
                                }
                            },
                            Err(e) => Err(e),
                        }
                    },
                    Err(e) => Err(e),
                }
            },
            TokenModel::Check => {
                if i + 1 < len && ts[i + 1].token is OpenParens {
                    match spec_build_expression(ts, spec_bump(i, 2, len)) {
                        Ok((expression, j)) => spec_parse_from(
                            ts,
                            spec_forward(j, i, len),
                            acc.push(
                                StatementModel::CheckStatement(
                                    CheckStatementModel { expression },
                                ),
                            ),
                        ),
                        Err(e) => Err(e),
                    }
                } else {
                    Err(
                        ParseError {
                            error_type: ParseErrorType::UnexpectedToken,
                            line_number: t.line_number,
                        },
                    )
                }
            },
            TokenModel::Return => {
                if i + 1 < len && ts[i + 1].token is OpenParens {
                    match spec_build_expression(ts, spec_bump(i, 2, len)) {
                        Ok((expression, j)) => spec_parse_from(
                            ts,
                            spec_forward(j, i, len),
                            acc.push(
                                StatementModel::ReturnStatement(
                                    ReturnStatementModel { expression },
                                ),
                            ),
                        ),
                        Err(e) => Err(e),
                    }
                } else {
                    Err(
                        ParseError {
                            error_type: ParseErrorType::UnexpectedToken,
                            line_number: t.line_number,
                        },
                    )
                }
            },
            _ => spec_parse_from(ts, i + 1, acc),
        }
    }
}

#[via_fn]
proof fn spec_parse_from_decreases(ts: Seq<SourceTokenModel>, i: int, acc: Seq<StatementModel>) {
    lemma_collect_block_len(ts);
}

/// What `parse` returns on a whole token stream.
pub open spec fn spec_parse(ts: Seq<SourceTokenModel>) -> Result<Seq<StatementModel>, ParseError> {
    spec_parse_from(ts, 0, Seq::empty())
}

/// Copies one token.
fn clone_token(t: &Token) -> (r: Token)
    ensures
        r == *t,
{
    match t {
        Token::Name => Token::Name,
        Token::Symbol(s) => Token::Symbol(s.clone()),
        Token::Number(n) => Token::Number(*n),
        Token::Stack => Token::Stack,
        Token::Deck => Token::Deck,
        Token::Players => Token::Players,
        Token::CurrentPlayer => Token::CurrentPlayer,
        Token::Define => Token::Define,
        Token::OpenParens => Token::OpenParens,
        Token::CloseParens => Token::CloseParens,
        Token::Comma => Token::Comma,
        Token::OpenBracket => Token::OpenBracket,
        Token::CloseBracket => Token::CloseBracket,
        Token::Transfer => Token::Transfer,
        Token::Check => Token::Check,
        Token::Is => Token::Is,
        Token::If => Token::If,
        Token::Newline => Token::Newline,
        Token::True => Token::True,
        Token::False => Token::False,
        Token::Ampersand => Token::Ampersand,
        Token::Return => Token::Return,
    }
}

fn bump(i: usize, k: usize, len: usize) -> (r: usize)
    requires
        i <= len,
    ensures
        r as int == spec_bump(i as int, k as int, len as int),
        r <= len,
{
    if k > len - i {
        len
    } else {
        i + k
    }
}

fn forward(j: usize, i: usize, len: usize) -> (r: usize)
    requires
        i < len,
    ensures
        r as int == spec_forward(j as int, i as int, len as int),
        i < r <= len,
{
    if j <= i {
        i + 1
    } else if j > len {
        len
    } else {
        j
    }
}

fn transfer_value(t: &Token) -> (r: String)
    ensures
        r@ == spec_transfer_value(t@),
{
    match t {
        Token::Deck => String::from_str("deck"),
        Token::Players => String::from_str("players"),
        Token::Symbol(s) => s.clone(),
        _ => {
            let r = String::new();
            proof {
                assert(r@ =~= Seq::<char>::empty());
            }
            r
        },
    }
}

fn create_transfer(tokens: &Vec<SourceToken>, i: usize, from: String, line: u32) -> (r: Result<
    (Statement, usize),
    ParseError,
>)
    requires
        i <= tokens@.len(),
    ensures
        match spec_create_transfer(tokens_view(tokens@), i as int, from@, line) {
            Ok(p) => r matches Ok(q) && stmt_model(q.0) == p.0 && q.1 as int == p.1 && q.1
                <= tokens@.len(),
            Err(e) => r == Result::<(Statement, usize), ParseError>::Err(e),
        },
{
    let len = tokens.len();
    if i >= len {
        return Err(
            ParseError { error_type: ParseErrorType::UnexpectedEndOfStream, line_number: line },
        );
    }
    let to = transfer_value(&tokens[i].token);
    let count = if i + 1 < len {
        match &tokens[i + 1].token {
            Token::Symbol(s) => if str_eq(s.as_str(), "end") {
                Some(TransferCount::End)
            } else {
                None
            },
            _ => None,
        }
    } else {
        None
    };
    let stmt = Statement::Transfer(Transfer { from, to, modifier: None, count });
    Ok((stmt, bump(i, 2, len)))
}

fn build_args(tokens: &Vec<SourceToken>, i: usize, acc: Vec<String>) -> (r: Result<
    (Vec<String>, usize),
    ParseError,
>)
    requires
        i <= tokens@.len(),
    ensures
        match spec_build_args(tokens_view(tokens@), i as int, acc@.map_values(|a: String| a@)) {
            Ok(p) => r matches Ok(q) && q.0@.map_values(|a: String| a@) == p.0 && q.1 as int == p.1
                && q.1 <= tokens@.len(),
            Err(e) => r == Result::<(Vec<String>, usize), ParseError>::Err(e),
        },
    decreases tokens@.len() - i,
{
    let len = tokens.len();
    if i >= len {
        return Err(ParseError { error_type: ParseErrorType::UnexpectedEndOfStream, line_number: 0 });
    }
    match &tokens[i].token {
        Token::Symbol(s) => {
            let mut acc2 = acc;
            let ghost acc_v = acc2@.map_values(|a: String| a@);
            acc2.push(s.clone());
            proof {
                assert(acc2@.map_values(|a: String| a@) =~= acc_v.push(tokens@[i as int].token@->Symbol_0));
            }
            build_args(tokens, i + 1, acc2)
        },
        Token::CloseParens => Ok((acc, i + 1)),
        _ => Err(
            ParseError {
                error_type: ParseErrorType::ExpectedSymbol,
                line_number: tokens[i].line_number,
            },
        ),
    }
}

fn collect_block(
    tokens: &Vec<SourceToken>,
    i: usize,
    count: usize,
    last_line: u32,
    acc: Vec<SourceToken>,
) -> (r: Result<(Vec<SourceToken>, usize), ParseError>)
    requires
        i <= tokens@.len(),
        count <= i,
    ensures
        match spec_collect_block(
            tokens_view(tokens@),
            i as int,
            count as int,
            last_line,
            tokens_view(acc@),
        ) {
            Ok(p) => r matches Ok(q) && tokens_view(q.0@) == p.0 && q.1 as int == p.1 && q.1
                <= tokens@.len(),
            Err(e) => r == Result::<(Vec<SourceToken>, usize), ParseError>::Err(e),
        },
    decreases tokens@.len() - i,
{
    let len = tokens.len();
    if i >= len {
        return Err(
            ParseError {
                error_type: ParseErrorType::UnexpectedEndOfStream,
                line_number: last_line,
            },
        );
    }
    let t = &tokens[i];
    match &t.token {
        Token::CloseBracket => {
            if count > 1 {
                let mut acc2 = acc;
                let ghost acc_v = tokens_view(acc2@);
                acc2.push(SourceToken { token: Token::CloseBracket, line_number: t.line_number });
                proof {
                    assert(tokens_view(acc2@) =~= acc_v.push(tokens@[i as int]@));
                }
                collect_block(tokens, i + 1, count - 1, last_line, acc2)
            } else {
                Ok((acc, i + 1))
            }
        },
        _ => {
            let c2 = if matches!(&t.token, Token::OpenBracket) {
                count + 1
            } else {
                count
            };
            let mut acc2 = acc;
            let ghost acc_v = tokens_view(acc2@);
            let copied = SourceToken { token: clone_token(&t.token), line_number: t.line_number };
            acc2.push(copied);
            proof {
                assert(tokens_view(acc2@) =~= acc_v.push(tokens@[i as int]@));
            }
            collect_block(tokens, i + 1, c2, t.line_number, acc2)
        },
    }
}

fn build_expression(tokens: &Vec<SourceToken>, i: usize) -> (r: Result<
    (Expression, usize),
    ParseError,
>)
    requires
        i <= tokens@.len(),
    ensures
        match spec_build_expression(tokens_view(tokens@), i as int) {
            Ok(p) => r matches Ok(q) && expr_model(q.0) == p.0 && q.1 as int == p.1 && q.1
                <= tokens@.len(),
            Err(e) => r == Result::<(Expression, usize), ParseError>::Err(e),
        },
    decreases tokens@.len() - i, 1int,
{
    let len = tokens.len();
    if i >= len {
        return Err(ParseError { error_type: ParseErrorType::UnexpectedEndOfStream, line_number: 0 });
    }
    let left = match &tokens[i].token {
        Token::True => Some(Expression::Bool(true)),
        Token::False => Some(Expression::Bool(false)),
        Token::Symbol(s) => Some(Expression::Symbol(s.clone())),
        Token::Number(n) => Some(Expression::Number(*n)),
        Token::CurrentPlayer => Some(Expression::Symbol(String::from_str("current_player"))),
        _ => None,
    };
    match left {
        Some(l) => combine_expression(tokens, i + 1, l),
        None => Err(ParseError { error_type: ParseErrorType::UnexpectedToken, line_number: 0 }),
    }
}

fn combine_expression(tokens: &Vec<SourceToken>, i: usize, left: Expression) -> (r: Result<
    (Expression, usize),
    ParseError,
>)
    requires
        i <= tokens@.len(),
    ensures
        match spec_combine_expression(tokens_view(tokens@), i as int, expr_model(left)) {
            Ok(p) => r matches Ok(q) && expr_model(q.0) == p.0 && q.1 as int == p.1 && q.1
                <= tokens@.len(),
            Err(e) => r == Result::<(Expression, usize), ParseError>::Err(e),
        },
    decreases tokens@.len() - i, 0int,
{
    let len = tokens.len();
    if i >= len {
        return Ok((left, i));
    }
    match &tokens[i].token {
        Token::CloseParens => Ok((left, i + 1)),
        Token::Is => {
            let ghost left_m = expr_model(left);
            match build_expression(tokens, bump(i, 1, len)) {
                Ok((right, j)) => {
                    let ghost right_m = expr_model(right);
                    let result = Expression::Comparison(Box::new(Comparison { left, right }));
                    proof {
                        assert(expr_model(result) == ExpressionModel::Comparison(
                            Box::new(ComparisonModel { left: left_m, right: right_m }),
                        ));
                    }
                    Ok((result, j))
                },
                Err(e) => Err(e),
            }
        },
        Token::Ampersand => {
            let ghost left_m = expr_model(left);
            match build_expression(tokens, bump(i, 1, len)) {
                Ok((right, j)) => {
                    let ghost right_m = expr_model(right);
                    let result = Expression::And(Box::new(And { left, right }));
                    proof {
                        assert(expr_model(result) == ExpressionModel::And(
                            Box::new(AndModel { left: left_m, right: right_m }),
                        ));
                    }
                    Ok((result, j))
                },
                Err(e) => Err(e),
            }
        },
        Token::OpenParens => {
            match left {
                Expression::Symbol(s) => {
                    let ghost sm = s@;
                    match build_expression(tokens, bump(i, 1, len)) {
                        Ok((arg, j)) => {
                            let mut arguments: Vec<Expression> = Vec::new();
                            let ghost arg_m = expr_model(arg);
                            arguments.push(arg);
                            proof {
                                lemma_exprs_model_len(arguments@);
                                assert(exprs_model(arguments@) =~= seq![arg_m]);
                            }
                            let call = Expression::FunctionCall(
                                FunctionCall { name: s, arguments },
                            );
                            proof {
                                reveal_with_fuel(expr_model, 2);
                                reveal_with_fuel(fncall_model, 2);
                                assert(expr_model(call) == ExpressionModel::FunctionCall(
                                    FunctionCallModel { name: sm, arguments: seq![arg_m] },
                                ));
                            }
                            combine_expression(tokens, forward(j, i, len), call)
                        },
                        Err(e) => Err(e),
                    }
                },
                _ => Err(
                    ParseError { error_type: ParseErrorType::UnexpectedToken, line_number: 0 },
                ),
            }
        },
        _ => Err(ParseError { error_type: ParseErrorType::UnexpectedToken, line_number: 0 }),
    }
}

fn create_function(tokens: &Vec<SourceToken>, i: usize, name: String) -> (r: (Statement, usize))
    requires
        i <= tokens@.len(),
    ensures
        ({
            let p = spec_create_function(tokens_view(tokens@), i as int, name@);
            stmt_model(r.0) == p.0 && r.1 as int == p.1 && r.1 <= tokens@.len()
        }),
{
    let len = tokens.len();
    if i >= len {
        let arguments: Vec<Expression> = Vec::new();
        proof {
            lemma_exprs_model_len(arguments@);
            assert(exprs_model(arguments@) =~= Seq::<ExpressionModel>::empty());
        }
        return (Statement::FunctionCall(FunctionCall { name, arguments }), i);
    }
    let mut arguments: Vec<Expression> = Vec::new();
    match &tokens[i].token {
        Token::Deck => {
            arguments.push(Expression::Symbol(String::from_str("deck")));
            proof {
                lemma_exprs_model_len(arguments@);
                assert(exprs_model(arguments@) =~= seq![ExpressionModel::Symbol("deck"@)]);
            }
        },
        Token::Symbol(s) => {
            let ghost sm = s@;
            arguments.push(Expression::Symbol(s.clone()));
            proof {
                lemma_exprs_model_len(arguments@);
                assert(exprs_model(arguments@) =~= seq![ExpressionModel::Symbol(sm)]);
            }
        },
        _ => {
            proof {
                lemma_exprs_model_len(arguments@);
                assert(exprs_model(arguments@) =~= Seq::<ExpressionModel>::empty());
            }
        },
    }
    (Statement::FunctionCall(FunctionCall { name, arguments }), i + 1)
}

#[verifier::rlimit(100)]
fn parse_from(tokens: &Vec<SourceToken>, i: usize, acc: Vec<Statement>) -> (r: Result<
    Vec<Statement>,
    ParseError,
>)
    requires
        i <= tokens@.len(),
    ensures
        match spec_parse_from(tokens_view(tokens@), i as int, stmts_model(acc@)) {
            Ok(ms) => r matches Ok(v) && stmts_model(v@) == ms,
            Err(e) => r == Result::<Vec<Statement>, ParseError>::Err(e),
        },
    decreases tokens@.len() - i,
{
    let len = tokens.len();
    if i >= len {
        return Ok(acc);
    }
    let line = tokens[i].line_number;
    match &tokens[i].token {
        Token::Name | Token::Players | Token::CurrentPlayer | Token::Stack => {
            let key = match &tokens[i].token {
                Token::Name => GlobalKey::Name,
                Token::Players => GlobalKey::Players,
                Token::CurrentPlayer => GlobalKey::CurrentPlayer,
                _ => GlobalKey::Stack,
            };
            if i + 1 >= len {
                return Err(
                    ParseError {
                        error_type: ParseErrorType::UnexpectedEndOfStream,
                        line_number: line,
                    },
                );
            }
            let value = match &tokens[i + 1].token {
                Token::Symbol(s) => Some(Expression::Symbol(s.clone())),
                Token::Number(n) => Some(Expression::Number(*n)),
                _ => None,
            };
            match value {
                Some(value) => {
                    let mut acc2 = acc;
                    let ghost acc_v = stmts_model(acc2@);
                    let stmt = Statement::Declaration(Declaration { key, value });
                    let ghost sm = stmt_model(stmt);
                    let ghost pre_v = acc2@;
                    let ghost stv = stmt;
                    acc2.push(stmt);
                    proof {
                        lemma_stmts_model_push(pre_v, stv);
                    }
                    parse_from(tokens, i + 2, acc2)
                },
                None => Err(
                    ParseError {
                        error_type: ParseErrorType::UnexpectedToken,
                        line_number: tokens[i + 1].line_number,
                    },
                ),
            }
        },
        Token::Deck => {
            if i + 1 >= len {
                return Err(
                    ParseError { error_type: ParseErrorType::UnexpectedToken, line_number: line },
                );
            }
            match &tokens[i + 1].token {
                Token::Symbol(s) => {
                    let value = Expression::Symbol(s.clone());
                    let mut acc2 = acc;
                    let ghost acc_v = stmts_model(acc2@);
                    let stmt = Statement::Declaration(
                        Declaration { key: GlobalKey::Deck, value },
                    );
                    let ghost sm = stmt_model(stmt);
                    let ghost pre_v = acc2@;
                    let ghost stv = stmt;
                    acc2.push(stmt);
                    proof {
                        lemma_stmts_model_push(pre_v, stv);
                    }
                    parse_from(tokens, i + 2, acc2)
                },
                Token::Transfer => {
                    match create_transfer(tokens, i + 2, String::from_str("deck"), line) {
                        Ok((stmt, j)) => {
                            let mut acc2 = acc;
                            let ghost acc_v = stmts_model(acc2@);
                            let ghost sm = stmt_model(stmt);
                            let ghost pre_v = acc2@;
                            let ghost stv = stmt;
                            acc2.push(stmt);
                            proof {
                                lemma_stmts_model_push(pre_v, stv);
                            }
                            parse_from(tokens, forward(j, i, len), acc2)
                        },
                        Err(e) => Err(e),
                    }
                },
                _ => Err(
                    ParseError { error_type: ParseErrorType::UnexpectedToken, line_number: line },
                ),
            }
        },
        Token::Define => {
            if i + 1 >= len {
                return Err(
                    ParseError {
                        error_type: ParseErrorType::UnexpectedEndOfStream,
                        line_number: line,
                    },
                );
            }
            match &tokens[i + 1].token {
                Token::Symbol(s) => {
                    let name = s.clone();
                    let no_args: Vec<String> = Vec::new();
                    proof {
                        assert(no_args@.map_values(|a: String| a@) =~= Seq::<Seq<char>>::empty());
                    }
                    match build_args(tokens, bump(i, 3, len), no_args) {
                        Ok((arguments, j1)) => {
                            let no_tokens: Vec<SourceToken> = Vec::new();
                            proof {
                                assert(tokens_view(no_tokens@) =~= Seq::<
                                    SourceTokenModel,
                                >::empty());
                            }
                            match collect_block(tokens, forward(j1, i, len), 0, 0, no_tokens) {
                                Ok((body_tokens, j2)) => {
                                    let no_stmts: Vec<Statement> = Vec::new();
                                    proof {
                                        assert(stmts_model(no_stmts@) =~= Seq::<
                                            StatementModel,
                                        >::empty());
                                    }
                                    proof {
                                        lemma_collect_block_len(tokens_view(tokens@));
                                    }
                                    proof {
                                lemma_collect_block_len(tokens_view(tokens@));
                            }
                            match parse_from(&body_tokens, 0, no_stmts) {
                                        Ok(body) => {
                                            let mut acc2 = acc;
                                            let ghost acc_v = stmts_model(acc2@);
                                            let stmt = Statement::Definition(
                                                Definition { name, arguments, body },
                                            );
                                            let ghost sm = stmt_model(stmt);
                                            let ghost pre_v = acc2@;
                                            let ghost stv = stmt;
                                            acc2.push(stmt);
                                            proof {
                                                lemma_stmts_model_push(pre_v, stv);
                                            }
                                            parse_from(tokens, forward(j2, i, len), acc2)
                                        },
                                        Err(e) => Err(e),
                                    }
                                },
                                Err(e) => Err(e),
                            }
                        },
                        Err(e) => Err(e),
                    }
                },
                _ => Err(
                    ParseError {
                        error_type: ParseErrorType::ExpectedSymbol,
                        line_number: tokens[i + 1].line_number,
                    },
                ),
            }
        },
        Token::Symbol(name_ref) => {
            let name = name_ref.clone();
            if i + 1 >= len {
                return Err(
                    ParseError { error_type: ParseErrorType::UnexpectedToken, line_number: line },
                );
            }
            match &tokens[i + 1].token {
                Token::OpenParens => {
                    let (stmt, j) = create_function(tokens, i + 2, name);
                    let mut acc2 = acc;
                    let ghost acc_v = stmts_model(acc2@);
                    let ghost sm = stmt_model(stmt);
                    let ghost pre_v = acc2@;
                    let ghost stv = stmt;
                    acc2.push(stmt);
                    proof {
                        lemma_stmts_model_push(pre_v, stv);
                    }
                    parse_from(tokens, forward(j, i, len), acc2)
                },
                Token::Transfer => {
                    match create_transfer(tokens, i + 2, name, line) {
                        Ok((stmt, j)) => {
                            let mut acc2 = acc;
                            let ghost acc_v = stmts_model(acc2@);
                            let ghost sm = stmt_model(stmt);
                            let ghost pre_v = acc2@;
                            let ghost stv = stmt;
                            acc2.push(stmt);
                            proof {
                                lemma_stmts_model_push(pre_v, stv);
                            }
                            parse_from(tokens, forward(j, i, len), acc2)
                        },
                        Err(e) => Err(e),
                    }
                },
                _ => Err(
                    ParseError { error_type: ParseErrorType::UnexpectedToken, line_number: line },
                ),
            }
        },
        Token::If => {
            match build_expression(tokens, bump(i, 2, len)) {
                Ok((expression, j1)) => {
                    let no_tokens: Vec<SourceToken> = Vec::new();
                    proof {
                        assert(tokens_view(no_tokens@) =~= Seq::<SourceTokenModel>::empty());
                    }
                    match collect_block(tokens, forward(j1, i, len), 0, 0, no_tokens) {
                        Ok((body_tokens, j2)) => {
                            let no_stmts: Vec<Statement> = Vec::new();
                            proof {
                                assert(stmts_model(no_stmts@) =~= Seq::<StatementModel>::empty());
                            }
                            proof {
                                lemma_collect_block_len(tokens_view(tokens@));
                            }
                            match parse_from(&body_tokens, 0, no_stmts) {
                                Ok(body) => {
                                    let mut acc2 = acc;
                                    let ghost acc_v = stmts_model(acc2@);
                                    let stmt = Statement::IfStatement(
                                        IfStatement { expression, body },
                                    );
                                    let ghost sm = stmt_model(stmt);
                                    let ghost pre_v = acc2@;
                                    let ghost stv = stmt;
                                    acc2.push(stmt);
                                    proof {
                                        lemma_stmts_model_push(pre_v, stv);
                                    }
                                    parse_from(tokens, forward(j2, i, len), acc2)
                                },
                                Err(e) => Err(e),
                            }
                        },
                        Err(e) => Err(e),
                    }
                },
                Err(e) => Err(e),
            }
        },
        Token::Check => {
            let has_parens = i + 1 < len && matches!(&tokens[i + 1].token, Token::OpenParens);
            if has_parens {
                match build_expression(tokens, bump(i, 2, len)) {
                    Ok((expression, j)) => {
                        let mut acc2 = acc;
                        let ghost acc_v = stmts_model(acc2@);
                        let stmt = Statement::CheckStatement(CheckStatement { expression });
                        let ghost sm = stmt_model(stmt);
                        let ghost pre_v = acc2@;
                        let ghost stv = stmt;
                        acc2.push(stmt);
                        proof {
                            lemma_stmts_model_push(pre_v, stv);
                        }
                        parse_from(tokens, forward(j, i, len), acc2)
                    },
                    Err(e) => Err(e),
                }
            } else {
                Err(ParseError { error_type: ParseErrorType::UnexpectedToken, line_number: line })
            }
        },
        Token::Return => {
            let has_parens = i + 1 < len && matches!(&tokens[i + 1].token, Token::OpenParens);
            if has_parens {
                match build_expression(tokens, bump(i, 2, len)) {
                    Ok((expression, j)) => {
                        let mut acc2 = acc;
                        let ghost acc_v = stmts_model(acc2@);
                        let stmt = Statement::ReturnStatement(ReturnStatement { expression });
                        let ghost sm = stmt_model(stmt);
                        let ghost pre_v = acc2@;
                        let ghost stv = stmt;
                        acc2.push(stmt);
                        proof {
                            lemma_stmts_model_push(pre_v, stv);
                        }
                        parse_from(tokens, forward(j, i, len), acc2)
                    },
                    Err(e) => Err(e),
                }
            } else {
                Err(ParseError { error_type: ParseErrorType::UnexpectedToken, line_number: line })
            }
        },
        _ => parse_from(tokens, i + 1, acc),
    }
}

/// Turns a token stream into a statement list.
///
/// Declarations, definitions, transfers, function calls, `if` blocks,
/// `check` guards and `return` statements are recognized by their leading
/// token; newlines and stray tokens are skipped silently.
pub fn parse(tokens: &Vec<SourceToken>) -> (r: Result<Vec<Statement>, ParseError>)
    ensures
        match spec_parse(tokens_view(tokens@)) {
            Ok(ms) => r matches Ok(v) && stmts_model(v@) == ms,
            Err(e) => r == Result::<Vec<Statement>, ParseError>::Err(e),
        },
{
    let acc: Vec<Statement> = Vec::new();
    proof {
        assert(stmts_model(acc@) =~= Seq::<StatementModel>::empty());
    }
    parse_from(tokens, 0, acc)
}

} // verus!
