use cardlang::ast::{
    And, CheckStatement, Comparison, Declaration, Definition, Expression, FunctionCall, GlobalKey,
    IfStatement, ReturnStatement, Statement, Transfer, TransferCount,
};
use cardlang::parse::{ParseError, ParseErrorType, parse};
use cardlang::token::{SourceToken, Token};

fn get_source_tokens(tokens: Vec<Token>) -> Vec<SourceToken> {
    tokens
        .into_iter()
        .map(|t| SourceToken { token: t, line_number: 0 })
        .collect()
}

#[test]
fn it_can_handle_a_single_declaration() {
    let tokens = get_source_tokens(vec![Token::Name, Token::Symbol("turns".to_string())]);
    let mut expected = vec![];
    let key = GlobalKey::Name;
    let value = Expression::Symbol("turns".to_string());
    let declaration = Declaration { key, value };

    let statement = Statement::Declaration(declaration);
    expected.push(statement);

    let result = parse(&tokens);

    assert_eq!(Ok(expected), result)
}

#[test]
fn it_can_handle_numerical_declaration() {
    let tokens = get_source_tokens(vec![Token::Players, Token::Number(2)]);
    let mut expected = vec![];
    let key = GlobalKey::Players;
    let value = Expression::Number(2);
    let declaration = Declaration { key, value };

    let statement = Statement::Declaration(declaration);
    expected.push(statement);

    let result = parse(&tokens);

    assert_eq!(Ok(expected), result)
}

#[test]
fn it_can_handle_newlines() {
    let tokens = get_source_tokens(vec![
        Token::Name,
        Token::Symbol("turns".to_string()),
        Token::Newline,
        Token::Players,
        Token::Number(2),
    ]);
    let mut expected = vec![];
    let key = GlobalKey::Name;
    let value = Expression::Symbol("turns".to_string());
    let declaration = Declaration { key, value };

    let statement = Statement::Declaration(declaration);
    expected.push(statement);

    let key = GlobalKey::Players;
    let value = Expression::Number(2);
    let declaration = Declaration { key, value };

    let statement = Statement::Declaration(declaration);
    expected.push(statement);

    let result = parse(&tokens);

    assert_eq!(Ok(expected), result)
}

#[test]
fn it_can_setup_a_simple_game() {
    let tokens = get_source_tokens(vec![
        Token::Name,
        Token::Symbol("turns".to_string()),
        Token::Newline,
        Token::Players,
        Token::Number(2),
        Token::Deck,
        Token::Symbol("StandardDeck".to_string()),
        Token::CurrentPlayer,
        Token::Number(1),
        Token::Stack,
        Token::Symbol("middle".to_owned()),
    ]);

    let mut expected = vec![];
    let key = GlobalKey::Name;
    let value = Expression::Symbol("turns".to_string());
    let declaration = Declaration { key, value };

    let statement = Statement::Declaration(declaration);
    expected.push(statement);

    let key = GlobalKey::Players;
    let value = Expression::Number(2);
    let declaration = Declaration { key, value };

    let statement = Statement::Declaration(declaration);
    expected.push(statement);

    let key = GlobalKey::Deck;
    let value = Expression::Symbol("StandardDeck".to_string());
    let declaration = Declaration { key, value };

    let statement = Statement::Declaration(declaration);
    expected.push(statement);

    let key = GlobalKey::CurrentPlayer;
    let value = Expression::Number(1);
    let declaration = Declaration { key, value };

    let statement = Statement::Declaration(declaration);
    expected.push(statement);

    let key = GlobalKey::Stack;
    let value = Expression::Symbol("middle".to_string());
    let declaration = Declaration { key, value };

    let statement = Statement::Declaration(declaration);
    expected.push(statement);
    let result = parse(&tokens);

    assert_eq!(Ok(expected), result)
}

#[test]
fn it_recognises_a_function_definition() {
    let tokens = get_source_tokens(vec![
        Token::Define,
        Token::Symbol("setup".to_owned()),
        Token::OpenParens,
        Token::CloseParens,
        Token::OpenBracket,
        Token::CloseBracket,
    ]);

    let name = "setup".to_owned();
    let body = vec![];
    let definition = Definition { arguments: vec![], name, body };
    let statement = Statement::Definition(definition);
    let expected = vec![statement];
    let result = parse(&tokens);

    assert_eq!(Ok(expected), result);
}

#[test]
fn it_returns_a_parse_error_when_function_not_defined_correctly() {
    let tokens = get_source_tokens(vec![
        Token::Define,
        Token::Number(1),
        Token::OpenParens,
        Token::CloseParens,
        Token::OpenBracket,
        Token::CloseBracket,
    ]);

    let expected = ParseErrorType::ExpectedSymbol;
    let result = parse(&tokens);

    assert_eq!(result.unwrap_err().error_type, expected);
}

#[test]
fn it_recognises_stack_transfers() {
    let tokens = get_source_tokens(vec![Token::Deck, Token::Transfer, Token::Players]);

    let from = "deck".to_owned();
    let to = "players".to_owned();
    let modifier = None;
    let count = None;
    let transfer = Transfer { from, to, modifier, count };
    let statement = Statement::Transfer(transfer);
    let expected = Ok(vec![statement]);
    let result = parse(&tokens);

    assert_eq!(result, expected);
}

#[test]
fn it_can_handle_function_body() {
    let tokens = get_source_tokens(vec![
        Token::Define,
        Token::Symbol("setup".to_owned()),
        Token::OpenParens,
        Token::CloseParens,
        Token::OpenBracket,
        Token::Deck,
        Token::Transfer,
        Token::Players,
        Token::Newline,
        Token::CloseBracket,
    ]);

    let from = "deck".to_owned();
    let to = "players".to_owned();
    let modifier = None;
    let count = None;
    let transfer = Transfer { from, to, modifier, count };
    let transfer_statement = Statement::Transfer(transfer);

    let name = "setup".to_owned();
    let body = vec![transfer_statement];
    let definition = Definition { arguments: vec![], name, body };
    let statement = Statement::Definition(definition);
    let expected = vec![statement];
    let result = parse(&tokens);

    assert_eq!(Ok(expected), result);
}

#[test]
fn it_returns_error_for_incomplete_function_body() {
    let tokens = get_source_tokens(vec![
        Token::Define,
        Token::Symbol("setup".to_owned()),
        Token::OpenParens,
        Token::CloseParens,
        Token::OpenBracket,
    ]);

    let expected = ParseErrorType::UnexpectedEndOfStream;
    let result = parse(&tokens);

    assert_eq!(result.unwrap_err().error_type, expected);
}

#[test]
fn it_returns_error_for_invalid_function_body() {
    let tokens = get_source_tokens(vec![
        Token::Define,
        Token::Symbol("setup".to_owned()),
        Token::OpenParens,
        Token::CloseParens,
        Token::OpenBracket,
        Token::Define,
        Token::Newline,
        Token::CloseBracket,
    ]);

    let expected = ParseErrorType::ExpectedSymbol;
    let result = parse(&tokens);

    assert_eq!(result.unwrap_err().error_type, expected);
}

#[test]
fn deck_must_be_followed_by_a_symbol_or_transfer() {
    let tokens = get_source_tokens(vec![Token::Deck, Token::Players]);

    let expected = ParseErrorType::UnexpectedToken;
    let result = parse(&tokens);

    assert_eq!(result.unwrap_err().error_type, expected);
}

#[test]
fn it_can_recognise_function_calls() {
    let tokens = get_source_tokens(vec![
        Token::Symbol("shuffle".to_string()),
        Token::OpenParens,
        Token::Deck,
        Token::CloseParens,
    ]);

    let function_call = FunctionCall {
        name: "shuffle".to_string(),
        arguments: vec![Expression::Symbol("deck".to_string())],
    };
    let statement = Statement::FunctionCall(function_call);
    let expected = Ok(vec![statement]);

    let result = parse(&tokens);

    assert_eq!(result, expected);
}

#[test]
fn it_recognises_player_hand_to_deck_transfer() {
    let tokens = get_source_tokens(vec![
        Token::Symbol("player:hand".to_string()),
        Token::Transfer,
        Token::Deck,
    ]);

    let from = "player:hand".to_owned();
    let to = "deck".to_owned();
    let modifier = None;
    let count = None;
    let transfer = Transfer { from, to, modifier, count };
    let statement = Statement::Transfer(transfer);
    let expected = Ok(vec![statement]);

    let result = parse(&tokens);
    assert_eq!(result, expected);
}

#[test]
fn it_can_pass_a_count_to_transfer() {
    let tokens = get_source_tokens(vec![
        Token::Symbol("player:hand".to_string()),
        Token::Transfer,
        Token::Deck,
        Token::Symbol("end".to_string()),
    ]);

    let from = "player:hand".to_owned();
    let to = "deck".to_owned();
    let modifier = None;
    let count = Some(TransferCount::End);
    let transfer = Transfer { from, to, modifier, count };
    let statement = Statement::Transfer(transfer);
    let expected = Ok(vec![statement]);

    let result = parse(&tokens);
    assert_eq!(result, expected);
}

#[test]
fn it_can_recognise_function_calls_with_no_arguments() {
    let tokens = get_source_tokens(vec![
        Token::Symbol("end".to_string()),
        Token::OpenParens,
        Token::CloseParens,
    ]);

    let function_call = FunctionCall { name: "end".to_string(), arguments: vec![] };

    let statement = Statement::FunctionCall(function_call);
    let expected = Ok(vec![statement]);

    let result = parse(&tokens);

    assert_eq!(result, expected);
}

#[test]
fn does_it_recognise_win_player_id() {
    let tokens = get_source_tokens(vec![
        Token::Symbol("winner".to_string()),
        Token::OpenParens,
        Token::Symbol("player:id".to_string()),
        Token::CloseParens,
    ]);

    let function_call = FunctionCall {
        name: "winner".to_string(),
        arguments: vec![Expression::Symbol("player:id".to_string())],
    };

    let statement = Statement::FunctionCall(function_call);
    let expected = Ok(vec![statement]);

    let result = parse(&tokens);

    assert_eq!(result, expected);
}

#[test]
fn it_can_handle_if_statements() {
    let tokens = get_source_tokens(vec![
        Token::If,
        Token::OpenParens,
        Token::True,
        Token::CloseParens,
        Token::OpenBracket,
        Token::CloseBracket,
    ]);
    let expression = Expression::Bool(true);
    let body = vec![];
    let if_statement = IfStatement { expression, body };
    let statement = Statement::IfStatement(if_statement);
    let expected = vec![statement];
    let result = parse(&tokens);

    assert_eq!(Ok(expected), result);
}

#[test]
fn it_can_handle_false_if_statements() {
    let tokens = get_source_tokens(vec![
        Token::If,
        Token::OpenParens,
        Token::False,
        Token::CloseParens,
        Token::OpenBracket,
        Token::CloseBracket,
    ]);
    let expression = Expression::Bool(false);
    let body = vec![];
    let if_statement = IfStatement { expression, body };
    let statement = Statement::IfStatement(if_statement);
    let expected = vec![statement];
    let result = parse(&tokens);

    assert_eq!(Ok(expected), result);
}

#[test]
fn it_can_handle_comparisons_in_if_statement() {
    let tokens = get_source_tokens(vec![
        Token::If,
        Token::OpenParens,
        Token::Symbol("player:id".to_string()),
        Token::Is,
        Token::Number(1),
        Token::CloseParens,
        Token::OpenBracket,
        Token::CloseBracket,
    ]);

    let comparison = Comparison {
        left: Expression::Symbol("player:id".to_string()),
        right: Expression::Number(1),
    };
    let expression = Expression::Comparison(Box::new(comparison));
    let body = vec![];
    let if_statement = IfStatement { expression, body };
    let statement = Statement::IfStatement(if_statement);
    let expected = vec![statement];
    let result = parse(&tokens);

    assert_eq!(Ok(expected), result);
}

#[test]
fn it_assigns_statements_to_an_if_statement() {
    let tokens = get_source_tokens(vec![
        Token::If,
        Token::OpenParens,
        Token::True,
        Token::CloseParens,
        Token::OpenBracket,
        Token::Symbol("shuffle".to_string()),
        Token::OpenParens,
        Token::Deck,
        Token::CloseParens,
        Token::CloseBracket,
    ]);
    let expression = Expression::Bool(true);
    let function_call = FunctionCall {
        name: "shuffle".to_string(),
        arguments: vec![Expression::Symbol("deck".to_string())],
    };
    let body = vec![Statement::FunctionCall(function_call)];
    let if_statement = IfStatement { expression, body };
    let statement = Statement::IfStatement(if_statement);
    let expected = vec![statement];
    let result = parse(&tokens);

    assert_eq!(Ok(expected), result);
}

#[test]
fn it_can_handle_func_calls_in_comparisons() {
    let tokens = get_source_tokens(vec![
        Token::If,
        Token::OpenParens,
        Token::Symbol("count".to_string()),
        Token::OpenParens,
        Token::Symbol("player:hand".to_string()),
        Token::CloseParens,
        Token::Is,
        Token::Number(0),
        Token::CloseParens,
        Token::OpenBracket,
        Token::CloseBracket,
    ]);

    let function_call = FunctionCall {
        name: "count".to_string(),
        arguments: vec![Expression::Symbol("player:hand".to_string())],
    };

    let comparison = Comparison {
        left: Expression::FunctionCall(function_call),
        right: Expression::Number(0),
    };
    let expression = Expression::Comparison(Box::new(comparison));
    let body = vec![];
    let if_statement = IfStatement { expression, body };
    let statement = Statement::IfStatement(if_statement);
    let expected = vec![statement];
    let result = parse(&tokens);

    assert_eq!(Ok(expected), result);
}

#[test]
fn it_returns_a_line_number_on_errors() {
    let tokens = vec![
        SourceToken { token: Token::Define, line_number: 1 },
        SourceToken { token: Token::Number(1), line_number: 1 },
        SourceToken { token: Token::OpenParens, line_number: 1 },
        SourceToken { token: Token::CloseParens, line_number: 1 },
        SourceToken { token: Token::OpenBracket, line_number: 1 },
        SourceToken { token: Token::CloseBracket, line_number: 1 },
    ];

    let expected = ParseError::new(ParseErrorType::ExpectedSymbol, 1);
    let result = parse(&tokens);

    assert_eq!(result.unwrap_err(), expected);
}

#[test]
fn it_returns_a_line_number_on_more_errors() {
    let tokens = vec![
        SourceToken { token: Token::Deck, line_number: 2 },
        SourceToken { token: Token::CloseBracket, line_number: 2 },
    ];

    let expected = ParseError::new(ParseErrorType::UnexpectedToken, 2);
    let result = parse(&tokens);

    assert_eq!(result.unwrap_err(), expected);
}

#[test]
fn it_returns_a_line_number_on_unexpected_token_after_symbol() {
    let tokens = vec![
        SourceToken { token: Token::Symbol("foo".to_string()), line_number: 3 },
        SourceToken { token: Token::Symbol("bar".to_string()), line_number: 3 },
    ];

    let expected = ParseError::new(ParseErrorType::UnexpectedToken, 3);
    let result = parse(&tokens);

    assert_eq!(result.unwrap_err(), expected);
}

#[test]
fn it_returns_a_line_number_on_unexpected_end_of_stream() {
    let tokens = vec![
        SourceToken { token: Token::If, line_number: 4 },
        SourceToken { token: Token::OpenParens, line_number: 4 },
        SourceToken { token: Token::Symbol("player:id".to_string()), line_number: 4 },
        SourceToken { token: Token::Is, line_number: 4 },
        SourceToken { token: Token::Number(1), line_number: 4 },
        SourceToken { token: Token::CloseParens, line_number: 4 },
        SourceToken { token: Token::Newline, line_number: 4 },
        SourceToken { token: Token::OpenBracket, line_number: 5 },
    ];

    let expected = ParseError::new(ParseErrorType::UnexpectedEndOfStream, 5);
    let result = parse(&tokens);

    assert_eq!(result.unwrap_err(), expected);
}

#[test]
fn it_can_parse_a_multiline_if_block() {
    let tokens = vec![
        SourceToken { token: Token::If, line_number: 0 },
        SourceToken { token: Token::OpenParens, line_number: 0 },
        SourceToken { token: Token::Symbol("count".to_string()), line_number: 0 },
        SourceToken { token: Token::OpenParens, line_number: 0 },
        SourceToken { token: Token::Symbol("player:hand".to_string()), line_number: 0 },
        SourceToken { token: Token::CloseParens, line_number: 0 },
        SourceToken { token: Token::Is, line_number: 0 },
        SourceToken { token: Token::Number(0), line_number: 0 },
        SourceToken { token: Token::CloseParens, line_number: 0 },
        SourceToken { token: Token::OpenBracket, line_number: 0 },
        SourceToken { token: Token::Newline, line_number: 0 },
        SourceToken { token: Token::Symbol("winner".to_string()), line_number: 1 },
        SourceToken { token: Token::OpenParens, line_number: 1 },
        SourceToken { token: Token::Symbol("player:id".to_string()), line_number: 1 },
        SourceToken { token: Token::CloseParens, line_number: 1 },
        SourceToken { token: Token::Newline, line_number: 1 },
        SourceToken { token: Token::Symbol("end".to_string()), line_number: 2 },
        SourceToken { token: Token::OpenParens, line_number: 2 },
        SourceToken { token: Token::CloseParens, line_number: 2 },
        SourceToken { token: Token::Newline, line_number: 2 },
        SourceToken { token: Token::CloseBracket, line_number: 3 },
        SourceToken { token: Token::Newline, line_number: 3 },
    ];

    let expected = vec![Statement::IfStatement(IfStatement {
        expression: Expression::Comparison(Box::new(Comparison {
            left: Expression::FunctionCall(FunctionCall {
                name: "count".to_string(),
                arguments: vec![Expression::Symbol("player:hand".to_string())],
            }),
            right: Expression::Number(0),
        })),
        body: vec![
            Statement::FunctionCall(FunctionCall {
                name: "winner".to_string(),
                arguments: vec![Expression::Symbol("player:id".to_string())],
            }),
            Statement::FunctionCall(FunctionCall {
                name: "end".to_string(),
                arguments: vec![],
            }),
        ],
    })];
    let result = parse(&tokens);

    assert_eq!(result, Ok(expected));
}

#[test]
fn it_can_parse_a_multiline_if_block_inside_a_func() {
    let tokens = vec![
        SourceToken { token: Token::Define, line_number: 1 },
        SourceToken { token: Token::Symbol("player_move".to_string()), line_number: 1 },
        SourceToken { token: Token::OpenParens, line_number: 1 },
        SourceToken { token: Token::Symbol("player".to_string()), line_number: 1 },
        SourceToken { token: Token::CloseParens, line_number: 1 },
        SourceToken { token: Token::OpenBracket, line_number: 1 },
        SourceToken { token: Token::Newline, line_number: 1 },
        SourceToken { token: Token::If, line_number: 2 },
        SourceToken { token: Token::OpenParens, line_number: 2 },
        SourceToken { token: Token::Symbol("count".to_string()), line_number: 2 },
        SourceToken { token: Token::OpenParens, line_number: 2 },
        SourceToken { token: Token::Symbol("player:hand".to_string()), line_number: 2 },
        SourceToken { token: Token::CloseParens, line_number: 2 },
        SourceToken { token: Token::Is, line_number: 2 },
        SourceToken { token: Token::Number(0), line_number: 2 },
        SourceToken { token: Token::CloseParens, line_number: 2 },
        SourceToken { token: Token::OpenBracket, line_number: 2 },
        SourceToken { token: Token::Newline, line_number: 2 },
        SourceToken { token: Token::Symbol("winner".to_string()), line_number: 3 },
        SourceToken { token: Token::OpenParens, line_number: 3 },
        SourceToken { token: Token::Symbol("player:id".to_string()), line_number: 3 },
        SourceToken { token: Token::CloseParens, line_number: 3 },
        SourceToken { token: Token::Newline, line_number: 3 },
        SourceToken { token: Token::Symbol("end".to_string()), line_number: 4 },
        SourceToken { token: Token::OpenParens, line_number: 4 },
        SourceToken { token: Token::CloseParens, line_number: 4 },
        SourceToken { token: Token::Newline, line_number: 4 },
        SourceToken { token: Token::CloseBracket, line_number: 5 },
        SourceToken { token: Token::Newline, line_number: 5 },
        SourceToken { token: Token::CloseBracket, line_number: 6 },
        SourceToken { token: Token::Newline, line_number: 6 },
    ];

    let body = vec![Statement::IfStatement(IfStatement {
        expression: Expression::Comparison(Box::new(Comparison {
            left: Expression::FunctionCall(FunctionCall {
                name: "count".to_string(),
                arguments: vec![Expression::Symbol("player:hand".to_string())],
            }),
            right: Expression::Number(0),
        })),
        body: vec![
            Statement::FunctionCall(FunctionCall {
                name: "winner".to_string(),
                arguments: vec![Expression::Symbol("player:id".to_string())],
            }),
            Statement::FunctionCall(FunctionCall {
                name: "end".to_string(),
                arguments: vec![],
            }),
        ],
    })];

    let expected = vec![Statement::Definition(Definition {
        name: "player_move".to_string(),
        body,
        arguments: vec!["player".to_string()],
    })];
    let result = parse(&tokens);

    assert_eq!(result, Ok(expected));
}

#[test]
fn it_can_parse_a_check_statement() {
    let tokens = vec![
        SourceToken { token: Token::Check, line_number: 1 },
        SourceToken { token: Token::OpenParens, line_number: 1 },
        SourceToken { token: Token::True, line_number: 1 },
        SourceToken { token: Token::CloseParens, line_number: 1 },
    ];

    let expected = vec![Statement::CheckStatement(CheckStatement {
        expression: Expression::Bool(true),
    })];

    let result = parse(&tokens);

    assert_eq!(result, Ok(expected));
}

#[test]
fn it_insists_on_an_open_parens_for_check_condition() {
    let tokens = vec![
        SourceToken { token: Token::Check, line_number: 1 },
        SourceToken { token: Token::True, line_number: 1 },
    ];

    let expected = ParseError { error_type: ParseErrorType::UnexpectedToken, line_number: 1 };

    let result = parse(&tokens);

    assert_eq!(result, Err(expected));
}

#[test]
fn it_can_parse_a_check_statement_with_current_player() {
    let tokens = vec![
        SourceToken { token: Token::Check, line_number: 1 },
        SourceToken { token: Token::OpenParens, line_number: 1 },
        SourceToken { token: Token::CurrentPlayer, line_number: 1 },
        SourceToken { token: Token::Is, line_number: 1 },
        SourceToken { token: Token::Symbol("player:id".to_string()), line_number: 1 },
        SourceToken { token: Token::CloseParens, line_number: 1 },
    ];

    let expression = Expression::Comparison(Box::new(Comparison {
        left: Expression::Symbol("current_player".to_string()),
        right: Expression::Symbol("player:id".to_string()),
    }));

    let expected = vec![Statement::CheckStatement(CheckStatement { expression })];

    let result = parse(&tokens);

    assert_eq!(result, Ok(expected));
}

#[test]
fn it_can_parse_a_return_statement() {
    let tokens = vec![
        SourceToken { token: Token::Return, line_number: 1 },
        SourceToken { token: Token::OpenParens, line_number: 1 },
        SourceToken { token: Token::True, line_number: 1 },
        SourceToken { token: Token::CloseParens, line_number: 1 },
    ];

    let expected = vec![Statement::ReturnStatement(ReturnStatement {
        expression: Expression::Bool(true),
    })];

    let result = parse(&tokens);

    assert_eq!(result, Ok(expected));
}

#[test]
fn it_can_parse_an_and_statement() {
    let tokens = vec![
        SourceToken { token: Token::Return, line_number: 1 },
        SourceToken { token: Token::OpenParens, line_number: 1 },
        SourceToken { token: Token::True, line_number: 1 },
        SourceToken { token: Token::Ampersand, line_number: 1 },
        SourceToken { token: Token::True, line_number: 1 },
        SourceToken { token: Token::CloseParens, line_number: 1 },
    ];

    let expected = vec![Statement::ReturnStatement(ReturnStatement {
        expression: Expression::And(Box::new(And {
            left: Expression::Bool(true),
            right: Expression::Bool(true),
        })),
    })];

    let result = parse(&tokens);

    assert_eq!(result, Ok(expected));
}

#[test]
fn it_parses_the_argument_of_a_function() {
    let tokens = get_source_tokens(vec![
        Token::Define,
        Token::Symbol("not_royal".to_owned()),
        Token::OpenParens,
        Token::Symbol("card".to_string()),
        Token::CloseParens,
        Token::OpenBracket,
        Token::CloseBracket,
    ]);

    let name = "not_royal".to_owned();
    let body = vec![];
    let definition = Definition { arguments: vec!["card".to_string()], name, body };
    let statement = Statement::Definition(definition);
    let expected = vec![statement];
    let result = parse(&tokens);

    assert_eq!(Ok(expected), result);
}
