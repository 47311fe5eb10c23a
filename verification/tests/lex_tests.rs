use cardlang::lex::{LexErrorType, lexer};
use cardlang::token::Token;

#[test]
fn empty_string_is_not_a_valid_prog() {
    let src = "";
    let result = lexer(&src).unwrap_err();

    assert_eq!(result.error_type, LexErrorType::EmptySpecification);
}

#[test]
fn it_recognises_the_name_token() {
    let src = "name";
    let result = lexer(&src).unwrap();

    assert_eq!(result[0].token, Token::Name);
    assert_eq!(result.len(), 1);
}

#[test]
fn it_recognises_the_stack_token() {
    let src = "stack";
    let result = lexer(&src).unwrap();

    assert_eq!(result[0].token, Token::Stack);
    assert_eq!(result.len(), 1);
}

#[test]
fn it_recognises_the_deck_keyword() {
    let src = "deck";
    let result = lexer(&src).unwrap();

    assert_eq!(result[0].token, Token::Deck);
    assert_eq!(result.len(), 1);
}

#[test]
fn it_recognises_keywords() {
    let src = "deck players stack current_player define";
    let result = lexer(&src).unwrap();

    assert_eq!(result[0].token, Token::Deck);
    assert_eq!(result[1].token, Token::Players);
    assert_eq!(result[2].token, Token::Stack);
    assert_eq!(result[3].token, Token::CurrentPlayer);
    assert_eq!(result[4].token, Token::Define);
}

#[test]
fn it_recognises_an_arbitrary_symbol() {
    let src = "scopa";
    let result = lexer(&src).unwrap();

    assert_eq!(result[0].token, Token::Symbol("scopa".to_owned()));
}

#[test]
fn it_recognises_camel_case() {
    let src = "StandardDeck";
    let result = lexer(&src).unwrap();

    assert_eq!(result[0].token, Token::Symbol("StandardDeck".to_owned()));
}

#[test]
fn it_handles_full_lines() {
    let src = "deck StandardDeck";
    let result = lexer(&src).unwrap();
    let expected = vec![Token::Deck, Token::Symbol("StandardDeck".to_owned())];
    assert_eq!(result[0].token, expected[0]);
    assert_eq!(result[1].token, expected[1]);
}

#[test]
fn it_handles_open_parens() {
    let src = "(";
    let result = lexer(&src).unwrap();
    let expected = Token::OpenParens;
    assert_eq!(result[0].token, expected);
}

#[test]
fn it_handles_close_parens() {
    let src = ")";
    let result = lexer(&src).unwrap();
    let expected = Token::CloseParens;
    assert_eq!(result[0].token, expected);
}

#[test]
fn it_handles_comma() {
    let src = ",";
    let result = lexer(&src).unwrap();
    let expected = Token::Comma;
    assert_eq!(result[0].token, expected);
}

#[test]
fn it_handles_brackets() {
    let src = "{}";
    let result = lexer(&src).unwrap();
    let expected = vec![Token::OpenBracket, Token::CloseBracket];
    assert_eq!(result[0].token, expected[0]);
    assert_eq!(result[1].token, expected[1]);
}

#[test]
fn it_handles_transfer() {
    let src = ">";
    let result = lexer(&src).unwrap();
    let expected = Token::Transfer;
    assert_eq!(result[0].token, expected);
}

#[test]
fn it_handles_check_and_is() {
    let src = "check cards is fun";
    let result = lexer(&src).unwrap();
    let expected = vec![
        Token::Check,
        Token::Symbol("cards".to_owned()),
        Token::Is,
        Token::Symbol("fun".to_owned()),
    ];
    assert_eq!(result[0].token, expected[0]);
    assert_eq!(result[1].token, expected[1]);
}

#[test]
fn it_handles_if() {
    let src = "if";
    let result = lexer(&src).unwrap();
    let expected = Token::If;
    assert_eq!(result[0].token, expected);
}

#[test]
fn it_handles_numbers() {
    let src = "1";
    let result = lexer(&src).unwrap();
    let expected = Token::Number(1);
    assert_eq!(result[0].token, expected);
}

#[test]
fn symbols_cant_start_with_a_num() {
    let src = "1foo";
    let result = lexer(&src).unwrap_err();

    assert_eq!(result.error_type, LexErrorType::ParseError);
}

#[test]
fn symbols_can_contain_a_num() {
    let src = "foo1";
    let result = lexer(&src).unwrap();

    assert_eq!(result[0].token, Token::Symbol("foo1".to_owned()));
}

#[test]
fn newlines_are_tokenised() {
    let src = "\n";
    let result = lexer(&src).unwrap();

    assert_eq!(result[0].token, Token::Newline);
}

#[test]
fn it_ignores_comments() {
    let src = "name .( this is a comment ) test1";
    let result = lexer(&src).unwrap();
    let expected = vec![Token::Name, Token::Symbol("test1".to_owned())];
    assert_eq!(result[0].token, expected[0]);
    assert_eq!(result[1].token, expected[1]);
}

#[test]
fn comments_can_be_multiline() {
    let src = "name .(
this is a comment ) test2";
    let result = lexer(&src).unwrap();
    let expected = vec![Token::Name, Token::Symbol("test2".to_owned())];
    assert_eq!(result[0].token, expected[0]);
    assert_eq!(result[1].token, expected[1]);
}

#[test]
fn comments_can_contain_parens() {
    let src = "name .(()) test2";
    let result = lexer(&src).unwrap();
    let expected = vec![Token::Name, Token::Symbol("test2".to_owned())];
    assert_eq!(result[0].token, expected[0]);
    assert_eq!(result[1].token, expected[1]);
}

#[test]
fn symbols_can_contain_underscores() {
    let src = "hello_world";
    let result = lexer(&src).unwrap();

    assert_eq!(result[0].token, Token::Symbol("hello_world".to_owned()));
}

#[test]
fn it_recognises_function_calls() {
    let src = "shuffle(deck)";
    let result = lexer(&src).unwrap();
    let expected = vec![
        Token::Symbol("shuffle".to_string()),
        Token::OpenParens,
        Token::Deck,
        Token::CloseParens,
    ];
    assert_eq!(result[0].token, expected[0]);
    assert_eq!(result[1].token, expected[1]);
    assert_eq!(result[2].token, expected[2]);
    assert_eq!(result[3].token, expected[3]);
}

#[test]
fn a_symbol_can_contain_an_attribute() {
    let src = "player:hand";
    let result = lexer(&src).unwrap();
    let expected = Token::Symbol("player:hand".to_owned());
    assert_eq!(result[0].token, expected)
}

#[test]
fn it_can_recognise_true_and_false() {
    let src = "true false";
    let result = lexer(&src).unwrap();
    let expected = vec![Token::True, Token::False];
    assert_eq!(result[0].token, expected[0]);
    assert_eq!(result[1].token, expected[1]);
}

#[test]
fn lex_errors_report_line_numbers() {
    let src = "";
    let result = lexer(&src).unwrap_err();

    assert_eq!(result.line_number, 1);
}

#[test]
fn lex_errors_report_line_numbers_accurately() {
    let src = "true\n1foo";
    let result = lexer(&src).unwrap_err();

    assert_eq!(result.line_number, 2);
}
