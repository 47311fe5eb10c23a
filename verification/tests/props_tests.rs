use cardlang::ast::{Declaration, Definition, Expression, FunctionCall, GlobalKey, Statement,
    Transfer, TransferCount};
use cardlang::game::Game;
use cardlang::lex::lexer;
use cardlang::parse::parse;
use cardlang::token::Token;

fn game_from_source(src: &str) -> Game {
    let tokens = lexer(src).unwrap();
    let ast = parse(&tokens).unwrap();
    Game::new(ast)
}

#[test]
fn comment_elision_keeps_only_real_tokens() {
    let src = "name .( anything ( nested ) here ) token";
    let result = lexer(&src).unwrap();

    assert_eq!(result.len(), 2);
    assert_eq!(result[0].token, Token::Name);
    assert_eq!(result[1].token, Token::Symbol("token".to_string()));
}

#[test]
fn comment_elision_spans_newlines_and_nested_parens() {
    let src = "name .( anything ( nested\n( deeper ) ) here ) token";
    let result = lexer(&src).unwrap();

    assert_eq!(result.len(), 2);
    assert_eq!(result[0].token, Token::Name);
    assert_eq!(result[1].token, Token::Symbol("token".to_string()));
}

#[test]
fn dealing_one_card_each_from_source() {
    let src = "players 3\ndefine setup(){\ndeck > players\n}";
    let mut game = game_from_source(src);
    game.start();

    let deck = game.show("deck");
    let split_deck: Vec<&str> = deck.split(",").collect();
    assert_eq!(split_deck.len(), 49);

    // the top of the deck goes out first, to the first player
    assert_eq!(game.show("player 1 hand"), "king diamonds");
}

#[test]
fn dealing_to_the_end_drains_and_spreads_evenly() {
    let src = "players 3\ndefine setup(){\ndeck > players end\n}";
    let mut game = game_from_source(src);
    game.start();

    assert_eq!(game.show("deck"), "");
    assert_eq!(
        game.show("players"),
        "player 1 (cards: 18), player 2 (cards: 17), player 3 (cards: 17)"
    );
}

#[test]
fn dealing_to_one_player_takes_the_whole_deck() {
    let src = "players 1\ndefine setup(){\ndeck > players end\n}";
    let mut game = game_from_source(src);
    game.start();

    assert_eq!(game.show("deck"), "");
    assert_eq!(game.show("players"), "player 1 (cards: 52)");
}

#[test]
fn dealing_to_many_players_gives_one_card_each() {
    let mut ast = vec![Statement::Declaration(Declaration {
        key: GlobalKey::Players,
        value: Expression::Number(52),
    })];
    let transfer = Transfer {
        from: "deck".to_string(),
        to: "players".to_string(),
        modifier: None,
        count: Some(TransferCount::End),
    };
    ast.push(Statement::Definition(Definition {
        name: "setup".to_string(),
        arguments: vec![],
        body: vec![Statement::Transfer(transfer)],
    }));

    let mut game = Game::new(ast);
    game.start();

    assert_eq!(game.show("deck"), "");
    assert_eq!(game.show("player 1 hand"), "king diamonds");
    assert_eq!(game.show("player 52 hand"), "ace spades");
}

#[test]
fn cards_move_back_and_forth_without_loss() {
    // one card is dealt out at setup, and each move returns the player's
    // whole hand to the deck: the total never changes
    let src = "players 2\ndefine setup(){\ndeck > players\n}\ndefine player_move(player){\nplayer:hand > deck end\n}";
    let mut game = game_from_source(src);
    game.start();

    let deck = game.show("deck");
    assert_eq!(deck.split(",").count(), 50);

    game.player_move(1);
    let deck = game.show("deck");
    assert_eq!(deck.split(",").count(), 51);
    assert_eq!(game.show("player 1 hand"), "");
    assert_eq!(game.show("player 2 hand"), "queen diamonds");

    game.player_move(2);
    let deck = game.show("deck");
    assert_eq!(deck.split(",").count(), 52);
}

#[test]
fn draining_an_empty_deck_is_a_silent_no_op() {
    let src = "players 3\ndefine setup(){\ndeck > players end\ndeck > players end\n}";
    let mut game = game_from_source(src);
    game.start();

    assert_eq!(game.show("deck"), "");
    assert_eq!(
        game.show("players"),
        "player 1 (cards: 18), player 2 (cards: 17), player 3 (cards: 17)"
    );
}

#[test]
fn winner_then_end_keeps_the_winner_list() {
    let mut game = Game::new(vec![Statement::Definition(Definition {
        name: "setup".to_string(),
        arguments: vec![],
        body: vec![Statement::FunctionCall(FunctionCall {
            name: "winner".to_string(),
            arguments: vec![Expression::Number(1)],
        })],
    })]);
    game.start();
    assert_eq!(game.show("game"), "active\nwinners: 1");

    // a later end() keeps the recorded winners
    let mut over = Game::new(vec![Statement::Definition(Definition {
        name: "setup".to_string(),
        arguments: vec![],
        body: vec![
            Statement::FunctionCall(FunctionCall {
                name: "winner".to_string(),
                arguments: vec![Expression::Number(1)],
            }),
            Statement::FunctionCall(FunctionCall {
                name: "end".to_string(),
                arguments: vec![],
            }),
        ],
    })]);
    over.start();
    assert_eq!(over.show("game"), "game over\nwinners: 1");
}

#[test]
fn winners_can_repeat_and_be_negative() {
    let mut game = Game::new(vec![Statement::Definition(Definition {
        name: "setup".to_string(),
        arguments: vec![],
        body: vec![
            Statement::FunctionCall(FunctionCall {
                name: "winner".to_string(),
                arguments: vec![Expression::Number(2)],
            }),
            Statement::FunctionCall(FunctionCall {
                name: "winner".to_string(),
                arguments: vec![Expression::Number(2)],
            }),
            Statement::FunctionCall(FunctionCall {
                name: "winner".to_string(),
                arguments: vec![Expression::Number(-3)],
            }),
        ],
    })]);
    game.start();
    assert_eq!(game.show("game"), "active\nwinners: 2, 2, -3");
}

#[test]
fn an_unknown_show_key_reads_not_found() {
    let game = Game::new(vec![Statement::Declaration(Declaration {
        key: GlobalKey::Players,
        value: Expression::Number(1),
    })]);

    assert_eq!(game.show("treasure"), "treasure not found");
    assert_eq!(game.show("treasure chest"), "treasure not found");
}

#[test]
fn a_symbol_number_is_lexed_with_a_sign() {
    let result = lexer("-12").unwrap();
    assert_eq!(result[0].token, Token::Number(-12));
    let result = lexer("+7").unwrap();
    assert_eq!(result[0].token, Token::Number(7));
}

#[test]
fn return_and_ampersand_are_lexed() {
    let result = lexer("return ( true & false )").unwrap();
    assert_eq!(result[0].token, Token::Return);
    assert_eq!(result[1].token, Token::OpenParens);
    assert_eq!(result[2].token, Token::True);
    assert_eq!(result[3].token, Token::Ampersand);
    assert_eq!(result[4].token, Token::False);
    assert_eq!(result[5].token, Token::CloseParens);
}

#[test]
fn a_guard_in_a_nested_body_spares_the_outer_body() {
    // the failed check stops the if-body, but the statement after the if
    // still runs and ends the game
    let mut ast = vec![];
    let inner = vec![
        Statement::CheckStatement(cardlang::ast::CheckStatement {
            expression: Expression::Bool(false),
        }),
        Statement::FunctionCall(FunctionCall {
            name: "winner".to_string(),
            arguments: vec![Expression::Number(9)],
        }),
    ];
    let body = vec![
        Statement::IfStatement(cardlang::ast::IfStatement {
            expression: Expression::Bool(true),
            body: inner,
        }),
        Statement::FunctionCall(FunctionCall {
            name: "end".to_string(),
            arguments: vec![],
        }),
    ];
    ast.push(Statement::Definition(Definition {
        name: "setup".to_string(),
        arguments: vec![],
        body,
    }));

    let mut game = Game::new(ast);
    game.start();

    assert_eq!(game.show("game"), "game over");
}

#[test]
fn a_full_round_of_turn_rotation_returns_to_the_first_player() {
    let src = "players 3\ncurrent_player 1\ndefine setup(){\nnext_player()\nnext_player()\nnext_player()\n}";
    let mut game = game_from_source(src);
    game.start();
    assert_eq!(game.show("current_player"), "1");
}

#[test]
fn starting_twice_gives_the_same_sizes() {
    let src = "players 4\ndefine setup(){\nshuffle(deck)\ndeck > players\ndeck > players\n}";
    let mut game = game_from_source(src);
    game.start();
    let first_deck_size = game.show("deck").split(",").count();
    let first_players = game.show("players");

    game.start();
    assert_eq!(game.show("deck").split(",").count(), first_deck_size);
    assert_eq!(game.show("players"), first_players);
}
