use cardlang::ast::{
    CheckStatement, Comparison, Declaration, Definition, Expression, FunctionCall, GlobalKey,
    IfStatement, Statement, Transfer, TransferCount, And,
};
use cardlang::cards::standard_deck;
use cardlang::game::{Game, display_cards};

#[test]
fn it_can_display_a_deck() {
    let ast = vec![Statement::Declaration(Declaration {
        key: GlobalKey::Deck,
        value: Expression::Symbol("StandardDeck".to_string()),
    })];

    let game = Game::new(ast);
    let deck = game.show("deck");
    let split_deck: Vec<&str> = deck.split(",").collect();

    assert_eq!(split_deck[0], "ace spades");
    assert_eq!(split_deck.len(), 52);
}

#[test]
fn it_can_display_a_name() {
    let ast = vec![Statement::Declaration(Declaration {
        key: GlobalKey::Name,
        value: Expression::Symbol("turns".to_string()),
    })];

    let game = Game::new(ast);
    let name = game.show("name");

    assert_eq!(name, "turns".to_string());
}

#[test]
fn it_can_display_players() {
    let ast = vec![Statement::Declaration(Declaration {
        key: GlobalKey::Players,
        value: Expression::Number(3),
    })];

    let game = Game::new(ast);
    let players = game.show("players");

    assert_eq!(
        players,
        "player 1 (cards: 0), player 2 (cards: 0), player 3 (cards: 0)".to_string()
    );
}

#[test]
fn it_can_display_a_single_player() {
    let ast = vec![Statement::Declaration(Declaration {
        key: GlobalKey::Players,
        value: Expression::Number(1),
    })];

    let game = Game::new(ast);
    let players = game.show("players");

    assert_eq!(players, "player 1 (cards: 0)".to_string());
}

#[test]
fn it_can_start_a_game() {
    let mut ast = vec![Statement::Declaration(Declaration {
        key: GlobalKey::Players,
        value: Expression::Number(3),
    })];
    let from = "deck".to_owned();
    let to = "players".to_owned();
    let modifier = None;
    let count = None;
    let transfer = Transfer { from, to, modifier, count };
    let transfer_statement = Statement::Transfer(transfer);

    let name = "setup".to_owned();
    let body = vec![transfer_statement];
    let definition = Definition { arguments: vec![], name, body };
    let statement = Statement::Definition(definition);

    ast.push(statement);

    let mut game = Game::new(ast);
    game.start();

    let deck = game.show("deck");
    let split_deck: Vec<&str> = deck.split(",").collect();

    assert_eq!(split_deck.len(), 49);
}

#[test]
fn second_start_restarts() {
    let mut ast = vec![Statement::Declaration(Declaration {
        key: GlobalKey::Players,
        value: Expression::Number(3),
    })];
    let from = "deck".to_owned();
    let to = "players".to_owned();
    let modifier = None;
    let count = None;
    let transfer = Transfer { from, to, modifier, count };
    let transfer_statement = Statement::Transfer(transfer);

    let name = "setup".to_owned();
    let body = vec![transfer_statement];
    let definition = Definition { arguments: vec![], name, body };
    let statement = Statement::Definition(definition);

    ast.push(statement);

    let mut game = Game::new(ast);
    game.start();
    game.start();

    let deck = game.show("deck");
    let split_deck: Vec<&str> = deck.split(",").collect();

    assert_eq!(split_deck.len(), 49);
}

#[test]
fn it_deals_to_the_end_with_the_count_modifier() {
    let mut ast = vec![Statement::Declaration(Declaration {
        key: GlobalKey::Players,
        value: Expression::Number(3),
    })];
    let from = "deck".to_owned();
    let to = "players".to_owned();
    let modifier = None;
    let count = Some(TransferCount::End);
    let transfer = Transfer { from, to, modifier, count };
    let transfer_statement = Statement::Transfer(transfer);

    let name = "setup".to_owned();
    let body = vec![transfer_statement];
    let definition = Definition { arguments: vec![], name, body };
    let statement = Statement::Definition(definition);

    ast.push(statement);

    let mut game = Game::new(ast);
    game.start();

    let deck = game.show("deck");
    assert_eq!(&deck, "");
}

#[test]
fn it_can_show_player_hand() {
    let mut ast = vec![Statement::Declaration(Declaration {
        key: GlobalKey::Players,
        value: Expression::Number(1),
    })];
    let from = "deck".to_owned();
    let to = "players".to_owned();
    let modifier = None;
    let count = None;
    let transfer = Transfer { from, to, modifier, count };
    let transfer_statement = Statement::Transfer(transfer);

    let name = "setup".to_owned();
    let body = vec![transfer_statement];
    let definition = Definition { arguments: vec![], name, body };
    let statement = Statement::Definition(definition);

    ast.push(statement);

    let mut game = Game::new(ast);
    game.start();

    let hand = game.show("player 1 hand");
    assert_eq!(&hand, "king diamonds");
}

#[test]
fn it_can_show_multiple_player_hand() {
    let mut ast = vec![Statement::Declaration(Declaration {
        key: GlobalKey::Players,
        value: Expression::Number(2),
    })];
    let from = "deck".to_owned();
    let to = "players".to_owned();
    let modifier = None;
    let count = None;
    let transfer = Transfer { from, to, modifier, count };
    let transfer_statement = Statement::Transfer(transfer);

    let name = "setup".to_owned();
    let body = vec![transfer_statement];
    let definition = Definition { arguments: vec![], name, body };
    let statement = Statement::Definition(definition);

    ast.push(statement);

    let mut game = Game::new(ast);
    game.start();

    let show_players = game.show("players");
    assert_eq!(&show_players, "player 1 (cards: 1), player 2 (cards: 1)");

    let hand = game.show("player 2 hand");
    assert_eq!(&hand, "queen diamonds");
}

#[test]
fn it_can_access_built_in_functions() {
    let body = vec![Statement::FunctionCall(FunctionCall {
        name: "shuffle".to_string(),
        arguments: vec![Expression::Symbol("deck".to_string())],
    })];

    let name = "setup".to_owned();
    let definition = Definition { arguments: vec![], name, body };
    let statement = Statement::Definition(definition);
    let ast = vec![statement];

    let mut game = Game::new(ast);
    game.start();

    let usual_order = display_cards(&standard_deck());
    let deck = game.show("deck");

    assert_ne!(deck, usual_order);
}

#[test]
fn it_can_make_a_move() {
    let body = vec![Statement::FunctionCall(FunctionCall {
        name: "shuffle".to_string(),
        arguments: vec![Expression::Symbol("deck".to_string())],
    })];

    let name = "player_move".to_owned();
    let definition = Definition { arguments: vec![], name, body };
    let statement = Statement::Definition(definition);

    let ast = vec![statement];

    let mut game = Game::new(ast);
    game.start();
    game.player_move(1);

    let usual_order = display_cards(&standard_deck());
    let deck = game.show("deck");

    assert_ne!(deck, usual_order);
}

#[test]
fn it_passes_the_player_to_the_move() {
    let players = Statement::Declaration(Declaration {
        key: GlobalKey::Players,
        value: Expression::Number(3),
    });

    let body = vec![Statement::Transfer(Transfer {
        from: "deck".to_string(),
        to: "player:hand".to_string(),
        modifier: None,
        count: None,
    })];

    let name = "player_move".to_owned();
    let definition = Definition { arguments: vec!["player".to_string()], name, body };
    let statement = Statement::Definition(definition);

    let ast = vec![players, statement];

    let mut game = Game::new(ast);
    game.start();
    game.player_move(1);

    let player_hand = game.show("player 1 hand");

    assert_eq!(player_hand, "king diamonds".to_string());
}

#[test]
fn it_passes_the_player_num_to_the_move() {
    let players = Statement::Declaration(Declaration {
        key: GlobalKey::Players,
        value: Expression::Number(3),
    });

    let body = vec![Statement::Transfer(Transfer {
        from: "deck".to_string(),
        to: "player:hand".to_string(),
        modifier: None,
        count: None,
    })];

    let name = "player_move".to_owned();
    let definition = Definition { arguments: vec!["player".to_string()], name, body };
    let statement = Statement::Definition(definition);

    let ast = vec![players, statement];

    let mut game = Game::new(ast);
    game.start();
    game.player_move(2);

    let player1_hand = game.show("player 1 hand");
    let player2_hand = game.show("player 2 hand");

    assert_eq!(&player1_hand, "");
    assert_eq!(&player2_hand, "king diamonds");
}

#[test]
fn it_can_handle_custom_stacks() {
    let mut ast = vec![
        Statement::Declaration(Declaration {
            key: GlobalKey::Players,
            value: Expression::Number(1),
        }),
        Statement::Declaration(Declaration {
            key: GlobalKey::Stack,
            value: Expression::Symbol("middle".to_string()),
        }),
    ];
    let from = "deck".to_owned();
    let to = "middle".to_owned();
    let modifier = None;
    let count = None;
    let transfer = Transfer { from, to, modifier, count };
    let transfer_statement = Statement::Transfer(transfer);

    let name = "setup".to_owned();
    let body = vec![transfer_statement];
    let definition = Definition { arguments: vec![], name, body };
    let statement = Statement::Definition(definition);

    ast.push(statement);

    let mut game = Game::new(ast);
    game.start();

    let middle = game.show("middle");

    assert_eq!(&middle, "king diamonds");
}

#[test]
fn it_can_show_info_about_the_game() {
    let ast = vec![Statement::Declaration(Declaration {
        key: GlobalKey::Deck,
        value: Expression::Symbol("StandardDeck".to_string()),
    })];

    let game = Game::new(ast);
    let display = game.show("game");

    assert_eq!(display, "pending");
}

#[test]
fn it_can_end_a_game() {
    let body = vec![Statement::FunctionCall(FunctionCall {
        name: "end".to_string(),
        arguments: vec![],
    })];

    let name = "setup".to_owned();
    let definition = Definition { arguments: vec![], name, body };
    let statement = Statement::Definition(definition);
    let ast = vec![statement];

    let mut game = Game::new(ast);
    game.start();

    let display = game.show("game");

    assert_eq!(display, "game over");
}

#[test]
fn it_doesnt_move_when_game_hasnt_started() {
    let players = Statement::Declaration(Declaration {
        key: GlobalKey::Players,
        value: Expression::Number(3),
    });

    let body = vec![Statement::Transfer(Transfer {
        from: "deck".to_string(),
        to: "player hand".to_string(),
        modifier: None,
        count: None,
    })];

    let name = "player_move".to_owned();
    let definition = Definition { arguments: vec![], name, body };
    let statement = Statement::Definition(definition);

    let ast = vec![players, statement];

    let mut game = Game::new(ast);
    game.player_move(1);

    let player_hand = game.show("player 1 hand");

    assert_eq!(player_hand, "".to_string());
}

#[test]
fn it_doesnt_move_when_game_over() {
    let players = Statement::Declaration(Declaration {
        key: GlobalKey::Players,
        value: Expression::Number(3),
    });

    let body = vec![Statement::Transfer(Transfer {
        from: "deck".to_string(),
        to: "player hand".to_string(),
        modifier: None,
        count: None,
    })];

    let name = "player_move".to_owned();
    let definition = Definition { arguments: vec![], name, body };
    let statement = Statement::Definition(definition);

    let body = vec![Statement::FunctionCall(FunctionCall {
        name: "end".to_owned(),
        arguments: vec![],
    })];
    let name = "setup".to_owned();
    let definition = Definition { arguments: vec![], name, body };
    let setup = Statement::Definition(definition);

    let ast = vec![players, statement, setup];

    let mut game = Game::new(ast);
    game.start();
    game.player_move(1);

    let player_hand = game.show("player 1 hand");

    assert_eq!(player_hand, "".to_string());
}

#[test]
fn it_can_apply_a_winner() {
    let body = vec![Statement::FunctionCall(FunctionCall {
        name: "winner".to_string(),
        arguments: vec![Expression::Number(1)],
    })];

    let name = "setup".to_owned();
    let definition = Definition { arguments: vec![], name, body };
    let statement = Statement::Definition(definition);
    let ast = vec![statement];

    let mut game = Game::new(ast);
    game.start();

    let display = game.show("game");

    assert_eq!(display, "active\nwinners: 1");
}

#[test]
fn it_can_apply_a_winner_by_id() {
    let declaration = Statement::Declaration(Declaration {
        key: GlobalKey::Players,
        value: Expression::Number(1),
    });
    let body = vec![Statement::FunctionCall(FunctionCall {
        name: "winner".to_string(),
        arguments: vec![Expression::Symbol("player:id".to_string())],
    })];

    let name = "player_move".to_owned();
    let definition = Definition { arguments: vec!["player".to_string()], name, body };
    let statement = Statement::Definition(definition);
    let ast = vec![declaration, statement];

    let mut game = Game::new(ast);
    game.start();
    game.player_move(1);

    let display = game.show("game");

    assert_eq!(display, "active\nwinners: 1");
}

#[test]
fn it_can_show_a_winner_after_game_over() {
    let body = vec![
        Statement::FunctionCall(FunctionCall {
            name: "winner".to_string(),
            arguments: vec![Expression::Number(1)],
        }),
        Statement::FunctionCall(FunctionCall {
            name: "end".to_string(),
            arguments: vec![],
        }),
    ];

    let name = "setup".to_owned();
    let definition = Definition { arguments: vec![], name, body };
    let statement = Statement::Definition(definition);
    let ast = vec![statement];

    let mut game = Game::new(ast);
    game.start();

    let display = game.show("game");

    assert_eq!(display, "game over\nwinners: 1");
}

#[test]
fn it_executes_if_statement_when_expression_is_true() {
    let if_body = vec![Statement::FunctionCall(FunctionCall {
        name: "end".to_string(),
        arguments: vec![],
    })];

    let if_statement = IfStatement { expression: Expression::Bool(true), body: if_body };

    let body = vec![Statement::IfStatement(if_statement)];

    let name = "setup".to_owned();
    let definition = Definition { arguments: vec![], name, body };
    let statement = Statement::Definition(definition);
    let ast = vec![statement];

    let mut game = Game::new(ast);
    game.start();

    let display = game.show("game");

    assert_eq!(display, "game over");
}

#[test]
fn it_doesnt_execute_if_statement_when_expression_is_false() {
    let if_body = vec![Statement::FunctionCall(FunctionCall {
        name: "end".to_string(),
        arguments: vec![],
    })];

    let if_statement = IfStatement { expression: Expression::Bool(false), body: if_body };

    let body = vec![Statement::IfStatement(if_statement)];

    let name = "setup".to_owned();
    let definition = Definition { arguments: vec![], name, body };
    let statement = Statement::Definition(definition);
    let ast = vec![statement];

    let mut game = Game::new(ast);
    game.start();

    let display = game.show("game");

    assert_eq!(display, "active");
}

#[test]
fn it_executes_if_statement_when_expression_is_true_comparison() {
    let if_body = vec![Statement::FunctionCall(FunctionCall {
        name: "end".to_string(),
        arguments: vec![],
    })];

    let comparison = Comparison { left: Expression::Number(1), right: Expression::Number(1) };

    let if_statement = IfStatement {
        expression: Expression::Comparison(Box::new(comparison)),
        body: if_body,
    };

    let body = vec![Statement::IfStatement(if_statement)];

    let name = "setup".to_owned();
    let definition = Definition { name, body, arguments: vec![] };
    let statement = Statement::Definition(definition);
    let ast = vec![statement];

    let mut game = Game::new(ast);
    game.start();

    let display = game.show("game");

    assert_eq!(display, "game over");
}

#[test]
fn it_can_compare_based_on_function_calls() {
    let mut ast = vec![Statement::Declaration(Declaration {
        key: GlobalKey::Players,
        value: Expression::Number(2),
    })];
    let if_body = vec![Statement::FunctionCall(FunctionCall {
        name: "end".to_string(),
        arguments: vec![],
    })];

    let count_call = FunctionCall {
        name: "count".to_string(),
        arguments: vec![Expression::Symbol("player:hand".to_string())],
    };

    let comparison = Comparison {
        left: Expression::FunctionCall(count_call),
        right: Expression::Number(0),
    };

    let if_statement = IfStatement {
        expression: Expression::Comparison(Box::new(comparison)),
        body: if_body,
    };

    let body = vec![Statement::IfStatement(if_statement)];

    let name = "player_move".to_owned();
    let definition = Definition { name, body, arguments: vec![] };
    let statement = Statement::Definition(definition);
    ast.push(statement);

    let mut game = Game::new(ast);
    game.start();
    game.player_move(1);

    let display = game.show("game");

    assert_eq!(display, "game over");
}

#[test]
fn it_can_compare_based_on_function_calls_with_cards() {
    let mut ast = vec![Statement::Declaration(Declaration {
        key: GlobalKey::Players,
        value: Expression::Number(2),
    })];
    let from = "deck".to_owned();
    let to = "players".to_owned();
    let modifier = None;
    let count = Some(TransferCount::End);
    let transfer = Transfer { from, to, modifier, count };
    let transfer_statement = Statement::Transfer(transfer);

    let name = "setup".to_owned();
    let body = vec![transfer_statement];
    let definition = Definition { name, body, arguments: vec![] };
    let statement = Statement::Definition(definition);

    ast.push(statement);

    let if_body = vec![Statement::FunctionCall(FunctionCall {
        name: "end".to_string(),
        arguments: vec![],
    })];

    let count_call = FunctionCall {
        name: "count".to_string(),
        arguments: vec![Expression::Symbol("player:hand".to_string())],
    };

    let comparison = Comparison {
        left: Expression::FunctionCall(count_call),
        right: Expression::Number(26),
    };

    let if_statement = IfStatement {
        expression: Expression::Comparison(Box::new(comparison)),
        body: if_body,
    };

    let body = vec![Statement::IfStatement(if_statement)];

    let name = "player_move".to_owned();
    let definition = Definition { name, body, arguments: vec!["player".to_string()] };
    let statement = Statement::Definition(definition);
    ast.push(statement);

    let mut game = Game::new(ast);
    game.start();
    game.player_move(1);

    let display = game.show("game");

    assert_eq!(display, "game over");
}

#[test]
fn check_stops_a_function_executing_when_expression_is_false() {
    let body = vec![
        Statement::CheckStatement(CheckStatement { expression: Expression::Bool(false) }),
        Statement::FunctionCall(FunctionCall {
            name: "winner".to_string(),
            arguments: vec![Expression::Number(1)],
        }),
        Statement::FunctionCall(FunctionCall {
            name: "end".to_string(),
            arguments: vec![],
        }),
    ];

    let name = "setup".to_owned();
    let definition = Definition { name, body, arguments: vec![] };
    let statement = Statement::Definition(definition);
    let ast = vec![statement];

    let mut game = Game::new(ast);
    game.start();

    let display = game.show("game");

    assert_eq!(display, "active");
}

#[test]
fn check_passes_through_when_expression_is_true() {
    let body = vec![
        Statement::CheckStatement(CheckStatement { expression: Expression::Bool(true) }),
        Statement::FunctionCall(FunctionCall {
            name: "winner".to_string(),
            arguments: vec![Expression::Number(1)],
        }),
        Statement::FunctionCall(FunctionCall {
            name: "end".to_string(),
            arguments: vec![],
        }),
    ];

    let name = "setup".to_owned();
    let definition = Definition { name, body, arguments: vec![] };
    let statement = Statement::Definition(definition);
    let ast = vec![statement];

    let mut game = Game::new(ast);
    game.start();

    let display = game.show("game");

    assert_eq!(display, "game over\nwinners: 1");
}

#[test]
fn it_shows_current_player() {
    let ast = vec![Statement::Declaration(Declaration {
        key: GlobalKey::CurrentPlayer,
        value: Expression::Number(1),
    })];

    let game = Game::new(ast);
    let current_player = game.show("current_player");

    assert_eq!(current_player, "1");
}

#[test]
fn it_shows_current_player_as_set() {
    let ast = vec![Statement::Declaration(Declaration {
        key: GlobalKey::CurrentPlayer,
        value: Expression::Number(2),
    })];

    let game = Game::new(ast);
    let current_player = game.show("current_player");

    assert_eq!(current_player, "2");
}

#[test]
fn it_can_rotate_current_player() {
    let body = vec![Statement::FunctionCall(FunctionCall {
        name: "next_player".to_string(),
        arguments: vec![],
    })];

    let name = "setup".to_owned();
    let definition = Definition { name, body, arguments: vec![] };
    let statement = Statement::Definition(definition);
    let ast = vec![
        Statement::Declaration(Declaration {
            key: GlobalKey::Players,
            value: Expression::Number(3),
        }),
        Statement::Declaration(Declaration {
            key: GlobalKey::CurrentPlayer,
            value: Expression::Number(1),
        }),
        statement,
    ];

    let mut game = Game::new(ast);
    game.start();

    let current_player = game.show("current_player");
    assert_eq!(current_player, "2");
}

#[test]
fn it_can_rotate_current_player_back_to_first() {
    let body = vec![Statement::FunctionCall(FunctionCall {
        name: "next_player".to_string(),
        arguments: vec![],
    })];

    let name = "setup".to_owned();
    let definition = Definition { name, body, arguments: vec![] };
    let statement = Statement::Definition(definition);
    let ast = vec![
        Statement::Declaration(Declaration {
            key: GlobalKey::Players,
            value: Expression::Number(2),
        }),
        Statement::Declaration(Declaration {
            key: GlobalKey::CurrentPlayer,
            value: Expression::Number(2),
        }),
        statement,
    ];

    let mut game = Game::new(ast);
    game.start();

    let current_player = game.show("current_player");
    assert_eq!(current_player, "1");
}

#[test]
fn it_executes_if_statement_when_expression_is_true_and_true() {
    let if_body = vec![Statement::FunctionCall(FunctionCall {
        name: "end".to_string(),
        arguments: vec![],
    })];

    let and = And { left: Expression::Bool(true), right: Expression::Bool(true) };

    let if_statement = IfStatement { expression: Expression::And(Box::new(and)), body: if_body };

    let body = vec![Statement::IfStatement(if_statement)];

    let name = "setup".to_owned();
    let definition = Definition { name, body, arguments: vec![] };
    let statement = Statement::Definition(definition);
    let ast = vec![statement];

    let mut game = Game::new(ast);
    game.start();

    let display = game.show("game");

    assert_eq!(display, "game over");
}

#[test]
fn it_passes_the_player_to_the_move_with_the_specified_argument_label() {
    let players = Statement::Declaration(Declaration {
        key: GlobalKey::Players,
        value: Expression::Number(3),
    });

    let body = vec![Statement::Transfer(Transfer {
        from: "deck".to_string(),
        to: "pl:hand".to_string(),
        modifier: None,
        count: None,
    })];

    let name = "player_move".to_owned();
    let definition = Definition { arguments: vec!["pl".to_string()], name, body };
    let statement = Statement::Definition(definition);

    let ast = vec![players, statement];

    let mut game = Game::new(ast);
    game.start();
    game.player_move(1);

    let player_hand = game.show("player 1 hand");

    assert_eq!(player_hand, "king diamonds".to_string());
}
