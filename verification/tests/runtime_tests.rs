use cardlang::ast::{Comparison, Definition, Expression, ReturnStatement, Statement};
use cardlang::cards::standard_deck;
use cardlang::runtime::builtins;
use cardlang::runtime::transfer::{TransferTarget, transfer};
use cardlang::runtime::{Callbacks, InitialValues, PrimitiveValue, Runtime};

#[test]
fn primitive_strings_can_be_compared() {
    assert_eq!(
        PrimitiveValue::String("Ace".to_string()),
        PrimitiveValue::String("Ace".to_string())
    )
}

#[test]
fn mod_filter_executes_a_function_against_a_stack_and_keeps_cards_when_true() {
    let cards = standard_deck();
    let return_statement =
        Statement::ReturnStatement(ReturnStatement { expression: Expression::Bool(true) });
    let func = Definition {
        name: "_".to_string(),
        arguments: vec!["card".to_string()],
        body: vec![return_statement],
    };

    let initial_values = InitialValues { players: 1, card_stacks: vec![], current_player: 1 };

    let callbacks = Callbacks { player_move: None, setup: None };

    let mut runtime = Runtime::new(initial_values, callbacks);

    let filtered_cards = runtime.filter(cards, func);

    assert_eq!(filtered_cards.len(), 52);
}

#[test]
fn filter_executes_a_function_against_a_stack_and_keeps_cards_when_false() {
    let cards = standard_deck();
    let return_statement =
        Statement::ReturnStatement(ReturnStatement { expression: Expression::Bool(false) });
    let func = Definition {
        name: "_".to_string(),
        arguments: vec!["card".to_string()],
        body: vec![return_statement],
    };

    let initial_values = InitialValues { players: 1, card_stacks: vec![], current_player: 1 };

    let callbacks = Callbacks { player_move: None, setup: None };

    let mut runtime = Runtime::new(initial_values, callbacks);

    let filtered_cards = runtime.filter(cards, func);

    assert_eq!(filtered_cards.len(), 0);
}

#[test]
fn filter_executes_a_function_against_a_stack_and_passes_card_to_function() {
    let cards = standard_deck();
    let expression = Expression::Comparison(Box::new(Comparison {
        left: Expression::Symbol("card:rank".to_string()),
        right: Expression::Symbol("Ace".to_string()),
    }));

    let return_statement = Statement::ReturnStatement(ReturnStatement { expression });
    let func = Definition {
        name: "_".to_string(),
        arguments: vec!["card".to_string()],
        body: vec![return_statement],
    };

    let initial_values = InitialValues { players: 1, card_stacks: vec![], current_player: 1 };

    let callbacks = Callbacks { player_move: None, setup: None };

    let mut runtime = Runtime::new(initial_values, callbacks);

    let filtered_cards = runtime.filter(cards, func);

    assert_eq!(filtered_cards.len(), 4);
}

#[test]
fn std_filter_executes_a_function_against_a_stack_and_keeps_cards_when_true() {
    let cards = standard_deck();
    let return_statement =
        Statement::ReturnStatement(ReturnStatement { expression: Expression::Bool(true) });
    let func = Definition {
        name: "_".to_string(),
        arguments: vec!["card".to_string()],
        body: vec![return_statement],
    };

    let filtered_cards = builtins::filter(cards, func);

    assert_eq!(filtered_cards.len(), 52);
}

#[test]
fn it_can_handle_moving_stack_to_stack() {
    let from = Some(TransferTarget::Stack(standard_deck()));
    let to = Some(TransferTarget::Stack(vec![]));

    let result = transfer(from, to, None);

    let (_new_from, new_to) = result.unwrap();

    assert_eq!(new_to.count(), 1);
}
