use vstd::prelude::*;
use rand::seq::SliceRandom;
use crate::ast::Definition;
use crate::cards::Card;
use crate::runtime::{GameState, PrimitiveValue};

verus! {

/// Relies on rand's `SliceRandom::shuffle` with `rand::thread_rng`: an
/// in-place Fisher-Yates pass built from swaps, so the result holds exactly
/// the cards it started with, rearranged.
#[verifier::external_body]
pub fn shuffle(stack: &mut Vec<Card>)
    ensures
        final(stack)@.to_multiset() == old(stack)@.to_multiset(),
        final(stack)@.len() == old(stack)@.len(),
{
    let mut rng = rand::thread_rng();
    stack.shuffle(&mut rng);
}

/// Ends the game session.
pub fn end(status: &mut GameState)
    ensures
        *final(status) == GameState::GameOver,
{
    *status = GameState::GameOver;
}

/// Records a winning player number; winners are kept in order, repeats and
/// all.
pub fn winner(winners: &mut Vec<i64>, player: i64)
    ensures
        final(winners)@ == old(winners)@.push(player),
{
    winners.push(player);
}

/// The size of a resolved stack value; any other value counts zero.
pub fn count(stack: PrimitiveValue) -> (r: usize)
    ensures
        r as int == match stack@ {
            crate::runtime::shape::PrimShape::StackLen(l) => l as int,
            _ => 0,
        },
{
    match stack {
        PrimitiveValue::Stack(v) => v.len(),
        _ => 0,
    }
}

/// A placeholder filter that keeps every card; the runtime's own `filter`
/// applies the predicate.
pub fn filter(stack: Vec<Card>, _function: Definition) -> (r: Vec<Card>)
    ensures
        r@ == stack@,
{
    return stack;
}

} // verus!
