use vstd::prelude::*;

verus! {

/// A playing-card suit, in the canonical deck order.
#[derive(Debug, Copy, Clone, PartialEq, Eq, Structural)]
pub enum Suit {
    Spades,
    Hearts,
    Clubs,
    Diamonds,
}

/// A playing-card rank, ace low, in the canonical deck order.
#[derive(Debug, Copy, Clone, PartialEq, Eq, Structural)]
pub enum Rank {
    Ace,
    Two,
    Three,
    Four,
    Five,
    Six,
    Seven,
    Eight,
    Nine,
    Ten,
    Jack,
    Queen,
    King,
}

#[derive(Debug, Copy, Clone, PartialEq, Eq, Structural)]
pub struct Card {
    pub suit: Suit,
    pub rank: Rank,
}

pub open spec fn spec_suit_of(i: int) -> Suit {
    if i == 0 {
        Suit::Spades
    } else if i == 1 {
        Suit::Hearts
    } else if i == 2 {
        Suit::Clubs
    } else {
        Suit::Diamonds
    }
}

pub open spec fn spec_rank_of(i: int) -> Rank {
    if i == 0 {
        Rank::Ace
    } else if i == 1 {
        Rank::Two
    } else if i == 2 {
        Rank::Three
    } else if i == 3 {
        Rank::Four
    } else if i == 4 {
        Rank::Five
    } else if i == 5 {
        Rank::Six
    } else if i == 6 {
        Rank::Seven
    } else if i == 7 {
        Rank::Eight
    } else if i == 8 {
        Rank::Nine
    } else if i == 9 {
        Rank::Ten
    } else if i == 10 {
        Rank::Jack
    } else if i == 11 {
        Rank::Queen
    } else {
        Rank::King
    }
}

/// The 52-card deck in suit-major, rank-minor order: spades, hearts, clubs,
/// diamonds, and ace..king within each suit.
pub open spec fn spec_standard_deck() -> Seq<Card> {
    Seq::new(52, |i: int| Card { suit: spec_suit_of(i / 13), rank: spec_rank_of(i % 13) })
}

fn suit_of(i: usize) -> (s: Suit)
    ensures
        s == spec_suit_of(i as int),
{
    if i == 0 {
        Suit::Spades
    } else if i == 1 {
        Suit::Hearts
    } else if i == 2 {
        Suit::Clubs
    } else {
        Suit::Diamonds
    }
}

fn rank_of(i: usize) -> (r: Rank)
    ensures
        r == spec_rank_of(i as int),
{
    if i == 0 {
        Rank::Ace
    } else if i == 1 {
        Rank::Two
    } else if i == 2 {
        Rank::Three
    } else if i == 3 {
        Rank::Four
    } else if i == 4 {
        Rank::Five
    } else if i == 5 {
        Rank::Six
    } else if i == 6 {
        Rank::Seven
    } else if i == 7 {
        Rank::Eight
    } else if i == 8 {
        Rank::Nine
    } else if i == 9 {
        Rank::Ten
    } else if i == 10 {
        Rank::Jack
    } else if i == 11 {
        Rank::Queen
    } else {
        Rank::King
    }
}

/// Builds the full 52-card deck in canonical order.
pub fn standard_deck() -> (d: Vec<Card>)
    ensures
        d@ == spec_standard_deck(),
{
    let mut d: Vec<Card> = Vec::new();
    let mut i: usize = 0;
    while i < 52
        invariant
            i <= 52,
            d@ =~= spec_standard_deck().take(i as int),
        decreases 52 - i,
    {
        let card = Card { suit: suit_of(i / 13), rank: rank_of(i % 13) };
        d.push(card);
        i = i + 1;
    }
    proof {
        assert(d@ =~= spec_standard_deck());
    }
    d
}

pub open spec fn spec_rank_text(r: Rank) -> Seq<char> {
    match r {
        Rank::Ace => "ace"@,
        Rank::Two => "two"@,
        Rank::Three => "three"@,
        Rank::Four => "four"@,
        Rank::Five => "five"@,
        Rank::Six => "six"@,
        Rank::Seven => "seven"@,
        Rank::Eight => "eight"@,
        Rank::Nine => "nine"@,
        Rank::Ten => "ten"@,
        Rank::Jack => "jack"@,
        Rank::Queen => "queen"@,
        Rank::King => "king"@,
    }
}

pub open spec fn spec_suit_text(s: Suit) -> Seq<char> {
    match s {
        Suit::Spades => "spades"@,
        Suit::Hearts => "hearts"@,
        Suit::Clubs => "clubs"@,
        Suit::Diamonds => "diamonds"@,
    }
}

/// The attribute form of a rank, as a bound card object exposes it.
pub open spec fn spec_rank_name(r: Rank) -> Seq<char> {
    match r {
        Rank::Ace => "Ace"@,
        Rank::Two => "Two"@,
        Rank::Three => "Three"@,
        Rank::Four => "Four"@,
        Rank::Five => "Five"@,
        Rank::Six => "Six"@,
        Rank::Seven => "Seven"@,
        Rank::Eight => "Eight"@,
        Rank::Nine => "Nine"@,
        Rank::Ten => "Ten"@,
        Rank::Jack => "Jack"@,
        Rank::Queen => "Queen"@,
        Rank::King => "King"@,
    }
}

/// The attribute form of a suit, as a bound card object exposes it.
pub open spec fn spec_suit_name(s: Suit) -> Seq<char> {
    match s {
        Suit::Spades => "Spades"@,
        Suit::Hearts => "Hearts"@,
        Suit::Clubs => "Clubs"@,
        Suit::Diamonds => "Diamonds"@,
    }
}

pub fn rank_name(r: Rank) -> (s: &'static str)
    ensures
        s@ == spec_rank_name(r),
{
    match r {
        Rank::Ace => "Ace",
        Rank::Two => "Two",
        Rank::Three => "Three",
        Rank::Four => "Four",
        Rank::Five => "Five",
        Rank::Six => "Six",
        Rank::Seven => "Seven",
        Rank::Eight => "Eight",
        Rank::Nine => "Nine",
        Rank::Ten => "Ten",
        Rank::Jack => "Jack",
        Rank::Queen => "Queen",
        Rank::King => "King",
    }
}

pub fn suit_name(s: Suit) -> (t: &'static str)
    ensures
        t@ == spec_suit_name(s),
{
    match s {
        Suit::Spades => "Spades",
        Suit::Hearts => "Hearts",
        Suit::Clubs => "Clubs",
        Suit::Diamonds => "Diamonds",
    }
}

/// The display form of a card: `"<rank> <suit>"`, lowercase.
pub open spec fn spec_card_text(c: Card) -> Seq<char> {
    spec_rank_text(c.rank) + " "@ + spec_suit_text(c.suit)
}

pub fn rank_str(r: Rank) -> (s: &'static str)
    ensures
        s@ == spec_rank_text(r),
{
    match r {
        Rank::Ace => "ace",
        Rank::Two => "two",
        Rank::Three => "three",
        Rank::Four => "four",
        Rank::Five => "five",
        Rank::Six => "six",
        Rank::Seven => "seven",
        Rank::Eight => "eight",
        Rank::Nine => "nine",
        Rank::Ten => "ten",
        Rank::Jack => "jack",
        Rank::Queen => "queen",
        Rank::King => "king",
    }
}

pub fn suit_str(s: Suit) -> (t: &'static str)
    ensures
        t@ == spec_suit_text(s),
{
    match s {
        Suit::Spades => "spades",
        Suit::Hearts => "hearts",
        Suit::Clubs => "clubs",
        Suit::Diamonds => "diamonds",
    }
}

/// Renders a card to its display form, e.g. `"ace spades"`.
pub fn card_text(c: &Card) -> (r: String)
    ensures
        r@ == spec_card_text(*c),
{
    let mut out = String::new();
    out.append(rank_str(c.rank));
    out.append(" ");
    out.append(suit_str(c.suit));
    out
}

/// One player at the table: a 1-based identifier and an owned hand of cards.
#[derive(Debug, Clone)]
pub struct Player {
    pub id: u32,
    pub hand: Vec<Card>,
}

/// The mathematical form of a player.
pub struct PlayerModel {
    pub id: u32,
    pub hand: Seq<Card>,
}

impl View for Player {
    type V = PlayerModel;

    open spec fn view(&self) -> PlayerModel {
        PlayerModel { id: self.id, hand: self.hand@ }
    }
}

impl Player {
    pub fn new(id: u32) -> (p: Player)
        ensures
            p.id == id,
            p.hand@ == Seq::<Card>::empty(),
    {
        let hand: Vec<Card> = Vec::new();
        proof {
            assert(hand@ =~= Seq::<Card>::empty());
        }
        Player { hand, id }
    }

    pub fn get_hand(&self) -> (h: Vec<Card>)
        ensures
            h@ == self.hand@,
    {
        clone_cards(&self.hand)
    }

    pub fn set_hand(&mut self, hand: Vec<Card>)
        ensures
            final(self).hand == hand,
            final(self).id == old(self).id,
    {
        self.hand = hand;
    }

    pub fn get_id(&self) -> (i: u32)
        ensures
            i == self.id,
    {
        self.id
    }
}

/// Copies a stack of cards element by element.
pub fn clone_cards(v: &Vec<Card>) -> (r: Vec<Card>)
    ensures
        r@ == v@,
{
    let mut r: Vec<Card> = Vec::new();
    let mut i: usize = 0;
    while i < v.len()
        invariant
            i <= v.len(),
            r@ =~= v@.take(i as int),
        decreases v.len() - i,
    {
        r.push(v[i]);
        i = i + 1;
    }
    proof {
        assert(r@ =~= v@);
    }
    r
}

} // verus!
