use vstd::prelude::*;
use crate::ast::{Declaration, Definition, Expression, GlobalKey, Statement};
use crate::cards::{Card, spec_card_text, card_text};
use crate::runtime::shape::{RuntimeShape, sh_initial, sh_setup};
use crate::runtime::{
    Callbacks, InitialValues, Runtime, names_view, spec_stack_contents, spec_status_text,
};
use crate::text::{
    join_text, parse_usize, root_of, attr_of, spec_attr_of, spec_dec, spec_dec_signed, spec_join,
    spec_parse_usize, spec_root_of, str_eq, usize_dec, i64_dec, views_of,
};

verus! {

/// The declared game name: the last `name` declaration wins.
pub open spec fn sp_name(ss: Seq<Statement>) -> Option<Seq<char>>
    decreases ss.len(),
{
    if ss.len() == 0 {
        None
    } else {
        match sp_name(ss.drop_first()) {
            Some(v) => Some(v),
            None => match ss.first() {
                Statement::Declaration(Declaration {
                    key: GlobalKey::Name,
                    value: Expression::Symbol(v),
                }) => Some(v@),
                _ => None,
            },
        }
    }
}

/// How a numeric declaration becomes a player count: negative values clamp
/// to none, oversized ones to the largest count.
pub open spec fn spec_u32_clamp(n: int) -> int {
    if n < 0 {
        0
    } else if n > u32::MAX as int {
        u32::MAX as int
    } else {
        n
    }
}

pub open spec fn spec_usize_clamp(n: int) -> int {
    if n < 0 {
        0
    } else if n > usize::MAX as int {
        usize::MAX as int
    } else {
        n
    }
}

/// The declared player count: the last `players` declaration wins, one by
/// default.
pub open spec fn sp_players(ss: Seq<Statement>) -> Option<int>
    decreases ss.len(),
{
    if ss.len() == 0 {
        None
    } else {
        match sp_players(ss.drop_first()) {
            Some(v) => Some(v),
            None => match ss.first() {
                Statement::Declaration(Declaration {
                    key: GlobalKey::Players,
                    value: Expression::Number(n),
                }) => Some(spec_u32_clamp(n as int)),
                _ => None,
            },
        }
    }
}

/// The declared starting player: the last `current_player` declaration
/// wins, one by default.
pub open spec fn sp_current_player(ss: Seq<Statement>) -> Option<int>
    decreases ss.len(),
{
    if ss.len() == 0 {
        None
    } else {
        match sp_current_player(ss.drop_first()) {
            Some(v) => Some(v),
            None => match ss.first() {
                Statement::Declaration(Declaration {
                    key: GlobalKey::CurrentPlayer,
                    value: Expression::Number(n),
                }) => Some(spec_usize_clamp(n as int)),
                _ => None,
            },
        }
    }
}

/// The declared stack names, in declaration order.
pub open spec fn sp_stack_names(ss: Seq<Statement>) -> Seq<Seq<char>>
    decreases ss.len(),
{
    if ss.len() == 0 {
        Seq::empty()
    } else {
        let head: Seq<Seq<char>> = match ss.first() {
            Statement::Declaration(Declaration {
                key: GlobalKey::Stack,
                value: Expression::Symbol(v),
            }) => seq![v@],
            _ => Seq::empty(),
        };
        head + sp_stack_names(ss.drop_first())
    }
}

/// The definition registered under a callback name: the last one wins.
pub open spec fn sp_callback(ss: Seq<Statement>, name: Seq<char>) -> Option<Definition>
    decreases ss.len(),
{
    if ss.len() == 0 {
        None
    } else {
        match sp_callback(ss.drop_first(), name) {
            Some(d) => Some(d),
            None => match ss.first() {
                Statement::Definition(d) => if d.name@ == name {
                    Some(d)
                } else {
                    None
                },
                _ => None,
            },
        }
    }
}

pub open spec fn sp_players_or_default(ss: Seq<Statement>) -> int {
    match sp_players(ss) {
        Some(v) => v,
        None => 1,
    }
}

pub open spec fn sp_current_player_or_default(ss: Seq<Statement>) -> int {
    match sp_current_player(ss) {
        Some(v) => v,
        None => 1,
    }
}

/// The runtime shape a program starts in once `start` has run: the fresh
/// state built from its declarations, taken through its setup body.
pub open spec fn sh_start(
    players: u32,
    stack_names: Seq<Seq<char>>,
    cp: int,
    setup: Option<Definition>,
) -> Option<RuntimeShape> {
    sh_setup(sh_initial(players, stack_names, cp), setup)
}

/// One loaded game: its name, the declarations it was built from, and the
/// running interpreter state.
#[derive(Debug)]
pub struct Game {
    pub name: Option<String>,
    pub runtime: Runtime,
    pub initial_values: InitialValues,
}

pub open spec fn opt_name_view(o: Option<String>) -> Option<Seq<char>> {
    match o {
        Some(s) => Some(s@),
        None => None,
    }
}

/// The comma-joined display of a list of cards.
pub open spec fn spec_display_cards(cs: Seq<Card>) -> Seq<char> {
    spec_join(cs.map_values(|c: Card| spec_card_text(c)), ", "@)
}

/// The display form of one player: `player <id> (cards: <n>)`.
pub open spec fn spec_player_text(id: u32, hand_len: int) -> Seq<char> {
    "player "@ + spec_dec(id as int) + " (cards: "@ + spec_dec(hand_len) + ")"@
}

/// The display form of the game status, with the winner list when any
/// winner has been recorded.
pub open spec fn spec_game_text(status: crate::runtime::GameState, winners: Seq<i64>) -> Seq<
    char,
> {
    let base = spec_status_text(status);
    if winners.len() > 0 {
        base + "\nwinners: "@ + spec_join(
            winners.map_values(|w: i64| spec_dec_signed(w as int)),
            ", "@,
        )
    } else {
        base
    }
}

impl Game {
    /// What `show` renders for a query key.
    pub open spec fn spec_show(&self, key: Seq<char>) -> Seq<char> {
        if key == "deck"@ {
            spec_display_cards(self.runtime.deck@)
        } else if key == "name"@ {
            match self.name {
                Some(n) => n@,
                None => "Name not initalised!"@,
            }
        } else if key == "players"@ {
            spec_join(
                self.runtime.players@.map_values(
                    |p: crate::cards::Player| spec_player_text(p.id, p.hand@.len() as int),
                ),
                ", "@,
            )
        } else if key == "game"@ {
            spec_game_text(self.runtime.status, self.runtime.winners@)
        } else if key == "current_player"@ {
            spec_dec(self.runtime.current_player as int)
        } else {
            let root = spec_root_of(key, ' ', ' ');
            if root == "player"@ && spec_attr_of(key, ' ', ' ') is Some {
                let num = match spec_parse_usize(spec_attr_of(key, ' ', ' ')->Some_0) {
                    Some(v) => v,
                    None => 1,
                };
                if 1 <= num <= self.runtime.players@.len() {
                    spec_display_cards(self.runtime.players@[num - 1].hand@)
                } else {
                    root + " not found"@
                }
            } else {
                match spec_stack_contents(self.runtime.card_stacks@, root) {
                    Some(cs) => spec_display_cards(cs),
                    None => root + " not found"@,
                }
            }
        }
    }

    /// Builds a game from a parsed program: global declarations become the
    /// initial values (the last declaration of a kind wins), and the
    /// `setup` and `player_move` definitions become the runtime's
    /// callbacks.
    pub fn new(ast: Vec<Statement>) -> (g: Game)
        ensures
            opt_name_view(g.name) == sp_name(ast@),
            g.initial_values.players as int == sp_players_or_default(ast@),
            g.initial_values.current_player as int == sp_current_player_or_default(ast@),
            names_view(g.initial_values.card_stacks@) == sp_stack_names(ast@),
            g.runtime.callbacks.setup == sp_callback(ast@, "setup"@),
            g.runtime.callbacks.player_move == sp_callback(ast@, "player_move"@),
            g.runtime.shape() == sh_initial(
                g.initial_values.players,
                sp_stack_names(ast@),
                sp_current_player_or_default(ast@),
            ),
            g.runtime.deck@ == crate::cards::spec_standard_deck(),
            forall|i: int|
                0 <= i < g.runtime.players@.len() ==> (#[trigger] g.runtime.players@[i]).id == i
                    + 1 && g.runtime.players@[i].hand@.len() == 0,
    {
        let ghost ast0 = ast@;
        let mut v = ast;
        let mut name: Option<String> = None;
        let mut players: Option<u32> = None;
        let mut current_player: Option<usize> = None;
        let mut card_stacks: Vec<String> = Vec::new();
        let mut setup: Option<Definition> = None;
        let mut player_move: Option<Definition> = None;
        loop
            invariant
                v@ == ast0.take(v@.len() as int),
                v@.len() <= ast0.len(),
                opt_name_view(name) == sp_name(ast0.skip(v@.len() as int)),
                (match players {
                    Some(p) => Some(p as int),
                    None => None,
                }) == sp_players(ast0.skip(v@.len() as int)),
                (match current_player {
                    Some(p) => Some(p as int),
                    None => None,
                }) == sp_current_player(ast0.skip(v@.len() as int)),
                names_view(card_stacks@) == sp_stack_names(ast0.skip(v@.len() as int)),
                setup == sp_callback(ast0.skip(v@.len() as int), "setup"@),
                player_move == sp_callback(ast0.skip(v@.len() as int), "player_move"@),
            ensures
                v@.len() == 0,
            decreases v@.len(),
        {
            let ghost j = v@.len() as int;
            let stmt = match v.pop() {
                Some(s) => s,
                None => {
                    break ;
                },
            };
            proof {
                assert(stmt == ast0[j - 1]);
                assert(ast0.skip(j - 1).first() == ast0[j - 1]);
                assert(ast0.skip(j - 1).drop_first() =~= ast0.skip(j));
                assert(v@ =~= ast0.take(j - 1));
            }
            match stmt {
                Statement::Declaration(d) => {
                    match (d.key, d.value) {
                        (GlobalKey::Name, Expression::Symbol(s)) => {
                            if name.is_none() {
                                name = Some(s);
                            }
                        },
                        (GlobalKey::Players, Expression::Number(n)) => {
                            if players.is_none() {
                                players = Some(u32_clamp(n));
                            }
                        },
                        (GlobalKey::CurrentPlayer, Expression::Number(n)) => {
                            if current_player.is_none() {
                                current_player = Some(usize_clamp(n));
                            }
                        },
                        (GlobalKey::Stack, Expression::Symbol(s)) => {
                            let ghost pre = card_stacks@;
                            let ghost sv = s@;
                            card_stacks.insert(0, s);
                            proof {
                                assert(names_view(card_stacks@) =~= seq![sv] + names_view(pre));
                            }
                        },
                        _ => {},
                    }
                },
                Statement::Definition(d) => {
                    proof {
                        reveal_strlit("setup");
                        reveal_strlit("player_move");
                        assert("setup"@.len() == 5);
                        assert("player_move"@.len() == 11);
                        assert("setup"@ != "player_move"@);
                    }
                    if str_eq(d.name.as_str(), "setup") {
                        if setup.is_none() {
                            setup = Some(d);
                        }
                        proof {
                            assert(setup == sp_callback(ast0.skip(j - 1), "setup"@));
                            assert(player_move == sp_callback(ast0.skip(j - 1), "player_move"@));
                        }
                    } else if str_eq(d.name.as_str(), "player_move") {
                        if player_move.is_none() {
                            player_move = Some(d);
                        }
                        proof {
                            assert(setup == sp_callback(ast0.skip(j - 1), "setup"@));
                            assert(player_move == sp_callback(ast0.skip(j - 1), "player_move"@));
                        }
                    } else {
                        proof {
                            assert(setup == sp_callback(ast0.skip(j - 1), "setup"@));
                            assert(player_move == sp_callback(ast0.skip(j - 1), "player_move"@));
                        }
                    }
                },
                _ => {},
            }
        }
        proof {
            assert(ast0.skip(0) =~= ast0);
        }
        let players_n: u32 = match players {
            Some(p) => p,
            None => 1,
        };
        let current_player_n: usize = match current_player {
            Some(p) => p,
            None => 1,
        };
        let initial_values = InitialValues {
            players: players_n,
            card_stacks,
            current_player: current_player_n,
        };
        let callbacks = Callbacks { player_move, setup };
        let runtime = Runtime::new(initial_values.duplicate(), callbacks);
        Game { name, runtime, initial_values }
    }

    /// Renders one query: the deck, the game name, the player summaries,
    /// the status with winners, the current player, one player's hand, or a
    /// named stack; an unknown key reads `<key> not found`.
    pub fn show(&self, key: &str) -> (r: String)
        ensures
            r@ == self.spec_show(key@),
    {
        if str_eq(key, "deck") {
            display_cards(&self.runtime.deck)
        } else if str_eq(key, "name") {
            match &self.name {
                Some(n) => n.clone(),
                None => String::from_str("Name not initalised!"),
            }
        } else if str_eq(key, "players") {
            let mut items: Vec<String> = Vec::new();
            let mut i: usize = 0;
            while i < self.runtime.players.len()
                invariant
                    i <= self.runtime.players@.len(),
                    views_of(items@) =~= self.runtime.players@.map_values(
                        |p: crate::cards::Player| spec_player_text(p.id, p.hand@.len() as int),
                    ).take(i as int),
                decreases self.runtime.players@.len() - i,
            {
                let p = &self.runtime.players[i];
                let mut line = String::from_str("player ");
                let id_text = crate::text::u64_dec(p.id as u64);
                line.append(id_text.as_str());
                line.append(" (cards: ");
                let count_text = usize_dec(p.hand.len());
                line.append(count_text.as_str());
                line.append(")");
                let ghost pre = views_of(items@);
                let ghost lv = line@;
                items.push(line);
                proof {
                    assert(views_of(items@) =~= pre.push(lv));
                    assert(views_of(items@) =~= self.runtime.players@.map_values(
                        |p: crate::cards::Player| spec_player_text(p.id, p.hand@.len() as int),
                    ).take(i + 1));
                }
                i = i + 1;
            }
            proof {
                assert(views_of(items@) =~= self.runtime.players@.map_values(
                    |p: crate::cards::Player| spec_player_text(p.id, p.hand@.len() as int),
                ));
            }
            join_text(&items, ", ")
        } else if str_eq(key, "game") {
            let mut out = self.runtime.get_status();
            if self.runtime.winners.len() > 0 {
                out.append("\nwinners: ");
                let mut items: Vec<String> = Vec::new();
                let mut i: usize = 0;
                while i < self.runtime.winners.len()
                    invariant
                        i <= self.runtime.winners@.len(),
                        views_of(items@) =~= self.runtime.winners@.map_values(
                            |w: i64| spec_dec_signed(w as int),
                        ).take(i as int),
                    decreases self.runtime.winners@.len() - i,
                {
                    let t = i64_dec(self.runtime.winners[i]);
                    let ghost pre = views_of(items@);
                    let ghost tv = t@;
                    items.push(t);
                    proof {
                        assert(views_of(items@) =~= pre.push(tv));
                        assert(views_of(items@) =~= self.runtime.winners@.map_values(
                            |w: i64| spec_dec_signed(w as int),
                        ).take(i + 1));
                    }
                    i = i + 1;
                }
                proof {
                    assert(views_of(items@) =~= self.runtime.winners@.map_values(
                        |w: i64| spec_dec_signed(w as int),
                    ));
                }
                let joined = join_text(&items, ", ");
                out.append(joined.as_str());
            }
            out
        } else if str_eq(key, "current_player") {
            usize_dec(self.runtime.get_current_player())
        } else {
            let root = root_of(key, ' ', ' ');
            let attr = attr_of(key, ' ', ' ');
            if str_eq(root.as_str(), "player") && attr.is_some() {
                let num = match attr {
                    Some(a) => match parse_usize(a.as_str()) {
                        Some(v) => v,
                        None => 1,
                    },
                    None => 1,
                };
                if 1 <= num && num <= self.runtime.players.len() {
                    display_cards(&self.runtime.players[num - 1].hand)
                } else {
                    let mut out = root;
                    out.append(" not found");
                    out
                }
            } else {
                let found = self.runtime.find_custom_item(root.as_str());
                match found {
                    Some(v) => display_cards(&v),
                    None => {
                        let mut out = root;
                        out.append(" not found");
                        out
                    },
                }
            }
        }
    }

    /// Rebuilds the runtime from the stored declarations and runs setup:
    /// the same deterministic starting state every time, whatever happened
    /// since.
    pub fn start(&mut self)
        ensures
            final(self).name == old(self).name,
            final(self).initial_values == old(self).initial_values,
            final(self).runtime.callbacks == old(self).runtime.callbacks,
            sh_start(
                old(self).initial_values.players,
                names_view(old(self).initial_values.card_stacks@),
                old(self).initial_values.current_player as int,
                old(self).runtime.callbacks.setup,
            ) == Some(final(self).runtime.shape()),
    {
        proof {
            crate::laws::lemma_start_deterministic(
                self.initial_values.players,
                names_view(self.initial_values.card_stacks@),
                self.initial_values.current_player as int,
                self.runtime.callbacks.setup,
            );
        }
        let cb = Callbacks {
            player_move: self.runtime.callbacks.player_move.take(),
            setup: self.runtime.callbacks.setup.take(),
        };
        self.runtime = Runtime::new(self.initial_values.duplicate(), cb);
        self.runtime.setup();
    }

    /// Runs one move for player `player`, counted from one; a no-op unless
    /// the game is active.
    pub fn player_move(&mut self, player: usize)
        ensures
            final(self).name == old(self).name,
            final(self).initial_values == old(self).initial_values,
            final(self).runtime.callbacks == old(self).runtime.callbacks,
            match crate::runtime::shape::sh_player_move(
                old(self).runtime.shape(),
                old(self).runtime.callbacks.player_move,
                player as int,
            ) {
                Some(s2) => final(self).runtime.shape() == s2,
                None => true,
            },
    {
        self.runtime.player_move(player);
    }
}

/// A declared number as a player count, clamping as a float-to-integer
/// conversion would.
fn u32_clamp(n: i64) -> (r: u32)
    ensures
        r as int == spec_u32_clamp(n as int),
{
    if n < 0 {
        0
    } else if n > u32::MAX as i64 {
        u32::MAX
    } else {
        n as u32
    }
}

fn usize_clamp(n: i64) -> (r: usize)
    ensures
        r as int == spec_usize_clamp(n as int),
{
    if n < 0 {
        0
    } else if (n as u64) > (usize::MAX as u64) {
        usize::MAX
    } else {
        n as usize
    }
}

/// Renders a list of cards comma-joined.
pub fn display_cards(cs: &Vec<Card>) -> (r: String)
    ensures
        r@ == spec_display_cards(cs@),
{
    let mut items: Vec<String> = Vec::new();
    let mut i: usize = 0;
    while i < cs.len()
        invariant
            i <= cs@.len(),
            views_of(items@) =~= cs@.map_values(|c: Card| spec_card_text(c)).take(i as int),
        decreases cs@.len() - i,
    {
        let t = card_text(&cs[i]);
        let ghost pre = views_of(items@);
        let ghost tv = t@;
        items.push(t);
        proof {
            assert(views_of(items@) =~= pre.push(tv));
            assert(views_of(items@) =~= cs@.map_values(|c: Card| spec_card_text(c)).take(i + 1));
        }
        i = i + 1;
    }
    proof {
        assert(views_of(items@) =~= cs@.map_values(|c: Card| spec_card_text(c)));
    }
    join_text(&items, ", ")
}

} // verus!
