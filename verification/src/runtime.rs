pub mod builtins;
pub mod shape;
pub mod transfer;

use vstd::prelude::*;
use crate::ast::{Definition, Expression, FunctionCall, Statement, Transfer};
use crate::cards::{Card, Player, PlayerModel, clone_cards, rank_name, standard_deck, suit_name};
use crate::runtime::shape::{
    ObjShape, PrimShape, RuntimeShape, sh_attr_lookup, sh_card_obj, sh_exec_step, sh_exec_stmts,
    sh_filter, sh_find_stack, sh_fncall, sh_get_stack, sh_handle_transfer, sh_initial,
    sh_initial_stacks, sh_lookup_frame, sh_lookup_frames, sh_player_move, sh_player_obj,
    sh_prim_eq, sh_resolve_bool, sh_resolve_expr, sh_set_in_stacks, sh_set_stack, sh_setup,
    sh_target_nth, sh_transfer_total, tt_shape,
};
use crate::runtime::transfer::{TransferTarget, transfer};
use crate::text::{attr_of, root_of, spec_clamp_i64, str_eq};

verus! {

/// Where a game session stands: not yet started, running, or finished.
#[derive(Debug, PartialEq, Eq, Structural, Copy, Clone)]
pub enum GameState {
    Pending,
    Active,
    GameOver,
}

/// The result of resolving an expression.
#[derive(Debug, PartialEq, Clone)]
pub enum PrimitiveValue {
    Bool(bool),
    Number(i64),
    Stack(Vec<Card>),
    String(String),
}

impl View for PrimitiveValue {
    type V = shape::PrimShape;

    open spec fn view(&self) -> shape::PrimShape {
        match self {
            PrimitiveValue::Bool(b) => shape::PrimShape::Bool(*b),
            PrimitiveValue::Number(n) => shape::PrimShape::Num(*n as int),
            PrimitiveValue::Stack(v) => shape::PrimShape::StackLen(v@.len()),
            PrimitiveValue::String(s) => shape::PrimShape::Str(s@),
        }
    }
}

/// A bound object: an optional player index that writes through to the
/// canonical player list, and an attribute bag.
#[derive(Debug, Clone)]
pub struct ObjectValue {
    pub player_ref: Option<usize>,
    pub attrs: Vec<(String, PrimitiveValue)>,
}

pub open spec fn attrs_view(attrs: Seq<(String, PrimitiveValue)>) -> Seq<
    (Seq<char>, shape::PrimShape),
> {
    attrs.map_values(|p: (String, PrimitiveValue)| (p.0@, p.1@))
}

impl View for ObjectValue {
    type V = shape::ObjShape;

    open spec fn view(&self) -> shape::ObjShape {
        shape::ObjShape {
            player_ref: match self.player_ref {
                Some(i) => Some(i as int),
                None => None,
            },
            attrs: attrs_view(self.attrs@),
        }
    }
}

/// A value bound in a call-stack frame.
#[derive(Debug, Clone)]
pub enum ArgumentValue {
    Obj(ObjectValue),
}

impl View for ArgumentValue {
    type V = shape::ObjShape;

    open spec fn view(&self) -> shape::ObjShape {
        match self {
            ArgumentValue::Obj(o) => o@,
        }
    }
}

/// The global declarations a runtime is built from.
#[derive(Debug)]
pub struct InitialValues {
    pub players: u32,
    pub card_stacks: Vec<String>,
    pub current_player: usize,
}

pub open spec fn names_view(names: Seq<String>) -> Seq<Seq<char>> {
    names.map_values(|s: String| s@)
}

impl InitialValues {
    /// Copies the declared values so a fresh runtime can be built from them
    /// again.
    pub fn duplicate(&self) -> (r: InitialValues)
        ensures
            r.players == self.players,
            r.current_player == self.current_player,
            names_view(r.card_stacks@) == names_view(self.card_stacks@),
    {
        let mut names: Vec<String> = Vec::new();
        let mut i: usize = 0;
        while i < self.card_stacks.len()
            invariant
                i <= self.card_stacks@.len(),
                names_view(names@) =~= names_view(self.card_stacks@).take(i as int),
            decreases self.card_stacks@.len() - i,
        {
            let nm = self.card_stacks[i].clone();
            let ghost nmv = nm@;
            let ghost pre = names@;
            names.push(nm);
            proof {
                assert(names_view(names@) =~= names_view(pre).push(nmv));
                assert(names_view(pre).push(nmv) =~= names_view(self.card_stacks@).take(i + 1));
            }
            i = i + 1;
        }
        proof {
            assert(names_view(names@) =~= names_view(self.card_stacks@));
        }
        InitialValues {
            players: self.players,
            card_stacks: names,
            current_player: self.current_player,
        }
    }
}

/// The named statement blocks the runtime executes: the setup body and the
/// per-move body.
#[derive(Debug)]
pub struct Callbacks {
    pub player_move: Option<Definition>,
    pub setup: Option<Definition>,
}

pub open spec fn frame_view(fr: Seq<(String, ArgumentValue)>) -> Seq<(Seq<char>, ObjShape)> {
    fr.map_values(|p: (String, ArgumentValue)| (p.0@, p.1@))
}

pub open spec fn frames_view(cs: Seq<Vec<(String, ArgumentValue)>>) -> Seq<
    Seq<(Seq<char>, ObjShape)>,
> {
    cs.map_values(|fr: Vec<(String, ArgumentValue)>| frame_view(fr@))
}

pub open spec fn stacks_view(ss: Seq<(String, Vec<Card>)>) -> Seq<(Seq<char>, nat)> {
    ss.map_values(|p: (String, Vec<Card>)| (p.0@, p.1@.len()))
}

pub open spec fn players_view(ps: Seq<Player>) -> Seq<PlayerModel> {
    ps.map_values(|p: Player| p@)
}

pub open spec fn hands_view(ps: Seq<Player>) -> Seq<nat> {
    ps.map_values(|p: Player| p.hand@.len())
}

pub open spec fn winners_view(ws: Seq<i64>) -> Seq<int> {
    ws.map_values(|w: i64| w as int)
}

/// The contents of the first named stack matching a key, if any.
pub open spec fn spec_stack_contents(ss: Seq<(String, Vec<Card>)>, name: Seq<char>) -> Option<
    Seq<Card>,
>
    decreases ss.len(),
{
    if ss.len() == 0 {
        None
    } else if ss.first().0@ == name {
        Some(ss.first().1@)
    } else {
        spec_stack_contents(ss.drop_first(), name)
    }
}

/// The display form of a game status.
pub open spec fn spec_status_text(s: GameState) -> Seq<char> {
    match s {
        GameState::Pending => "pending"@,
        GameState::Active => "active"@,
        GameState::GameOver => "game over"@,
    }
}

/// The interpreter's mutable state: one exclusively owned aggregate per
/// game session.
#[derive(Debug)]
pub struct Runtime {
    pub callbacks: Callbacks,
    pub status: GameState,
    pub deck: Vec<Card>,
    pub winners: Vec<i64>,
    pub current_player: usize,
    pub players: Vec<Player>,
    pub card_stacks: Vec<(String, Vec<Card>)>,
    pub call_stack: Vec<Vec<(String, ArgumentValue)>>,
}

impl Runtime {
    /// The length-level form of this state.
    pub open spec fn shape(&self) -> RuntimeShape {
        RuntimeShape {
            status: self.status,
            deck: self.deck@.len(),
            winners: winners_view(self.winners@),
            current_player: self.current_player as int,
            players: hands_view(self.players@),
            stacks: stacks_view(self.card_stacks@),
            frames: frames_view(self.call_stack@),
        }
    }
}

/// A machine integer for a count, saturating at the integer's range.
fn clamp_to_i64(n: usize) -> (r: i64)
    ensures
        r as int == spec_clamp_i64(n as int),
{
    if (n as u64) > (i64::MAX as u64) {
        i64::MAX
    } else {
        n as i64
    }
}

/// Copies a resolved value.
pub fn clone_primitive(v: &PrimitiveValue) -> (r: PrimitiveValue)
    ensures
        r@ == v@,
{
    match v {
        PrimitiveValue::Bool(b) => PrimitiveValue::Bool(*b),
        PrimitiveValue::Number(n) => PrimitiveValue::Number(*n),
        PrimitiveValue::Stack(s) => PrimitiveValue::Stack(clone_cards(s)),
        PrimitiveValue::String(s) => PrimitiveValue::String(s.clone()),
    }
}

fn clone_object(o: &ObjectValue) -> (r: ObjectValue)
    ensures
        r@ == o@,
{
    let mut attrs: Vec<(String, PrimitiveValue)> = Vec::new();
    let mut i: usize = 0;
    while i < o.attrs.len()
        invariant
            i <= o.attrs@.len(),
            attrs_view(attrs@) =~= attrs_view(o.attrs@).take(i as int),
        decreases o.attrs@.len() - i,
    {
        let name = o.attrs[i].0.clone();
        let value = clone_primitive(&o.attrs[i].1);
        let ghost nv = name@;
        let ghost vv = value@;
        let ghost pre = attrs@;
        attrs.push((name, value));
        proof {
            assert(attrs_view(attrs@) =~= attrs_view(pre).push((nv, vv)));
            assert(attrs_view(pre).push((nv, vv)) =~= attrs_view(o.attrs@).take(i + 1));
        }
        i = i + 1;
    }
    proof {
        assert(attrs_view(attrs@) =~= attrs_view(o.attrs@));
    }
    ObjectValue { player_ref: o.player_ref, attrs }
}

fn clone_argument(v: &ArgumentValue) -> (r: ArgumentValue)
    ensures
        r@ == v@,
{
    match v {
        ArgumentValue::Obj(o) => ArgumentValue::Obj(clone_object(o)),
    }
}

/// Looks a name up in one frame's bindings, first match first.
fn frame_get(frame: &Vec<(String, ArgumentValue)>, i: usize, name: &str) -> (r: Option<
    ArgumentValue,
>)
    requires
        i <= frame@.len(),
    ensures
        match sh_lookup_frame(frame_view(frame@).skip(i as int), name@) {
            Some(o) => r matches Some(av) && av@ == o,
            None => r is None,
        },
    decreases frame@.len() - i,
{
    let ghost tail = frame_view(frame@).skip(i as int);
    if i >= frame.len() {
        proof {
            assert(tail.len() == 0);
        }
        None
    } else {
        proof {
            assert(tail.first() == (frame@[i as int].0@, frame@[i as int].1@));
        }
        if str_eq(frame[i].0.as_str(), name) {
            Some(clone_argument(&frame[i].1))
        } else {
            let r = frame_get(frame, i + 1, name);
            proof {
                assert(tail.drop_first() =~= frame_view(frame@).skip(i + 1));
            }
            r
        }
    }
}

/// Looks a name up across the call stack's newest `j` frames, most recent
/// first.
fn frames_get(frames: &Vec<Vec<(String, ArgumentValue)>>, j: usize, name: &str) -> (r: Option<
    ArgumentValue,
>)
    requires
        j <= frames@.len(),
    ensures
        match sh_lookup_frames(frames_view(frames@).take(j as int), name@) {
            Some(o) => r matches Some(av) && av@ == o,
            None => r is None,
        },
    decreases j,
{
    let ghost pre = frames_view(frames@).take(j as int);
    if j == 0 {
        proof {
            assert(pre.len() == 0);
        }
        None
    } else {
        proof {
            assert(pre.last() == frame_view(frames@[j - 1]@));
            assert(frame_view(frames@[j - 1]@).skip(0) =~= frame_view(frames@[j - 1]@));
        }
        match frame_get(&frames[j - 1], 0, name) {
            Some(v) => Some(v),
            None => {
                let r = frames_get(frames, j - 1, name);
                proof {
                    assert(pre.drop_last() =~= frames_view(frames@).take(j - 1));
                }
                r
            },
        }
    }
}

/// Looks an attribute up in a bound object's bag, first match first.
fn attr_get(attrs: &Vec<(String, PrimitiveValue)>, i: usize, name: &str) -> (r: Option<
    PrimitiveValue,
>)
    requires
        i <= attrs@.len(),
    ensures
        match sh_attr_lookup(attrs_view(attrs@).skip(i as int), name@) {
            Some(v) => r matches Some(pv) && pv@ == v,
            None => r is None,
        },
    decreases attrs@.len() - i,
{
    let ghost tail = attrs_view(attrs@).skip(i as int);
    if i >= attrs.len() {
        proof {
            assert(tail.len() == 0);
        }
        None
    } else {
        proof {
            assert(tail.first() == (attrs@[i as int].0@, attrs@[i as int].1@));
        }
        if str_eq(attrs[i].0.as_str(), name) {
            Some(clone_primitive(&attrs[i].1))
        } else {
            let r = attr_get(attrs, i + 1, name);
            proof {
                assert(tail.drop_first() =~= attrs_view(attrs@).skip(i + 1));
            }
            r
        }
    }
}

/// Comparing two resolved values: type and value must both match; two
/// stacks compare card by card.
pub fn prim_eq(a: &PrimitiveValue, b: &PrimitiveValue) -> (r: bool)
    ensures
        sh_prim_eq(a@, b@) matches Some(x) ==> r == x,
{
    match (a, b) {
        (PrimitiveValue::Bool(x), PrimitiveValue::Bool(y)) => x == y,
        (PrimitiveValue::Number(x), PrimitiveValue::Number(y)) => x == y,
        (PrimitiveValue::String(x), PrimitiveValue::String(y)) => str_eq(x.as_str(), y.as_str()),
        (PrimitiveValue::Stack(x), PrimitiveValue::Stack(y)) => cards_eq(x, y),
        _ => false,
    }
}

/// Card-by-card stack equality.
pub fn cards_eq(a: &Vec<Card>, b: &Vec<Card>) -> (r: bool)
    ensures
        r == (a@ == b@),
{
    if a.len() != b.len() {
        return false;
    }
    let mut i: usize = 0;
    while i < a.len()
        invariant
            a@.len() == b@.len(),
            i <= a@.len(),
            forall|k: int| 0 <= k < i ==> a@[k] == b@[k],
        decreases a@.len() - i,
    {
        if !(a[i] == b[i]) {
            return false;
        }
        i = i + 1;
    }
    proof {
        assert(a@ =~= b@);
    }
    true
}

impl Runtime {
    /// Builds a fresh, pending session: a full canonical deck, the declared
    /// number of players with empty hands and identifiers counted from one,
    /// each declared stack name once with an empty stack, no winners, and
    /// an empty call stack.
    pub fn new(initial_values: InitialValues, callbacks: Callbacks) -> (r: Runtime)
        ensures
            r.shape() == sh_initial(
                initial_values.players,
                names_view(initial_values.card_stacks@),
                initial_values.current_player as int,
            ),
            r.callbacks == callbacks,
            r.deck@ == crate::cards::spec_standard_deck(),
            forall|i: int|
                0 <= i < r.players@.len() ==> (#[trigger] r.players@[i]).id == i + 1
                    && r.players@[i].hand@.len() == 0,
            forall|i: int|
                0 <= i < r.card_stacks@.len() ==> (#[trigger] r.card_stacks@[i]).1@.len() == 0,
    {
        let ghost names = names_view(initial_values.card_stacks@);
        let mut card_stacks: Vec<(String, Vec<Card>)> = Vec::new();
        let mut i: usize = 0;
        proof {
            assert(names.take(0) =~= Seq::<Seq<char>>::empty());
            assert(stacks_view(card_stacks@) =~= sh_initial_stacks(names.take(0)));
        }
        while i < initial_values.card_stacks.len()
            invariant
                i <= initial_values.card_stacks@.len(),
                names == names_view(initial_values.card_stacks@),
                stacks_view(card_stacks@) == sh_initial_stacks(names.take(i as int)),
                forall|k: int|
                    0 <= k < card_stacks@.len() ==> (#[trigger] card_stacks@[k]).1@.len() == 0,
            decreases initial_values.card_stacks@.len() - i,
        {
            let name = &initial_values.card_stacks[i];
            let ghost pre = stacks_view(card_stacks@);
            let existing = stacks_get(&card_stacks, 0, name.as_str());
            proof {
                assert(stacks_view(card_stacks@).skip(0) =~= stacks_view(card_stacks@));
                assert(names.take(i + 1).drop_last() =~= names.take(i as int));
                assert(names.take(i + 1).last() == name@);
            }
            match existing {
                Some(_) => {},
                None => {
                    let empty: Vec<Card> = Vec::new();
                    card_stacks.push((name.clone(), empty));
                    proof {
                        assert(stacks_view(card_stacks@) =~= pre.push((name@, 0)));
                    }
                },
            }
            i = i + 1;
        }
        proof {
            assert(names.take(names.len() as int) =~= names);
        }
        let players = generate_players(initial_values.players);
        let deck = standard_deck();
        let winners: Vec<i64> = Vec::new();
        let call_stack: Vec<Vec<(String, ArgumentValue)>> = Vec::new();
        let r = Runtime {
            status: GameState::Pending,
            deck,
            winners,
            current_player: initial_values.current_player,
            call_stack,
            card_stacks,
            players,
            callbacks,
        };
        proof {
            assert(winners_view(r.winners@) =~= Seq::<int>::empty());
            assert(frames_view(r.call_stack@) =~= Seq::<Seq<(Seq<char>, ObjShape)>>::empty());
            assert(hands_view(r.players@) =~= Seq::new(
                initial_values.players as nat,
                |i: int| 0,
            ));
        }
        r
    }
}

/// The player list for a declared count: identifiers one to `n`, hands
/// empty.
fn generate_players(n: u32) -> (ps: Vec<Player>)
    ensures
        ps@.len() == n,
        forall|i: int|
            0 <= i < n ==> (#[trigger] ps@[i]).id == i + 1 && ps@[i].hand@.len() == 0,
{
    let mut players: Vec<Player> = Vec::new();
    let mut i: u32 = 0;
    while i < n
        invariant
            i <= n,
            players@.len() == i,
            forall|k: int|
                0 <= k < i ==> (#[trigger] players@[k]).id == k + 1 && players@[k].hand@.len()
                    == 0,
        decreases n - i,
    {
        players.push(Player::new(i + 1));
        i = i + 1;
    }
    players
}

impl Runtime {
    /// Looks a name up in the call stack, most recent frame first,
    /// returning a copy of the binding.
    fn find_in_call_stack(&self, key: &str) -> (r: Option<ArgumentValue>)
        ensures
            match sh_lookup_frames(frames_view(self.call_stack@), key@) {
                Some(o) => r matches Some(av) && av@ == o,
                None => r is None,
            },
    {
        let r = frames_get(&self.call_stack, self.call_stack.len(), key);
        proof {
            assert(frames_view(self.call_stack@).take(self.call_stack@.len() as int)
                =~= frames_view(self.call_stack@));
        }
        r
    }

    /// Resolves a symbol, a number, a boolean, a comparison or a function
    /// call to a value; a conjunction used as a value, like anything else
    /// unresolvable, is false.
    fn resolve_expression(&mut self, expression: &Expression) -> (r: PrimitiveValue)
        ensures
            final(self).callbacks == old(self).callbacks,
            final(self).call_stack == old(self).call_stack,
            match sh_resolve_expr(old(self).shape(), *expression) {
                Some((s2, v)) => final(self).shape() == s2 && r@ == v,
                None => true,
            },
        decreases *expression, 1int,
    {
        match expression {
            Expression::Symbol(s) => {
                if str_eq(s.as_str(), "current_player") {
                    PrimitiveValue::Number(clamp_to_i64(self.current_player))
                } else {
                    let root = root_of(s.as_str(), ':', ':');
                    let attr = attr_of(s.as_str(), ':', ':');
                    let found = self.find_in_call_stack(root.as_str());
                    match (found, attr) {
                        (Some(ArgumentValue::Obj(o)), Some(a)) => {
                            proof {
                                assert(attrs_view(o.attrs@).skip(0) =~= attrs_view(o.attrs@));
                            }
                            match attr_get(&o.attrs, 0, a.as_str()) {
                                Some(v) => v,
                                None => PrimitiveValue::Bool(false),
                            }
                        },
                        _ => PrimitiveValue::String(s.clone()),
                    }
                }
            },
            Expression::FunctionCall(f) => {
                match self.handle_function_call(f) {
                    Some(v) => v,
                    None => PrimitiveValue::Bool(false),
                }
            },
            Expression::Number(n) => PrimitiveValue::Number(*n),
            Expression::Bool(_) => PrimitiveValue::Bool(self.resolve_to_bool(expression)),
            Expression::Comparison(_) => PrimitiveValue::Bool(self.resolve_to_bool(expression)),
            _ => PrimitiveValue::Bool(false),
        }
    }

    /// Resolves an expression as a guard or branch condition: booleans are
    /// themselves, a comparison is structural equality of its sides, a
    /// conjunction short-circuits, anything else is false.
    fn resolve_to_bool(&mut self, expression: &Expression) -> (r: bool)
        ensures
            final(self).callbacks == old(self).callbacks,
            final(self).call_stack == old(self).call_stack,
            match sh_resolve_bool(old(self).shape(), *expression) {
                Some((s2, b)) => final(self).shape() == s2 && r == b,
                None => true,
            },
        decreases *expression, 0int,
    {
        match expression {
            Expression::Bool(b) => *b,
            Expression::Comparison(c) => {
                let l = self.resolve_expression(&c.left);
                let r = self.resolve_expression(&c.right);
                prim_eq(&l, &r)
            },
            Expression::And(a) => {
                if self.resolve_to_bool(&a.left) {
                    self.resolve_to_bool(&a.right)
                } else {
                    false
                }
            },
            _ => false,
        }
    }

    /// Dispatches a built-in by name: `end`, `shuffle`, `winner`, `count`,
    /// `next_player`; an unknown name, or a built-in missing its argument,
    /// is a silent no-op.
    fn handle_function_call(&mut self, f: &FunctionCall) -> (r: Option<PrimitiveValue>)
        ensures
            final(self).callbacks == old(self).callbacks,
            final(self).call_stack == old(self).call_stack,
            match sh_fncall(old(self).shape(), *f) {
                Some((s2, v)) => final(self).shape() == s2 && (match r {
                    Some(pv) => v == Some(pv@),
                    None => v is None,
                }),
                None => true,
            },
        decreases *f, 0int,
    {
        if str_eq(f.name.as_str(), "end") {
            builtins::end(&mut self.status);
            None
        } else if str_eq(f.name.as_str(), "shuffle") {
            builtins::shuffle(&mut self.deck);
            None
        } else if str_eq(f.name.as_str(), "winner") {
            if f.arguments.len() == 0 {
                None
            } else {
                let v = self.resolve_expression(&f.arguments[0]);
                let player_id = match v {
                    PrimitiveValue::Number(n) => n,
                    _ => 0,
                };
                let ghost pre = self.winners@;
                builtins::winner(&mut self.winners, player_id);
                proof {
                    assert(winners_view(self.winners@) =~= winners_view(pre).push(
                        player_id as int,
                    ));
                }
                None
            }
        } else if str_eq(f.name.as_str(), "count") {
            if f.arguments.len() == 0 {
                None
            } else {
                let stack_to_count = self.resolve_expression(&f.arguments[0]);
                let c = builtins::count(stack_to_count);
                Some(PrimitiveValue::Number(clamp_to_i64(c)))
            }
        } else if str_eq(f.name.as_str(), "next_player") {
            self.current_player = if self.current_player < self.players.len() {
                self.current_player + 1
            } else {
                1
            };
            None
        } else {
            None
        }
    }

    /// Resolves a stack reference for a transfer, by the first component of
    /// its key.
    fn get_stack(&self, stack_key: &str) -> (r: Option<TransferTarget>)
        ensures
            match sh_get_stack(self.shape(), stack_key@) {
                Some(st) => r matches Some(t) && tt_shape(t@) == st,
                None => r is None,
            },
    {
        let root = root_of(stack_key, ' ', ':');
        if str_eq(root.as_str(), "deck") {
            Some(TransferTarget::Stack(clone_cards(&self.deck)))
        } else if str_eq(root.as_str(), "players") {
            let mut hands: Vec<Vec<Card>> = Vec::new();
            let mut i: usize = 0;
            while i < self.players.len()
                invariant
                    i <= self.players@.len(),
                    crate::runtime::transfer::stacks_view(hands@) =~= Seq::new(
                        i as nat,
                        |k: int| self.players@[k].hand@,
                    ),
                decreases self.players@.len() - i,
            {
                let ghost pre = hands@;
                let h = clone_cards(&self.players[i].hand);
                let ghost hv = h@;
                hands.push(h);
                proof {
                    assert(crate::runtime::transfer::stacks_view(hands@)
                        =~= crate::runtime::transfer::stacks_view(pre).push(hv));
                    assert(crate::runtime::transfer::stacks_view(hands@) =~= Seq::new(
                        (i + 1) as nat,
                        |k: int| self.players@[k].hand@,
                    ));
                }
                i = i + 1;
            }
            let r = TransferTarget::StackList(hands);
            proof {
                assert(tt_shape(r@)->Many_0 =~= hands_view(self.players@));
            }
            Some(r)
        } else {
            match stacks_get(&self.card_stacks, 0, root.as_str()) {
                Some(v) => {
                    proof {
                        assert(stacks_view(self.card_stacks@).skip(0) =~= stacks_view(
                            self.card_stacks@,
                        ));
                    }
                    Some(TransferTarget::Stack(v))
                },
                None => {
                    proof {
                        assert(stacks_view(self.card_stacks@).skip(0) =~= stacks_view(
                            self.card_stacks@,
                        ));
                    }
                    match self.find_in_call_stack(root.as_str()) {
                        Some(ArgumentValue::Obj(o)) => {
                            match o.player_ref {
                                Some(i) => {
                                    if i < self.players.len() {
                                        Some(
                                            TransferTarget::Stack(
                                                clone_cards(&self.players[i].hand),
                                            ),
                                        )
                                    } else {
                                        None
                                    }
                                },
                                None => None,
                            }
                        },
                        None => None,
                    }
                },
            }
        }
    }

    /// Writes a transfer operand back under its key, by first component.
    fn set_stack(&mut self, stack_key: &str, stack: TransferTarget)
        ensures
            final(self).callbacks == old(self).callbacks,
            final(self).call_stack == old(self).call_stack,
            final(self).shape() == sh_set_stack(old(self).shape(), stack_key@, tt_shape(stack@)),
    {
        let root = root_of(stack_key, ' ', ':');
        if str_eq(root.as_str(), "deck") {
            self.deck = target_nth(&stack, 0);
        } else if str_eq(root.as_str(), "players") {
            let ghost orig = self.shape();
            let mut n: usize = 0;
            while n < self.players.len()
                invariant
                    n <= self.players@.len(),
                    self.players@.len() == orig.players.len(),
                    self.callbacks == old(self).callbacks,
                    self.status == old(self).status,
                    self.deck == old(self).deck,
                    self.winners == old(self).winners,
                    self.current_player == old(self).current_player,
                    self.card_stacks == old(self).card_stacks,
                    self.call_stack == old(self).call_stack,
                    orig == old(self).shape(),
                    forall|k: int|
                        0 <= k < n ==> (#[trigger] self.players@[k]).hand@.len() == sh_target_nth(
                            tt_shape(stack@),
                            k,
                        ),
                    forall|k: int|
                        n <= k < self.players@.len() ==> #[trigger] self.players@[k]
                            == old(self).players@[k],
                decreases self.players@.len() - n,
            {
                let new_hand = target_nth(&stack, n);
                self.players[n].set_hand(new_hand);
                n = n + 1;
            }
            proof {
                assert(hands_view(self.players@) =~= Seq::new(
                    orig.players.len(),
                    |k: int| sh_target_nth(tt_shape(stack@), k),
                ));
                assert(final(self).shape() =~= sh_set_stack(
                    old(self).shape(),
                    stack_key@,
                    tt_shape(stack@),
                ));
            }
        } else {
            let has = stacks_get(&self.card_stacks, 0, root.as_str());
            proof {
                assert(stacks_view(self.card_stacks@).skip(0) =~= stacks_view(self.card_stacks@));
            }
            match has {
                Some(_) => {
                    let v = target_nth(&stack, 0);
                    stacks_set(&mut self.card_stacks, 0, root.as_str(), v);
                    proof {
                        assert(stacks_view(self.card_stacks@) =~= sh_set_in_stacks(
                            stacks_view(old(self).card_stacks@),
                            root@,
                            sh_target_nth(tt_shape(stack@), 0),
                        ));
                    }
                },
                None => {
                    match self.find_in_call_stack(root.as_str()) {
                        Some(ArgumentValue::Obj(o)) => {
                            match o.player_ref {
                                Some(i) => {
                                    if i < self.players.len() {
                                        let new_hand = target_nth(&stack, 0);
                                        self.players[i].set_hand(new_hand);
                                        proof {
                                            assert(hands_view(self.players@) =~= hands_view(
                                                old(self).players@,
                                            ).update(
                                                i as int,
                                                sh_target_nth(tt_shape(stack@), 0),
                                            ));
                                        }
                                    }
                                },
                                None => {},
                            }
                        },
                        None => {},
                    }
                },
            }
        }
    }

    /// Executes one transfer statement: resolve both sides, deal, and write
    /// the source back before the target; an unresolved side drops the
    /// whole transfer.
    fn handle_transfer(&mut self, t: &Transfer)
        ensures
            final(self).callbacks == old(self).callbacks,
            final(self).call_stack == old(self).call_stack,
            final(self).shape() == sh_handle_transfer(old(self).shape(), *t),
        decreases *t,
    {
        let from = self.get_stack(t.from.as_str());
        let to = self.get_stack(t.to.as_str());
        let ghost from_m = crate::runtime::transfer::opt_tt_model(from);
        let ghost to_m = crate::runtime::transfer::opt_tt_model(to);
        let count_ref = t.count.as_ref();
        let ghost c_m = crate::runtime::transfer::opt_count_model(count_ref);
        proof {
            assert(c_m == t.count);
        }
        let transfer_result = transfer(from, to, count_ref);
        match transfer_result {
            Some(pair) => {
                let (new_from, new_to) = pair;
                proof {
                    let f = from_m->Some_0;
                    let d = to_m->Some_0;
                    let total = crate::runtime::transfer::spec_transfer_total(f, d, c_m);
                    assert(shape::sh_transfer_total(tt_shape(f), tt_shape(d), c_m) == total);
                    if tt_shape(d) is Many && total > 0 {
                        let k = tt_shape(d)->Many_0.len() as int;
                        let base: int = match c_m {
                            None => 1int,
                            Some(crate::ast::TransferCount::End) => shape::sh_target_count(
                                tt_shape(f),
                            ) as int,
                        };
                        assert(base * k == total);
                        if k == 0 {
                            assert(base * 0 == 0) by (nonlinear_arith);
                            assert(false);
                        }
                    }
                    shape::lemma_transfer_loop_shape(f, d, 0, total as nat);
                }
                self.set_stack(t.from.as_str(), new_from);
                self.set_stack(t.to.as_str(), new_to);
            },
            None => {},
        }
    }

    /// Executes a statement: `Some` means the enclosing body stops with
    /// that value.
    fn handle_statement(&mut self, stmt: &Statement) -> (r: Option<PrimitiveValue>)
        ensures
            final(self).callbacks == old(self).callbacks,
            final(self).call_stack == old(self).call_stack,
            match sh_exec_step(old(self).shape(), *stmt) {
                Some((s2, out)) => final(self).shape() == s2 && (match r {
                    Some(pv) => out == Some(pv@),
                    None => out is None,
                }),
                None => true,
            },
        decreases *stmt, 2int,
    {
        match stmt {
            Statement::Transfer(t) => {
                self.handle_transfer(t);
                None
            },
            Statement::FunctionCall(f) => {
                let _ = self.handle_function_call(f);
                None
            },
            Statement::IfStatement(i) => {
                if self.resolve_to_bool(&i.expression) {
                    proof {
                        assert(i.body@.skip(0) =~= i.body@);
                    }
                    let _ = self.handle_statements_from(&i.body, 0);
                } else {
                }
                None
            },
            Statement::CheckStatement(c) => {
                if !self.resolve_to_bool(&c.expression) {
                    Some(PrimitiveValue::Bool(false))
                } else {
                    None
                }
            },
            Statement::ReturnStatement(r) => Some(self.resolve_expression(&r.expression)),
            _ => None,
        }
    }

    /// Runs a body's statements in order from position `i`; a failed
    /// `check` or an explicit `return` ends the body early, and falling off
    /// the end yields false.
    fn handle_statements_from(&mut self, stmts: &Vec<Statement>, i: usize) -> (r: PrimitiveValue)
        requires
            i <= stmts@.len(),
        ensures
            final(self).callbacks == old(self).callbacks,
            final(self).call_stack == old(self).call_stack,
            match sh_exec_stmts(old(self).shape(), stmts@.skip(i as int)) {
                Some((s2, v)) => final(self).shape() == s2 && r@ == v,
                None => true,
            },
        decreases stmts@.skip(i as int), 3int,
    {
        let ghost tail = stmts@.skip(i as int);
        if i >= stmts.len() {
            proof {
                assert(tail.len() == 0);
            }
            PrimitiveValue::Bool(false)
        } else {
            proof {
                assert(tail[0] == stmts@[i as int]);
            }
            let step = self.handle_statement(&stmts[i]);
            proof {
                assert(tail.drop_first() =~= stmts@.skip(i as int + 1));
            }
            match step {
                Some(out) => out,
                None => self.handle_statements_from(stmts, i + 1),
            }
        }
    }
}

impl Runtime {
    /// Runs one player's move: a silent no-op unless the game is active and
    /// a move callback exists; the body executes under a fresh frame that
    /// binds the callback's first declared argument (if any) to player `n`,
    /// counted from one.
    pub fn player_move(&mut self, n: usize)
        ensures
            final(self).callbacks == old(self).callbacks,
            match sh_player_move(
                old(self).shape(),
                old(self).callbacks.player_move,
                n as int,
            ) {
                Some(s2) => final(self).shape() == s2,
                None => true,
            },
    {
        if !(matches!(self.status, GameState::Active)) {
            return ;
        }
        let p_move = match self.callbacks.player_move.take() {
            Some(d) => d,
            None => {
                return ;
            },
        };
        let mut call_stack_frame: Vec<(String, ArgumentValue)> = Vec::new();
        if p_move.arguments.len() > 0 {
            if n < 1 || n > self.players.len() {
                self.callbacks.player_move = Some(p_move);
                return ;
            }
            let idx = n - 1;
            let obj = build_player_object(idx, &self.players[idx]);
            let arg = p_move.arguments[0].clone();
            call_stack_frame.push((arg, ArgumentValue::Obj(obj)));
            proof {
                assert(frame_view(call_stack_frame@) =~= seq![
                    (
                        old(self).callbacks.player_move->Some_0.arguments@[0]@,
                        sh_player_obj(old(self).shape(), n - 1),
                    ),
                ]);
            }
        } else {
            proof {
                assert(frame_view(call_stack_frame@) =~= Seq::<(Seq<char>, ObjShape)>::empty());
            }
        }
        let ghost pre_frames = self.call_stack@;
        self.call_stack.push(call_stack_frame);
        proof {
            assert(frames_view(self.call_stack@) =~= frames_view(pre_frames).push(
                frame_view(self.call_stack@.last()@),
            ));
            assert(p_move.body@.skip(0) =~= p_move.body@);
        }
        let _ = self.handle_statements_from(&p_move.body, 0);
        let ghost post_frames = self.call_stack@;
        self.call_stack.pop();
        proof {
            assert(frames_view(self.call_stack@) =~= frames_view(post_frames).drop_last());
        }
        self.callbacks.player_move = Some(p_move);
    }

    /// Activates the session and runs the setup body, if one was declared.
    /// The deck, hands, stacks and winners themselves are rebuilt by
    /// constructing a fresh runtime; this only runs the declared statements.
    pub fn setup(&mut self)
        ensures
            final(self).callbacks == old(self).callbacks,
            match sh_setup(old(self).shape(), old(self).callbacks.setup) {
                Some(s2) => final(self).shape() == s2,
                None => true,
            },
    {
        self.status = GameState::Active;
        let setup_cb = match self.callbacks.setup.take() {
            Some(d) => d,
            None => {
                return ;
            },
        };
        proof {
            assert(setup_cb.body@.skip(0) =~= setup_cb.body@);
        }
        let _ = self.handle_statements_from(&setup_cb.body, 0);
        self.callbacks.setup = Some(setup_cb);
    }

    /// Keeps the cards of a stack for which a predicate definition's body
    /// yields true; each card is bound, in order, in a fresh frame under the
    /// predicate's first argument name (or `card`).
    pub fn filter(&mut self, stack: Vec<Card>, function: Definition) -> (r: Vec<Card>)
        ensures
            final(self).callbacks == old(self).callbacks,
            match sh_filter(old(self).shape(), stack@, function) {
                Some((s2, kept)) => final(self).shape() == s2 && r@ == kept,
                None => true,
            },
    {
        let r = self.filter_from(&stack, 0, &function);
        proof {
            assert(stack@.skip(0) =~= stack@);
        }
        r
    }

    fn filter_from(&mut self, stack: &Vec<Card>, i: usize, function: &Definition) -> (r: Vec<
        Card,
    >)
        requires
            i <= stack@.len(),
        ensures
            final(self).callbacks == old(self).callbacks,
            match sh_filter(old(self).shape(), stack@.skip(i as int), *function) {
                Some((s2, kept)) => final(self).shape() == s2 && r@ == kept,
                None => true,
            },
        decreases stack@.len() - i,
    {
        let ghost tail = stack@.skip(i as int);
        if i >= stack.len() {
            proof {
                assert(tail.len() == 0);
            }
            let r: Vec<Card> = Vec::new();
            proof {
                assert(r@ =~= Seq::<Card>::empty());
            }
            r
        } else {
            proof {
                assert(tail.first() == stack@[i as int]);
            }
            let card = stack[i];
            let card_arg = if function.arguments.len() > 0 {
                function.arguments[0].clone()
            } else {
                String::from_str("card")
            };
            let obj = build_card_object(card);
            let mut call_stack_frame: Vec<(String, ArgumentValue)> = Vec::new();
            call_stack_frame.push((card_arg, ArgumentValue::Obj(obj)));
            proof {
                assert(frame_view(call_stack_frame@) =~= seq![
                    (
                        if function.arguments@.len() > 0 {
                            function.arguments@[0]@
                        } else {
                            "card"@
                        },
                        sh_card_obj(card),
                    ),
                ]);
            }
            let ghost pre_frames = self.call_stack@;
            self.call_stack.push(call_stack_frame);
            proof {
                assert(frames_view(self.call_stack@) =~= frames_view(pre_frames).push(
                    frame_view(self.call_stack@.last()@),
                ));
                assert(function.body@.skip(0) =~= function.body@);
            }
            let keep_card = self.handle_statements_from(&function.body, 0);
            let ghost post_frames = self.call_stack@;
            self.call_stack.pop();
            proof {
                assert(frames_view(self.call_stack@) =~= frames_view(post_frames).drop_last());
            }
            let keep = match keep_card {
                PrimitiveValue::Bool(b) => b,
                _ => false,
            };
            let mut rest = self.filter_from(stack, i + 1, function);
            proof {
                assert(tail.drop_first() =~= stack@.skip(i as int + 1));
            }
            if keep {
                let ghost rest_v = rest@;
                rest.insert(0, card);
                proof {
                    assert(rest@ =~= seq![card] + rest_v);
                }
                rest
            } else {
                rest
            }
        }
    }

    /// The session's status as display text.
    pub fn get_status(&self) -> (r: String)
        ensures
            r@ == spec_status_text(self.status),
    {
        match self.status {
            GameState::Pending => String::from_str("pending"),
            GameState::Active => String::from_str("active"),
            GameState::GameOver => String::from_str("game over"),
        }
    }

    pub fn get_current_player(&self) -> (r: usize)
        ensures
            r == self.current_player,
    {
        self.current_player
    }

    /// A copy of the deck.
    pub fn get_deck(&self) -> (r: Vec<Card>)
        ensures
            r@ == self.deck@,
    {
        clone_cards(&self.deck)
    }

    /// A copy of the player list.
    pub fn get_players(&self) -> (r: Vec<Player>)
        ensures
            players_view(r@) == players_view(self.players@),
    {
        let mut ps: Vec<Player> = Vec::new();
        let mut i: usize = 0;
        while i < self.players.len()
            invariant
                i <= self.players@.len(),
                players_view(ps@) =~= players_view(self.players@).take(i as int),
            decreases self.players@.len() - i,
        {
            let ghost pre = ps@;
            let p = Player { id: self.players[i].id, hand: clone_cards(&self.players[i].hand) };
            let ghost pv = p@;
            ps.push(p);
            proof {
                assert(players_view(ps@) =~= players_view(pre).push(pv));
                assert(players_view(pre).push(pv) =~= players_view(self.players@).take(i + 1));
            }
            i = i + 1;
        }
        proof {
            assert(players_view(ps@) =~= players_view(self.players@));
        }
        ps
    }

    /// A copy of one player, by position.
    pub fn get_player(&self, n: usize) -> (r: Player)
        requires
            n < self.players@.len(),
        ensures
            r@ == self.players@[n as int]@,
    {
        Player { id: self.players[n].id, hand: clone_cards(&self.players[n].hand) }
    }

    /// A copy of the recorded winners, in order.
    pub fn get_winners(&self) -> (r: Vec<i64>)
        ensures
            r@ == self.winners@,
    {
        let mut ws: Vec<i64> = Vec::new();
        let mut i: usize = 0;
        while i < self.winners.len()
            invariant
                i <= self.winners@.len(),
                ws@ =~= self.winners@.take(i as int),
            decreases self.winners@.len() - i,
        {
            ws.push(self.winners[i]);
            i = i + 1;
        }
        proof {
            assert(ws@ =~= self.winners@);
        }
        ws
    }

    /// A copy of the named stack stored under exactly this key, if any.
    pub fn find_custom_item(&self, key: &str) -> (r: Option<Vec<Card>>)
        ensures
            match spec_stack_contents(self.card_stacks@, key@) {
                Some(cs) => r matches Some(v) && v@ == cs,
                None => r is None,
            },
    {
        let r = stacks_get(&self.card_stacks, 0, key);
        proof {
            assert(self.card_stacks@.skip(0) =~= self.card_stacks@);
        }
        r
    }
}

/// The object a player is exposed as: its number, a copy of its hand, and
/// the index its hand writes back through.
fn build_player_object(idx: usize, p: &Player) -> (r: ObjectValue)
    requires
        idx < usize::MAX,
    ensures
        r@ == (ObjShape {
            player_ref: Some(idx as int),
            attrs: seq![
                ("id"@, PrimShape::Num(spec_clamp_i64(idx + 1))),
                ("hand"@, PrimShape::StackLen(p.hand@.len())),
            ],
        }),
{
    let mut attrs: Vec<(String, PrimitiveValue)> = Vec::new();
    attrs.push((String::from_str("id"), PrimitiveValue::Number(clamp_to_i64(idx + 1))));
    attrs.push((String::from_str("hand"), PrimitiveValue::Stack(clone_cards(&p.hand))));
    let r = ObjectValue { player_ref: Some(idx), attrs };
    proof {
        assert(r@.attrs =~= seq![
            ("id"@, PrimShape::Num(spec_clamp_i64(idx + 1))),
            ("hand"@, PrimShape::StackLen(p.hand@.len())),
        ]);
    }
    r
}

/// The object a card is exposed as: its rank and suit as display text.
fn build_card_object(card: Card) -> (r: ObjectValue)
    ensures
        r@ == sh_card_obj(card),
{
    let mut attrs: Vec<(String, PrimitiveValue)> = Vec::new();
    attrs.push((String::from_str("rank"), PrimitiveValue::String(String::from_str(rank_name(card.rank)))));
    attrs.push((String::from_str("suit"), PrimitiveValue::String(String::from_str(suit_name(card.suit)))));
    let r = ObjectValue { player_ref: None, attrs };
    proof {
        assert(r@.attrs =~= sh_card_obj(card).attrs);
    }
    r
}

/// The `n`-th stack of a transfer operand, as its own copy: a single stack
/// answers for every index, a missing index is empty.
fn target_nth(t: &TransferTarget, n: usize) -> (r: Vec<Card>)
    ensures
        r@.len() == sh_target_nth(tt_shape(t@), n as int),
{
    match t {
        TransferTarget::Stack(s) => clone_cards(s),
        TransferTarget::StackList(l) => {
            if n < l.len() {
                clone_cards(&l[n])
            } else {
                Vec::new()
            }
        },
    }
}

/// Updates the first named stack matching a key.
fn stacks_set(stacks: &mut Vec<(String, Vec<Card>)>, i: usize, name: &str, v: Vec<Card>)
    requires
        i <= old(stacks)@.len(),
    ensures
        stacks_view(final(stacks)@) == stacks_view(old(stacks)@).take(i as int) + sh_set_in_stacks(
            stacks_view(old(stacks)@).skip(i as int),
            name@,
            v@.len(),
        ),
    decreases old(stacks)@.len() - i,
{
    let ghost orig = stacks_view(stacks@);
    let ghost tail = stacks_view(stacks@).skip(i as int);
    let ghost vlen = v@.len();
    if i >= stacks.len() {
        proof {
            assert(tail.len() == 0);
            assert(stacks_view(stacks@) =~= orig.take(i as int) + sh_set_in_stacks(
                tail,
                name@,
                vlen,
            ));
        }
    } else {
        proof {
            assert(tail.first() == (stacks@[i as int].0@, stacks@[i as int].1@.len()));
        }
        if str_eq(stacks[i].0.as_str(), name) {
            let nm = String::from_str(name);
            stacks[i] = (nm, v);
            proof {
                assert(stacks_view(stacks@) =~= orig.take(i as int) + tail.update(
                    0,
                    (name@, vlen),
                ));
            }
        } else {
            stacks_set(stacks, i + 1, name, v);
            proof {
                assert(tail.drop_first() =~= orig.skip(i as int + 1));
                assert(sh_set_in_stacks(tail, name@, vlen) == seq![tail.first()]
                    + sh_set_in_stacks(tail.drop_first(), name@, vlen));
                assert(stacks_view(final(stacks)@) =~= orig.take(i as int) + sh_set_in_stacks(
                    tail,
                    name@,
                    vlen,
                ));
            }
        }
    }
}

/// Looks a key up among the named stacks, returning a copy of its cards.
fn stacks_get(stacks: &Vec<(String, Vec<Card>)>, i: usize, name: &str) -> (r: Option<Vec<Card>>)
    requires
        i <= stacks@.len(),
    ensures
        match spec_stack_contents(stacks@.skip(i as int), name@) {
            Some(cs) => r matches Some(v) && v@ == cs,
            None => r is None,
        },
        match sh_find_stack(stacks_view(stacks@).skip(i as int), name@) {
            Some(l) => r matches Some(v) && v@.len() == l,
            None => r is None,
        },
    decreases stacks@.len() - i,
{
    let ghost tail = stacks@.skip(i as int);
    let ghost stail = stacks_view(stacks@).skip(i as int);
    if i >= stacks.len() {
        proof {
            assert(tail.len() == 0);
            assert(stail.len() == 0);
        }
        None
    } else {
        proof {
            assert(tail.first() == stacks@[i as int]);
            assert(stail.first() == (stacks@[i as int].0@, stacks@[i as int].1@.len()));
        }
        if str_eq(stacks[i].0.as_str(), name) {
            Some(clone_cards(&stacks[i].1))
        } else {
            let r = stacks_get(stacks, i + 1, name);
            proof {
                assert(tail.drop_first() =~= stacks@.skip(i + 1));
                assert(stail.drop_first() =~= stacks_view(stacks@).skip(i + 1));
            }
            r
        }
    }
}

} // verus!
