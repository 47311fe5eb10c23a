use vstd::prelude::*;
use crate::ast::{Definition, Expression, FunctionCall, Statement, Transfer, TransferCount};
use crate::cards::{Card, spec_rank_name, spec_suit_name};
use crate::runtime::GameState;
use crate::text::{spec_attr_of, spec_clamp_i64, spec_root_of};

verus! {

/// The length-level form of a resolved value: card stacks are reduced to
/// their size, everything else is kept in full.
pub enum PrimShape {
    Bool(bool),
    Num(int),
    StackLen(nat),
    Str(Seq<char>),
}

/// The length-level form of a bound object: an optional player index the
/// object writes through to, and its attribute bag.
pub struct ObjShape {
    pub player_ref: Option<int>,
    pub attrs: Seq<(Seq<char>, PrimShape)>,
}

/// The length-level form of the whole runtime state: every card stack is
/// reduced to its size; names, numbers and control state are kept in full.
pub struct RuntimeShape {
    pub status: GameState,
    pub deck: nat,
    pub winners: Seq<int>,
    pub current_player: int,
    pub players: Seq<nat>,
    pub stacks: Seq<(Seq<char>, nat)>,
    pub frames: Seq<Seq<(Seq<char>, ObjShape)>>,
}

/// The length-level form of a transfer operand.
pub enum ShapeTarget {
    One(nat),
    Many(Seq<nat>),
}

/// Looks a name up in the call stack, most recent frame first.
pub open spec fn sh_lookup_frames(
    frames: Seq<Seq<(Seq<char>, ObjShape)>>,
    name: Seq<char>,
) -> Option<ObjShape>
    decreases frames.len(),
{
    if frames.len() == 0 {
        None
    } else {
        match sh_lookup_frame(frames.last(), name) {
            Some(o) => Some(o),
            None => sh_lookup_frames(frames.drop_last(), name),
        }
    }
}

pub open spec fn sh_lookup_frame(
    frame: Seq<(Seq<char>, ObjShape)>,
    name: Seq<char>,
) -> Option<ObjShape>
    decreases frame.len(),
{
    if frame.len() == 0 {
        None
    } else if frame.first().0 == name {
        Some(frame.first().1)
    } else {
        sh_lookup_frame(frame.drop_first(), name)
    }
}

pub open spec fn sh_attr_lookup(
    attrs: Seq<(Seq<char>, PrimShape)>,
    name: Seq<char>,
) -> Option<PrimShape>
    decreases attrs.len(),
{
    if attrs.len() == 0 {
        None
    } else if attrs.first().0 == name {
        Some(attrs.first().1)
    } else {
        sh_attr_lookup(attrs.drop_first(), name)
    }
}

/// Resolves a symbol: `current_player` is the current player number, a
/// `root:attribute` path reads a bound object's attribute (false when the
/// attribute is absent), and anything else is its own name as a string.
pub open spec fn sh_resolve_symbol(s: RuntimeShape, sym: Seq<char>) -> PrimShape {
    if sym == "current_player"@ {
        PrimShape::Num(spec_clamp_i64(s.current_player))
    } else {
        let root = spec_root_of(sym, ':', ':');
        match (sh_lookup_frames(s.frames, root), spec_attr_of(sym, ':', ':')) {
            (Some(o), Some(a)) => match sh_attr_lookup(o.attrs, a) {
                Some(v) => v,
                None => PrimShape::Bool(false),
            },
            _ => PrimShape::Str(sym),
        }
    }
}

/// Structural equality of two resolved values, when their shapes decide it:
/// two stacks of different sizes differ, two of the same size are left
/// undecided.
pub open spec fn sh_prim_eq(a: PrimShape, b: PrimShape) -> Option<bool> {
    match (a, b) {
        (PrimShape::Bool(x), PrimShape::Bool(y)) => Some(x == y),
        (PrimShape::Num(x), PrimShape::Num(y)) => Some(x == y),
        (PrimShape::Str(x), PrimShape::Str(y)) => Some(x == y),
        (PrimShape::StackLen(x), PrimShape::StackLen(y)) => if x != y {
            Some(false)
        } else {
            None
        },
        _ => Some(false),
    }
}

/// The symbolic reference a stack key resolves to, by its first component
/// (split on spaces and colons).
pub open spec fn sh_get_stack(s: RuntimeShape, key: Seq<char>) -> Option<ShapeTarget> {
    let root = spec_root_of(key, ' ', ':');
    if root == "deck"@ {
        Some(ShapeTarget::One(s.deck))
    } else if root == "players"@ {
        Some(ShapeTarget::Many(s.players))
    } else {
        match sh_find_stack(s.stacks, root) {
            Some(n) => Some(ShapeTarget::One(n)),
            None => match sh_lookup_frames(s.frames, root) {
                Some(o) => match o.player_ref {
                    Some(i) => if 0 <= i < s.players.len() {
                        Some(ShapeTarget::One(s.players[i]))
                    } else {
                        None
                    },
                    None => None,
                },
                None => None,
            },
        }
    }
}

pub open spec fn sh_find_stack(stacks: Seq<(Seq<char>, nat)>, name: Seq<char>) -> Option<nat>
    decreases stacks.len(),
{
    if stacks.len() == 0 {
        None
    } else if stacks.first().0 == name {
        Some(stacks.first().1)
    } else {
        sh_find_stack(stacks.drop_first(), name)
    }
}

/// The `n`-th stack of a target: a single stack answers for every index,
/// a missing index counts as empty.
pub open spec fn sh_target_nth(t: ShapeTarget, n: int) -> nat {
    match t {
        ShapeTarget::One(l) => l,
        ShapeTarget::Many(ls) => if 0 <= n < ls.len() {
            ls[n]
        } else {
            0
        },
    }
}

pub open spec fn sh_set_in_stacks(
    stacks: Seq<(Seq<char>, nat)>,
    name: Seq<char>,
    v: nat,
) -> Seq<(Seq<char>, nat)>
    decreases stacks.len(),
{
    if stacks.len() == 0 {
        stacks
    } else if stacks.first().0 == name {
        stacks.update(0, (name, v))
    } else {
        seq![stacks.first()] + sh_set_in_stacks(stacks.drop_first(), name, v)
    }
}

/// Writes a target back under a symbolic reference, by its first component.
pub open spec fn sh_set_stack(s: RuntimeShape, key: Seq<char>, t: ShapeTarget) -> RuntimeShape {
    let root = spec_root_of(key, ' ', ':');
    if root == "deck"@ {
        RuntimeShape { deck: sh_target_nth(t, 0), ..s }
    } else if root == "players"@ {
        RuntimeShape { players: Seq::new(s.players.len(), |n: int| sh_target_nth(t, n)), ..s }
    } else if sh_find_stack(s.stacks, root) is Some {
        RuntimeShape { stacks: sh_set_in_stacks(s.stacks, root, sh_target_nth(t, 0)), ..s }
    } else {
        match sh_lookup_frames(s.frames, root) {
            Some(o) => match o.player_ref {
                Some(i) => if 0 <= i < s.players.len() {
                    RuntimeShape { players: s.players.update(i, sh_target_nth(t, 0)), ..s }
                } else {
                    s
                },
                None => s,
            },
            None => s,
        }
    }
}

/// The dealing pass at the length level: mirror of the card-level pass.
pub open spec fn sh_transfer_loop(f: ShapeTarget, t: ShapeTarget, idx: int, n: nat) -> (
    ShapeTarget,
    ShapeTarget,
)
    decreases n,
{
    if n == 0 {
        (f, t)
    } else {
        match f {
            ShapeTarget::One(l) => {
                if l == 0 {
                    (f, t)
                } else {
                    let f2 = ShapeTarget::One((l - 1) as nat);
                    match t {
                        ShapeTarget::One(d) => sh_transfer_loop(
                            f2,
                            ShapeTarget::One(d + 1),
                            idx,
                            (n - 1) as nat,
                        ),
                        ShapeTarget::Many(ds) => {
                            let ds2 = ds.update(idx, (ds[idx] + 1) as nat);
                            let idx2 = if idx >= ds.len() - 1 {
                                0int
                            } else {
                                idx + 1
                            };
                            sh_transfer_loop(f2, ShapeTarget::Many(ds2), idx2, (n - 1) as nat)
                        },
                    }
                }
            },
            ShapeTarget::Many(_) => (f, t),
        }
    }
}

pub open spec fn sh_target_count(t: ShapeTarget) -> nat {
    match t {
        ShapeTarget::One(l) => l,
        ShapeTarget::Many(ls) => ls.len(),
    }
}

pub open spec fn sh_transfer_total(f: ShapeTarget, t: ShapeTarget, c: Option<TransferCount>) -> int {
    let base: int = match c {
        None => 1,
        Some(TransferCount::End) => sh_target_count(f) as int,
    };
    let k: int = match t {
        ShapeTarget::One(_) => 1,
        ShapeTarget::Many(ls) => ls.len() as int,
    };
    base * k
}

/// A transfer statement: resolve both references, run the dealing pass, and
/// write the source back before the target; an unresolved side makes the
/// whole statement a silent no-op.
pub open spec fn sh_handle_transfer(s: RuntimeShape, t: Transfer) -> RuntimeShape {
    match (sh_get_stack(s, t.from@), sh_get_stack(s, t.to@)) {
        (Some(f), Some(d)) => {
            let total = sh_transfer_total(f, d, t.count) as nat;
            let (f2, d2) = sh_transfer_loop(f, d, 0, total);
            let s1 = sh_set_stack(s, t.from@, f2);
            sh_set_stack(s1, t.to@, d2)
        },
        _ => s,
    }
}

/// A built-in call, dispatched by name. `end` finishes the game, `shuffle`
/// permutes the deck (invisible at the length level), `winner` records a
/// number, `count` measures a stack, `next_player` rotates the turn;
/// unknown names are silent no-ops. `None` means the outcome depends on
/// card data the length level cannot see.
pub open spec fn sh_fncall(s: RuntimeShape, f: FunctionCall) -> Option<
    (RuntimeShape, Option<PrimShape>),
>
    decreases f, 0int,
{
    if f.name@ == "end"@ {
        Some((RuntimeShape { status: GameState::GameOver, ..s }, None))
    } else if f.name@ == "shuffle"@ {
        Some((s, None))
    } else if f.name@ == "winner"@ {
        if f.arguments.len() == 0 {
            Some((s, None))
        } else {
            match sh_resolve_expr(s, f.arguments[0]) {
                Some((s2, v)) => {
                    let n: int = match v {
                        PrimShape::Num(x) => x,
                        _ => 0,
                    };
                    Some((RuntimeShape { winners: s2.winners.push(n), ..s2 }, None))
                },
                None => None,
            }
        }
    } else if f.name@ == "count"@ {
        if f.arguments.len() == 0 {
            Some((s, None))
        } else {
            match sh_resolve_expr(s, f.arguments[0]) {
                Some((s2, v)) => {
                    let c: int = match v {
                        PrimShape::StackLen(l) => spec_clamp_i64(l as int),
                        _ => 0,
                    };
                    Some((s2, Some(PrimShape::Num(c))))
                },
                None => None,
            }
        }
    } else if f.name@ == "next_player"@ {
        let cp = if s.current_player < s.players.len() {
            s.current_player + 1
        } else {
            1int
        };
        Some((RuntimeShape { current_player: cp, ..s }, None))
    } else {
        Some((s, None))
    }
}

/// Expression resolution at the length level. Symbols and numbers resolve
/// directly, function calls through the built-in table (an absent result is
/// false), booleans and comparisons through boolean resolution; any other
/// expression is false.
pub open spec fn sh_resolve_expr(s: RuntimeShape, e: Expression) -> Option<
    (RuntimeShape, PrimShape),
>
    decreases e, 1int,
{
    match e {
        Expression::Symbol(sy) => Some((s, sh_resolve_symbol(s, sy@))),
        Expression::FunctionCall(f) => match sh_fncall(s, f) {
            Some((s2, r)) => Some(
                (
                    s2,
                    match r {
                        Some(v) => v,
                        None => PrimShape::Bool(false),
                    },
                ),
            ),
            None => None,
        },
        Expression::Number(n) => Some((s, PrimShape::Num(n as int))),
        Expression::Bool(_) => match sh_resolve_bool(s, e) {
            Some((s2, b)) => Some((s2, PrimShape::Bool(b))),
            None => None,
        },
        Expression::Comparison(_) => match sh_resolve_bool(s, e) {
            Some((s2, b)) => Some((s2, PrimShape::Bool(b))),
            None => None,
        },
        _ => Some((s, PrimShape::Bool(false))),
    }
}

/// Boolean resolution: a comparison resolves both sides (left first) and
/// compares them structurally; a conjunction short-circuits; everything
/// else but a boolean literal is false.
pub open spec fn sh_resolve_bool(s: RuntimeShape, e: Expression) -> Option<(RuntimeShape, bool)>
    decreases e, 0int,
{
    match e {
        Expression::Bool(b) => Some((s, b)),
        Expression::Comparison(c) => match sh_resolve_expr(s, c.left) {
            Some((s1, l)) => match sh_resolve_expr(s1, c.right) {
                Some((s2, r)) => match sh_prim_eq(l, r) {
                    Some(b) => Some((s2, b)),
                    None => None,
                },
                None => None,
            },
            None => None,
        },
        Expression::And(a) => match sh_resolve_bool(s, a.left) {
            Some((s1, b)) => if b {
                sh_resolve_bool(s1, a.right)
            } else {
                Some((s1, false))
            },
            None => None,
        },
        _ => Some((s, false)),
    }
}

/// Statement-list execution: statements run in order; a failed `check`
/// guard ends the body with false; a `return` ends it with its value;
/// falling off the end yields false.
pub open spec fn sh_exec_stmts(s: RuntimeShape, stmts: Seq<Statement>) -> Option<
    (RuntimeShape, PrimShape),
>
    decreases stmts, 1int,
{
    if stmts.len() == 0 {
        Some((s, PrimShape::Bool(false)))
    } else {
        match sh_exec_step(s, stmts[0]) {
            Some((s1, Some(out))) => Some((s1, out)),
            Some((s1, None)) => sh_exec_stmts(s1, stmts.drop_first()),
            None => None,
        }
    }
}

/// One statement: `Some(out)` in the second component means the enclosing
/// body stops with that value.
pub open spec fn sh_exec_step(s: RuntimeShape, stmt: Statement) -> Option<
    (RuntimeShape, Option<PrimShape>),
>
    decreases stmt, 0int,
{
    match stmt {
        Statement::Transfer(t) => Some((sh_handle_transfer(s, t), None)),
        Statement::FunctionCall(f) => match sh_fncall(s, f) {
            Some((s1, _)) => Some((s1, None)),
            None => None,
        },
        Statement::IfStatement(i) => match sh_resolve_bool(s, i.expression) {
            Some((s1, true)) => match sh_exec_stmts(s1, i.body@) {
                Some((s2, _)) => Some((s2, None)),
                None => None,
            },
            Some((s1, false)) => Some((s1, None)),
            None => None,
        },
        Statement::CheckStatement(c) => match sh_resolve_bool(s, c.expression) {
            Some((s1, true)) => Some((s1, None)),
            Some((s1, false)) => Some((s1, Some(PrimShape::Bool(false)))),
            None => None,
        },
        Statement::ReturnStatement(r) => match sh_resolve_expr(s, r.expression) {
            Some((s1, v)) => Some((s1, Some(v))),
            None => None,
        },
        _ => Some((s, None)),
    }
}

/// The object a player is exposed as inside a move: its number and a copy
/// of its hand, writing through to the canonical hand.
pub open spec fn sh_player_obj(s: RuntimeShape, idx: int) -> ObjShape {
    ObjShape {
        player_ref: Some(idx),
        attrs: seq![
            ("id"@, PrimShape::Num(spec_clamp_i64(idx + 1))),
            ("hand"@, PrimShape::StackLen(s.players[idx])),
        ],
    }
}

/// The object a card is exposed as inside a filter predicate.
pub open spec fn sh_card_obj(c: Card) -> ObjShape {
    ObjShape {
        player_ref: None,
        attrs: seq![
            ("rank"@, PrimShape::Str(spec_rank_name(c.rank))),
            ("suit"@, PrimShape::Str(spec_suit_name(c.suit))),
        ],
    }
}

/// A player move: a no-op unless the game is active and a move callback
/// exists; otherwise the callback body runs under a fresh frame binding its
/// first declared argument, if any, to the player's object.
pub open spec fn sh_player_move(s: RuntimeShape, pm: Option<Definition>, n: int) -> Option<
    RuntimeShape,
> {
    if s.status != GameState::Active {
        Some(s)
    } else {
        match pm {
            None => Some(s),
            Some(d) => {
                if d.arguments.len() > 0 && !(1 <= n <= s.players.len()) {
                    Some(s)
                } else {
                    let frame: Seq<(Seq<char>, ObjShape)> = if d.arguments.len() > 0 {
                        seq![(d.arguments[0]@, sh_player_obj(s, n - 1))]
                    } else {
                        Seq::empty()
                    };
                    let s1 = RuntimeShape { frames: s.frames.push(frame), ..s };
                    match sh_exec_stmts(s1, d.body@) {
                        Some((s2, _)) => Some(
                            RuntimeShape { frames: s2.frames.drop_last(), ..s2 },
                        ),
                        None => None,
                    }
                }
            },
        }
    }
}

/// Game setup: the game becomes active, then the setup body (if any) runs.
pub open spec fn sh_setup(s: RuntimeShape, setup: Option<Definition>) -> Option<RuntimeShape> {
    let s1 = RuntimeShape { status: GameState::Active, ..s };
    match setup {
        None => Some(s1),
        Some(d) => match sh_exec_stmts(s1, d.body@) {
            Some((s2, _)) => Some(s2),
            None => None,
        },
    }
}

/// The stack table freshly built from declared names: first declaration
/// wins, every stack empty.
pub open spec fn sh_initial_stacks(names: Seq<Seq<char>>) -> Seq<(Seq<char>, nat)>
    decreases names.len(),
{
    if names.len() == 0 {
        Seq::empty()
    } else {
        let rest = sh_initial_stacks(names.drop_last());
        if sh_find_stack(rest, names.last()) is Some {
            rest
        } else {
            rest.push((names.last(), 0))
        }
    }
}

/// A freshly constructed runtime: pending, a full deck, empty hands and
/// stacks, no winners, no frames.
pub open spec fn sh_initial(players: u32, stack_names: Seq<Seq<char>>, cp: int) -> RuntimeShape {
    RuntimeShape {
        status: GameState::Pending,
        deck: 52,
        winners: Seq::empty(),
        current_player: cp,
        players: Seq::new(players as nat, |i: int| 0),
        stacks: sh_initial_stacks(stack_names),
        frames: Seq::empty(),
    }
}

/// Filtering a stack through a predicate definition: each card is bound in
/// a fresh frame under the predicate's first argument name (or `card`), the
/// body runs, and the card is kept exactly when the body yields true.
pub open spec fn sh_filter(s: RuntimeShape, cards: Seq<Card>, d: Definition) -> Option<
    (RuntimeShape, Seq<Card>),
>
    decreases cards.len(),
{
    if cards.len() == 0 {
        Some((s, Seq::empty()))
    } else {
        let c = cards.first();
        let arg_name: Seq<char> = if d.arguments.len() > 0 {
            d.arguments[0]@
        } else {
            "card"@
        };
        let frame: Seq<(Seq<char>, ObjShape)> = seq![(arg_name, sh_card_obj(c))];
        let s1 = RuntimeShape { frames: s.frames.push(frame), ..s };
        match sh_exec_stmts(s1, d.body@) {
            Some((s2, out)) => {
                let s3 = RuntimeShape { frames: s2.frames.drop_last(), ..s2 };
                let keep = out == PrimShape::Bool(true);
                match sh_filter(s3, cards.drop_first(), d) {
                    Some((s4, rest)) => Some(
                        (
                            s4,
                            if keep {
                                seq![c] + rest
                            } else {
                                rest
                            },
                        ),
                    ),
                    None => None,
                }
            },
            None => None,
        }
    }
}

/// The length-level projection of a card-level transfer operand.
pub open spec fn tt_shape(t: crate::runtime::transfer::TransferTargetModel) -> ShapeTarget {
    match t {
        crate::runtime::transfer::TransferTargetModel::Stack(s) => ShapeTarget::One(s.len()),
        crate::runtime::transfer::TransferTargetModel::StackList(l) => ShapeTarget::Many(
            l.map_values(|x: Seq<Card>| x.len()),
        ),
    }
}

/// The dealing pass commutes with the length-level projection: sizes after
/// a card-level pass are what the length-level pass computes.
pub proof fn lemma_transfer_loop_shape(
    f: crate::runtime::transfer::TransferTargetModel,
    t: crate::runtime::transfer::TransferTargetModel,
    idx: int,
    n: nat,
)
    requires
        t is StackList && n > 0 && f is Stack && f->Stack_0.len() > 0 ==> 0 <= idx
            < t->StackList_0.len(),
    ensures
        ({
            let (f2, t2) = crate::runtime::transfer::spec_transfer_loop(f, t, idx, n);
            (tt_shape(f2), tt_shape(t2)) == sh_transfer_loop(tt_shape(f), tt_shape(t), idx, n)
        }),
    decreases n,
{
    if n == 0 {
    } else {
        match f {
            crate::runtime::transfer::TransferTargetModel::Stack(s) => {
                if s.len() == 0 {
                } else {
                    let card = s.last();
                    let s2 = crate::runtime::transfer::TransferTargetModel::Stack(s.drop_last());
                    match t {
                        crate::runtime::transfer::TransferTargetModel::Stack(d) => {
                            lemma_transfer_loop_shape(
                                s2,
                                crate::runtime::transfer::TransferTargetModel::Stack(d.push(card)),
                                idx,
                                (n - 1) as nat,
                            );
                        },
                        crate::runtime::transfer::TransferTargetModel::StackList(ds) => {
                            let ds2 = ds.update(idx, ds[idx].push(card));
                            let idx2 = if idx >= ds.len() - 1 {
                                0int
                            } else {
                                idx + 1
                            };
                            assert(ds2.map_values(|x: Seq<Card>| x.len()) =~= ds.map_values(
                                |x: Seq<Card>| x.len(),
                            ).update(idx, (ds[idx].len() + 1) as nat));
                            lemma_transfer_loop_shape(
                                s2,
                                crate::runtime::transfer::TransferTargetModel::StackList(ds2),
                                idx2,
                                (n - 1) as nat,
                            );
                        },
                    }
                }
            },
            crate::runtime::transfer::TransferTargetModel::StackList(_) => {},
        }
    }
}

/// The total number of cards a state holds: the deck, every hand, and
/// every named stack.
pub open spec fn sh_total_cards(s: RuntimeShape) -> int {
    s.deck + sh_sum(s.players) + sh_sum_stacks(s.stacks)
}

pub open spec fn sh_sum(ls: Seq<nat>) -> int
    decreases ls.len(),
{
    if ls.len() == 0 {
        0
    } else {
        sh_sum(ls.drop_last()) + ls.last()
    }
}

pub open spec fn sh_sum_stacks(ls: Seq<(Seq<char>, nat)>) -> int
    decreases ls.len(),
{
    if ls.len() == 0 {
        0
    } else {
        sh_sum_stacks(ls.drop_last()) + ls.last().1
    }
}

} // verus!
