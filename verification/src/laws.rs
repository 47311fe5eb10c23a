use vstd::prelude::*;
use crate::ast::{CheckStatement, Definition, Expression, FunctionCall, Statement, Transfer,
    TransferCount};
use crate::cards::Card;
use crate::game::sh_start;
use crate::runtime::shape::{
    PrimShape, RuntimeShape, ShapeTarget, sh_exec_step, sh_exec_stmts, sh_fncall, sh_find_stack,
    sh_get_stack, sh_handle_transfer, sh_initial, sh_lookup_frames, sh_resolve_bool,
    sh_resolve_expr, sh_resolve_symbol, sh_set_in_stacks, sh_set_stack, sh_sum, sh_sum_stacks,
    sh_target_count, sh_target_nth, sh_total_cards, sh_transfer_loop, sh_transfer_total,
};
use crate::text::spec_root_of;

verus! {

/// The storage a transfer operand writes back into: the deck, every hand
/// at once, one player's hand, or a named stack.
pub enum WriteRoot {
    Deck,
    AllPlayers,
    Hand(int),
    Named(Seq<char>),
}

/// Where a stack key's first component leads, when it resolves at all.
pub open spec fn sh_write_root(s: RuntimeShape, key: Seq<char>) -> Option<WriteRoot> {
    let root = spec_root_of(key, ' ', ':');
    if root == "deck"@ {
        Some(WriteRoot::Deck)
    } else if root == "players"@ {
        Some(WriteRoot::AllPlayers)
    } else if sh_find_stack(s.stacks, root) is Some {
        Some(WriteRoot::Named(root))
    } else {
        match sh_lookup_frames(s.frames, root) {
            Some(o) => match o.player_ref {
                Some(i) => if 0 <= i < s.players.len() {
                    Some(WriteRoot::Hand(i))
                } else {
                    None
                },
                None => None,
            },
            None => None,
        }
    }
}

/// Two write roots name disjoint storage exactly when they differ and
/// neither is the whole player list while the other is one hand of it.
pub open spec fn roots_disjoint(a: WriteRoot, b: WriteRoot) -> bool {
    a != b && !(a is AllPlayers && b is Hand) && !(a is Hand && b is AllPlayers)
}

/// The number of cards a write root currently holds.
pub open spec fn root_cards(s: RuntimeShape, r: WriteRoot) -> int {
    match r {
        WriteRoot::Deck => s.deck as int,
        WriteRoot::AllPlayers => sh_sum(s.players),
        WriteRoot::Hand(i) => if 0 <= i < s.players.len() {
            s.players[i] as int
        } else {
            0
        },
        WriteRoot::Named(nm) => match sh_find_stack(s.stacks, nm) {
            Some(n) => n as int,
            None => 0,
        },
    }
}

/// The number of cards a transfer operand holds in all, at the length
/// level.
pub open spec fn st_total(t: ShapeTarget) -> int {
    match t {
        ShapeTarget::One(l) => l as int,
        ShapeTarget::Many(ls) => sh_sum(ls),
    }
}

/// The number of cards writing operand `x` back into root `r` stores.
pub open spec fn written_cards(s: RuntimeShape, r: WriteRoot, x: ShapeTarget) -> int {
    match r {
        WriteRoot::AllPlayers => sh_sum(Seq::new(s.players.len(), |n: int| sh_target_nth(x, n))),
        _ => sh_target_nth(x, 0) as int,
    }
}

proof fn lemma_sum_prepend(x: nat, rest: Seq<nat>)
    ensures
        sh_sum(seq![x] + rest) == x + sh_sum(rest),
    decreases rest.len(),
{
    reveal_with_fuel(sh_sum, 3);
    if rest.len() == 0 {
        assert(seq![x] + rest =~= seq![x]);
        assert(seq![x].drop_last() =~= Seq::<nat>::empty());
    } else {
        assert((seq![x] + rest).drop_last() =~= seq![x] + rest.drop_last());
        assert((seq![x] + rest).last() == rest.last());
        lemma_sum_prepend(x, rest.drop_last());
    }
}

proof fn lemma_sum_stacks_prepend(x: (Seq<char>, nat), rest: Seq<(Seq<char>, nat)>)
    ensures
        sh_sum_stacks(seq![x] + rest) == x.1 + sh_sum_stacks(rest),
    decreases rest.len(),
{
    reveal_with_fuel(sh_sum_stacks, 3);
    if rest.len() == 0 {
        assert(seq![x] + rest =~= seq![x]);
        assert(seq![x].drop_last() =~= Seq::<(Seq<char>, nat)>::empty());
    } else {
        assert((seq![x] + rest).drop_last() =~= seq![x] + rest.drop_last());
        assert((seq![x] + rest).last() == rest.last());
        lemma_sum_stacks_prepend(x, rest.drop_last());
    }
}

proof fn lemma_sum_update(ls: Seq<nat>, i: int, v: nat)
    requires
        0 <= i < ls.len(),
    ensures
        sh_sum(ls.update(i, v)) == sh_sum(ls) - ls[i] + v,
    decreases ls.len(),
{
    let u = ls.update(i, v);
    if i == ls.len() - 1 {
        assert(u.drop_last() =~= ls.drop_last());
        assert(u.last() == v);
    } else {
        assert(u.drop_last() =~= ls.drop_last().update(i, v));
        assert(u.last() == ls.last());
        lemma_sum_update(ls.drop_last(), i, v);
    }
}

/// What updating a named stack does: the named entry's size changes, every
/// other entry and every name is untouched, and a missing name leaves the
/// table as it was.
proof fn lemma_set_in_stacks(st: Seq<(Seq<char>, nat)>, name: Seq<char>, v: nat)
    ensures
        sh_find_stack(st, name) is Some ==> sh_sum_stacks(sh_set_in_stacks(st, name, v))
            == sh_sum_stacks(st) - sh_find_stack(st, name)->Some_0 + v,
        sh_find_stack(st, name) is None ==> sh_set_in_stacks(st, name, v) == st,
        forall|nm2: Seq<char>|
            (#[trigger] sh_find_stack(sh_set_in_stacks(st, name, v), nm2)) is Some
                == sh_find_stack(st, nm2) is Some,
        forall|nm2: Seq<char>|
            nm2 != name ==> #[trigger] sh_find_stack(sh_set_in_stacks(st, name, v), nm2)
                == sh_find_stack(st, nm2),
    decreases st.len(),
{
    if st.len() == 0 {
    } else if st.first().0 == name {
        let u = st.update(0, (name, v));
        assert(u =~= seq![(name, v)] + st.drop_first());
        assert(st =~= seq![st.first()] + st.drop_first());
        lemma_sum_stacks_prepend((name, v), st.drop_first());
        lemma_sum_stacks_prepend(st.first(), st.drop_first());
        assert forall|nm2: Seq<char>|
            (#[trigger] sh_find_stack(u, nm2)) is Some == sh_find_stack(st, nm2) is Some by {
            assert(u.first() == (name, v));
            assert(u.drop_first() =~= st.drop_first());
        }
        assert forall|nm2: Seq<char>|
            nm2 != name ==> #[trigger] sh_find_stack(u, nm2) == sh_find_stack(st, nm2) by {
            assert(u.first() == (name, v));
            assert(u.drop_first() =~= st.drop_first());
        }
    } else {
        lemma_set_in_stacks(st.drop_first(), name, v);
        let inner = sh_set_in_stacks(st.drop_first(), name, v);
        let r = seq![st.first()] + inner;
        assert(sh_set_in_stacks(st, name, v) == r);
        assert(st =~= seq![st.first()] + st.drop_first());
        lemma_sum_stacks_prepend(st.first(), inner);
        lemma_sum_stacks_prepend(st.first(), st.drop_first());
        if sh_find_stack(st.drop_first(), name) is None {
            assert(r =~= st);
        }
        assert forall|nm2: Seq<char>|
            (#[trigger] sh_find_stack(r, nm2)) is Some == sh_find_stack(st, nm2) is Some by {
            assert(r.first() == st.first());
            assert(r.drop_first() =~= inner);
            if st.first().0 == nm2 {
            } else {
                assert(sh_find_stack(r, nm2) == sh_find_stack(inner, nm2));
                assert(sh_find_stack(st, nm2) == sh_find_stack(st.drop_first(), nm2));
            }
        }
        assert forall|nm2: Seq<char>|
            nm2 != name ==> #[trigger] sh_find_stack(r, nm2) == sh_find_stack(st, nm2) by {
            assert(r.first() == st.first());
            assert(r.drop_first() =~= inner);
            if st.first().0 == nm2 {
            } else {
                assert(sh_find_stack(r, nm2) == sh_find_stack(inner, nm2));
                assert(sh_find_stack(st, nm2) == sh_find_stack(st.drop_first(), nm2));
            }
        }
    }
}

/// The dealing pass conserves cards and preserves each operand's form.
proof fn lemma_sh_loop_conserves(f: ShapeTarget, t: ShapeTarget, idx: int, n: nat)
    requires
        t is Many && n > 0 && f is One && f->One_0 > 0 ==> 0 <= idx < t->Many_0.len(),
    ensures
        ({
            let (f2, d2) = sh_transfer_loop(f, t, idx, n);
            &&& st_total(f2) + st_total(d2) == st_total(f) + st_total(t)
            &&& (f2 is One) == (f is One)
            &&& (d2 is Many) == (t is Many)
            &&& (t is Many ==> d2->Many_0.len() == t->Many_0.len())
            &&& (f is Many ==> (f2, d2) == (f, t))
        }),
    decreases n,
{
    if n == 0 {
    } else {
        match f {
            ShapeTarget::One(l) => {
                if l == 0 {
                } else {
                    let f2 = ShapeTarget::One((l - 1) as nat);
                    match t {
                        ShapeTarget::One(d) => {
                            lemma_sh_loop_conserves(f2, ShapeTarget::One(d + 1), idx, (n - 1) as nat);
                        },
                        ShapeTarget::Many(ds) => {
                            let ds2 = ds.update(idx, (ds[idx] + 1) as nat);
                            let idx2 = if idx >= ds.len() - 1 {
                                0int
                            } else {
                                idx + 1
                            };
                            lemma_sum_update(ds, idx, (ds[idx] + 1) as nat);
                            lemma_sh_loop_conserves(f2, ShapeTarget::Many(ds2), idx2, (n - 1) as nat);
                        },
                    }
                }
            },
            ShapeTarget::Many(_) => {},
        }
    }
}

/// A resolved stack reference holds exactly the cards of its write root.
proof fn lemma_get_root(s: RuntimeShape, key: Seq<char>)
    ensures
        sh_get_stack(s, key) is Some == sh_write_root(s, key) is Some,
        sh_get_stack(s, key) matches Some(t) ==> ({
            let r = sh_write_root(s, key)->Some_0;
            &&& st_total(t) == root_cards(s, r)
            &&& (t is Many) == (r is AllPlayers)
            &&& (r is AllPlayers ==> t->Many_0 == s.players)
            &&& (r matches WriteRoot::Hand(i) ==> 0 <= i < s.players.len())
        }),
{
}

/// Writing a stack reference back changes exactly its own root's count,
/// and leaves resolution, frames and every disjoint root untouched.
proof fn lemma_set_total(s: RuntimeShape, key: Seq<char>, x: ShapeTarget)
    requires
        sh_write_root(s, key) is Some,
    ensures
        ({
            let r = sh_write_root(s, key)->Some_0;
            let s2 = sh_set_stack(s, key, x);
            &&& sh_total_cards(s2) == sh_total_cards(s) - root_cards(s, r) + written_cards(
                s,
                r,
                x,
            )
            &&& s2.frames == s.frames
            &&& s2.players.len() == s.players.len()
            &&& forall|r2: WriteRoot|
                roots_disjoint(r, r2) ==> #[trigger] root_cards(s2, r2) == root_cards(s, r2)
            &&& forall|key2: Seq<char>|
                #[trigger] sh_write_root(s2, key2) == sh_write_root(s, key2)
        }),
{
    let r = sh_write_root(s, key)->Some_0;
    let s2 = sh_set_stack(s, key, x);
    let root = spec_root_of(key, ' ', ':');
    match r {
        WriteRoot::Deck => {},
        WriteRoot::AllPlayers => {},
        WriteRoot::Hand(i) => {
            lemma_sum_update(s.players, i, sh_target_nth(x, 0));
        },
        WriteRoot::Named(nm) => {
            lemma_set_in_stacks(s.stacks, nm, sh_target_nth(x, 0));
        },
    }
    assert forall|r2: WriteRoot|
        roots_disjoint(r, r2) implies #[trigger] root_cards(s2, r2) == root_cards(s, r2) by {
        match r {
            WriteRoot::Deck => {},
            WriteRoot::AllPlayers => {},
            WriteRoot::Hand(i) => {},
            WriteRoot::Named(nm) => {
                lemma_set_in_stacks(s.stacks, nm, sh_target_nth(x, 0));
                match r2 {
                    WriteRoot::Named(nm2) => {
                        assert(nm2 != nm);
                    },
                    _ => {},
                }
            },
        }
    }
    assert forall|key2: Seq<char>| #[trigger] sh_write_root(s2, key2) == sh_write_root(
        s,
        key2,
    ) by {
        let root2 = spec_root_of(key2, ' ', ':');
        match r {
            WriteRoot::Named(nm) => {
                lemma_set_in_stacks(s.stacks, nm, sh_target_nth(x, 0));
            },
            _ => {},
        }
    }
}

/// Conservation: a transfer between references that resolve to disjoint
/// storage (or fail to resolve at all) neither creates nor destroys cards:
/// the deck, the hands, and the named stacks together hold the same number
/// before and after.
pub proof fn lemma_transfer_conserves_state(s: RuntimeShape, t: Transfer)
    requires
        match (sh_write_root(s, t.from@), sh_write_root(s, t.to@)) {
            (Some(r1), Some(r2)) => roots_disjoint(r1, r2),
            _ => true,
        },
    ensures
        sh_total_cards(sh_handle_transfer(s, t)) == sh_total_cards(s),
{
    lemma_get_root(s, t.from@);
    lemma_get_root(s, t.to@);
    match (sh_get_stack(s, t.from@), sh_get_stack(s, t.to@)) {
        (Some(f), Some(d)) => {
            let r1 = sh_write_root(s, t.from@)->Some_0;
            let r2 = sh_write_root(s, t.to@)->Some_0;
            let total = sh_transfer_total(f, d, t.count) as nat;
            if d is Many && total > 0 {
                let k = d->Many_0.len() as int;
                let base: int = match t.count {
                    None => 1int,
                    Some(TransferCount::End) => sh_target_count(f) as int,
                };
                assert(base * k == sh_transfer_total(f, d, t.count));
                if k == 0 {
                    assert(base * 0 == 0) by (nonlinear_arith);
                    assert(false);
                }
            }
            lemma_sh_loop_conserves(f, d, 0, total);
            let (f2, d2) = sh_transfer_loop(f, d, 0, total);
            let s1 = sh_set_stack(s, t.from@, f2);
            lemma_set_total(s, t.from@, f2);
            lemma_set_total(s1, t.to@, d2);
            assert(root_cards(s1, r2) == root_cards(s, r2));
            // the target operand keeps its form, so what the second write
            // stores is exactly the cards the pass left in it
            if r2 is AllPlayers {
                assert(d2->Many_0.len() == s.players.len());
                assert(Seq::new(s1.players.len(), |n: int| sh_target_nth(d2, n))
                    =~= d2->Many_0);
                assert(written_cards(s1, r2, d2) == st_total(d2));
            } else {
                assert(written_cards(s1, r2, d2) == st_total(d2));
            }
            if r1 is AllPlayers {
                // the source is the whole player list: the pass moves
                // nothing, and both writes store back what was read
                assert((f2, d2) == (f, d));
                assert(Seq::new(s.players.len(), |n: int| sh_target_nth(f2, n))
                    =~= f2->Many_0);
                assert(written_cards(s, r1, f2) == st_total(f2));
            } else {
                assert(written_cards(s, r1, f2) == st_total(f2));
            }
        },
        _ => {},
    }
}

/// A body of transfer statements whose steps each satisfy the disjointness
/// condition of conservation, one state after another.
pub open spec fn conserving_transfers(s: RuntimeShape, stmts: Seq<Statement>) -> bool
    decreases stmts.len(),
{
    if stmts.len() == 0 {
        true
    } else {
        match stmts[0] {
            Statement::Transfer(t) => {
                let ok = match (sh_write_root(s, t.from@), sh_write_root(s, t.to@)) {
                    (Some(r1), Some(r2)) => roots_disjoint(r1, r2),
                    _ => true,
                };
                ok && conserving_transfers(sh_handle_transfer(s, t), stmts.drop_first())
            },
            _ => false,
        }
    }
}

/// Conservation over a whole sequence of transfers: executing it changes
/// no card count in total.
pub proof fn lemma_transfer_sequence_conserves(s: RuntimeShape, stmts: Seq<Statement>)
    requires
        conserving_transfers(s, stmts),
    ensures
        sh_exec_stmts(s, stmts) matches Some(p) && sh_total_cards(p.0) == sh_total_cards(s),
    decreases stmts.len(),
{
    reveal_with_fuel(sh_exec_stmts, 2);
    reveal_with_fuel(sh_exec_step, 2);
    if stmts.len() == 0 {
    } else {
        match stmts[0] {
            Statement::Transfer(t) => {
                lemma_transfer_conserves_state(s, t);
                lemma_transfer_sequence_conserves(sh_handle_transfer(s, t), stmts.drop_first());
            },
            _ => {},
        }
    }
}

/// Turn rotation wraps: `next_player` leaves every other part of the state
/// alone, moves the turn to the next player, and returns to the first
/// player from the last.
pub proof fn lemma_next_player_wraps(s: RuntimeShape, f: FunctionCall)
    requires
        f.name@ == "next_player"@,
    ensures
        sh_fncall(s, f) == Some(
            (
                RuntimeShape {
                    current_player: if s.current_player < s.players.len() {
                        s.current_player + 1
                    } else {
                        1
                    },
                    ..s
                },
                None::<PrimShape>,
            ),
        ),
{
    lemma_builtin_names();
}

/// A failed `check` guard stops the rest of its own body: the body yields
/// false from the state the guard's expression left behind, and the
/// statements after the guard contribute nothing. An enclosing body simply
/// continues from that state, as the conditional step shows.
pub proof fn lemma_check_guard_stops(s: RuntimeShape, stmts: Seq<Statement>, c: CheckStatement)
    requires
        stmts.len() > 0,
        stmts[0] == Statement::CheckStatement(c),
        sh_resolve_bool(s, c.expression) matches Some(p) && p.1 == false,
    ensures
        sh_exec_stmts(s, stmts) == Some(
            (sh_resolve_bool(s, c.expression)->Some_0.0, PrimShape::Bool(false)),
        ),
{
    reveal_with_fuel(sh_exec_stmts, 2);
    reveal_with_fuel(sh_exec_step, 2);
}

/// The five built-in names differ pairwise.
proof fn lemma_builtin_names()
    ensures
        "end"@ != "shuffle"@,
        "end"@ != "winner"@,
        "end"@ != "count"@,
        "end"@ != "next_player"@,
        "shuffle"@ != "winner"@,
        "shuffle"@ != "count"@,
        "shuffle"@ != "next_player"@,
        "winner"@ != "count"@,
        "winner"@ != "next_player"@,
        "count"@ != "next_player"@,
        "current_player"@ != "end"@,
{
    reveal_strlit("end");
    reveal_strlit("shuffle");
    reveal_strlit("winner");
    reveal_strlit("count");
    reveal_strlit("next_player");
    reveal_strlit("current_player");
    assert("end"@.len() == 3);
    assert("shuffle"@.len() == 7);
    assert("winner"@.len() == 6);
    assert("count"@.len() == 5);
    assert("next_player"@.len() == 11);
    assert("current_player"@.len() == 14);
}

/// A bound object none of whose attributes is a card stack.
pub open spec fn obj_stackless(o: crate::runtime::shape::ObjShape) -> bool {
    forall|k: int| 0 <= k < o.attrs.len() ==> !((#[trigger] o.attrs[k]).1 is StackLen)
}

pub open spec fn frame_stackless(fr: Seq<(Seq<char>, crate::runtime::shape::ObjShape)>) -> bool {
    forall|k: int| 0 <= k < fr.len() ==> obj_stackless((#[trigger] fr[k]).1)
}

/// No frame on the call stack binds an object with a card-stack attribute.
/// An empty call stack is stackless, and so is one of card bindings alone.
pub open spec fn frames_stackless(
    frames: Seq<Seq<(Seq<char>, crate::runtime::shape::ObjShape)>>,
) -> bool {
    forall|k: int| 0 <= k < frames.len() ==> frame_stackless(#[trigger] frames[k])
}

proof fn lemma_frame_lookup_stackless(
    fr: Seq<(Seq<char>, crate::runtime::shape::ObjShape)>,
    name: Seq<char>,
)
    requires
        frame_stackless(fr),
    ensures
        crate::runtime::shape::sh_lookup_frame(fr, name) matches Some(o) ==> obj_stackless(o),
    decreases fr.len(),
{
    if fr.len() == 0 {
    } else if fr.first().0 == name {
        assert(fr.first() == fr[0]);
    } else {
        assert(forall|k: int|
            0 <= k < fr.drop_first().len() ==> fr.drop_first()[k] == fr[k + 1]);
        lemma_frame_lookup_stackless(fr.drop_first(), name);
    }
}

proof fn lemma_lookup_stackless(
    frames: Seq<Seq<(Seq<char>, crate::runtime::shape::ObjShape)>>,
    name: Seq<char>,
)
    requires
        frames_stackless(frames),
    ensures
        sh_lookup_frames(frames, name) matches Some(o) ==> obj_stackless(o),
    decreases frames.len(),
{
    if frames.len() == 0 {
    } else {
        assert(frames.last() == frames[frames.len() - 1]);
        lemma_frame_lookup_stackless(frames.last(), name);
        assert(forall|k: int|
            0 <= k < frames.drop_last().len() ==> frames.drop_last()[k] == frames[k]);
        lemma_lookup_stackless(frames.drop_last(), name);
    }
}

proof fn lemma_attr_lookup_stackless(
    attrs: Seq<(Seq<char>, crate::runtime::shape::PrimShape)>,
    name: Seq<char>,
)
    requires
        forall|k: int| 0 <= k < attrs.len() ==> !((#[trigger] attrs[k]).1 is StackLen),
    ensures
        crate::runtime::shape::sh_attr_lookup(attrs, name) matches Some(v) ==> !(v is StackLen),
    decreases attrs.len(),
{
    if attrs.len() == 0 {
    } else if attrs.first().0 == name {
        assert(attrs.first() == attrs[0]);
    } else {
        assert(forall|k: int|
            0 <= k < attrs.drop_first().len() ==> attrs.drop_first()[k] == attrs[k + 1]);
        lemma_attr_lookup_stackless(attrs.drop_first(), name);
    }
}

/// With only stackless frames, a symbol never resolves to a card stack, so
/// every comparison is decided by the state's shape alone.
proof fn lemma_ff_resolve_symbol(s: RuntimeShape, sym: Seq<char>)
    requires
        frames_stackless(s.frames),
    ensures
        !(sh_resolve_symbol(s, sym) is StackLen),
{
    let root = crate::text::spec_root_of(sym, ':', ':');
    lemma_lookup_stackless(s.frames, root);
    match sh_lookup_frames(s.frames, root) {
        Some(o) => {
            match crate::text::spec_attr_of(sym, ':', ':') {
                Some(a) => {
                    lemma_attr_lookup_stackless(o.attrs, a);
                },
                None => {},
            }
        },
        None => {},
    }
}

proof fn lemma_ff_fncall(s: RuntimeShape, f: FunctionCall)
    requires
        frames_stackless(s.frames),
    ensures
        sh_fncall(s, f) matches Some(p) && p.0.frames == s.frames && (p.1 matches Some(v)
            ==> !(v is StackLen)),
    decreases f, 0int,
{
    if f.name@ == "winner"@ && f.arguments.len() > 0 {
        lemma_ff_resolve_expr(s, f.arguments[0]);
    } else if f.name@ == "count"@ && f.arguments.len() > 0 {
        lemma_ff_resolve_expr(s, f.arguments[0]);
    }
}

proof fn lemma_ff_resolve_expr(s: RuntimeShape, e: Expression)
    requires
        frames_stackless(s.frames),
    ensures
        sh_resolve_expr(s, e) matches Some(p) && p.0.frames == s.frames && !(p.1 is StackLen),
    decreases e, 1int,
{
    match e {
        Expression::Symbol(sy) => {
            lemma_ff_resolve_symbol(s, sy@);
        },
        Expression::FunctionCall(f) => {
            lemma_ff_fncall(s, f);
        },
        Expression::Number(_) => {},
        Expression::Bool(_) => {
            lemma_ff_resolve_bool(s, e);
        },
        Expression::Comparison(_) => {
            lemma_ff_resolve_bool(s, e);
        },
        _ => {},
    }
}

proof fn lemma_ff_resolve_bool(s: RuntimeShape, e: Expression)
    requires
        frames_stackless(s.frames),
    ensures
        sh_resolve_bool(s, e) matches Some(p) && p.0.frames == s.frames,
    decreases e, 0int,
{
    match e {
        Expression::Bool(_) => {},
        Expression::Comparison(c) => {
            lemma_ff_resolve_expr(s, c.left);
            let s1 = sh_resolve_expr(s, c.left)->Some_0.0;
            lemma_ff_resolve_expr(s1, c.right);
        },
        Expression::And(a) => {
            lemma_ff_resolve_bool(s, a.left);
            match sh_resolve_bool(s, a.left) {
                Some((s1, b)) => {
                    if b {
                        lemma_ff_resolve_bool(s1, a.right);
                    }
                },
                None => {},
            }
        },
        _ => {},
    }
}

/// Writing a stack reference never touches the call stack.
proof fn lemma_set_stack_frames(s: RuntimeShape, key: Seq<char>, t: crate::runtime::shape::ShapeTarget)
    ensures
        sh_set_stack(s, key, t).frames == s.frames,
{
}

proof fn lemma_ff_transfer(s: RuntimeShape, t: crate::ast::Transfer)
    requires
        frames_stackless(s.frames),
    ensures
        sh_handle_transfer(s, t).frames == s.frames,
{
    match (
        crate::runtime::shape::sh_get_stack(s, t.from@),
        crate::runtime::shape::sh_get_stack(s, t.to@),
    ) {
        (Some(f), Some(d)) => {
            let total = crate::runtime::shape::sh_transfer_total(f, d, t.count) as nat;
            let (f2, d2) = crate::runtime::shape::sh_transfer_loop(f, d, 0, total);
            let s1 = sh_set_stack(s, t.from@, f2);
            lemma_set_stack_frames(s, t.from@, f2);
            lemma_set_stack_frames(s1, t.to@, d2);
        },
        _ => {},
    }
}

proof fn lemma_ff_exec_step(s: RuntimeShape, stmt: Statement)
    requires
        frames_stackless(s.frames),
    ensures
        sh_exec_step(s, stmt) matches Some(p) && p.0.frames == s.frames,
    decreases stmt, 2int,
{
    match stmt {
        Statement::Transfer(t) => {
            lemma_ff_transfer(s, t);
        },
        Statement::FunctionCall(f) => {
            lemma_ff_fncall(s, f);
        },
        Statement::IfStatement(i) => {
            lemma_ff_resolve_bool(s, i.expression);
            match sh_resolve_bool(s, i.expression) {
                Some((s1, b)) => {
                    if b {
                        lemma_ff_exec_stmts(s1, i.body@);
                    }
                },
                None => {},
            }
        },
        Statement::CheckStatement(c) => {
            lemma_ff_resolve_bool(s, c.expression);
        },
        Statement::ReturnStatement(r) => {
            lemma_ff_resolve_expr(s, r.expression);
        },
        _ => {},
    }
}

proof fn lemma_ff_exec_stmts(s: RuntimeShape, stmts: Seq<Statement>)
    requires
        frames_stackless(s.frames),
    ensures
        sh_exec_stmts(s, stmts) matches Some(p) && p.0.frames == s.frames,
    decreases stmts, 3int,
{
    if stmts.len() == 0 {
    } else {
        lemma_ff_exec_step(s, stmts[0]);
        match sh_exec_step(s, stmts[0]) {
            Some((s1, Some(_))) => {},
            Some((s1, None)) => {
                lemma_ff_exec_stmts(s1, stmts.drop_first());
            },
            None => {},
        }
    }
}

/// Starting a game always resolves: a setup body runs with no frames on
/// the call stack, where nothing depends on card identities, so the state
/// after `start` is a function of the declarations alone. Two calls of
/// `start` in a row therefore reach the same deck and hand sizes both
/// times.
pub proof fn lemma_start_deterministic(
    players: u32,
    stack_names: Seq<Seq<char>>,
    cp: int,
    setup: Option<Definition>,
)
    ensures
        sh_start(players, stack_names, cp, setup) is Some,
{
    let s0 = sh_initial(players, stack_names, cp);
    let s1 = RuntimeShape { status: crate::runtime::GameState::Active, ..s0 };
    match setup {
        None => {},
        Some(d) => {
            assert(frames_stackless(s1.frames));
            lemma_ff_exec_stmts(s1, d.body@);
        },
    }
}

/// Filtering always resolves when no frame binds a card stack: a card's
/// bound object holds only its rank and suit text, so each predicate run is
/// decided by the state's shape, and the frame discipline is restored after
/// every card.
pub proof fn lemma_filter_resolves(s: RuntimeShape, cards: Seq<Card>, d: Definition)
    requires
        frames_stackless(s.frames),
    ensures
        crate::runtime::shape::sh_filter(s, cards, d) matches Some(p) && p.0.frames == s.frames,
    decreases cards.len(),
{
    if cards.len() == 0 {
    } else {
        let c = cards.first();
        let arg_name: Seq<char> = if d.arguments.len() > 0 {
            d.arguments[0]@
        } else {
            "card"@
        };
        let frame: Seq<(Seq<char>, crate::runtime::shape::ObjShape)> = seq![
            (arg_name, crate::runtime::shape::sh_card_obj(c)),
        ];
        assert(obj_stackless(crate::runtime::shape::sh_card_obj(c)));
        assert(frame_stackless(frame));
        let s1 = RuntimeShape { frames: s.frames.push(frame), ..s };
        assert(frames_stackless(s1.frames));
        lemma_ff_exec_stmts(s1, d.body@);
        match crate::runtime::shape::sh_exec_stmts(s1, d.body@) {
            Some((s2, _)) => {
                let s3 = RuntimeShape { frames: s2.frames.drop_last(), ..s2 };
                assert(s3.frames =~= s.frames);
                lemma_filter_resolves(s3, cards.drop_first(), d);
            },
            None => {},
        }
    }
}

} // verus!
