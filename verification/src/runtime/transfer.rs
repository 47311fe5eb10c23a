use vstd::prelude::*;
use crate::ast::TransferCount;
use crate::cards::Card;

verus! {

pub type Stack = Vec<Card>;

/// The operand of a transfer: either one stack, or one stack per player.
pub enum TransferTarget {
    Stack(Stack),
    StackList(Vec<Stack>),
}

/// The mathematical form of a transfer operand.
pub enum TransferTargetModel {
    Stack(Seq<Card>),
    StackList(Seq<Seq<Card>>),
}

pub open spec fn stacks_view(v: Seq<Stack>) -> Seq<Seq<Card>> {
    v.map_values(|s: Stack| s@)
}

impl View for TransferTarget {
    type V = TransferTargetModel;

    open spec fn view(&self) -> TransferTargetModel {
        match self {
            TransferTarget::Stack(s) => TransferTargetModel::Stack(s@),
            TransferTarget::StackList(l) => TransferTargetModel::StackList(stacks_view(l@)),
        }
    }
}

/// How many cards a stack holds, or how many stacks a list holds.
pub open spec fn spec_tt_count(t: TransferTargetModel) -> nat {
    match t {
        TransferTargetModel::Stack(s) => s.len(),
        TransferTargetModel::StackList(l) => l.len(),
    }
}

impl TransferTarget {
    /// The length of the stack, or the number of stacks in the list.
    pub fn count(&self) -> (n: usize)
        ensures
            n == spec_tt_count(self@),
    {
        match self {
            TransferTarget::Stack(s) => s.len(),
            TransferTarget::StackList(s) => s.len(),
        }
    }

    /// The single stack, or the `n`-th stack of the list.
    pub fn get_stack(&self, n: usize) -> (r: Stack)
        requires
            self@ is StackList ==> n < self@->StackList_0.len(),
        ensures
            r@ == match self@ {
                TransferTargetModel::Stack(s) => s,
                TransferTargetModel::StackList(l) => l[n as int],
            },
    {
        match self {
            TransferTarget::Stack(s) => crate::cards::clone_cards(s),
            TransferTarget::StackList(s) => crate::cards::clone_cards(&s[n]),
        }
    }
}

/// One round-robin dealing pass: while cards remain to move and the source
/// stack is not empty, pop the source's top card and push it onto the
/// current target stack, advancing (and wrapping) the target index after
/// each push when the target is a stack list.
pub open spec fn spec_transfer_loop(
    f: TransferTargetModel,
    t: TransferTargetModel,
    idx: int,
    n: nat,
) -> (TransferTargetModel, TransferTargetModel)
    decreases n,
{
    if n == 0 {
        (f, t)
    } else {
        match f {
            TransferTargetModel::Stack(s) => {
                if s.len() == 0 {
                    (f, t)
                } else {
                    let card = s.last();
                    let s2 = TransferTargetModel::Stack(s.drop_last());
                    match t {
                        TransferTargetModel::Stack(d) => spec_transfer_loop(
                            s2,
                            TransferTargetModel::Stack(d.push(card)),
                            idx,
                            (n - 1) as nat,
                        ),
                        TransferTargetModel::StackList(ds) => {
                            let ds2 = ds.update(idx, ds[idx].push(card));
                            let idx2 = if idx >= ds.len() - 1 {
                                0int
                            } else {
                                idx + 1
                            };
                            spec_transfer_loop(
                                s2,
                                TransferTargetModel::StackList(ds2),
                                idx2,
                                (n - 1) as nat,
                            )
                        },
                    }
                }
            },
            TransferTargetModel::StackList(_) => (f, t),
        }
    }
}

/// The number of cards a transfer tries to move: one by default, the whole
/// source stack under the `end` count, and that many per target stack when
/// the target is a stack list.
pub open spec fn spec_transfer_total(
    f: TransferTargetModel,
    t: TransferTargetModel,
    c: Option<TransferCount>,
) -> int {
    let base: int = match c {
        None => 1,
        Some(TransferCount::End) => spec_tt_count(f) as int,
    };
    let k: int = match t {
        TransferTargetModel::Stack(_) => 1,
        TransferTargetModel::StackList(l) => l.len() as int,
    };
    base * k
}

/// What `transfer` returns: nothing when either operand is unresolved, and
/// otherwise the pair after the round-robin dealing pass.
pub open spec fn spec_transfer(
    from: Option<TransferTargetModel>,
    to: Option<TransferTargetModel>,
    c: Option<TransferCount>,
) -> Option<(TransferTargetModel, TransferTargetModel)> {
    match (from, to) {
        (Some(f), Some(t)) => Some(
            spec_transfer_loop(f, t, 0, spec_transfer_total(f, t, c) as nat),
        ),
        _ => None,
    }
}

pub open spec fn opt_tt_model(o: Option<TransferTarget>) -> Option<TransferTargetModel> {
    match o {
        Some(t) => Some(t@),
        None => None,
    }
}

pub open spec fn opt_count_model(o: Option<&TransferCount>) -> Option<TransferCount> {
    match o {
        Some(c) => Some(*c),
        None => None,
    }
}

/// Once the requested count is at least the source's size, the source is
/// drained completely and the exact count no longer matters.
proof fn lemma_transfer_loop_saturates(
    f: TransferTargetModel,
    t: TransferTargetModel,
    idx: int,
    n1: nat,
    n2: nat,
)
    requires
        match f {
            TransferTargetModel::Stack(s) => n1 >= s.len() && n2 >= s.len(),
            TransferTargetModel::StackList(_) => true,
        },
    ensures
        spec_transfer_loop(f, t, idx, n1) == spec_transfer_loop(f, t, idx, n2),
    decreases n1 + n2,
{
    match f {
        TransferTargetModel::Stack(s) => {
            if s.len() == 0 {
                if n1 != 0 && n2 != 0 {
                } else if n1 == 0 && n2 != 0 {
                } else if n1 != 0 && n2 == 0 {
                }
            } else {
                let card = s.last();
                let s2 = TransferTargetModel::Stack(s.drop_last());
                match t {
                    TransferTargetModel::Stack(d) => {
                        lemma_transfer_loop_saturates(
                            s2,
                            TransferTargetModel::Stack(d.push(card)),
                            idx,
                            (n1 - 1) as nat,
                            (n2 - 1) as nat,
                        );
                    },
                    TransferTargetModel::StackList(ds) => {
                        let ds2 = ds.update(idx, ds[idx].push(card));
                        let idx2 = if idx >= ds.len() - 1 {
                            0int
                        } else {
                            idx + 1
                        };
                        lemma_transfer_loop_saturates(
                            s2,
                            TransferTargetModel::StackList(ds2),
                            idx2,
                            (n1 - 1) as nat,
                            (n2 - 1) as nat,
                        );
                    },
                }
            }
        },
        TransferTargetModel::StackList(_) => {},
    }
}

/// The combined length of a list of stacks.
pub open spec fn sum_lens(l: Seq<Seq<Card>>) -> int
    decreases l.len(),
{
    if l.len() == 0 {
        0
    } else {
        sum_lens(l.drop_last()) + l.last().len()
    }
}

/// The number of cards a transfer operand holds in all.
pub open spec fn tt_cards(t: TransferTargetModel) -> int {
    match t {
        TransferTargetModel::Stack(s) => s.len() as int,
        TransferTargetModel::StackList(l) => sum_lens(l),
    }
}

proof fn lemma_sum_lens_update(l: Seq<Seq<Card>>, i: int, v: Seq<Card>)
    requires
        0 <= i < l.len(),
    ensures
        sum_lens(l.update(i, v)) == sum_lens(l) - l[i].len() + v.len(),
    decreases l.len(),
{
    let u = l.update(i, v);
    if i == l.len() - 1 {
        assert(u.drop_last() =~= l.drop_last());
        assert(u.last() == v);
    } else {
        assert(u.drop_last() =~= l.drop_last().update(i, v));
        assert(u.last() == l.last());
        lemma_sum_lens_update(l.drop_last(), i, v);
    }
}

proof fn lemma_transfer_loop_conserves(
    f: TransferTargetModel,
    t: TransferTargetModel,
    idx: int,
    n: nat,
)
    requires
        t is StackList && n > 0 && f is Stack && f->Stack_0.len() > 0 ==> 0 <= idx
            < t->StackList_0.len(),
    ensures
        ({
            let (f2, t2) = spec_transfer_loop(f, t, idx, n);
            tt_cards(f2) + tt_cards(t2) == tt_cards(f) + tt_cards(t)
        }),
    decreases n,
{
    if n == 0 {
    } else {
        match f {
            TransferTargetModel::Stack(s) => {
                if s.len() == 0 {
                } else {
                    let card = s.last();
                    let s2 = TransferTargetModel::Stack(s.drop_last());
                    match t {
                        TransferTargetModel::Stack(d) => {
                            lemma_transfer_loop_conserves(
                                s2,
                                TransferTargetModel::Stack(d.push(card)),
                                idx,
                                (n - 1) as nat,
                            );
                        },
                        TransferTargetModel::StackList(ds) => {
                            let ds2 = ds.update(idx, ds[idx].push(card));
                            let idx2 = if idx >= ds.len() - 1 {
                                0int
                            } else {
                                idx + 1
                            };
                            lemma_sum_lens_update(ds, idx, ds[idx].push(card));
                            lemma_transfer_loop_conserves(
                                s2,
                                TransferTargetModel::StackList(ds2),
                                idx2,
                                (n - 1) as nat,
                            );
                        },
                    }
                }
            },
            TransferTargetModel::StackList(_) => {},
        }
    }
}

/// No card is created or destroyed by a transfer: the source and target
/// together hold exactly as many cards afterwards as before.
pub proof fn lemma_transfer_conserves(
    f: TransferTargetModel,
    t: TransferTargetModel,
    c: Option<TransferCount>,
)
    ensures
        ({
            let (f2, t2) = spec_transfer(Some(f), Some(t), c)->Some_0;
            tt_cards(f2) + tt_cards(t2) == tt_cards(f) + tt_cards(t)
        }),
{
    let n = spec_transfer_total(f, t, c) as nat;
    if t is StackList && n > 0 {
        let k = t->StackList_0.len() as int;
        let base: int = match c {
            None => 1,
            Some(TransferCount::End) => spec_tt_count(f) as int,
        };
        assert(base * k == spec_transfer_total(f, t, c));
        if k == 0 {
            assert(base * 0 == 0) by (nonlinear_arith);
            assert(false);
        }
    }
    lemma_transfer_loop_conserves(f, t, 0, n);
}

/// Which target stack each dealt card reaches: the index advances by one
/// per card and wraps at `k`.
pub open spec fn rr_next(idx: int, k: int) -> int {
    if idx >= k - 1 {
        0
    } else {
        idx + 1
    }
}

/// How many of `m` round-robin deals starting at `idx` land on stack `i`.
pub open spec fn rr_count(i: int, idx: int, k: int, m: nat) -> int
    decreases m,
{
    if m == 0 {
        0
    } else {
        (if idx == i {
            1int
        } else {
            0int
        }) + rr_count(i, rr_next(idx, k), k, (m - 1) as nat)
    }
}

/// After a dealing pass of `n` cards from a stack onto a stack list, the
/// source has lost `min(n, len)` cards from its top and each target stack
/// has gained its round-robin share.
pub proof fn lemma_transfer_loop_lens(f: Seq<Card>, ds: Seq<Seq<Card>>, idx: int, n: nat)
    requires
        0 <= idx < ds.len(),
    ensures
        ({
            let (f2, t2) = spec_transfer_loop(
                TransferTargetModel::Stack(f),
                TransferTargetModel::StackList(ds),
                idx,
                n,
            );
            let m: nat = if n <= f.len() {
                n
            } else {
                f.len()
            };
            &&& f2 == TransferTargetModel::Stack(f.take(f.len() - m))
            &&& t2 is StackList
            &&& t2->StackList_0.len() == ds.len()
            &&& forall|i: int|
                0 <= i < ds.len() ==> (#[trigger] t2->StackList_0[i]).len() == ds[i].len()
                    + rr_count(i, idx, ds.len() as int, m)
        }),
    decreases n,
{
    if n == 0 {
        assert(f.take(f.len() - 0) =~= f);
    } else if f.len() == 0 {
        assert(f.take(0) =~= f);
    } else {
        let card = f.last();
        let s2 = f.drop_last();
        let ds2 = ds.update(idx, ds[idx].push(card));
        let idx2 = rr_next(idx, ds.len() as int);
        lemma_transfer_loop_lens(s2, ds2, idx2, (n - 1) as nat);
        let m: nat = if n <= f.len() {
            n
        } else {
            f.len()
        };
        let m2: nat = if (n - 1) as nat <= s2.len() {
            (n - 1) as nat
        } else {
            s2.len()
        };
        assert(m == m2 + 1);
        assert(s2.take(s2.len() - m2) =~= f.take(f.len() - m));
        assert forall|i: int| 0 <= i < ds.len() implies ds2[i].len() + rr_count(
            i,
            idx2,
            ds.len() as int,
            m2,
        ) == ds[i].len() + rr_count(i, idx, ds.len() as int, m) by {
            if i == idx {
                assert(ds2[i] == ds[i].push(card));
            }
        }
    }
}

/// The offset, in dealing order, from the starting index to stack `i`.
pub open spec fn rr_dist(i: int, idx: int, k: int) -> int {
    (i - idx + k) % k
}

proof fn lemma_rr_dist_val(i: int, idx: int, k: int)
    requires
        k >= 1,
        0 <= i < k,
        0 <= idx < k,
    ensures
        rr_dist(i, idx, k) == if i >= idx {
            i - idx
        } else {
            i - idx + k
        },
{
    if i >= idx {
        vstd::arithmetic::div_mod::lemma_fundamental_div_mod_converse(i - idx + k, k, 1, i - idx);
    } else {
        vstd::arithmetic::div_mod::lemma_fundamental_div_mod_converse(
            i - idx + k,
            k,
            0,
            i - idx + k,
        );
    }
}

/// The closed form of the round-robin share: of `m` cards dealt over `k`
/// stacks, the stack at offset `d` receives `(m - 1 - d) / k + 1` when
/// `d < m`, and nothing otherwise.
pub proof fn lemma_rr_count_closed(i: int, idx: int, k: int, m: nat)
    requires
        k >= 1,
        0 <= i < k,
        0 <= idx < k,
    ensures
        rr_count(i, idx, k, m) == ({
            let d = rr_dist(i, idx, k);
            if d < m {
                (m - 1 - d) / k + 1
            } else {
                0
            }
        }),
    decreases m,
{
    lemma_rr_dist_val(i, idx, k);
    let d = rr_dist(i, idx, k);
    if m == 0 {
    } else {
        let nxt = rr_next(idx, k);
        lemma_rr_count_closed(i, nxt, k, (m - 1) as nat);
        lemma_rr_dist_val(i, nxt, k);
        let d2 = rr_dist(i, nxt, k);
        assert(d2 == if d == 0 {
            k - 1
        } else {
            d - 1
        });
        if idx == i {
            // this stack takes the first card; the rest of its share comes a
            // full round later
            if m - 1 > k - 1 {
                let q2 = (m - 1 - k) / k;
                let r2 = (m - 1 - k) % k;
                vstd::arithmetic::div_mod::lemma_fundamental_div_mod(m - 1 - k, k);
                vstd::arithmetic::div_mod::lemma_mod_pos_bound(m - 1 - k, k);
                assert(m - 1 == (q2 + 1) * k + r2) by (nonlinear_arith)
                    requires
                        m - 1 - k == k * q2 + r2,
                ;
                vstd::arithmetic::div_mod::lemma_fundamental_div_mod_converse(
                    m - 1,
                    k,
                    q2 + 1,
                    r2,
                );
            } else {
                vstd::arithmetic::div_mod::lemma_fundamental_div_mod_converse(m - 1, k, 0, m - 1);
            }
        } else {
        }
    }
}

/// Dealing a whole stack (`end` count) to `k` players drains the source
/// completely and distributes the cards as evenly as integer division
/// allows: the hand at offset `i` gains `ceil((L - i) / k)` cards.
pub proof fn lemma_deal_end_drains_evenly(deck: Seq<Card>, hands: Seq<Seq<Card>>)
    requires
        hands.len() >= 1,
    ensures
        ({
            let r = spec_transfer(
                Some(TransferTargetModel::Stack(deck)),
                Some(TransferTargetModel::StackList(hands)),
                Some(TransferCount::End),
            );
            let (f2, t2) = r->Some_0;
            &&& r is Some
            &&& f2 == TransferTargetModel::Stack(Seq::<Card>::empty())
            &&& t2 is StackList
            &&& t2->StackList_0.len() == hands.len()
            &&& forall|i: int|
                0 <= i < hands.len() ==> (#[trigger] t2->StackList_0[i]).len() == hands[i].len() + (
                if i < deck.len() {
                    (deck.len() - 1 - i) / (hands.len() as int) + 1
                } else {
                    0
                })
        }),
{
    let ll = deck.len() as int;
    let k = hands.len() as int;
    let total = spec_transfer_total(
        TransferTargetModel::Stack(deck),
        TransferTargetModel::StackList(hands),
        Some(TransferCount::End),
    );
    assert(total == ll * k);
    assert(ll * k >= ll) by (nonlinear_arith)
        requires
            k >= 1,
            ll >= 0,
    ;
    lemma_transfer_loop_lens(deck, hands, 0, total as nat);
    assert(deck.take(0) =~= Seq::<Card>::empty());
    assert forall|i: int| 0 <= i < k implies #[trigger] rr_count(i, 0, k, ll as nat) == (if i
        < ll {
        (ll - 1 - i) / k + 1
    } else {
        0
    }) by {
        lemma_rr_count_closed(i, 0, k, ll as nat);
        lemma_rr_dist_val(i, 0, k);
    }
}

/// Moves cards from one stack reference to another, one at a time from the
/// source's top, dealing round-robin when the target is a stack list.
/// Returns the pair after the move, or nothing when either side is missing.
pub fn transfer(
    from: Option<TransferTarget>,
    to: Option<TransferTarget>,
    t_count: Option<&TransferCount>,
) -> (r: Option<(TransferTarget, TransferTarget)>)
    ensures
        match spec_transfer(opt_tt_model(from), opt_tt_model(to), opt_count_model(t_count)) {
            Some(pair) => r is Some && (r->Some_0).0@ == pair.0 && (r->Some_0).1@ == pair.1,
            None => r is None,
        },
{
    let ghost from_m = opt_tt_model(from);
    let ghost to_m = opt_tt_model(to);
    let ghost c_m = opt_count_model(t_count);
    let mut f = match from {
        Some(f) => f,
        None => {
            return None;
        },
    };
    let mut t = match to {
        Some(t) => t,
        None => {
            return None;
        },
    };
    let base: usize = match t_count {
        None => 1,
        Some(TransferCount::End) => f.count(),
    };
    let k: usize = match &t {
        TransferTarget::Stack(_) => 1,
        TransferTarget::StackList(s) => s.len(),
    };
    let ghost total_g: int = spec_transfer_total(f@, t@, c_m);
    proof {
        assert(total_g == base * k);
    }
    let total: usize = if k == 0 {
        0
    } else if base > usize::MAX / k {
        proof {
            assert(base * k > usize::MAX) by (nonlinear_arith)
                requires
                    k >= 1,
                    base > usize::MAX / k,
                    usize::MAX / k == usize::MAX as int / k as int,
            ;
            // the requested count can exceed the source only in saturation
            match f@ {
                TransferTargetModel::Stack(s) => {
                    if base as int == s.len() {
                        assert(base * k >= base) by (nonlinear_arith)
                            requires
                                k >= 1,
                                base >= 0,
                        ;
                    } else {
                        // base == 1, so base * k == k <= usize::MAX: contradiction
                        assert(base * k == k) by (nonlinear_arith)
                            requires
                                base == 1,
                        ;
                        assert(false);
                    }
                },
                TransferTargetModel::StackList(_) => {},
            }
        }
        usize::MAX
    } else {
        proof {
            assert(base * k <= usize::MAX) by (nonlinear_arith)
                requires
                    k >= 1,
                    base <= usize::MAX / k,
                    usize::MAX / k == usize::MAX as int / k as int,
            ;
        }
        base * k
    };
    let ghost spec_result = spec_transfer_loop(f@, t@, 0, total as nat);
    proof {
        if total as int != total_g {
            lemma_transfer_loop_saturates(f@, t@, 0, total as nat, total_g as nat);
        }
        assert(spec_transfer(from_m, to_m, c_m) == Some(spec_result));
    }
    let mut remaining: usize = total;
    let mut transfer_index: usize = 0;
    while remaining > 0
        invariant
            spec_transfer_loop(f@, t@, transfer_index as int, remaining as nat) == spec_result,
            spec_transfer(opt_tt_model(from), opt_tt_model(to), opt_count_model(t_count))
                == Some(spec_result),
            t@ is StackList ==> (remaining > 0 ==> transfer_index < t@->StackList_0.len()),
        decreases remaining,
    {
        let card_result = match &mut f {
            TransferTarget::Stack(s) => s.pop(),
            _ => None,
        };
        let card = match card_result {
            Some(c) => c,
            None => {
                // the source ran dry (or was a stack list): the pass is over
                return Some((f, t));
            },
        };
        match &mut t {
            TransferTarget::StackList(s) => {
                let ghost pre = s@;
                s[transfer_index].push(card);
                proof {
                    assert(stacks_view(s@) =~= stacks_view(pre).update(
                        transfer_index as int,
                        stacks_view(pre)[transfer_index as int].push(card),
                    ));
                }
                if transfer_index >= s.len() - 1 {
                    transfer_index = 0;
                } else {
                    transfer_index = transfer_index + 1;
                }
            },
            TransferTarget::Stack(s) => {
                s.push(card);
            },
        }
        remaining = remaining - 1;
    }
    Some((f, t))
}

} // verus!
