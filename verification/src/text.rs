use vstd::prelude::*;
use vstd::string::StrSliceExecFns;

verus! {

/// Relies on std's String::push: appends one character at the end.
pub assume_specification[ std::string::String::push ](s: &mut String, c: char)
    ensures
        final(s)@ == old(s)@.push(c),
;

/// Character-by-character string equality.
pub fn str_eq(a: &str, b: &str) -> (r: bool)
    ensures
        r == (a@ == b@),
{
    let alen = a.unicode_len();
    let blen = b.unicode_len();
    if alen != blen {
        return false;
    }
    let mut i: usize = 0;
    while i < alen
        invariant
            alen == a@.len(),
            blen == b@.len(),
            alen == blen,
            i <= alen,
            forall|k: int| 0 <= k < i ==> a@[k] == b@[k],
        decreases alen - i,
    {
        if a.get_char(i) != b.get_char(i) {
            return false;
        }
        i = i + 1;
    }
    proof {
        assert(a@ =~= b@);
    }
    true
}

/// Index of the first occurrence of either separator character, if any.
pub open spec fn spec_sep_idx(s: Seq<char>, a: char, b: char) -> Option<int>
    decreases s.len(),
{
    if s.len() == 0 {
        None
    } else if s[0] == a || s[0] == b {
        Some(0)
    } else {
        match spec_sep_idx(s.drop_first(), a, b) {
            Some(i) => Some(i + 1),
            None => None,
        }
    }
}

pub proof fn lemma_sep_idx(s: Seq<char>, a: char, b: char)
    ensures
        match spec_sep_idx(s, a, b) {
            Some(i) => 0 <= i < s.len() && (s[i] == a || s[i] == b) && forall|k: int|
                0 <= k < i ==> s[k] != a && s[k] != b,
            None => forall|k: int| 0 <= k < s.len() ==> s[k] != a && s[k] != b,
        },
    decreases s.len(),
{
    if s.len() == 0 {
    } else if s[0] == a || s[0] == b {
    } else {
        let t = s.drop_first();
        lemma_sep_idx(t, a, b);
        match spec_sep_idx(t, a, b) {
            Some(i) => {
                assert(s[i + 1] == t[i]);
                assert forall|k: int| 0 <= k < i + 1 implies s[k] != a && s[k] != b by {
                    if k > 0 {
                        assert(s[k] == t[k - 1]);
                    }
                }
            },
            None => {
                assert forall|k: int| 0 <= k < s.len() implies s[k] != a && s[k] != b by {
                    if k > 0 {
                        assert(s[k] == t[k - 1]);
                    }
                }
            },
        }
    }
}

/// The text before the first separator, or the whole text when none occurs.
pub open spec fn spec_root_of(s: Seq<char>, a: char, b: char) -> Seq<char> {
    match spec_sep_idx(s, a, b) {
        Some(i) => s.take(i),
        None => s,
    }
}

/// The text between the first separator and the second (or the end),
/// when a first separator occurs at all.
pub open spec fn spec_attr_of(s: Seq<char>, a: char, b: char) -> Option<Seq<char>> {
    match spec_sep_idx(s, a, b) {
        Some(i) => {
            let rest = s.skip(i + 1);
            match spec_sep_idx(rest, a, b) {
                Some(j) => Some(rest.take(j)),
                None => Some(rest),
            }
        },
        None => None,
    }
}

fn first_sep(s: &str, a: char, b: char) -> (r: Option<usize>)
    ensures
        match r {
            Some(i) => spec_sep_idx(s@, a, b) == Some(i as int),
            None => spec_sep_idx(s@, a, b) is None,
        },
{
    let len = s.unicode_len();
    let mut i: usize = 0;
    while i < len
        invariant
            len == s@.len(),
            i <= len,
            forall|k: int| 0 <= k < i ==> s@[k] != a && s@[k] != b,
        decreases len - i,
    {
        let c = s.get_char(i);
        if c == a || c == b {
            proof {
                lemma_sep_idx(s@, a, b);
                match spec_sep_idx(s@, a, b) {
                    Some(j) => {
                        assert(j <= i as int);
                        assert(j >= i as int);
                    },
                    None => {
                        assert(false);
                    },
                }
            }
            return Some(i);
        }
        i = i + 1;
    }
    proof {
        lemma_sep_idx(s@, a, b);
        if spec_sep_idx(s@, a, b) is Some {
            let j = spec_sep_idx(s@, a, b)->Some_0;
            assert(s@[j] == a || s@[j] == b);
        }
    }
    None
}

/// The component of a symbol before the first separator.
pub fn root_of(s: &str, a: char, b: char) -> (r: String)
    ensures
        r@ == spec_root_of(s@, a, b),
{
    match first_sep(s, a, b) {
        Some(i) => {
            proof {
                lemma_sep_idx(s@, a, b);
            }
            let sub = s.substring_char(0, i);
            proof {
                assert(sub@ =~= s@.take(i as int));
            }
            String::from_str(sub)
        },
        None => String::from_str(s),
    }
}

/// The component of a symbol between the first separator and the second.
pub fn attr_of(s: &str, a: char, b: char) -> (r: Option<String>)
    ensures
        match r {
            Some(t) => spec_attr_of(s@, a, b) == Some(t@),
            None => spec_attr_of(s@, a, b) is None,
        },
{
    let len = s.unicode_len();
    match first_sep(s, a, b) {
        Some(i) => {
            proof {
                lemma_sep_idx(s@, a, b);
            }
            let rest = s.substring_char(i + 1, len);
            proof {
                assert(rest@ =~= s@.skip(i as int + 1));
            }
            match first_sep(rest, a, b) {
                Some(j) => {
                    proof {
                        lemma_sep_idx(rest@, a, b);
                    }
                    let sub = rest.substring_char(0, j);
                    proof {
                        assert(sub@ =~= rest@.take(j as int));
                    }
                    Some(String::from_str(sub))
                },
                None => Some(String::from_str(rest)),
            }
        },
        None => None,
    }
}

pub open spec fn spec_digit_char(d: int) -> char {
    if d == 0 {
        '0'
    } else if d == 1 {
        '1'
    } else if d == 2 {
        '2'
    } else if d == 3 {
        '3'
    } else if d == 4 {
        '4'
    } else if d == 5 {
        '5'
    } else if d == 6 {
        '6'
    } else if d == 7 {
        '7'
    } else if d == 8 {
        '8'
    } else {
        '9'
    }
}

/// A value forced into the range of a machine integer.
pub open spec fn spec_clamp_i64(v: int) -> int {
    if v > i64::MAX as int {
        i64::MAX as int
    } else if v < i64::MIN as int {
        i64::MIN as int
    } else {
        v
    }
}

/// The decimal rendering of a non-negative integer.
pub open spec fn spec_dec(n: int) -> Seq<char>
    decreases n,
{
    if n < 10 {
        seq![spec_digit_char(n)]
    } else {
        spec_dec(n / 10).push(spec_digit_char(n % 10))
    }
}

fn digit_char_of(d: u64) -> (c: char)
    requires
        d < 10,
    ensures
        c == spec_digit_char(d as int),
{
    if d == 0 {
        '0'
    } else if d == 1 {
        '1'
    } else if d == 2 {
        '2'
    } else if d == 3 {
        '3'
    } else if d == 4 {
        '4'
    } else if d == 5 {
        '5'
    } else if d == 6 {
        '6'
    } else if d == 7 {
        '7'
    } else if d == 8 {
        '8'
    } else {
        '9'
    }
}

/// Renders an unsigned integer in decimal.
pub fn u64_dec(n: u64) -> (r: String)
    ensures
        r@ == spec_dec(n as int),
    decreases n,
{
    if n < 10 {
        let mut s = String::new();
        s.push(digit_char_of(n));
        proof {
            assert(s@ =~= seq![spec_digit_char(n as int)]);
        }
        s
    } else {
        let mut s = u64_dec(n / 10);
        s.push(digit_char_of(n % 10));
        s
    }
}

pub fn usize_dec(n: usize) -> (r: String)
    ensures
        r@ == spec_dec(n as int),
{
    u64_dec(n as u64)
}

/// The decimal rendering of a signed integer: a minus sign, then digits.
pub open spec fn spec_dec_signed(n: int) -> Seq<char> {
    if n < 0 {
        "-"@ + spec_dec(-n)
    } else {
        spec_dec(n)
    }
}

/// Renders a signed integer in decimal.
pub fn i64_dec(n: i64) -> (r: String)
    ensures
        r@ == spec_dec_signed(n as int),
{
    if n >= 0 {
        u64_dec(n as u64)
    } else {
        let m: u64 = ((-(n + 1)) as u64) + 1;
        proof {
            assert(m as int == -(n as int));
        }
        let mut s = String::from_str("-");
        let digits = u64_dec(m);
        s.append(digits.as_str());
        s
    }
}

/// The value of a run of decimal digits, read left to right from `i`
/// with `acc` already accumulated; `None` when a non-digit occurs.
pub open spec fn spec_digits_from(s: Seq<char>, i: int, acc: int) -> Option<int>
    decreases s.len() - i,
{
    if i < 0 || i >= s.len() {
        Some(acc)
    } else {
        let c = s[i];
        if '0' <= c && c <= '9' {
            spec_digits_from(s, i + 1, acc * 10 + (c as int - '0' as int))
        } else {
            None
        }
    }
}

/// How `str::parse::<usize>` reads a string: an optional leading plus sign,
/// then one or more decimal digits whose value fits in usize.
pub open spec fn spec_parse_usize(s: Seq<char>) -> Option<int> {
    let body = if s.len() > 0 && s[0] == '+' {
        s.drop_first()
    } else {
        s
    };
    if body.len() == 0 {
        None
    } else {
        match spec_digits_from(body, 0, 0) {
            Some(v) => if v <= usize::MAX as int {
                Some(v)
            } else {
                None
            },
            None => None,
        }
    }
}

fn digit_value(c: char) -> (r: Option<u64>)
    ensures
        match r {
            Some(d) => '0' <= c && c <= '9' && d as int == c as int - '0' as int && d < 10,
            None => !('0' <= c && c <= '9'),
        },
{
    if c >= '0' && c <= '9' {
        Some((c as u64) - ('0' as u64))
    } else {
        None
    }
}

/// Reads a decimal usize as `str::parse` does.
pub fn parse_usize(s: &str) -> (r: Option<usize>)
    ensures
        match r {
            Some(v) => spec_parse_usize(s@) == Some(v as int),
            None => spec_parse_usize(s@) is None,
        },
{
    let len = s.unicode_len();
    let mut i: usize = 0;
    if len > 0 && s.get_char(0) == '+' {
        i = 1;
    }
    let ghost body = if s@.len() > 0 && s@[0] == '+' {
        s@.drop_first()
    } else {
        s@
    };
    proof {
        assert(body.len() == s@.len() - i);
        assert(forall|k: int| 0 <= k < body.len() ==> body[k] == s@[k + i]);
    }
    if i >= len {
        return None;
    }
    let mut acc: usize = 0;
    let ghost mut acc_g: int = 0;
    let mut over: bool = false;
    let start = i;
    while i < len
        invariant
            len == s@.len(),
            start <= i <= len,
            start < len,
            start as int == if s@.len() > 0 && s@[0] == '+' {
                1int
            } else {
                0int
            },
            body.len() == s@.len() - start,
            forall|k: int| 0 <= k < body.len() ==> body[k] == s@[k + start],
            spec_digits_from(body, 0, 0) == spec_digits_from(body, i - start, acc_g),
            acc_g >= 0,
            if over {
                acc_g > usize::MAX as int
            } else {
                acc as int == acc_g
            },
        decreases len - i,
    {
        let c = s.get_char(i);
        proof {
            assert(body[i - start] == c);
        }
        match digit_value(c) {
            Some(d) => {
                let du: usize = d as usize;
                proof {
                    let new_acc_g = acc_g * 10 + (c as int - '0' as int);
                    if acc_g > usize::MAX as int {
                        assert(new_acc_g > usize::MAX as int) by (nonlinear_arith)
                            requires
                                acc_g > usize::MAX as int >= 0,
                                new_acc_g == acc_g * 10 + (c as int - '0' as int),
                                c as int - '0' as int >= 0,
                        ;
                    }
                }
                if over {
                    proof {
                        acc_g = acc_g * 10 + (c as int - '0' as int);
                    }
                } else if acc > (usize::MAX - du) / 10 {
                    proof {
                        let new_acc_g = acc_g * 10 + (c as int - '0' as int);
                        assert(new_acc_g > usize::MAX as int) by (nonlinear_arith)
                            requires
                                acc_g == acc as int,
                                acc as int > (usize::MAX as int - d as int) / 10,
                                d < 10,
                                d as int == c as int - '0' as int,
                                new_acc_g == acc_g * 10 + (c as int - '0' as int),
                        ;
                        acc_g = new_acc_g;
                    }
                    over = true;
                } else {
                    proof {
                        assert(acc as int * 10 + d as int <= usize::MAX as int) by (nonlinear_arith)
                            requires
                                acc as int <= (usize::MAX as int - d as int) / 10,
                                0 <= d < 10,
                        ;
                        acc_g = acc_g * 10 + (c as int - '0' as int);
                    }
                    acc = acc * 10 + du;
                }
            },
            None => {
                proof {
                    assert(spec_digits_from(body, i - start, acc_g) is None);
                    assert(body =~= (if s@.len() > 0 && s@[0] == '+' {
                        s@.drop_first()
                    } else {
                        s@
                    }));
                    assert(spec_parse_usize(s@) is None);
                }
                return None;
            },
        }
        i = i + 1;
    }
    proof {
        assert(spec_digits_from(body, i - start, acc_g) == Some(acc_g));
        assert(body =~= (if s@.len() > 0 && s@[0] == '+' {
            s@.drop_first()
        } else {
            s@
        }));
    }
    if over {
        None
    } else {
        Some(acc)
    }
}

pub open spec fn views_of(v: Seq<String>) -> Seq<Seq<char>> {
    v.map_values(|s: String| s@)
}

/// The items joined with the separator between each adjacent pair.
pub open spec fn spec_join(items: Seq<Seq<char>>, sep: Seq<char>) -> Seq<char>
    decreases items.len(),
{
    if items.len() == 0 {
        Seq::empty()
    } else if items.len() == 1 {
        items[0]
    } else {
        items[0] + sep + spec_join(items.drop_first(), sep)
    }
}

fn join_from(items: &Vec<String>, sep: &str, i: usize) -> (r: String)
    requires
        i <= items@.len(),
    ensures
        r@ == spec_join(views_of(items@).skip(i as int), sep@),
    decreases items@.len() - i,
{
    let ghost tail = views_of(items@).skip(i as int);
    if i >= items.len() {
        let out = String::new();
        proof {
            assert(tail.len() == 0);
            assert(out@ =~= spec_join(tail, sep@));
        }
        out
    } else if i == items.len() - 1 {
        proof {
            assert(tail.len() == 1);
            assert(tail[0] == items@[i as int]@);
        }
        String::from_str(items[i].as_str())
    } else {
        let mut out = String::from_str(items[i].as_str());
        out.append(sep);
        let rest = join_from(items, sep, i + 1);
        out.append(rest.as_str());
        proof {
            assert(tail.drop_first() =~= views_of(items@).skip(i as int + 1));
            assert(tail[0] == items@[i as int]@);
        }
        out
    }
}

/// Joins the items with the separator between each adjacent pair.
pub fn join_text(items: &Vec<String>, sep: &str) -> (r: String)
    ensures
        r@ == spec_join(views_of(items@), sep@),
{
    let r = join_from(items, sep, 0);
    proof {
        assert(views_of(items@).skip(0) =~= views_of(items@));
    }
    r
}

} // verus!
