//! Identifiers of the role controls: which game and which role a click is for.
use vstd::prelude::*;
use crate::model::{digit_char, digit_str};
use crate::roster::{Role, role_at, role_index};

verus! {

/// `n` in decimal, without leading zeros.
pub open spec fn dec_text(n: nat) -> Seq<char>
    decreases n,
{
    if n < 10 {
        seq![digit_char(n as int)]
    } else {
        dec_text(n / 10).push(digit_char((n % 10) as int))
    }
}

/// Whether `c` is a decimal digit.
pub open spec fn is_digit(c: char) -> bool {
    '0' <= c <= '9'
}

/// The value of a decimal digit.
pub open spec fn digit_value(c: char) -> int {
    c as int - '0' as int
}

/// The value of a string of decimal digits.
pub open spec fn dec_value(s: Seq<char>) -> int
    decreases s.len(),
{
    if s.len() == 0 {
        0
    } else {
        dec_value(s.drop_last()) * 10 + digit_value(s.last())
    }
}

/// The identifier of the control for `role` in game `game`: the role's
/// position, a colon, and the game in decimal.
pub open spec fn control_text(game: u128, role: Role) -> Seq<char> {
    seq![digit_char(role_index(role))] + seq![':'] + dec_text(game as nat)
}

/// What an identifier names, if it is one: a role position below six, a colon,
/// and one or more decimal digits whose value fits in 128 bits.
pub open spec fn read_control(s: Seq<char>) -> Option<(u128, Role)> {
    let rest = s.subrange(2, s.len() as int);
    if s.len() >= 3 && '0' <= s[0] <= '5' && s[1] == ':' && (forall|i: int|
        0 <= i < rest.len() ==> is_digit(#[trigger] rest[i])) && dec_value(rest)
        <= u128::MAX as int {
        Some((dec_value(rest) as u128, role_at(digit_value(s[0]))))
    } else {
        None
    }
}

proof fn lemma_digit_char(d: int)
    requires
        0 <= d < 10,
    ensures
        is_digit(digit_char(d)),
        digit_value(digit_char(d)) == d,
{
}

proof fn lemma_dec_text(n: nat)
    ensures
        dec_text(n).len() >= 1,
        forall|i: int| 0 <= i < dec_text(n).len() ==> is_digit(#[trigger] dec_text(n)[i]),
        dec_value(dec_text(n)) == n,
    decreases n,
{
    if n < 10 {
        lemma_digit_char(n as int);
        assert(dec_text(n).drop_last() =~= Seq::<char>::empty());
        assert(dec_value(dec_text(n)) == dec_value(Seq::<char>::empty()) * 10 + n as int);
    } else {
        lemma_dec_text(n / 10);
        lemma_digit_char((n % 10) as int);
        assert(dec_text(n).drop_last() =~= dec_text(n / 10));
        assert(dec_text(n).last() == digit_char((n % 10) as int));
        assert(dec_value(dec_text(n)) == dec_value(dec_text(n / 10)) * 10 + (n % 10) as int);
        assert((n / 10) * 10 + n % 10 == n);
    }
}

/// Reading the identifier of a control gives back its game and role.
pub proof fn lemma_control_round_trip(game: u128, role: Role)
    ensures
        read_control(control_text(game, role)) == Some((game, role)),
{
    let s = control_text(game, role);
    lemma_dec_text(game as nat);
    lemma_digit_char(role_index(role));
    assert(s.subrange(2, s.len() as int) =~= dec_text(game as nat));
}

/// The digits of a sequence of digit values.
pub open spec fn digit_chars(d: Seq<u32>) -> Seq<char> {
    d.map_values(|x: u32| digit_char(x as int))
}

/// The identifier of the control for `role` in game `game`.
pub fn control_id(game: u128, role: Role) -> (r: String)
    ensures
        r@ == control_text(game, role),
{
    let mut digs: Vec<u32> = Vec::new();
    let mut m: u128 = game;
    while m >= 10
        invariant
            dec_text(game as nat) == dec_text(m as nat) + digit_chars(digs@),
            forall|i: int| 0 <= i < digs@.len() ==> (#[trigger] digs@[i]) < 10,
        decreases m,
    {
        let ghost before = digs@;
        digs.insert(0, (m % 10) as u32);
        assert(digit_chars(digs@) =~= seq![digit_char((m % 10) as int)] + digit_chars(before));
        assert(dec_text(m as nat) == dec_text((m / 10) as nat).push(digit_char((m % 10) as int)));
        assert(dec_text(m as nat) + digit_chars(before) =~= dec_text((m / 10) as nat) + digit_chars(
            digs@,
        ));
        m = m / 10;
    }
    let mut out = String::new();
    out.append(digit_str(role.index() as u32));
    proof {
        reveal_strlit(":");
    }
    out.append(":");
    out.append(digit_str(m as u32));
    assert(out@ =~= seq![digit_char(role_index(role))] + seq![':'] + dec_text(m as nat) + digit_chars(
        digs@.subrange(0, 0),
    ));
    let mut k: usize = 0;
    while k < digs.len()
        invariant
            k <= digs@.len(),
            forall|i: int| 0 <= i < digs@.len() ==> (#[trigger] digs@[i]) < 10,
            out@ == seq![digit_char(role_index(role))] + seq![':'] + dec_text(m as nat) + digit_chars(
                digs@.subrange(0, k as int),
            ),
        decreases digs@.len() - k,
    {
        out.append(digit_str(digs[k]));
        assert(digit_chars(digs@.subrange(0, k + 1)) =~= digit_chars(digs@.subrange(0, k as int)).push(
            digit_char(digs@[k as int] as int),
        ));
        assert(out@ =~= seq![digit_char(role_index(role))] + seq![':'] + dec_text(m as nat)
            + digit_chars(digs@.subrange(0, k + 1)));
        k = k + 1;
    }
    assert(digs@.subrange(0, digs@.len() as int) =~= digs@);
    assert(out@ =~= control_text(game, role));
    out
}

/// A digit string's value is at least that of any of its prefixes.
proof fn lemma_dec_value_prefix(t: Seq<char>, k: int)
    requires
        0 <= k <= t.len(),
        forall|i: int| 0 <= i < t.len() ==> is_digit(#[trigger] t[i]),
    ensures
        dec_value(t) >= dec_value(t.subrange(0, k)) >= 0,
    decreases t.len(),
{
    if t.len() > 0 {
        let u = t.drop_last();
        assert forall|i: int| 0 <= i < u.len() implies is_digit(#[trigger] u[i]) by {
            assert(u[i] == t[i]);
        }
        if k == t.len() {
            assert(t.subrange(0, k) =~= t);
            lemma_dec_value_prefix(u, 0);
        } else {
            lemma_dec_value_prefix(u, k);
            assert(u.subrange(0, k) =~= t.subrange(0, k));
        }
    } else {
        assert(t.subrange(0, k) =~= t);
    }
}

/// Reads the game and role that a control's identifier names.
pub fn read_control_id(s: &str) -> (r: Option<(u128, Role)>)
    ensures
        r == read_control(s@),
{
    let n = s.unicode_len();
    if n < 3 {
        return None;
    }
    let c0 = s.get_char(0);
    if !('0' <= c0 && c0 <= '5') || s.get_char(1) != ':' {
        return None;
    }
    let ghost rest = s@.subrange(2, n as int);
    let mut acc: u128 = 0;
    let mut i: usize = 2;
    assert(s@.subrange(2, 2) =~= Seq::<char>::empty());
    while i < n
        invariant
            n == s@.len(),
            rest == s@.subrange(2, n as int),
            2 <= i <= n,
            forall|j: int| 2 <= j < i ==> is_digit(#[trigger] s@[j]),
            acc as int == dec_value(s@.subrange(2, i as int)),
        decreases n - i,
    {
        let c = s.get_char(i);
        if !('0' <= c && c <= '9') {
            assert(!is_digit(rest[i - 2]));
            return None;
        }
        let d = (c as u32 - '0' as u32) as u128;
        assert(s@.subrange(2, i + 1).drop_last() =~= s@.subrange(2, i as int));
        assert(dec_value(s@.subrange(2, i + 1)) == acc as int * 10 + d as int);
        if acc > (u128::MAX - d) / 10 {
            proof {
                assert(acc as int * 10 + d as int > u128::MAX as int) by (nonlinear_arith)
                    requires
                        acc as int > (u128::MAX as int - d as int) / 10,
                        0 <= d < 10,
                ;
                assert forall|j: int| 0 <= j < rest.len() && j < i + 1 - 2 implies is_digit(
                    #[trigger] rest[j],
                ) by {
                    assert(rest[j] == s@[j + 2]);
                }
                if forall|j: int| 0 <= j < rest.len() ==> is_digit(#[trigger] rest[j]) {
                    lemma_dec_value_prefix(rest, i + 1 - 2);
                    assert(rest.subrange(0, i + 1 - 2) =~= s@.subrange(2, i + 1));
                }
            }
            return None;
        }
        proof {
            assert(acc as int * 10 + d as int <= u128::MAX as int) by (nonlinear_arith)
                requires
                    acc as int <= (u128::MAX as int - d as int) / 10,
                    0 <= d < 10,
            ;
        }
        acc = acc * 10 + d;
        i = i + 1;
    }
    assert(s@.subrange(2, n as int) =~= rest);
    assert forall|j: int| 0 <= j < rest.len() implies is_digit(#[trigger] rest[j]) by {
        assert(rest[j] == s@[j + 2]);
    }
    let k = (c0 as u32 - '0' as u32) as usize;
    Some((acc, Role::from_index(k)))
}

} // verus!
