//! Gossip topics of the Tendermint finality gadget: the hash of a short text
//! naming a round of a set, or the global messages of a set.
use crate::primitives::{blake2_256_of, hash_raw, H256};
use vstd::prelude::*;

verus! {

/// The decimal digits of `n`, most significant first, as ASCII bytes.
pub open spec fn decimal(n: nat) -> Seq<u8>
    decreases n,
{
    if n < 10 {
        seq![(48 + n) as u8]
    } else {
        decimal(n / 10).push((48 + n % 10) as u8)
    }
}

/// Appends the decimal digits of `n` (as `format!("{}", n)` writes them).
pub fn push_decimal(out: &mut Vec<u8>, n: u64)
    ensures
        final(out)@ == old(out)@ + decimal(n as nat),
    decreases n,
{
    if n >= 10 {
        push_decimal(out, n / 10);
    }
    let digit: u8 = (n % 10) as u8;
    out.push(48 + digit);
    assert(final(out)@ =~= old(out)@ + decimal(n as nat)) by {
        if n >= 10 {
            assert(decimal(n as nat) == decimal((n / 10) as nat).push((48 + n % 10) as u8));
        }
    }
}

/// The text naming round `round` of set `set_id`: `"<set_id>-<round>"`.
pub open spec fn round_topic_text(round: u64, set_id: u64) -> Seq<u8> {
    decimal(set_id as nat) + seq![45u8] + decimal(round as nat)
}

/// The text naming the global messages of set `set_id`: `"<set_id>-GLOBAL"`.
pub open spec fn global_topic_text(set_id: u64) -> Seq<u8> {
    decimal(set_id as nat) + seq![45u8, 71u8, 76u8, 79u8, 66u8, 65u8, 76u8]
}

/// The topic of round `round` of set `set_id`: the hash of `"<set_id>-<round>"`.
pub fn round_topic(round: u64, set_id: u64) -> (r: H256)
    ensures
        r@ == blake2_256_of(round_topic_text(round, set_id)),
{
    let mut text: Vec<u8> = Vec::new();
    push_decimal(&mut text, set_id);
    text.push(45);
    push_decimal(&mut text, round);
    assert(text@ =~= round_topic_text(round, set_id));
    hash_raw(text.as_slice())
}

/// The topic of the global messages of set `set_id`: the hash of
/// `"<set_id>-GLOBAL"`.
pub fn global_topic(set_id: u64) -> (r: H256)
    ensures
        r@ == blake2_256_of(global_topic_text(set_id)),
{
    let mut text: Vec<u8> = Vec::new();
    push_decimal(&mut text, set_id);
    text.push(45);
    text.push(71);
    text.push(76);
    text.push(79);
    text.push(66);
    text.push(65);
    text.push(76);
    assert(text@ =~= global_topic_text(set_id));
    hash_raw(text.as_slice())
}

/// Decimal texts name numbers uniquely: different numbers have different
/// texts, and no text is a proper prefix of a digit-only extension that is
/// itself a text followed by `-`. In particular a round topic text and a
/// global topic text never coincide, and round topic texts of different
/// rounds or sets differ.
pub proof fn lemma_topic_texts_distinct(r1: u64, s1: u64, r2: u64, s2: u64)
    ensures
        round_topic_text(r1, s1) == round_topic_text(r2, s2) ==> r1 == r2 && s1 == s2,
        round_topic_text(r1, s1) != global_topic_text(s2),
        global_topic_text(s1) == global_topic_text(s2) ==> s1 == s2,
{
    lemma_decimal_digits(s1 as nat);
    lemma_decimal_digits(s2 as nat);
    lemma_decimal_digits(r1 as nat);
    lemma_decimal_digits(r2 as nat);
    let a = round_topic_text(r1, s1);
    let b = round_topic_text(r2, s2);
    let d1 = decimal(s1 as nat);
    let d2 = decimal(s2 as nat);
    if a == b {
        lemma_dash_position(d1, decimal(r1 as nat), d2, decimal(r2 as nat));
        assert(d1 == d2);
        lemma_decimal_injective(s1 as nat, s2 as nat);
        assert(a.subrange(d1.len() as int + 1, a.len() as int) =~= decimal(r1 as nat));
        assert(b.subrange(d2.len() as int + 1, b.len() as int) =~= decimal(r2 as nat));
        lemma_decimal_injective(r1 as nat, r2 as nat);
    }
    let g = global_topic_text(s2);
    let tail = seq![71u8, 76u8, 79u8, 66u8, 65u8, 76u8];
    assert(g =~= d2 + seq![45u8] + tail);
    if a == g {
        lemma_dash_position(d1, decimal(r1 as nat), d2, tail);
        assert(d1 == d2);
        assert(a[d1.len() as int + 1] == decimal(r1 as nat)[0]);
        assert(g[d2.len() as int + 1] == 71u8);
    }
    let g1 = global_topic_text(s1);
    if g1 == g {
        assert(g1 =~= d1 + seq![45u8] + tail);
        lemma_dash_position(d1, tail, d2, tail);
        lemma_decimal_injective(s1 as nat, s2 as nat);
    }
}

/// Every byte of a decimal text is an ASCII digit, and the text is not
/// empty.
pub proof fn lemma_decimal_digits(n: nat)
    ensures
        decimal(n).len() >= 1,
        forall|i: int| 0 <= i < decimal(n).len() ==> 48 <= #[trigger] decimal(n)[i] <= 57,
    decreases n,
{
    if n >= 10 {
        lemma_decimal_digits(n / 10);
    }
}

/// Different numbers have different decimal texts.
pub proof fn lemma_decimal_injective(a: nat, b: nat)
    requires
        decimal(a) == decimal(b),
    ensures
        a == b,
    decreases a,
{
    lemma_decimal_digits(a);
    lemma_decimal_digits(b);
    if a < 10 && b < 10 {
        assert(decimal(a)[0] == decimal(b)[0]);
        assert(decimal(a)[0] == (48 + a) as u8);
        assert(decimal(b)[0] == (48 + b) as u8);
    } else if a >= 10 && b >= 10 {
        let da = decimal(a);
        let db = decimal(b);
        assert(da.drop_last() =~= decimal(a / 10));
        assert(db.drop_last() =~= decimal(b / 10));
        lemma_decimal_injective(a / 10, b / 10);
        assert(da.last() == db.last());
        assert(a % 10 == b % 10);
        assert(a == 10 * (a / 10) + a % 10) by (nonlinear_arith);
        assert(b == 10 * (b / 10) + b % 10) by (nonlinear_arith);
    } else if a < 10 {
        lemma_decimal_digits(b / 10);
        assert(decimal(b).len() >= 2);
    } else {
        lemma_decimal_digits(a / 10);
        assert(decimal(a).len() >= 2);
    }
}

/// Splitting digit-only texts at a `-`: if `x ++ "-" ++ y == u ++ "-" ++ v`
/// where `x` and `u` are digit-only, then `x == u`.
proof fn lemma_dash_position(x: Seq<u8>, y: Seq<u8>, u: Seq<u8>, v: Seq<u8>)
    requires
        forall|i: int| 0 <= i < x.len() ==> 48 <= #[trigger] x[i] <= 57,
        forall|i: int| 0 <= i < u.len() ==> 48 <= #[trigger] u[i] <= 57,
        x + seq![45u8] + y == u + seq![45u8] + v,
    ensures
        x == u,
{
    let s = x + seq![45u8] + y;
    let t = u + seq![45u8] + v;
    if x.len() < u.len() {
        assert(s[x.len() as int] == 45u8);
        assert(t[x.len() as int] == u[x.len() as int]);
    } else if x.len() > u.len() {
        assert(t[u.len() as int] == 45u8);
        assert(s[u.len() as int] == x[u.len() as int]);
    } else {
        assert forall|i: int| 0 <= i < x.len() implies x[i] == u[i] by {
            assert(s[i] == x[i]);
            assert(t[i] == u[i]);
        }
        assert(x =~= u);
    }
}

} // verus!
