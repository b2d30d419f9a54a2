//! Properties that relate encoding and decoding.
use crate::alphabet::{alphabet, lemma_alphabet_inverse, symbol_value};
use crate::codec::{
    all_symbols, decode_groups, decoded, encoded, encoded_len, pair_symbols, symbol_values,
    Base45DecodeError,
};
use vstd::prelude::*;

verus! {

/// The bytes of `b` as natural numbers.
pub open spec fn byte_nats(b: Seq<u8>) -> Seq<nat> {
    b.map_values(|x: u8| x as nat)
}

/// Encoding `n` bytes yields `3 * (n / 2)` symbols, plus two when `n` is odd.
pub proof fn lemma_encoded_len(b: Seq<u8>)
    ensures
        encoded(b).len() == encoded_len(b.len()),
    decreases b.len(),
{
    if b.len() >= 2 {
        lemma_encoded_len(b.subrange(2, b.len() as int));
    }
}

/// The three base-45 digits of a pair value give that value back.
proof fn lemma_pair_digits(n: nat)
    requires
        n <= 0xFFFF,
    ensures
        n / 45 / 45 < 45,
        n % 45 + 45 * (n / 45 % 45) + 45 * 45 * (n / 45 / 45) == n,
{
    let q = n / 45;
    let (c, d, e) = (n % 45, q % 45, q / 45);
    assert(n == 45 * q + c);
    assert(q == 45 * e + d);
    assert(c + 45 * d + 45 * 45 * e == n) by (nonlinear_arith)
        requires
            n == 45 * q + c,
            q == 45 * e + d,
    ;
}

/// Every symbol of an encoding is in the alphabet, and the values of those
/// symbols, taken by groups, give back the bytes.
proof fn lemma_groups_of_encoded(b: Seq<u8>)
    ensures
        all_symbols(encoded(b)),
        decode_groups(symbol_values(encoded(b))) == Some(byte_nats(b)),
    decreases b.len(),
{
    lemma_alphabet_inverse();
    let t = encoded(b);
    let v = symbol_values(t);
    if b.len() == 0 {
        assert(byte_nats(b) =~= seq![]);
    } else if b.len() == 1 {
        let x = b[0] as nat;
        assert(v[0] == x % 45 && v[1] == x / 45);
        assert(byte_nats(b) =~= seq![x % 45 + 45 * (x / 45)]);
    } else {
        let rest = b.subrange(2, b.len() as int);
        let n = b[0] as nat * 256 + b[1] as nat;
        lemma_groups_of_encoded(rest);
        lemma_pair_digits(n);
        assert(t == pair_symbols(n) + encoded(rest));
        assert(v[0] == n % 45 && v[1] == n / 45 % 45 && v[2] == n / 45 / 45);
        assert(v.subrange(3, v.len() as int) =~= symbol_values(encoded(rest)));
        assert(n / 256 == b[0] as nat && n % 256 == b[1] as nat);
        assert(byte_nats(b) =~= seq![n / 256, n % 256] + byte_nats(rest));
    }
}

/// Decoding the encoding of any byte sequence gives that byte sequence back.
pub proof fn lemma_round_trip(b: Seq<u8>)
    ensures
        decoded(encoded(b)) == Ok::<Seq<nat>, Base45DecodeError>(byte_nats(b)),
{
    lemma_groups_of_encoded(b);
    lemma_encoded_len(b);
}

/// Encoding is a function of the bytes alone: equal inputs give equal texts.
pub proof fn lemma_encode_deterministic(a: Seq<u8>, b: Seq<u8>)
    requires
        a == b,
    ensures
        encoded(a) == encoded(b),
{
}

/// A text whose number of symbols leaves a remainder of one when divided by
/// three is rejected.
pub proof fn lemma_rejects_bad_length(t: Seq<char>)
    requires
        t.len() % 3 == 1,
    ensures
        decoded(t) is Err,
{
}

/// A text holding a character outside the alphabet is rejected as such.
pub proof fn lemma_rejects_foreign_symbol(t: Seq<char>, i: int)
    requires
        0 <= i < t.len(),
        !alphabet().contains(t[i]),
    ensures
        decoded(t) == Err::<Seq<nat>, Base45DecodeError>(Base45DecodeError::InvalidSymbol),
{
    lemma_alphabet_inverse();
    if symbol_value(t[i]) is Some {
        assert(alphabet()[symbol_value(t[i])->0 as int] == t[i]);
    }
}

} // verus!
