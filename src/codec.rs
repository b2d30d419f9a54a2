//! Encoding bytes as Base45 text and decoding such text back to bytes.
use crate::alphabet::{alphabet, symbol_of, symbol_value, value_of};
use crate::laws::lemma_encoded_len;
use vstd::prelude::*;
use vstd::utf8::is_ascii_chars;

verus! {

/// Why a text is not Base45.
#[derive(Debug, Clone, Copy, PartialEq, Eq, Structural)]
pub enum Base45DecodeError {
    /// A character is outside the 45-symbol alphabet.
    InvalidSymbol,
    /// The number of symbols leaves a remainder of one when divided by three.
    InvalidLength,
    /// A group of three symbols stands for a value above `0xFFFF`.
    ValueOverflow,
}

/// The three symbols for the value `n` of a byte pair: its base-45 digits,
/// least significant first.
pub open spec fn pair_symbols(n: nat) -> Seq<char> {
    let n1 = n / 45;
    seq![alphabet()[(n % 45) as int], alphabet()[(n1 % 45) as int], alphabet()[(n1 / 45) as int]]
}

/// The two symbols for a trailing single byte `b`: its base-45 digits, least
/// significant first.
pub open spec fn byte_symbols(b: nat) -> Seq<char> {
    seq![alphabet()[(b % 45) as int], alphabet()[(b / 45) as int]]
}

/// The Base45 text of `b`: each pair of bytes, read as a big-endian 16-bit value,
/// gives three symbols; a last lone byte gives two.
pub open spec fn encoded(b: Seq<u8>) -> Seq<char>
    decreases b.len(),
{
    if b.len() == 0 {
        seq![]
    } else if b.len() == 1 {
        byte_symbols(b[0] as nat)
    } else {
        pair_symbols(b[0] as nat * 256 + b[1] as nat) + encoded(b.subrange(2, b.len() as int))
    }
}

/// The length of the text that encodes `n` bytes.
pub open spec fn encoded_len(n: nat) -> nat {
    3 * (n / 2) + 2 * (n % 2)
}

/// Relies on `String::push`: `ch` is appended at the end of `s`, the rest kept.
pub assume_specification[ String::push ](s: &mut String, ch: char)
    ensures
        final(s)@ == old(s)@.push(ch),
;

/// Whether every character of `t` is in the alphabet.
pub open spec fn all_symbols(t: Seq<char>) -> bool {
    forall|i: int| 0 <= i < t.len() ==> (#[trigger] symbol_value(t[i])) is Some
}

/// The values of the symbols of `t` (meaningful where `all_symbols(t)`).
pub open spec fn symbol_values(t: Seq<char>) -> Seq<nat> {
    Seq::new(t.len(), |i: int| symbol_value(t[i])->0)
}

/// The output of the groups of the values `v`: three values give the two bytes of
/// `v0 + 45 * v1 + 45 * 45 * v2`, or `None` where that is above `0xFFFF`; a last
/// group of two values gives `v0 + 45 * v1` as it stands (at most `44 + 44 * 45`,
/// so never above `0xFFFF`, and not clamped to a byte). A lone last value is ruled
/// out by `decoded` before the groups are read.
pub open spec fn decode_groups(v: Seq<nat>) -> Option<Seq<nat>>
    decreases v.len(),
{
    if v.len() >= 3 {
        let x = v[0] + 45 * v[1] + 45 * 45 * v[2];
        if x > 0xFFFF {
            None
        } else {
            match decode_groups(v.subrange(3, v.len() as int)) {
                Some(rest) => Some(seq![x / 256, x % 256] + rest),
                None => None,
            }
        }
    } else if v.len() == 2 {
        Some(seq![v[0] + 45 * v[1]])
    } else {
        Some(seq![])
    }
}

/// `o` with `p` put in front of what it holds.
pub open spec fn prefixed(p: Seq<nat>, o: Option<Seq<nat>>) -> Option<Seq<nat>> {
    match o {
        Some(rest) => Some(p + rest),
        None => None,
    }
}

/// The result of decoding `t`: a character outside the alphabet is checked for
/// first, then the length, then the value of each group.
pub open spec fn decoded(t: Seq<char>) -> Result<Seq<nat>, Base45DecodeError> {
    if !all_symbols(t) {
        Err(Base45DecodeError::InvalidSymbol)
    } else if t.len() % 3 == 1 {
        Err(Base45DecodeError::InvalidLength)
    } else {
        match decode_groups(symbol_values(t)) {
            Some(b) => Ok(b),
            None => Err(Base45DecodeError::ValueOverflow),
        }
    }
}

/// The values of `v` as natural numbers.
pub open spec fn nats(v: Seq<usize>) -> Seq<nat> {
    v.map_values(|x: usize| x as nat)
}

/// Decodes the Base45 text `s`: the bytes in order, or the first reason that
/// `decoded` gives for rejecting it. Nothing is returned from a rejected text.
pub fn b45decode(s: &str) -> (r: Result<Vec<usize>, Base45DecodeError>)
    ensures
        match r {
            Ok(out) => decoded(s@) == Ok::<Seq<nat>, Base45DecodeError>(nats(out@)),
            Err(e) => decoded(s@) == Err::<Seq<nat>, Base45DecodeError>(e),
        },
{
    broadcast use vstd::string::is_ascii_spec_bytes;

    // Every symbol is ASCII, so a text with another character is rejected at once,
    // and in the rest each byte is one character.
    if !s.is_ascii() {
        proof {
            let k = choose|k: int| 0 <= k < s@.len() && !('\0' <= #[trigger] s@[k] <= '\u{7f}');
            assert(symbol_value(s@[k]) is None);
        }
        return Err(Base45DecodeError::InvalidSymbol);
    }
    let bytes = s.as_bytes();
    let len = bytes.len();
    let ghost t = s@;
    let mut buf: Vec<u8> = Vec::new();
    let mut i: usize = 0;
    while i < len
        invariant
            i <= len,
            t == s@,
            len == t.len(),
            bytes@ == Seq::new(t.len(), |j: int| t[j] as u8),
            is_ascii_chars(t),
            buf@.len() == i,
            forall|j: int|
                0 <= j < i ==> symbol_value(t[j]) == Some(#[trigger] buf@[j] as nat) && buf@[j]
                    < 45,
        decreases len - i,
    {
        assert(bytes[i as int] as char == t[i as int]);
        match value_of(bytes[i] as char) {
            Some(v) => buf.push(v),
            None => {
                assert(symbol_value(t[i as int]) is None);
                return Err(Base45DecodeError::InvalidSymbol);
            },
        }
        i = i + 1;
    }
    let ghost vals = symbol_values(t);
    assert forall|j: int| 0 <= j < t.len() implies (#[trigger] symbol_value(t[j])) is Some by {
        assert(buf@[j] < 45);
    }
    assert(buf@.map_values(|x: u8| x as nat) =~= vals);
    if len % 3 == 1 {
        return Err(Base45DecodeError::InvalidLength);
    }
    // Whole groups of three values, then a last group of two if one is left.
    let mut res: Vec<usize> = Vec::new();
    i = 0;
    assert(vals.subrange(0, len as int) =~= vals);
    assert(nats(res@) + vals =~= vals);
    while len - i >= 3
        invariant
            i <= len,
            t == s@,
            all_symbols(t),
            vals == symbol_values(t),
            len == vals.len(),
            len % 3 != 1,
            i % 3 == 0,
            buf@.len() == len,
            forall|j: int| 0 <= j < len ==> vals[j] == #[trigger] buf@[j] as nat && buf@[j] < 45,
            decode_groups(vals) == prefixed(nats(res@), decode_groups(vals.subrange(i as int, len as int))),
        decreases len - i,
    {
        let ghost w = vals.subrange(i as int, len as int);
        let ghost old_res = nats(res@);
        assert(w.subrange(3, w.len() as int) =~= vals.subrange(i + 3, len as int));
        assert(w[0] == buf@[i as int] && w[1] == buf@[i + 1] && w[2] == buf@[i + 2]);
        let x: usize = buf[i] as usize + buf[i + 1] as usize * 45 + buf[i + 2] as usize * 45 * 45;
        if x > 0xFFFF {
            return Err(Base45DecodeError::ValueOverflow);
        }
        let (q, r) = divmod(x, 256);
        res.push(q);
        res.push(r);
        assert(nats(res@) =~= old_res + seq![x as nat / 256, x as nat % 256]);
        proof {
            let rest = decode_groups(vals.subrange(i + 3, len as int));
            if rest is Some {
                assert(old_res + (seq![x as nat / 256, x as nat % 256] + rest->0) =~= nats(res@)
                    + rest->0);
            }
        }
        i = i + 3;
    }
    let ghost w = vals.subrange(i as int, len as int);
    let ghost old_res = nats(res@);
    if len - i == 2 {
        let x: usize = buf[i] as usize + buf[i + 1] as usize * 45;
        res.push(x);
        assert(w[0] == buf@[i as int] && w[1] == buf@[i + 1]);
        assert(nats(res@) =~= old_res + seq![x as nat]);
    } else {
        assert(nats(res@) =~= old_res + seq![]);
    }
    Ok(res)
}

/// Encodes `v` as Base45 text.
pub fn b45encode(v: Vec<u8>) -> (r: String)
    ensures
        r@ == encoded(v@),
        r@.len() == encoded_len(v@.len()),
{
    let mut res = String::new();
    let n = v.len();
    let mut i: usize = 0;
    proof {
        assert(v@.subrange(0, n as int) =~= v@);
        assert(res@ + encoded(v@) =~= encoded(v@));
    }
    while i < n
        invariant
            i <= n,
            n == v@.len(),
            res@ + encoded(v@.subrange(i as int, n as int)) == encoded(v@),
        decreases n - i,
    {
        let ghost rest = v@.subrange(i as int, n as int);
        let ghost old_res = res@;
        if n - i >= 2 {
            let l: usize = v[i] as usize * 256 + v[i + 1] as usize;
            let (n1, c) = divmod(l, 45);
            let (e, d) = divmod(n1, 45);
            res.push(symbol_of(c as u8));
            res.push(symbol_of(d as u8));
            res.push(symbol_of(e as u8));
            proof {
                assert(rest.subrange(2, rest.len() as int) =~= v@.subrange(i + 2, n as int));
                assert(res@ =~= old_res + pair_symbols(l as nat));
            }
            i = i + 2;
        } else {
            let (d, c) = divmod(v[i] as usize, 45);
            res.push(symbol_of(c as u8));
            res.push(symbol_of(d as u8));
            i = i + 1;
        }
    }
    proof {
        lemma_encoded_len(v@);
    }
    res
}

/// Quotient and remainder of `a` divided by `n`.
pub fn divmod(a: usize, n: usize) -> (r: (usize, usize))
    requires
        n > 0,
    ensures
        r.0 == a / n,
        r.1 == a % n,
{
    (a / n, a % n)
}

} // verus!
