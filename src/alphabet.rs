//! The fixed table of the 45 Base45 symbols, looked up in both directions.
use vstd::prelude::*;

verus! {

/// The alphabet, in order: the symbol at index `v` stands for the value `v`.
pub open spec fn alphabet() -> Seq<char> {
    seq![
        '0', '1', '2', '3', '4', '5', '6', '7', '8', '9', 'A', 'B', 'C', 'D', 'E', 'F', 'G', 'H',
        'I', 'J', 'K', 'L', 'M', 'N', 'O', 'P', 'Q', 'R', 'S', 'T', 'U', 'V', 'W', 'X', 'Y', 'Z',
        ' ', '$', '%', '*', '+', '-', '.', '/', ':',
    ]
}

/// The value of a symbol, or `None` for a character outside the alphabet.
pub open spec fn symbol_value(c: char) -> Option<nat> {
    if '0' <= c <= '9' {
        Some((c as nat - '0' as nat) as nat)
    } else if 'A' <= c <= 'Z' {
        Some((c as nat - 'A' as nat + 10) as nat)
    } else if c == ' ' {
        Some(36)
    } else if c == '$' {
        Some(37)
    } else if c == '%' {
        Some(38)
    } else if c == '*' {
        Some(39)
    } else if c == '+' {
        Some(40)
    } else if c == '-' {
        Some(41)
    } else if c == '.' {
        Some(42)
    } else if c == '/' {
        Some(43)
    } else if c == ':' {
        Some(44)
    } else {
        None
    }
}

/// The two lookups are exact inverses: every value below 45 has a symbol whose
/// value it is, and every symbol with a value is the alphabet's entry at that value.
pub proof fn lemma_alphabet_inverse()
    ensures
        alphabet().len() == 45,
        forall|v: int| 0 <= v < 45 ==> symbol_value(#[trigger] alphabet()[v]) == Some(v as nat),
        forall|c: char| #[trigger]
            symbol_value(c) is Some ==> symbol_value(c)->0 < 45 && alphabet()[symbol_value(
                c,
            )->0 as int] == c,
{
    let a = alphabet();
    assert(a[0] == '0');
    assert(forall|v: int| 0 <= v < 45 ==> symbol_value(#[trigger] a[v]) == Some(v as nat)) by {
        assert(a[10] == 'A');
    }
}

/// The symbol that stands for `v`.
pub fn symbol_of(v: u8) -> (c: char)
    requires
        v < 45,
    ensures
        c == alphabet()[v as int],
{
    if v < 10 {
        (v + 48) as char
    } else if v < 36 {
        (v + 55) as char
    } else if v == 36 {
        ' '
    } else if v == 37 {
        '$'
    } else if v == 38 {
        '%'
    } else if v == 39 {
        '*'
    } else if v == 40 {
        '+'
    } else if v == 41 {
        '-'
    } else if v == 42 {
        '.'
    } else if v == 43 {
        '/'
    } else {
        ':'
    }
}

/// The value of the symbol `c`, or `None` where `c` is not in the alphabet.
pub fn value_of(c: char) -> (r: Option<u8>)
    ensures
        r is None <==> symbol_value(c) is None,
        r matches Some(v) ==> symbol_value(c) == Some(v as nat) && v < 45,
{
    let x = c as u32;
    if 48 <= x && x <= 57 {
        Some((x - 48) as u8)
    } else if 65 <= x && x <= 90 {
        Some((x - 55) as u8)
    } else if c == ' ' {
        Some(36)
    } else if c == '$' {
        Some(37)
    } else if c == '%' {
        Some(38)
    } else if c == '*' {
        Some(39)
    } else if c == '+' {
        Some(40)
    } else if c == '-' {
        Some(41)
    } else if c == '.' {
        Some(42)
    } else if c == '/' {
        Some(43)
    } else if c == ':' {
        Some(44)
    } else {
        None
    }
}

} // verus!
