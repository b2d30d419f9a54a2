use base45::alphabet::{symbol_of, value_of};
use base45::{b45decode, b45encode, divmod, Base45DecodeError};

#[test]
fn test_divmod() {
    assert_eq!(divmod(26725, 45), (593, 40));
    assert_eq!(divmod(593, 45), (13, 8));
    assert_eq!(divmod(13, 45), (0, 13));
}

#[test]
fn test_b45encode_ab() {
    let result = b45encode(vec![65, 66]);
    assert_eq!(result, "BB8");
}

#[test]
fn test_b45encode_hello() {
    let result = b45encode(vec![72, 101, 108, 108, 111, 33, 33]);
    assert_eq!(result, "%69 VD92EX0");
}

#[test]
fn test_b45encode_base_dash_45() {
    let result = b45encode(vec![98, 97, 115, 101, 45, 52, 53]);
    assert_eq!(result, "UJCLQE7W581");
}

#[test]
fn test_b45decode() {
    let result = b45decode("QED8WEX0").unwrap();
    assert_eq!(result, [105, 101, 116, 102, 33]); // ietf!
}

#[test]
fn empty_input_round_trips() {
    assert_eq!(b45encode(vec![]), "");
    assert_eq!(b45decode("").unwrap(), Vec::<usize>::new());
}

#[test]
fn single_symbol_is_rejected() {
    assert_eq!(b45decode("A"), Err(Base45DecodeError::InvalidLength));
}

#[test]
fn length_of_one_modulo_three_is_rejected() {
    assert_eq!(b45decode("AAAA"), Err(Base45DecodeError::InvalidLength));
    assert_eq!(b45decode("BB8BB8A"), Err(Base45DecodeError::InvalidLength));
}

#[test]
fn foreign_symbols_are_rejected() {
    assert_eq!(b45decode("bb8"), Err(Base45DecodeError::InvalidSymbol));
    assert_eq!(b45decode("BB!"), Err(Base45DecodeError::InvalidSymbol));
    assert_eq!(b45decode("BB\u{e9}"), Err(Base45DecodeError::InvalidSymbol));
    assert_eq!(b45decode("B="), Err(Base45DecodeError::InvalidSymbol));
}

#[test]
fn foreign_symbol_is_reported_before_length() {
    assert_eq!(b45decode("AB!C"), Err(Base45DecodeError::InvalidSymbol));
}

#[test]
fn largest_pair_value_decodes() {
    assert_eq!(b45encode(vec![255, 255]), "FGW");
    assert_eq!(b45decode("FGW").unwrap(), [255, 255]);
}

#[test]
fn group_above_largest_pair_value_is_rejected() {
    assert_eq!(b45decode("GGW"), Err(Base45DecodeError::ValueOverflow));
    assert_eq!(b45decode(":::"), Err(Base45DecodeError::ValueOverflow));
    assert_eq!(b45decode("BB8:::"), Err(Base45DecodeError::ValueOverflow));
}

#[test]
fn trailing_pair_of_symbols_is_not_clamped_to_a_byte() {
    // 44 + 44 * 45: two trailing symbols may stand for more than one byte holds.
    assert_eq!(b45decode("::").unwrap(), [2024]);
    assert_eq!(b45decode("BB8::").unwrap(), [65, 66, 2024]);
}

#[test]
fn trailing_byte_gives_two_symbols() {
    assert_eq!(b45encode(vec![255]), "U5");
    assert_eq!(b45encode(vec![0]), "00");
    assert_eq!(b45decode("U5").unwrap(), [255]);
}

#[test]
fn round_trip_on_samples() {
    let samples: Vec<Vec<u8>> = vec![
        vec![],
        vec![0],
        vec![255],
        vec![0, 0],
        vec![255, 255],
        vec![1, 2, 3],
        vec![72, 101, 108, 108, 111, 33, 33],
        (0..=255).collect(),
    ];
    for b in samples {
        let text = b45encode(b.clone());
        let back = b45decode(&text).unwrap();
        let expected: Vec<usize> = b.iter().map(|x| *x as usize).collect();
        assert_eq!(back, expected);
    }
}

#[test]
fn encoded_length_follows_input_length() {
    for n in 0..20usize {
        let b: Vec<u8> = (0..n).map(|i| (i * 37 % 256) as u8).collect();
        let text = b45encode(b);
        assert_eq!(text.chars().count(), 3 * (n / 2) + 2 * (n % 2));
    }
}

#[test]
fn encode_is_deterministic() {
    let b = vec![98, 97, 115, 101, 45, 52, 53];
    assert_eq!(b45encode(b.clone()), b45encode(b));
}

#[test]
fn alphabet_lookups_are_inverse() {
    assert_eq!(symbol_of(0), '0');
    assert_eq!(symbol_of(10), 'A');
    assert_eq!(symbol_of(35), 'Z');
    assert_eq!(symbol_of(36), ' ');
    assert_eq!(symbol_of(44), ':');
    for v in 0..45u8 {
        assert_eq!(value_of(symbol_of(v)), Some(v));
    }
    assert_eq!(value_of('a'), None);
    assert_eq!(value_of('!'), None);
    assert_eq!(value_of('Z'), Some(35));
    assert_eq!(value_of('$'), Some(37));
}
