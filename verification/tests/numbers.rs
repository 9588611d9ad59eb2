use ic_rmcp::clock::timestamp_from_ns;
use ic_rmcp::numbers::{Int, Nat};
use ic_rmcp::order::is_before;
use ic_rmcp::principal::{Principal, MAX_PRINCIPAL_LENGTH};

#[test]
fn naturals_are_held_in_their_shortest_bytes() {
    assert_eq!(Nat::from(0).to_bytes_le(), &[0u8]);
    assert_eq!(Nat::from(1125).to_bytes_le(), &[101u8, 4]);
    assert_eq!(Nat::from(u64::MAX).to_bytes_le(), &[0xffu8; 8]);
    assert_eq!(Nat::from_bytes_le(&[101, 4, 0, 0]), Nat::from(1125));
    assert_eq!(Nat::from_bytes_le(&[]), Nat::from(0));
    assert_eq!(Nat::from_bytes_le(&[0, 0]), Nat::from(0));
    assert_ne!(Nat::from_bytes_le(&[0, 1]), Nat::from(1));
}

#[test]
fn naturals_print_in_decimal() {
    assert_eq!(Nat::from(0).to_decimal(), "0");
    assert_eq!(Nat::from(10).to_decimal(), "10");
    assert_eq!(Nat::from(u64::MAX).to_decimal(), "18446744073709551615");
    assert_eq!(
        Nat::from_bytes_le(&[0, 0, 0, 0, 0, 0, 0, 0, 1]).to_decimal(),
        "18446744073709551616"
    );
}

#[test]
fn integers_are_held_in_twos_complement() {
    assert_eq!(Int::from(0).to_signed_bytes_le(), &[0u8]);
    assert_eq!(Int::from(127).to_signed_bytes_le(), &[127u8]);
    assert_eq!(Int::from(128).to_signed_bytes_le(), &[128u8, 0]);
    assert_eq!(Int::from(-1).to_signed_bytes_le(), &[0xffu8]);
    assert_eq!(Int::from(-10).to_signed_bytes_le(), &[0xf6u8]);
    assert_eq!(Int::from(-128).to_signed_bytes_le(), &[0x80u8]);
    assert_eq!(Int::from(-129).to_signed_bytes_le(), &[0x7fu8, 0xff]);
    assert_eq!(Int::from(-256).to_signed_bytes_le(), &[0u8, 0xff]);
    assert_eq!(Int::from(i64::MIN).to_signed_bytes_le(), &[0u8, 0, 0, 0, 0, 0, 0, 0x80]);
}

#[test]
fn clones_are_equal() {
    assert_eq!(Nat::from(77).clone(), Nat::from(77));
    assert_eq!(Int::from(-77).clone(), Int::from(-77));
    assert_ne!(Int::from(-77), Int::from(77));
}

#[test]
fn timestamps_keep_the_bits() {
    assert_eq!(timestamp_from_ns(0), 0);
    assert_eq!(timestamp_from_ns(i64::MAX as u64), i64::MAX);
    assert_eq!(timestamp_from_ns(i64::MAX as u64 + 1), i64::MIN);
    assert_eq!(timestamp_from_ns(u64::MAX), -1);
}

#[test]
fn texts_are_ordered_as_by_the_standard_library() {
    let texts = ["", "0", "00", "9", "a", "ab", "b", "\u{e9}", "\u{4e2d}", "\u{1f600}", "z"];
    for left in texts {
        for right in texts {
            assert_eq!(is_before(left, right), left < right);
        }
    }
}

#[test]
fn principals_are_compared_by_their_bytes() {
    let one = Principal::from_slice(&[1, 2]);
    let padded = Principal::from_slice(&[1, 2, 0]);
    assert_eq!(one, Principal::from_slice(&[1, 2]));
    assert_ne!(one, padded);
    assert_eq!(one.as_slice(), &[1u8, 2]);
    let full = [9u8; MAX_PRINCIPAL_LENGTH];
    assert_eq!(Principal::from_slice(&full).as_slice(), &full);
    assert_eq!(Principal::from_slice(&[]).as_slice().len(), 0);
}
