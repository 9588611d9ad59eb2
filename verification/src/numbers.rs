//! Integers without bounds: natural numbers and signed integers of any size.

use vstd::arithmetic::power::pow;
use vstd::prelude::*;

verus! {

/// The number that `bytes` spell, the least significant byte first.
pub open spec fn unsigned_value(bytes: Seq<u8>) -> nat
    decreases bytes.len(),
{
    if bytes.len() == 0 {
        0
    } else {
        bytes.first() as nat + 256 * unsigned_value(bytes.drop_first())
    }
}

/// The number that `bytes` spell in two's complement, the least significant
/// byte first.
pub open spec fn signed_value(bytes: Seq<u8>) -> int {
    if bytes.len() > 0 && bytes.last() >= 0x80 {
        unsigned_value(bytes) - pow(256, bytes.len())
    } else {
        unsigned_value(bytes) as int
    }
}

/// `bytes` is the shortest non-empty spelling of its unsigned value.
pub open spec fn shortest_unsigned(bytes: Seq<u8>) -> bool {
    &&& bytes.len() >= 1
    &&& bytes.len() >= 2 ==> bytes.last() != 0
}

/// `bytes` is the shortest non-empty spelling of its two's complement value:
/// its last byte is no mere copy of the sign of the byte before.
pub open spec fn shortest_signed(bytes: Seq<u8>) -> bool {
    &&& bytes.len() >= 1
    &&& bytes.len() >= 2 ==> {
        let before = bytes[bytes.len() - 2];
        &&& !(bytes.last() == 0 && before < 0x80)
        &&& !(bytes.last() == 0xff && before >= 0x80)
    }
}

/// The decimal digit for `d`.
pub open spec fn decimal_digit(d: nat) -> char
    recommends
        d < 10,
{
    (48 + d) as char
}

/// The decimal text of `n`, without leading zeros.
pub open spec fn decimal(n: nat) -> Seq<char>
    decreases n,
{
    if n < 10 {
        seq![decimal_digit(n)]
    } else {
        decimal(n / 10).push(decimal_digit(n % 10))
    }
}

/// A natural number of any size.
///
/// The number is held in its shortest spelling, so `==` compares values (see
/// [`law_equal_numbers_have_equal_spellings`]).
#[derive(Debug, PartialEq, Eq)]
pub struct Nat {
    bytes: Vec<u8>,
}

impl Clone for Nat {
    fn clone(&self) -> (copy: Nat)
        ensures
            copy@ == self@,
            copy.spelling() == self.spelling(),
    {
        proof {
            use_type_invariant(self);
        }
        let bytes: Vec<u8> = self.bytes.clone();
        assert(bytes@ == self.bytes@);
        Nat { bytes }
    }
}

impl View for Nat {
    type V = nat;

    closed spec fn view(&self) -> nat {
        unsigned_value(self.bytes@)
    }
}

/// Calls `candid::Nat::from` for a `u64` and hands out the number's bytes with
/// `BigUint::to_bytes_le`. Claimed: the bytes spell `n`, the least significant
/// first, and are the shortest such spelling.
#[verifier::external_body]
fn candid_nat_bytes(n: u64) -> (bytes: Vec<u8>)
    ensures
        unsigned_value(bytes@) == n,
        shortest_unsigned(bytes@),
{
    candid::Nat::from(n).0.to_bytes_le()
}

/// Calls `BigUint::from_bytes_le` and `BigUint::to_str_radix` with radix ten,
/// which is how `candid::Nat` prints the number it holds. Claimed: the text is
/// the decimal text of the number that `bytes` spell, the least significant
/// byte first.
#[verifier::external_body]
fn biguint_decimal(bytes: &[u8]) -> (text: String)
    ensures
        text@ == decimal(unsigned_value(bytes@)),
{
    num_bigint::BigUint::from_bytes_le(bytes).to_str_radix(10)
}

impl Nat {
    /// The bytes of the number, in the shortest spelling, the least
    /// significant byte first.
    pub closed spec fn spelling(self) -> Seq<u8> {
        self.bytes@
    }

    #[verifier::type_invariant]
    spec fn in_shortest_form(self) -> bool {
        shortest_unsigned(self.bytes@)
    }

    /// The number `n`.
    pub fn from(n: u64) -> (number: Nat)
        ensures
            number@ == n,
    {
        Nat { bytes: candid_nat_bytes(n) }
    }

    /// The number that `bytes` spell, the least significant byte first.
    pub fn from_bytes_le(bytes: &[u8]) -> (number: Nat)
        ensures
            number@ == unsigned_value(bytes@),
    {
        let mut len: usize = bytes.len();
        proof {
            assert(bytes@.subrange(0, len as int) == bytes@);
        }
        while len > 1 && bytes[len - 1] == 0
            invariant
                len <= bytes@.len(),
                unsigned_value(bytes@.subrange(0, len as int)) == unsigned_value(bytes@),
            decreases len,
        {
            proof {
                lemma_zero_byte_at_end(bytes@.subrange(0, len as int));
                assert(bytes@.subrange(0, len as int).drop_last() == bytes@.subrange(
                    0,
                    len as int - 1,
                ));
            }
            len = len - 1;
        }
        let mut shortest: Vec<u8> = Vec::new();
        let mut i: usize = 0;
        while i < len
            invariant
                i <= len <= bytes@.len(),
                shortest@ == bytes@.subrange(0, i as int),
            decreases len - i,
        {
            shortest.push(bytes[i]);
            i = i + 1;
            assert(shortest@ == bytes@.subrange(0, i as int));
        }
        if len == 0 {
            shortest.push(0);
            assert(shortest@.drop_first() == Seq::<u8>::empty());
            assert(unsigned_value(shortest@) == 0) by {
                reveal_with_fuel(unsigned_value, 2);
            }
        }
        Nat { bytes: shortest }
    }

    /// The bytes of the number, in the shortest spelling, the least
    /// significant byte first; zero is one zero byte.
    pub fn to_bytes_le(&self) -> (bytes: &[u8])
        ensures
            bytes@ == self.spelling(),
            unsigned_value(bytes@) == self@,
            shortest_unsigned(bytes@),
    {
        proof {
            use_type_invariant(self);
        }
        self.bytes.as_slice()
    }

    /// The decimal text of the number.
    pub fn to_decimal(&self) -> (text: String)
        ensures
            text@ == decimal(self@),
    {
        biguint_decimal(self.bytes.as_slice())
    }
}

/// An integer of any size.
///
/// The integer is held in its shortest spelling, so `==` compares values (see
/// [`law_equal_integers_have_equal_spellings`]).
#[derive(Debug, PartialEq, Eq)]
pub struct Int {
    bytes: Vec<u8>,
}

impl Clone for Int {
    fn clone(&self) -> (copy: Int)
        ensures
            copy@ == self@,
            copy.spelling() == self.spelling(),
    {
        proof {
            use_type_invariant(self);
        }
        let bytes: Vec<u8> = self.bytes.clone();
        assert(bytes@ == self.bytes@);
        Int { bytes }
    }
}

impl View for Int {
    type V = int;

    closed spec fn view(&self) -> int {
        signed_value(self.bytes@)
    }
}

/// Calls `candid::Int::from` for an `i64` and hands out the integer's bytes with
/// `BigInt::to_signed_bytes_le`. Claimed: the bytes spell `n` in two's
/// complement, the least significant first, and are the shortest such
/// spelling.
#[verifier::external_body]
fn candid_int_bytes(n: i64) -> (bytes: Vec<u8>)
    ensures
        signed_value(bytes@) == n,
        shortest_signed(bytes@),
{
    candid::Int::from(n).0.to_signed_bytes_le()
}

impl Int {
    /// The bytes of the integer in two's complement, in the shortest spelling,
    /// the least significant byte first.
    pub closed spec fn spelling(self) -> Seq<u8> {
        self.bytes@
    }

    #[verifier::type_invariant]
    spec fn in_shortest_form(self) -> bool {
        shortest_signed(self.bytes@)
    }

    /// The integer `n`.
    pub fn from(n: i64) -> (integer: Int)
        ensures
            integer@ == n,
    {
        Int { bytes: candid_int_bytes(n) }
    }

    /// The bytes of the integer in two's complement, in the shortest spelling,
    /// the least significant byte first.
    pub fn to_signed_bytes_le(&self) -> (bytes: &[u8])
        ensures
            bytes@ == self.spelling(),
            signed_value(bytes@) == self@,
            shortest_signed(bytes@),
    {
        proof {
            use_type_invariant(self);
        }
        self.bytes.as_slice()
    }
}

/// A zero byte at the most significant end does not change the value.
proof fn lemma_zero_byte_at_end(bytes: Seq<u8>)
    requires
        bytes.len() > 0,
        bytes.last() == 0,
    ensures
        unsigned_value(bytes.drop_last()) == unsigned_value(bytes),
    decreases bytes.len(),
{
    if bytes.len() == 1 {
        assert(bytes.drop_first() == Seq::<u8>::empty());
        assert(unsigned_value(bytes.drop_first()) == 0);
    } else {
        lemma_zero_byte_at_end(bytes.drop_first());
        assert(bytes.drop_last().drop_first() == bytes.drop_first().drop_last());
    }
}

/// The most significant byte counts with the highest power.
proof fn lemma_value_by_last_byte(bytes: Seq<u8>)
    requires
        bytes.len() > 0,
    ensures
        unsigned_value(bytes) == unsigned_value(bytes.drop_last()) + bytes.last() * pow(
            256,
            (bytes.len() - 1) as nat,
        ),
    decreases bytes.len(),
{
    if bytes.len() == 1 {
        assert(bytes.drop_first() == Seq::<u8>::empty());
        assert(bytes.drop_last() == Seq::<u8>::empty());
        assert(pow(256, 0) == 1) by {
            vstd::arithmetic::power::lemma_pow0(256);
        }
        assert(unsigned_value(bytes.drop_first()) == 0);
    } else {
        let rest = bytes.drop_first();
        lemma_value_by_last_byte(rest);
        assert(rest.drop_last() == bytes.drop_last().drop_first());
        let high = pow(256, (bytes.len() - 2) as nat);
        assert(pow(256, (bytes.len() - 1) as nat) == 256 * high) by {
            reveal(pow);
        }
        let last = bytes.last() as int;
        assert(256 * (last * high) == last * (256 * high)) by (nonlinear_arith);
    }
}

/// A value takes no more bytes than it is spelled with.
proof fn lemma_unsigned_bound(bytes: Seq<u8>)
    ensures
        unsigned_value(bytes) < pow(256, bytes.len()),
    decreases bytes.len(),
{
    if bytes.len() == 0 {
        vstd::arithmetic::power::lemma_pow0(256);
    } else {
        lemma_unsigned_bound(bytes.drop_first());
        reveal(pow);
    }
}

/// Spellings of one length and one value are the same.
proof fn lemma_same_length_same_bytes(a: Seq<u8>, b: Seq<u8>)
    requires
        a.len() == b.len(),
        unsigned_value(a) == unsigned_value(b),
    ensures
        a == b,
    decreases a.len(),
{
    if a.len() > 0 {
        assert(a.first() == b.first());
        lemma_same_length_same_bytes(a.drop_first(), b.drop_first());
        assert(a == seq![a.first()] + a.drop_first());
        assert(b == seq![b.first()] + b.drop_first());
    }
    assert(a == b);
}

/// A spelling of two bytes or more whose last byte is not zero has a value
/// that fits no shorter spelling.
proof fn lemma_unsigned_needs_length(bytes: Seq<u8>)
    requires
        bytes.len() >= 1,
        bytes.last() != 0,
    ensures
        unsigned_value(bytes) >= pow(256, (bytes.len() - 1) as nat),
{
    lemma_value_by_last_byte(bytes);
    let high = pow(256, (bytes.len() - 1) as nat);
    vstd::arithmetic::power::lemma_pow_positive(256, (bytes.len() - 1) as nat);
    let last = bytes.last() as int;
    assert(last * high >= high) by (nonlinear_arith)
        requires
            last >= 1,
            high >= 0,
    ;
}

proof fn lemma_unsigned_lengths_agree(a: Seq<u8>, b: Seq<u8>)
    requires
        shortest_unsigned(b),
        a.len() < b.len(),
        a.len() >= 1,
    ensures
        unsigned_value(a) < unsigned_value(b),
{
    lemma_unsigned_bound(a);
    lemma_unsigned_needs_length(b);
    vstd::arithmetic::power::lemma_pow_increases(256, a.len(), (b.len() - 1) as nat);
}

/// Natural numbers that are equal are held in the same bytes.
pub proof fn law_equal_numbers_have_equal_spellings(a: Nat, b: Nat)
    requires
        shortest_unsigned(a.spelling()),
        shortest_unsigned(b.spelling()),
        a@ == b@,
    ensures
        a.spelling() == b.spelling(),
{
    if a.bytes@.len() < b.bytes@.len() {
        lemma_unsigned_lengths_agree(a.bytes@, b.bytes@);
    } else if b.bytes@.len() < a.bytes@.len() {
        lemma_unsigned_lengths_agree(b.bytes@, a.bytes@);
    } else {
        lemma_same_length_same_bytes(a.bytes@, b.bytes@);
    }
}

/// The values that `len` bytes can spell in two's complement reach up to,
/// but not including, this bound, and down to its negative.
spec fn signed_bound(len: nat) -> int
    recommends
        len >= 1,
{
    128 * pow(256, (len - 1) as nat)
}

proof fn lemma_signed_range(bytes: Seq<u8>)
    requires
        bytes.len() >= 1,
    ensures
        -signed_bound(bytes.len()) <= signed_value(bytes) < signed_bound(bytes.len()),
        signed_value(bytes) < 0 <==> bytes.last() >= 0x80,
{
    let high = pow(256, (bytes.len() - 1) as nat);
    let last = bytes.last() as int;
    lemma_value_by_last_byte(bytes);
    lemma_unsigned_bound(bytes.drop_last());
    lemma_unsigned_bound(bytes);
    assert(pow(256, bytes.len()) == 256 * high) by {
        reveal(pow);
    }
    if last >= 0x80 {
        assert(last * high >= 128 * high) by (nonlinear_arith)
            requires
                last >= 128,
                high > 0,
        ;
    } else {
        assert(last * high <= 127 * high) by (nonlinear_arith)
            requires
                last <= 127,
                high > 0,
        ;
    }
}

/// The value of a shortest spelling of two bytes or more fits no shorter one.
proof fn lemma_signed_needs_length(bytes: Seq<u8>)
    requires
        shortest_signed(bytes),
        bytes.len() >= 2,
    ensures
        signed_value(bytes) >= signed_bound((bytes.len() - 1) as nat) || signed_value(bytes)
            < -signed_bound((bytes.len() - 1) as nat),
{
    let low = bytes.drop_last();
    let before = low.last() as int;
    let last = bytes.last() as int;
    let mid = pow(256, (bytes.len() - 2) as nat);
    lemma_value_by_last_byte(bytes);
    lemma_value_by_last_byte(low);
    lemma_unsigned_bound(low.drop_last());
    lemma_unsigned_bound(low);
    assert(pow(256, (bytes.len() - 1) as nat) == 256 * mid && pow(256, bytes.len()) == 256 * (256
        * mid)) by {
        reveal_with_fuel(pow, 3);
    }
    let high = 256 * mid;
    assert(before * mid >= 0 && last * high >= 0) by (nonlinear_arith)
        requires
            before >= 0,
            last >= 0,
            mid > 0,
            high > 0,
    ;
    if last >= 0x80 {
        if last <= 254 {
            assert(last * high <= 254 * high) by (nonlinear_arith)
                requires
                    last <= 254,
                    high > 0,
            ;
        } else {
            assert(last * high == 255 * high) by (nonlinear_arith)
                requires
                    last == 255,
            ;
            assert(before * mid <= 127 * mid) by (nonlinear_arith)
                requires
                    before <= 127,
                    mid > 0,
            ;
        }
    } else {
        if last >= 1 {
            assert(last * high >= high) by (nonlinear_arith)
                requires
                    last >= 1,
                    high > 0,
            ;
        } else {
            assert(before * mid >= 128 * mid) by (nonlinear_arith)
                requires
                    before >= 128,
                    mid > 0,
            ;
        }
    }
}

proof fn lemma_signed_lengths_agree(a: Seq<u8>, b: Seq<u8>)
    requires
        shortest_signed(b),
        1 <= a.len() < b.len(),
    ensures
        signed_value(a) != signed_value(b),
{
    lemma_signed_range(a);
    lemma_signed_needs_length(b);
    vstd::arithmetic::power::lemma_pow_increases(
        256,
        (a.len() - 1) as nat,
        (b.len() - 2) as nat,
    );
}

/// Integers that are equal are held in the same bytes.
pub proof fn law_equal_integers_have_equal_spellings(a: Int, b: Int)
    requires
        shortest_signed(a.spelling()),
        shortest_signed(b.spelling()),
        a@ == b@,
    ensures
        a.spelling() == b.spelling(),
{
    if a.bytes@.len() < b.bytes@.len() {
        lemma_signed_lengths_agree(a.bytes@, b.bytes@);
    } else if b.bytes@.len() < a.bytes@.len() {
        lemma_signed_lengths_agree(b.bytes@, a.bytes@);
    } else {
        lemma_signed_range(a.bytes@);
        lemma_signed_range(b.bytes@);
        lemma_same_length_same_bytes(a.bytes@, b.bytes@);
    }
}

/// A byte counts by its place: one more byte at the most significant end adds
/// that byte times 256 to the number of bytes before it, and no bytes are zero.
pub proof fn law_bytes_count_by_place(bytes: Seq<u8>, next: u8)
    ensures
        unsigned_value(Seq::<u8>::empty()) == 0,
        unsigned_value(bytes.push(next)) == unsigned_value(bytes) + next * pow(256, bytes.len()),
{
    lemma_value_by_last_byte(bytes.push(next));
    assert(bytes.push(next).drop_last() == bytes);
}

/// In two's complement a spelling stands for the number, in the range of that
/// many bytes, that differs from its unsigned value by a multiple of 256 to the
/// number of bytes.
pub proof fn law_two_complement(bytes: Seq<u8>)
    requires
        bytes.len() > 0,
    ensures
        signed_value(bytes) == unsigned_value(bytes) || signed_value(bytes) == unsigned_value(bytes)
            - pow(256, bytes.len()),
        -pow(256, bytes.len()) <= 2 * signed_value(bytes) < pow(256, bytes.len()),
{
    lemma_signed_range(bytes);
    assert(pow(256, bytes.len()) == 256 * pow(256, (bytes.len() - 1) as nat)) by {
        reveal(pow);
    }
}

/// The number that the decimal digits in `text` spell.
pub open spec fn decimal_value(text: Seq<char>) -> int
    decreases text.len(),
{
    if text.len() == 0 {
        0
    } else {
        10 * decimal_value(text.drop_last()) + (text.last() as int - '0' as int)
    }
}

/// The decimal text of a number is made of decimal digits that spell it, and
/// starts with a zero only where the number is zero.
pub proof fn law_decimal_spells_the_number(n: nat)
    ensures
        decimal_value(decimal(n)) == n,
        decimal(n).len() > 0,
        forall|i: int| 0 <= i < decimal(n).len() ==> '0' <= #[trigger] decimal(n)[i] <= '9',
        decimal(n)[0] == '0' <==> n == 0,
        n == 0 ==> decimal(n).len() == 1,
    decreases n,
{
    let text = decimal(n);
    if n < 10 {
        assert(text.drop_last() == Seq::<char>::empty());
        assert(decimal_value(text.drop_last()) == 0);
    } else {
        law_decimal_spells_the_number(n / 10);
        assert(text.drop_last() == decimal(n / 10));
        assert(text[0] == decimal(n / 10)[0]);
    }
}

} // verus!
