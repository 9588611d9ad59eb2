//! Candid replies of other canisters.

use vstd::prelude::*;
use vstd::utf8::encode_utf8;

verus! {

/// `n` in LEB128: seven bits a byte, the least significant first, the high bit
/// set on every byte but the last.
pub open spec fn leb128(n: nat) -> Seq<u8>
    decreases n,
{
    if n < 128 {
        seq![n as u8]
    } else {
        seq![(128 + n % 128) as u8] + leb128(n / 128)
    }
}

/// `message` begins with the magic bytes of Candid.
pub open spec fn has_magic(message: Seq<u8>) -> bool {
    seq![0x44u8, 0x49u8, 0x44u8, 0x4cu8].is_prefix_of(message)
}

/// The Candid message that holds one value of type `nat`, the number `n`: the
/// magic bytes, no type definitions, one value of type `nat`, and `n`.
pub open spec fn nat_message(n: nat) -> Seq<u8> {
    seq![0x44u8, 0x49u8, 0x44u8, 0x4cu8, 0x00u8, 0x01u8, 0x7du8] + leb128(n)
}

/// What stands before the value in a Candid message that holds one value of
/// type `variant { Ok; Err : text }`: the magic bytes, the definition of that
/// type with the hashes of its two labels, and one value of it.
pub open spec fn text_result_header() -> Seq<u8> {
    seq![
        0x44u8, 0x49u8, 0x44u8, 0x4cu8,
        0x01u8,
        0x6bu8, 0x02u8,
        0xbcu8, 0x8au8, 0x01u8, 0x7fu8,
        0xc5u8, 0xfeu8, 0xd2u8, 0x01u8, 0x71u8,
        0x01u8, 0x00u8,
    ]
}

/// The Candid message that holds `Ok` of type `variant { Ok; Err : text }`.
pub open spec fn ok_message() -> Seq<u8> {
    text_result_header() + seq![0x00u8]
}

/// The Candid message that holds `Err` with `text`, of type
/// `variant { Ok; Err : text }`.
pub open spec fn err_message(text: Seq<char>) -> Seq<u8> {
    text_result_header() + seq![0x01u8] + leb128(encode_utf8(text).len()) + encode_utf8(text)
}

/// `message` is `whole` cut short, or `whole` with further bytes after it.
pub open spec fn cut_or_extended(message: Seq<u8>, whole: Seq<u8>) -> bool {
    message != whole && (message.is_prefix_of(whole) || whole.is_prefix_of(message))
}

/// `message` defines no types, and its first value, if it has one, is of another
/// type than `nat`.
pub open spec fn starts_with_no_nat(message: Seq<u8>) -> bool {
    &&& message.len() >= 6
    &&& message[4] == 0
    &&& {
        ||| message[5] == 0
        ||| message.len() >= 7 && message[5] < 0x80 && message[6] < 0x80 && message[6] != 0x7d
    }
}

/// `message` is of a form that never holds a number: it has not the magic bytes;
/// it defines no types and starts with no number; or it is the message of a
/// number cut short or with bytes after it.
pub open spec fn never_nat(message: Seq<u8>) -> bool {
    ||| !has_magic(message)
    ||| starts_with_no_nat(message)
    ||| exists|n: nat| cut_or_extended(message, #[trigger] nat_message(n))
}

/// `message` has no place for a value of type `variant { Ok; Err : text }`: it
/// defines no types, or a single one that is no variant, or it has such a value
/// with a label beyond the two.
pub open spec fn starts_with_no_text_result(message: Seq<u8>) -> bool {
    ||| message.len() >= 5 && message[4] == 0
    ||| message.len() >= 6 && message[4] == 1 && message[5] != 0x6b
    ||| {
        let label = text_result_header().len() as int;
        &&& text_result_header().is_prefix_of(message)
        &&& message.len() > label
        &&& 2 <= message[label] < 0x80
    }
}

/// `message` is of a form that never holds a result: it has not the magic bytes;
/// it has no place for one; or it is the message of one cut short or with bytes
/// after it.
pub open spec fn never_text_result(message: Seq<u8>) -> bool {
    ||| !has_magic(message)
    ||| starts_with_no_text_result(message)
    ||| cut_or_extended(message, ok_message())
    ||| exists|text: Seq<char>| cut_or_extended(message, #[trigger] err_message(text))
}

/// The number in `message`, where `candid::decode_one` decodes it as a
/// `candid::Nat`.
pub uninterp spec fn nat_in(message: Seq<u8>) -> nat;

/// The result in `message`, where `candid::decode_one` decodes it as a
/// `Result<(), String>`.
pub uninterp spec fn text_result_in(message: Seq<u8>) -> Result<(), Seq<char>>;

/// What `result` stands for.
pub open spec fn text_result(result: Result<(), String>) -> Result<(), Seq<char>> {
    match result {
        Ok(_) => Ok(()),
        Err(text) => Err(text@),
    }
}

/// Calls `candid::decode_one` for a `candid::Nat` and hands out the number's
/// bytes with `BigUint::to_bytes_le`. Claimed: a message of the forms that
/// [`never_nat`] lists is not decoded; where `message` is decoded, the number
/// depends on it alone, and from the message of a number come the bytes of that
/// number, the least significant first. Which messages of other forms are decoded
/// is left open, and not claimed is that a message is decoded at all. On native
/// targets the decoder gives up when the stack it runs on is short. On wasm it
/// does not look at the stack, and a message with a further argument that is
/// deeply nested exhausts it, which traps.
#[verifier::external_body]
pub(crate) fn decode_nat(message: &[u8]) -> (decoded: Option<Vec<u8>>)
    ensures
        never_nat(message@) ==> decoded is None,
        decoded is Some ==> nat_in(message@) == crate::numbers::unsigned_value(decoded->0@),
        forall|n: nat|
            decoded is Some && message@ == #[trigger] nat_message(n)
                ==> crate::numbers::unsigned_value(decoded->0@) == n,
{
    match candid::decode_one::<candid::Nat>(message) {
        Ok(number) => Some(number.0.to_bytes_le()),
        Err(_) => None,
    }
}

/// Calls `candid::decode_one` for a `Result<(), String>`; the outer error is the
/// decoder's own text. Claimed: a message of the forms that [`never_text_result`]
/// lists is not decoded; where `message` is decoded, the result depends on it
/// alone, and from the message of `Ok` comes `Ok`, and from that of `Err` with a
/// text comes `Err` with that text. Which messages of other forms are decoded is
/// left open. Nothing is claimed of the decoder's text, which differs between
/// machines, nor that a message is decoded at all. On native targets the decoder
/// gives up when the stack it runs on is short. On wasm it does not look at the
/// stack, and a message with a further argument that is deeply nested exhausts
/// it, which traps.
#[verifier::external_body]
pub(crate) fn decode_text_result(message: &[u8]) -> (decoded: Result<Result<(), String>, String>)
    ensures
        never_text_result(message@) ==> decoded is Err,
        decoded is Ok ==> text_result(decoded->Ok_0) == text_result_in(message@),
        decoded is Ok && message@ == ok_message() ==> decoded->Ok_0 is Ok,
        forall|text: Seq<char>|
            decoded is Ok && message@ == #[trigger] err_message(text) ==> decoded->Ok_0 is Err
                && decoded->Ok_0->Err_0@ == text,
{
    match candid::decode_one::<Result<(), String>>(message) {
        Ok(result) => Ok(result),
        Err(error) => Err(error.to_string()),
    }
}

/// A call of the decoder for numbers on `message` gave `decoded`.
pub closed spec fn nat_decoded(message: Seq<u8>, decoded: Option<Vec<u8>>) -> bool {
    exists|slice: &[u8]| slice@ == message && call_ensures(decode_nat, (slice,), decoded)
}

/// A call of the decoder for results on `message` gave `decoded`.
pub closed spec fn text_result_decoded(
    message: Seq<u8>,
    decoded: Result<Result<(), String>, String>,
) -> bool {
    exists|slice: &[u8]| slice@ == message && call_ensures(decode_text_result, (slice,), decoded)
}

/// What a call of the decoder for numbers gave.
pub(crate) proof fn lemma_nat_decoded(message: &[u8], decoded: Option<Vec<u8>>)
    requires
        call_ensures(decode_nat, (message,), decoded),
    ensures
        nat_decoded(message@, decoded),
{
}

/// What a call of the decoder for results gave.
pub(crate) proof fn lemma_text_result_decoded(
    message: &[u8],
    decoded: Result<Result<(), String>, String>,
)
    requires
        call_ensures(decode_text_result, (message,), decoded),
    ensures
        text_result_decoded(message@, decoded),
{
}

/// Reading the message of `n` gives `n`, where the decoder reads it at all, and
/// two readings of any message that both succeed give one number. A message of the
/// forms that never hold a number gives none.
pub proof fn law_read_gives_what_was_written(
    message: Seq<u8>,
    first: Option<Vec<u8>>,
    second: Option<Vec<u8>>,
    n: nat,
)
    requires
        nat_decoded(message, first),
        nat_decoded(message, second),
    ensures
        first is Some && message == nat_message(n) ==> crate::numbers::unsigned_value(first->0@)
            == n,
        never_nat(message) ==> first is None,
        first is Some && second is Some ==> crate::numbers::unsigned_value(first->0@)
            == crate::numbers::unsigned_value(second->0@),
{
    let slice = choose|slice: &[u8]|
        slice@ == message && call_ensures(decode_nat, (slice,), first);
    assert(slice@ == message);
}

/// Reading the message of `Ok` gives `Ok` and that of `Err` with `text` gives `Err`
/// with `text`, where the decoder reads it at all, and two readings of any
/// message that both succeed agree.
pub proof fn law_read_gives_the_result_that_was_written(
    message: Seq<u8>,
    first: Result<Result<(), String>, String>,
    second: Result<Result<(), String>, String>,
    text: Seq<char>,
)
    requires
        text_result_decoded(message, first),
        text_result_decoded(message, second),
    ensures
        never_text_result(message) ==> first is Err,
        first is Ok && message == ok_message() ==> first->Ok_0 is Ok,
        first is Ok && message == err_message(text) ==> first->Ok_0 is Err
            && first->Ok_0->Err_0@ == text,
        first is Ok && second is Ok && first->Ok_0 is Ok ==> second->Ok_0 is Ok,
        first is Ok && second is Ok && first->Ok_0 is Err ==> second->Ok_0 is Err
            && first->Ok_0->Err_0@ == second->Ok_0->Err_0@,
{
    let slice = choose|slice: &[u8]|
        slice@ == message && call_ensures(decode_text_result, (slice,), first);
    assert(slice@ == message);
    let other = choose|other: &[u8]|
        other@ == message && call_ensures(decode_text_result, (other,), second);
    assert(text_result(first->Ok_0) == text_result_in(slice@) || first is Err);
    assert(text_result(second->Ok_0) == text_result_in(other@) || second is Err);
}

/// In LEB128 no number is the beginning of another.
proof fn lemma_leb128_prefix_free(a: nat, b: nat)
    requires
        leb128(a).is_prefix_of(leb128(b)),
    ensures
        a == b,
    decreases a,
{
    let left = leb128(a);
    let right = leb128(b);
    assert(left[0] == right[0]);
    if a >= 128 && b >= 128 {
        let left_rest = leb128(a / 128);
        let right_rest = leb128(b / 128);
        assert(left.drop_first() == left_rest);
        assert(right.drop_first() == right_rest);
        assert forall|i: int| 0 <= i < left_rest.len() implies left_rest[i] == right_rest[i] by {
            assert(left[i + 1] == right[i + 1]);
        }
        lemma_leb128_prefix_free(a / 128, b / 128);
    }
}

/// One message of a number is never another one cut short or extended.
proof fn lemma_nat_messages_apart(a: nat, b: nat)
    requires
        nat_message(a).is_prefix_of(nat_message(b)),
    ensures
        a == b,
{
    let left = nat_message(a);
    let right = nat_message(b);
    assert forall|i: int| 0 <= i < leb128(a).len() implies leb128(a)[i] == leb128(b)[i] by {
        assert(left[i + 7] == right[i + 7]);
    }
    lemma_leb128_prefix_free(a, b);
}

/// The messages of numbers are not among the forms that never hold a number,
/// and different numbers have different messages.
pub proof fn law_number_messages_can_be_read(a: nat, b: nat)
    ensures
        !never_nat(nat_message(a)),
        nat_message(a) == nat_message(b) <==> a == b,
{
    let message = nat_message(a);
    if exists|n: nat| cut_or_extended(message, #[trigger] nat_message(n)) {
        let n = choose|n: nat| cut_or_extended(message, #[trigger] nat_message(n));
        if message.is_prefix_of(nat_message(n)) {
            lemma_nat_messages_apart(a, n);
        } else {
            lemma_nat_messages_apart(n, a);
        }
    }
    if nat_message(a) == nat_message(b) {
        lemma_nat_messages_apart(a, b);
    }
}

/// What stands before the bytes of the text in [`err_message`].
spec fn err_front(len: nat) -> Seq<u8> {
    text_result_header() + seq![0x01u8] + leb128(len)
}

/// One message of an error is never another one cut short or extended.
proof fn lemma_err_messages_apart(a: Seq<char>, b: Seq<char>)
    requires
        err_message(a).is_prefix_of(err_message(b)),
    ensures
        err_message(a) == err_message(b),
{
    let left = err_message(a);
    let right = err_message(b);
    let len_a = encode_utf8(a).len();
    let len_b = encode_utf8(b).len();
    let label = text_result_header().len() as int;
    assert(left == err_front(len_a) + encode_utf8(a));
    assert(right == err_front(len_b) + encode_utf8(b));
    let (short, long) = if leb128(len_a).len() <= leb128(len_b).len() {
        (len_a, len_b)
    } else {
        (len_b, len_a)
    };
    assert forall|i: int| 0 <= i < leb128(short).len() implies leb128(short)[i] == leb128(
        long,
    )[i] by {
        assert(left[label + 1 + i] == right[label + 1 + i]);
    }
    lemma_leb128_prefix_free(short, long);
    assert(left.len() == right.len());
    assert(left =~= right);
}

/// The messages of results are not among the forms that never hold a result,
/// and that of `Ok` is none of `Err`.
pub proof fn law_result_messages_can_be_read(text: Seq<char>)
    ensures
        !never_text_result(ok_message()),
        !never_text_result(err_message(text)),
        ok_message() != err_message(text),
{
    let label = text_result_header().len() as int;
    let message = err_message(text);
    assert(ok_message()[label] == 0);
    assert forall|other: Seq<char>| #[trigger] err_message(other)[label] == 1 by {}
    assert(message[label] == 1);
    if exists|other: Seq<char>| cut_or_extended(message, #[trigger] err_message(other)) {
        let other = choose|other: Seq<char>| cut_or_extended(message, #[trigger] err_message(other));
        if message.is_prefix_of(err_message(other)) {
            lemma_err_messages_apart(text, other);
        } else {
            lemma_err_messages_apart(other, text);
        }
    }
    if exists|other: Seq<char>| cut_or_extended(ok_message(), #[trigger] err_message(other)) {
        let other = choose|other: Seq<char>|
            cut_or_extended(ok_message(), #[trigger] err_message(other));
        assert(err_message(other)[label] == 1);
    }
}

} // verus!
