//! The order of texts.

use vstd::prelude::*;
use vstd::utf8::{encode_utf8, encode_utf8_decode_utf8};

verus! {

/// `a` comes before `b` in lexicographic order.
pub open spec fn bytes_before(a: Seq<u8>, b: Seq<u8>) -> bool
    decreases a.len(),
{
    if b.len() == 0 {
        false
    } else if a.len() == 0 {
        true
    } else {
        a[0] < b[0] || (a[0] == b[0] && bytes_before(a.drop_first(), b.drop_first()))
    }
}

/// `a` comes before `b` in the order of texts: lexicographically by the bytes
/// of their UTF-8 encoding.
pub open spec fn text_before(a: Seq<char>, b: Seq<char>) -> bool {
    bytes_before(encode_utf8(a), encode_utf8(b))
}

/// Whether `a` comes before `b`.
pub fn is_before(a: &str, b: &str) -> (before: bool)
    ensures
        before == text_before(a@, b@),
{
    let left: &[u8] = a.as_bytes();
    let right: &[u8] = b.as_bytes();
    let mut i: usize = 0;
    proof {
        assert(left@.skip(0) == left@);
        assert(right@.skip(0) == right@);
    }
    while i < left.len() && i < right.len()
        invariant
            left@ == encode_utf8(a@),
            right@ == encode_utf8(b@),
            i <= left@.len(),
            i <= right@.len(),
            text_before(a@, b@) == bytes_before(left@.skip(i as int), right@.skip(i as int)),
        decreases left@.len() - i,
    {
        if left[i] < right[i] {
            return true;
        }
        if left[i] > right[i] {
            return false;
        }
        proof {
            assert(left@.skip(i as int).drop_first() == left@.skip(i + 1));
            assert(right@.skip(i as int).drop_first() == right@.skip(i + 1));
        }
        i = i + 1;
    }
    i < right.len()
}

/// What comes before comes before all that follows.
proof fn lemma_bytes_transitive(a: Seq<u8>, b: Seq<u8>, c: Seq<u8>)
    requires
        bytes_before(a, b),
        bytes_before(b, c),
    ensures
        bytes_before(a, c),
    decreases a.len(),
{
    if a.len() > 0 && a[0] == b[0] && b[0] == c[0] {
        lemma_bytes_transitive(a.drop_first(), b.drop_first(), c.drop_first());
    }
}

/// Of two different byte strings one comes before the other, and not both.
proof fn lemma_bytes_total(a: Seq<u8>, b: Seq<u8>)
    ensures
        a != b ==> (bytes_before(a, b) <==> !bytes_before(b, a)),
        a == b ==> !bytes_before(a, b),
    decreases a.len(),
{
    if a.len() > 0 && b.len() > 0 {
        lemma_bytes_total(a.drop_first(), b.drop_first());
        if a[0] == b[0] && a.drop_first() == b.drop_first() {
            assert(a == seq![a[0]] + a.drop_first());
            assert(b == seq![b[0]] + b.drop_first());
        }
        if a == b {
            assert(a.drop_first() == b.drop_first());
        }
    } else if a.len() == 0 && b.len() == 0 {
        assert(a == b);
    }
}

/// The order of texts is transitive.
pub proof fn lemma_text_transitive(a: Seq<char>, b: Seq<char>, c: Seq<char>)
    requires
        text_before(a, b),
        text_before(b, c),
    ensures
        text_before(a, c),
{
    lemma_bytes_transitive(encode_utf8(a), encode_utf8(b), encode_utf8(c));
}

/// Of two different texts one comes before the other, and not both.
pub proof fn lemma_text_total(a: Seq<char>, b: Seq<char>)
    ensures
        a != b ==> (text_before(a, b) <==> !text_before(b, a)),
        a == b ==> !text_before(a, b),
{
    encode_utf8_decode_utf8(a);
    encode_utf8_decode_utf8(b);
    lemma_bytes_total(encode_utf8(a), encode_utf8(b));
}

/// `a` and `b` agree on the first `n` bytes and `a` goes below `b` there: `a` ends,
/// or its next byte is smaller.
pub open spec fn parts_at(a: Seq<u8>, b: Seq<u8>, n: int) -> bool {
    &&& 0 <= n <= a.len()
    &&& n < b.len()
    &&& forall|i: int| 0 <= i < n ==> #[trigger] a[i] == b[i]
    &&& n == a.len() || a[n] < b[n]
}

/// One byte string comes before another exactly where, at the first place where
/// they part, it ends or has the smaller byte.
pub proof fn law_order_is_lexicographic(a: Seq<u8>, b: Seq<u8>)
    ensures
        bytes_before(a, b) <==> exists|n: int| parts_at(a, b, n),
    decreases a.len(),
{
    if b.len() > 0 && a.len() > 0 {
        let left = a.drop_first();
        let right = b.drop_first();
        law_order_is_lexicographic(left, right);
        if bytes_before(a, b) {
            if a[0] < b[0] {
                assert(parts_at(a, b, 0));
            } else {
                let n = choose|n: int| parts_at(left, right, n);
                assert forall|i: int| 0 <= i < n + 1 implies #[trigger] a[i] == b[i] by {
                    if i > 0 {
                        assert(left[i - 1] == right[i - 1]);
                    }
                }
                assert(parts_at(a, b, n + 1));
            }
        }
        if exists|n: int| parts_at(a, b, n) {
            let n = choose|n: int| parts_at(a, b, n);
            if n > 0 {
                assert(a[0] == b[0]);
                assert forall|i: int| 0 <= i < n - 1 implies #[trigger] left[i] == right[i] by {
                    assert(a[i + 1] == b[i + 1]);
                }
                assert(parts_at(left, right, n - 1));
            }
        }
    } else if b.len() > 0 {
        assert(parts_at(a, b, 0));
    }
}

/// Texts are ordered as the bytes of their UTF-8 encoding.
pub proof fn law_texts_are_ordered_by_their_bytes(a: Seq<char>, b: Seq<char>)
    ensures
        text_before(a, b) <==> exists|n: int| parts_at(encode_utf8(a), encode_utf8(b), n),
{
    law_order_is_lexicographic(encode_utf8(a), encode_utf8(b));
}

} // verus!
