//! Principals: the identities of users and canisters.

use vstd::prelude::*;

verus! {

/// The largest number of bytes that a principal can hold.
pub const MAX_PRINCIPAL_LENGTH: usize = 29;

/// The identity of a user or a canister: a byte string of at most
/// [`MAX_PRINCIPAL_LENGTH`] bytes.
///
/// Two principals are the same exactly when their byte strings are, which is
/// also what `==` decides.
#[derive(Clone, Copy, Debug)]
pub struct Principal {
    len: u8,
    bytes: [u8; 29],
}

impl View for Principal {
    type V = Seq<u8>;

    closed spec fn view(&self) -> Seq<u8> {
        self.bytes@.subrange(0, self.len as int)
    }
}

impl Principal {
    /// The bytes in use lie inside the buffer.
    #[verifier::type_invariant]
    spec fn length_in_bounds(self) -> bool {
        self.len <= MAX_PRINCIPAL_LENGTH
    }

    /// Makes the principal that consists of `bytes`.
    pub fn from_slice(bytes: &[u8]) -> (principal: Principal)
        requires
            bytes@.len() <= MAX_PRINCIPAL_LENGTH,
        ensures
            principal@ == bytes@,
    {
        let mut buffer: [u8; 29] = [0; 29];
        let len: usize = bytes.len();
        let mut i: usize = 0;
        while i < len
            invariant
                i <= len,
                len == bytes@.len(),
                len <= MAX_PRINCIPAL_LENGTH,
                buffer@.subrange(0, i as int) == bytes@.subrange(0, i as int),
            decreases len - i,
        {
            buffer[i] = bytes[i];
            i = i + 1;
            assert(buffer@.subrange(0, i as int) == bytes@.subrange(0, i as int));
        }
        assert(bytes@.subrange(0, len as int) == bytes@);
        Principal { len: len as u8, bytes: buffer }
    }

    /// The bytes of the principal.
    pub fn as_slice(&self) -> (bytes: &[u8])
        ensures
            bytes@ == self@,
            bytes@.len() <= MAX_PRINCIPAL_LENGTH,
    {
        proof {
            use_type_invariant(self);
        }
        vstd::slice::slice_subrange(self.bytes.as_slice(), 0, self.len as usize)
    }
}

impl PartialEq for Principal {
    fn eq(&self, other: &Principal) -> (same: bool) {
        let left: &[u8] = self.as_slice();
        let right: &[u8] = other.as_slice();
        if left.len() != right.len() {
            return false;
        }
        let mut i: usize = 0;
        while i < left.len()
            invariant
                i <= left@.len(),
                left@.len() == right@.len(),
                left@ == self@,
                right@ == other@,
                forall|j: int| 0 <= j < i ==> left@[j] == right@[j],
            decreases left@.len() - i,
        {
            if left[i] != right[i] {
                return false;
            }
            i = i + 1;
        }
        assert(left@ == right@);
        true
    }
}

impl vstd::std_specs::cmp::PartialEqSpecImpl for Principal {
    open spec fn obeys_eq_spec() -> bool {
        true
    }

    open spec fn eq_spec(&self, other: &Principal) -> bool {
        self@ == other@
    }
}

impl Eq for Principal {

}

} // verus!
