//! Identity tokens: who owns an item, and who bids on it.

use vstd::prelude::*;

verus! {

/// An opaque identity token, as the host hands one out for every caller.
///
/// Two tokens name the same party exactly when they hold the same bytes.
#[derive(Debug)]
pub struct Identity {
    bytes: Vec<u8>,
}

impl View for Identity {
    type V = Seq<u8>;

    closed spec fn view(&self) -> Seq<u8> {
        self.bytes@
    }
}

impl Identity {
    /// The token of no bytes, which stands where nobody is named.
    pub fn empty() -> (id: Identity)
        ensures
            id@ == Seq::<u8>::empty(),
    {
        Identity { bytes: Vec::new() }
    }

    /// The token that holds exactly `bytes`.
    pub fn from_slice(bytes: &[u8]) -> (id: Identity)
        ensures
            id@ == bytes@,
    {
        let mut copy: Vec<u8> = Vec::new();
        let mut i: usize = 0;
        while i < bytes.len()
            invariant
                i <= bytes@.len(),
                copy@ == bytes@.subrange(0, i as int),
            decreases bytes@.len() - i,
        {
            copy.push(bytes[i]);
            i = i + 1;
            assert(copy@ =~= bytes@.subrange(0, i as int));
        }
        assert(bytes@.subrange(0, i as int) =~= bytes@);
        Identity { bytes: copy }
    }

    /// The bytes of the token.
    pub fn as_slice(&self) -> (bytes: &[u8])
        ensures
            bytes@ == self@,
    {
        self.bytes.as_slice()
    }
}

impl PartialEq for Identity {
    fn eq(&self, other: &Identity) -> (r: bool) {
        if self.bytes.len() != other.bytes.len() {
            return false;
        }
        let mut i: usize = 0;
        while i < self.bytes.len()
            invariant
                self.bytes@.len() == other.bytes@.len(),
                i <= self.bytes@.len(),
                self.bytes@.subrange(0, i as int) == other.bytes@.subrange(0, i as int),
            decreases self.bytes@.len() - i,
        {
            if self.bytes[i] != other.bytes[i] {
                return false;
            }
            i = i + 1;
            assert(self.bytes@.subrange(0, i as int) =~= self.bytes@.subrange(0, i - 1).push(
                self.bytes@[i - 1],
            ));
            assert(other.bytes@.subrange(0, i as int) =~= other.bytes@.subrange(0, i - 1).push(
                other.bytes@[i - 1],
            ));
        }
        assert(self.bytes@.subrange(0, i as int) =~= self.bytes@);
        assert(other.bytes@.subrange(0, i as int) =~= other.bytes@);
        true
    }
}

impl vstd::std_specs::cmp::PartialEqSpecImpl for Identity {
    open spec fn obeys_eq_spec() -> bool {
        true
    }

    open spec fn eq_spec(&self, other: &Identity) -> bool {
        self@ == other@
    }
}

impl Eq for Identity {

}

impl Clone for Identity {
    fn clone(&self) -> (copy: Identity)
        ensures
            copy@ == self@,
    {
        Identity::from_slice(self.bytes.as_slice())
    }
}

} // verus!
