//! Account and contract addresses, held by their textual (strkey) form.
use vstd::prelude::*;

verus! {

/// An account or contract address, held as the bytes of its strkey text.
/// Two addresses are the same address exactly when their texts are equal.
pub struct Address {
    pub strkey: Vec<u8>,
}

impl View for Address {
    type V = Seq<u8>;

    open spec fn view(&self) -> Seq<u8> {
        self.strkey@
    }
}

impl Address {
    /// Builds an address from the bytes of its strkey text.
    pub fn from_strkey(strkey: Vec<u8>) -> (a: Address)
        ensures
            a@ == strkey@,
    {
        Address { strkey }
    }

    /// Whether both values name the same address.
    pub fn same_as(&self, other: &Address) -> (r: bool)
        ensures
            r == (self@ == other@),
    {
        let n = self.strkey.len();
        if n != other.strkey.len() {
            return false;
        }
        let mut i: usize = 0;
        while i < n
            invariant
                n == self.strkey@.len(),
                n == other.strkey@.len(),
                i <= n,
                forall|j: int| 0 <= j < i ==> self.strkey@[j] == other.strkey@[j],
            decreases n - i,
        {
            if self.strkey[i] != other.strkey[i] {
                return false;
            }
            i = i + 1;
        }
        assert(self.strkey@ =~= other.strkey@);
        true
    }

    /// A second value naming the same address.
    pub fn duplicate(&self) -> (r: Address)
        ensures
            r@ == self@,
    {
        let mut bytes: Vec<u8> = Vec::new();
        let n = self.strkey.len();
        let mut i: usize = 0;
        while i < n
            invariant
                n == self.strkey@.len(),
                i <= n,
                bytes@ =~= self.strkey@.take(i as int),
            decreases n - i,
        {
            bytes.push(self.strkey[i]);
            i = i + 1;
            assert(bytes@ =~= self.strkey@.take(i as int));
        }
        assert(self.strkey@.take(n as int) =~= self.strkey@);
        Address { strkey: bytes }
    }
}

} // verus!
