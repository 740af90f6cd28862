use vstd::prelude::*;

verus! {

/// An account or contract identity, held as the bytes of its encoded key.
#[derive(Clone, Debug)]
pub struct Principal {
    key: Vec<u8>,
}

impl View for Principal {
    type V = Seq<u8>;

    closed spec fn view(&self) -> Seq<u8> {
        self.key@
    }
}

impl Principal {
    pub fn from_bytes(bytes: &[u8]) -> (r: Principal)
        ensures
            r@ == bytes@,
    {
        let mut key: Vec<u8> = Vec::new();
        let mut i: usize = 0;
        while i < bytes.len()
            invariant
                i <= bytes@.len(),
                key@ == bytes@.subrange(0, i as int),
            decreases bytes@.len() - i,
        {
            key.push(bytes[i]);
            i = i + 1;
            assert(key@ =~= bytes@.subrange(0, i as int));
        }
        assert(key@ =~= bytes@);
        Principal { key }
    }

    pub fn as_bytes(&self) -> (r: &[u8])
        ensures
            r@ == self@,
    {
        self.key.as_slice()
    }

    /// Whether both name the same identity.
    pub fn same(&self, other: &Principal) -> (r: bool)
        ensures
            r == (self@ == other@),
    {
        if self.key.len() != other.key.len() {
            return false;
        }
        let mut i: usize = 0;
        while i < self.key.len()
            invariant
                self.key@.len() == other.key@.len(),
                i <= self.key@.len(),
                forall|k: int| 0 <= k < i ==> self.key@[k] == other.key@[k],
            decreases self.key@.len() - i,
        {
            if self.key[i] != other.key[i] {
                return false;
            }
            i = i + 1;
        }
        assert(self.key@ =~= other.key@);
        true
    }

    /// A second value naming the same identity.
    pub fn duplicate(&self) -> (r: Principal)
        ensures
            r@ == self@,
    {
        Principal::from_bytes(self.key.as_slice())
    }
}

} // verus!
