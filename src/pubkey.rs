use vstd::prelude::*;

verus! {

/// Number of bytes in a participant key.
pub const PUBKEY_BYTES: usize = 32;

/// An opaque 32-byte participant key.
///
/// The all-zero key is the sentinel that marks an empty board slot.
#[derive(Clone, Copy, Debug)]
pub struct Pubkey(pub [u8; 32]);

/// The all-zero key, which marks an empty board slot.
pub open spec fn sentinel() -> Pubkey {
    Pubkey(vstd::array::spec_array_fill_for_copy_type::<u8, 32>(0u8))
}

impl Pubkey {
    /// Wraps 32 raw bytes as a key.
    pub fn new_from_array(bytes: [u8; 32]) -> (r: Pubkey)
        ensures
            r.0 == bytes,
    {
        Pubkey(bytes)
    }

    /// The raw bytes of the key.
    pub fn to_bytes(&self) -> (r: [u8; 32])
        ensures
            r == self.0,
    {
        self.0
    }

    /// Byte-wise comparison of two keys.
    pub fn same_key(&self, other: &Pubkey) -> (r: bool)
        ensures
            r == (*self == *other),
    {
        let mut i: usize = 0;
        while i < PUBKEY_BYTES
            invariant
                0 <= i <= 32,
                forall|j: int| 0 <= j < i ==> self.0@[j] == other.0@[j],
            decreases 32 - i,
        {
            if self.0[i] != other.0[i] {
                return false;
            }
            i = i + 1;
        }
        proof {
            assert(self.0 =~= other.0);
        }
        true
    }

    /// True when the key is the all-zero sentinel.
    pub fn is_sentinel(&self) -> (r: bool)
        ensures
            r == (*self == sentinel()),
    {
        let zero = Pubkey::default();
        self.same_key(&zero)
    }
}

impl Default for Pubkey {
    /// The all-zero sentinel key.
    fn default() -> (r: Pubkey)
        ensures
            r == sentinel(),
    {
        Pubkey([0u8; 32])
    }
}

impl PartialEq for Pubkey {
    fn eq(&self, other: &Pubkey) -> (r: bool) {
        self.same_key(other)
    }
}

impl vstd::std_specs::cmp::PartialEqSpecImpl for Pubkey {
    open spec fn obeys_eq_spec() -> bool {
        true
    }

    open spec fn eq_spec(&self, other: &Pubkey) -> bool {
        *self == *other
    }
}

impl Eq for Pubkey {
}

/// One row of the score board: a participant key and its score.
///
/// The default row, with the sentinel key and score zero, is an empty slot.
#[derive(Clone, Copy, Debug)]
pub struct Participant {
    pub pubkey: Pubkey,
    pub score: u64,
}

/// The empty slot.
pub open spec fn empty_slot() -> Participant {
    Participant { pubkey: sentinel(), score: 0 }
}

impl Default for Participant {
    /// An empty slot: the sentinel key with score zero.
    fn default() -> (r: Participant)
        ensures
            r == empty_slot(),
    {
        Participant { pubkey: Pubkey::default(), score: 0 }
    }
}

impl PartialEq for Participant {
    fn eq(&self, other: &Participant) -> (r: bool) {
        self.pubkey.same_key(&other.pubkey) && self.score == other.score
    }
}

impl vstd::std_specs::cmp::PartialEqSpecImpl for Participant {
    open spec fn obeys_eq_spec() -> bool {
        true
    }

    open spec fn eq_spec(&self, other: &Participant) -> bool {
        *self == *other
    }
}

impl Eq for Participant {
}

} // verus!
