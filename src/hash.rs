use vstd::prelude::*;

verus! {

/// A 256-bit value (a leaf hash, a signature component, an address
/// coordinate), held as four 64-bit words, least significant first.
#[derive(Clone, Copy, Debug, PartialEq, Eq, Structural)]
pub struct FieldElement {
    pub w0: u64,
    pub w1: u64,
    pub w2: u64,
    pub w3: u64,
}

/// The zero value, which marks an empty leaf.
pub open spec fn zero_spec() -> FieldElement {
    FieldElement { w0: 0, w1: 0, w2: 0, w3: 0 }
}

impl FieldElement {
    /// The zero value.
    pub fn zero() -> (r: FieldElement)
        ensures
            r == zero_spec(),
    {
        FieldElement { w0: 0, w1: 0, w2: 0, w3: 0 }
    }

    /// A value that fits in one word.
    pub fn from_u64(v: u64) -> (r: FieldElement)
        ensures
            r == (FieldElement { w0: v, w1: 0, w2: 0, w3: 0 }),
    {
        FieldElement { w0: v, w1: 0, w2: 0, w3: 0 }
    }

    /// Whether this is the zero value.
    pub fn is_zero(&self) -> (r: bool)
        ensures
            r == (*self == zero_spec()),
    {
        self.w0 == 0 && self.w1 == 0 && self.w2 == 0 && self.w3 == 0
    }
}

} // verus!
