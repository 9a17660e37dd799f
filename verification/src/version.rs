use crate::buffer::max_bits;
use crate::mode::Mode;
use vstd::prelude::*;

verus! {

/// A capacity class of the symbol: how many data bits it holds and how wide
/// its character count field is.
#[derive(Clone, Copy, Debug, PartialEq, Eq)]
pub struct Version {
    total_bits: usize,
    char_count_bits: usize,
}

impl Version {
    /// The data capacity in bits.
    pub closed spec fn capacity(self) -> nat {
        self.total_bits as nat
    }

    /// The width of the character count field for `mode`, in bits.
    pub closed spec fn count_width(self, mode: Mode) -> nat {
        self.char_count_bits as nat
    }

    /// The capacity is a whole number of bytes that a bit buffer can hold.
    pub open spec fn wf(self) -> bool {
        &&& self.capacity() % 8 == 0
        &&& self.capacity() <= max_bits()
    }

    #[verifier::type_invariant]
    spec fn inv(self) -> bool {
        self.wf()
    }

    /// A version with `total_bits` of capacity and a count field of
    /// `char_count_bits` in every mode; `None` unless the capacity is a
    /// whole number of bytes that a bit buffer can hold.
    pub fn new(total_bits: usize, char_count_bits: usize) -> (out: Option<Version>)
        ensures
            out.is_some() == (total_bits % 8 == 0 && total_bits <= max_bits()),
            out matches Some(v) ==> {
                &&& v.wf()
                &&& v.capacity() == total_bits
                &&& forall|mode: Mode| #[trigger] v.count_width(mode) == char_count_bits
            },
    {
        if total_bits % 8 == 0 && total_bits <= usize::MAX / 8 {
            Some(Version { total_bits, char_count_bits })
        } else {
            None
        }
    }

    /// The data capacity in bits. A version in hand is well formed.
    pub fn total_bits(&self) -> (n: usize)
        ensures
            n == self.capacity(),
            self.wf(),
    {
        proof {
            use_type_invariant(self);
        }
        self.total_bits
    }

    /// The width of the character count field for `mode`, in bits.
    pub fn char_count_len(&self, mode: Mode) -> (n: usize)
        ensures
            n == self.count_width(mode),
    {
        self.char_count_bits
    }
}

} // verus!
