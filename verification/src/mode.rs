use crate::buffer::BitBuffer;
use crate::data::append;
use crate::layout::indicator_bits;
use vstd::prelude::*;
use vstd::string::StringSliceAdditionalSpecFns;

verus! {

/// How the text is packed into payload bits.
#[derive(Clone, Copy, Debug, PartialEq, Eq, Structural)]
pub enum Mode {
    /// Eight bits for each byte of the text.
    Byte,
}

impl Mode {
    /// The narrowest mode that can represent a text with these bytes. Every
    /// text is representable as raw bytes.
    pub open spec fn classify(text: Seq<u8>) -> Mode {
        Mode::Byte
    }

    /// The value of the mode indicator.
    pub open spec fn indicator_value(self) -> nat {
        match self {
            Mode::Byte => 4,
        }
    }

    /// The width of the mode indicator, in bits.
    pub open spec fn indicator_width(self) -> nat {
        4
    }

    /// The mode for `s`.
    pub fn from_str(s: &str) -> (mode: Mode)
        ensures
            mode == Mode::classify(s.spec_bytes()),
    {
        Mode::Byte
    }

    /// The indicator as a value and the number of its low bits to write.
    pub fn indicator(self) -> (out: (u32, usize))
        ensures
            out.0 == self.indicator_value(),
            out.1 == self.indicator_width(),
    {
        match self {
            Mode::Byte => (0b0100, 4),
        }
    }

    /// The indicator as bits.
    pub fn to_bitvec(self) -> (bv: BitBuffer)
        ensures
            bv@ == indicator_bits(self),
    {
        let (value, width) = self.indicator();
        let mut bv = BitBuffer::new();
        append(&mut bv, value, width);
        bv
    }
}

} // verus!
