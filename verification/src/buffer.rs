use bitvec::order::Lsb0;
use bitvec::vec::BitVec;
use vstd::prelude::*;

verus! {

/// A growable sequence of bits, stored in a `bitvec::vec::BitVec<Lsb0, u8>`.
///
/// Verus does not look inside: everything it knows of a buffer is the
/// sequence [`bits`] and what the functions of this module state of it.
#[verifier::external_body]
#[derive(Debug, PartialEq, Eq)]
pub struct BitBuffer {
    inner: BitVec<Lsb0, u8>,
}

/// The bits that a buffer holds, in index order.
pub uninterp spec fn bits(buf: BitBuffer) -> Seq<bool>;

impl View for BitBuffer {
    type V = Seq<bool>;

    open spec fn view(&self) -> Seq<bool> {
        bits(*self)
    }
}

/// The largest number of bits that a buffer can hold.
pub open spec fn max_bits() -> nat {
    (usize::MAX / 8) as nat
}

/// `BitVec::new`: a buffer without bits.
#[verifier::external_body]
pub(crate) fn raw_new() -> (buf: BitBuffer)
    ensures
        bits(buf) == Seq::<bool>::empty(),
{
    BitBuffer { inner: BitVec::new() }
}

/// `BitSlice::len`, reached through `BitVec`'s `Deref`: the number of bits.
#[verifier::external_body]
pub(crate) fn raw_len(buf: &BitBuffer) -> (n: usize)
    ensures
        n == bits(*buf).len(),
{
    buf.inner.len()
}

/// `Extend::<bool>::extend` of `BitVec`: pushes the bits of `src` in order
/// onto the end. It panics when the new length passes `BitPtr::MAX_BITS`.
#[verifier::external_body]
pub(crate) fn raw_extend(buf: &mut BitBuffer, src: Vec<bool>)
    requires
        bits(*old(buf)).len() + src@.len() <= max_bits(),
    ensures
        bits(*final(buf)) == bits(*old(buf)) + src@,
{
    buf.inner.extend(src)
}

/// `BitVec::append`: moves the bits of `other` onto the end of `buf`, in
/// order, and leaves `other` empty. It extends and so panics as
/// [`raw_extend`] does.
#[verifier::external_body]
pub(crate) fn raw_append(buf: &mut BitBuffer, other: &mut BitBuffer)
    requires
        bits(*old(buf)).len() + bits(*old(other)).len() <= max_bits(),
    ensures
        bits(*final(buf)) == bits(*old(buf)) + bits(*old(other)),
        bits(*final(other)) == Seq::<bool>::empty(),
{
    buf.inner.append(&mut other.inner)
}

/// `BitVec::reserve`: makes room for `additional` more bits and leaves the
/// bits as they are. It panics when the length and `additional` together
/// pass `BitPtr::MAX_BITS`.
#[verifier::external_body]
pub(crate) fn raw_reserve(buf: &mut BitBuffer, additional: usize)
    requires
        bits(*old(buf)).len() + additional <= max_bits(),
    ensures
        bits(*final(buf)) == bits(*old(buf)),
{
    buf.inner.reserve(additional)
}

/// `Index::<usize>::index` of `BitVec`: the bit at `index`. It panics when
/// `index` is not below the length.
#[verifier::external_body]
pub(crate) fn raw_bit(buf: &BitBuffer, index: usize) -> (bit: bool)
    requires
        index < bits(*buf).len(),
    ensures
        bit == bits(*buf)[index as int],
{
    buf.inner[index]
}

impl BitBuffer {
    /// A buffer without bits.
    pub fn new() -> (buf: BitBuffer)
        ensures
            buf@ == Seq::<bool>::empty(),
    {
        raw_new()
    }

    /// The number of bits held.
    pub fn len(&self) -> (n: usize)
        ensures
            n == self@.len(),
    {
        raw_len(self)
    }

    /// The bit at `index`, or `None` past the end.
    pub fn get(&self, index: usize) -> (bit: Option<bool>)
        ensures
            bit == if index < self@.len() {
                Some(self@[index as int])
            } else {
                None
            },
    {
        if index < raw_len(self) {
            Some(raw_bit(self, index))
        } else {
            None
        }
    }

    /// The bits, in index order.
    pub fn to_vec(&self) -> (out: Vec<bool>)
        ensures
            out@ == self@,
    {
        let n = raw_len(self);
        let mut out: Vec<bool> = Vec::new();
        let mut i: usize = 0;
        while i < n
            invariant
                n == self@.len(),
                i <= n,
                out@ == self@.take(i as int),
            decreases n - i,
        {
            out.push(raw_bit(self, i));
            i += 1;
            assert(self@.take(i as int) == self@.take(i - 1).push(self@[i - 1]));
        }
        assert(self@.take(n as int) == self@);
        out
    }
}

} // verus!
