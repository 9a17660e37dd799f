use crate::mode::Mode;
use crate::version::Version;
use vstd::arithmetic::power2::{lemma_pow2_pos, pow2};
use vstd::prelude::*;

verus! {

/// Bit `k` of `v`, bit 0 being the least significant one.
pub open spec fn bit_at(v: nat, k: nat) -> bool {
    (v / pow2(k)) % 2 == 1
}

/// The `width` least significant bits of `v`, most significant bit first.
/// Bits above the highest set bit of `v` are zero.
pub open spec fn value_bits(v: nat, width: nat) -> Seq<bool> {
    Seq::new(width, |i: int| bit_at(v, (width - 1 - i) as nat))
}

/// Eight bits for each byte, in byte order, most significant bit first.
pub open spec fn byte_bits(bytes: Seq<u8>) -> Seq<bool> {
    Seq::new(8 * bytes.len(), |i: int| bit_at(bytes[i / 8] as nat, (7 - i % 8) as nat))
}

/// `n` zero bits.
pub open spec fn zero_bits(n: nat) -> Seq<bool> {
    Seq::new(n, |i: int| false)
}

/// The pad codeword at position `k` of the filler: `0xEC`, `0x11`, `0xEC`, ...
pub open spec fn pad_byte(k: nat) -> u8 {
    if k % 2 == 0 {
        0xEC
    } else {
        0x11
    }
}

/// The first `n` pad codewords.
pub open spec fn pad_bytes(n: nat) -> Seq<u8> {
    Seq::new(n, |k: int| pad_byte(k as nat))
}

/// Terminator length for `rem` bits of room: four bits, or all that is left.
pub open spec fn terminator_len(rem: nat) -> nat {
    if rem < 4 {
        rem
    } else {
        4
    }
}

/// Zero bits that follow the terminator to reach a byte boundary.
pub open spec fn alignment_len(rem: nat) -> nat {
    ((rem - terminator_len(rem)) % 8) as nat
}

/// Number of pad codewords that fill what the terminator and the alignment
/// bits leave of `rem` bits of room.
pub open spec fn pad_count(rem: nat) -> nat {
    ((rem - terminator_len(rem)) / 8) as nat
}

/// What fills `rem` bits of room behind the payload: terminator, alignment
/// bits, pad codewords.
pub open spec fn padding_bits(rem: nat) -> Seq<bool> {
    zero_bits(terminator_len(rem)) + zero_bits(alignment_len(rem)) + byte_bits(
        pad_bytes(pad_count(rem)),
    )
}

/// The mode indicator that opens the frame.
pub open spec fn indicator_bits(mode: Mode) -> Seq<bool> {
    value_bits(mode.indicator_value(), mode.indicator_width())
}

/// The character count field: for the byte mode, the number of bytes.
pub open spec fn count_bits(text: Seq<u8>, mode: Mode, version: Version) -> Seq<bool> {
    value_bits(text.len(), version.count_width(mode))
}

/// The payload: for the byte mode, the bytes as they are.
pub open spec fn payload_bits(text: Seq<u8>, mode: Mode) -> Seq<bool> {
    match mode {
        Mode::Byte => byte_bits(text),
    }
}

/// Mode indicator, character count and payload.
pub open spec fn head_bits(text: Seq<u8>, mode: Mode, version: Version) -> Seq<bool> {
    indicator_bits(mode) + count_bits(text, mode, version) + payload_bits(text, mode)
}

/// The character count can be read back from its field.
pub open spec fn count_fits(text: Seq<u8>, mode: Mode, version: Version) -> bool {
    text.len() < pow2(version.count_width(mode))
}

/// Indicator, count and payload do not pass the capacity.
pub open spec fn fits(text: Seq<u8>, mode: Mode, version: Version) -> bool {
    head_bits(text, mode, version).len() <= version.capacity()
}

/// The capacity that indicator, count and payload leave.
pub open spec fn room(text: Seq<u8>, mode: Mode, version: Version) -> nat {
    if fits(text, mode, version) {
        (version.capacity() - head_bits(text, mode, version).len()) as nat
    } else {
        0
    }
}

/// The whole frame: the head, padded to the capacity.
pub open spec fn frame_bits(text: Seq<u8>, mode: Mode, version: Version) -> Seq<bool> {
    head_bits(text, mode, version) + padding_bits(room(text, mode, version))
}

/// Whether `out` is the mode chosen for a text and its frame for a version.
pub open spec fn is_encoding(text: Seq<u8>, version: Version, out: (Mode, Seq<bool>)) -> bool {
    &&& out.0 == Mode::classify(text)
    &&& out.1 == frame_bits(text, out.0, version)
}

/// Writing zero gives zero bits, whatever the width.
pub proof fn lemma_value_bits_zero(width: nat)
    ensures
        value_bits(0, width) == zero_bits(width),
{
    assert forall|k: nat| !bit_at(0, k) by {
        lemma_pow2_pos(k);
    }
    assert(value_bits(0, width) =~= zero_bits(width));
}

/// The bits of a byte string extended by one byte.
pub proof fn lemma_byte_bits_push(bytes: Seq<u8>, b: u8)
    ensures
        byte_bits(bytes.push(b)) == byte_bits(bytes) + value_bits(b as nat, 8),
{
    let l = byte_bits(bytes.push(b));
    let r = byte_bits(bytes) + value_bits(b as nat, 8);
    assert(l.len() == r.len());
    assert forall|i: int| 0 <= i < l.len() implies l[i] == r[i] by {
        if i < 8 * bytes.len() {
            assert(i / 8 < bytes.len());
        } else {
            assert(i / 8 == bytes.len());
            assert(i % 8 == i - 8 * bytes.len());
        }
    }
    assert(l =~= r);
}

} // verus!
