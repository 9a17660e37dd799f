use crate::layout::{
    bit_at, byte_bits, fits, frame_bits, head_bits, is_encoding, pad_bytes, pad_count,
    padding_bits, room, value_bits, zero_bits,
};
use crate::mode::Mode;
use crate::version::Version;
use vstd::arithmetic::div_mod::{lemma_div_denominator, lemma_mod_breakdown, lemma_small_mod};
use vstd::arithmetic::power2::{lemma2_to64, lemma_pow2_pos, lemma_pow2_unfold, pow2};
use vstd::prelude::*;

verus! {

/// The number that a run of bits spells, most significant bit first.
pub open spec fn bits_value(s: Seq<bool>) -> nat
    decreases s.len(),
{
    if s.len() == 0 {
        0
    } else {
        2 * bits_value(s.drop_last()) + if s.last() {
            1nat
        } else {
            0nat
        }
    }
}

/// The bytes that a run of bits spells, eight bits to a byte, most
/// significant bit first. Bits behind the last whole byte are left out.
pub open spec fn decode_bytes(s: Seq<bool>) -> Seq<u8> {
    Seq::new(s.len() / 8, |k: int| bits_value(s.subrange(8 * k, 8 * k + 8)) as u8)
}

/// Bit `k + 1` of a number is bit `k` of its half.
proof fn lemma_bit_at_half(v: nat, k: nat)
    ensures
        bit_at(v, k + 1) == bit_at(v / 2, k),
{
    lemma_pow2_unfold(k + 1);
    lemma_pow2_pos(k);
    lemma_div_denominator(v as int, 2, pow2(k) as int);
}

/// Reading back the `width` low bits of `v` gives `v` modulo `2^width`.
pub proof fn lemma_bits_value_of_value_bits(v: nat, width: nat)
    ensures
        bits_value(value_bits(v, width)) == v % pow2(width),
    decreases width,
{
    let s = value_bits(v, width);
    if width == 0 {
        lemma2_to64();
    } else {
        let w = (width - 1) as nat;
        assert(s.drop_last() =~= value_bits(v / 2, w)) by {
            assert forall|i: int| 0 <= i < w implies s.drop_last()[i] == value_bits(v / 2, w)[i] by {
                lemma_bit_at_half(v, (w - 1 - i) as nat);
            }
        }
        lemma_bits_value_of_value_bits(v / 2, w);
        lemma2_to64();
        assert(s.last() == bit_at(v, 0));
        assert(pow2(0) == 1);
        assert(s.last() == (v % 2 == 1));
        lemma_pow2_unfold(width);
        lemma_pow2_pos(w);
        lemma_mod_breakdown(v as int, 2, pow2(w) as int);
    }
}

/// Regrouping the bits of a byte string by eight gives the bytes back.
pub proof fn lemma_decode_byte_bits(bytes: Seq<u8>)
    ensures
        decode_bytes(byte_bits(bytes)) == bytes,
{
    let s = byte_bits(bytes);
    assert(s.len() / 8 == bytes.len());
    assert forall|k: int| 0 <= k < bytes.len() implies decode_bytes(s)[k] == bytes[k] by {
        let chunk = s.subrange(8 * k, 8 * k + 8);
        assert(chunk =~= value_bits(bytes[k] as nat, 8)) by {
            assert forall|j: int| 0 <= j < 8 implies chunk[j] == value_bits(bytes[k] as nat, 8)[j] by {
                assert((8 * k + j) / 8 == k);
                assert((8 * k + j) % 8 == j);
            }
        }
        lemma_bits_value_of_value_bits(bytes[k] as nat, 8);
        lemma2_to64();
        lemma_small_mod(bytes[k] as nat, 256);
    }
    assert(decode_bytes(s) =~= bytes);
}

/// A frame for a text that fits has exactly the capacity of its version as
/// its length, and that is a whole number of bytes.
pub proof fn lemma_frame_len(text: Seq<u8>, mode: Mode, version: Version)
    requires
        version.wf(),
        fits(text, mode, version),
    ensures
        frame_bits(text, mode, version).len() == version.capacity(),
        frame_bits(text, mode, version).len() % 8 == 0,
{
}

/// Encoding has no hidden state: any two outcomes for the same text and
/// version are the same mode and the same bits.
pub proof fn lemma_encode_deterministic(
    text: Seq<u8>,
    version: Version,
    first: (Mode, Seq<bool>),
    second: (Mode, Seq<bool>),
)
    requires
        is_encoding(text, version, first),
        is_encoding(text, version, second),
    ensures
        first == second,
{
}

/// In the byte mode, the bits behind the indicator and the count field,
/// regrouped by eight, are the bytes of the text.
pub proof fn lemma_payload_round_trip(text: Seq<u8>, version: Version)
    ensures
        ({
            let start = Mode::Byte.indicator_width() + version.count_width(Mode::Byte);
            decode_bytes(
                frame_bits(text, Mode::Byte, version).subrange(
                    start as int,
                    (start + 8 * text.len()) as int,
                ),
            ) == text
        }),
{
    let start = Mode::Byte.indicator_width() + version.count_width(Mode::Byte);
    let frame = frame_bits(text, Mode::Byte, version);
    assert(frame.subrange(start as int, (start + 8 * text.len()) as int) =~= byte_bits(text));
    lemma_decode_byte_bits(text);
}

/// With one to four bits of room behind the payload, the frame ends in
/// exactly that many zero bits: the terminator is cut to the room.
pub proof fn lemma_short_terminator(text: Seq<u8>, mode: Mode, version: Version)
    requires
        fits(text, mode, version),
        1 <= room(text, mode, version) <= 4,
    ensures
        frame_bits(text, mode, version) == head_bits(text, mode, version) + zero_bits(
            room(text, mode, version),
        ),
{
    let rem = room(text, mode, version);
    assert(padding_bits(rem) =~= zero_bits(rem));
}

/// With no room behind the payload, nothing follows it: no terminator, no
/// alignment bits, no pad codewords.
pub proof fn lemma_no_room_no_padding(text: Seq<u8>, mode: Mode, version: Version)
    requires
        fits(text, mode, version),
        room(text, mode, version) == 0,
    ensures
        frame_bits(text, mode, version) == head_bits(text, mode, version),
{
    assert(padding_bits(0) =~= Seq::<bool>::empty());
    assert(frame_bits(text, mode, version) =~= head_bits(text, mode, version));
}

/// The frame ends in its pad codewords: the last bits, regrouped by eight,
/// are `0xEC`, `0x11`, `0xEC`, ... as many as the room takes.
pub proof fn lemma_trailing_pad_codewords(text: Seq<u8>, mode: Mode, version: Version)
    requires
        fits(text, mode, version),
    ensures
        ({
            let frame = frame_bits(text, mode, version);
            let pads = pad_count(room(text, mode, version));
            decode_bytes(frame.subrange(frame.len() - 8 * pads, frame.len() as int)) == pad_bytes(
                pads,
            )
        }),
{
    let frame = frame_bits(text, mode, version);
    let pads = pad_count(room(text, mode, version));
    assert(frame.subrange(frame.len() - 8 * pads, frame.len() as int) =~= byte_bits(
        pad_bytes(pads),
    ));
    lemma_decode_byte_bits(pad_bytes(pads));
}

/// A frame with exactly three pad codewords ends in `0xEC`, `0x11`, `0xEC`.
pub proof fn lemma_three_pad_codewords(text: Seq<u8>, mode: Mode, version: Version)
    requires
        fits(text, mode, version),
        pad_count(room(text, mode, version)) == 3,
    ensures
        ({
            let frame = frame_bits(text, mode, version);
            decode_bytes(frame.subrange(frame.len() - 24, frame.len() as int)) == seq![
                0xECu8,
                0x11u8,
                0xECu8,
            ]
        }),
{
    lemma_trailing_pad_codewords(text, mode, version);
    assert(pad_bytes(3) =~= seq![0xECu8, 0x11u8, 0xECu8]);
}

} // verus!
