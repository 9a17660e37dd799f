use crate::buffer::{max_bits, raw_append, raw_extend, raw_reserve, BitBuffer};
use crate::layout::{
    alignment_len, bit_at, byte_bits, count_fits, fits, frame_bits, head_bits, is_encoding,
    lemma_byte_bits_push, lemma_value_bits_zero, pad_byte, pad_bytes, pad_count, payload_bits,
    room, terminator_len, value_bits, zero_bits,
};
use crate::mode::Mode;
use crate::version::Version;
use vstd::arithmetic::div_mod::{lemma_basic_div, lemma_fundamental_div_mod};
use vstd::arithmetic::power2::{lemma2_to64, lemma_pow2_pos, lemma_pow2_strictly_increases, pow2};
use vstd::bits::lemma_u64_shr_is_div;
use vstd::prelude::*;
use vstd::slice::slice_to_vec;
use vstd::string::StringSliceAdditionalSpecFns;

verus! {

/// Why a text cannot be encoded for a version.
#[derive(Clone, Copy, Debug, PartialEq, Eq, Structural)]
pub enum EncodeError {
    /// The character count does not fit into the count field.
    DataTooLarge,
    /// Indicator, count and payload together pass the capacity.
    CapacityExceeded,
}

/// Bit `k` of `v`; zero from bit 64 on.
fn bit_of(v: u64, k: usize) -> (bit: bool)
    ensures
        bit == bit_at(v as nat, k as nat),
{
    if k < 64 {
        let shifted: u64 = v >> k;
        proof {
            lemma_u64_shr_is_div(v, k as u64);
            assert((shifted & 1 != 0) == (shifted % 2 == 1)) by (bit_vector);
        }
        shifted & 1 != 0
    } else {
        proof {
            lemma2_to64();
            if k > 64 {
                lemma_pow2_strictly_increases(64, k as nat);
            }
            lemma_basic_div(v as int, pow2(k as nat) as int);
        }
        false
    }
}

/// Writes the `len` low bits of `v` onto the end of `bv`, most significant
/// bit first.
pub(crate) fn write_bits(bv: &mut BitBuffer, v: u64, len: usize)
    requires
        old(bv)@.len() + len <= max_bits(),
    ensures
        final(bv)@ == old(bv)@ + value_bits(v as nat, len as nat),
{
    let mut out: Vec<bool> = Vec::new();
    let mut i: usize = 0;
    while i < len
        invariant
            i <= len,
            out@ == value_bits(v as nat, len as nat).take(i as int),
        decreases len - i,
    {
        out.push(bit_of(v, len - 1 - i));
        i += 1;
        assert(out@ =~= value_bits(v as nat, len as nat).take(i as int));
    }
    assert(out@ =~= value_bits(v as nat, len as nat));
    raw_extend(bv, out);
}

/// Writes the `len` low bits of `v` onto the end of `bv`, most significant
/// bit first. With `len` above 32 the leading bits are zero.
pub fn append(bv: &mut BitBuffer, v: u32, len: usize)
    requires
        old(bv)@.len() + len <= max_bits(),
    ensures
        final(bv)@ == old(bv)@ + value_bits(v as nat, len as nat),
        final(bv)@.len() == old(bv)@.len() + len,
{
    write_bits(bv, v as u64, len);
}

/// The character count field for a text of `len` units.
pub fn bitvec_char_count(len: usize, mode: Mode, v: Version) -> (bv: BitBuffer)
    requires
        v.count_width(mode) <= max_bits(),
    ensures
        bv@ == value_bits(len as nat, v.count_width(mode)),
{
    let mut bv = BitBuffer::new();
    write_bits(&mut bv, len as u64, v.char_count_len(mode));
    bv
}

/// The bytes that stand for `s` in `mode`.
pub fn string_to_bytes(s: &str, mode: Mode) -> (bytes: Vec<u8>)
    ensures
        bytes@ == s.spec_bytes(),
{
    match mode {
        Mode::Byte => slice_to_vec(s.as_bytes()),
    }
}

/// Eight bits for each byte, most significant bit first.
pub fn encode_byte_data(v: &Vec<u8>) -> (bv: BitBuffer)
    requires
        8 * v@.len() <= max_bits(),
    ensures
        bv@ == byte_bits(v@),
{
    let mut bv = BitBuffer::new();
    let mut i: usize = 0;
    while i < v.len()
        invariant
            i <= v@.len(),
            8 * v@.len() <= max_bits(),
            bv@ == byte_bits(v@.take(i as int)),
        decreases v@.len() - i,
    {
        proof {
            lemma_byte_bits_push(v@.take(i as int), v@[i as int]);
            assert(v@.take(i + 1) == v@.take(i as int).push(v@[i as int]));
        }
        append(&mut bv, v[i] as u32, 8);
        i += 1;
    }
    assert(v@.take(v@.len() as int) == v@);
    bv
}

/// The payload bits of `s` in `mode`.
pub fn bitvec_data(s: &str, mode: Mode) -> (bv: BitBuffer)
    requires
        8 * s.spec_bytes().len() <= max_bits(),
    ensures
        bv@ == payload_bits(s.spec_bytes(), mode),
{
    let bytes = string_to_bytes(s, mode);
    match mode {
        Mode::Byte => encode_byte_data(&bytes),
    }
}

/// The pad codeword at position `k` of the filler.
fn pad_codeword(k: usize) -> (pad: u8)
    ensures
        pad == pad_byte(k as nat),
{
    if k % 2 == 0 {
        0xEC
    } else {
        0x11
    }
}

/// Encodes `s` in `mode` into the data bits of a symbol of `version`: mode
/// indicator, character count, payload, then terminator, alignment bits and
/// pad codewords up to the capacity.
pub fn encode_with_mode(s: &str, mode: Mode, version: Version) -> (bv: BitBuffer)
    requires
        count_fits(s.spec_bytes(), mode, version),
        fits(s.spec_bytes(), mode, version),
    ensures
        bv@ == frame_bits(s.spec_bytes(), mode, version),
        bv@.len() == version.capacity(),
        bv@.len() % 8 == 0,
{
    let total_capacity = version.total_bits();
    let ghost text = s.spec_bytes();
    let ghost head = head_bits(text, mode, version);
    let ghost rem = room(text, mode, version);

    // Mode indicator, character count, payload.
    let mut bv = mode.to_bitvec();
    let indicator_len = bv.len();
    raw_reserve(&mut bv, total_capacity - indicator_len);
    let mut count = bitvec_char_count(s.len(), mode, version);
    raw_append(&mut bv, &mut count);
    let mut data = bitvec_data(s, mode);
    raw_append(&mut bv, &mut data);
    assert(bv@ == head);

    // Up to four zero bits end the payload.
    let room_left = total_capacity - bv.len();
    let zero_bits_len = if room_left < 4 {
        room_left
    } else {
        4
    };
    append(&mut bv, 0, zero_bits_len);

    // Zero bits up to the next whole byte.
    let zero_bits_len = (total_capacity - bv.len()) % 8;
    append(&mut bv, 0, zero_bits_len);
    proof {
        lemma_value_bits_zero(terminator_len(rem));
        lemma_value_bits_zero(alignment_len(rem));
    }
    let ghost base = head + zero_bits(terminator_len(rem)) + zero_bits(alignment_len(rem));
    assert(bv@ == base);
    assert(byte_bits(pad_bytes(0)) =~= Seq::<bool>::empty());
    assert(bv@ =~= base + byte_bits(pad_bytes(0)));

    // Pad codewords up to the capacity.
    let mut k: usize = 0;
    while bv.len() < total_capacity
        invariant
            total_capacity == version.capacity(),
            total_capacity <= max_bits(),
            k <= pad_count(rem),
            bv@ == base + byte_bits(pad_bytes(k as nat)),
            base.len() + 8 * pad_count(rem) == total_capacity,
        decreases pad_count(rem) - k,
    {
        proof {
            lemma_byte_bits_push(pad_bytes(k as nat), pad_byte(k as nat));
            assert(pad_bytes((k + 1) as nat) =~= pad_bytes(k as nat).push(pad_byte(k as nat)));
        }
        append(&mut bv, pad_codeword(k) as u32, 8);
        k += 1;
    }
    assert(k == pad_count(rem));
    bv
}

/// Encodes `s` in the mode chosen for it, and says which mode that is.
pub fn encode(s: &str, version: Version) -> (out: (Mode, BitBuffer))
    requires
        count_fits(s.spec_bytes(), Mode::classify(s.spec_bytes()), version),
        fits(s.spec_bytes(), Mode::classify(s.spec_bytes()), version),
    ensures
        is_encoding(s.spec_bytes(), version, (out.0, out.1@)),
        out.1@.len() == version.capacity(),
        out.1@.len() % 8 == 0,
{
    let mode = Mode::from_str(s);
    let encoded = encode_with_mode(s, mode, version);
    (mode, encoded)
}

/// Whether a count of `len` can be read back from a field of `width` bits.
fn count_fits_in(len: usize, width: usize) -> (ok: bool)
    ensures
        ok == (len < pow2(width as nat)),
{
    if width < 64 {
        let above: u64 = (len as u64) >> width;
        proof {
            let p = pow2(width as nat) as int;
            lemma_u64_shr_is_div(len as u64, width as u64);
            lemma_pow2_pos(width as nat);
            if len < p {
                lemma_basic_div(len as int, p);
            } else {
                lemma_fundamental_div_mod(len as int, p);
                assert(p * (len as int / p) == 0 ==> len as int / p == 0) by (nonlinear_arith)
                    requires
                        p > 0,
                ;
            }
        }
        above == 0
    } else {
        proof {
            lemma2_to64();
            if width > 64 {
                lemma_pow2_strictly_increases(64, width as nat);
            }
        }
        true
    }
}

/// Whether indicator, count field and `len` bytes of payload stay within
/// `capacity` bits.
fn head_fits_in(
    len: usize,
    indicator_width: usize,
    count_width: usize,
    capacity: usize,
) -> (ok: bool)
    ensures
        ok == (indicator_width + count_width + 8 * len <= capacity),
{
    if capacity < indicator_width {
        return false;
    }
    let left = capacity - indicator_width;
    if left < count_width {
        return false;
    }
    len <= (left - count_width) / 8
}

/// As [`encode_with_mode`], for any text: says which limit a text passes
/// that cannot be encoded.
pub fn try_encode_with_mode(
    s: &str,
    mode: Mode,
    version: Version,
) -> (out: Result<BitBuffer, EncodeError>)
    ensures
        match out {
            Ok(bv) => {
                &&& count_fits(s.spec_bytes(), mode, version)
                &&& fits(s.spec_bytes(), mode, version)
                &&& bv@ == frame_bits(s.spec_bytes(), mode, version)
            },
            Err(EncodeError::DataTooLarge) => !count_fits(s.spec_bytes(), mode, version),
            Err(EncodeError::CapacityExceeded) => {
                &&& count_fits(s.spec_bytes(), mode, version)
                &&& !fits(s.spec_bytes(), mode, version)
            },
        },
{
    let len = s.as_bytes().len();
    let count_width = version.char_count_len(mode);
    if !count_fits_in(len, count_width) {
        return Err(EncodeError::DataTooLarge);
    }
    if !head_fits_in(len, mode.indicator().1, count_width, version.total_bits()) {
        return Err(EncodeError::CapacityExceeded);
    }
    Ok(encode_with_mode(s, mode, version))
}

/// As [`encode`], for any text: says which limit a text passes that cannot
/// be encoded.
pub fn try_encode(s: &str, version: Version) -> (out: Result<(Mode, BitBuffer), EncodeError>)
    ensures
        match out {
            Ok((mode, bv)) => {
                &&& count_fits(s.spec_bytes(), mode, version)
                &&& fits(s.spec_bytes(), mode, version)
                &&& is_encoding(s.spec_bytes(), version, (mode, bv@))
            },
            Err(EncodeError::DataTooLarge) => !count_fits(
                s.spec_bytes(),
                Mode::classify(s.spec_bytes()),
                version,
            ),
            Err(EncodeError::CapacityExceeded) => {
                &&& count_fits(s.spec_bytes(), Mode::classify(s.spec_bytes()), version)
                &&& !fits(s.spec_bytes(), Mode::classify(s.spec_bytes()), version)
            },
        },
{
    let mode = Mode::from_str(s);
    match try_encode_with_mode(s, mode, version) {
        Ok(bv) => Ok((mode, bv)),
        Err(e) => Err(e),
    }
}

} // verus!
