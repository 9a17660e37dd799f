use qr_data::buffer::BitBuffer;
use qr_data::data::{append, bitvec_char_count, bitvec_data, encode_byte_data, string_to_bytes};
use qr_data::mode::Mode;
use qr_data::version::Version;

fn shown(bv: &BitBuffer) -> String {
    bv.to_vec().iter().map(|b| if *b { '1' } else { '0' }).collect()
}

#[test]
fn new_buffer_is_empty() {
    let bv = BitBuffer::new();
    assert_eq!(bv.len(), 0);
    assert_eq!(bv.to_vec(), Vec::<bool>::new());
    assert_eq!(bv.get(0), None);
}

#[test]
fn append_writes_most_significant_bit_first() {
    let mut bv = BitBuffer::new();
    append(&mut bv, 5, 4);
    assert_eq!(bv.to_vec(), vec![false, true, false, true]);
    append(&mut bv, 0b110, 3);
    assert_eq!(shown(&bv), "0101110");
    assert_eq!(bv.len(), 7);
}

#[test]
fn append_of_no_bits_changes_nothing() {
    let mut bv = BitBuffer::new();
    append(&mut bv, 0xFFFF_FFFF, 0);
    assert_eq!(bv.len(), 0);
    append(&mut bv, 1, 1);
    append(&mut bv, 0xFFFF_FFFF, 0);
    assert_eq!(shown(&bv), "1");
}

#[test]
fn append_leaves_out_the_bits_above_the_width() {
    let mut bv = BitBuffer::new();
    append(&mut bv, 0xFF, 4);
    assert_eq!(shown(&bv), "1111");
    let mut bv = BitBuffer::new();
    append(&mut bv, 0x1F5, 8);
    assert_eq!(shown(&bv), "11110101");
}

#[test]
fn append_grows_by_the_width() {
    let mut bv = BitBuffer::new();
    let mut expected = 0;
    for width in [0usize, 1, 7, 8, 9, 31, 32, 33, 64, 65, 100] {
        append(&mut bv, 0xDEAD_BEEF, width);
        expected += width;
        assert_eq!(bv.len(), expected);
    }
}

#[test]
fn append_of_all_thirty_two_bits() {
    let mut bv = BitBuffer::new();
    append(&mut bv, 0x8000_0001, 32);
    assert_eq!(shown(&bv), "1".to_string() + &"0".repeat(30) + "1");
}

#[test]
fn append_wider_than_the_value_leads_with_zeros() {
    let mut bv = BitBuffer::new();
    append(&mut bv, 0xFFFF_FFFF, 40);
    assert_eq!(shown(&bv), "0".repeat(8) + &"1".repeat(32));
    let mut bv = BitBuffer::new();
    append(&mut bv, 1, 70);
    assert_eq!(shown(&bv), "0".repeat(69) + "1");
}

#[test]
fn get_reads_each_bit() {
    let mut bv = BitBuffer::new();
    append(&mut bv, 0b1011, 4);
    assert_eq!(bv.get(0), Some(true));
    assert_eq!(bv.get(1), Some(false));
    assert_eq!(bv.get(2), Some(true));
    assert_eq!(bv.get(3), Some(true));
    assert_eq!(bv.get(4), None);
    assert_eq!(bv.get(usize::MAX), None);
}

#[test]
fn to_vec_spans_element_boundaries() {
    let mut bv = BitBuffer::new();
    append(&mut bv, 0x1234, 16);
    append(&mut bv, 0b101, 3);
    assert_eq!(shown(&bv), "0001001000110100101");
    assert_eq!(bv.to_vec().len(), 19);
}

#[test]
fn mode_of_any_text_is_byte() {
    assert_eq!(Mode::from_str(""), Mode::Byte);
    assert_eq!(Mode::from_str("12345"), Mode::Byte);
    assert_eq!(Mode::from_str("HELLO WORLD"), Mode::Byte);
    assert_eq!(Mode::from_str("\u{65e5}\u{672c}"), Mode::Byte);
}

#[test]
fn byte_indicator_is_0100() {
    assert_eq!(Mode::Byte.indicator(), (0b0100, 4));
    assert_eq!(shown(&Mode::Byte.to_bitvec()), "0100");
}

#[test]
fn version_takes_whole_bytes_only() {
    assert!(Version::new(0, 8).is_some());
    assert!(Version::new(40, 8).is_some());
    assert!(Version::new(41, 8).is_none());
    assert!(Version::new(47, 8).is_none());
    assert!(Version::new(usize::MAX / 8 / 8 * 8, 8).is_some());
    assert!(Version::new(usize::MAX / 8 / 8 * 8 + 8, 8).is_none());
    assert!(Version::new(usize::MAX, 8).is_none());
}

#[test]
fn version_gives_back_what_it_was_made_with() {
    let v = Version::new(152, 16).unwrap();
    assert_eq!(v.total_bits(), 152);
    assert_eq!(v.char_count_len(Mode::Byte), 16);
}

#[test]
fn char_count_is_written_in_the_width_of_the_version() {
    let v = Version::new(152, 8).unwrap();
    assert_eq!(shown(&bitvec_char_count(1, Mode::Byte, v)), "00000001");
    assert_eq!(shown(&bitvec_char_count(17, Mode::Byte, v)), "00010001");
    assert_eq!(shown(&bitvec_char_count(255, Mode::Byte, v)), "11111111");
    let v = Version::new(152, 16).unwrap();
    assert_eq!(
        shown(&bitvec_char_count(258, Mode::Byte, v)),
        "0000000100000010"
    );
    let v = Version::new(152, 0).unwrap();
    assert_eq!(shown(&bitvec_char_count(3, Mode::Byte, v)), "");
}

#[test]
fn char_count_above_thirty_two_bits() {
    let v = Version::new(152, 40).unwrap();
    let len: usize = if usize::BITS >= 64 {
        (1usize << (usize::BITS - 1) >> (usize::BITS - 34)) | 5
    } else {
        5
    };
    let expected = format!("{:040b}", len);
    assert_eq!(shown(&bitvec_char_count(len, Mode::Byte, v)), expected);
}

#[test]
fn string_bytes_are_its_utf8() {
    assert_eq!(string_to_bytes("A", Mode::Byte), vec![0x41]);
    assert_eq!(string_to_bytes("", Mode::Byte), Vec::<u8>::new());
    assert_eq!(string_to_bytes("\u{e9}", Mode::Byte), vec![0xC3, 0xA9]);
}

#[test]
fn byte_data_is_eight_bits_a_byte() {
    assert_eq!(shown(&encode_byte_data(&vec![])), "");
    assert_eq!(shown(&encode_byte_data(&vec![0x41])), "01000001");
    assert_eq!(
        shown(&encode_byte_data(&vec![0x80, 0x01, 0xFF])),
        "100000000000000111111111"
    );
}

#[test]
fn data_bits_of_a_text() {
    assert_eq!(shown(&bitvec_data("AB", Mode::Byte)), "0100000101000010");
    assert_eq!(bitvec_data("", Mode::Byte).len(), 0);
}
