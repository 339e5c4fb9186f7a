use udp_balancer::text::{chars_of, decode_text, push_decimal, string_of, trim_nuls, trim_whitespace};
use udp_balancer::wire::{classify, decode_load, encode_load, load_from_reply, receive_into, DatagramKind};

#[test]
fn load_report_is_big_endian() {
    assert_eq!(encode_load(258), [1, 2]);
    assert_eq!(encode_load(0), [0, 0]);
    assert_eq!(encode_load(u16::MAX), [255, 255]);
    assert_eq!(decode_load([1, 2]), 258);
    assert_eq!(decode_load([0x12, 0x34]), 0x1234);
}

#[test]
fn load_report_roundtrip_on_values() {
    for load in [0u16, 1, 255, 256, 4660, 65534, 65535] {
        assert_eq!(load_from_reply(&encode_load(load)), load);
        assert_eq!(u16::from_be_bytes(encode_load(load)), load);
    }
}

#[test]
fn short_and_long_load_replies() {
    // one byte fills the high half; the low half stays zero
    assert_eq!(load_from_reply(&[5]), 1280);
    assert_eq!(load_from_reply(&[]), 0);
    // extra bytes are cut off
    assert_eq!(load_from_reply(&[0, 7, 9, 9]), 7);
}

#[test]
fn datagrams_are_classified_by_first_byte() {
    assert_eq!(classify(2), DatagramKind::LoadQuery);
    assert_eq!(classify(1), DatagramKind::Ack);
    assert_eq!(classify(0), DatagramKind::Request);
    assert_eq!(classify(b'H'), DatagramKind::Request);
    assert_eq!(classify(255), DatagramKind::Request);
}

#[test]
fn receive_buffer_pads_and_cuts() {
    assert_eq!(receive_into(&[1, 2, 3], 5), vec![1, 2, 3, 0, 0]);
    assert_eq!(receive_into(&[1, 2, 3], 2), vec![1, 2]);
    assert_eq!(receive_into(&[], 3), vec![0, 0, 0]);
    assert_eq!(receive_into(&[9; 100], 100), vec![9; 100]);
}

#[test]
fn decimal_rendering() {
    for n in [0u128, 7, 10, 42, 100, 999, 1000, 65535, u128::MAX] {
        let mut s = String::from("x");
        push_decimal(&mut s, n);
        assert_eq!(s, format!("x{}", n));
    }
}

#[test]
fn trimming_matches_std() {
    for t in ["  hello \n", "\t\r\n", "", "a b", "\u{3000}wide\u{2003}", "x\0"] {
        let v = chars_of(t);
        assert_eq!(string_of(&trim_whitespace(&v)), t.trim());
        assert_eq!(string_of(&trim_nuls(&v)), t.trim_matches('\0'));
    }
    let v = chars_of("\0\0ab\0c\0\0");
    assert_eq!(string_of(&trim_nuls(&v)), "ab\0c");
}

#[test]
fn decoding_text() {
    assert_eq!(decode_text("héllo".as_bytes()), Some(String::from("héllo")));
    assert_eq!(decode_text(&[0xff, 0x41]), None);
    assert_eq!(decode_text(&[0xe2, 0x82]), None);
    assert_eq!(decode_text(&[0, 0]), Some(String::from("\0\0")));
}

#[test]
fn white_space_set_matches_std() {
    let listed = |u: u32| {
        (0x09..=0x0D).contains(&u)
            || u == 0x20
            || u == 0x85
            || u == 0xA0
            || u == 0x1680
            || (0x2000..=0x200A).contains(&u)
            || u == 0x2028
            || u == 0x2029
            || u == 0x202F
            || u == 0x205F
            || u == 0x3000
    };
    for u in 0u32..=0x10FFFF {
        if let Some(c) = char::from_u32(u) {
            let v = [c];
            let trimmed = trim_whitespace(&v);
            assert_eq!(trimmed.is_empty(), listed(u), "U+{:04X}", u);
            assert_eq!(c.is_whitespace(), listed(u), "U+{:04X}", u);
        }
    }
}

#[test]
fn frame_of_two_lines() {
    assert_eq!(
        udp_balancer::peer::sender::request_frame("hello\nworld\n"),
        b"\0hello\nworld".to_vec()
    );
}
