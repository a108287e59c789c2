use socket_server::frame::{
    control_frame, pack_frame, pack_message_frame, unpack_client_frame, OPCODE_CLOSE, OPCODE_PING,
    OPCODE_PONG, OPCODE_TEXT,
};

fn mask(data: &[u8], key: [u8; 4]) -> Vec<u8> {
    data.iter().enumerate().map(|(i, b)| b ^ key[i % 4]).collect()
}

fn client_frame(payload: &[u8], key: [u8; 4]) -> Vec<u8> {
    let mut frame = vec![0x81u8];
    let len = payload.len();
    if len <= 125 {
        frame.push(0x80 | len as u8);
    } else if len <= 65535 {
        frame.push(0x80 | 126);
        frame.extend_from_slice(&(len as u16).to_be_bytes());
    } else {
        frame.push(0x80 | 127);
        frame.extend_from_slice(&(len as u64).to_be_bytes());
    }
    frame.extend_from_slice(&key);
    frame.extend_from_slice(&mask(payload, key));
    frame
}

fn text_of_length(n: usize) -> String {
    let alphabet = "abcdefghijklmnopqrstuvwxyz0123456789";
    alphabet.chars().cycle().take(n).collect()
}

fn round_trip(n: usize) {
    let text = text_of_length(n);
    let mut buf = client_frame(text.as_bytes(), [0x37, 0xfa, 0x21, 0x3d]);
    let (opcode, payload) = unpack_client_frame(&mut buf);
    assert_eq!(opcode, Some(OPCODE_TEXT));
    assert_eq!(payload, Some(text));
}

#[test]
fn round_trip_empty_payload() {
    round_trip(0);
}

#[test]
fn round_trip_inline_length() {
    round_trip(10);
}

#[test]
fn round_trip_largest_inline_length() {
    round_trip(125);
}

#[test]
fn round_trip_sixteen_bit_length() {
    round_trip(130);
    round_trip(126);
    round_trip(65535);
}

#[test]
fn round_trip_sixty_four_bit_length() {
    round_trip(70000);
    round_trip(65536);
}

#[test]
fn round_trip_non_ascii_text() {
    let text = String::from("héllo, wörld ✓");
    let mut buf = client_frame(text.as_bytes(), [1, 2, 3, 4]);
    assert_eq!(unpack_client_frame(&mut buf), (Some(1), Some(text)));
}

#[test]
fn masking_twice_restores_the_bytes() {
    let keys = [[0u8, 0, 0, 0], [0xff, 0xff, 0xff, 0xff], [0x12, 0x34, 0x56, 0x78]];
    for key in keys {
        for n in [0usize, 1, 3, 4, 5, 17] {
            let data: Vec<u8> = (0..n).map(|i| (i * 37 + 11) as u8).collect();
            assert_eq!(mask(&mask(&data, key), key), data);
        }
    }
}

#[test]
fn unpack_unmasks_in_place() {
    let key = [0x12, 0x34, 0x56, 0x78];
    let mut buf = client_frame(b"abcde", key);
    buf.extend_from_slice(&[9, 9, 9]);
    let before = buf.clone();
    let (opcode, payload) = unpack_client_frame(&mut buf);
    assert_eq!(opcode, Some(1));
    assert_eq!(payload, Some(String::from("abcde")));
    assert_eq!(&buf[..6], &before[..6]);
    assert_eq!(&buf[6..11], b"abcde");
    assert_eq!(&buf[11..], &[9, 9, 9]);
}

#[test]
fn pack_inline_frame_bytes() {
    assert_eq!(pack_message_frame(String::from("hello")), vec![0x81, 5, b'h', b'e', b'l', b'l', b'o']);
    assert_eq!(pack_message_frame(String::new()), vec![0x81, 0]);
    assert_eq!(pack_frame(b"hi"), vec![0x81, 2, b'h', b'i']);
}

#[test]
fn pack_uses_shortest_length_form() {
    let f125 = pack_frame(&vec![7u8; 125]);
    assert_eq!(&f125[..2], &[0x81, 125]);
    assert_eq!(f125.len(), 2 + 125);

    let f126 = pack_frame(&vec![7u8; 126]);
    assert_eq!(&f126[..4], &[0x81, 126, 0, 126]);
    assert_eq!(f126.len(), 4 + 126);

    let f130 = pack_frame(&vec![7u8; 130]);
    assert_eq!(&f130[..4], &[0x81, 126, 0, 130]);

    let f65535 = pack_frame(&vec![7u8; 65535]);
    assert_eq!(&f65535[..4], &[0x81, 126, 0xff, 0xff]);
    assert_eq!(f65535.len(), 4 + 65535);

    let f65536 = pack_frame(&vec![7u8; 65536]);
    assert_eq!(&f65536[..10], &[0x81, 127, 0, 0, 0, 0, 0, 1, 0, 0]);
    assert_eq!(f65536.len(), 10 + 65536);

    let f70000 = pack_frame(&vec![7u8; 70000]);
    assert_eq!(&f70000[..10], &[0x81, 127, 0, 0, 0, 0, 0, 1, 0x11, 0x70]);
    assert_eq!(&f70000[10..], &vec![7u8; 70000][..]);
}

#[test]
fn pack_leaves_the_mask_bit_clear() {
    for n in [0usize, 5, 125, 126, 70000] {
        let frame = pack_frame(&vec![b'x'; n]);
        assert_eq!(frame[0], 0b1000_0001);
        assert_eq!(frame[1] & 0x80, 0);
    }
}

#[test]
fn unpack_accepts_longer_length_forms() {
    let key = [5u8, 6, 7, 8];
    let mut wide = vec![0x81, 0x80 | 126, 0, 3];
    wide.extend_from_slice(&key);
    wide.extend_from_slice(&mask(b"abc", key));
    assert_eq!(unpack_client_frame(&mut wide), (Some(1), Some(String::from("abc"))));

    let mut wider = vec![0x81, 0x80 | 127, 0, 0, 0, 0, 0, 0, 0, 3];
    wider.extend_from_slice(&key);
    wider.extend_from_slice(&mask(b"abc", key));
    assert_eq!(unpack_client_frame(&mut wider), (Some(1), Some(String::from("abc"))));
}

#[test]
fn unpack_refuses_empty_buffer() {
    let mut buf: Vec<u8> = Vec::new();
    assert_eq!(unpack_client_frame(&mut buf), (None, None));
}

#[test]
fn unpack_refuses_fragment() {
    let mut buf = client_frame(b"abc", [1, 2, 3, 4]);
    buf[0] = 0x01;
    let before = buf.clone();
    assert_eq!(unpack_client_frame(&mut buf), (None, None));
    assert_eq!(buf, before);
}

#[test]
fn unpack_refuses_reserved_bits() {
    for bit in [0x40u8, 0x20, 0x10] {
        let mut buf = client_frame(b"abc", [1, 2, 3, 4]);
        buf[0] |= bit;
        assert_eq!(unpack_client_frame(&mut buf), (None, None));
    }
}

#[test]
fn unpack_refuses_unmasked_text() {
    let mut buf = pack_frame(b"hello");
    let before = buf.clone();
    assert_eq!(unpack_client_frame(&mut buf), (None, None));
    assert_eq!(buf, before);
}

#[test]
fn unpack_refuses_truncated_frames() {
    let whole = client_frame(b"hello", [1, 2, 3, 4]);
    for keep in 1..whole.len() {
        let mut buf = whole[..keep].to_vec();
        assert_eq!(unpack_client_frame(&mut buf), (None, None));
    }
    let long = client_frame(&vec![b'a'; 300], [1, 2, 3, 4]);
    for keep in [2usize, 3, 4, 7, 8, 307] {
        let mut buf = long[..keep].to_vec();
        assert_eq!(unpack_client_frame(&mut buf), (None, None));
    }
    let mut huge = vec![0x81, 0xff, 0xff, 0xff, 0xff, 0xff, 0xff, 0xff, 0xff, 0xff, 1, 2, 3, 4, 0];
    assert_eq!(unpack_client_frame(&mut huge), (None, None));
    let mut short_length = vec![0x81, 0xff, 0, 0];
    assert_eq!(unpack_client_frame(&mut short_length), (None, None));
}

#[test]
fn unpack_reports_control_frames_without_payload() {
    let mut close = vec![0b1000_1000u8];
    assert_eq!(unpack_client_frame(&mut close), (Some(OPCODE_CLOSE), None));
    let mut ping = vec![0b1000_1001u8];
    assert_eq!(unpack_client_frame(&mut ping), (Some(OPCODE_PING), None));
    let mut pong = vec![0b1000_1010u8, 0, 0];
    assert_eq!(unpack_client_frame(&mut pong), (Some(OPCODE_PONG), None));
    let mut continuation = vec![0b1000_0000u8, 0x81, 1, 2, 3, 4, 5];
    assert_eq!(unpack_client_frame(&mut continuation), (Some(0), None));
    let mut binary = vec![0b1000_0010u8, 0x81, 1, 2, 3, 4, 5];
    assert_eq!(unpack_client_frame(&mut binary), (Some(2), None));
}

#[test]
fn unpack_replaces_invalid_utf8() {
    let key = [0u8, 0, 0, 0];
    let mut buf = client_frame(&[b'a', 0xff, b'b'], key);
    assert_eq!(unpack_client_frame(&mut buf), (Some(1), Some(String::from("a\u{fffd}b"))));
}

#[test]
fn unpack_ignores_bytes_after_the_frame() {
    let mut buf = client_frame(b"42", [9, 8, 7, 6]);
    buf.resize(1024, 0);
    assert_eq!(unpack_client_frame(&mut buf), (Some(1), Some(String::from("42"))));
}

#[test]
fn control_frames_are_one_byte() {
    assert_eq!(control_frame(OPCODE_CLOSE), vec![0b1000_1000]);
    assert_eq!(control_frame(OPCODE_PING), vec![0b1000_1001]);
    assert_eq!(control_frame(OPCODE_PONG), vec![0b1000_1010]);
    assert_eq!(control_frame(0), vec![0b1000_0000]);
    assert_eq!(control_frame(15), vec![0b1000_1111]);
}
