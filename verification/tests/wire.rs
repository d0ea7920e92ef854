use sddm_daemon::utf16::{decode_utf16_be, encode_utf16_be, PayloadError};
use sddm_daemon::wire::{put_length, recv_msg, recv_string, send_string, ProtocolError};

fn frame(text: &str) -> Vec<u8> {
    let mut out = Vec::new();
    send_string(&mut out, text);
    out
}

#[test]
fn ascii_text_is_sent_as_big_endian_units() {
    assert_eq!(frame("hi"), vec![0, 0, 0, 4, 0, b'h', 0, b'i']);
}

#[test]
fn empty_text_is_sent_as_the_null_marker() {
    assert_eq!(frame(""), vec![0xFF, 0xFF, 0xFF, 0xFF]);
}

#[test]
fn astral_character_is_sent_as_a_surrogate_pair() {
    // U+1F600 is D83D DE00 in UTF-16.
    assert_eq!(frame("\u{1F600}"), vec![0, 0, 0, 4, 0xD8, 0x3D, 0xDE, 0x00]);
}

#[test]
fn payload_encoding_appends_to_what_is_there() {
    let mut out = vec![7u8];
    encode_utf16_be("\u{e9}", &mut out);
    assert_eq!(out, vec![7, 0x00, 0xE9]);
}

#[test]
fn sent_text_is_received_unchanged() {
    for text in ["alice", "hunter2", "", "gr\u{fc}\u{df}e", "\u{1F512} locked", "\u{FFFF}\u{10000}\u{10FFFF}"] {
        let bytes = frame(text);
        let got = recv_string(&bytes, 0).unwrap().unwrap();
        assert_eq!(got.0, text);
        assert_eq!(got.1, bytes.len());
    }
}

#[test]
fn reading_stops_at_the_end_of_the_frame() {
    let mut bytes = vec![9u8, 9, 9];
    send_string(&mut bytes, "ab");
    bytes.extend_from_slice(&[1, 2, 3]);
    let got = recv_string(&bytes, 3).unwrap().unwrap();
    assert_eq!(got.0, "ab");
    assert_eq!(got.1, 8);
}

#[test]
fn short_length_prefix_is_four_bytes() {
    let mut out = Vec::new();
    put_length(&mut out, 0x0102_0304);
    assert_eq!(out, vec![1, 2, 3, 4]);
    let mut out = Vec::new();
    put_length(&mut out, 0xFFFF_FFFD);
    assert_eq!(out, vec![0xFF, 0xFF, 0xFF, 0xFD]);
}

#[test]
fn long_length_prefix_is_marker_and_eight_bytes() {
    let mut out = Vec::new();
    put_length(&mut out, 0xFFFF_FFFE);
    assert_eq!(out, vec![0xFF, 0xFF, 0xFF, 0xFE, 0, 0, 0, 0, 0xFF, 0xFF, 0xFF, 0xFE]);
    let mut out = Vec::new();
    put_length(&mut out, 0x0102_0304_0506_0708);
    assert_eq!(out, vec![0xFF, 0xFF, 0xFF, 0xFE, 1, 2, 3, 4, 5, 6, 7, 8]);
}

#[test]
fn extended_length_is_read() {
    let bytes = vec![0xFF, 0xFF, 0xFF, 0xFE, 0, 0, 0, 0, 0, 0, 0, 2, 0, b'x'];
    let got = recv_string(&bytes, 0).unwrap().unwrap();
    assert_eq!(got.0, "x");
    assert_eq!(got.1, 14);
}

#[test]
fn null_marker_is_read_as_empty_text() {
    let got = recv_string(&[0xFF, 0xFF, 0xFF, 0xFF, 5], 0).unwrap().unwrap();
    assert_eq!(got.0, "");
    assert_eq!(got.1, 4);
}

#[test]
fn zero_length_is_read_as_empty_text() {
    let got = recv_string(&[0, 0, 0, 0], 0).unwrap().unwrap();
    assert_eq!(got.0, "");
    assert_eq!(got.1, 4);
}

#[test]
fn odd_length_is_a_protocol_error() {
    assert_eq!(recv_string(&[0, 0, 0, 3, 0, b'a', 0], 0), Err(ProtocolError::OddLength));
    // The length is refused before the payload has arrived.
    assert_eq!(recv_string(&[0, 0, 0, 3], 0), Err(ProtocolError::OddLength));
    assert_eq!(
        recv_string(&[0xFF, 0xFF, 0xFF, 0xFE, 0, 0, 0, 0, 0, 0, 0, 1], 0),
        Err(ProtocolError::OddLength)
    );
}

#[test]
fn lone_surrogate_is_a_protocol_error() {
    assert_eq!(recv_string(&[0, 0, 0, 2, 0xD8, 0x00], 0), Err(ProtocolError::LoneSurrogate));
    assert_eq!(recv_string(&[0, 0, 0, 2, 0xDC, 0x00], 0), Err(ProtocolError::LoneSurrogate));
    assert_eq!(
        recv_string(&[0, 0, 0, 4, 0xDC, 0x00, 0xD8, 0x00], 0),
        Err(ProtocolError::LoneSurrogate)
    );
    assert_eq!(
        recv_string(&[0, 0, 0, 4, 0xD8, 0x00, 0x00, 0x41], 0),
        Err(ProtocolError::LoneSurrogate)
    );
}

#[test]
fn unfinished_frame_asks_for_more() {
    assert_eq!(recv_string(&[], 0), Ok(None));
    assert_eq!(recv_string(&[0, 0, 0], 0), Ok(None));
    assert_eq!(recv_string(&[0, 0, 0, 4, 0, b'h', 0], 0), Ok(None));
    assert_eq!(recv_string(&[0xFF, 0xFF, 0xFF, 0xFE, 0, 0, 0], 0), Ok(None));
    assert_eq!(
        recv_string(&[0xFF, 0xFF, 0xFF, 0xFE, 0xFF, 0xFF, 0xFF, 0xFF, 0xFF, 0xFF, 0xFF, 0xFE], 0),
        Ok(None)
    );
}

#[test]
fn payload_decoding_names_its_errors() {
    assert_eq!(decode_utf16_be(&[0]), Err(PayloadError::OddLength));
    assert_eq!(decode_utf16_be(&[0xDB, 0xFF]), Err(PayloadError::LoneSurrogate));
    assert_eq!(decode_utf16_be(&[0xDB, 0xFF, 0xDF, 0xFF]), Ok("\u{10FFFF}".to_string()));
    assert_eq!(decode_utf16_be(&[0xD7, 0xFF, 0xE0, 0x00]), Ok("\u{D7FF}\u{E000}".to_string()));
}

#[test]
fn message_code_needs_four_bytes() {
    assert_eq!(recv_msg(&[]), None);
    assert_eq!(recv_msg(&[0, 0, 1]), None);
    assert_eq!(recv_msg(&[0, 0, 1, 2]), Some(258));
    assert_eq!(recv_msg(&[0xFF, 0xEE, 0xDD, 0xCC, 9, 9]), Some(0xFFEE_DDCC));
}
