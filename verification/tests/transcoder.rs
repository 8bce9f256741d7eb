use base64::Engine;
use krakatau_bridge::envelope::DecompileRequest;
use krakatau_bridge::transcoder::{decode_base64, encode_base64, DecodeError};

fn sample(len: usize, seed: u32) -> Vec<u8> {
    let mut state = seed.wrapping_mul(2654435761).wrapping_add(12345);
    let mut bytes = Vec::with_capacity(len);
    for _ in 0..len {
        state = state.wrapping_mul(1664525).wrapping_add(1013904223);
        bytes.push((state >> 24) as u8);
    }
    bytes
}

#[test]
fn encode_empty_is_empty() {
    assert_eq!(encode_base64(&[]), "");
}

#[test]
fn encode_known_vectors() {
    assert_eq!(encode_base64(b"f"), "Zg==");
    assert_eq!(encode_base64(b"fo"), "Zm8=");
    assert_eq!(encode_base64(b"foo"), "Zm9v");
    assert_eq!(encode_base64(b"foob"), "Zm9vYg==");
    assert_eq!(encode_base64(b"fooba"), "Zm9vYmE=");
    assert_eq!(encode_base64(b"foobar"), "Zm9vYmFy");
}

#[test]
fn encode_uses_the_whole_alphabet() {
    let bytes: Vec<u8> = vec![
        0x00, 0x10, 0x83, 0x10, 0x51, 0x87, 0x20, 0x92, 0x8b, 0x30, 0xd3, 0x8f, 0x41, 0x14, 0x93,
        0x51, 0x55, 0x97, 0x61, 0x96, 0x9b, 0x71, 0xd7, 0x9f, 0x82, 0x18, 0xa3, 0x92, 0x59, 0xa7,
        0xa2, 0x9a, 0xab, 0xb2, 0xdb, 0xaf, 0xc3, 0x1c, 0xb3, 0xd3, 0x5d, 0xb7, 0xe3, 0x9e, 0xbb,
        0xf3, 0xdf, 0xbf,
    ];
    assert_eq!(
        encode_base64(&bytes),
        "ABCDEFGHIJKLMNOPQRSTUVWXYZabcdefghijklmnopqrstuvwxyz0123456789+/"
    );
}

#[test]
fn encode_pads_to_a_multiple_of_four() {
    for len in 0..40usize {
        let text = encode_base64(&sample(len, 7));
        assert_eq!(text.len(), (len + 2) / 3 * 4);
        let padding = text.chars().rev().take_while(|c| *c == '=').count();
        assert_eq!(padding, (3 - len % 3) % 3);
    }
}

#[test]
fn encode_high_bytes() {
    assert_eq!(encode_base64(&[0xff]), "/w==");
    assert_eq!(encode_base64(&[0xff, 0xff]), "//8=");
    assert_eq!(encode_base64(&[0xff, 0xff, 0xff]), "////");
    assert_eq!(encode_base64(&[0xfb, 0xef, 0xbe]), "++++");
    assert_eq!(encode_base64(&[0, 0, 0]), "AAAA");
}

#[test]
fn encode_agrees_with_the_base64_crate() {
    for len in 0..200usize {
        let bytes = sample(len, len as u32);
        assert_eq!(
            encode_base64(&bytes),
            base64::engine::general_purpose::STANDARD.encode(&bytes)
        );
    }
}

#[test]
fn decode_known_vectors() {
    assert_eq!(decode_base64("Zg=="), Ok(b"f".to_vec()));
    assert_eq!(decode_base64("Zm8="), Ok(b"fo".to_vec()));
    assert_eq!(decode_base64("Zm9v"), Ok(b"foo".to_vec()));
    assert_eq!(decode_base64("Zm9vYg=="), Ok(b"foob".to_vec()));
    assert_eq!(decode_base64("Zm9vYmE="), Ok(b"fooba".to_vec()));
    assert_eq!(decode_base64("Zm9vYmFy"), Ok(b"foobar".to_vec()));
}

#[test]
fn decode_empty_is_empty() {
    assert_eq!(decode_base64(""), Ok(Vec::new()));
}

#[test]
fn decode_white_space_only_is_empty() {
    assert_eq!(decode_base64("   "), Ok(Vec::new()));
    assert_eq!(decode_base64(" \t\r\n"), Ok(Vec::new()));
}

#[test]
fn decode_padding_only_is_empty() {
    assert_eq!(decode_base64("="), Ok(Vec::new()));
    assert_eq!(decode_base64("===="), Ok(Vec::new()));
    assert_eq!(decode_base64("  ==  "), Ok(Vec::new()));
}

#[test]
fn decode_trims_surrounding_white_space() {
    assert_eq!(decode_base64("  Zm9v"), Ok(b"foo".to_vec()));
    assert_eq!(decode_base64("Zm9v\n"), Ok(b"foo".to_vec()));
    assert_eq!(decode_base64("\r\n\tZm9vYg==\t \n"), Ok(b"foob".to_vec()));
}

#[test]
fn decode_trims_every_unicode_white_space() {
    let spaces = [
        '\u{9}', '\u{a}', '\u{b}', '\u{c}', '\u{d}', '\u{20}', '\u{85}', '\u{a0}', '\u{1680}',
        '\u{2000}', '\u{2001}', '\u{2002}', '\u{2003}', '\u{2004}', '\u{2005}', '\u{2006}',
        '\u{2007}', '\u{2008}', '\u{2009}', '\u{200a}', '\u{2028}', '\u{2029}', '\u{202f}',
        '\u{205f}', '\u{3000}',
    ];
    for space in spaces {
        assert_eq!(decode_base64(&format!("{}Zm9v", space)), Ok(b"foo".to_vec()));
        assert_eq!(decode_base64(&format!("Zm9v{}", space)), Ok(b"foo".to_vec()));
    }
}

#[test]
fn decode_keeps_what_is_not_white_space() {
    let others = [
        '\u{8}', '\u{e}', '\u{1c}', '\u{1f}', '\u{84}', '\u{86}', '\u{9f}', '\u{a1}', '\u{167f}',
        '\u{180e}', '\u{1fff}', '\u{200b}', '\u{2027}', '\u{202a}', '\u{2060}', '\u{2fff}',
        '\u{3001}', '\u{feff}',
    ];
    for other in others {
        assert_eq!(
            decode_base64(&format!("{}Zm9v", other)),
            Err(DecodeError::InvalidCharacter)
        );
        assert_eq!(
            decode_base64(&format!("Zm9v{}", other)),
            Err(DecodeError::InvalidCharacter)
        );
    }
}

#[test]
fn decode_accepts_missing_padding() {
    assert_eq!(decode_base64("Zg"), Ok(b"f".to_vec()));
    assert_eq!(decode_base64("Zm8"), Ok(b"fo".to_vec()));
    assert_eq!(decode_base64("Zm9vYg"), Ok(b"foob".to_vec()));
}

#[test]
fn decode_accepts_any_amount_of_padding() {
    assert_eq!(decode_base64("Zm9v="), Ok(b"foo".to_vec()));
    assert_eq!(decode_base64("Zg======"), Ok(b"f".to_vec()));
}

#[test]
fn decode_drops_incomplete_bits() {
    assert_eq!(decode_base64("Z"), Ok(Vec::new()));
    assert_eq!(decode_base64("Zh"), Ok(b"f".to_vec()));
    assert_eq!(decode_base64("Zm9vY"), Ok(b"foo".to_vec()));
    assert_eq!(decode_base64("//"), Ok(vec![0xff]));
    assert_eq!(decode_base64("///"), Ok(vec![0xff, 0xff]));
}

#[test]
fn decode_every_symbol() {
    let text = "ABCDEFGHIJKLMNOPQRSTUVWXYZabcdefghijklmnopqrstuvwxyz0123456789+/";
    let bytes = decode_base64(text).unwrap();
    assert_eq!(bytes.len(), 48);
    assert_eq!(&bytes[..6], &[0x00, 0x10, 0x83, 0x10, 0x51, 0x87]);
    assert_eq!(&bytes[45..], &[0xf3, 0xdf, 0xbf]);
    assert_eq!(encode_base64(&bytes), text);
}

#[test]
fn decode_rejects_a_character_outside_the_alphabet() {
    assert_eq!(decode_base64("Zm9v!"), Err(DecodeError::InvalidCharacter));
    assert_eq!(decode_base64("!Zm9v"), Err(DecodeError::InvalidCharacter));
    assert_eq!(decode_base64("Zm-v"), Err(DecodeError::InvalidCharacter));
    assert_eq!(decode_base64("Zm_v"), Err(DecodeError::InvalidCharacter));
    assert_eq!(decode_base64("Zm9v\u{e9}"), Err(DecodeError::InvalidCharacter));
    assert_eq!(decode_base64("\u{0}"), Err(DecodeError::InvalidCharacter));
}

#[test]
fn decode_rejects_the_neighbours_of_the_alphabet() {
    for c in ['@', '[', '`', '{', '.', ':', '*', ',', '-'] {
        assert_eq!(
            decode_base64(&format!("Zm9v{}", c)),
            Err(DecodeError::InvalidCharacter)
        );
    }
}

#[test]
fn decode_rejects_inner_white_space() {
    assert_eq!(decode_base64("Zm 9v"), Err(DecodeError::InvalidCharacter));
    assert_eq!(decode_base64("Zm9v\nYmFy"), Err(DecodeError::InvalidCharacter));
}

#[test]
fn decode_rejects_inner_padding() {
    assert_eq!(decode_base64("Zg==Zg=="), Err(DecodeError::InvalidCharacter));
    assert_eq!(decode_base64("=Zm9v"), Err(DecodeError::InvalidCharacter));
    assert_eq!(decode_base64("Zm9v= ="), Err(DecodeError::InvalidCharacter));
}

#[test]
fn round_trip_of_every_length() {
    for len in 0..130usize {
        let bytes = sample(len, 3 * len as u32 + 1);
        assert_eq!(decode_base64(&encode_base64(&bytes)), Ok(bytes));
    }
}

#[test]
fn round_trip_of_every_byte_value() {
    let bytes: Vec<u8> = (0..=255u8).collect();
    for start in 0..3usize {
        let part = bytes[start..].to_vec();
        assert_eq!(decode_base64(&encode_base64(&part)), Ok(part));
    }
    for value in 0..=255u8 {
        assert_eq!(decode_base64(&encode_base64(&[value])), Ok(vec![value]));
    }
}

#[test]
fn round_trip_of_a_large_input() {
    let bytes = sample(100_000, 99);
    assert_eq!(decode_base64(&encode_base64(&bytes)), Ok(bytes));
}

#[test]
fn round_trip_with_white_space_around() {
    let bytes = sample(17, 5);
    let text = format!("\n  {}\t", encode_base64(&bytes));
    assert_eq!(decode_base64(&text), Ok(bytes));
}

#[test]
fn decode_agrees_with_the_base64_crate() {
    for len in 0..100usize {
        let bytes = sample(len, 1000 + len as u32);
        let text = base64::engine::general_purpose::STANDARD.encode(&bytes);
        assert_eq!(decode_base64(&text), Ok(bytes));
    }
}

#[test]
fn decode_error_message() {
    assert_eq!(DecodeError::InvalidCharacter.message(), "Invalid base64 character");
}

#[test]
fn request_for_class_file_encodes_the_content() {
    let class_data = [0xca, 0xfe, 0xba, 0xbe, 0x00];
    let request = DecompileRequest::for_class_file("Foo.class".to_string(), &class_data);
    assert_eq!(request.file_path, "Foo.class");
    assert_eq!(request.base64_content, "yv66vgA=");
    assert!(!request.roundtrip);
    assert!(!request.no_short_code_attr);
}

#[test]
fn request_for_class_file_agrees_with_encode() {
    for len in 0..100usize {
        let bytes = sample(len, 77 + len as u32);
        let request = DecompileRequest::for_class_file(String::new(), &bytes);
        assert_eq!(request.base64_content, encode_base64(&bytes));
        assert_eq!(decode_base64(&request.base64_content), Ok(bytes));
    }
}
