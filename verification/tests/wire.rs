use mineshield_proxy::text::{chars_of, parse_port, push_decimal, push_hex, to_ascii_lowercase, trim};
use mineshield_proxy::wire::{
    frame, length32, read_string, read_varint, utf8_string, write_string, write_varint, ByteReader,
    ReadError,
};

fn varint(value: u32) -> Vec<u8> {
    let mut out = Vec::new();
    write_varint(value, &mut out);
    out
}

#[test]
fn varints_have_their_known_encodings() {
    assert_eq!(varint(0), vec![0x00]);
    assert_eq!(varint(127), vec![0x7f]);
    assert_eq!(varint(128), vec![0x80, 0x01]);
    assert_eq!(varint(300), vec![0xac, 0x02]);
    assert_eq!(varint(754), vec![0xf2, 0x05]);
    assert_eq!(varint(25565), vec![0xdd, 0xc7, 0x01]);
    assert_eq!(varint(u32::MAX), vec![0xff, 0xff, 0xff, 0xff, 0x0f]);
}

#[test]
fn varints_survive_a_round_trip() {
    for value in [0u32, 1, 127, 128, 255, 16383, 16384, 2097151, 2097152, 268435456, u32::MAX] {
        let mut bytes = varint(value);
        bytes.push(0x55);
        let mut reader = ByteReader::new(&bytes);
        assert_eq!(read_varint(&mut reader), Ok(value));
        assert_eq!(reader.remaining(), 1);
    }
}

#[test]
fn varint_keeps_the_low_32_bits_of_five_bytes() {
    let bytes = [0xff, 0xff, 0xff, 0xff, 0x7f];
    let mut reader = ByteReader::new(&bytes);
    assert_eq!(read_varint(&mut reader), Ok(u32::MAX));
}

#[test]
fn varint_that_ends_too_early() {
    for bytes in [vec![], vec![0x80], vec![0xff, 0xff, 0xff, 0xff, 0xff]] {
        let mut reader = ByteReader::new(&bytes);
        assert_eq!(read_varint(&mut reader), Err(ReadError::UnexpectedEof));
        assert_eq!(reader.remaining(), 0);
    }
}

#[test]
fn varint_with_a_sixth_byte() {
    let bytes = [0x80, 0x80, 0x80, 0x80, 0x80, 0x00, 0x07];
    let mut reader = ByteReader::new(&bytes);
    assert_eq!(read_varint(&mut reader), Err(ReadError::VarIntTooLong));
    assert_eq!(reader.remaining(), 1);
}

#[test]
fn strings_survive_a_round_trip() {
    for text in ["", "localhost", "j\u{e1}t\u{e9}k.example", "\u{1f980}"] {
        let mut bytes = Vec::new();
        write_string(text, &mut bytes);
        assert_eq!(bytes[0] as usize, text.len());
        bytes.push(9);
        let mut reader = ByteReader::new(&bytes);
        assert_eq!(read_string(&mut reader).unwrap(), text);
        assert_eq!(reader.remaining(), 1);
    }
}

#[test]
fn a_string_of_255_bytes_is_read_and_one_of_256_is_not() {
    let longest = "x".repeat(255);
    let mut bytes = Vec::new();
    write_string(&longest, &mut bytes);
    assert_eq!(read_string(&mut ByteReader::new(&bytes)).unwrap(), longest);

    let mut bytes = Vec::new();
    write_string(&"x".repeat(256), &mut bytes);
    assert_eq!(read_string(&mut ByteReader::new(&bytes)), Err(ReadError::StringTooLong));
}

#[test]
fn a_string_that_is_cut_off() {
    let bytes = [5, b'a', b'b'];
    assert_eq!(read_string(&mut ByteReader::new(&bytes)), Err(ReadError::UnexpectedEof));
}

#[test]
fn bytes_that_are_no_text() {
    assert_eq!(utf8_string(vec![b'a', 0xff, b'b']), Err(ReadError::InvalidUtf8(1, Some(1))));
    assert_eq!(utf8_string(vec![b'a', b'b', 0xe2, 0x82]), Err(ReadError::InvalidUtf8(2, None)));
    assert_eq!(utf8_string(vec![0xc3, 0xa9]).unwrap(), "\u{e9}");
}

#[test]
fn read_errors_in_words() {
    assert_eq!(ReadError::UnexpectedEof.message(), "failed to fill whole buffer");
    assert_eq!(ReadError::VarIntTooLong.message(), "VarInt too long");
    assert_eq!(ReadError::StringTooLong.message(), "String too long");
    assert_eq!(ReadError::WrongPacketId.message(), "Invalid packet id in status response");
    assert_eq!(
        ReadError::InvalidUtf8(1, Some(1)).message(),
        String::from_utf8(vec![b'a', 0xff, b'b']).unwrap_err().to_string()
    );
    assert_eq!(
        ReadError::InvalidUtf8(2, None).message(),
        String::from_utf8(vec![b'a', b'b', 0xe2, 0x82]).unwrap_err().to_string()
    );
}

#[test]
fn sixteen_bit_numbers_are_big_endian() {
    let bytes = [0x63, 0xdd, 0x01];
    let mut reader = ByteReader::new(&bytes);
    assert_eq!(reader.read_u16(), Ok(25565));
    assert_eq!(reader.remaining(), 1);
    assert_eq!(reader.read_u16(), Err(ReadError::UnexpectedEof));
    assert_eq!(reader.remaining(), 0);
}

#[test]
fn frames_begin_with_their_length() {
    assert_eq!(frame(&vec![]), vec![0]);
    assert_eq!(frame(&vec![7, 8, 9]), vec![3, 7, 8, 9]);
    let long = vec![1u8; 300];
    let framed = frame(&long);
    assert_eq!(&framed[..2], &[0xac, 0x02]);
    assert_eq!(framed.len(), 302);
    assert_eq!(length32(300), 300);
}

#[test]
fn lower_case_touches_ascii_only() {
    assert_eq!(to_ascii_lowercase("Play.EXAMPLE.com"), "play.example.com");
    assert_eq!(to_ascii_lowercase("\u{c1}RV\u{cd}Z"), "\u{c1}rv\u{cd}z");
    let once = to_ascii_lowercase("MiXeD");
    assert_eq!(to_ascii_lowercase(&once), once);
}

#[test]
fn trimming_takes_white_space_off_both_ends() {
    for text in ["", "  ", " a b ", "\t\n\u{a0}x\u{3000}", "\u{2003}\u{200b}", "plain"] {
        assert_eq!(trim(text), text.trim());
    }
}

#[test]
fn ports_are_numbers_below_65536() {
    for text in ["0", "80", "65535", "+25565", "00080"] {
        let chars = chars_of(text);
        assert_eq!(parse_port(&chars, 0), text.parse::<u16>().ok());
        assert!(parse_port(&chars, 0).is_some());
    }
    for text in ["", "+", "65536", "-1", "12a", " 80", "99999999999999999999"] {
        let chars = chars_of(text);
        assert!(text.parse::<u16>().is_err());
        assert_eq!(parse_port(&chars, 0), None);
    }
    assert_eq!(parse_port(&chars_of("host:443"), 5), Some(443));
}

#[test]
fn numbers_as_text() {
    for value in [0u64, 7, 10, 300, u64::MAX] {
        let mut out = String::new();
        push_decimal(&mut out, value);
        assert_eq!(out, value.to_string());
    }
    for value in [0u32, 5, 16, 255, 256, 0xabcdef, u32::MAX] {
        let mut out = String::new();
        push_hex(&mut out, value);
        assert_eq!(out, format!("{:02X}", value));
    }
}

#[test]
fn no_varint_begins_another() {
    let values = [0u32, 1, 127, 128, 129, 16383, 16384, u32::MAX];
    for v in values {
        for w in values {
            assert_eq!(varint(w).starts_with(&varint(v)), v == w);
        }
    }
}
