use gdb_protocol::hex::format_checksum;
use gdb_protocol::packet::{CheckedPacket, Kind, UncheckedPacket};
use gdb_protocol::parser::Parser;
use gdb_protocol::Error;

fn packet(data: &[u8], checksum: &[u8; 2]) -> UncheckedPacket {
    UncheckedPacket { kind: Kind::Packet, data: data.to_vec(), checksum: *checksum }
}

fn reference_checksum(input: &str) -> u8 {
    (input.bytes().map(|x| usize::from(x)).sum::<usize>() % 256) as u8
}

#[test]
fn expected_checksum_reads_upper_case_hex() {
    assert_eq!(packet(b"Hello, World!", b"BA").expected_checksum().unwrap(), 186);
}

#[test]
fn expected_checksum_reads_lower_and_mixed_case() {
    assert_eq!(packet(b"", b"ba").expected_checksum().unwrap(), 186);
    assert_eq!(packet(b"", b"bA").expected_checksum().unwrap(), 186);
    assert_eq!(packet(b"", b"00").expected_checksum().unwrap(), 0);
    assert_eq!(packet(b"", b"ff").expected_checksum().unwrap(), 255);
    assert_eq!(packet(b"", b"09").expected_checksum().unwrap(), 9);
    assert_eq!(packet(b"", b"a0").expected_checksum().unwrap(), 160);
    assert_eq!(packet(b"", b"1F").expected_checksum().unwrap(), 31);
}

#[test]
fn expected_checksum_accepts_a_plus_sign() {
    assert_eq!(packet(b"", b"+5").expected_checksum().unwrap(), 5);
    assert_eq!(packet(b"", b"+f").expected_checksum().unwrap(), 15);
}

#[test]
fn expected_checksum_rejects_text_that_is_no_number() {
    for field in [b"GE", b"0x", b"-1", b" 1", b"1 ", b"++", b"+-", b"5+", b"g0", b"0g", b"@A", b"`a", b"/0", b":0"] {
        match packet(b"", field).expected_checksum() {
            Err(Error::NonNumber(text, _)) => assert_eq!(text.as_bytes(), field),
            other => panic!("{:?} gave {:?}", field, other),
        }
    }
}

#[test]
fn expected_checksum_rejects_wide_characters_as_no_number() {
    match packet(b"", &[0xc3, 0xa9]).expected_checksum() {
        Err(Error::NonNumber(text, _)) => assert_eq!(text, "\u{e9}"),
        other => panic!("gave {:?}", other),
    }
}

#[test]
fn expected_checksum_rejects_bytes_that_are_no_text() {
    for field in [[0xff, 0x30], [0x30, 0xff], [0x80, 0x80], [0xc3, 0x30], [0x30, 0xc3], [0xc0, 0x80], [0xe2, 0x82]] {
        match packet(b"", &field).expected_checksum() {
            Err(Error::NonUtf8(bytes, _)) => assert_eq!(bytes, field.to_vec()),
            other => panic!("{:?} gave {:?}", field, other),
        }
    }
}

#[test]
fn actual_checksum_of_hello_world() {
    assert_eq!(packet(b"Hello, World!", b"BA").actual_checksum(), 105);
}

#[test]
fn actual_checksum_is_the_sum_modulo_256() {
    for input in [
        "Hello, World!",
        "The history books say you live up to be 86 years old, Mr. Queen.",
        "All you care about is money. This town deserves a better class of criminals.",
        "Hello. I'm the Doctor. So basically, run.",
        "Batman! What are you doing? You're *completely* outnumbered here. Are you *nuts*?",
    ] {
        assert_eq!(packet(input.as_bytes(), b"00").actual_checksum(), reference_checksum(input));
    }
}

#[test]
fn actual_checksum_exact_values() {
    assert_eq!(packet(b"", b"00").actual_checksum(), 0);
    assert_eq!(packet(b"packet", b"00").actual_checksum(), 0x78);
    assert_eq!(packet(&[255, 1], b"00").actual_checksum(), 0);
    assert_eq!(packet(&[255, 255, 255], b"00").actual_checksum(), 253);
    assert_eq!(packet(&[200; 1000], b"00").actual_checksum(), 64);
}

#[test]
fn encode_escapes_reserved_bytes() {
    let mut encoded = Vec::new();
    packet(b"these must be escaped: # $ } *", b"00").encode(&mut encoded).unwrap();
    assert_eq!(encoded, b"$these must be escaped: }\x03 }\x04 }] }\x0a#00".to_vec());
}

#[test]
fn encode_appends_to_what_the_sink_holds() {
    let mut encoded = b"+".to_vec();
    packet(b"OK", b"9a").encode(&mut encoded).unwrap();
    assert_eq!(encoded, b"+$OK#9a".to_vec());
}

#[test]
fn encode_marks_notifications() {
    let mut encoded = Vec::new();
    UncheckedPacket { kind: Kind::Notification, data: b"%n*".to_vec(), checksum: *b"zz" }
        .encode(&mut encoded)
        .unwrap();
    assert_eq!(encoded, b"%%n}\x0a#zz".to_vec());
}

#[test]
fn encode_handles_runs_of_reserved_bytes() {
    let mut encoded = Vec::new();
    packet(b"**#}$$a", b"00").encode(&mut encoded).unwrap();
    assert_eq!(encoded, b"$}\x0a}\x0a}\x03}]}\x04}\x04a#00".to_vec());
}

#[test]
fn escaping_round_trip() {
    let sent = CheckedPacket::from_data(Kind::Packet, b"these must be escaped: # $ } *".to_vec());
    let mut encoded = Vec::new();
    sent.encode(&mut encoded).unwrap();
    let (read, decoded) = Parser::default().feed(&encoded).unwrap();
    assert_eq!(read, encoded.len());
    let decoded = decoded.unwrap();
    assert_eq!(decoded.data, b"these must be escaped: # $ } *".to_vec());
    assert_eq!(decoded.check(), Some(sent));
}

#[test]
fn round_trip_of_every_byte_value() {
    let data: Vec<u8> = (0..=255).collect();
    for kind in [Kind::Packet, Kind::Notification] {
        let sent = CheckedPacket::from_data(kind, data.clone());
        let mut encoded = Vec::new();
        sent.encode(&mut encoded).unwrap();
        assert_eq!(encoded.len(), 1 + 256 + 4 + 3);
        let (read, decoded) = Parser::default().feed(&encoded).unwrap();
        assert_eq!(read, encoded.len());
        assert_eq!(decoded.unwrap().check(), Some(sent));
    }
}

#[test]
fn round_trip_without_reserved_bytes() {
    for data in [&b""[..], b"OK", b"qSupported:multiprocess+;swbreak+", b"m7ffff7fd0e0,8", &[0, 1, 2, 0x7f, 0x80, 0xff]] {
        let sent = CheckedPacket::from_data(Kind::Packet, data.to_vec());
        let mut encoded = Vec::new();
        sent.encode(&mut encoded).unwrap();
        assert_eq!(&encoded[1..1 + data.len()], data);
        let (read, decoded) = Parser::default().feed(&encoded).unwrap();
        assert_eq!(read, encoded.len());
        assert_eq!(decoded.unwrap().data, data.to_vec());
    }
}

#[test]
fn check_accepts_only_a_matching_checksum() {
    assert!(packet(b"Rust is an amazing programming language", b"00").check().is_none());
    assert!(packet(b"Rust is an amazing programming language", b"C7").check().is_some());
}

#[test]
fn check_rejects_a_field_that_is_no_number() {
    assert!(packet(b"", b"GE").check().is_none());
    assert!(packet(b"", &[0xff, 0xff]).check().is_none());
    assert!(packet(b"", b"0 ").check().is_none());
}

#[test]
fn check_keeps_the_packet_as_it_is() {
    let unchecked = packet(b"Rust is an amazing programming language", b"c7");
    let checked = unchecked.clone().check().unwrap();
    assert_eq!(checked.invalidate_check(), unchecked);
}

#[test]
fn check_accepts_the_plus_form() {
    assert!(packet(&[5], b"+5").check().is_some());
    assert!(packet(&[6], b"+5").check().is_none());
}

#[test]
fn empty_packet_encodes_to_dollar_hash_zero_zero() {
    let mut encoded = Vec::new();
    CheckedPacket::empty().encode(&mut encoded).unwrap();
    assert_eq!(encoded, b"$#00")
}

#[test]
fn empty_packet_fields() {
    assert_eq!(
        CheckedPacket::empty().invalidate_check(),
        UncheckedPacket { kind: Kind::Packet, data: Vec::new(), checksum: *b"00" },
    );
    assert_eq!(CheckedPacket::empty(), CheckedPacket::from_data(Kind::Packet, Vec::new()));
}

#[test]
fn from_data_computes_the_checksum() {
    assert_eq!(
        CheckedPacket::from_data(Kind::Packet, b"Hello, World!".to_vec()).invalidate_check(),
        UncheckedPacket { kind: Kind::Packet, data: b"Hello, World!".to_vec(), checksum: *b"69" },
    )
}

#[test]
fn from_data_writes_upper_case_digits() {
    assert_eq!(CheckedPacket::from_data(Kind::Packet, b"OK".to_vec()).checksum, *b"9A");
    assert_eq!(CheckedPacket::from_data(Kind::Notification, vec![0xab]).checksum, *b"AB");
    assert_eq!(CheckedPacket::from_data(Kind::Packet, vec![0x0f]).checksum, *b"0F");
    assert_eq!(CheckedPacket::from_data(Kind::Packet, vec![0xff, 0xff]).checksum, *b"FE");
}

#[test]
fn from_data_always_passes_the_check() {
    for byte in 0..=255u8 {
        let made = CheckedPacket::from_data(Kind::Packet, vec![byte]);
        assert_eq!(made.expected_checksum().unwrap(), byte);
        assert_eq!(made.clone().invalidate_check().check(), Some(made));
    }
}

#[test]
fn format_checksum_of_every_value() {
    for value in 0..=255u8 {
        assert_eq!(format_checksum(value).to_vec(), format!("{:02X}", value).into_bytes());
    }
}

#[test]
fn assume_checked_wraps_a_valid_packet() {
    let unchecked = packet(b"packet", b"78");
    assert!(unchecked.expected_checksum().ok() == Some(unchecked.actual_checksum()));
    let checked = CheckedPacket::assume_checked(unchecked.clone());
    assert_eq!(checked, CheckedPacket::from_data(Kind::Packet, b"packet".to_vec()));
    assert_eq!(checked.invalidate_check(), unchecked);
}

#[test]
fn checked_packet_gives_read_access() {
    let checked = CheckedPacket::from_data(Kind::Notification, b"abc".to_vec());
    assert_eq!(checked.kind, Kind::Notification);
    assert_eq!(checked.data, b"abc".to_vec());
    assert_eq!(checked.actual_checksum(), 0x26);
    assert_eq!(checked.expected_checksum().unwrap(), 0x26);
}

#[test]
fn invalidated_packet_can_be_changed_and_fails_the_check() {
    let mut unchecked = CheckedPacket::from_data(Kind::Packet, b"abc".to_vec()).invalidate_check();
    unchecked.data.push(b'd');
    assert!(unchecked.check().is_none());
}

#[test]
fn error_messages() {
    assert_eq!(Error::MalformedRepeat.message(), "malformed run length");
    assert_eq!(Error::PayloadTooLarge.message(), "payload too large");
    let no_number = packet(b"", b"GE").expected_checksum().unwrap_err().message();
    assert!(no_number.starts_with("expected number, found \"GE\": "));
    let no_text = packet(b"", &[0xff, 0x30]).expected_checksum().unwrap_err().message();
    assert!(no_text.starts_with("expected UTF-8 string in this context, found [255, 48]: "));
    let io = Error::from(std::io::Error::new(std::io::ErrorKind::Other, "broken pipe"));
    assert_eq!(io.message(), "i/o error: broken pipe");
}
