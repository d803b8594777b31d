use asn_ber::decode::{decode, AsnReader, MAX_DEPTH};
use asn_ber::timestamp::Timestamp;
use asn_ber::value::{
    is_wf, Application, AsnError, AsnOID, Integer, OctetString, Sequence, StructASN, Type, UTCTime,
    Unknown, ASN,
};

fn int_bytes(v: i64) -> Vec<u8> {
    Integer::new(v).encode()
}

#[test]
fn integer_300_is_two_bytes() {
    assert_eq!(int_bytes(300), vec![0x02, 0x02, 0x01, 0x2C]);
}

#[test]
fn integer_zero_is_one_byte() {
    assert_eq!(int_bytes(0), vec![0x02, 0x01, 0x00]);
}

#[test]
fn integer_minus_one_is_one_byte() {
    assert_eq!(int_bytes(-1), vec![0x02, 0x01, 0xFF]);
    let back = decode(&int_bytes(-1)).unwrap().unwrap();
    assert_eq!(back, ASN::Integer(Integer::new(-1)));
}

#[test]
fn integer_widths_are_the_shortest_twos_complement() {
    assert_eq!(int_bytes(127), vec![0x02, 0x01, 0x7F]);
    assert_eq!(int_bytes(128), vec![0x02, 0x02, 0x00, 0x80]);
    assert_eq!(int_bytes(200), vec![0x02, 0x02, 0x00, 0xC8]);
    assert_eq!(int_bytes(-128), vec![0x02, 0x01, 0x80]);
    assert_eq!(int_bytes(-129), vec![0x02, 0x02, 0xFF, 0x7F]);
    assert_eq!(int_bytes(0x1_0000), vec![0x02, 0x03, 0x01, 0x00, 0x00]);
    assert_eq!(int_bytes(i64::MIN).len(), 10);
    for v in [0i64, 1, -1, 127, 128, -128, -129, 300, 0x8000_0000, i64::MAX, i64::MIN] {
        assert_eq!(decode(&int_bytes(v)).unwrap().unwrap(), ASN::Integer(Integer::new(v)));
    }
}

#[test]
fn integer_payload_is_sign_extended() {
    assert_eq!(decode(&[0x02, 0x01, 0xC8]).unwrap().unwrap(), ASN::Integer(Integer::new(-56)));
    assert_eq!(decode(&[0x02, 0x00]).unwrap().unwrap(), ASN::Integer(Integer::new(0)));
}

fn octets_of_len(n: usize) -> Vec<u8> {
    OctetString::new(vec![7u8; n]).encode()
}

#[test]
fn length_127_is_short_form() {
    let b = octets_of_len(127);
    assert_eq!(&b[..2], &[0x04, 0x7F]);
    assert_eq!(b.len(), 129);
}

#[test]
fn length_128_is_long_form() {
    let b = octets_of_len(128);
    assert_eq!(&b[..3], &[0x04, 0x81, 0x80]);
}

#[test]
fn length_300_is_two_length_bytes() {
    let b = octets_of_len(300);
    assert_eq!(&b[..4], &[0x04, 0x82, 0x01, 0x2C]);
}

#[test]
fn length_65536_uses_four_length_bytes() {
    let b = octets_of_len(65536);
    assert_eq!(&b[..6], &[0x04, 0x84, 0x00, 0x01, 0x00, 0x00]);
    assert_eq!(decode(&b).unwrap().unwrap(), ASN::OctetString(OctetString::new(vec![7u8; 65536])));
}

#[test]
fn vendor_prefix_oid_payload() {
    let oid = AsnOID::new(vec![1, 3, 6, 1, 4, 1, 1206, 4, 2]);
    let b = oid.encode();
    assert_eq!(
        b,
        vec![0x06, 0x09, 0x2B, 0x06, 0x01, 0x04, 0x01, 0x89, 0x36, 0x04, 0x02]
    );
    let back = decode(&b).unwrap().unwrap();
    assert_eq!(back, ASN::OID(AsnOID::new(vec![1, 3, 6, 1, 4, 1, 1206, 4, 2])));
}

#[test]
fn oid_arcs_of_three_groups_read_back() {
    let oid = AsnOID::new(vec![1, 3, 20000, 5]);
    let b = oid.encode();
    assert_eq!(b, vec![0x06, 0x05, 0x2B, 0x81, 0x9C, 0x20, 0x05]);
    assert_eq!(decode(&b).unwrap().unwrap(), ASN::OID(AsnOID::new(vec![1, 3, 20000, 5])));
}

#[test]
fn relative_oid_first_byte() {
    let b = AsnOID::new(vec![0, 9, 1]).encode();
    assert_eq!(b, vec![0x06, 0x02, 0x09, 0x01]);
}

fn stamp(y: i32, mo: u8, d: u8, h: u8, mi: u8, s: u8, off: i16) -> Timestamp {
    Timestamp::new(y, mo, d, h, mi, s, off).unwrap()
}

#[test]
fn utc_zero_seconds_zero_offset() {
    let t = stamp(2022, 3, 4, 9, 15, 0, 0);
    assert_eq!(t.to_text(), b"2203040915Z".to_vec());
    let b = UTCTime::new(t).encode();
    assert_eq!(b[0], 0x17);
    assert_eq!(b[1], 11);
}

#[test]
fn utc_seconds_and_negative_offset() {
    let t = stamp(1999, 12, 31, 23, 59, 7, -300);
    assert_eq!(t.to_text(), b"991231235907-0500".to_vec());
}

#[test]
fn utc_text_reads_back() {
    let t = Timestamp::from_text(b"991231235907-0500").unwrap();
    assert_eq!(t, stamp(1999, 12, 31, 23, 59, 7, -300));
    let z = Timestamp::from_text(b"2203040915Z").unwrap();
    assert_eq!(z, stamp(2022, 3, 4, 9, 15, 0, 0));
    let plus = Timestamp::from_text(b"2203040915+0130").unwrap();
    assert_eq!(plus.offset_minutes, 90);
}

#[test]
fn calendar_rejects_missing_days() {
    assert!(Timestamp::new(2023, 2, 29, 0, 0, 0, 0).is_none());
    assert!(Timestamp::new(2024, 2, 29, 0, 0, 0, 0).is_some());
    assert!(Timestamp::new(2023, 4, 31, 0, 0, 0, 0).is_none());
    assert!(Timestamp::from_text(b"2302290000Z").is_none());
}

#[test]
fn malformed_timestamp_is_an_error() {
    let bytes = vec![0x30, 0x04, 0x17, 0x02, 0x41, 0x42];
    assert_eq!(decode(&bytes), Err(AsnError::MalformedTimestamp));
}

fn sample_tree() -> ASN {
    let inner = Sequence {
        content: vec![
            ASN::Integer(Integer::new(-5)),
            ASN::Application(Application::new(vec![0, 1, 2, 3])),
            ASN::Unknown(Unknown::new(0x01, vec![0xFF])),
        ],
    };
    ASN::Sequence(Sequence {
        content: vec![
            ASN::OID(AsnOID::new(vec![1, 3, 6, 1, 4, 1, 1206, 4, 2, 9, 10])),
            ASN::Integer(Integer::new(123)),
            ASN::OctetString(OctetString::new(b"511".to_vec())),
            ASN::UTCTime(UTCTime::new(stamp(2021, 6, 1, 12, 0, 30, 120))),
            ASN::Sequence(inner),
        ],
    })
}

#[test]
fn tree_round_trips() {
    let t = sample_tree();
    let bytes = t.encode();
    let back = decode(&bytes).unwrap().unwrap();
    assert_eq!(back, t);
    assert_eq!(back.encode(), bytes);
}

#[test]
fn unknown_keeps_its_tag() {
    let t = ASN::Sequence(Sequence { content: vec![ASN::Unknown(Unknown::new(0x05, vec![]))] });
    let bytes = t.encode();
    assert_eq!(bytes, vec![0x30, 0x02, 0x05, 0x00]);
    assert_eq!(decode(&bytes).unwrap().unwrap(), t);
}

#[test]
fn empty_buffer_decodes_to_nothing() {
    assert_eq!(decode(&[]), Ok(None));
    let mut r = AsnReader::new();
    assert_eq!(r.read_ber(&[]), Ok(None));
}

#[test]
fn reader_moves_past_each_element() {
    let mut bytes = int_bytes(1);
    bytes.extend(int_bytes(300));
    let mut r = AsnReader::new();
    assert_eq!(r.read_ber(&bytes), Ok(Some(ASN::Integer(Integer::new(1)))));
    assert_eq!(r.reader_idx, 3);
    assert_eq!(r.read_ber(&bytes), Ok(Some(ASN::Integer(Integer::new(300)))));
    assert_eq!(r.read_ber(&bytes), Ok(None));
}

#[test]
fn truncated_input_is_an_error() {
    assert_eq!(decode(&[0x30, 0x05, 0x02, 0x01]), Err(AsnError::TruncatedInput));
    assert_eq!(decode(&[0x30]), Err(AsnError::TruncatedInput));
    assert_eq!(decode(&[0x30, 0x03, 0x02, 0x02, 0x01]), Err(AsnError::TruncatedInput));
}

#[test]
fn context_class_is_unsupported() {
    assert_eq!(decode(&[0x80, 0x00]), Err(AsnError::UnsupportedClass));
    assert_eq!(decode(&[0xC1, 0x00]), Err(AsnError::UnsupportedClass));
}

#[test]
fn long_integer_or_length_is_oversized() {
    assert_eq!(decode(&[0x02, 0x09, 0, 0, 0, 0, 0, 0, 0, 0, 1]), Err(AsnError::Oversized));
    assert_eq!(decode(&[0x04, 0x89, 0, 0, 0, 0, 0, 0, 0, 0, 1]), Err(AsnError::Oversized));
}

#[test]
fn deep_nesting_is_refused() {
    let mut t = ASN::Integer(Integer::new(1));
    for _ in 0..(MAX_DEPTH + 1) {
        t = ASN::Sequence(Sequence { content: vec![t] });
    }
    assert_eq!(decode(&t.encode()), Err(AsnError::NestingTooDeep));
    let mut ok = ASN::Integer(Integer::new(1));
    for _ in 0..MAX_DEPTH {
        ok = ASN::Sequence(Sequence { content: vec![ok] });
    }
    assert_eq!(decode(&ok.encode()).unwrap().unwrap(), ok);
}

#[test]
fn getters_check_the_kind() {
    let mut t = sample_tree();
    assert!(t.get_sequence().is_ok());
    assert_eq!(t.get_integer(), Err(AsnError::TypeMismatch));
    if let Ok(q) = t.get_sequence_mut() {
        let old = q.replace(1, ASN::Integer(Integer::new(7)));
        assert_eq!(old, ASN::Integer(Integer::new(123)));
    }
    let q = t.get_sequence().unwrap();
    assert_eq!(q.get(1), Some(&ASN::Integer(Integer::new(7))));
    assert_eq!(Type::from_id(0x17), Type::UTCTime);
    assert_eq!(Type::from_id(0x01), Type::Unknown);
}

#[test]
fn well_formedness_check() {
    assert!(is_wf(&sample_tree()));
    let bad_oid = ASN::Sequence(Sequence { content: vec![ASN::OID(AsnOID::new(vec![1, 45, 3]))] });
    assert!(!is_wf(&bad_oid));
    let short_oid = ASN::OID(AsnOID::new(vec![1]));
    assert!(!is_wf(&short_oid));
    let negative_arc = ASN::OID(AsnOID::new(vec![1, 3, -4]));
    assert!(!is_wf(&negative_arc));
}
