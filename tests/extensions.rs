use x509_ext::extension::{Decoded, X509Extension};
use x509_ext::general_name::{can_encode, decode_names, encode_names, GeneralName};
use x509_ext::nid::{nid_of, oid_of, NID_INFO_ACCESS, NID_ISSUER_ALT_NAME, NID_KEY_USAGE, NID_SUBJECT_ALT_NAME, NID_UNDEF};
use x509_ext::{
    AddPolicy, DecodeExtension, DecodeFailure, ExtError, ExtIssuerAltName, ExtSubjectAltName,
    ExtensionMark, Extensions, ExtensionsIter, IterState, X509Builder, X509Crl,
    X509ExtensionContainer,
};

fn record(nid: i32, critical: bool, value: Vec<u8>) -> X509Extension {
    X509Extension::from_nid(nid, critical, value).unwrap()
}

fn two_names() -> Vec<GeneralName> {
    vec![GeneralName::dns(b"a.com".to_vec()), GeneralName::dns(b"b.org".to_vec())]
}

fn two_names_der() -> Vec<u8> {
    vec![
        0x30, 0x0E, 0x82, 0x05, b'a', b'.', b'c', b'o', b'm', 0x82, 0x05, b'b', b'.', b'o', b'r',
        b'g',
    ]
}

fn stack_of(records: Vec<X509Extension>) -> Extensions {
    let mut s = Extensions::new();
    for r in records {
        s.insert(r, None).unwrap();
    }
    s
}

fn names_of(d: Decoded) -> (Vec<(u8, Vec<u8>)>, bool) {
    let (names, crit) = d.unwrap().unwrap();
    (names.into_iter().map(|g| (g.tag, g.value)).collect(), crit)
}

#[test]
fn critical_flag_search_scenario() {
    let s = stack_of(vec![
        record(NID_SUBJECT_ALT_NAME, true, two_names_der()),
        record(NID_INFO_ACCESS, false, vec![0x30, 0x00]),
    ]);
    assert_eq!(s.find_by_critical(true, None), Some(0));
    assert_eq!(s.find_by_critical(false, None), Some(1));
    assert_eq!(s.find_by_critical(true, Some(0)), None);
    assert_eq!(s.find_by_critical(true, Some(1)), None);
}

#[test]
fn empty_container_scenario() {
    let s = Extensions::new();
    assert_eq!(s.count(), 0);
    assert_eq!(s.find_by_nid(NID_SUBJECT_ALT_NAME, None), None);
    assert_eq!(s.find_by_object(&vec![0x55, 0x1D, 0x11], None), None);
    assert_eq!(s.find_by_critical(true, None), None);
    assert_eq!(s.find_by_critical(false, None), None);
    assert!(matches!(s.decode_extension(NID_SUBJECT_ALT_NAME), Ok(None)));
    assert!(matches!(s.subject_alt_names(), Ok(None)));
    assert!(matches!(s.issuer_alt_names(), Ok(None)));
    let mut cursor = None;
    assert!(matches!(s.decode_extension_next(NID_ISSUER_ALT_NAME, &mut cursor), Ok(None)));
    assert_eq!(cursor, None);
    assert!(matches!(s.get(0), Err(ExtError::OutOfBounds)));
}

#[test]
fn builder_san_round_trip_scenario() {
    let mut b = X509Builder::new();
    let pos = b.add_encoded(NID_SUBJECT_ALT_NAME, &two_names(), true, AddPolicy::RejectExisting);
    assert_eq!(pos, Ok(0));
    let (names, crit) = names_of(b.subject_alt_names());
    assert_eq!(names, vec![(2u8, b"a.com".to_vec()), (2u8, b"b.org".to_vec())]);
    assert!(crit);
    let cert = b.build();
    let (names, crit) = names_of(cert.subject_alt_names());
    assert_eq!(names.len(), 2);
    assert!(crit);
    assert_eq!(cert.extensions().get(0).unwrap().value, two_names_der());
}

#[test]
fn encoding_is_exact() {
    assert_eq!(encode_names(&two_names()), two_names_der());
    assert_eq!(encode_names(&vec![]), vec![0x30, 0x00]);
    let ip = GeneralName::ip(vec![10, 0, 0, 1]);
    assert_eq!(encode_names(&vec![ip]), vec![0x30, 0x06, 0x87, 0x04, 10, 0, 0, 1]);
    let dir = GeneralName { tag: 4, value: vec![0x30, 0x00] };
    assert_eq!(encode_names(&vec![dir]), vec![0x30, 0x04, 0xA4, 0x02, 0x30, 0x00]);
}

#[test]
fn long_lengths_use_long_form() {
    let long = GeneralName::uri(vec![b'x'; 200]);
    let der = encode_names(&vec![long]);
    assert_eq!(&der[..6], &[0x30, 0x81, 0xCB, 0x86, 0x81, 0xC8]);
    let longer = GeneralName::email(vec![b'y'; 300]);
    let der = encode_names(&vec![longer]);
    assert_eq!(&der[..8], &[0x30, 0x82, 0x01, 0x30, 0x81, 0x82, 0x01, 0x2C]);
    let back = decode_names(&der).unwrap();
    assert_eq!(back.len(), 1);
    assert_eq!(back[0].tag, 1);
    assert_eq!(back[0].value.len(), 300);
}

#[test]
fn decoding_rejects_malformed() {
    assert!(decode_names(&vec![]).is_none());
    assert!(decode_names(&vec![0x31, 0x00]).is_none());
    assert!(decode_names(&vec![0x30, 0x02, 0x82]).is_none());
    assert!(decode_names(&vec![0x30, 0x00, 0x00]).is_none());
    // non-minimal length octets
    assert!(decode_names(&vec![0x30, 0x81, 0x00]).is_none());
    // a constructed identifier for a primitive alternative
    assert!(decode_names(&vec![0x30, 0x02, 0xA2, 0x00]).is_none());
    assert!(decode_names(&vec![0x30, 0x02, 0x89, 0x00]).is_none());
    assert_eq!(decode_names(&vec![0x30, 0x00]).unwrap().len(), 0);
}

#[test]
fn encodable_limits() {
    assert!(can_encode(&two_names()));
    assert!(!can_encode(&vec![GeneralName { tag: 9, value: vec![] }]));
    assert!(!can_encode(&vec![GeneralName::dns(vec![b'a'; 65536])]));
    assert!(!can_encode(&vec![GeneralName::dns(vec![b'a'; 40000]), GeneralName::dns(vec![b'a'; 40000])]));
}

#[test]
fn registry_both_ways() {
    assert_eq!(oid_of(NID_SUBJECT_ALT_NAME), Some(vec![0x55, 0x1D, 0x11]));
    assert_eq!(oid_of(NID_INFO_ACCESS), Some(vec![0x2B, 0x06, 0x01, 0x05, 0x05, 0x07, 0x01, 0x01]));
    assert_eq!(oid_of(12345), None);
    assert_eq!(nid_of(&vec![0x55, 0x1D, 0x12]), NID_ISSUER_ALT_NAME);
    assert_eq!(nid_of(&vec![0x55, 0x1D, 0x0F]), NID_KEY_USAGE);
    assert_eq!(nid_of(&vec![0x55, 0x1D, 0x99]), NID_UNDEF);
    assert!(X509Extension::from_nid(12345, false, vec![]).is_none());
    assert_eq!(ExtSubjectAltName::nid(), 85);
    assert_eq!(ExtIssuerAltName::nid(), 86);
}

#[test]
fn absent_versus_malformed() {
    let s = stack_of(vec![record(NID_SUBJECT_ALT_NAME, false, vec![0x30, 0x03, 0x82])]);
    assert!(matches!(s.issuer_alt_names(), Ok(None)));
    assert_eq!(
        s.subject_alt_names().err(),
        Some(ExtError::DecodeFailed { position: 0, reason: DecodeFailure::Malformed })
    );
}

#[test]
fn unsupported_nid_fails() {
    let s = stack_of(vec![record(NID_KEY_USAGE, true, vec![0x03, 0x02, 0x05, 0xA0])]);
    assert_eq!(
        s.decode_extension(NID_KEY_USAGE).err(),
        Some(ExtError::DecodeFailed { position: 0, reason: DecodeFailure::Unsupported })
    );
    assert!(matches!(s.decode_extension(NID_SUBJECT_ALT_NAME), Ok(None)));
}

#[test]
fn duplicates_need_a_cursor() {
    let second = encode_names(&vec![GeneralName::email(b"x@y.z".to_vec())]);
    let s = stack_of(vec![
        record(NID_SUBJECT_ALT_NAME, true, two_names_der()),
        record(NID_KEY_USAGE, true, vec![]),
        record(NID_SUBJECT_ALT_NAME, false, second),
    ]);
    assert_eq!(s.subject_alt_names().err(), Some(ExtError::MultipleOccurrences));
    let mut cursor = None;
    let (first, crit) = names_of(s.decode_extension_next(NID_SUBJECT_ALT_NAME, &mut cursor));
    assert_eq!(first.len(), 2);
    assert!(crit);
    assert_eq!(cursor, Some(0));
    let (next, crit) = names_of(s.decode_extension_next(NID_SUBJECT_ALT_NAME, &mut cursor));
    assert_eq!(next, vec![(1u8, b"x@y.z".to_vec())]);
    assert!(!crit);
    assert_eq!(cursor, Some(2));
    assert!(matches!(s.decode_extension_next(NID_SUBJECT_ALT_NAME, &mut cursor), Ok(None)));
    assert_eq!(cursor, None);
}

#[test]
fn cursor_positions_increase() {
    let s = stack_of(vec![
        record(NID_SUBJECT_ALT_NAME, false, vec![]),
        record(NID_KEY_USAGE, false, vec![]),
        record(NID_SUBJECT_ALT_NAME, false, vec![]),
        record(NID_SUBJECT_ALT_NAME, true, vec![]),
    ]);
    let mut last = None;
    let mut seen = Vec::new();
    while let Some(p) = s.find_by_nid(NID_SUBJECT_ALT_NAME, last) {
        if let Some(q) = last {
            assert!(p > q);
        }
        seen.push(p);
        last = Some(p);
    }
    assert_eq!(seen, vec![0, 2, 3]);
    assert_eq!(s.find_by_nid(NID_UNDEF, None), None);
    assert_eq!(s.find_by_nid(NID_SUBJECT_ALT_NAME, Some(10)), None);
}

#[test]
fn lookup_is_repeatable() {
    let s = stack_of(vec![
        record(NID_KEY_USAGE, false, vec![]),
        record(NID_SUBJECT_ALT_NAME, false, vec![]),
    ]);
    let a = s.find_by_nid(NID_SUBJECT_ALT_NAME, None);
    let b = s.find_by_nid(NID_SUBJECT_ALT_NAME, None);
    assert_eq!(a, Some(1));
    assert_eq!(a, b);
}

#[test]
fn object_search_finds_unregistered() {
    let odd = vec![0x2A, 0x03, 0x04];
    let s = stack_of(vec![
        X509Extension::new(odd.clone(), false, vec![0x05, 0x00]),
        record(NID_KEY_USAGE, false, vec![]),
    ]);
    assert_eq!(s.get(0).unwrap().nid(), NID_UNDEF);
    assert_eq!(s.find_by_object(&odd, None), Some(0));
    assert_eq!(s.find_by_object(&odd, Some(0)), None);
    assert_eq!(s.find_by_object(&vec![0x55, 0x1D, 0x0F], None), Some(1));
}

#[test]
fn iterations_restart_identically() {
    let s = stack_of(vec![
        record(NID_SUBJECT_ALT_NAME, true, vec![]),
        record(NID_KEY_USAGE, false, vec![]),
        record(NID_SUBJECT_ALT_NAME, false, vec![]),
    ]);
    let mut a = ExtensionsIter::by_nid(NID_SUBJECT_ALT_NAME);
    let mut b = ExtensionsIter::by_nid(NID_SUBJECT_ALT_NAME);
    let ra = a.collect_positions(&s);
    let rb = b.collect_positions(&s);
    assert_eq!(ra, vec![0, 2]);
    assert_eq!(ra, rb);
    assert_eq!(a.state, IterState::Exhausted);
    assert_eq!(a.next(&s), None);
    let mut c = ExtensionsIter::by_critical(false);
    assert_eq!(c.next(&s), Some(1));
    assert_eq!(c.state, IterState::Scanning(1));
    assert_eq!(c.next(&s), Some(2));
    assert_eq!(c.next(&s), None);
    let mut o = ExtensionsIter::by_object(vec![0x55, 0x1D, 0x0F]);
    assert_eq!(o.collect_positions(&s), vec![1]);
}

#[test]
fn delete_takes_one_out() {
    let mut b = X509Builder::new();
    b.add_encoded(NID_SUBJECT_ALT_NAME, &two_names(), false, AddPolicy::Append).unwrap();
    b.insert(record(NID_KEY_USAGE, true, vec![]), None).unwrap();
    assert_eq!(b.extensions().count(), 2);
    let gone = b.delete_at(0).unwrap();
    assert_eq!(gone.nid(), NID_SUBJECT_ALT_NAME);
    assert_eq!(b.extensions().count(), 1);
    assert!(matches!(b.subject_alt_names(), Ok(None)));
    let mut cursor = None;
    assert!(matches!(b.extensions().decode_extension_next(NID_SUBJECT_ALT_NAME, &mut cursor), Ok(None)));
    assert!(matches!(b.delete_at(5), Err(ExtError::OutOfBounds)));
    assert_eq!(b.extensions().count(), 1);
}

#[test]
fn insert_positions() {
    let mut s = Extensions::new();
    assert_eq!(s.insert(record(NID_KEY_USAGE, false, vec![]), Some(1)), Err(ExtError::OutOfBounds));
    assert_eq!(s.insert(record(NID_KEY_USAGE, false, vec![]), Some(0)), Ok(0));
    assert_eq!(s.insert(record(NID_INFO_ACCESS, false, vec![]), Some(0)), Ok(0));
    assert_eq!(s.insert(record(NID_SUBJECT_ALT_NAME, false, vec![]), None), Ok(2));
    assert_eq!(s.get(0).unwrap().nid(), NID_INFO_ACCESS);
    assert_eq!(s.get(1).unwrap().nid(), NID_KEY_USAGE);
    assert_eq!(s.get(2).unwrap().nid(), NID_SUBJECT_ALT_NAME);
}

#[test]
fn add_policies() {
    let one = vec![GeneralName::dns(b"one".to_vec())];
    let two = vec![GeneralName::dns(b"two".to_vec())];
    let mut s = Extensions::new();
    assert_eq!(s.add_encoded(NID_ISSUER_ALT_NAME, &one, false, AddPolicy::ReplaceExisting), Err(ExtError::MutationRejected));
    assert_eq!(s.add_encoded(NID_ISSUER_ALT_NAME, &one, false, AddPolicy::Delete), Err(ExtError::MutationRejected));
    assert_eq!(s.count(), 0);
    assert_eq!(s.add_encoded(NID_ISSUER_ALT_NAME, &one, false, AddPolicy::KeepExisting), Ok(0));
    assert_eq!(s.add_encoded(NID_ISSUER_ALT_NAME, &two, true, AddPolicy::RejectExisting), Err(ExtError::MutationRejected));
    assert_eq!(s.add_encoded(NID_ISSUER_ALT_NAME, &two, true, AddPolicy::KeepExisting), Ok(0));
    assert_eq!(names_of(s.issuer_alt_names()), (vec![(2u8, b"one".to_vec())], false));
    assert_eq!(s.add_encoded(NID_ISSUER_ALT_NAME, &two, true, AddPolicy::Replace), Ok(0));
    assert_eq!(names_of(s.issuer_alt_names()), (vec![(2u8, b"two".to_vec())], true));
    assert_eq!(s.add_encoded(NID_ISSUER_ALT_NAME, &one, false, AddPolicy::Append), Ok(1));
    assert_eq!(s.issuer_alt_names().err(), Some(ExtError::MultipleOccurrences));
    assert_eq!(s.add_encoded(NID_ISSUER_ALT_NAME, &one, false, AddPolicy::Delete), Ok(0));
    assert_eq!(names_of(s.issuer_alt_names()), (vec![(2u8, b"one".to_vec())], false));
    assert_eq!(s.add_encoded(NID_KEY_USAGE, &one, false, AddPolicy::Append), Err(ExtError::MutationRejected));
    let bad = vec![GeneralName { tag: 12, value: vec![] }];
    assert_eq!(s.add_encoded(NID_SUBJECT_ALT_NAME, &bad, false, AddPolicy::Append), Err(ExtError::MutationRejected));
    assert_eq!(s.count(), 1);
}

#[test]
fn crl_reads_through_markers() {
    let mut s = Extensions::new();
    s.add_encoded(NID_ISSUER_ALT_NAME, &two_names(), false, AddPolicy::RejectExisting).unwrap();
    let crl = X509Crl::new(s);
    assert_eq!(names_of(crl.decode_extension_to::<ExtIssuerAltName>()).0.len(), 2);
    assert!(matches!(crl.decode_extension_to::<ExtSubjectAltName>(), Ok(None)));
    assert_eq!(crl.extensions().find_by_nid(NID_ISSUER_ALT_NAME, None), Some(0));
}

#[test]
fn walk_every_record_with_its_value() {
    let s = stack_of(vec![
        record(NID_SUBJECT_ALT_NAME, true, two_names_der()),
        record(NID_KEY_USAGE, false, vec![0x03, 0x01, 0x00]),
        record(NID_ISSUER_ALT_NAME, false, vec![0x30, 0x02, 0x82, 0x01]),
    ]);
    let mut it = ExtensionsIter::all();
    assert_eq!(it.collect_positions(&s), vec![0, 1, 2]);
    assert_eq!(names_of(s.decode_at(0)).0.len(), 2);
    assert_eq!(
        s.decode_at(1).err(),
        Some(ExtError::DecodeFailed { position: 1, reason: DecodeFailure::Unsupported })
    );
    assert_eq!(
        s.decode_at(2).err(),
        Some(ExtError::DecodeFailed { position: 2, reason: DecodeFailure::Malformed })
    );
    assert_eq!(s.decode_at(3).err(), Some(ExtError::OutOfBounds));
}

#[test]
fn trailing_bytes_are_malformed() {
    let mut der = two_names_der();
    der.push(0x00);
    let s = stack_of(vec![record(NID_SUBJECT_ALT_NAME, false, der)]);
    assert_eq!(
        s.subject_alt_names().err(),
        Some(ExtError::DecodeFailed { position: 0, reason: DecodeFailure::Malformed })
    );
}
