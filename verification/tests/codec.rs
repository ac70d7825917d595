use ethtool::ErrorDetail;
use ethtool::EthtoolAttr;
use ethtool::EthtoolHeader;
use ethtool::EthtoolLinkStateAttr;
use ethtool::emit_link_state_nlas;
use ethtool::parse_link_state_nlas;

fn unwrap_link_state(attrs: Vec<EthtoolAttr>) -> Vec<EthtoolLinkStateAttr> {
    attrs
        .into_iter()
        .map(|a| match a {
            EthtoolAttr::LinkState(ls) => ls,
        })
        .collect()
}

/// The 16-byte record of a header attribute naming "eth0": nested kind
/// 0x8001, then the name sub-record with its terminating zero and padding.
fn eth0_header_bytes() -> Vec<u8> {
    vec![
        0x01, 0x80, 0x0c, 0x00, // outer kind (nested flag set), payload length 12
        0x02, 0x00, 0x05, 0x00, // name sub-record kind 2, payload length 5
        b'e', b't', b'h', b'0', 0x00, 0x00, 0x00, 0x00, // "eth0", zero, 3 pad bytes
    ]
}

fn eth0_header_attr() -> EthtoolLinkStateAttr {
    EthtoolLinkStateAttr::Header(vec![EthtoolHeader::DevName(b"eth0".to_vec())])
}

#[test]
fn round_trip_header_and_fallback() {
    let attrs = vec![
        eth0_header_attr(),
        EthtoolLinkStateAttr::Other(0x0042, vec![0xde, 0xad, 0xbe]),
    ];
    let bytes = emit_link_state_nlas(&attrs);
    let decoded = unwrap_link_state(parse_link_state_nlas(&bytes).unwrap());
    assert_eq!(decoded, attrs);
}

#[test]
fn round_trip_empty_sequence() {
    let attrs: Vec<EthtoolLinkStateAttr> = Vec::new();
    let bytes = emit_link_state_nlas(&attrs);
    assert!(bytes.is_empty());
    assert_eq!(parse_link_state_nlas(&bytes).unwrap(), Vec::new());
}

#[test]
fn round_trip_empty_header_and_empty_fallback() {
    let attrs = vec![
        EthtoolLinkStateAttr::Header(vec![]),
        EthtoolLinkStateAttr::Other(0x7777, vec![]),
    ];
    let bytes = emit_link_state_nlas(&attrs);
    let decoded = unwrap_link_state(parse_link_state_nlas(&bytes).unwrap());
    assert_eq!(decoded, attrs);
}

#[test]
fn round_trip_full_header() {
    let attrs = vec![EthtoolLinkStateAttr::Header(vec![
        EthtoolHeader::DevIndex(3),
        EthtoolHeader::DevName(b"lo".to_vec()),
        EthtoolHeader::Flags(0x0000_0001),
        EthtoolHeader::Other(0x0099, vec![5, 6, 7]),
    ])];
    let bytes = emit_link_state_nlas(&attrs);
    let decoded = unwrap_link_state(parse_link_state_nlas(&bytes).unwrap());
    assert_eq!(decoded, attrs);
}

#[test]
fn order_and_duplicates_preserved() {
    // kinds [A, B, A]: link, sqi, link again with a different value
    let buffer = vec![
        0x02, 0x00, 0x01, 0x00, 0x01, 0x00, 0x00, 0x00, // Link(true)
        0x03, 0x00, 0x04, 0x00, 0x07, 0x00, 0x00, 0x00, // Sqi(7)
        0x02, 0x00, 0x01, 0x00, 0x00, 0x00, 0x00, 0x00, // Link(false)
    ];
    let decoded = unwrap_link_state(parse_link_state_nlas(&buffer).unwrap());
    assert_eq!(
        decoded,
        vec![
            EthtoolLinkStateAttr::Link(true),
            EthtoolLinkStateAttr::Sqi(7),
            EthtoolLinkStateAttr::Link(false),
        ]
    );
}

#[test]
fn truncated_payload_names_the_kind() {
    // declares payload length 4 but only 2 bytes remain
    let buffer = vec![0x03, 0x00, 0x04, 0x00, 0xaa, 0xbb];
    let err = parse_link_state_nlas(&buffer).unwrap_err();
    assert_eq!(
        err.detail(),
        ErrorDetail::TruncatedPayload { kind: 3, declared: 4, available: 2 }
    );
    assert!(err.context().is_empty());
}

#[test]
fn truncated_record_header() {
    let buffer = vec![0x02, 0x00];
    let err = parse_link_state_nlas(&buffer).unwrap_err();
    assert_eq!(err.detail(), ErrorDetail::TruncatedRecord { available: 2 });
}

#[test]
fn empty_buffer_is_zero_attributes() {
    let decoded = parse_link_state_nlas(&[]).unwrap();
    assert!(decoded.is_empty());
}

#[test]
fn boolean_domain() {
    let attr = |byte: u8| {
        let buffer = vec![0x02, 0x00, 0x01, 0x00, byte, 0x00, 0x00, 0x00];
        parse_link_state_nlas(&buffer)
    };
    assert_eq!(
        unwrap_link_state(attr(0x00).unwrap()),
        vec![EthtoolLinkStateAttr::Link(false)]
    );
    assert_eq!(
        unwrap_link_state(attr(0x01).unwrap()),
        vec![EthtoolLinkStateAttr::Link(true)]
    );
    let err = attr(0x02).unwrap_err();
    assert_eq!(err.detail(), ErrorDetail::InvalidBoolean { kind: 2, value: 2 });
}

#[test]
fn boolean_wrong_length() {
    let buffer = vec![0x02, 0x00, 0x02, 0x00, 0x01, 0x01, 0x00, 0x00];
    let err = parse_link_state_nlas(&buffer).unwrap_err();
    assert_eq!(
        err.detail(),
        ErrorDetail::WrongValueLength { kind: 2, expected: 1, actual: 2 }
    );
}

#[test]
fn unknown_kind_passthrough() {
    let buffer = vec![0x42, 0x00, 0x02, 0x00, 0xde, 0xad, 0x00, 0x00];
    let decoded = unwrap_link_state(parse_link_state_nlas(&buffer).unwrap());
    assert_eq!(
        decoded,
        vec![EthtoolLinkStateAttr::Other(0x0042, vec![0xde, 0xad])]
    );
    let reencoded = emit_link_state_nlas(&decoded);
    assert_eq!(reencoded, buffer);
}

#[test]
fn unknown_kind_keeps_flag_bits() {
    // unknown kind with the nested flag set round-trips with the flag intact
    let buffer = vec![0x42, 0x80, 0x01, 0x00, 0x99, 0x00, 0x00, 0x00];
    let decoded = unwrap_link_state(parse_link_state_nlas(&buffer).unwrap());
    assert_eq!(decoded, vec![EthtoolLinkStateAttr::Other(0x8042, vec![0x99])]);
    assert_eq!(emit_link_state_nlas(&decoded), buffer);
}

#[test]
fn fixed_width_values_decode() {
    let buffer = vec![
        0x03, 0x00, 0x04, 0x00, 0x2a, 0x00, 0x00, 0x00, // Sqi(42)
        0x04, 0x00, 0x04, 0x00, 0x64, 0x00, 0x00, 0x00, // SqiMax(100)
        0x05, 0x00, 0x01, 0x00, 0x09, 0x00, 0x00, 0x00, // ExtState(9)
        0x06, 0x00, 0x01, 0x00, 0x07, 0x00, 0x00, 0x00, // ExtSubstate(7)
        0x07, 0x00, 0x04, 0x00, 0x01, 0x02, 0x00, 0x00, // ExtDownCnt(0x0201)
    ];
    let decoded = unwrap_link_state(parse_link_state_nlas(&buffer).unwrap());
    assert_eq!(
        decoded,
        vec![
            EthtoolLinkStateAttr::Sqi(42),
            EthtoolLinkStateAttr::SqiMax(100),
            EthtoolLinkStateAttr::ExtState(9),
            EthtoolLinkStateAttr::ExtSubstate(7),
            EthtoolLinkStateAttr::ExtDownCnt(0x0201),
        ]
    );
}

#[test]
fn sqi_wrong_length() {
    let buffer = vec![0x03, 0x00, 0x02, 0x00, 0x01, 0x02, 0x00, 0x00];
    let err = parse_link_state_nlas(&buffer).unwrap_err();
    assert_eq!(
        err.detail(),
        ErrorDetail::WrongValueLength { kind: 3, expected: 4, actual: 2 }
    );
}

#[test]
fn ext_state_wrong_length() {
    let buffer = vec![0x05, 0x00, 0x02, 0x00, 0x01, 0x02, 0x00, 0x00];
    let err = parse_link_state_nlas(&buffer).unwrap_err();
    assert_eq!(
        err.detail(),
        ErrorDetail::WrongValueLength { kind: 5, expected: 1, actual: 2 }
    );
}

#[test]
fn nested_error_carries_enclosing_kind() {
    // header attribute whose nested interface-index record has 2 payload bytes
    let buffer = vec![
        0x01, 0x80, 0x08, 0x00, // outer header attribute, payload length 8
        0x01, 0x00, 0x02, 0x00, 0xaa, 0xbb, 0x00, 0x00, // bad DevIndex record
    ];
    let err = parse_link_state_nlas(&buffer).unwrap_err();
    assert_eq!(
        err.detail(),
        ErrorDetail::WrongValueLength { kind: 1, expected: 4, actual: 2 }
    );
    assert_eq!(err.context().as_slice(), &[0x8001]);
}

#[test]
fn nested_truncation_carries_enclosing_kind() {
    let buffer = vec![
        0x01, 0x80, 0x02, 0x00, // header attribute with a 2-byte nested payload
        0x05, 0x00, 0x00, 0x00,
    ];
    let err = parse_link_state_nlas(&buffer).unwrap_err();
    assert_eq!(err.detail(), ErrorDetail::TruncatedRecord { available: 2 });
    assert_eq!(err.context().as_slice(), &[0x8001]);
}

#[test]
fn header_emit_exact_bytes() {
    let attrs = vec![eth0_header_attr()];
    assert_eq!(emit_link_state_nlas(&attrs), eth0_header_bytes());
}

#[test]
fn header_decodes_exact_bytes() {
    let decoded = unwrap_link_state(parse_link_state_nlas(&eth0_header_bytes()).unwrap());
    assert_eq!(decoded, vec![eth0_header_attr()]);
}

#[test]
fn device_name_parsing() {
    // well-formed: name bytes with terminating zero
    let ok = EthtoolHeader::parse(2, b"eth0\0".to_vec()).unwrap();
    assert_eq!(ok, EthtoolHeader::DevName(b"eth0".to_vec()));
    // empty payload decodes to the empty name
    let empty = EthtoolHeader::parse(2, Vec::new()).unwrap();
    assert_eq!(empty, EthtoolHeader::DevName(Vec::new()));
    // missing terminator
    let err = EthtoolHeader::parse(2, b"eth0".to_vec()).unwrap_err();
    assert_eq!(err.detail(), ErrorDetail::InvalidName { kind: 2 });
    // interior zero byte
    let err = EthtoolHeader::parse(2, vec![b'a', 0, b'b', 0]).unwrap_err();
    assert_eq!(err.detail(), ErrorDetail::InvalidName { kind: 2 });
}

#[test]
fn header_sub_attribute_values() {
    let idx = EthtoolHeader::parse(1, vec![3, 0, 0, 0]).unwrap();
    assert_eq!(idx, EthtoolHeader::DevIndex(3));
    let flags = EthtoolHeader::parse(3, vec![1, 0, 0, 0]).unwrap();
    assert_eq!(flags, EthtoolHeader::Flags(1));
    let other = EthtoolHeader::parse(9, vec![8, 7]).unwrap();
    assert_eq!(other, EthtoolHeader::Other(9, vec![8, 7]));
    let err = EthtoolHeader::parse(1, vec![3, 0]).unwrap_err();
    assert_eq!(
        err.detail(),
        ErrorDetail::WrongValueLength { kind: 1, expected: 4, actual: 2 }
    );
}

#[test]
fn kind_and_value_len() {
    assert_eq!(eth0_header_attr().kind(), 0x8001);
    assert_eq!(eth0_header_attr().value_len(), 12);
    assert_eq!(EthtoolLinkStateAttr::Link(true).kind(), 2);
    assert_eq!(EthtoolLinkStateAttr::Sqi(0).kind(), 3);
    assert_eq!(EthtoolLinkStateAttr::SqiMax(0).kind(), 4);
    assert_eq!(EthtoolLinkStateAttr::ExtState(0).kind(), 5);
    assert_eq!(EthtoolLinkStateAttr::ExtSubstate(0).kind(), 6);
    assert_eq!(EthtoolLinkStateAttr::ExtDownCnt(0).kind(), 7);
    assert_eq!(EthtoolLinkStateAttr::Other(0x42, vec![1, 2, 3]).kind(), 0x42);
    assert_eq!(EthtoolLinkStateAttr::Other(0x42, vec![1, 2, 3]).value_len(), 3);
}

#[test]
fn emittable_check() {
    assert!(eth0_header_attr().check_emittable());
    assert!(EthtoolLinkStateAttr::Other(0x42, vec![1]).check_emittable());
    // reported-only variants have no emission in this protocol direction
    assert!(!EthtoolLinkStateAttr::Link(true).check_emittable());
    assert!(!EthtoolLinkStateAttr::Sqi(1).check_emittable());
    // a name too long for the 16-bit length field
    let long = EthtoolLinkStateAttr::Header(vec![EthtoolHeader::DevName(vec![b'x'; 0xffff])]);
    assert!(!long.check_emittable());
}

#[test]
fn final_record_padding_may_be_absent() {
    // 1-byte payload, no padding after the last record
    let buffer = vec![0x02, 0x00, 0x01, 0x00, 0x01];
    let decoded = unwrap_link_state(parse_link_state_nlas(&buffer).unwrap());
    assert_eq!(decoded, vec![EthtoolLinkStateAttr::Link(true)]);
}
