use ethtool::EthtoolHandle;
use ethtool::EthtoolHeader;
use ethtool::EthtoolLinkStateAttr;
use ethtool::EthtoolLinkStateHandle;

#[test]
fn get_with_name_builds_header() {
    let mut handle = EthtoolLinkStateHandle::new(EthtoolHandle::new());
    let request = handle.get(Some("eth0"));
    assert_eq!(
        request.attrs().as_slice(),
        &[EthtoolLinkStateAttr::Header(vec![EthtoolHeader::DevName(b"eth0".to_vec())])]
    );
    assert!(!request.is_dump());
}

#[test]
fn get_without_name_requests_dump() {
    let mut handle = EthtoolLinkStateHandle::new(EthtoolHandle::new());
    let request = handle.get(None);
    assert_eq!(
        request.attrs().as_slice(),
        &[EthtoolLinkStateAttr::Header(vec![])]
    );
    assert!(request.is_dump());
}

#[test]
fn request_payload_bytes() {
    let mut handle = EthtoolLinkStateHandle::new(EthtoolHandle::new());
    let payload = handle.get(Some("eth0")).payload().unwrap();
    assert_eq!(
        payload,
        vec![
            0x01, 0x80, 0x0c, 0x00, // header attribute, nested flag, payload length 12
            0x02, 0x00, 0x05, 0x00, // name sub-record, payload length 5
            b'e', b't', b'h', b'0', 0x00, 0x00, 0x00, 0x00,
        ]
    );
}

#[test]
fn dump_request_payload_bytes() {
    let mut handle = EthtoolLinkStateHandle::new(EthtoolHandle::new());
    let payload = handle.get(None).payload().unwrap();
    assert_eq!(payload, vec![0x01, 0x80, 0x00, 0x00]);
}

#[test]
fn oversized_name_is_rejected_at_submission() {
    let mut handle = EthtoolLinkStateHandle::new(EthtoolHandle::new());
    let long = "x".repeat(0x1_0000);
    let request = handle.get(Some(&long));
    assert!(request.payload().is_none());
}

#[test]
fn request_round_trips_through_codec() {
    let mut handle = EthtoolLinkStateHandle::new(EthtoolHandle::new());
    let request = handle.get(Some("wlan0"));
    let payload = request.payload().unwrap();
    let decoded = ethtool::parse_link_state_nlas(&payload).unwrap();
    let expected: Vec<ethtool::EthtoolAttr> = request
        .attrs()
        .iter()
        .cloned()
        .map(ethtool::EthtoolAttr::LinkState)
        .collect();
    assert_eq!(decoded, expected);
}
