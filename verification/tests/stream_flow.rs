use std::cell::Cell;
use std::rc::Rc;

use ethtool::EthtoolAttr;
use ethtool::EthtoolHandle;
use ethtool::EthtoolHeader;
use ethtool::EthtoolLinkStateAttr;
use ethtool::EthtoolLinkStateHandle;
use ethtool::ResponseStream;
use ethtool::TransportEvent;

/// A transport stub: it accepts one submitted request, counts the active
/// subscriptions, and replies with a fixed list of message payloads followed
/// by the end-of-multipart marker.
struct StubTransport {
    replies: Vec<Vec<u8>>,
    next: Cell<usize>,
    subscriptions: Rc<Cell<usize>>,
}

impl StubTransport {
    fn new(replies: Vec<Vec<u8>>) -> StubTransport {
        StubTransport {
            replies,
            next: Cell::new(0),
            subscriptions: Rc::new(Cell::new(0)),
        }
    }

    fn submit(&self, payload: Vec<u8>) -> Subscription {
        assert!(!payload.is_empty());
        self.subscriptions.set(self.subscriptions.get() + 1);
        Subscription { stream: ResponseStream::new(), counter: Rc::clone(&self.subscriptions) }
    }

    fn deliver(&self) -> TransportEvent {
        let i = self.next.get();
        if i < self.replies.len() {
            self.next.set(i + 1);
            TransportEvent::Payload(self.replies[i].clone())
        } else {
            TransportEvent::Done
        }
    }

    fn active_subscriptions(&self) -> usize {
        self.subscriptions.get()
    }
}

/// The stream a submitted request owns.  Dropping it, consumed or not,
/// releases the transport-side subscription.
struct Subscription {
    stream: ResponseStream,
    counter: Rc<Cell<usize>>,
}

impl Drop for Subscription {
    fn drop(&mut self) {
        self.counter.set(self.counter.get() - 1);
    }
}

fn eth0_header_record() -> Vec<u8> {
    vec![
        0x01, 0x80, 0x0c, 0x00, //
        0x02, 0x00, 0x05, 0x00, //
        b'e', b't', b'h', b'0', 0x00, 0x00, 0x00, 0x00,
    ]
}

fn link_true_record() -> Vec<u8> {
    vec![0x02, 0x00, 0x01, 0x00, 0x01, 0x00, 0x00, 0x00]
}

fn sqi_42_record() -> Vec<u8> {
    vec![0x03, 0x00, 0x04, 0x00, 0x2a, 0x00, 0x00, 0x00]
}

fn concat(parts: &[Vec<u8>]) -> Vec<u8> {
    let mut out = Vec::new();
    for p in parts {
        out.extend_from_slice(p);
    }
    out
}

fn eth0_header_attr() -> EthtoolAttr {
    EthtoolAttr::LinkState(EthtoolLinkStateAttr::Header(vec![EthtoolHeader::DevName(
        b"eth0".to_vec(),
    )]))
}

#[test]
fn end_to_end_two_multipart_messages() {
    let transport = StubTransport::new(vec![
        concat(&[eth0_header_record(), link_true_record()]),
        concat(&[eth0_header_record(), sqi_42_record()]),
    ]);

    let mut handle = EthtoolLinkStateHandle::new(EthtoolHandle::new());
    let request = handle.get(Some("eth0"));
    let mut subscription = transport.submit(request.payload().unwrap());

    let mut items = Vec::new();
    loop {
        match subscription.stream.advance(transport.deliver()) {
            Some(item) => items.push(item.unwrap()),
            None => break,
        }
    }

    assert_eq!(items.len(), 2);
    assert_eq!(
        items[0],
        vec![eth0_header_attr(), EthtoolAttr::LinkState(EthtoolLinkStateAttr::Link(true))]
    );
    assert_eq!(
        items[1],
        vec![eth0_header_attr(), EthtoolAttr::LinkState(EthtoolLinkStateAttr::Sqi(42))]
    );
    assert!(subscription.stream.is_finished());
    // a finished stream yields nothing more, whatever arrives
    assert!(subscription.stream.advance(TransportEvent::Payload(link_true_record())).is_none());
}

#[test]
fn dropping_the_stream_releases_the_subscription() {
    let transport = StubTransport::new(vec![
        link_true_record(),
        sqi_42_record(),
        link_true_record(),
    ]);

    let mut handle = EthtoolLinkStateHandle::new(EthtoolHandle::new());
    let request = handle.get(Some("eth0"));
    let mut subscription = transport.submit(request.payload().unwrap());
    assert_eq!(transport.active_subscriptions(), 1);

    // consume one of the three pending messages, then stop
    let first = subscription.stream.advance(transport.deliver());
    assert!(first.unwrap().is_ok());

    drop(subscription);
    assert_eq!(transport.active_subscriptions(), 0);
}

#[test]
fn decode_failure_is_local_to_one_item() {
    let transport = StubTransport::new(vec![
        vec![0x02, 0x00, 0x04, 0x00, 0x01], // declares 4 payload bytes, supplies 1
        link_true_record(),
    ]);

    let mut stream = ResponseStream::new();
    let first = stream.advance(transport.deliver()).unwrap();
    assert!(first.is_err());
    assert!(!stream.is_finished());

    let second = stream.advance(transport.deliver()).unwrap().unwrap();
    assert_eq!(second, vec![EthtoolAttr::LinkState(EthtoolLinkStateAttr::Link(true))]);

    assert!(stream.advance(transport.deliver()).is_none());
    assert!(stream.is_finished());
}
