use epoll_reactor::connection::{ConnState, RequestContext};
use epoll_reactor::framing::{body_length, contains_marker, content_length_of, parse_decimal, to_ascii_lower, FramingError};
use epoll_reactor::reactor::Reactor;
use epoll_reactor::registry::{CtlOp, Registration, Registry, RegistryError};
use epoll_reactor::server::{Dispatch, ReadStep, Server, LISTENER_ID};
use epoll_reactor::{Interest, ReadyEvent, Readiness};

const REQUEST: &[u8] = b"POST / HTTP/1.1\r\nContent-Length: 5\r\n\r\nhello";

#[test]
fn declared_length_of_a_full_request() {
    assert_eq!(content_length_of(REQUEST), Ok(Some(5)));
}

#[test]
fn header_name_matches_in_any_case() {
    assert_eq!(content_length_of(b"GET / HTTP/1.1\r\nCONTENT-length: 42\r\n\r\n"), Ok(Some(42)));
    assert_eq!(content_length_of(b"GET / HTTP/1.1\ncontent-length: 7\n"), Ok(Some(7)));
}

#[test]
fn no_marker_means_length_zero() {
    assert_eq!(content_length_of(b"POST / FTP\r\nContent-Length: 5\r\n\r\nhello"), Ok(None));
    assert_eq!(content_length_of(b""), Ok(None));
}

#[test]
fn no_header_means_length_zero() {
    assert_eq!(content_length_of(b"GET / HTTP/1.1\r\nHost: x\r\n\r\n"), Ok(None));
    assert_eq!(content_length_of(b"GET / HTTP/1.1\r\nX-Content-Length: 9\r\n\r\n"), Ok(None));
}

#[test]
fn first_header_line_wins() {
    assert_eq!(
        content_length_of(b"HTTP\r\ncontent-length: 3\r\ncontent-length: 4\r\n"), Ok(Some(3))
    );
}

#[test]
fn unterminated_line_is_not_yet_a_header() {
    assert_eq!(content_length_of(b"HTTP\r\ncontent-length: 5"), Ok(None));
    assert_eq!(content_length_of(b"HTTP\r\ncontent-length: 50\r\n"), Ok(Some(50)));
}

#[test]
fn header_cut_inside_its_digits() {
    let mut ctx = RequestContext::new();
    assert_eq!(ctx.read_cb(b"POST / HTTP/1.1\r\ncontent-length: 5"), Ok(Interest::Writable));
    assert_eq!(ctx.content_length, 0);
    assert_eq!(ctx.read_cb(b"0\r\n\r\n"), Ok(Interest::Readable));
    assert_eq!(ctx.content_length, 50);
    assert_eq!(ctx.read_cb(&[b'b'; 49]), Ok(Interest::Readable));
    assert_eq!(ctx.read_cb(b"b"), Ok(Interest::Writable));
}

#[test]
fn body_length_counts_bytes_after_blank_line() {
    assert_eq!(body_length(REQUEST), 5);
    assert_eq!(body_length(b"POST / HTTP/1.1\r\nContent-Length: 5\r\n"), 0);
    assert_eq!(body_length(b"a\n\nxyz"), 3);
    assert_eq!(body_length(b"\r\nab"), 2);
}

#[test]
fn malformed_length_is_an_error() {
    assert_eq!(
        content_length_of(b"POST / HTTP/1.1\r\nContent-Length: five\r\n\r\n"),
        Err(FramingError::InvalidLength)
    );
    assert_eq!(
        content_length_of(b"POST / HTTP/1.1\r\nContent-Length: \r\n\r\n"),
        Err(FramingError::InvalidLength)
    );
    assert_eq!(
        content_length_of(b"POST / HTTP/1.1\r\nContent-Length: 5 \r\n\r\n"),
        Err(FramingError::InvalidLength)
    );
}

#[test]
fn decimal_parsing_follows_usize_from_str() {
    let t = b"+17";
    assert_eq!(parse_decimal(t, 0, 3), Some(17));
    assert_eq!(parse_decimal(t, 0, 1), None);
    assert_eq!(parse_decimal(b"-1", 0, 2), None);
    let max = format!("{}", usize::MAX);
    assert_eq!(parse_decimal(max.as_bytes(), 0, max.len()), Some(usize::MAX));
    let over = format!("{}0", usize::MAX);
    assert_eq!(parse_decimal(over.as_bytes(), 0, over.len()), None);
}

#[test]
fn marker_and_lower_case() {
    assert!(contains_marker(b"xxHTTP"));
    assert!(!contains_marker(b"HTT"));
    assert!(!contains_marker(b"http"));
    assert_eq!(to_ascii_lower(b'C'), b'c');
    assert_eq!(to_ascii_lower(b'-'), b'-');
}

#[test]
fn interest_masks_are_one_shot() {
    assert_eq!(Interest::Readable.mask(), 0x4000_0001);
    assert_eq!(Interest::Writable.mask(), 0x4000_0004);
}

#[test]
fn readiness_decoding() {
    assert_eq!(Readiness::from_mask(0x1), Some(Readiness::Readable));
    assert_eq!(Readiness::from_mask(0x4), Some(Readiness::Writable));
    assert_eq!(Readiness::from_mask(0x5), Some(Readiness::Both));
    assert_eq!(Readiness::from_mask(0x10), None);
}

#[test]
fn registering_twice_keeps_the_first() {
    let mut reg = Registry::new(3);
    assert_eq!(reg.add_interest(7, 101, Interest::Readable), Ok(()));
    assert_eq!(
        reg.add_interest(7, 202, Interest::Writable),
        Err(RegistryError::AlreadyRegistered)
    );
    assert_eq!(
        reg.registration(7),
        Some(Registration { id: 101, interest: Interest::Readable })
    );
    assert_eq!(reg.epfd(), 3);
}

#[test]
fn unregistered_descriptor_is_refused() {
    let mut reg = Registry::new(3);
    assert_eq!(
        reg.modify_interest(9, 101, Interest::Writable),
        Err(RegistryError::NotRegistered)
    );
    assert_eq!(reg.remove_interest(9), Err(RegistryError::NotRegistered));
    assert!(!reg.is_registered(9));
    assert_eq!(reg.registration(9), None);
}

#[test]
fn modify_and_remove_a_registration() {
    let mut reg = Registry::new(3);
    reg.add_interest(7, 101, Interest::Readable).unwrap();
    assert_eq!(reg.modify_interest(7, 101, Interest::Writable), Ok(()));
    assert_eq!(
        reg.registration(7),
        Some(Registration { id: 101, interest: Interest::Writable })
    );
    assert_eq!(reg.remove_interest(7), Ok(()));
    assert!(!reg.is_registered(7));
    assert_eq!(reg.remove_interest(7), Err(RegistryError::NotRegistered));
}

#[test]
fn register_adds_then_modifies() {
    let mut reg = Registry::new(3);
    assert_eq!(reg.register(4, 100, Interest::Readable), CtlOp::Add);
    assert_eq!(reg.register(4, 100, Interest::Writable), CtlOp::Modify);
    assert_eq!(
        reg.registration(4),
        Some(Registration { id: 100, interest: Interest::Writable })
    );
}

#[test]
fn whole_request_in_one_read() {
    let mut ctx = RequestContext::new();
    assert_eq!(ctx.state, ConnState::Reading);
    assert_eq!(ctx.content_length, 0);
    assert_eq!(ctx.read_cb(REQUEST), Ok(Interest::Writable));
    assert_eq!(ctx.content_length, 5);
    assert_eq!(ctx.state, ConnState::Writing);
    assert_eq!(ctx.buf, REQUEST.to_vec());
    ctx.write_cb();
    assert_eq!(ctx.state, ConnState::Closed);
}

#[test]
fn header_then_body_in_two_packets() {
    let header = b"POST / HTTP/1.1\r\nContent-Length: 5\r\n\r\n";
    let mut ctx = RequestContext::new();
    assert_eq!(ctx.read_cb(header), Ok(Interest::Readable));
    assert_eq!(ctx.content_length, 5);
    assert_eq!(ctx.buf.len(), 38);
    assert_eq!(ctx.state, ConnState::Reading);
    assert_eq!(ctx.read_cb(b"hello"), Ok(Interest::Writable));
    assert_eq!(ctx.state, ConnState::Writing);
    assert_eq!(ctx.buf, REQUEST.to_vec());
}

#[test]
fn threshold_met_only_after_second_packet() {
    let header = b"POST / HTTP/1.1\r\nContent-Length: 60\r\n\r\n";
    let mut ctx = RequestContext::new();
    assert_eq!(ctx.read_cb(header), Ok(Interest::Readable));
    assert_eq!(ctx.content_length, 60);
    assert_eq!(ctx.state, ConnState::Reading);
    assert_eq!(ctx.read_cb(&[b'x'; 30]), Ok(Interest::Readable));
    assert_eq!(ctx.read_cb(&[b'x'; 30]), Ok(Interest::Writable));
    assert_eq!(ctx.state, ConnState::Writing);
    assert_eq!(ctx.buf.len(), header.len() + 60);
}

#[test]
fn would_block_read_changes_nothing() {
    let mut ctx = RequestContext::new();
    assert_eq!(ctx.read_cb(b"POST / HTTP/1.1\r\nContent-Length: 100\r\n\r\n"), Ok(Interest::Readable));
    let before = ctx.buf.clone();
    assert_eq!(ctx.read_cb(&[]), Ok(Interest::Readable));
    assert_eq!(ctx.buf, before);
}

#[test]
fn no_header_writes_after_first_read() {
    let mut ctx = RequestContext::new();
    assert_eq!(ctx.read_cb(b"ping"), Ok(Interest::Writable));
    assert_eq!(ctx.content_length, 0);
    assert_eq!(ctx.state, ConnState::Writing);
}

#[test]
fn chunking_does_not_change_the_outcome() {
    let request: &[u8] = b"POST / HTTP/1.1\r\nContent-Length: 40\r\n\r\n0123456789012345678901234567890123456789";
    let mut whole = RequestContext::new();
    let whole_result = whole.read_cb(request);
    assert_eq!(whole_result, Ok(Interest::Writable));
    let header_end = request.len() - 40;
    let mut bytewise = RequestContext::new();
    for (i, b) in request.iter().enumerate() {
        let r = bytewise.read_cb(&[*b]);
        if i + 1 >= header_end - 2 {
            assert_eq!(bytewise.content_length, 40);
            let expected = if i + 1 == request.len() { Interest::Writable } else { Interest::Readable };
            assert_eq!(r, Ok(expected));
        }
    }
    assert_eq!(bytewise.buf, whole.buf);
    assert_eq!(bytewise.content_length, whole.content_length);
    assert_eq!(bytewise.state, whole.state);
}

#[test]
fn malformed_header_closes_the_connection() {
    let mut ctx = RequestContext::new();
    assert_eq!(
        ctx.read_cb(b"POST / HTTP/1.1\r\nContent-Length: x\r\n\r\n"),
        Err(FramingError::InvalidLength)
    );
    assert_eq!(ctx.state, ConnState::Closed);
}

#[test]
fn no_header_keeps_the_length() {
    let mut ctx = RequestContext::new();
    ctx.content_length = 5;
    assert_eq!(ctx.parse_and_set_content_length(), Ok(()));
    assert_eq!(ctx.content_length, 5);
}

#[test]
fn parse_and_set_uses_the_buffer() {
    let mut ctx = RequestContext::new();
    ctx.buf.extend_from_slice(REQUEST);
    assert_eq!(ctx.parse_and_set_content_length(), Ok(()));
    assert_eq!(ctx.content_length, 5);
}

#[test]
fn end_to_end_single_write() {
    let mut server = Server::new();
    assert_eq!(server.dispatch(LISTENER_ID, 0x1), Dispatch::Accept);
    let id = server.accept().unwrap();
    assert_eq!(id, 101);
    assert_eq!(server.len(), 1);
    assert_eq!(server.dispatch(id, 0x1), Dispatch::Read(id));
    assert_eq!(server.on_readable(id, REQUEST), ReadStep::Rearm(Interest::Writable));
    assert_eq!(server.dispatch(id, 0x4), Dispatch::Write(id));
    assert!(server.on_writable(id));
    assert_eq!(server.len(), 0);
}

#[test]
fn evicted_connection_ignores_late_events() {
    let mut server = Server::new();
    let id = server.accept().unwrap();
    server.on_readable(id, REQUEST);
    assert!(server.on_writable(id));
    assert!(!server.contains(id));
    assert_eq!(server.dispatch(id, 0x4), Dispatch::Ignore);
    assert_eq!(server.dispatch(id, 0x1), Dispatch::Ignore);
    assert!(!server.on_writable(id));
    assert_eq!(server.on_readable(id, b"more"), ReadStep::Gone);
    assert!(!server.evict(id));
}

#[test]
fn read_wins_when_both_are_ready() {
    let mut server = Server::new();
    let id = server.accept().unwrap();
    assert_eq!(server.dispatch(id, 0x5), Dispatch::Read(id));
    assert_eq!(server.dispatch(id, 0x8), Dispatch::Ignore);
    assert_eq!(server.dispatch(999, 0x1), Dispatch::Ignore);
}

#[test]
fn malformed_peer_is_dropped_alone() {
    let mut server = Server::new();
    let bad = server.accept().unwrap();
    let good = server.accept().unwrap();
    assert_eq!(
        server.on_readable(bad, b"POST / HTTP/1.1\r\nContent-Length: ?\r\n\r\n"),
        ReadStep::Dropped(FramingError::InvalidLength)
    );
    assert!(!server.contains(bad));
    assert_eq!(server.on_readable(good, REQUEST), ReadStep::Rearm(Interest::Writable));
    assert!(server.on_writable(good));
}

#[test]
fn hundred_connections_complete_independently() {
    let mut server = Server::new();
    let mut ids = Vec::new();
    for _ in 0..100 {
        ids.push(server.accept().unwrap());
    }
    let slow = server.accept().unwrap();
    assert_eq!(server.len(), 101);
    let header = b"POST / HTTP/1.1\r\nContent-Length: 500\r\n\r\n";
    assert_eq!(server.on_readable(slow, header), ReadStep::Rearm(Interest::Readable));
    for id in &ids {
        assert_eq!(server.dispatch(*id, 0x1), Dispatch::Read(*id));
        assert_eq!(server.on_readable(*id, REQUEST), ReadStep::Rearm(Interest::Writable));
        assert_eq!(server.on_readable(slow, b"x"), ReadStep::Rearm(Interest::Readable));
        assert_eq!(server.dispatch(*id, 0x4), Dispatch::Write(*id));
        assert!(server.on_writable(*id));
    }
    assert_eq!(server.len(), 1);
    assert!(server.contains(slow));
}

#[test]
fn reactor_starts_without_registry() {
    let reactor = Reactor::new();
    assert!(reactor.registry.is_none());
}

#[test]
fn reactor_proxies_to_its_registry() {
    let mut reactor = Reactor::new();
    reactor.attach(Registry::new(5));
    assert_eq!(reactor.read_interest(8, 1), CtlOp::Add);
    assert_eq!(reactor.write_interest(8, 1), CtlOp::Modify);
    assert_eq!(
        reactor.registry.as_ref().unwrap().registration(8),
        Some(Registration { id: 1, interest: Interest::Writable })
    );
    assert_eq!(reactor.close(8), Ok(()));
    assert_eq!(reactor.close(8), Err(RegistryError::NotRegistered));
}

#[test]
fn reactor_publishes_ids_in_batch_order() {
    let batch = [
        ReadyEvent { id: 7, mask: 0x1 },
        ReadyEvent { id: 3, mask: 0x4 },
        ReadyEvent { id: 7, mask: 0x1 },
    ];
    assert_eq!(Reactor::event_ids(&batch), vec![7, 3, 7]);
    assert_eq!(Reactor::event_ids(&[]), Vec::<u64>::new());
}
