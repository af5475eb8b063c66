use gdb_protocol::io::{advance, Action, ByteSink, ByteSource, GdbServer, ACK, NAK};
use gdb_protocol::packet::{CheckedPacket, Kind, UncheckedPacket};
use gdb_protocol::parser::Parser;
use gdb_protocol::Error;

/// Runs a session by hand over `stream`, which arrives `step` bytes at a
/// time: returns what is handed out, with `replies` and `pos` moved on.
fn next_by_hand(
    parser: &mut Parser,
    stream: &[u8],
    pos: &mut usize,
    step: usize,
    replies: &mut Vec<u8>,
) -> Result<Option<CheckedPacket>, Error> {
    loop {
        let end = std::cmp::min(stream.len(), *pos + step);
        let buf = &stream[*pos..end];
        if buf.is_empty() {
            return Ok(None);
        }
        let (read, action) = advance(parser, buf)?;
        *pos += read;
        match action {
            Action::Continue => {}
            Action::Retransmit => replies.push(NAK),
            Action::Acknowledge(packet) => {
                replies.push(ACK);
                return Ok(Some(packet));
            }
            Action::Notify(notification) => return Ok(notification),
        }
    }
}

#[test]
fn it_acknowledges_valid_packets() {
    let mut input: &[u8] = b"$packet#78";
    let mut tester = GdbServer::tester(&mut input);
    assert_eq!(
        tester.next_packet().unwrap(),
        Some(CheckedPacket::from_data(Kind::Packet, b"packet".to_vec()))
    );
    assert_eq!(tester.response(), b"+");
}

#[test]
fn it_acknowledges_invalid_packets() {
    let mut input: &[u8] = b"$packet#99";
    let mut tester = GdbServer::tester(&mut input);
    assert_eq!(tester.next_packet().unwrap(), None);
    assert_eq!(tester.response(), b"-");
}

#[test]
fn it_ignores_garbage() {
    let mut input: &[u8] = b"<garbage here yada yaya> $packet#13 $packet#37 more garbage $GARBA#GE-- $packet#78";
    let mut tester = GdbServer::tester(&mut input);
    assert_eq!(
        tester.next_packet().unwrap(),
        Some(CheckedPacket::from_data(Kind::Packet, b"packet".to_vec()))
    );
    assert_eq!(tester.response(), b"---+");
}

#[test]
fn session_ends_cleanly_on_empty_input() {
    let mut input: &[u8] = b"";
    let mut tester = GdbServer::tester(&mut input);
    assert_eq!(tester.next_packet().unwrap(), None);
    assert_eq!(tester.response(), b"");
}

#[test]
fn session_ends_cleanly_inside_a_packet() {
    let mut input: &[u8] = b"garbage $pack";
    let mut tester = GdbServer::tester(&mut input);
    assert_eq!(tester.next_packet().unwrap(), None);
    assert_eq!(tester.response(), b"");
}

#[test]
fn session_delivers_packets_in_order() {
    let mut input: &[u8] = b"$first#28$second#7C";
    let mut tester = GdbServer::tester(&mut input);
    assert_eq!(
        tester.next_packet().unwrap(),
        Some(CheckedPacket::from_data(Kind::Packet, b"first".to_vec()))
    );
    assert_eq!(tester.response(), b"+");
    let second = tester.next_packet().unwrap().unwrap();
    assert_eq!(second.data, b"second".to_vec());
    assert_eq!(second.checksum, *b"7C");
    assert_eq!(tester.response(), b"+");
    assert_eq!(tester.next_packet().unwrap(), None);
    assert_eq!(tester.response(), b"");
}

#[test]
fn session_advances_the_callers_slice() {
    let mut input: &[u8] = b"junk$a#61 and more";
    let mut server = GdbServer::new(&mut input, Vec::new());
    assert!(server.next_packet().unwrap().is_some());
    assert_eq!(server.writer, b"+");
    assert_eq!(input, b" and more");
}

#[test]
fn valid_notification_is_returned_without_reply() {
    let mut input: &[u8] = b"%Stop:T05#99";
    let mut tester = GdbServer::tester(&mut input);
    let expected = CheckedPacket::from_data(Kind::Notification, b"Stop:T05".to_vec());
    assert_eq!(expected.checksum, *b"99");
    assert_eq!(tester.next_packet().unwrap(), Some(expected));
    assert_eq!(tester.response(), b"");
}

#[test]
fn notification_keeps_its_kind_and_payload() {
    let mut input: &[u8] = b"%Stop:T05#99";
    let mut tester = GdbServer::tester(&mut input);
    let got = tester.next_packet().unwrap().unwrap();
    assert_eq!(got.kind, Kind::Notification);
    assert_eq!(got.data, b"Stop:T05".to_vec());
    assert_eq!(tester.response(), b"");
}

#[test]
fn invalid_notification_ends_the_call_without_reply() {
    let mut input: &[u8] = b"%Stop:T05#00$packet#78";
    let mut tester = GdbServer::tester(&mut input);
    assert_eq!(tester.next_packet().unwrap(), None);
    assert_eq!(tester.response(), b"");
    assert_eq!(
        tester.next_packet().unwrap(),
        Some(CheckedPacket::from_data(Kind::Packet, b"packet".to_vec()))
    );
    assert_eq!(tester.response(), b"+");
}

#[test]
fn malformed_repeat_is_reported_and_the_session_recovers() {
    let mut input: &[u8] = b"$ok#da$*!oops#00$packet#78";
    let mut tester = GdbServer::tester(&mut input);
    assert!(tester.next_packet().unwrap().is_some());
    assert!(matches!(tester.next_packet(), Err(Error::MalformedRepeat)));
    assert_eq!(tester.response(), b"+");
    assert_eq!(
        tester.next_packet().unwrap(),
        Some(CheckedPacket::from_data(Kind::Packet, b"packet".to_vec()))
    );
    assert_eq!(tester.response(), b"+");
}

#[test]
fn refused_byte_that_is_a_marker_starts_the_next_packet() {
    let mut input: &[u8] = b"$*$packet#78";
    let mut tester = GdbServer::tester(&mut input);
    assert!(matches!(tester.next_packet(), Err(Error::MalformedRepeat)));
    assert_eq!(
        tester.next_packet().unwrap(),
        Some(CheckedPacket::from_data(Kind::Packet, b"packet".to_vec()))
    );
    assert_eq!(tester.response(), b"+");
}

#[test]
fn dispatch_writes_the_encoded_packet() {
    let mut input: &[u8] = b"";
    let mut tester = GdbServer::tester(&mut input);
    tester
        .dispatch(&CheckedPacket::from_data(Kind::Packet, b"OK".to_vec()))
        .unwrap();
    assert_eq!(tester.response(), b"$OK#9A");
    tester.dispatch(&CheckedPacket::empty()).unwrap();
    assert_eq!(tester.response(), b"$#00");
}

#[test]
fn response_hands_out_each_byte_once() {
    let mut input: &[u8] = b"$packet#99$packet#78";
    let mut tester = GdbServer::tester(&mut input);
    assert!(tester.next_packet().unwrap().is_some());
    assert_eq!(tester.response(), b"-+");
    assert_eq!(tester.response(), b"");
}

#[test]
fn new_session_over_a_slice_and_a_vector() {
    let input: &[u8] = b"$packet#78";
    let mut server = GdbServer::new(input, Vec::new());
    assert_eq!(
        server.next_packet().unwrap(),
        Some(CheckedPacket::from_data(Kind::Packet, b"packet".to_vec()))
    );
    assert_eq!(server.writer, b"+");
    assert_eq!(server.reader, b"");
}

#[test]
fn slice_source_gives_and_takes_bytes() {
    let mut source: &[u8] = b"abcdef";
    assert_eq!(source.fill_buf().unwrap(), b"abcdef");
    ByteSource::consume(&mut source, 2);
    assert_eq!(source.fill_buf().unwrap(), b"cdef");
    ByteSource::consume(&mut source, 4);
    assert_eq!(source.fill_buf().unwrap(), b"");
}

#[test]
fn vector_sink_appends() {
    let mut sink: Vec<u8> = b"ab".to_vec();
    ByteSink::write_all(&mut sink, b"cd").unwrap();
    ByteSink::write_all(&mut sink, b"").unwrap();
    assert_eq!(sink, b"abcd");
}

#[test]
fn session_result_is_the_same_however_the_stream_is_cut() {
    let stream: &[u8] = b"noise $packet#13%note#B6 $in}]*!#xx $pa*\"cket#5d tail $*! $b#62";
    for step in 1..=stream.len() {
        let mut parser = Parser::default();
        let mut pos = 0;
        let mut replies = Vec::new();
        let note = next_by_hand(&mut parser, stream, &mut pos, step, &mut replies).unwrap().unwrap();
        assert_eq!(note, CheckedPacket::from_data(Kind::Notification, b"note".to_vec()));
        assert_eq!(pos, 24);
        let packet = next_by_hand(&mut parser, stream, &mut pos, step, &mut replies).unwrap().unwrap();
        assert_eq!(
            packet.invalidate_check(),
            UncheckedPacket { kind: Kind::Packet, data: b"paaaaaacket".to_vec(), checksum: *b"5d" }
        );
        assert_eq!(pos, 48);
        assert!(matches!(
            next_by_hand(&mut parser, stream, &mut pos, step, &mut replies),
            Err(Error::MalformedRepeat)
        ));
        assert_eq!(pos, 56);
        let last = next_by_hand(&mut parser, stream, &mut pos, step, &mut replies).unwrap().unwrap();
        assert_eq!(last, CheckedPacket::from_data(Kind::Packet, b"b".to_vec()));
        assert_eq!(next_by_hand(&mut parser, stream, &mut pos, step, &mut replies).unwrap(), None);
        assert_eq!(pos, stream.len());
        assert_eq!(replies, b"--++");

        let mut server = GdbServer::new(stream, Vec::new());
        assert_eq!(server.next_packet().unwrap(), Some(note));
        assert_eq!(server.reader.len(), stream.len() - 24);
        assert!(server.next_packet().unwrap().is_some());
        assert_eq!(server.reader.len(), stream.len() - 48);
        assert!(matches!(server.next_packet(), Err(Error::MalformedRepeat)));
        assert_eq!(server.reader.len(), stream.len() - 56);
        assert_eq!(server.next_packet().unwrap(), Some(last));
        assert_eq!(server.next_packet().unwrap(), None);
        assert_eq!(server.writer, replies);
    }
}

#[test]
fn advance_judges_each_kind_of_packet() {
    let mut parser = Parser::default();
    assert_eq!(advance(&mut parser, b"").unwrap(), (0, Action::Continue));
    assert_eq!(advance(&mut parser, b"junk $pack").unwrap(), (10, Action::Continue));
    assert_eq!(
        advance(&mut parser, b"et#78$").unwrap(),
        (5, Action::Acknowledge(CheckedPacket::from_data(Kind::Packet, b"packet".to_vec())))
    );
    assert_eq!(advance(&mut parser, b"$packet#79").unwrap(), (10, Action::Retransmit));
    assert_eq!(
        advance(&mut parser, b"%packet#78").unwrap(),
        (10, Action::Notify(Some(CheckedPacket::from_data(Kind::Notification, b"packet".to_vec()))))
    );
    assert_eq!(advance(&mut parser, b"%packet#zz").unwrap(), (10, Action::Notify(None)));
    assert_eq!(advance(&mut parser, b"$x*\xff").unwrap(), (3, Action::Continue));
    assert!(matches!(advance(&mut parser, b"\xff"), Err(Error::MalformedRepeat)));
    assert_eq!(advance(&mut parser, b"\xff").unwrap(), (1, Action::Continue));
}
