use mc_connect::client::{ClientPacketManager, ClientStep, ReadEvent};
use mc_connect::codec::DecodeError;
use mc_connect::correlation::CorrelationTable;
use mc_connect::packets::{Packet, PacketHeader, PrintPacket, ToastPacket};
use mc_connect::server::{dispatch_step, ServerPacketManager, ServerStep};

/// A handler capability as the dispatch loop sees one: total, returning
/// a message for every input.
fn ack_handler(packet: Packet) -> Packet {
    match packet {
        Packet::Print(_) | Packet::Toast(_) => Packet::Confirmation,
        _ => Packet::Failure,
    }
}

/// Carry one request through the whole path: client-side framing, the
/// wire, the dispatch loop, the handler, the response frame, the wire
/// again, and the client's receive step. Returns what the waiter got.
fn exchange(
    client: &mut ClientPacketManager<u32>,
    server: &mut ServerPacketManager,
    waiter: u32,
    request: Packet,
) -> (u64, u32, Packet) {
    // Client writes one complete frame, then registers its waiter.
    let wire = request.as_header().encode_frame().unwrap();
    let expected_id = client.register_send(waiter);

    // Dispatch loop: read, dispatch, respond.
    let (request_header, used) = PacketHeader::decode_frame(&wire).unwrap();
    assert_eq!(used, wire.len());
    let response_wire = match dispatch_step(ReadEvent::Frame(request_header)) {
        ServerStep::Dispatch(message) => {
            let result = ack_handler(message);
            server.make_response(result).encode_frame().unwrap()
        }
        step => panic!("dispatch loop should dispatch, got {:?}", step),
    };

    // Client's background task: read, look the id up, deliver.
    let (response_header, _) = PacketHeader::decode_frame(&response_wire).unwrap();
    match client.client_on_read(ReadEvent::Frame(response_header)) {
        ClientStep::Deliver(got_waiter, message) => (expected_id, got_waiter, message),
        step => panic!("response should resolve a waiter, got {:?}", step),
    }
}

#[test]
fn notify_request_gets_acknowledged_under_id_one() {
    let mut client = ClientPacketManager::new();
    let mut server = ServerPacketManager::new();
    let request = ToastPacket::new("T".to_string(), "B".to_string());

    // The request goes out under correlation id 0: a new request.
    assert_eq!(request.clone().as_header().target_id(), 0);

    let (expected_id, waiter, message) = exchange(&mut client, &mut server, 41, request);
    assert_eq!(expected_id, 1);
    assert_eq!(waiter, 41);
    assert_eq!(message, Packet::Confirmation);
}

#[test]
fn response_envelope_carries_id_one() {
    let mut server = ServerPacketManager::new();
    let response = server.make_response(Packet::Confirmation);
    assert_eq!(response, Packet::Confirmation.as_response(1));
}

#[test]
fn empty_text_is_valid_and_acknowledged() {
    let mut client = ClientPacketManager::new();
    let mut server = ServerPacketManager::new();
    let (_, waiter, message) =
        exchange(&mut client, &mut server, 7, PrintPacket::new(String::new()));
    assert_eq!(waiter, 7);
    assert_eq!(message, Packet::Confirmation);
}

#[test]
fn two_outstanding_requests_resolve_each_exactly_once() {
    let mut client: ClientPacketManager<u32> = ClientPacketManager::new();
    let mut server = ServerPacketManager::new();

    // Two requests in flight before any response.
    let wire_a = PrintPacket::new("A".to_string()).as_header().encode_frame().unwrap();
    let wire_b = PrintPacket::new("B".to_string()).as_header().encode_frame().unwrap();
    let id_a = client.register_send(100);
    let id_b = client.register_send(200);
    assert_eq!((id_a, id_b), (1, 2));
    assert_eq!(client.pending_count(), 2);

    // The dispatch loop answers both, in arrival order.
    let mut responses = Vec::new();
    for wire in [wire_a, wire_b] {
        let (header, _) = PacketHeader::decode_frame(&wire).unwrap();
        match dispatch_step(ReadEvent::Frame(header)) {
            ServerStep::Dispatch(message) => {
                responses.push(server.make_response(ack_handler(message)));
            }
            step => panic!("dispatch loop should dispatch, got {:?}", step),
        }
    }

    // Responses arrive in the opposite order; each resolves exactly the
    // waiter registered under its id.
    responses.reverse();
    let mut delivered = Vec::new();
    for response in responses {
        let wire = response.encode_frame().unwrap();
        let (header, _) = PacketHeader::decode_frame(&wire).unwrap();
        match client.client_on_read(ReadEvent::Frame(header)) {
            ClientStep::Deliver(waiter, message) => delivered.push((waiter, message)),
            step => panic!("response should resolve a waiter, got {:?}", step),
        }
    }
    assert_eq!(
        delivered,
        vec![(200, Packet::Confirmation), (100, Packet::Confirmation)]
    );
    assert_eq!(client.pending_count(), 0);

    // A second response under an already-resolved id finds no waiter.
    let stale = Packet::Confirmation.as_response(2);
    assert_eq!(
        client.client_on_read(ReadEvent::Frame(stale)),
        ClientStep::DiscardUnmatched(Packet::Confirmation)
    );
}

#[test]
fn sequential_sends_observe_consecutive_ids() {
    let mut client: ClientPacketManager<u32> = ClientPacketManager::new();
    let mut server = ServerPacketManager::new();
    let mut client_ids = Vec::new();
    let mut server_ids = Vec::new();
    for i in 0..5u32 {
        client_ids.push(client.register_send(i));
        server_ids.push(server.make_response(Packet::Confirmation).target_id());
        // Await each response before the next send, as sequential use does.
        let step =
            client.client_on_read(ReadEvent::Frame(Packet::Confirmation.as_response(i as u64 + 1)));
        assert_eq!(step, ClientStep::Deliver(i, Packet::Confirmation));
    }
    assert_eq!(client_ids, vec![1, 2, 3, 4, 5]);
    assert_eq!(server_ids, vec![1, 2, 3, 4, 5]);
}

#[test]
fn clean_eof_stops_loop_and_keeps_pending_waiters() {
    let mut client: ClientPacketManager<u32> = ClientPacketManager::new();
    let id = client.register_send(9);

    // Peer closes before sending any bytes: the decoder reports a clean
    // end of stream, the loop stops without an error, and the pending
    // waiter stays unresolved.
    assert_eq!(PacketHeader::decode_frame(&[]), Err(DecodeError::CleanEof));
    assert_eq!(client.client_on_read(ReadEvent::CleanEof), ClientStep::Stop);
    assert!(client.pending(id));

    // It is the caller's own step to abandon it.
    assert!(client.abandon(id));
    assert!(!client.pending(id));
}

#[test]
fn transport_and_protocol_errors_do_not_stop_the_loops() {
    let mut client: ClientPacketManager<u32> = ClientPacketManager::new();
    assert_eq!(client.client_on_read(ReadEvent::TransportError), ClientStep::Continue);
    assert_eq!(client.client_on_read(ReadEvent::ProtocolError), ClientStep::Continue);
    assert_eq!(dispatch_step(ReadEvent::TransportError), ServerStep::Continue);
    assert_eq!(dispatch_step(ReadEvent::ProtocolError), ServerStep::Continue);
    assert_eq!(dispatch_step(ReadEvent::CleanEof), ServerStep::Stop);
}

#[test]
fn request_id_zero_at_client_is_a_violation() {
    let mut client: ClientPacketManager<u32> = ClientPacketManager::new();
    client.register_send(1);
    let bogus = Packet::Confirmation.as_header();
    assert_eq!(
        client.client_on_read(ReadEvent::Frame(bogus)),
        ClientStep::DiscardViolation(Packet::Confirmation)
    );
    assert_eq!(client.pending_count(), 1);
}

#[test]
fn correlation_table_operations() {
    let mut table: CorrelationTable<&'static str> = CorrelationTable::new();
    assert_eq!(table.len(), 0);
    assert!(table.register(1, "first"));
    assert!(table.register(2, "second"));
    // At most one waiter per id: a duplicate registration is refused.
    assert!(!table.register(1, "usurper"));
    assert_eq!(table.len(), 2);
    assert!(table.contains(1));

    assert_eq!(table.resolve(1), Some("first"));
    assert_eq!(table.resolve(1), None);
    assert!(!table.contains(1));

    assert!(table.abandon(2));
    assert!(!table.abandon(2));
    assert_eq!(table.len(), 0);
}

#[test]
fn handler_failure_reaches_the_caller_as_failure_message() {
    let mut client = ClientPacketManager::new();
    let mut server = ServerPacketManager::new();
    // The ack handler only recognizes text and notifications; anything
    // else is answered with the bare failure marker, and the connection
    // stays usable.
    let (_, waiter, message) = exchange(&mut client, &mut server, 1, Packet::Confirmation);
    assert_eq!(waiter, 1);
    assert_eq!(message, Packet::Failure);
    let (_, waiter, message) =
        exchange(&mut client, &mut server, 2, PrintPacket::new("ok".to_string()));
    assert_eq!(waiter, 2);
    assert_eq!(message, Packet::Confirmation);
}
