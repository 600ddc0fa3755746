use mc_connect::codec::DecodeError;
use mc_connect::decode::frame_payload_len;
use mc_connect::packets::{
    EnvVar, InvokePacket, Packet, PacketHeader, PrintPacket, RunPacket, ToastPacket,
};

fn round_trip(header: PacketHeader) {
    let payload = header.encode().expect("encodable");
    let decoded = PacketHeader::decode(&payload).expect("decodes");
    assert_eq!(decoded, header);

    let frame = header.encode_frame().expect("encodable");
    let (from_frame, used) = PacketHeader::decode_frame(&frame).expect("decodes");
    assert_eq!(from_frame, header);
    assert_eq!(used, frame.len());
}

#[test]
fn round_trip_print() {
    round_trip(PrintPacket::new("hello".to_string()).as_header());
}

#[test]
fn round_trip_empty_text() {
    round_trip(PrintPacket::new(String::new()).as_header());
}

#[test]
fn round_trip_toast_non_ascii() {
    round_trip(ToastPacket::new("títle 🚀".to_string(), "bödy ✓".to_string()).as_header());
}

#[test]
fn round_trip_invoke() {
    let packet = Packet::Invoke(InvokePacket {
        class_name: "com/example/Tools".to_string(),
        method_name: "showToast".to_string(),
        desc: "(Ljava/lang/String;Ljava/lang/String;)V".to_string(),
    });
    round_trip(packet.as_response(7));
}

#[test]
fn round_trip_run() {
    let packet = RunPacket::new(
        "/usr/bin/env".to_string(),
        vec!["printenv".to_string(), "PATH".to_string(), String::new()],
        "/tmp".to_string(),
        vec![
            EnvVar { name: "KEEP".to_string(), value: Some("1".to_string()) },
            EnvVar { name: "DROP".to_string(), value: None },
        ],
    );
    round_trip(packet.as_header());
}

#[test]
fn round_trip_bare_variants() {
    round_trip(Packet::Confirmation.as_response(1));
    round_trip(Packet::Failure.as_response(u64::MAX));
}

#[test]
fn exact_bytes_print_request() {
    let header = PrintPacket::new("hi".to_string()).as_header();
    let payload = header.encode().unwrap();
    let expected = [
        0, 0, 0, 0, 0, 0, 0, 0, // correlation id 0: a new request
        0, // tag: informational text
        2, 0, 0, 0, // byte count of the string
        b'h', b'i',
    ];
    assert_eq!(payload, expected);

    let frame = header.encode_frame().unwrap();
    assert_eq!(&frame[..4], [15, 0, 0, 0]);
    assert_eq!(&frame[4..], &payload[..]);
    assert_eq!(frame_payload_len(&frame[..4]), 15);
}

#[test]
fn exact_bytes_confirmation_response() {
    let payload = Packet::Confirmation.as_response(3).encode().unwrap();
    assert_eq!(payload, [3, 0, 0, 0, 0, 0, 0, 0, 4]);
}

#[test]
fn unknown_tag_is_invalid_data() {
    // A well-framed payload whose tag byte is outside the variant set.
    let payload = [0u8, 0, 0, 0, 0, 0, 0, 0, 9];
    assert_eq!(PacketHeader::decode(&payload), Err(DecodeError::InvalidData));

    let mut frame = vec![9u8, 0, 0, 0];
    frame.extend_from_slice(&payload);
    assert_eq!(PacketHeader::decode_frame(&frame), Err(DecodeError::InvalidData));
}

#[test]
fn trailing_bytes_are_invalid_data() {
    let mut payload = Packet::Confirmation.as_header().encode().unwrap();
    payload.push(0);
    assert_eq!(PacketHeader::decode(&payload), Err(DecodeError::InvalidData));
}

#[test]
fn bad_utf8_is_invalid_data() {
    let payload = [
        0u8, 0, 0, 0, 0, 0, 0, 0, // id
        0, // tag: informational text
        2, 0, 0, 0, // two string bytes follow
        0xff, 0xfe, // not UTF-8
    ];
    assert_eq!(PacketHeader::decode(&payload), Err(DecodeError::InvalidData));
}

#[test]
fn empty_buffer_is_clean_eof() {
    assert_eq!(PacketHeader::decode_frame(&[]), Err(DecodeError::CleanEof));
}

#[test]
fn truncated_frame_is_transport_error() {
    // Length prefix present, payload cut short: distinguishable from a
    // clean end of stream.
    let frame = ToastPacket::new("T".to_string(), "B".to_string())
        .as_header()
        .encode_frame()
        .unwrap();
    let cut = &frame[..frame.len() - 1];
    assert_eq!(PacketHeader::decode_frame(cut), Err(DecodeError::Truncated));
    // Even the prefix alone can be cut short.
    assert_eq!(PacketHeader::decode_frame(&frame[..3]), Err(DecodeError::Truncated));
}

#[test]
fn frames_do_not_interleave() {
    // Write several complete frames back to back, then reconstruct them
    // from the captured byte stream one by one.
    let headers = vec![
        PrintPacket::new("one".to_string()).as_header(),
        Packet::Confirmation.as_response(1),
        ToastPacket::new("two".to_string(), "frames".to_string()).as_header(),
    ];
    let mut wire: Vec<u8> = Vec::new();
    for h in &headers {
        wire.extend_from_slice(&h.encode_frame().unwrap());
    }
    let mut at = 0;
    let mut seen = Vec::new();
    loop {
        match PacketHeader::decode_frame(&wire[at..]) {
            Ok((h, used)) => {
                seen.push(h);
                at += used;
            }
            Err(DecodeError::CleanEof) => break,
            Err(e) => panic!("unexpected decode failure: {:?}", e),
        }
    }
    assert_eq!(seen, headers);
}

#[test]
fn header_accessors() {
    let header = PrintPacket::new("x".to_string()).as_response(5);
    assert_eq!(header.target_id(), 5);
    assert_eq!(header.packet(), &PrintPacket::new("x".to_string()));
    let (id, packet) = header.into_parts();
    assert_eq!(id, 5);
    assert_eq!(packet, PrintPacket::new("x".to_string()));
}
