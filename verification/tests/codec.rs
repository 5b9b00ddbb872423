use ap2pmsg::frame::{decode_frame_len, encode_frame};
use ap2pmsg::proto::{
    BackendToFrontendRequest, BackendToFrontendResponse, Connection, InitialRequest, Message,
    MessageContent, NetAddr, PeerToPeerRequest, PeerToPeerResponse, RefreshRequest,
};
use ap2pmsg::timestamp::Timestamp;
use ap2pmsg::wire::{
    decode_b2freq, decode_b2fresp, decode_initial, decode_p2preq, decode_p2presp, decode_refresh,
    encode_b2freq, encode_b2fresp, encode_initial, encode_p2preq, encode_p2presp, encode_refresh,
};

fn ts(hour: u8, minute: u8) -> Timestamp {
    Timestamp {
        year: 2024,
        month: 3,
        day: 9,
        hour,
        minute,
        second: 7,
        millisecond: 250,
        offset_hour: 1,
        offset_minute: 30,
    }
}

fn addr(last: u8, port: u16) -> NetAddr {
    NetAddr { ip0: 192, ip1: 168, ip2: 0, ip3: last, port }
}

fn text_message(id: u32) -> Message {
    Message {
        message_id: id,
        self_id: 7,
        peer_id: 42,
        time_sent: ts(10, 5),
        time_recieved: None,
        content: MessageContent::Text(String::from("hi there \"quoted\" \\ and\nnewline")),
    }
}

fn file_message(id: u32) -> Message {
    Message {
        message_id: id,
        self_id: 7,
        peer_id: 42,
        time_sent: ts(11, 6),
        time_recieved: Some(ts(11, 7)),
        content: MessageContent::File((String::from("r.txt"), vec![0, 1, 2, 254, 255])),
    }
}

fn conn(peer_id: u32) -> Connection {
    Connection {
        peer_id,
        self_id: 7,
        peer_name: String::from("alice"),
        peer_addr: addr(9, 7878),
        online: true,
        time_established: ts(9, 0),
    }
}

#[test]
fn refresh_round_trips() {
    for r in [RefreshRequest::Connection, RefreshRequest::Message, RefreshRequest::Kill] {
        let bytes = encode_refresh(&r);
        assert_eq!(decode_refresh(&bytes), Some(r));
    }
}

#[test]
fn refresh_wire_form_is_the_tag() {
    let bytes = encode_refresh(&RefreshRequest::Kill);
    assert_eq!(bytes, b"\"Kill\"".to_vec());
}

#[test]
fn p2presp_round_trips() {
    let vals = vec![
        PeerToPeerResponse::AcceptConnection(7, String::from("bob"), addr(2, 7878)),
        PeerToPeerResponse::Recieved(42),
        PeerToPeerResponse::BulkRecieved(vec![1, 2, 3]),
        PeerToPeerResponse::BulkRecieved(vec![]),
    ];
    for r in vals {
        let bytes = encode_p2presp(&r);
        assert_eq!(decode_p2presp(&bytes), Some(r));
    }
}

#[test]
fn p2preq_round_trips() {
    let vals = vec![
        PeerToPeerRequest::ProposeConnection(42, String::from("alice"), addr(1, 7878)),
        PeerToPeerRequest::Message(text_message(5)),
        PeerToPeerRequest::Message(file_message(6)),
        PeerToPeerRequest::BulkMessage(vec![text_message(1), file_message(2), text_message(3)]),
        PeerToPeerRequest::BulkMessage(vec![]),
    ];
    for r in vals {
        let bytes = encode_p2preq(&r);
        assert_eq!(decode_p2preq(&bytes), Some(r));
    }
}

#[test]
fn b2freq_round_trips() {
    let vals = vec![
        BackendToFrontendRequest::LinkingRequest,
        BackendToFrontendRequest::EstablishPeerConnection(addr(3, 8000)),
        BackendToFrontendRequest::ListMessages(42, ts(0, 0), ts(23, 59)),
        BackendToFrontendRequest::ListPeerConnections,
        BackendToFrontendRequest::MessagePeer((42, MessageContent::Text(String::from("hi")))),
        BackendToFrontendRequest::MessagePeer((
            42,
            MessageContent::File((String::from("r.txt"), vec![1, 2, 3])),
        )),
        BackendToFrontendRequest::RetryUnrecieved(42),
        BackendToFrontendRequest::PingPeer(0),
        BackendToFrontendRequest::KillRefresher,
    ];
    for r in vals {
        let bytes = encode_b2freq(&r);
        assert_eq!(decode_b2freq(&bytes), Some(r));
    }
}

#[test]
fn b2fresp_round_trips() {
    let vals = vec![
        BackendToFrontendResponse::LinkingResult(Ok(())),
        BackendToFrontendResponse::LinkingResult(Err(String::from(
            "already serving a frontend at 127.0.0.1:4000",
        ))),
        BackendToFrontendResponse::PeerConnectionsListed(vec![conn(42), conn(43)]),
        BackendToFrontendResponse::PeerConnectionsListed(vec![]),
        BackendToFrontendResponse::MessagesListed(vec![text_message(1), file_message(2)]),
        BackendToFrontendResponse::MessagesListed(vec![]),
        BackendToFrontendResponse::InvalidRequest,
    ];
    for r in vals {
        let bytes = encode_b2fresp(&r);
        assert_eq!(decode_b2fresp(&bytes), Some(r));
    }
}

#[test]
fn initial_round_trips() {
    let vals = vec![
        InitialRequest::Frontend(BackendToFrontendRequest::LinkingRequest),
        InitialRequest::Peer(PeerToPeerRequest::Message(text_message(9))),
        InitialRequest::Peer(PeerToPeerRequest::BulkMessage(vec![])),
    ];
    for r in vals {
        let bytes = encode_initial(&r);
        assert_eq!(decode_initial(&bytes), Some(r));
    }
}

#[test]
fn empty_payload_is_a_protocol_error() {
    // A zero-length frame is legal at the frame layer but decodes to no
    // protocol value.
    assert_eq!(decode_initial(&Vec::new()), None);
    assert_eq!(decode_b2freq(&Vec::new()), None);
    assert_eq!(decode_p2preq(&Vec::new()), None);
    assert_eq!(decode_refresh(&Vec::new()), None);
}

#[test]
fn garbage_is_rejected() {
    assert_eq!(decode_initial(&b"{\"Nonsense\":1}".to_vec()), None);
    assert_eq!(decode_refresh(&b"\"Killl\"".to_vec()), None);
    // trailing bytes after a whole frame are refused
    let mut bytes = encode_refresh(&RefreshRequest::Kill);
    bytes.push(b' ');
    assert_eq!(decode_refresh(&bytes), None);
}

#[test]
fn timestamps_appear_in_the_fixed_format() {
    let r = BackendToFrontendRequest::ListMessages(5, ts(4, 5), ts(23, 59));
    let bytes = encode_b2freq(&r);
    let text = String::from_utf8(bytes).unwrap();
    assert_eq!(
        text,
        "{\"ListMessages\":[5,\"2024-03-09T04:05:07.25001:30\",\"2024-03-09T23:59:07.25001:30\"]}"
    );
}

#[test]
fn negative_offsets_keep_their_sign() {
    let mut t = ts(4, 5);
    t.offset_hour = -5;
    let r = BackendToFrontendRequest::ListMessages(5, t, t);
    let bytes = encode_b2freq(&r);
    let decoded = decode_b2freq(&bytes).unwrap();
    assert_eq!(decoded, r);
    let text = String::from_utf8(bytes).unwrap();
    assert!(text.contains("-05:30"));
}

#[test]
fn addresses_appear_in_host_port_form() {
    let r = BackendToFrontendRequest::EstablishPeerConnection(addr(7, 7878));
    let bytes = encode_b2freq(&r);
    let text = String::from_utf8(bytes).unwrap();
    assert_eq!(text, "{\"EstablishPeerConnection\":\"192.168.0.7:7878\"}");
}

#[test]
fn frame_header_round_trips() {
    let payload = b"{\"Recieved\":5}".to_vec();
    let framed = encode_frame(&payload).unwrap();
    assert_eq!(framed.len(), payload.len() + 4);
    let n = decode_frame_len(framed[0], framed[1], framed[2], framed[3]).unwrap();
    assert_eq!(n as usize, payload.len());
    assert_eq!(&framed[4..], &payload[..]);
}

#[test]
fn zero_length_frame_is_legal_at_the_frame_layer() {
    let framed = encode_frame(&Vec::new()).unwrap();
    assert_eq!(framed, vec![0, 0, 0, 0]);
    assert_eq!(decode_frame_len(0, 0, 0, 0), Some(0));
}

#[test]
fn oversized_frames_are_refused() {
    assert_eq!(decode_frame_len(0xFF, 0, 0, 0), None);
}
