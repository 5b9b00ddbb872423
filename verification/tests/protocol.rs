use ap2pmsg::handlers::{
    apply_accept_connection, apply_delivery_response, busy_reason, handle_bulk_message,
    handle_frontend_request, handle_message, handle_propose_connection, link_lost, link_request,
    receive_message, ui_establish, ui_message_peer, ui_ping_peer, ui_retry_unrecieved,
    LinkDecision, LinkState, Outbound,
};
use ap2pmsg::idseq::IdSequence;
use ap2pmsg::proto::{
    BackendToFrontendRequest, BackendToFrontendResponse, MessageContent, NetAddr,
    PeerToPeerResponse, RefreshRequest,
};
use ap2pmsg::store::{DbConn, DbErr};
use ap2pmsg::timestamp::Timestamp;

fn ts(day: u8, hour: u8) -> Timestamp {
    Timestamp {
        year: 2024,
        month: 6,
        day,
        hour,
        minute: 0,
        second: 0,
        millisecond: 0,
        offset_hour: 0,
        offset_minute: 0,
    }
}

fn addr(last: u8) -> NetAddr {
    NetAddr { ip0: 10, ip1: 0, ip2: 0, ip3: last, port: 7878 }
}

#[test]
fn establish_gives_both_sides_a_mirrored_row() {
    // A proposes to B; B accepts; both stores end with mirrored ids.
    let a_addr = addr(1);
    let b_addr = addr(2);
    let mut db_a = DbConn::new();
    let mut db_b = DbConn::new();
    let mut seq_a = IdSequence::new();
    let mut seq_b = IdSequence::new();

    let out = ui_establish(&mut seq_a, b_addr).unwrap();
    let id_a = match out.outbound {
        Some(Outbound::Propose(to, id)) => {
            assert_eq!(to, b_addr);
            id
        },
        _ => panic!("establish must propose"),
    };

    let bob = String::from("bob");
    let (resp, refresh) = handle_propose_connection(
        &mut db_b,
        &mut seq_b,
        id_a,
        String::from("alice"),
        a_addr,
        &bob,
        b_addr,
    )
    .unwrap();
    assert_eq!(refresh, Some(RefreshRequest::Connection));
    let (id_b, name_b, echoed) = match resp {
        PeerToPeerResponse::AcceptConnection(p, n, a) => (p, n, a),
        _ => panic!("proposal must be accepted"),
    };
    assert_eq!(echoed, b_addr);

    apply_accept_connection(&mut db_a, id_a, id_b, name_b, b_addr).unwrap();

    let row_a = db_a.get_connection(1).unwrap();
    assert_eq!(row_a.peer_id, id_a);
    assert_eq!(row_a.self_id, id_b);
    assert_eq!(row_a.peer_name, "bob");
    assert_eq!(row_a.peer_addr, b_addr);

    let row_b = db_b.get_connection(1).unwrap();
    assert_eq!(row_b.peer_id, id_b);
    assert_eq!(row_b.self_id, id_a);
    assert_eq!(row_b.peer_name, "alice");
    assert_eq!(row_b.peer_addr, a_addr);
}

#[test]
fn text_delivery_marks_the_sender_row_received() {
    let a_addr = addr(1);
    let b_addr = addr(2);
    let mut db_a = DbConn::new();
    let mut db_b = DbConn::new();
    // A knows B as peer 42 under which B knows A as 7; B mirrors that.
    db_a.insert_connection(ap2pmsg::proto::Connection {
        peer_id: 42,
        self_id: 7,
        peer_name: String::from("bob"),
        peer_addr: b_addr,
        online: true,
        time_established: ts(1, 0),
    })
    .unwrap();
    db_b.insert_connection(ap2pmsg::proto::Connection {
        peer_id: 7,
        self_id: 42,
        peer_name: String::from("alice"),
        peer_addr: a_addr,
        online: true,
        time_established: ts(1, 0),
    })
    .unwrap();

    let out = ui_message_peer(
        &mut db_a,
        42,
        &MessageContent::Text(String::from("hi")),
        ts(2, 0),
    )
    .unwrap();
    assert_eq!(out.refresh, Some(RefreshRequest::Message));
    let (to, m) = match out.outbound {
        Some(Outbound::SendMessage(to, pid, m)) => {
            assert_eq!(pid, 42);
            (to, m)
        },
        _ => panic!("message must be sent"),
    };
    assert_eq!(to, b_addr);
    assert_eq!(m.time_recieved, None);

    // the pending row is visible on A
    assert_eq!(db_a.get_unrecieved_for(42).unwrap().len(), 1);

    // B handles the inbound frame: reply first, then the store gains the row
    let (resp, applied) = handle_message(&mut db_b, &m, b_addr, ts(2, 1));
    assert_eq!(resp, PeerToPeerResponse::Recieved(m.message_id));
    assert_eq!(applied.unwrap(), Some(RefreshRequest::Message));
    let on_b = db_b.get_message(m.message_id).unwrap().unwrap();
    assert_eq!(on_b.content, MessageContent::Text(String::from("hi")));
    assert!(on_b.time_recieved.is_some());

    // A applies the matching reply and the row becomes delivered
    assert!(apply_delivery_response(
        &mut db_a,
        &vec![m.message_id],
        &resp,
        ts(2, 2)
    ));
    assert_eq!(db_a.get_unrecieved_for(42).unwrap().len(), 0);
}

#[test]
fn a_mismatched_reply_leaves_the_row_pending() {
    let b_addr = addr(2);
    let mut db_a = DbConn::new();
    db_a.insert_connection(ap2pmsg::proto::Connection {
        peer_id: 42,
        self_id: 7,
        peer_name: String::from("bob"),
        peer_addr: b_addr,
        online: true,
        time_established: ts(1, 0),
    })
    .unwrap();
    let out = ui_message_peer(
        &mut db_a,
        42,
        &MessageContent::Text(String::from("hi")),
        ts(2, 0),
    )
    .unwrap();
    let m = match out.outbound {
        Some(Outbound::SendMessage(_, _, m)) => m,
        _ => panic!("message must be sent"),
    };
    let wrong = PeerToPeerResponse::Recieved(m.message_id + 1);
    assert!(!apply_delivery_response(
        &mut db_a,
        &vec![m.message_id],
        &wrong,
        ts(2, 1)
    ));
    assert_eq!(db_a.get_unrecieved_for(42).unwrap().len(), 1);
}

#[test]
fn offline_peer_then_retry_delivers_all_pending_in_one_bulk() {
    let a_addr = addr(1);
    let b_addr = addr(2);
    let mut db_a = DbConn::new();
    let mut db_b = DbConn::new();
    db_a.insert_connection(ap2pmsg::proto::Connection {
        peer_id: 42,
        self_id: 7,
        peer_name: String::from("bob"),
        peer_addr: b_addr,
        online: true,
        time_established: ts(1, 0),
    })
    .unwrap();
    db_b.insert_connection(ap2pmsg::proto::Connection {
        peer_id: 7,
        self_id: 42,
        peer_name: String::from("alice"),
        peer_addr: a_addr,
        online: true,
        time_established: ts(1, 0),
    })
    .unwrap();

    // three sends; each delivery attempt fails, so B is marked offline
    for (text, hour) in [("one", 1), ("two", 2), ("three", 3)] {
        ui_message_peer(
            &mut db_a,
            42,
            &MessageContent::Text(String::from(text)),
            ts(2, hour),
        )
        .unwrap();
        db_a.set_peer_online(42, false);
    }
    assert_eq!(db_a.get_unrecieved_for(42).unwrap().len(), 3);

    // while offline, retry does nothing at all
    let quiet = ui_retry_unrecieved(&db_a, 42).unwrap();
    assert!(quiet.outbound.is_none());
    assert!(quiet.response.is_none());
    assert!(quiet.refresh.is_none());

    // ping succeeds, the flag clears, retry collects one bulk
    let ping = ui_ping_peer(&db_a, 42).unwrap();
    match ping.outbound {
        Some(Outbound::Ping(to, pid)) => {
            assert_eq!(to, b_addr);
            assert_eq!(pid, 42);
        },
        _ => panic!("ping must probe"),
    }
    db_a.set_peer_online(42, true);
    let retry = ui_retry_unrecieved(&db_a, 42).unwrap();
    let msgs = match retry.outbound {
        Some(Outbound::SendBulk(to, pid, msgs)) => {
            assert_eq!(to, b_addr);
            assert_eq!(pid, 42);
            msgs
        },
        _ => panic!("retry must send one bulk"),
    };
    assert_eq!(msgs.len(), 3);

    // B acknowledges every id in order; A marks all three delivered
    let (resp, _refresh, failures) = handle_bulk_message(&mut db_b, &msgs, b_addr, ts(3, 0));
    assert_eq!(failures, 0);
    let ids: Vec<u32> = msgs.iter().map(|m| m.message_id).collect();
    assert_eq!(resp, PeerToPeerResponse::BulkRecieved(ids.clone()));
    assert!(apply_delivery_response(&mut db_a, &ids, &resp, ts(3, 1)));
    assert_eq!(db_a.get_unrecieved_for(42).unwrap().len(), 0);
}

#[test]
fn empty_bulk_is_acknowledged_and_writes_nothing() {
    let mut db = DbConn::new();
    let (resp, refresh, failures) = handle_bulk_message(&mut db, &Vec::new(), addr(1), ts(1, 0));
    assert_eq!(resp, PeerToPeerResponse::BulkRecieved(Vec::new()));
    assert_eq!(refresh, None);
    assert_eq!(failures, 0);
    assert_eq!(db.get_connections().len(), 0);
}

#[test]
fn loopback_message_is_marked_not_duplicated() {
    // one node linked to itself: the establish flow run against a single
    // store leaves the two mirrored rows there
    let local = addr(1);
    let mut db = DbConn::new();
    let mut seq = IdSequence::new();
    let out = ui_establish(&mut seq, local).unwrap();
    let id_a = match out.outbound {
        Some(Outbound::Propose(_, id)) => id,
        _ => panic!("establish must propose"),
    };
    let me = String::from("me");
    let (resp, refresh) =
        handle_propose_connection(&mut db, &mut seq, id_a, String::from("me"), local, &me, local)
            .unwrap();
    // a self-addressed proposal pushes no refresh
    assert_eq!(refresh, None);
    let id_b = match resp {
        PeerToPeerResponse::AcceptConnection(p, _, _) => p,
        _ => panic!("proposal must be accepted"),
    };
    apply_accept_connection(&mut db, id_a, id_b, String::from("me"), local).unwrap();

    let out = ui_message_peer(
        &mut db,
        id_a,
        &MessageContent::Text(String::from("note to self")),
        ts(2, 0),
    )
    .unwrap();
    let m = match out.outbound {
        Some(Outbound::SendMessage(_, _, m)) => m,
        _ => panic!("message must be sent"),
    };
    let rows_before = db
        .get_messages(id_a, Timestamp::min(), Timestamp::max())
        .unwrap()
        .len();

    // the peer handler sees its own message: mark received, no insert,
    // no second refresh
    let applied = receive_message(&mut db, &m, local, ts(2, 1)).unwrap();
    assert_eq!(applied, None);
    let rows_after = db
        .get_messages(id_a, Timestamp::min(), Timestamp::max())
        .unwrap()
        .len();
    assert_eq!(rows_before, rows_after);
    assert!(db
        .get_message(m.message_id)
        .unwrap()
        .unwrap()
        .time_recieved
        .is_some());
}

#[test]
fn a_remote_duplicate_changes_nothing() {
    let a_addr = addr(1);
    let b_addr = addr(2);
    let mut db_b = DbConn::new();
    db_b.insert_connection(ap2pmsg::proto::Connection {
        peer_id: 7,
        self_id: 42,
        peer_name: String::from("alice"),
        peer_addr: a_addr,
        online: true,
        time_established: ts(1, 0),
    })
    .unwrap();
    let m = ap2pmsg::proto::Message {
        message_id: 5,
        self_id: 7,
        peer_id: 42,
        time_sent: ts(2, 0),
        time_recieved: None,
        content: MessageContent::Text(String::from("hi")),
    };
    assert_eq!(
        receive_message(&mut db_b, &m, b_addr, ts(2, 1)).unwrap(),
        Some(RefreshRequest::Message)
    );
    let first = db_b.get_message(5).unwrap().unwrap();
    // the second receipt of the same message is refused outright
    assert_eq!(
        receive_message(&mut db_b, &m, b_addr, ts(2, 2)).unwrap_err(),
        DbErr::DuplicateMessageId
    );
    let second = db_b.get_message(5).unwrap().unwrap();
    assert_eq!(first, second);
    assert_eq!(
        db_b.get_messages(7, Timestamp::min(), Timestamp::max())
            .unwrap()
            .len(),
        1
    );
}

#[test]
fn file_messages_round_trip_between_stores() {
    let a_addr = addr(1);
    let b_addr = addr(2);
    let mut db_a = DbConn::new();
    let mut db_b = DbConn::new();
    db_a.insert_connection(ap2pmsg::proto::Connection {
        peer_id: 42,
        self_id: 7,
        peer_name: String::from("bob"),
        peer_addr: b_addr,
        online: true,
        time_established: ts(1, 0),
    })
    .unwrap();
    db_b.insert_connection(ap2pmsg::proto::Connection {
        peer_id: 7,
        self_id: 42,
        peer_name: String::from("alice"),
        peer_addr: a_addr,
        online: true,
        time_established: ts(1, 0),
    })
    .unwrap();

    let bytes = vec![1u8, 2, 3, 4, 5];
    let out = ui_message_peer(
        &mut db_a,
        42,
        &MessageContent::File((String::from("r.txt"), bytes.clone())),
        ts(2, 0),
    )
    .unwrap();
    let m = match out.outbound {
        Some(Outbound::SendMessage(_, _, m)) => m,
        _ => panic!("message must be sent"),
    };
    handle_message(&mut db_b, &m, b_addr, ts(2, 1)).1.unwrap();
    let listed = db_b
        .get_messages(7, Timestamp::min(), Timestamp::max())
        .unwrap();
    assert_eq!(listed.len(), 1);
    assert_eq!(
        listed[0].content,
        MessageContent::File((String::from("r.txt"), bytes))
    );
}

#[test]
fn a_second_linking_request_is_rejected_and_the_link_survives() {
    let (s1, d1) = link_request(LinkState::Unlinked);
    assert_eq!(s1, LinkState::Linked);
    assert_eq!(d1, LinkDecision::Accept);
    let (s2, d2) = link_request(s1);
    assert_eq!(s2, LinkState::Linked);
    assert_eq!(d2, LinkDecision::RejectBusy);
    assert_eq!(link_lost(s2), LinkState::Unlinked);
    assert_eq!(
        busy_reason("127.0.0.1:4000"),
        "already serving a frontend at 127.0.0.1:4000"
    );
}

#[test]
fn the_dispatcher_serves_each_request_kind() {
    let b_addr = addr(2);
    let mut db = DbConn::new();
    let mut seq = IdSequence::new();
    db.insert_connection(ap2pmsg::proto::Connection {
        peer_id: 42,
        self_id: 7,
        peer_name: String::from("bob"),
        peer_addr: b_addr,
        online: true,
        time_established: ts(1, 0),
    })
    .unwrap();

    let out = handle_frontend_request(
        &mut db,
        &mut seq,
        &BackendToFrontendRequest::LinkingRequest,
        ts(2, 0),
    )
    .unwrap();
    assert_eq!(out.response, Some(BackendToFrontendResponse::InvalidRequest));

    let out = handle_frontend_request(
        &mut db,
        &mut seq,
        &BackendToFrontendRequest::ListPeerConnections,
        ts(2, 0),
    )
    .unwrap();
    match out.response {
        Some(BackendToFrontendResponse::PeerConnectionsListed(v)) => assert_eq!(v.len(), 1),
        _ => panic!("connections must be listed"),
    }

    let out = handle_frontend_request(
        &mut db,
        &mut seq,
        &BackendToFrontendRequest::MessagePeer((42, MessageContent::Text(String::from("hi")))),
        ts(2, 0),
    )
    .unwrap();
    assert_eq!(out.refresh, Some(RefreshRequest::Message));

    let out = handle_frontend_request(
        &mut db,
        &mut seq,
        &BackendToFrontendRequest::ListMessages(42, Timestamp::min(), Timestamp::max()),
        ts(2, 1),
    )
    .unwrap();
    match out.response {
        Some(BackendToFrontendResponse::MessagesListed(v)) => assert_eq!(v.len(), 1),
        _ => panic!("messages must be listed"),
    }

    let out = handle_frontend_request(
        &mut db,
        &mut seq,
        &BackendToFrontendRequest::KillRefresher,
        ts(2, 2),
    )
    .unwrap();
    assert_eq!(out.refresh, Some(RefreshRequest::Kill));

    let e = handle_frontend_request(
        &mut db,
        &mut seq,
        &BackendToFrontendRequest::PingPeer(999),
        ts(2, 3),
    )
    .unwrap_err();
    assert_eq!(e, DbErr::NoSuchPeer);
}

#[test]
fn bulk_failures_are_counted_and_fresh_inserts_refresh() {
    let a_addr = addr(1);
    let b_addr = addr(2);
    let mut db_b = DbConn::new();
    db_b.insert_connection(ap2pmsg::proto::Connection {
        peer_id: 7,
        self_id: 42,
        peer_name: String::from("alice"),
        peer_addr: a_addr,
        online: true,
        time_established: ts(1, 0),
    })
    .unwrap();
    let good = ap2pmsg::proto::Message {
        message_id: 5,
        self_id: 7,
        peer_id: 42,
        time_sent: ts(2, 0),
        time_recieved: None,
        content: MessageContent::Text(String::from("hi")),
    };
    let unknown_sender = ap2pmsg::proto::Message {
        message_id: 6,
        self_id: 999,
        peer_id: 42,
        time_sent: ts(2, 1),
        time_recieved: None,
        content: MessageContent::Text(String::from("lost")),
    };
    let msgs = vec![good.clone(), unknown_sender];
    let (resp, refresh, failures) = handle_bulk_message(&mut db_b, &msgs, b_addr, ts(2, 2));
    assert_eq!(resp, PeerToPeerResponse::BulkRecieved(vec![5, 6]));
    assert_eq!(refresh, Some(RefreshRequest::Message));
    assert_eq!(failures, 1);
    // a bulk of nothing but duplicates refreshes nothing and fails each
    let (_, refresh, failures) = handle_bulk_message(&mut db_b, &vec![good], b_addr, ts(2, 3));
    assert_eq!(refresh, None);
    assert_eq!(failures, 1);
}
