use ap2pmsg::idseq::IdSequence;
use ap2pmsg::proto::{Connection, MessageContent, NetAddr};
use ap2pmsg::store::{DbConn, DbErr};
use ap2pmsg::timestamp::{clamp_clock, Timestamp};

fn ts(day: u8, hour: u8) -> Timestamp {
    Timestamp {
        year: 2024,
        month: 5,
        day,
        hour,
        minute: 0,
        second: 0,
        millisecond: 0,
        offset_hour: 0,
        offset_minute: 0,
    }
}

fn addr(last: u8) -> NetAddr {
    NetAddr { ip0: 10, ip1: 0, ip2: 0, ip3: last, port: 7878 }
}

fn conn(peer_id: u32, self_id: u32, name: &str, last: u8) -> Connection {
    Connection {
        peer_id,
        self_id,
        peer_name: String::from(name),
        peer_addr: addr(last),
        online: true,
        time_established: ts(1, 0),
    }
}

#[test]
fn insert_then_get_returns_the_same_connection() {
    let mut db = DbConn::new();
    let c = conn(42, 7, "bob", 2);
    let id = db.insert_connection(c.clone()).unwrap();
    assert_eq!(id, 1);
    let got = db.get_connection(id).unwrap();
    assert_eq!(got, c);
}

#[test]
fn duplicate_peer_id_is_refused() {
    let mut db = DbConn::new();
    db.insert_connection(conn(42, 7, "bob", 2)).unwrap();
    let e = db.insert_connection(conn(42, 9, "carol", 3)).unwrap_err();
    assert_eq!(e, DbErr::DuplicatePeerId);
    assert_eq!(db.get_connections().len(), 1);
}

#[test]
fn missing_rows_are_reported() {
    let db = DbConn::new();
    assert_eq!(db.get_connection(1).unwrap_err(), DbErr::NoSuchConnection);
    assert_eq!(db.get_peer_addr(5).unwrap_err(), DbErr::NoSuchPeer);
    assert_eq!(db.get_peer_name(5).unwrap_err(), DbErr::NoSuchPeer);
    assert_eq!(db.peer_online(5).unwrap_err(), DbErr::NoSuchPeer);
    assert_eq!(db.get_message(5).unwrap(), None);
}

#[test]
fn accessors_read_the_row() {
    let mut db = DbConn::new();
    db.insert_connection(conn(42, 7, "bob", 2)).unwrap();
    assert_eq!(db.get_peer_addr(42).unwrap(), addr(2));
    assert_eq!(db.get_peer_name(42).unwrap(), "bob");
    assert_eq!(db.peer_online(42).unwrap(), true);
    assert_eq!(db.set_peer_online(42, false), 1);
    assert_eq!(db.peer_online(42).unwrap(), false);
    assert_eq!(db.set_peer_online(999, true), 0);
}

#[test]
fn new_message_is_listed_in_range() {
    let mut db = DbConn::new();
    db.insert_connection(conn(42, 7, "bob", 2)).unwrap();
    let m = db
        .new_message(42, &MessageContent::Text(String::from("hello")), ts(2, 10))
        .unwrap();
    assert_eq!(m.message_id, 1);
    assert_eq!(m.peer_id, 42);
    assert_eq!(m.self_id, 7);
    assert_eq!(m.time_recieved, None);
    let listed = db.get_messages(42, Timestamp::min(), Timestamp::max()).unwrap();
    assert_eq!(listed.len(), 1);
    assert_eq!(
        listed[0].content,
        MessageContent::Text(String::from("hello"))
    );
}

#[test]
fn empty_time_range_lists_nothing() {
    let mut db = DbConn::new();
    db.insert_connection(conn(42, 7, "bob", 2)).unwrap();
    db.new_message(42, &MessageContent::Text(String::from("x")), ts(2, 10))
        .unwrap();
    // both bounds at a moment later than every stored send time
    let now = ts(3, 0);
    let listed = db.get_messages(42, now, now).unwrap();
    assert_eq!(listed.len(), 0);
}

#[test]
fn file_content_round_trips_through_the_store() {
    let mut db = DbConn::new();
    db.insert_connection(conn(42, 7, "bob", 2)).unwrap();
    let blob = vec![9u8, 8, 7, 6];
    let m = db
        .new_message(
            42,
            &MessageContent::File((String::from("r.txt"), blob.clone())),
            ts(2, 10),
        )
        .unwrap();
    assert_eq!(
        m.content,
        MessageContent::File((String::from("r.txt"), blob.clone()))
    );
    let got = db.get_message(m.message_id).unwrap().unwrap();
    assert_eq!(got.content, MessageContent::File((String::from("r.txt"), blob)));
}

#[test]
fn new_message_to_an_unknown_peer_is_refused() {
    let mut db = DbConn::new();
    let e = db
        .new_message(42, &MessageContent::Text(String::from("x")), ts(2, 10))
        .unwrap_err();
    assert_eq!(e, DbErr::NoSuchPeer);
}

#[test]
fn mark_as_recieved_sets_the_time_once() {
    let mut db = DbConn::new();
    db.insert_connection(conn(42, 7, "bob", 2)).unwrap();
    let m = db
        .new_message(42, &MessageContent::Text(String::from("x")), ts(2, 10))
        .unwrap();
    assert_eq!(db.mark_as_recieved(m.message_id, ts(2, 11)), 1);
    let first = db.get_message(m.message_id).unwrap().unwrap().time_recieved;
    assert_eq!(first, Some(ts(2, 11)));
    // a second mark with a later moment changes nothing
    assert_eq!(db.mark_as_recieved(m.message_id, ts(2, 12)), 1);
    let second = db.get_message(m.message_id).unwrap().unwrap().time_recieved;
    assert_eq!(second, Some(ts(2, 11)));
    // an unknown id matches no row
    assert_eq!(db.mark_as_recieved(999, ts(2, 13)), 0);
}

#[test]
fn recieved_time_never_precedes_the_send_time() {
    let mut db = DbConn::new();
    db.insert_connection(conn(42, 7, "bob", 2)).unwrap();
    let m = db
        .new_message(42, &MessageContent::Text(String::from("x")), ts(2, 10))
        .unwrap();
    // a skewed clock hands in a moment before the send time
    db.mark_as_recieved(m.message_id, ts(1, 0));
    let got = db.get_message(m.message_id).unwrap().unwrap();
    let tr = got.time_recieved.unwrap();
    assert!(got.time_sent.le(&tr));
}

#[test]
fn bulk_mark_marks_each_listed_id() {
    let mut db = DbConn::new();
    db.insert_connection(conn(42, 7, "bob", 2)).unwrap();
    let m1 = db
        .new_message(42, &MessageContent::Text(String::from("a")), ts(2, 1))
        .unwrap();
    let m2 = db
        .new_message(42, &MessageContent::Text(String::from("b")), ts(2, 2))
        .unwrap();
    let m3 = db
        .new_message(42, &MessageContent::Text(String::from("c")), ts(2, 3))
        .unwrap();
    assert_eq!(db.get_unrecieved_for(42).unwrap().len(), 3);
    // the count is the number of rows the listed ids name
    let ids = vec![m1.message_id, m2.message_id, m3.message_id];
    assert_eq!(db.bulk_mark_as_recieved(&ids, ts(2, 5)), 3);
    assert_eq!(db.get_unrecieved_for(42).unwrap().len(), 0);
    let tr = db.get_message(m1.message_id).unwrap().unwrap().time_recieved;
    assert_eq!(tr, Some(ts(2, 5)));
}

#[test]
fn bulk_mark_counts_only_named_rows() {
    let mut db = DbConn::new();
    db.insert_connection(conn(42, 7, "bob", 2)).unwrap();
    let m = db
        .new_message(42, &MessageContent::Text(String::from("a")), ts(2, 1))
        .unwrap();
    // one real id, one that names no row
    assert_eq!(db.bulk_mark_as_recieved(&vec![m.message_id, 999], ts(2, 5)), 1);
    // marked rows still count: they are named, only not re-set
    assert_eq!(db.bulk_mark_as_recieved(&vec![m.message_id], ts(2, 6)), 1);
    assert_eq!(
        db.get_message(m.message_id).unwrap().unwrap().time_recieved,
        Some(ts(2, 5))
    );
}

#[test]
fn update_message_content_replaces_the_cell() {
    let mut db = DbConn::new();
    db.insert_connection(conn(42, 7, "bob", 2)).unwrap();
    let m = db
        .new_message(42, &MessageContent::Text(String::from("old")), ts(2, 1))
        .unwrap();
    assert_eq!(
        db.update_message_content(m.message_id, MessageContent::Text(String::from("new"))),
        1
    );
    let got = db.get_message(m.message_id).unwrap().unwrap();
    assert_eq!(got.content, MessageContent::Text(String::from("new")));
    assert_eq!(
        db.update_message_content(999, MessageContent::Text(String::from("zz"))),
        0
    );
}

#[test]
fn allocated_ids_never_repeat() {
    let mut seq = IdSequence::new();
    let a = seq.generate_peer_id().unwrap();
    let b = seq.generate_peer_id().unwrap();
    let c = seq.generate_peer_id().unwrap();
    assert_ne!(a, b);
    assert_ne!(a, c);
    assert_ne!(b, c);
    assert_eq!(seq.n, 3);
}

#[test]
fn a_resumed_sequence_continues_the_walk() {
    let mut seq = IdSequence::new();
    let a = seq.generate_peer_id().unwrap();
    let b = seq.generate_peer_id().unwrap();
    let mut replay = IdSequence::resume(seq.seed_base, seq.seed_offset, 0).unwrap();
    assert_eq!(replay.generate_peer_id().unwrap(), a);
    assert_eq!(replay.generate_peer_id().unwrap(), b);
}

#[test]
fn an_exhausted_sequence_reports_no_available_id() {
    let mut seq = IdSequence::resume(1, 2, 0x1_0000_0000).unwrap();
    assert_eq!(seq.generate_peer_id().unwrap_err(), DbErr::NoAvailableId);
    assert_eq!(IdSequence::resume(1, 2, 0x1_0000_0001), None);
}

#[test]
fn timestamp_order_is_lexicographic_on_the_fields() {
    assert!(ts(1, 5).le(&ts(2, 0)));
    assert!(!ts(2, 0).le(&ts(1, 5)));
    assert!(ts(2, 0).le(&ts(2, 0)));
    assert!(Timestamp::min().le(&ts(1, 0)));
    assert!(ts(31, 23).le(&Timestamp::max()));
}

#[test]
fn clock_components_clamp_into_range() {
    let t = clamp_clock(2024, 5, 9, 10, 20, 30, 400, -2, -30);
    assert_eq!(
        t,
        Timestamp {
            year: 2024,
            month: 5,
            day: 9,
            hour: 10,
            minute: 20,
            second: 30,
            millisecond: 400,
            offset_hour: -2,
            offset_minute: 30,
        }
    );
    let t = clamp_clock(-50, 0, 40, 99, 99, 99, 5000, 25, 99);
    assert_eq!(
        t,
        Timestamp {
            year: 0,
            month: 1,
            day: 31,
            hour: 23,
            minute: 59,
            second: 59,
            millisecond: 999,
            offset_hour: 23,
            offset_minute: 59,
        }
    );
    let t = clamp_clock(12000, 13, 0, 0, 0, 0, 0, -25, -128);
    assert_eq!(t.year, 9999);
    assert_eq!(t.month, 12);
    assert_eq!(t.day, 1);
    assert_eq!(t.offset_hour, -23);
    assert_eq!(t.offset_minute, 59);
}
