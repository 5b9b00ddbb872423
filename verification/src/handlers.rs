//! The request handlers: every decision the daemon takes, as functions
//! from store state and request to new state, reply and effects.
//!
//! The transport around these functions only moves frames: it reads a
//! request, calls the matching handler, writes the reply it is handed,
//! performs the outbound call it is handed, and feeds the outcome back
//! in.  Everything the protocol decides -- duplicate suppression,
//! loopback at-most-once persistence, reachability tracking, retry on
//! reconnect, refresh signalling -- is decided here, against the store's
//! contracts.

use vstd::prelude::*;
use vstd::string::StringExecFns;
use crate::idseq::{seq_element, IdSequence};
use crate::proto::{
    BackendToFrontendRequest, BackendToFrontendResponse, Connection, Message, MessageContent,
    MessageView, NetAddr, PeerToPeerResponse, RefreshRequest,
};
use crate::store::{conn_views, max_message_id, msg_views, DbConn, DbErr, DbView};
use crate::timestamp::Timestamp;

verus! {

/// A message of this sender's id and message-id is this node's own,
/// already stored: the sender's address is this node's address and the
/// message-id names a stored row.
pub open spec fn is_loopback(db: DbView, m: MessageView, local_addr: NetAddr) -> bool {
    &&& db.peer_exists(m.self_id)
    &&& db.conn_of_peer(m.self_id).peer_addr == local_addr
    &&& db.msg_exists(m.message_id)
}

/// The store after one inbound message is received: a loopback message
/// is only marked received, a fresh remote message is inserted, and
/// anything else -- an unknown sender, a duplicate message-id -- leaves
/// the store unchanged.
pub open spec fn spec_receive(db: DbView, m: MessageView, local_addr: NetAddr, now: Timestamp) -> DbView {
    if is_loopback(db, m, local_addr) {
        db.spec_mark(m.message_id, now)
    } else if db.peer_exists(m.self_id) && !db.msg_exists(m.message_id) {
        db.spec_insert_message(m, now)
    } else {
        db
    }
}

/// The store after a list of inbound messages is received, in order.
pub open spec fn spec_bulk_receive(
    db: DbView,
    msgs: Seq<MessageView>,
    local_addr: NetAddr,
    now: Timestamp,
) -> DbView
    decreases msgs.len(),
{
    if msgs.len() == 0 {
        db
    } else {
        spec_receive(spec_bulk_receive(db, msgs.drop_last(), local_addr, now), msgs.last(), local_addr, now)
    }
}

/// Receiving this message now would freshly insert it: a known sender,
/// a new message-id, and not this node's own message.
pub open spec fn spec_receive_inserts(db: DbView, m: MessageView, local_addr: NetAddr) -> bool {
    &&& !is_loopback(db, m, local_addr)
    &&& db.peer_exists(m.self_id)
    &&& !db.msg_exists(m.message_id)
}

/// Receiving this message now would fail: an unknown sender or a
/// duplicate message-id, and not this node's own message.
pub open spec fn spec_receive_fails(db: DbView, m: MessageView, local_addr: NetAddr) -> bool {
    &&& !is_loopback(db, m, local_addr)
    &&& (!db.peer_exists(m.self_id) || db.msg_exists(m.message_id))
}

/// Whether some message of the list is freshly inserted when its turn
/// comes.
pub open spec fn spec_bulk_refresh(
    db: DbView,
    msgs: Seq<MessageView>,
    local_addr: NetAddr,
    now: Timestamp,
) -> bool
    decreases msgs.len(),
{
    if msgs.len() == 0 {
        false
    } else {
        spec_bulk_refresh(db, msgs.drop_last(), local_addr, now) || spec_receive_inserts(
            spec_bulk_receive(db, msgs.drop_last(), local_addr, now),
            msgs.last(),
            local_addr,
        )
    }
}

/// How many messages of the list fail when their turn comes.
pub open spec fn spec_bulk_failures(
    db: DbView,
    msgs: Seq<MessageView>,
    local_addr: NetAddr,
    now: Timestamp,
) -> int
    decreases msgs.len(),
{
    if msgs.len() == 0 {
        0
    } else {
        spec_bulk_failures(db, msgs.drop_last(), local_addr, now) + if spec_receive_fails(
            spec_bulk_receive(db, msgs.drop_last(), local_addr, now),
            msgs.last(),
            local_addr,
        ) {
            1int
        } else {
            0int
        }
    }
}

/// Applies one inbound message to the store, as `spec_receive` says, and
/// hands back the refresh signal to push: a fresh insert is worth a
/// `Message` refresh, a loopback mark is not (the sending side already
/// pushed one), and a failure is surfaced.
pub fn receive_message(db: &mut DbConn, m: &Message, local_addr: NetAddr, now: Timestamp) -> (r:
    Result<Option<RefreshRequest>, DbErr>)
    requires
        old(db)@.wf(),
        now.wf(),
        m.time_sent.wf(),
    ensures
        final(db)@.wf(),
        final(db)@ == spec_receive(old(db)@, m@, local_addr, now),
        is_loopback(old(db)@, m@, local_addr) ==> r == Ok::<Option<RefreshRequest>, DbErr>(None),
        !is_loopback(old(db)@, m@, local_addr) ==> {
            &&& old(db)@.peer_exists(m.self_id) && !old(db)@.msg_exists(m.message_id) ==> r
                == Ok::<Option<RefreshRequest>, DbErr>(Some(RefreshRequest::Message))
            &&& !old(db)@.peer_exists(m.self_id) ==> r == Err::<Option<RefreshRequest>, DbErr>(
                DbErr::NoSuchPeer,
            )
            &&& old(db)@.peer_exists(m.self_id) && old(db)@.msg_exists(m.message_id) ==> r == Err::<
                Option<RefreshRequest>,
                DbErr,
            >(DbErr::DuplicateMessageId)
        },
{
    let loopback: bool = match db.get_peer_addr(m.self_id) {
        Ok(a) => {
            if a == local_addr {
                match db.get_message(m.message_id) {
                    Ok(Some(_)) => true,
                    Ok(None) => false,
                    Err(_) => false,
                }
            } else {
                false
            }
        },
        Err(_) => false,
    };
    if loopback {
        proof {
            assert(is_loopback(old(db)@, m@, local_addr));
        }
        db.mark_as_recieved(m.message_id, now);
        proof {
            assert(db@ == old(db)@.spec_mark(m.message_id, now));
            assert(db@ == spec_receive(old(db)@, m@, local_addr, now));
        }
        Ok(None)
    } else {
        proof {
            assert(!is_loopback(old(db)@, m@, local_addr));
        }
        match db.insert_message(m, now) {
            Ok(_) => {
                proof {
                    assert(old(db)@.peer_exists(m.self_id));
                    assert(!old(db)@.msg_exists(m.message_id));
                    assert(old(db)@.peer_exists(m@.self_id));
                    assert(!old(db)@.msg_exists(m@.message_id));
                    assert(db@ == old(db)@.spec_insert_message(m@, now));
                    assert(spec_receive(old(db)@, m@, local_addr, now) == old(
                        db,
                    )@.spec_insert_message(m@, now));
                }
                Ok(Some(RefreshRequest::Message))
            },
            Err(e) => {
                proof {
                    assert(db@ == old(db)@);
                    assert(db@ == spec_receive(old(db)@, m@, local_addr, now));
                }
                Err(e)
            },
        }
    }
}

/// Handles an inbound `Message(m)` frame: the reply acknowledging
/// `m.message_id` comes first, then the message is applied to the store.
pub fn handle_message(db: &mut DbConn, m: &Message, local_addr: NetAddr, now: Timestamp) -> (r: (
    PeerToPeerResponse,
    Result<Option<RefreshRequest>, DbErr>,
))
    requires
        old(db)@.wf(),
        now.wf(),
        m.time_sent.wf(),
    ensures
        final(db)@.wf(),
        r.0 == PeerToPeerResponse::Recieved(m.message_id),
        final(db)@ == spec_receive(old(db)@, m@, local_addr, now),
        is_loopback(old(db)@, m@, local_addr) ==> r.1 == Ok::<Option<RefreshRequest>, DbErr>(
            None,
        ),
        !is_loopback(old(db)@, m@, local_addr) ==> {
            &&& old(db)@.peer_exists(m.self_id) && !old(db)@.msg_exists(m.message_id) ==> r.1
                == Ok::<Option<RefreshRequest>, DbErr>(Some(RefreshRequest::Message))
            &&& !old(db)@.peer_exists(m.self_id) ==> r.1 == Err::<Option<RefreshRequest>, DbErr>(
                DbErr::NoSuchPeer,
            )
            &&& old(db)@.peer_exists(m.self_id) && old(db)@.msg_exists(m.message_id) ==> r.1
                == Err::<Option<RefreshRequest>, DbErr>(DbErr::DuplicateMessageId)
        },
{
    let response = PeerToPeerResponse::Recieved(m.message_id);
    let applied = receive_message(db, m, local_addr, now);
    (response, applied)
}

/// The message-ids of a list of messages, in order.
pub open spec fn mids_of(msgs: Seq<MessageView>) -> Seq<u32> {
    msgs.map_values(|m: MessageView| m.message_id)
}

/// Handles an inbound `BulkMessage` frame: the reply acknowledges every
/// listed message-id in order -- an empty list is acknowledged with an
/// empty `BulkRecieved` -- and then each message is applied to the
/// store in order.  A `Message` refresh is worth pushing exactly when
/// some message was freshly inserted; failures of single messages are
/// counted, not fatal.
pub fn handle_bulk_message(db: &mut DbConn, msgs: &Vec<Message>, local_addr: NetAddr, now: Timestamp) -> (r: (
    PeerToPeerResponse,
    Option<RefreshRequest>,
    usize,
))
    requires
        old(db)@.wf(),
        now.wf(),
        forall|i: int| 0 <= i < msgs@.len() ==> (#[trigger] msgs@[i]).time_sent.wf(),
    ensures
        final(db)@.wf(),
        r.0 matches PeerToPeerResponse::BulkRecieved(ids) && ids@ == mids_of(msg_views(msgs@)),
        final(db)@ == spec_bulk_receive(old(db)@, msg_views(msgs@), local_addr, now),
        r.1 == if spec_bulk_refresh(old(db)@, msg_views(msgs@), local_addr, now) {
            Some(RefreshRequest::Message)
        } else {
            None::<RefreshRequest>
        },
        r.2 == spec_bulk_failures(old(db)@, msg_views(msgs@), local_addr, now),
        msgs@.len() == 0 ==> final(db)@ == old(db)@ && r.1 is None && r.2 == 0,
{
    let mut ids: Vec<u32> = Vec::new();
    let mut k: usize = 0;
    while k < msgs.len()
        invariant
            k <= msgs@.len(),
            ids@ == mids_of(msg_views(msgs@).take(k as int)),
        decreases msgs.len() - k,
    {
        proof {
            assert(msg_views(msgs@).take(k as int + 1) =~= msg_views(msgs@).take(k as int).push(
                msgs@[k as int]@,
            ));
            assert(mids_of(msg_views(msgs@).take(k as int + 1)) =~= mids_of(
                msg_views(msgs@).take(k as int),
            ).push(msgs@[k as int]@.message_id));
        }
        ids.push(msgs[k].message_id);
        k += 1;
    }
    proof {
        assert(msg_views(msgs@).take(msgs@.len() as int) =~= msg_views(msgs@));
    }
    let response = PeerToPeerResponse::BulkRecieved(ids);
    let mut refresh: Option<RefreshRequest> = None;
    let mut failures: usize = 0;
    let mut k: usize = 0;
    proof {
        assert(spec_bulk_receive(old(db)@, msg_views(msgs@).take(0), local_addr, now) =~= old(
            db,
        )@);
    }
    while k < msgs.len()
        invariant
            db@.wf(),
            now.wf(),
            forall|i: int| 0 <= i < msgs@.len() ==> (#[trigger] msgs@[i]).time_sent.wf(),
            k <= msgs@.len(),
            failures <= k,
            db@ == spec_bulk_receive(old(db)@, msg_views(msgs@).take(k as int), local_addr, now),
            refresh == if spec_bulk_refresh(
                old(db)@,
                msg_views(msgs@).take(k as int),
                local_addr,
                now,
            ) {
                Some(RefreshRequest::Message)
            } else {
                None::<RefreshRequest>
            },
            failures == spec_bulk_failures(
                old(db)@,
                msg_views(msgs@).take(k as int),
                local_addr,
                now,
            ),
        decreases msgs.len() - k,
    {
        let ghost cur = db@;
        let ghost mv = msgs@[k as int]@;
        proof {
            assert(msg_views(msgs@).take(k as int + 1).drop_last() =~= msg_views(msgs@).take(
                k as int,
            ));
            assert(msg_views(msgs@).take(k as int + 1).last() == msgs@[k as int]@);
        }
        match receive_message(db, &msgs[k], local_addr, now) {
            Ok(Some(_)) => {
                proof {
                    assert(spec_receive_inserts(cur, mv, local_addr));
                    assert(!spec_receive_fails(cur, mv, local_addr));
                }
                refresh = Some(RefreshRequest::Message);
            },
            Ok(None) => {
                proof {
                    assert(is_loopback(cur, mv, local_addr));
                    assert(!spec_receive_inserts(cur, mv, local_addr));
                    assert(!spec_receive_fails(cur, mv, local_addr));
                }
            },
            Err(_) => {
                proof {
                    assert(spec_receive_fails(cur, mv, local_addr));
                    assert(!spec_receive_inserts(cur, mv, local_addr));
                }
                failures += 1;
            },
        }
        k += 1;
    }
    proof {
        assert(msg_views(msgs@).take(msgs@.len() as int) =~= msg_views(msgs@));
    }
    (response, refresh, failures)
}

/// Handles an inbound `ProposeConnection` frame: a fresh peer-id is
/// allocated, a connection row for the proposing peer is stored, and
/// the reply names the allocated id and this node.  A `Connection`
/// refresh is worth pushing exactly when the peer's address is not this
/// node's own, which keeps a self-addressed proposal from starting a
/// refresh storm.
pub fn handle_propose_connection(
    db: &mut DbConn,
    seq: &mut IdSequence,
    peer_self_id: u32,
    peer_name: String,
    peer_addr: NetAddr,
    local_name: &String,
    local_addr: NetAddr,
) -> (r: Result<(PeerToPeerResponse, Option<RefreshRequest>), DbErr>)
    requires
        old(db)@.wf(),
        old(seq).wf(),
    ensures
        final(db)@.wf(),
        final(seq).wf(),
        final(seq).seed_base == old(seq).seed_base,
        final(seq).seed_offset == old(seq).seed_offset,
        match r {
            Ok((resp, refresh)) => {
                let id = seq_element(old(seq).seed_base, old(seq).seed_offset, old(seq).n as u32);
                &&& peer_name@.len() > 0
                &&& old(seq).n < 0x1_0000_0000
                &&& final(seq).n == old(seq).n + 1
                &&& !old(db)@.peer_exists(id)
                &&& final(db)@.connections.len() == old(db)@.connections.len() + 1
                &&& ({
                    let c = final(db)@.connections.last();
                    &&& c.peer_id == id
                    &&& c.self_id == peer_self_id
                    &&& c.peer_name == peer_name@
                    &&& c.peer_addr == peer_addr
                    &&& c.online == true
                })
                &&& final(db)@.connections.drop_last() == old(db)@.connections
                &&& final(db)@.messages == old(db)@.messages
                &&& final(db)@.files == old(db)@.files
                &&& resp matches PeerToPeerResponse::AcceptConnection(p, n, a) && p == id && n@
                    == local_name@ && a == local_addr
                &&& refresh == if peer_addr != local_addr {
                    Some(RefreshRequest::Connection)
                } else {
                    None::<RefreshRequest>
                }
            },
            Err(e) => {
                &&& final(db)@ == old(db)@
                &&& (e == DbErr::InvalidPeerName || e == DbErr::NoAvailableId
                    || e == DbErr::DuplicatePeerId)
                &&& (e == DbErr::InvalidPeerName <==> peer_name@.len() == 0)
                &&& (e == DbErr::NoAvailableId ==> old(seq).n == 0x1_0000_0000 || old(
                    db,
                )@.connections.len() + 2 > 0xFFFF_FFFF)
                &&& (e == DbErr::DuplicatePeerId ==> final(seq).n == old(seq).n + 1 && old(
                    db,
                )@.peer_exists(
                    seq_element(old(seq).seed_base, old(seq).seed_offset, old(seq).n as u32),
                ))
            },
        },
        peer_name@.len() > 0 && old(seq).n < 0x1_0000_0000 && old(db)@.connections.len() + 2
            <= 0xFFFF_FFFF && !old(db)@.peer_exists(
            seq_element(old(seq).seed_base, old(seq).seed_offset, old(seq).n as u32),
        ) ==> r is Ok,
{
    if peer_name.as_str().is_empty() {
        return Err(DbErr::InvalidPeerName);
    }
    let p = match seq.generate_peer_id() {
        Ok(p) => p,
        Err(e) => {
            return Err(e);
        },
    };
    let c = Connection::new(p, peer_self_id, peer_name, peer_addr);
    let ghost prev = db@;
    match db.insert_connection(c) {
        Ok(_) => {},
        Err(e) => {
            proof {
                assert(e != DbErr::NoAvailableId || prev.connections.len() + 2 > 0xFFFF_FFFF);
            }
            return Err(e);
        },
    }
    proof {
        assert(final(db)@.connections.drop_last() =~= prev.connections);
    }
    let resp = PeerToPeerResponse::AcceptConnection(p, local_name.clone(), local_addr);
    let refresh: Option<RefreshRequest> = if peer_addr != local_addr {
        Some(RefreshRequest::Connection)
    } else {
        None
    };
    Ok((resp, refresh))
}

/// Receiving the same message twice comes to the same store as
/// receiving it once: a remote duplicate is refused outright, and a
/// loopback duplicate only re-marks a row whose received time is
/// already set.
pub proof fn lemma_receive_message_idempotent(
    db: DbView,
    m: MessageView,
    local_addr: NetAddr,
    now1: Timestamp,
    now2: Timestamp,
)
    requires
        db.wf(),
    ensures
        spec_receive(spec_receive(db, m, local_addr, now1), m, local_addr, now2) == spec_receive(
            db,
            m,
            local_addr,
            now1,
        ),
{
    let db2 = spec_receive(db, m, local_addr, now1);
    if is_loopback(db, m, local_addr) {
        crate::store::lemma_mark_as_recieved_idempotent(db, m.message_id, now1, now2);
        assert(db2.connections == db.connections);
        assert(db2.msg_exists(m.message_id)) by {
            let k = db.msg_index(m.message_id);
            assert(db.messages[k].message_id == m.message_id);
            assert(db2.messages[k].message_id == m.message_id);
        }
        assert(is_loopback(db2, m, local_addr));
    } else if db.peer_exists(m.self_id) && !db.msg_exists(m.message_id) {
        assert(db2.connections == db.connections);
        assert(db2.messages.last().message_id == m.message_id);
        assert(db2.msg_exists(m.message_id));
        if is_loopback(db2, m, local_addr) {
            let l = db2.msg_index(m.message_id);
            assert(db2.messages[l].message_id == m.message_id);
            if l < db.messages.len() {
                assert(db2.messages[l] == db.messages[l]);
                assert(db.msg_exists(m.message_id));
            }
            assert(l == db2.messages.len() - 1);
            assert(db2.messages[l].time_recieved is Some);
            assert(db2.spec_mark(m.message_id, now2) == db2);
        }
    }
}

/// An outbound peer call the transport is asked to perform on the UI
/// handler's behalf.
#[derive(Debug)]
pub enum Outbound {
    /// Send `Peer(Message(m))` to the address and await `Recieved`.
    SendMessage(NetAddr, u32, Message),
    /// Send `Peer(BulkMessage(msgs))` to the address and await
    /// `BulkRecieved`.
    SendBulk(NetAddr, u32, Vec<Message>),
    /// Open a connection within the peer timeout and send nothing; the
    /// outcome becomes the peer's `online` flag.
    Ping(NetAddr, u32),
    /// Send `Peer(ProposeConnection(id, self_name, local_addr))` under
    /// the allocated peer-id and await `AcceptConnection`.
    Propose(NetAddr, u32),
}

/// What the UI handler decided for one front-end request: the reply to
/// write back, the refresh to push, and the outbound peer call to make.
#[derive(Debug)]
pub struct UiOutcome {
    pub response: Option<BackendToFrontendResponse>,
    pub refresh: Option<RefreshRequest>,
    pub outbound: Option<Outbound>,
}

/// Lists every stored connection for the front-end.
pub fn ui_list_connections(db: &DbConn) -> (r: BackendToFrontendResponse)
    ensures
        r matches BackendToFrontendResponse::PeerConnectionsListed(v) && conn_views(v@)
            == db@.connections,
{
    let conns = db.get_connections();
    proof {
        assert(conn_views(conns@) =~= db@.connections);
    }
    BackendToFrontendResponse::PeerConnectionsListed(conns)
}

/// Lists the peer's messages in the inclusive time range for the
/// front-end.
pub fn ui_list_messages(db: &DbConn, peer_id: u32, since: Timestamp, until: Timestamp) -> (r:
    BackendToFrontendResponse)
    requires
        db@.wf(),
        since.wf(),
        until.wf(),
    ensures
        r matches BackendToFrontendResponse::MessagesListed(v) && msg_views(v@)
            == db@.spec_get_messages(peer_id, since, until),
{
    match db.get_messages(peer_id, since, until) {
        Ok(msgs) => BackendToFrontendResponse::MessagesListed(msgs),
        Err(_) => {
            proof {
                assert(false);
            }
            BackendToFrontendResponse::InvalidRequest
        },
    }
}

/// Creates a pending message to the peer and asks the transport to
/// deliver it: the store gains the row first, a `Message` refresh makes
/// the pending row visible at once, and the outbound call carries the
/// stored message to the peer's address.
pub fn ui_message_peer(db: &mut DbConn, peer_id: u32, content: &MessageContent, now: Timestamp) -> (r:
    Result<UiOutcome, DbErr>)
    requires
        old(db)@.wf(),
        now.wf(),
    ensures
        final(db)@.wf(),
        match r {
            Ok(out) => {
                &&& old(db)@.peer_exists(peer_id)
                &&& final(db)@ == old(db)@.spec_new_message(peer_id, content@, now)
                &&& out.response is None
                &&& out.refresh == Some(RefreshRequest::Message)
                &&& out.outbound matches Some(Outbound::SendMessage(a, pid, m)) && a == old(
                    db,
                )@.conn_of_peer(peer_id).peer_addr && pid == peer_id && m@.message_id
                    == max_message_id(old(db)@.messages) + 1 && m@.peer_id == peer_id && m@.self_id
                    == old(db)@.conn_of_peer(peer_id).self_id && m@.time_sent == now
                    && m@.time_recieved is None && m@.content == content@
            },
            Err(e) => {
                &&& final(db)@ == old(db)@
                &&& (e == DbErr::NoSuchPeer || e == DbErr::NoAvailableId)
                &&& (e == DbErr::NoSuchPeer <==> !old(db)@.peer_exists(peer_id))
                &&& (e == DbErr::NoAvailableId ==> max_message_id(old(db)@.messages)
                    >= 0xFFFF_FFFF)
            },
        },
{
    let m = match db.new_message(peer_id, content, now) {
        Ok(m) => m,
        Err(e) => {
            return Err(e);
        },
    };
    let addr = match db.get_peer_addr(peer_id) {
        Ok(a) => a,
        Err(_) => {
            proof {
                assert(false);
            }
            return Err(DbErr::NoSuchPeer);
        },
    };
    Ok(
        UiOutcome {
            response: None,
            refresh: Some(RefreshRequest::Message),
            outbound: Some(Outbound::SendMessage(addr, peer_id, m)),
        },
    )
}

/// Collects the peer's pending messages and asks the transport to send
/// them as one bulk call -- unless the peer was last seen offline, in
/// which case nothing at all is done: the front-end is expected to ping
/// first.
pub fn ui_retry_unrecieved(db: &DbConn, peer_id: u32) -> (r: Result<UiOutcome, DbErr>)
    requires
        db@.wf(),
    ensures
        match r {
            Ok(out) => {
                &&& db@.peer_exists(peer_id)
                &&& out.response is None
                &&& out.refresh is None
                &&& (db@.conn_of_peer(peer_id).online ==> (out.outbound matches Some(
                    Outbound::SendBulk(a, pid, v),
                ) && a == db@.conn_of_peer(peer_id).peer_addr && pid == peer_id && msg_views(v@)
                    == db@.spec_get_unrecieved(peer_id)))
                &&& (!db@.conn_of_peer(peer_id).online ==> out.outbound is None)
            },
            Err(e) => e == DbErr::NoSuchPeer && !db@.peer_exists(peer_id),
        },
{
    let online = match db.peer_online(peer_id) {
        Ok(b) => b,
        Err(e) => {
            return Err(e);
        },
    };
    if !online {
        return Ok(UiOutcome { response: None, refresh: None, outbound: None });
    }
    let pending = match db.get_unrecieved_for(peer_id) {
        Ok(v) => v,
        Err(_) => {
            proof {
                assert(false);
            }
            return Err(DbErr::NoSuchPeer);
        },
    };
    let addr = match db.get_peer_addr(peer_id) {
        Ok(a) => a,
        Err(_) => {
            proof {
                assert(false);
            }
            return Err(DbErr::NoSuchPeer);
        },
    };
    Ok(
        UiOutcome {
            response: None,
            refresh: None,
            outbound: Some(Outbound::SendBulk(addr, peer_id, pending)),
        },
    )
}

/// Asks the transport to probe the peer's address; the outcome of the
/// probe, fed back through `DbConn::set_peer_online`, becomes the
/// peer's `online` flag.
pub fn ui_ping_peer(db: &DbConn, peer_id: u32) -> (r: Result<UiOutcome, DbErr>)
    requires
        db@.wf(),
    ensures
        match r {
            Ok(out) => {
                &&& db@.peer_exists(peer_id)
                &&& out.response is None
                &&& out.refresh is None
                &&& out.outbound matches Some(Outbound::Ping(a, pid)) && a == db@.conn_of_peer(
                    peer_id,
                ).peer_addr && pid == peer_id
            },
            Err(e) => e == DbErr::NoSuchPeer && !db@.peer_exists(peer_id),
        },
{
    let addr = match db.get_peer_addr(peer_id) {
        Ok(a) => a,
        Err(e) => {
            return Err(e);
        },
    };
    Ok(UiOutcome { response: None, refresh: None, outbound: Some(Outbound::Ping(addr, peer_id)) })
}

/// Allocates a peer-id and asks the transport to propose a connection
/// under it; the store is touched only when the peer's acceptance comes
/// back, through [`apply_accept_connection`].
pub fn ui_establish(seq: &mut IdSequence, peer_addr: NetAddr) -> (r: Result<UiOutcome, DbErr>)
    requires
        old(seq).wf(),
    ensures
        final(seq).wf(),
        final(seq).seed_base == old(seq).seed_base,
        final(seq).seed_offset == old(seq).seed_offset,
        match r {
            Ok(out) => {
                &&& old(seq).n < 0x1_0000_0000
                &&& final(seq).n == old(seq).n + 1
                &&& out.response is None
                &&& out.refresh is None
                &&& out.outbound matches Some(Outbound::Propose(a, id)) && a == peer_addr && id
                    == seq_element(old(seq).seed_base, old(seq).seed_offset, old(seq).n as u32)
            },
            Err(e) => e == DbErr::NoAvailableId && old(seq).n == 0x1_0000_0000 && *final(seq)
                == *old(seq),
        },
{
    let id = match seq.generate_peer_id() {
        Ok(id) => id,
        Err(e) => {
            return Err(e);
        },
    };
    Ok(
        UiOutcome {
            response: None,
            refresh: None,
            outbound: Some(Outbound::Propose(peer_addr, id)),
        },
    )
}

/// Stores the connection a peer accepted: the row pairs the id this
/// node allocated with the id the peer assigned, and a `Connection`
/// refresh tells the front-end to re-query.
pub fn apply_accept_connection(
    db: &mut DbConn,
    allocated_peer_id: u32,
    self_id: u32,
    peer_name: String,
    peer_addr: NetAddr,
) -> (r: Result<(u32, Option<RefreshRequest>), DbErr>)
    requires
        old(db)@.wf(),
    ensures
        final(db)@.wf(),
        match r {
            Ok((id, refresh)) => {
                &&& peer_name@.len() > 0
                &&& !old(db)@.peer_exists(allocated_peer_id)
                &&& id == old(db)@.connections.len() + 1
                &&& final(db)@.connections.len() == old(db)@.connections.len() + 1
                &&& ({
                    let c = final(db)@.connections.last();
                    &&& c.peer_id == allocated_peer_id
                    &&& c.self_id == self_id
                    &&& c.peer_name == peer_name@
                    &&& c.peer_addr == peer_addr
                    &&& c.online == true
                })
                &&& final(db)@.connections.drop_last() == old(db)@.connections
                &&& final(db)@.messages == old(db)@.messages
                &&& final(db)@.files == old(db)@.files
                &&& refresh == Some(RefreshRequest::Connection)
            },
            Err(e) => {
                &&& final(db)@ == old(db)@
                &&& (e == DbErr::InvalidPeerName || e == DbErr::DuplicatePeerId
                    || e == DbErr::NoAvailableId)
                &&& (e == DbErr::InvalidPeerName <==> peer_name@.len() == 0)
                &&& (e == DbErr::DuplicatePeerId <==> peer_name@.len() > 0 && old(
                    db,
                )@.peer_exists(allocated_peer_id))
                &&& (e == DbErr::NoAvailableId ==> old(db)@.connections.len() + 2 > 0xFFFF_FFFF)
            },
        },
{
    if peer_name.as_str().is_empty() {
        return Err(DbErr::InvalidPeerName);
    }
    let c = Connection::new(allocated_peer_id, self_id, peer_name, peer_addr);
    let ghost prev = db@;
    let id = match db.insert_connection(c) {
        Ok(id) => id,
        Err(e) => {
            return Err(e);
        },
    };
    proof {
        assert(final(db)@.connections.drop_last() =~= prev.connections);
    }
    Ok((id, Some(RefreshRequest::Connection)))
}

/// Whether a delivery reply acknowledges exactly the ids that were
/// sent: a single send expects `Recieved` of its one id, a bulk send
/// expects `BulkRecieved` of its ids in order.
pub open spec fn spec_delivery_matches(expected: Seq<u32>, resp: PeerToPeerResponse) -> bool {
    match resp {
        PeerToPeerResponse::Recieved(id) => expected == seq![id],
        PeerToPeerResponse::BulkRecieved(ids) => expected == ids@,
        _ => false,
    }
}

/// Applies a delivery reply: a reply that acknowledges exactly the sent
/// ids marks them received; any other reply changes nothing and the
/// messages stay pending, eligible for the next retry.
pub fn apply_delivery_response(
    db: &mut DbConn,
    expected: &Vec<u32>,
    resp: &PeerToPeerResponse,
    now: Timestamp,
) -> (r: bool)
    requires
        old(db)@.wf(),
        now.wf(),
    ensures
        final(db)@.wf(),
        r == spec_delivery_matches(expected@, *resp),
        r ==> final(db)@ == crate::store::spec_bulk_mark(old(db)@, expected@, now),
        !r ==> final(db)@ == old(db)@,
{
    match resp {
        PeerToPeerResponse::Recieved(id) => {
            if expected.len() == 1 && expected[0] == *id {
                proof {
                    assert(expected@ =~= seq![*id]);
                }
                db.bulk_mark_as_recieved(expected, now);
                true
            } else {
                proof {
                    assert(expected@ != seq![*id]);
                }
                false
            }
        },
        PeerToPeerResponse::BulkRecieved(ids) => {
            if ids_equal(expected, ids) {
                db.bulk_mark_as_recieved(expected, now);
                true
            } else {
                false
            }
        },
        _ => false,
    }
}

/// Whether two id lists hold the same ids in the same order.
fn ids_equal(a: &Vec<u32>, b: &Vec<u32>) -> (r: bool)
    ensures
        r == (a@ == b@),
{
    if a.len() != b.len() {
        proof {
            assert(a@ != b@);
        }
        return false;
    }
    let mut i: usize = 0;
    while i < a.len()
        invariant
            a@.len() == b@.len(),
            i <= a@.len(),
            forall|j: int| 0 <= j < i ==> a@[j] == b@[j],
        decreases a.len() - i,
    {
        if a[i] != b[i] {
            proof {
                assert(a@ != b@);
            }
            return false;
        }
        i += 1;
    }
    proof {
        assert(a@ =~= b@);
    }
    true
}

/// Serves one front-end request, as §the UI protocol says: listing
/// requests answer from the store, `MessagePeer` stores then delivers,
/// `RetryUnrecieved` collects pending rows for one bulk send,
/// `PingPeer` probes, `EstablishPeerConnection` allocates and proposes,
/// `KillRefresher` pushes the kill signal, and a repeated
/// `LinkingRequest` is answered `InvalidRequest` and changes nothing.
pub fn handle_frontend_request(
    db: &mut DbConn,
    seq: &mut IdSequence,
    req: &BackendToFrontendRequest,
    now: Timestamp,
) -> (r: Result<UiOutcome, DbErr>)
    requires
        old(db)@.wf(),
        old(seq).wf(),
        now.wf(),
        *req matches BackendToFrontendRequest::ListMessages(_, s, u) ==> s.wf() && u.wf(),
    ensures
        final(db)@.wf(),
        final(seq).wf(),
        match *req {
            BackendToFrontendRequest::LinkingRequest => r matches Ok(out) && final(db)@ == old(
                db,
            )@ && *final(seq) == *old(seq) && out.response == Some(
                BackendToFrontendResponse::InvalidRequest,
            ) && out.refresh is None && out.outbound is None,
            BackendToFrontendRequest::ListPeerConnections => r matches Ok(out) && final(db)@
                == old(db)@ && *final(seq) == *old(seq) && (out.response matches Some(
                BackendToFrontendResponse::PeerConnectionsListed(v),
            ) && conn_views(v@) == old(db)@.connections) && out.refresh is None && out.outbound
                is None,
            BackendToFrontendRequest::ListMessages(pid, since, until) => r matches Ok(out)
                && final(db)@ == old(db)@ && *final(seq) == *old(seq) && (out.response matches Some(
                BackendToFrontendResponse::MessagesListed(v),
            ) && msg_views(v@) == old(db)@.spec_get_messages(pid, since, until)) && out.refresh
                is None && out.outbound is None,
            BackendToFrontendRequest::MessagePeer((pid, ref c)) => {
                &&& *final(seq) == *old(seq)
                &&& match r {
                    Ok(out) => {
                        &&& final(db)@ == old(db)@.spec_new_message(pid, c@, now)
                        &&& out.response is None
                        &&& out.refresh == Some(RefreshRequest::Message)
                        &&& (out.outbound matches Some(Outbound::SendMessage(a, p2, m)) && a == old(
                            db,
                        )@.conn_of_peer(pid).peer_addr && p2 == pid && m@.content == c@
                            && m@.message_id == max_message_id(old(db)@.messages) + 1
                            && m@.time_recieved is None && m@.time_sent == now)
                    },
                    Err(e) => final(db)@ == old(db)@ && (e == DbErr::NoSuchPeer
                        || e == DbErr::NoAvailableId) && (e == DbErr::NoSuchPeer <==> !old(
                        db,
                    )@.peer_exists(pid)) && (e == DbErr::NoAvailableId ==> max_message_id(
                        old(db)@.messages,
                    ) >= 0xFFFF_FFFF),
                }
            },
            BackendToFrontendRequest::RetryUnrecieved(pid) => {
                &&& final(db)@ == old(db)@
                &&& *final(seq) == *old(seq)
                &&& match r {
                    Ok(out) => {
                        &&& old(db)@.peer_exists(pid)
                        &&& out.response is None
                        &&& out.refresh is None
                        &&& (old(db)@.conn_of_peer(pid).online ==> (out.outbound matches Some(
                            Outbound::SendBulk(a, p2, v),
                        ) && a == old(db)@.conn_of_peer(pid).peer_addr && p2 == pid && msg_views(
                            v@,
                        ) == old(db)@.spec_get_unrecieved(pid)))
                        &&& (!old(db)@.conn_of_peer(pid).online ==> out.outbound is None)
                    },
                    Err(e) => e == DbErr::NoSuchPeer && !old(db)@.peer_exists(pid),
                }
            },
            BackendToFrontendRequest::PingPeer(pid) => {
                &&& final(db)@ == old(db)@
                &&& *final(seq) == *old(seq)
                &&& match r {
                    Ok(out) => out.response is None && out.refresh is None && (out.outbound
                        matches Some(Outbound::Ping(a, p2)) && a == old(db)@.conn_of_peer(
                        pid,
                    ).peer_addr && p2 == pid),
                    Err(e) => e == DbErr::NoSuchPeer && !old(db)@.peer_exists(pid),
                }
            },
            BackendToFrontendRequest::EstablishPeerConnection(addr) => {
                &&& final(db)@ == old(db)@
                &&& match r {
                    Ok(out) => {
                        &&& final(seq).n == old(seq).n + 1
                        &&& out.response is None
                        &&& out.refresh is None
                        &&& (out.outbound matches Some(Outbound::Propose(a, id)) && a == addr && id
                            == seq_element(
                            old(seq).seed_base,
                            old(seq).seed_offset,
                            old(seq).n as u32,
                        ))
                    },
                    Err(e) => e == DbErr::NoAvailableId && old(seq).n == 0x1_0000_0000
                        && *final(seq) == *old(seq),
                }
            },
            BackendToFrontendRequest::KillRefresher => r matches Ok(out) && final(db)@ == old(
                db,
            )@ && *final(seq) == *old(seq) && out.response is None && out.refresh == Some(
                RefreshRequest::Kill,
            ) && out.outbound is None,
        },
{
    match req {
        BackendToFrontendRequest::LinkingRequest => Ok(
            UiOutcome {
                response: Some(BackendToFrontendResponse::InvalidRequest),
                refresh: None,
                outbound: None,
            },
        ),
        BackendToFrontendRequest::ListPeerConnections => Ok(
            UiOutcome { response: Some(ui_list_connections(db)), refresh: None, outbound: None },
        ),
        BackendToFrontendRequest::ListMessages(pid, since, until) => Ok(
            UiOutcome {
                response: Some(ui_list_messages(db, *pid, *since, *until)),
                refresh: None,
                outbound: None,
            },
        ),
        BackendToFrontendRequest::MessagePeer((pid, c)) => ui_message_peer(db, *pid, c, now),
        BackendToFrontendRequest::RetryUnrecieved(pid) => ui_retry_unrecieved(db, *pid),
        BackendToFrontendRequest::PingPeer(pid) => ui_ping_peer(db, *pid),
        BackendToFrontendRequest::EstablishPeerConnection(addr) => ui_establish(seq, *addr),
        BackendToFrontendRequest::KillRefresher => Ok(
            UiOutcome { response: None, refresh: Some(RefreshRequest::Kill), outbound: None },
        ),
    }
}

/// Whether the attached-front-end slot is taken.
#[derive(Debug, Clone, Copy, PartialEq, Eq, Structural)]
pub enum LinkState {
    Unlinked,
    Linked,
}

/// The dispatcher's answer to a `LinkingRequest`.
#[derive(Debug, Clone, Copy, PartialEq, Eq, Structural)]
pub enum LinkDecision {
    /// Take the socket as the attached front-end and reply `Ok`.
    Accept,
    /// Keep the present link, reply `Err` and close the new socket.
    RejectBusy,
}

/// Decides a `LinkingRequest`: an unlinked backend accepts and becomes
/// linked; a linked backend stays linked and rejects the newcomer.
pub fn link_request(state: LinkState) -> (r: (LinkState, LinkDecision))
    ensures
        state == LinkState::Unlinked ==> r == (LinkState::Linked, LinkDecision::Accept),
        state == LinkState::Linked ==> r == (LinkState::Linked, LinkDecision::RejectBusy),
{
    match state {
        LinkState::Unlinked => (LinkState::Linked, LinkDecision::Accept),
        LinkState::Linked => (LinkState::Linked, LinkDecision::RejectBusy),
    }
}

/// Loss of the front-end link -- end of stream, reset, or an explicit
/// kill -- always leaves the backend unlinked.
pub fn link_lost(state: LinkState) -> (r: LinkState)
    ensures
        r == LinkState::Unlinked,
{
    let _ = state;
    LinkState::Unlinked
}

/// The reason handed to a rejected second front-end, naming the address
/// of the one already served.
pub fn busy_reason(addr: &str) -> (r: String)
    ensures
        r@ == "already serving a frontend at "@ + addr@,
{
    let mut s = String::from_str("already serving a frontend at ");
    s.append(addr);
    s
}

} // verus!
