//! The data model shared by the store and the wire protocol.
//!
//! Socket addresses and timestamps are held as plain values of the
//! crate's own types; the transport layer converts at the edge.  Each
//! type with text or blob fields has a mathematical view over which the
//! contracts of the store and the codec are stated.

use vstd::prelude::*;
use crate::timestamp::Timestamp;

verus! {

/// An IPv4 socket address, the `host:port` of a peer or of this node.
#[derive(Debug, Clone, Copy, PartialEq, Eq, Structural)]
pub struct NetAddr {
    pub ip0: u8,
    pub ip1: u8,
    pub ip2: u8,
    pub ip3: u8,
    pub port: u16,
}

/// What a message carries: UTF-8 text, or a named file blob.
#[derive(Debug, PartialEq, Eq)]
pub enum MessageContent {
    Text(String),
    File((String, Vec<u8>)),
}

/// The mathematical value of a [`MessageContent`].
pub enum ContentView {
    Text(Seq<char>),
    File(Seq<char>, Seq<u8>),
}

impl View for MessageContent {
    type V = ContentView;

    open spec fn view(&self) -> ContentView {
        match self {
            MessageContent::Text(s) => ContentView::Text(s@),
            MessageContent::File((name, blob)) => ContentView::File(name@, blob@),
        }
    }
}

impl Clone for MessageContent {
    fn clone(&self) -> (r: Self)
        ensures
            r@ == self@,
    {
        match self {
            MessageContent::Text(s) => MessageContent::Text(s.clone()),
            MessageContent::File((name, blob)) => {
                let b = blob.clone();
                proof {
                    assert(b@ =~= blob@);
                }
                MessageContent::File((name.clone(), b))
            },
        }
    }
}

/// One delivered or pending message, as exchanged on the wire and
/// reconstructed from the store.
#[derive(Debug, PartialEq, Eq)]
pub struct Message {
    /// Allocated by the sender; unique per sender.
    pub message_id: u32,
    /// The sender's identity in the recipient's directory.
    pub self_id: u32,
    /// The recipient's identity in the sender's directory.
    pub peer_id: u32,
    pub time_sent: Timestamp,
    pub time_recieved: Option<Timestamp>,
    pub content: MessageContent,
}

/// The mathematical value of a [`Message`].
pub struct MessageView {
    pub message_id: u32,
    pub self_id: u32,
    pub peer_id: u32,
    pub time_sent: Timestamp,
    pub time_recieved: Option<Timestamp>,
    pub content: ContentView,
}

impl View for Message {
    type V = MessageView;

    open spec fn view(&self) -> MessageView {
        MessageView {
            message_id: self.message_id,
            self_id: self.self_id,
            peer_id: self.peer_id,
            time_sent: self.time_sent,
            time_recieved: self.time_recieved,
            content: self.content@,
        }
    }
}

impl Clone for Message {
    fn clone(&self) -> (r: Self)
        ensures
            r@ == self@,
    {
        Message {
            message_id: self.message_id,
            self_id: self.self_id,
            peer_id: self.peer_id,
            time_sent: self.time_sent,
            time_recieved: self.time_recieved,
            content: self.content.clone(),
        }
    }
}

/// A known remote peer.
#[derive(Debug, PartialEq, Eq)]
pub struct Connection {
    /// Allocated by whichever side originated the link; unique locally.
    pub peer_id: u32,
    /// Assigned by the peer; identifies this node in the peer's directory.
    pub self_id: u32,
    pub peer_name: String,
    pub peer_addr: NetAddr,
    /// Last reachability observation.
    pub online: bool,
    pub time_established: Timestamp,
}

/// The mathematical value of a [`Connection`].
pub struct ConnectionView {
    pub peer_id: u32,
    pub self_id: u32,
    pub peer_name: Seq<char>,
    pub peer_addr: NetAddr,
    pub online: bool,
    pub time_established: Timestamp,
}

impl View for Connection {
    type V = ConnectionView;

    open spec fn view(&self) -> ConnectionView {
        ConnectionView {
            peer_id: self.peer_id,
            self_id: self.self_id,
            peer_name: self.peer_name@,
            peer_addr: self.peer_addr,
            online: self.online,
            time_established: self.time_established,
        }
    }
}

impl Connection {
    /// A display name is never empty and the timestamp is in range.
    pub open spec fn wf(self) -> bool {
        &&& self.peer_name@.len() > 0
        &&& self.time_established.wf()
    }

    /// A fresh connection row: online, established now.
    pub fn new(peer_id: u32, self_id: u32, peer_name: String, peer_addr: NetAddr) -> (r: Self)
        ensures
            r.peer_id == peer_id,
            r.self_id == self_id,
            r.peer_name == peer_name,
            r.peer_addr == peer_addr,
            r.online == true,
            r.time_established.wf(),
    {
        Connection {
            peer_id,
            self_id,
            peer_name,
            peer_addr,
            online: true,
            time_established: crate::timestamp::get_now(),
        }
    }
}

impl Clone for Connection {
    fn clone(&self) -> (r: Self)
        ensures
            r@ == self@,
    {
        Connection {
            peer_id: self.peer_id,
            self_id: self.self_id,
            peer_name: self.peer_name.clone(),
            peer_addr: self.peer_addr,
            online: self.online,
            time_established: self.time_established,
        }
    }
}

/// Asynchronous invalidation signals pushed to the attached front-end.
#[derive(Debug, Clone, Copy, PartialEq, Eq, Structural)]
pub enum RefreshRequest {
    Connection,
    Message,
    Kill,
}

/// The first frame on every socket declares the socket's role.
#[derive(Debug, PartialEq, Eq)]
pub enum InitialRequest {
    Frontend(BackendToFrontendRequest),
    Peer(PeerToPeerRequest),
}

/// A request from the attached front-end to the backend.
#[derive(Debug, PartialEq, Eq)]
pub enum BackendToFrontendRequest {
    LinkingRequest,
    EstablishPeerConnection(NetAddr),
    ListMessages(u32, Timestamp, Timestamp),
    ListPeerConnections,
    MessagePeer((u32, MessageContent)),
    RetryUnrecieved(u32),
    PingPeer(u32),
    KillRefresher,
}

/// A response from the backend to the attached front-end.
#[derive(Debug, PartialEq, Eq)]
pub enum BackendToFrontendResponse {
    LinkingResult(Result<(), String>),
    PeerConnectionsListed(Vec<Connection>),
    MessagesListed(Vec<Message>),
    InvalidRequest,
}

/// A single-shot request between two peer nodes.
#[derive(Debug, PartialEq, Eq)]
pub enum PeerToPeerRequest {
    ProposeConnection(u32, String, NetAddr),
    Message(Message),
    BulkMessage(Vec<Message>),
}

/// The reply to a [`PeerToPeerRequest`].
#[derive(Debug, PartialEq, Eq)]
pub enum PeerToPeerResponse {
    AcceptConnection(u32, String, NetAddr),
    Recieved(u32),
    BulkRecieved(Vec<u32>),
}

/// The mathematical value of an [`InitialRequest`].
pub enum InitialRequestView {
    Frontend(B2FRequestView),
    Peer(P2PRequestView),
}

impl View for InitialRequest {
    type V = InitialRequestView;

    open spec fn view(&self) -> InitialRequestView {
        match self {
            InitialRequest::Frontend(r) => InitialRequestView::Frontend(r@),
            InitialRequest::Peer(r) => InitialRequestView::Peer(r@),
        }
    }
}

/// The mathematical value of a [`BackendToFrontendRequest`].
pub enum B2FRequestView {
    LinkingRequest,
    EstablishPeerConnection(NetAddr),
    ListMessages(u32, Timestamp, Timestamp),
    ListPeerConnections,
    MessagePeer(u32, ContentView),
    RetryUnrecieved(u32),
    PingPeer(u32),
    KillRefresher,
}

impl View for BackendToFrontendRequest {
    type V = B2FRequestView;

    open spec fn view(&self) -> B2FRequestView {
        match self {
            BackendToFrontendRequest::LinkingRequest => B2FRequestView::LinkingRequest,
            BackendToFrontendRequest::EstablishPeerConnection(a) => B2FRequestView::EstablishPeerConnection(*a),
            BackendToFrontendRequest::ListMessages(p, s, u) => B2FRequestView::ListMessages(*p, *s, *u),
            BackendToFrontendRequest::ListPeerConnections => B2FRequestView::ListPeerConnections,
            BackendToFrontendRequest::MessagePeer((p, c)) => B2FRequestView::MessagePeer(*p, c@),
            BackendToFrontendRequest::RetryUnrecieved(p) => B2FRequestView::RetryUnrecieved(*p),
            BackendToFrontendRequest::PingPeer(p) => B2FRequestView::PingPeer(*p),
            BackendToFrontendRequest::KillRefresher => B2FRequestView::KillRefresher,
        }
    }
}

/// The mathematical value of a [`BackendToFrontendResponse`].
pub enum B2FResponseView {
    LinkingResult(Result<(), Seq<char>>),
    PeerConnectionsListed(Seq<ConnectionView>),
    MessagesListed(Seq<MessageView>),
    InvalidRequest,
}

impl View for BackendToFrontendResponse {
    type V = B2FResponseView;

    open spec fn view(&self) -> B2FResponseView {
        match self {
            BackendToFrontendResponse::LinkingResult(r) => B2FResponseView::LinkingResult(
                match r {
                    Ok(_) => Ok(()),
                    Err(e) => Err(e@),
                },
            ),
            BackendToFrontendResponse::PeerConnectionsListed(v) => B2FResponseView::PeerConnectionsListed(
                v@.map_values(|c: Connection| c@),
            ),
            BackendToFrontendResponse::MessagesListed(v) => B2FResponseView::MessagesListed(
                v@.map_values(|m: Message| m@),
            ),
            BackendToFrontendResponse::InvalidRequest => B2FResponseView::InvalidRequest,
        }
    }
}

/// The mathematical value of a [`PeerToPeerRequest`].
pub enum P2PRequestView {
    ProposeConnection(u32, Seq<char>, NetAddr),
    Message(MessageView),
    BulkMessage(Seq<MessageView>),
}

impl View for PeerToPeerRequest {
    type V = P2PRequestView;

    open spec fn view(&self) -> P2PRequestView {
        match self {
            PeerToPeerRequest::ProposeConnection(id, n, a) => P2PRequestView::ProposeConnection(
                *id,
                n@,
                *a,
            ),
            PeerToPeerRequest::Message(m) => P2PRequestView::Message(m@),
            PeerToPeerRequest::BulkMessage(v) => P2PRequestView::BulkMessage(
                v@.map_values(|m: Message| m@),
            ),
        }
    }
}

/// The mathematical value of a [`PeerToPeerResponse`].
pub enum P2PResponseView {
    AcceptConnection(u32, Seq<char>, NetAddr),
    Recieved(u32),
    BulkRecieved(Seq<u32>),
}

impl View for PeerToPeerResponse {
    type V = P2PResponseView;

    open spec fn view(&self) -> P2PResponseView {
        match self {
            PeerToPeerResponse::AcceptConnection(id, n, a) => P2PResponseView::AcceptConnection(
                *id,
                n@,
                *a,
            ),
            PeerToPeerResponse::Recieved(id) => P2PResponseView::Recieved(*id),
            PeerToPeerResponse::BulkRecieved(v) => P2PResponseView::BulkRecieved(v@),
        }
    }
}

} // verus!
