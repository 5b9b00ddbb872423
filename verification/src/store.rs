//! The relational store of connections, messages and file blobs.
//!
//! [`DbConn`] holds the store's state as three in-memory tables and is
//! the single authority on what every operation does to them; contracts
//! are stated over [`DbView`], the store's mathematical value.  The
//! embedded database and the blob directory that make this state durable
//! live at the edge of the process, which mirrors each operation and
//! hands rows back in as plain values.
//!
//! The store's invariant [`DbView::wf`] carries the data-model laws:
//! `peer_id` is unique across connection rows, a message's
//! `time_recieved` is absent or at or after its `time_sent`, every
//! file-bearing message names a blob the file table holds, and
//! `message_id` is unique across message rows.

use vstd::prelude::*;
use vstd::pervasive::VecAdditionalExecFns;
use vstd::utf8::{decode_utf8, encode_utf8, valid_utf8};
use crate::proto::{Connection, ConnectionView, ContentView, Message, MessageContent, MessageView, NetAddr};
use crate::strutf8::{bytes_to_string, str_to_bytes};
use crate::timestamp::Timestamp;

verus! {

broadcast use vstd::utf8::encode_utf8_valid_utf8, vstd::utf8::encode_utf8_decode_utf8;

/// Failures of store operations.
#[derive(Debug, Clone, Copy, PartialEq, Eq, Structural)]
pub enum DbErr {
    /// No connection row carries the named peer-id.
    NoSuchPeer,
    /// No connection row carries the named connection-id.
    NoSuchConnection,
    /// A connection with this peer-id is already stored.
    DuplicatePeerId,
    /// A message with this message-id is already stored.
    DuplicateMessageId,
    /// A content-type cell held neither `TEXT` nor `FILE`.
    InvalidMessageContentType,
    /// A text cell held bytes that are not UTF-8.
    InvalidUtf8,
    /// A file-bearing message names a blob the file storage lacks.
    MissingFile,
    /// A timestamp cell did not parse.
    InvalidTimestamp,
    /// A proposed display name is empty.
    InvalidPeerName,
    /// No identifier is left to allocate.
    NoAvailableId,
}

/// Which of the two content forms a message row stores.
#[derive(Debug, Clone, Copy, PartialEq, Eq, Structural)]
pub enum ContentKind {
    Text,
    File,
}

/// One row of the message table.  `content` is the UTF-8 text itself for
/// a text message, and the UTF-8 basename of the stored blob for a file
/// message.
#[derive(Debug)]
pub struct MessageRow {
    pub message_id: u32,
    /// One-based index of the owning connection row.
    pub connection_id: u32,
    pub time_sent: Timestamp,
    pub time_recieved: Option<Timestamp>,
    pub content_kind: ContentKind,
    pub content: Vec<u8>,
}

/// The mathematical value of a [`MessageRow`].
#[verifier::ext_equal]
pub struct RowView {
    pub message_id: u32,
    pub connection_id: u32,
    pub time_sent: Timestamp,
    pub time_recieved: Option<Timestamp>,
    pub content_kind: ContentKind,
    pub content: Seq<u8>,
}

impl View for MessageRow {
    type V = RowView;

    open spec fn view(&self) -> RowView {
        RowView {
            message_id: self.message_id,
            connection_id: self.connection_id,
            time_sent: self.time_sent,
            time_recieved: self.time_recieved,
            content_kind: self.content_kind,
            content: self.content@,
        }
    }
}

/// One named blob of the file storage directory.
#[derive(Debug)]
pub struct FileBlob {
    pub name: String,
    pub data: Vec<u8>,
}

/// The mathematical value of a [`FileBlob`].
#[verifier::ext_equal]
pub struct FileView {
    pub name: Seq<char>,
    pub data: Seq<u8>,
}

impl View for FileBlob {
    type V = FileView;

    open spec fn view(&self) -> FileView {
        FileView { name: self.name@, data: self.data@ }
    }
}

/// The mathematical value of the whole store.
#[verifier::ext_equal]
pub struct DbView {
    pub connections: Seq<ConnectionView>,
    pub messages: Seq<RowView>,
    pub files: Seq<FileView>,
}

/// A connection row's own invariant: a non-empty name, a timestamp in
/// range.
pub open spec fn conn_wf(c: ConnectionView) -> bool {
    &&& c.peer_name.len() > 0
    &&& c.time_established.wf()
}

/// The kind under which a content value is stored.
pub open spec fn kind_of(c: ContentView) -> ContentKind {
    match c {
        ContentView::Text(_) => ContentKind::Text,
        ContentView::File(_, _) => ContentKind::File,
    }
}

/// The bytes of a content value's table cell.
pub open spec fn cell_of(c: ContentView) -> Seq<u8> {
    match c {
        ContentView::Text(s) => encode_utf8(s),
        ContentView::File(name, _) => encode_utf8(name),
    }
}

/// The time a message marked received now gets: `now`, clamped so it
/// never precedes the send time.
pub open spec fn spec_received_at(sent: Timestamp, now: Timestamp) -> Timestamp {
    if sent.spec_le(now) {
        now
    } else {
        sent
    }
}

/// Some entry of the file table carries this name.
pub open spec fn seq_has_file(files: Seq<FileView>, name: Seq<char>) -> bool {
    exists|i: int| 0 <= i < files.len() && (#[trigger] files[i].name) == name
}

/// The index of the entry carrying this name.
pub open spec fn seq_file_index(files: Seq<FileView>, name: Seq<char>) -> int {
    choose|i: int| 0 <= i < files.len() && (#[trigger] files[i].name) == name
}

/// The bytes of the entry carrying this name.
pub open spec fn seq_file_data(files: Seq<FileView>, name: Seq<char>) -> Seq<u8> {
    files[seq_file_index(files, name)].data
}

/// The file table with `name` bound to `data`: an existing entry is
/// overwritten, a new name is appended.
pub open spec fn spec_put_file(files: Seq<FileView>, name: Seq<char>, data: Seq<u8>) -> Seq<
    FileView,
> {
    if seq_has_file(files, name) {
        files.update(seq_file_index(files, name), FileView { name, data })
    } else {
        files.push(FileView { name, data })
    }
}

/// The greatest message-id in use; 0 when the table is empty.
pub open spec fn max_message_id(rows: Seq<RowView>) -> int
    decreases rows.len(),
{
    if rows.len() == 0 {
        0
    } else {
        let m = max_message_id(rows.drop_last());
        if rows.last().message_id > m {
            rows.last().message_id as int
        } else {
            m
        }
    }
}

impl DbView {
    /// Some connection row carries this peer-id.
    pub open spec fn peer_exists(self, peer_id: u32) -> bool {
        exists|i: int|
            0 <= i < self.connections.len() && (#[trigger] self.connections[i].peer_id) == peer_id
    }

    /// The index of the connection row carrying this peer-id.
    pub open spec fn peer_index(self, peer_id: u32) -> int {
        choose|i: int|
            0 <= i < self.connections.len() && (#[trigger] self.connections[i].peer_id) == peer_id
    }

    /// The connection row carrying this peer-id.
    pub open spec fn conn_of_peer(self, peer_id: u32) -> ConnectionView {
        self.connections[self.peer_index(peer_id)]
    }

    /// Some message row carries this message-id.
    pub open spec fn msg_exists(self, message_id: u32) -> bool {
        exists|k: int|
            0 <= k < self.messages.len() && (#[trigger] self.messages[k].message_id) == message_id
    }

    /// The index of the message row carrying this message-id.
    pub open spec fn msg_index(self, message_id: u32) -> int {
        choose|k: int|
            0 <= k < self.messages.len() && (#[trigger] self.messages[k].message_id) == message_id
    }

    /// Some blob of this name is stored.
    pub open spec fn has_file(self, name: Seq<char>) -> bool {
        seq_has_file(self.files, name)
    }

    /// The bytes of the blob of this name.
    pub open spec fn file_at(self, name: Seq<char>) -> Seq<u8> {
        seq_file_data(self.files, name)
    }

    /// A message row's own invariant: it belongs to a connection row, its
    /// times are in range and ordered, its cell is UTF-8, and a file row
    /// names a stored blob.
    pub open spec fn row_wf(self, row: RowView) -> bool {
        &&& 1 <= row.connection_id <= self.connections.len()
        &&& row.time_sent.wf()
        &&& (row.time_recieved matches Some(t) ==> t.wf() && row.time_sent.spec_le(t))
        &&& valid_utf8(row.content)
        &&& (row.content_kind == ContentKind::File ==> self.has_file(decode_utf8(row.content)))
    }

    /// The store's invariant.
    pub open spec fn wf(self) -> bool {
        &&& self.connections.len() < 0xFFFF_FFFF
        &&& (forall|i: int, j: int|
            #![trigger self.connections[i].peer_id, self.connections[j].peer_id]
            0 <= i < j < self.connections.len() ==> self.connections[i].peer_id
                != self.connections[j].peer_id)
        &&& (forall|i: int| 0 <= i < self.connections.len() ==> conn_wf(#[trigger] self.connections[i]))
        &&& (forall|k: int, l: int|
            #![trigger self.messages[k].message_id, self.messages[l].message_id]
            0 <= k < l < self.messages.len() ==> self.messages[k].message_id
                != self.messages[l].message_id)
        &&& (forall|k: int| 0 <= k < self.messages.len() ==> self.row_wf(#[trigger] self.messages[k]))
        &&& (forall|i: int, j: int|
            #![trigger self.files[i].name, self.files[j].name]
            0 <= i < j < self.files.len() ==> self.files[i].name != self.files[j].name)
    }

    /// The message a row denotes, joined with its connection row.
    pub open spec fn msg_of_row(self, row: RowView) -> MessageView {
        let conn = self.connections[row.connection_id - 1];
        MessageView {
            message_id: row.message_id,
            self_id: conn.self_id,
            peer_id: conn.peer_id,
            time_sent: row.time_sent,
            time_recieved: row.time_recieved,
            content: match row.content_kind {
                ContentKind::Text => ContentView::Text(decode_utf8(row.content)),
                ContentKind::File => ContentView::File(
                    decode_utf8(row.content),
                    self.file_at(decode_utf8(row.content)),
                ),
            },
        }
    }

    /// The row belongs to the connection row carrying `peer_id`.
    pub open spec fn row_for_peer(self, row: RowView, peer_id: u32) -> bool {
        &&& 1 <= row.connection_id <= self.connections.len()
        &&& self.connections[row.connection_id - 1].peer_id == peer_id
    }

    /// The predicate a row must pass to be listed by `get_messages`.
    pub open spec fn range_pred(self, peer_id: u32, since: Timestamp, until: Timestamp) -> spec_fn(
        RowView,
    ) -> bool {
        |row: RowView|
            self.row_for_peer(row, peer_id) && since.spec_le(row.time_sent)
                && row.time_sent.spec_le(until)
    }

    /// The predicate a row must pass to be listed by `get_unrecieved_for`.
    pub open spec fn pending_pred(self, peer_id: u32) -> spec_fn(RowView) -> bool {
        |row: RowView| self.row_for_peer(row, peer_id) && row.time_recieved is None
    }

    /// The join of a row with its connection row, as a function.
    pub open spec fn msg_mapper(self) -> spec_fn(RowView) -> MessageView {
        |row: RowView| self.msg_of_row(row)
    }

    /// What `get_messages` returns: the rows of the peer whose send time
    /// lies in the inclusive range, in table order, as messages.
    pub open spec fn spec_get_messages(
        self,
        peer_id: u32,
        since: Timestamp,
        until: Timestamp,
    ) -> Seq<MessageView> {
        self.messages.filter(self.range_pred(peer_id, since, until)).map_values(self.msg_mapper())
    }

    /// What `get_unrecieved_for` returns: the peer's pending rows, in
    /// table order, as messages.
    pub open spec fn spec_get_unrecieved(self, peer_id: u32) -> Seq<MessageView> {
        self.messages.filter(self.pending_pred(peer_id)).map_values(self.msg_mapper())
    }

    /// The store after `mark_as_recieved`: a pending row with this
    /// message-id has its received time set, once; any other state is
    /// unchanged.
    pub open spec fn spec_mark(self, message_id: u32, now: Timestamp) -> DbView {
        if self.msg_exists(message_id) {
            let k = self.msg_index(message_id);
            let row = self.messages[k];
            if row.time_recieved is None {
                DbView {
                    messages: self.messages.update(
                        k,
                        RowView {
                            time_recieved: Some(spec_received_at(row.time_sent, now)),
                            ..row
                        },
                    ),
                    ..self
                }
            } else {
                self
            }
        } else {
            self
        }
    }

    /// The store after `update_message_content`: the row carrying this
    /// message-id has its kind tag and cell replaced and a file
    /// content's blob is stored; any other state is unchanged.
    pub open spec fn spec_update_content(self, message_id: u32, content: ContentView) -> DbView {
        if self.msg_exists(message_id) {
            let k = self.msg_index(message_id);
            let row = self.messages[k];
            let mid = self.spec_store_blob(content);
            DbView {
                messages: mid.messages.update(
                    k,
                    RowView { content_kind: kind_of(content), content: cell_of(content), ..row },
                ),
                ..mid
            }
        } else {
            self
        }
    }

    /// The store after a content value's blob, if any, is written to the
    /// file storage.
    pub open spec fn spec_store_blob(self, content: ContentView) -> DbView {
        match content {
            ContentView::Text(_) => self,
            ContentView::File(name, data) => DbView {
                files: spec_put_file(self.files, name, data),
                ..self
            },
        }
    }

    /// The store after `new_message` on a present peer: the blob is
    /// stored and a fresh pending row is appended.
    pub open spec fn spec_new_message(
        self,
        peer_id: u32,
        content: ContentView,
        now: Timestamp,
    ) -> DbView {
        let mid = self.spec_store_blob(content);
        DbView {
            messages: mid.messages.push(
                RowView {
                    message_id: (max_message_id(self.messages) + 1) as u32,
                    connection_id: (self.peer_index(peer_id) + 1) as u32,
                    time_sent: now,
                    time_recieved: None,
                    content_kind: kind_of(content),
                    content: cell_of(content),
                },
            ),
            ..mid
        }
    }

    /// The store after `restore_message`: a durable row handed back in
    /// at startup, stored exactly as given.
    pub open spec fn spec_restore(
        self,
        message_id: u32,
        peer_id: u32,
        time_sent: Timestamp,
        time_recieved: Option<Timestamp>,
        content: ContentView,
    ) -> DbView {
        let mid = self.spec_store_blob(content);
        DbView {
            messages: mid.messages.push(
                RowView {
                    message_id,
                    connection_id: (self.peer_index(peer_id) + 1) as u32,
                    time_sent,
                    time_recieved,
                    content_kind: kind_of(content),
                    content: cell_of(content),
                },
            ),
            ..mid
        }
    }

    /// The store after `insert_message` on a present peer: the blob is
    /// stored and the sender's row is appended, received now.
    pub open spec fn spec_insert_message(self, msg: MessageView, now: Timestamp) -> DbView {
        let mid = self.spec_store_blob(msg.content);
        DbView {
            messages: mid.messages.push(
                RowView {
                    message_id: msg.message_id,
                    connection_id: (self.peer_index(msg.self_id) + 1) as u32,
                    time_sent: msg.time_sent,
                    time_recieved: Some(spec_received_at(msg.time_sent, now)),
                    content_kind: kind_of(msg.content),
                    content: cell_of(msg.content),
                },
            ),
            ..mid
        }
    }
}

/// The store after each listed id is marked received, in list order.
pub open spec fn spec_bulk_mark(db: DbView, ids: Seq<u32>, now: Timestamp) -> DbView
    decreases ids.len(),
{
    if ids.len() == 0 {
        db
    } else {
        spec_bulk_mark(db, ids.drop_last(), now).spec_mark(ids.last(), now)
    }
}

/// How many of the listed ids name a row when their turn to be marked
/// comes; a repeated id counts at each of its places.
pub open spec fn spec_bulk_mark_count(db: DbView, ids: Seq<u32>, now: Timestamp) -> int
    decreases ids.len(),
{
    if ids.len() == 0 {
        0
    } else {
        spec_bulk_mark_count(db, ids.drop_last(), now) + if spec_bulk_mark(
            db,
            ids.drop_last(),
            now,
        ).msg_exists(ids.last()) {
            1int
        } else {
            0int
        }
    }
}

/// The views of a vector of messages.
pub open spec fn msg_views(s: Seq<Message>) -> Seq<MessageView> {
    s.map_values(|m: Message| m@)
}

/// The views of a vector of connections.
pub open spec fn conn_views(s: Seq<Connection>) -> Seq<ConnectionView> {
    s.map_values(|c: Connection| c@)
}

/// One step of `Seq::filter`, from the back.
proof fn lemma_filter_push<A>(s: Seq<A>, x: A, pred: spec_fn(A) -> bool)
    ensures
        s.push(x).filter(pred) == if pred(x) {
            s.filter(pred).push(x)
        } else {
            s.filter(pred)
        },
{
    reveal(Seq::filter);
    assert(s.push(x).drop_last() =~= s);
    assert(s.push(x).last() == x);
}

/// A filter whose predicate rejects every element yields the empty
/// sequence.
proof fn lemma_filter_all_false<A>(s: Seq<A>, pred: spec_fn(A) -> bool)
    requires
        forall|i: int| 0 <= i < s.len() ==> !pred(#[trigger] s[i]),
    ensures
        s.filter(pred) == Seq::<A>::empty(),
    decreases s.len(),
{
    reveal(Seq::filter);
    if s.len() > 0 {
        assert(forall|i: int| 0 <= i < s.len() - 1 ==> s.drop_last()[i] == s[i]);
        lemma_filter_all_false(s.drop_last(), pred);
        assert(!pred(s.last()));
    }
}

/// No message-id in the table exceeds the table's maximum.
proof fn lemma_max_message_id_bound(rows: Seq<RowView>)
    ensures
        forall|k: int| 0 <= k < rows.len() ==> (#[trigger] rows[k].message_id) <= max_message_id(
            rows,
        ),
    decreases rows.len(),
{
    if rows.len() > 0 {
        lemma_max_message_id_bound(rows.drop_last());
        assert(forall|k: int| 0 <= k < rows.len() - 1 ==> rows[k] == rows.drop_last()[k]);
    }
}

/// What `spec_put_file` does to lookups: the named blob now holds `data`,
/// every other name is untouched, and names stay unique.
proof fn lemma_put_file(files: Seq<FileView>, name: Seq<char>, data: Seq<u8>)
    requires
        forall|i: int, j: int|
            #![trigger files[i].name, files[j].name]
            0 <= i < j < files.len() ==> files[i].name != files[j].name,
    ensures
        ({
            let fs2 = spec_put_file(files, name, data);
            &&& (forall|i: int, j: int|
                #![trigger fs2[i].name, fs2[j].name]
                0 <= i < j < fs2.len() ==> fs2[i].name != fs2[j].name)
            &&& seq_has_file(fs2, name)
            &&& seq_file_data(fs2, name) == data
            &&& (forall|n: Seq<char>| n != name ==> #[trigger] seq_has_file(fs2, n)
                == seq_has_file(files, n))
            &&& (forall|n: Seq<char>| n != name && seq_has_file(files, n)
                ==> #[trigger] seq_file_data(fs2, n) == seq_file_data(files, n))
        }),
{
    let fs2 = spec_put_file(files, name, data);
    if seq_has_file(files, name) {
        let i = seq_file_index(files, name);
        assert(fs2 =~= files.update(i, FileView { name, data }));
        assert(fs2[i].name == name);
        lemma_seq_file_index(fs2, i, name);
    } else {
        assert(fs2 =~= files.push(FileView { name, data }));
        assert(fs2[files.len() as int].name == name);
        lemma_seq_file_index(fs2, files.len() as int, name);
    }
    assert forall|n: Seq<char>| n != name implies #[trigger] seq_has_file(fs2, n) == seq_has_file(
        files,
        n,
    ) by {
        if seq_has_file(files, n) {
            let j = seq_file_index(files, n);
            assert(fs2[j].name == n);
        }
        if seq_has_file(fs2, n) {
            let j = seq_file_index(fs2, n);
            assert(files[j].name == n);
        }
    }
    assert forall|n: Seq<char>| n != name && seq_has_file(files, n) implies #[trigger] seq_file_data(
        fs2,
        n,
    ) == seq_file_data(files, n) by {
        let j = seq_file_index(files, n);
        assert(files[j].name == n);
        lemma_seq_file_index(fs2, j, n);
        assert(fs2[j] == files[j]);
    }
}

/// The entry index found by a linear scan over a name-unique file table
/// is the one `seq_file_index` denotes.
proof fn lemma_seq_file_index(files: Seq<FileView>, i: int, name: Seq<char>)
    requires
        forall|k: int, l: int|
            #![trigger files[k].name, files[l].name]
            0 <= k < l < files.len() ==> files[k].name != files[l].name,
        0 <= i < files.len(),
        files[i].name == name,
    ensures
        seq_has_file(files, name),
        seq_file_index(files, name) == i,
{
    assert(seq_has_file(files, name));
    let j = seq_file_index(files, name);
    assert(files[j].name == name);
    if i < j {
        assert(files[i].name != files[j].name);
    } else if j < i {
        assert(files[j].name != files[i].name);
    }
}

/// The row index found by a linear scan is the row [`DbView::peer_index`]
/// denotes, because peer-ids are unique.
proof fn lemma_peer_index(db: DbView, i: int, peer_id: u32)
    requires
        db.wf(),
        0 <= i < db.connections.len(),
        db.connections[i].peer_id == peer_id,
    ensures
        db.peer_exists(peer_id),
        db.peer_index(peer_id) == i,
{
    assert(db.peer_exists(peer_id));
    let j = db.peer_index(peer_id);
    assert(db.connections[j].peer_id == peer_id);
    if i < j {
        assert(db.connections[i].peer_id != db.connections[j].peer_id);
    } else if j < i {
        assert(db.connections[j].peer_id != db.connections[i].peer_id);
    }
}

/// The row index found by a linear scan is the row [`DbView::msg_index`]
/// denotes, because message-ids are unique.
proof fn lemma_msg_index(db: DbView, k: int, message_id: u32)
    requires
        db.wf(),
        0 <= k < db.messages.len(),
        db.messages[k].message_id == message_id,
    ensures
        db.msg_exists(message_id),
        db.msg_index(message_id) == k,
{
    assert(db.msg_exists(message_id));
    let l = db.msg_index(message_id);
    assert(db.messages[l].message_id == message_id);
    if k < l {
        assert(db.messages[k].message_id != db.messages[l].message_id);
    } else if l < k {
        assert(db.messages[l].message_id != db.messages[k].message_id);
    }
}

/// The store: the connection table, the message table, and the named
/// blobs of the file storage directory.
pub struct DbConn {
    connections: Vec<Connection>,
    messages: Vec<MessageRow>,
    files: Vec<FileBlob>,
}

impl View for DbConn {
    type V = DbView;

    closed spec fn view(&self) -> DbView {
        DbView {
            connections: self.connections@.map_values(|c: Connection| c@),
            messages: self.messages@.map_values(|r: MessageRow| r@),
            files: self.files@.map_values(|f: FileBlob| f@),
        }
    }
}

impl DbConn {
    /// An empty store.
    pub fn new() -> (r: Self)
        ensures
            r@.wf(),
            r@.connections.len() == 0,
            r@.messages.len() == 0,
            r@.files.len() == 0,
    {
        let r = DbConn { connections: Vec::new(), messages: Vec::new(), files: Vec::new() };
        proof {
            assert(r@.connections =~= Seq::<ConnectionView>::empty());
            assert(r@.messages =~= Seq::<RowView>::empty());
            assert(r@.files =~= Seq::<FileView>::empty());
        }
        r
    }

    /// The index of the connection row carrying `peer_id`, if any.
    fn find_peer(&self, peer_id: u32) -> (r: Option<usize>)
        ensures
            r matches Some(i) ==> i < self@.connections.len() && self@.connections[i as int].peer_id
                == peer_id,
            r is None ==> !self@.peer_exists(peer_id),
    {
        let mut i: usize = 0;
        while i < self.connections.len()
            invariant
                i <= self.connections.len(),
                forall|j: int| 0 <= j < i ==> (#[trigger] self@.connections[j].peer_id) != peer_id,
            decreases self.connections.len() - i,
        {
            if self.connections[i].peer_id == peer_id {
                return Some(i);
            }
            i += 1;
        }
        None
    }

    /// The index of the message row carrying `message_id`, if any.
    fn find_message(&self, message_id: u32) -> (r: Option<usize>)
        ensures
            r matches Some(k) ==> k < self@.messages.len() && self@.messages[k as int].message_id
                == message_id,
            r is None ==> !self@.msg_exists(message_id),
    {
        let mut k: usize = 0;
        while k < self.messages.len()
            invariant
                k <= self.messages.len(),
                forall|l: int| 0 <= l < k ==> (#[trigger] self@.messages[l].message_id)
                    != message_id,
            decreases self.messages.len() - k,
        {
            if self.messages[k].message_id == message_id {
                return Some(k);
            }
            k += 1;
        }
        None
    }

    /// The index of the blob named `name`, if any.
    fn find_file(&self, name: &String) -> (r: Option<usize>)
        ensures
            r matches Some(i) ==> i < self@.files.len() && self@.files[i as int].name == name@,
            r is None ==> !self@.has_file(name@),
    {
        let mut i: usize = 0;
        while i < self.files.len()
            invariant
                i <= self.files.len(),
                forall|j: int| 0 <= j < i ==> (#[trigger] self@.files[j].name) != name@,
            decreases self.files.len() - i,
        {
            if self.files[i].name == *name {
                return Some(i);
            }
            i += 1;
        }
        None
    }

    /// Stores a new connection row.  The new row's `connection_id` is
    /// returned; a peer-id already present is refused, which keeps
    /// peer-ids unique across the table.
    pub fn insert_connection(&mut self, connection: Connection) -> (r: Result<u32, DbErr>)
        requires
            old(self)@.wf(),
            connection.wf(),
        ensures
            final(self)@.wf(),
            match r {
                Ok(id) => {
                    &&& !old(self)@.peer_exists(connection.peer_id)
                    &&& id == old(self)@.connections.len() + 1
                    &&& final(self)@.connections == old(self)@.connections.push(connection@)
                    &&& final(self)@.messages == old(self)@.messages
                    &&& final(self)@.files == old(self)@.files
                },
                Err(e) => {
                    &&& final(self)@ == old(self)@
                    &&& (e == DbErr::DuplicatePeerId || e == DbErr::NoAvailableId)
                    &&& (e == DbErr::DuplicatePeerId <==> old(self)@.peer_exists(
                        connection.peer_id,
                    ))
                    &&& (e == DbErr::NoAvailableId ==> old(self)@.connections.len() + 2
                        > 0xFFFF_FFFF)
                },
            },
    {
        match self.find_peer(connection.peer_id) {
            Some(i) => {
                proof {
                    lemma_peer_index(self@, i as int, connection.peer_id);
                }
                Err(DbErr::DuplicatePeerId)
            },
            None => {
                if self.connections.len() >= 0xFFFF_FFFE {
                    return Err(DbErr::NoAvailableId);
                }
                let id = self.connections.len() as u32 + 1;
                let ghost prev = self@;
                self.connections.push(connection);
                proof {
                    assert(self@.connections =~= prev.connections.push(connection@));
                    assert(self@.messages =~= prev.messages);
                    assert(self@.files =~= prev.files);
                    assert forall|k: int| 0 <= k < self@.messages.len() implies self@.row_wf(
                        #[trigger] self@.messages[k],
                    ) by {
                        assert(prev.row_wf(prev.messages[k]));
                    }
                }
                Ok(id)
            },
        }
    }

    /// The connection row with this `connection_id`, or
    /// [`DbErr::NoSuchConnection`] exactly when the id names no row.
    pub fn get_connection(&self, connection_id: u32) -> (r: Result<Connection, DbErr>)
        ensures
            match r {
                Ok(c) => 1 <= connection_id <= self@.connections.len() && c@
                    == self@.connections[connection_id - 1],
                Err(e) => e == DbErr::NoSuchConnection && !(1 <= connection_id
                    <= self@.connections.len()),
            },
    {
        if connection_id >= 1 && connection_id as usize <= self.connections.len() {
            Ok(self.connections[connection_id as usize - 1].clone())
        } else {
            Err(DbErr::NoSuchConnection)
        }
    }

    /// Every connection row, in table order.
    pub fn get_connections(&self) -> (r: Vec<Connection>)
        ensures
            r@.len() == self@.connections.len(),
            forall|i: int| 0 <= i < r@.len() ==> (#[trigger] r@[i]@) == self@.connections[i],
    {
        let mut out: Vec<Connection> = Vec::new();
        let mut i: usize = 0;
        while i < self.connections.len()
            invariant
                i <= self.connections.len(),
                out@.len() == i,
                forall|j: int| 0 <= j < i ==> (#[trigger] out@[j]@) == self@.connections[j],
            decreases self.connections.len() - i,
        {
            out.push(self.connections[i].clone());
            i += 1;
        }
        out
    }

    /// The stored address of the peer, or [`DbErr::NoSuchPeer`] exactly
    /// when no connection row carries `peer_id`.
    pub fn get_peer_addr(&self, peer_id: u32) -> (r: Result<NetAddr, DbErr>)
        requires
            self@.wf(),
        ensures
            match r {
                Ok(a) => self@.peer_exists(peer_id) && a == self@.conn_of_peer(peer_id).peer_addr,
                Err(e) => e == DbErr::NoSuchPeer && !self@.peer_exists(peer_id),
            },
    {
        match self.find_peer(peer_id) {
            Some(i) => {
                proof {
                    lemma_peer_index(self@, i as int, peer_id);
                }
                Ok(self.connections[i].peer_addr)
            },
            None => Err(DbErr::NoSuchPeer),
        }
    }

    /// The stored display name of the peer, or [`DbErr::NoSuchPeer`]
    /// exactly when no connection row carries `peer_id`.
    pub fn get_peer_name(&self, peer_id: u32) -> (r: Result<String, DbErr>)
        requires
            self@.wf(),
        ensures
            match r {
                Ok(n) => self@.peer_exists(peer_id) && n@ == self@.conn_of_peer(peer_id).peer_name,
                Err(e) => e == DbErr::NoSuchPeer && !self@.peer_exists(peer_id),
            },
    {
        match self.find_peer(peer_id) {
            Some(i) => {
                proof {
                    lemma_peer_index(self@, i as int, peer_id);
                }
                Ok(self.connections[i].peer_name.clone())
            },
            None => Err(DbErr::NoSuchPeer),
        }
    }

    /// The last reachability observation of the peer, or
    /// [`DbErr::NoSuchPeer`] exactly when no connection row carries
    /// `peer_id`.
    pub fn peer_online(&self, peer_id: u32) -> (r: Result<bool, DbErr>)
        requires
            self@.wf(),
        ensures
            match r {
                Ok(b) => self@.peer_exists(peer_id) && b == self@.conn_of_peer(peer_id).online,
                Err(e) => e == DbErr::NoSuchPeer && !self@.peer_exists(peer_id),
            },
    {
        match self.find_peer(peer_id) {
            Some(i) => {
                proof {
                    lemma_peer_index(self@, i as int, peer_id);
                }
                Ok(self.connections[i].online)
            },
            None => Err(DbErr::NoSuchPeer),
        }
    }

    /// Records a reachability observation.  The count of updated rows is
    /// returned: 1 when the peer is known, 0 when it is not.
    pub fn set_peer_online(&mut self, peer_id: u32, online: bool) -> (r: usize)
        requires
            old(self)@.wf(),
        ensures
            final(self)@.wf(),
            old(self)@.peer_exists(peer_id) ==> {
                &&& r == 1
                &&& final(self)@.connections == old(self)@.connections.update(
                    old(self)@.peer_index(peer_id),
                    ConnectionView { online, ..old(self)@.conn_of_peer(peer_id) },
                )
                &&& final(self)@.messages == old(self)@.messages
                &&& final(self)@.files == old(self)@.files
            },
            !old(self)@.peer_exists(peer_id) ==> r == 0 && final(self)@ == old(self)@,
    {
        match self.find_peer(peer_id) {
            Some(i) => {
                proof {
                    lemma_peer_index(self@, i as int, peer_id);
                }
                let ghost prev = self@;
                let mut c = self.connections[i].clone();
                c.online = online;
                self.connections.set(i, c);
                proof {
                    assert(self@.connections =~= prev.connections.update(
                        i as int,
                        ConnectionView { online, ..prev.conn_of_peer(peer_id) },
                    ));
                    assert(self@.messages =~= prev.messages);
                    assert(self@.files =~= prev.files);
                    assert forall|k: int| 0 <= k < self@.messages.len() implies self@.row_wf(
                        #[trigger] self@.messages[k],
                    ) by {
                        assert(prev.row_wf(prev.messages[k]));
                    }
                }
                1
            },
            None => 0,
        }
    }

    /// The message row at table index `k`, joined with its connection
    /// row and its content read back out of the store.
    fn message_at(&self, k: usize) -> (r: Result<Message, DbErr>)
        requires
            self@.wf(),
            k < self@.messages.len(),
        ensures
            r is Ok,
            r matches Ok(m) ==> m@ == self@.msg_of_row(self@.messages[k as int]),
    {
        proof {
            assert(self@.row_wf(self@.messages[k as int]));
        }
        let message_id = self.messages[k].message_id;
        let connection_id = self.messages[k].connection_id;
        let time_sent = self.messages[k].time_sent;
        let time_recieved = self.messages[k].time_recieved;
        let cell = clone_bytes(&self.messages[k].content);
        let conn = &self.connections[connection_id as usize - 1];
        let s = match bytes_to_string(cell) {
            Some(s) => s,
            None => {
                proof {
                    assert(false);
                }
                return Err(DbErr::InvalidUtf8);
            },
        };
        let content = match self.messages[k].content_kind {
            ContentKind::Text => MessageContent::Text(s),
            ContentKind::File => {
                match self.find_file(&s) {
                    Some(fi) => {
                        proof {
                            lemma_seq_file_index(self@.files, fi as int, s@);
                        }
                        let data = clone_bytes(&self.files[fi].data);
                        MessageContent::File((s, data))
                    },
                    None => {
                        proof {
                            assert(false);
                        }
                        return Err(DbErr::MissingFile);
                    },
                }
            },
        };
        Ok(
            Message {
                message_id,
                self_id: conn.self_id,
                peer_id: conn.peer_id,
                time_sent,
                time_recieved,
                content,
            },
        )
    }

    /// The stored message carrying `message_id`, or `None` exactly when
    /// the id names no row.
    pub fn get_message(&self, message_id: u32) -> (r: Result<Option<Message>, DbErr>)
        requires
            self@.wf(),
        ensures
            r is Ok,
            r matches Ok(om) ==> match om {
                Some(m) => self@.msg_exists(message_id) && m@ == self@.msg_of_row(
                    self@.messages[self@.msg_index(message_id)],
                ),
                None => !self@.msg_exists(message_id),
            },
    {
        match self.find_message(message_id) {
            Some(k) => {
                proof {
                    lemma_msg_index(self@, k as int, message_id);
                }
                match self.message_at(k) {
                    Ok(m) => Ok(Some(m)),
                    Err(e) => {
                        proof {
                            assert(false);
                        }
                        Err(e)
                    },
                }
            },
            None => Ok(None),
        }
    }

    /// The peer's messages whose send time lies between `since` and
    /// `until`, both inclusive, in table order.
    pub fn get_messages(&self, peer_id: u32, since: Timestamp, until: Timestamp) -> (r: Result<
        Vec<Message>,
        DbErr,
    >)
        requires
            self@.wf(),
            since.wf(),
            until.wf(),
        ensures
            r is Ok,
            r matches Ok(v) ==> msg_views(v@) == self@.spec_get_messages(peer_id, since, until),
    {
        let ghost pred = self@.range_pred(peer_id, since, until);
        let mut out: Vec<Message> = Vec::new();
        let mut k: usize = 0;
        proof {
            assert(self@.messages.take(0).filter(pred) =~= Seq::<RowView>::empty());
            assert(msg_views(out@) =~= self@.messages.take(0).filter(pred).map_values(
                self@.msg_mapper(),
            ));
        }
        while k < self.messages.len()
            invariant
                self@.wf(),
                since.wf(),
                until.wf(),
                k <= self@.messages.len(),
                pred == self@.range_pred(peer_id, since, until),
                msg_views(out@) == self@.messages.take(k as int).filter(pred).map_values(
                    self@.msg_mapper(),
                ),
            decreases self.messages.len() - k,
        {
            let ghost tk = self@.messages.take(k as int);
            let ghost row = self@.messages[k as int];
            proof {
                assert(self@.row_wf(row));
                assert(self@.messages.take(k as int + 1) =~= tk.push(row));
                lemma_filter_push(tk, row, pred);
            }
            let connection_id = self.messages[k].connection_id;
            let conn = &self.connections[connection_id as usize - 1];
            let listed: bool = conn.peer_id == peer_id && since.le(&self.messages[k].time_sent)
                && self.messages[k].time_sent.le(&until);
            proof {
                assert(listed == pred(row));
            }
            if listed {
                match self.message_at(k) {
                    Ok(m) => {
                        let ghost prev_out = msg_views(out@);
                        out.push(m);
                        proof {
                            assert(msg_views(out@) =~= prev_out.push(m@));
                            assert(tk.filter(pred).push(row).map_values(self@.msg_mapper()) =~= tk
                                .filter(pred).map_values(self@.msg_mapper()).push(
                                self@.msg_mapper()(row),
                            ));
                            assert(msg_views(out@) =~= self@.messages.take(k as int + 1).filter(
                                pred,
                            ).map_values(self@.msg_mapper()));
                        }
                    },
                    Err(_) => {
                        proof {
                            assert(false);
                        }
                    },
                }
            }
            k += 1;
        }
        proof {
            assert(self@.messages.take(self.messages.len() as int) =~= self@.messages);
        }
        Ok(out)
    }

    /// The peer's pending messages, in table order.
    pub fn get_unrecieved_for(&self, peer_id: u32) -> (r: Result<Vec<Message>, DbErr>)
        requires
            self@.wf(),
        ensures
            r is Ok,
            r matches Ok(v) ==> msg_views(v@) == self@.spec_get_unrecieved(peer_id),
    {
        let ghost pred = self@.pending_pred(peer_id);
        let mut out: Vec<Message> = Vec::new();
        let mut k: usize = 0;
        proof {
            assert(self@.messages.take(0).filter(pred) =~= Seq::<RowView>::empty());
            assert(msg_views(out@) =~= self@.messages.take(0).filter(pred).map_values(
                self@.msg_mapper(),
            ));
        }
        while k < self.messages.len()
            invariant
                self@.wf(),
                k <= self@.messages.len(),
                pred == self@.pending_pred(peer_id),
                msg_views(out@) == self@.messages.take(k as int).filter(pred).map_values(
                    self@.msg_mapper(),
                ),
            decreases self.messages.len() - k,
        {
            let ghost tk = self@.messages.take(k as int);
            let ghost row = self@.messages[k as int];
            proof {
                assert(self@.row_wf(row));
                assert(self@.messages.take(k as int + 1) =~= tk.push(row));
                lemma_filter_push(tk, row, pred);
            }
            let connection_id = self.messages[k].connection_id;
            let conn = &self.connections[connection_id as usize - 1];
            let listed: bool = conn.peer_id == peer_id && self.messages[k].time_recieved.is_none();
            proof {
                assert(listed == pred(row));
            }
            if listed {
                match self.message_at(k) {
                    Ok(m) => {
                        let ghost prev_out = msg_views(out@);
                        out.push(m);
                        proof {
                            assert(msg_views(out@) =~= prev_out.push(m@));
                            assert(tk.filter(pred).push(row).map_values(self@.msg_mapper()) =~= tk
                                .filter(pred).map_values(self@.msg_mapper()).push(
                                self@.msg_mapper()(row),
                            ));
                            assert(msg_views(out@) =~= self@.messages.take(k as int + 1).filter(
                                pred,
                            ).map_values(self@.msg_mapper()));
                        }
                    },
                    Err(_) => {
                        proof {
                            assert(false);
                        }
                    },
                }
            }
            k += 1;
        }
        proof {
            assert(self@.messages.take(self.messages.len() as int) =~= self@.messages);
        }
        Ok(out)
    }

    /// Sets the received time of a pending message, once: a second call
    /// on the same id leaves the store as it was.  The count of matching
    /// rows is returned.
    pub fn mark_as_recieved(&mut self, msg_id: u32, now: Timestamp) -> (r: usize)
        requires
            old(self)@.wf(),
            now.wf(),
        ensures
            final(self)@.wf(),
            final(self)@ == old(self)@.spec_mark(msg_id, now),
            r == if old(self)@.msg_exists(msg_id) {
                1int
            } else {
                0int
            },
    {
        match self.find_message(msg_id) {
            Some(k) => {
                proof {
                    lemma_msg_index(self@, k as int, msg_id);
                    assert(self@.row_wf(self@.messages[k as int]));
                }
                if self.messages[k].time_recieved.is_some() {
                    return 1;
                }
                let ghost prev = self@;
                let row = MessageRow {
                    message_id: self.messages[k].message_id,
                    connection_id: self.messages[k].connection_id,
                    time_sent: self.messages[k].time_sent,
                    time_recieved: Some(received_at(&self.messages[k].time_sent, &now)),
                    content_kind: self.messages[k].content_kind,
                    content: clone_bytes(&self.messages[k].content),
                };
                self.messages.set(k, row);
                proof {
                    assert(self@.messages =~= prev.messages.update(
                        k as int,
                        RowView {
                            time_recieved: Some(
                                spec_received_at(prev.messages[k as int].time_sent, now),
                            ),
                            ..prev.messages[k as int]
                        },
                    ));
                    assert(self@.connections =~= prev.connections);
                    assert(self@.files =~= prev.files);
                    assert(self@ =~= prev.spec_mark(msg_id, now));
                    assert forall|l: int| 0 <= l < self@.messages.len() implies self@.row_wf(
                        #[trigger] self@.messages[l],
                    ) by {
                        assert(prev.row_wf(prev.messages[l]));
                    }
                }
                1
            },
            None => {
                proof {
                    assert(self@ =~= self@.spec_mark(msg_id, now));
                }
                0
            },
        }
    }

    /// Marks each listed id as received, in list order, with the same
    /// set-once rule as `mark_as_recieved`.  The count returned is the
    /// number of listed ids that named a row when their turn came.
    pub fn bulk_mark_as_recieved(&mut self, msg_ids: &Vec<u32>, now: Timestamp) -> (r: usize)
        requires
            old(self)@.wf(),
            now.wf(),
        ensures
            final(self)@.wf(),
            final(self)@ == spec_bulk_mark(old(self)@, msg_ids@, now),
            r == spec_bulk_mark_count(old(self)@, msg_ids@, now),
    {
        let mut count: usize = 0;
        let mut k: usize = 0;
        proof {
            assert(spec_bulk_mark(old(self)@, msg_ids@.take(0), now) =~= old(self)@);
        }
        while k < msg_ids.len()
            invariant
                self@.wf(),
                now.wf(),
                k <= msg_ids@.len(),
                count <= k,
                self@ == spec_bulk_mark(old(self)@, msg_ids@.take(k as int), now),
                count == spec_bulk_mark_count(old(self)@, msg_ids@.take(k as int), now),
            decreases msg_ids.len() - k,
        {
            proof {
                assert(msg_ids@.take(k as int + 1).drop_last() =~= msg_ids@.take(k as int));
                assert(msg_ids@.take(k as int + 1).last() == msg_ids@[k as int]);
            }
            let n = self.mark_as_recieved(msg_ids[k], now);
            count += if n > 0 {
                1
            } else {
                0
            };
            k += 1;
        }
        proof {
            assert(msg_ids@.take(msg_ids.len() as int) =~= msg_ids@);
        }
        count
    }

    /// Replaces the content of the message carrying `msg_id`, storing a
    /// file content's blob; the times and ids of the row are untouched.
    /// The count of matching rows is returned.
    pub fn update_message_content(&mut self, msg_id: u32, content: MessageContent) -> (r: usize)
        requires
            old(self)@.wf(),
        ensures
            final(self)@.wf(),
            final(self)@ == old(self)@.spec_update_content(msg_id, content@),
            r == if old(self)@.msg_exists(msg_id) {
                1int
            } else {
                0int
            },
    {
        match self.find_message(msg_id) {
            Some(k) => {
                proof {
                    lemma_msg_index(self@, k as int, msg_id);
                    assert(self@.row_wf(self@.messages[k as int]));
                }
                let ghost prev = self@;
                let (kind, cell) = content_cell(&content);
                if let MessageContent::File((name, blob)) = &content {
                    self.put_file(name, blob);
                }
                let ghost stored = self@;
                proof {
                    assert(stored =~= prev.spec_store_blob(content@));
                    if let ContentView::File(name, data) = content@ {
                        lemma_put_file(prev.files, name, data);
                    }
                }
                let row = MessageRow {
                    message_id: self.messages[k].message_id,
                    connection_id: self.messages[k].connection_id,
                    time_sent: self.messages[k].time_sent,
                    time_recieved: self.messages[k].time_recieved,
                    content_kind: kind,
                    content: cell,
                };
                self.messages.set(k, row);
                proof {
                    assert(self@.messages =~= stored.messages.update(
                        k as int,
                        RowView {
                            content_kind: kind_of(content@),
                            content: cell_of(content@),
                            ..prev.messages[k as int]
                        },
                    ));
                    assert(self@.connections =~= stored.connections);
                    assert(self@.files =~= stored.files);
                    assert(self@ =~= prev.spec_update_content(msg_id, content@));
                    assert forall|l: int| 0 <= l < self@.messages.len() implies self@.row_wf(
                        #[trigger] self@.messages[l],
                    ) by {
                        assert(prev.row_wf(prev.messages[l]));
                        if l != k {
                            if prev.messages[l].content_kind == ContentKind::File {
                                assert(seq_has_file(
                                    self@.files,
                                    decode_utf8(prev.messages[l].content),
                                ));
                            }
                        }
                    }
                }
                1
            },
            None => {
                proof {
                    assert(self@ =~= self@.spec_update_content(msg_id, content@));
                }
                0
            },
        }
    }

    /// Stores a message row handed back in from durable storage, under
    /// the times it already carries; used only to reload the store at
    /// startup.
    pub fn restore_message(
        &mut self,
        message_id: u32,
        peer_id: u32,
        time_sent: Timestamp,
        time_recieved: Option<Timestamp>,
        content: &MessageContent,
    ) -> (r: Result<(), DbErr>)
        requires
            old(self)@.wf(),
            time_sent.wf(),
            (time_recieved matches Some(t) ==> t.wf() && time_sent.spec_le(t)),
        ensures
            final(self)@.wf(),
            match r {
                Ok(_) => {
                    &&& old(self)@.peer_exists(peer_id)
                    &&& !old(self)@.msg_exists(message_id)
                    &&& final(self)@ == old(self)@.spec_restore(
                        message_id,
                        peer_id,
                        time_sent,
                        time_recieved,
                        content@,
                    )
                },
                Err(e) => {
                    &&& final(self)@ == old(self)@
                    &&& (e == DbErr::NoSuchPeer || e == DbErr::DuplicateMessageId)
                    &&& (e == DbErr::NoSuchPeer <==> !old(self)@.peer_exists(peer_id))
                    &&& (e == DbErr::DuplicateMessageId <==> old(self)@.peer_exists(peer_id)
                        && old(self)@.msg_exists(message_id))
                },
            },
    {
        let i = match self.find_peer(peer_id) {
            Some(i) => i,
            None => {
                return Err(DbErr::NoSuchPeer);
            },
        };
        proof {
            lemma_peer_index(self@, i as int, peer_id);
        }
        match self.find_message(message_id) {
            Some(k) => {
                proof {
                    lemma_msg_index(self@, k as int, message_id);
                }
                return Err(DbErr::DuplicateMessageId);
            },
            None => {},
        }
        let ghost prev = self@;
        let (kind, cell) = content_cell(content);
        if let MessageContent::File((name, blob)) = content {
            self.put_file(name, blob);
        }
        let ghost stored = self@;
        proof {
            assert(stored =~= prev.spec_store_blob(content@));
            if let ContentView::File(name, data) = content@ {
                lemma_put_file(prev.files, name, data);
            }
        }
        let row = MessageRow {
            message_id,
            connection_id: i as u32 + 1,
            time_sent,
            time_recieved,
            content_kind: kind,
            content: cell,
        };
        self.messages.push(row);
        proof {
            assert(self@.messages =~= stored.messages.push(row@));
            assert(self@.connections =~= stored.connections);
            assert(self@.files =~= stored.files);
            assert(self@ =~= prev.spec_restore(
                message_id,
                peer_id,
                time_sent,
                time_recieved,
                content@,
            ));
            assert forall|k: int| 0 <= k < self@.messages.len() implies self@.row_wf(
                #[trigger] self@.messages[k],
            ) by {
                if k < prev.messages.len() {
                    assert(prev.row_wf(prev.messages[k]));
                    if prev.messages[k].content_kind == ContentKind::File {
                        assert(seq_has_file(self@.files, decode_utf8(prev.messages[k].content)));
                    }
                } else {
                    assert(self@.messages[k] == row@);
                }
            }
        }
        Ok(())
    }

    /// Stores `data` under `name` in the file table, overwriting an
    /// entry of the same name.
    fn put_file(&mut self, name: &String, data: &Vec<u8>)
        requires
            old(self)@.wf(),
        ensures
            final(self)@.files == spec_put_file(old(self)@.files, name@, data@),
            final(self)@.connections == old(self)@.connections,
            final(self)@.messages == old(self)@.messages,
            forall|i: int, j: int|
                #![trigger final(self)@.files[i].name, final(self)@.files[j].name]
                0 <= i < j < final(self)@.files.len() ==> final(self)@.files[i].name
                    != final(self)@.files[j].name,
    {
        let entry = FileBlob { name: name.clone(), data: clone_bytes(data) };
        proof {
            assert(entry@ =~= (FileView { name: name@, data: data@ }));
        }
        match self.find_file(name) {
            Some(i) => {
                let ghost prev = self@;
                proof {
                    lemma_seq_file_index(prev.files, i as int, name@);
                }
                self.files.set(i, entry);
                proof {
                    assert(self@.files =~= spec_put_file(prev.files, name@, data@));
                    assert(self@.connections =~= prev.connections);
                    assert(self@.messages =~= prev.messages);
                    lemma_put_file(prev.files, name@, data@);
                }
            },
            None => {
                let ghost prev = self@;
                self.files.push(entry);
                proof {
                    assert(self@.files =~= spec_put_file(prev.files, name@, data@));
                    assert(self@.connections =~= prev.connections);
                    assert(self@.messages =~= prev.messages);
                    lemma_put_file(prev.files, name@, data@);
                }
            },
        }
    }

    /// The greatest message-id in use.
    fn max_mid(&self) -> (r: u32)
        ensures
            r == max_message_id(self@.messages),
    {
        let mut m: u32 = 0;
        let mut k: usize = 0;
        while k < self.messages.len()
            invariant
                k <= self.messages.len(),
                m == max_message_id(self@.messages.take(k as int)),
            decreases self.messages.len() - k,
        {
            proof {
                let taken = self@.messages.take(k as int + 1);
                assert(taken.drop_last() =~= self@.messages.take(k as int));
                assert(taken.last() == self@.messages[k as int]);
            }
            if self.messages[k].message_id > m {
                m = self.messages[k].message_id;
            }
            k += 1;
        }
        proof {
            assert(self@.messages.take(self.messages.len() as int) =~= self@.messages);
        }
        m
    }

    /// Creates a pending message to `peer_id`: the blob of a file
    /// content is written to the file storage, a fresh row is appended
    /// with `time_recieved` absent, and the stored message is handed
    /// back with its content read out again.
    pub fn new_message(&mut self, peer_id: u32, content: &MessageContent, now: Timestamp) -> (r:
        Result<Message, DbErr>)
        requires
            old(self)@.wf(),
            now.wf(),
        ensures
            final(self)@.wf(),
            match r {
                Ok(m) => {
                    &&& old(self)@.peer_exists(peer_id)
                    &&& max_message_id(old(self)@.messages) < 0xFFFF_FFFF
                    &&& final(self)@ == old(self)@.spec_new_message(peer_id, content@, now)
                    &&& m@.message_id == max_message_id(old(self)@.messages) + 1
                    &&& m@.peer_id == peer_id
                    &&& m@.self_id == old(self)@.conn_of_peer(peer_id).self_id
                    &&& m@.time_sent == now
                    &&& m@.time_recieved is None
                    &&& m@.content == content@
                },
                Err(e) => {
                    &&& final(self)@ == old(self)@
                    &&& (e == DbErr::NoSuchPeer || e == DbErr::NoAvailableId)
                    &&& (e == DbErr::NoSuchPeer <==> !old(self)@.peer_exists(peer_id))
                    &&& (e == DbErr::NoAvailableId ==> max_message_id(old(self)@.messages)
                        >= 0xFFFF_FFFF)
                },
            },
    {
        let i = match self.find_peer(peer_id) {
            Some(i) => i,
            None => {
                return Err(DbErr::NoSuchPeer);
            },
        };
        proof {
            lemma_peer_index(self@, i as int, peer_id);
        }
        let max = self.max_mid();
        if max == 0xFFFF_FFFF {
            return Err(DbErr::NoAvailableId);
        }
        let ghost prev = self@;
        let (kind, cell) = content_cell(content);
        if let MessageContent::File((name, blob)) = content {
            self.put_file(name, blob);
        }
        let ghost stored = self@;
        proof {
            assert(stored =~= prev.spec_store_blob(content@));
            if let ContentView::File(name, data) = content@ {
                lemma_put_file(prev.files, name, data);
            }
        }
        let row = MessageRow {
            message_id: max + 1,
            connection_id: i as u32 + 1,
            time_sent: now,
            time_recieved: None,
            content_kind: kind,
            content: cell,
        };
        let self_id = self.connections[i].self_id;
        self.messages.push(row);
        proof {
            assert(self@.messages =~= stored.messages.push(row@));
            assert(self@.connections =~= stored.connections);
            assert(self@.files =~= stored.files);
            assert(self@ =~= prev.spec_new_message(peer_id, content@, now));
            lemma_max_message_id_bound(prev.messages);
            assert forall|k: int| 0 <= k < self@.messages.len() implies self@.row_wf(
                #[trigger] self@.messages[k],
            ) by {
                if k < prev.messages.len() {
                    assert(prev.row_wf(prev.messages[k]));
                    if prev.messages[k].content_kind == ContentKind::File {
                        assert(seq_has_file(self@.files, decode_utf8(prev.messages[k].content)));
                    }
                } else {
                    assert(self@.messages[k] == row@);
                }
            }
        }
        let m = Message {
            message_id: max + 1,
            self_id,
            peer_id,
            time_sent: now,
            time_recieved: None,
            content: content.clone(),
        };
        Ok(m)
    }

    /// Stores a message received from its sender: the blob of a file
    /// content is written to the file storage and the sender's row is
    /// appended under the sender's own `message_id`, received now.
    pub fn insert_message(&mut self, msg: &Message, now: Timestamp) -> (r: Result<u32, DbErr>)
        requires
            old(self)@.wf(),
            now.wf(),
            msg.time_sent.wf(),
        ensures
            final(self)@.wf(),
            match r {
                Ok(id) => {
                    &&& id == msg.message_id
                    &&& old(self)@.peer_exists(msg.self_id)
                    &&& !old(self)@.msg_exists(msg.message_id)
                    &&& final(self)@ == old(self)@.spec_insert_message(msg@, now)
                },
                Err(e) => {
                    &&& final(self)@ == old(self)@
                    &&& (e == DbErr::NoSuchPeer || e == DbErr::DuplicateMessageId)
                    &&& (e == DbErr::NoSuchPeer <==> !old(self)@.peer_exists(msg.self_id))
                    &&& (e == DbErr::DuplicateMessageId <==> old(self)@.peer_exists(msg.self_id)
                        && old(self)@.msg_exists(msg.message_id))
                },
            },
    {
        let i = match self.find_peer(msg.self_id) {
            Some(i) => i,
            None => {
                return Err(DbErr::NoSuchPeer);
            },
        };
        proof {
            lemma_peer_index(self@, i as int, msg.self_id);
        }
        match self.find_message(msg.message_id) {
            Some(k) => {
                proof {
                    lemma_msg_index(self@, k as int, msg.message_id);
                }
                return Err(DbErr::DuplicateMessageId);
            },
            None => {},
        }
        let ghost prev = self@;
        let (kind, cell) = content_cell(&msg.content);
        if let MessageContent::File((name, blob)) = &msg.content {
            self.put_file(name, blob);
        }
        let ghost stored = self@;
        proof {
            assert(stored =~= prev.spec_store_blob(msg@.content));
            if let ContentView::File(name, data) = msg@.content {
                lemma_put_file(prev.files, name, data);
            }
        }
        let row = MessageRow {
            message_id: msg.message_id,
            connection_id: i as u32 + 1,
            time_sent: msg.time_sent,
            time_recieved: Some(received_at(&msg.time_sent, &now)),
            content_kind: kind,
            content: cell,
        };
        self.messages.push(row);
        proof {
            assert(self@.messages =~= stored.messages.push(row@));
            assert(self@.connections =~= stored.connections);
            assert(self@.files =~= stored.files);
            assert(self@ =~= prev.spec_insert_message(msg@, now));
            assert forall|k: int| 0 <= k < self@.messages.len() implies self@.row_wf(
                #[trigger] self@.messages[k],
            ) by {
                if k < prev.messages.len() {
                    assert(prev.row_wf(prev.messages[k]));
                    if prev.messages[k].content_kind == ContentKind::File {
                        assert(seq_has_file(self@.files, decode_utf8(prev.messages[k].content)));
                    }
                } else {
                    assert(self@.messages[k] == row@);
                }
            }
        }
        Ok(msg.message_id)
    }
}

/// Clamps `now` so a received time never precedes the send time.
fn received_at(sent: &Timestamp, now: &Timestamp) -> (r: Timestamp)
    requires
        sent.wf(),
        now.wf(),
    ensures
        r == spec_received_at(*sent, *now),
{
    if sent.le(now) {
        *now
    } else {
        *sent
    }
}

/// An owned copy of a byte vector.
fn clone_bytes(v: &Vec<u8>) -> (r: Vec<u8>)
    ensures
        r@ == v@,
{
    let r = v.clone();
    proof {
        assert(r@ =~= v@);
    }
    r
}

/// Marking a message received twice is the same as marking it once: the
/// first call sets `time_recieved`, and a set time is never written
/// again, whatever moment the second call carries.
pub proof fn lemma_mark_as_recieved_idempotent(
    db: DbView,
    msg_id: u32,
    now1: Timestamp,
    now2: Timestamp,
)
    requires
        db.wf(),
    ensures
        db.spec_mark(msg_id, now1).spec_mark(msg_id, now2) == db.spec_mark(msg_id, now1),
{
    if db.msg_exists(msg_id) {
        let k = db.msg_index(msg_id);
        assert(db.messages[k].message_id == msg_id);
        let db2 = db.spec_mark(msg_id, now1);
        if db.messages[k].time_recieved is None {
            assert(db2.messages[k].message_id == msg_id);
            assert(db2.msg_exists(msg_id));
            let l = db2.msg_index(msg_id);
            assert(db2.messages[l].message_id == msg_id);
            if l != k {
                assert(db.messages[l].message_id == msg_id);
                assert(db.messages[k].message_id != db.messages[l].message_id);
            }
            assert(db2.messages[k].time_recieved is Some);
        }
    }
}

/// Listing an empty time range lists nothing: with both bounds at a
/// moment strictly later than every stored send time, no row passes the
/// range predicate.
pub proof fn lemma_list_messages_empty_range(db: DbView, peer_id: u32, now: Timestamp)
    requires
        forall|k: int| 0 <= k < db.messages.len() ==> (#[trigger] db.messages[k]).time_sent
            .spec_key() < now.spec_key(),
    ensures
        db.spec_get_messages(peer_id, now, now) == Seq::<MessageView>::empty(),
{
    let pred = db.range_pred(peer_id, now, now);
    assert forall|i: int| 0 <= i < db.messages.len() implies !pred(#[trigger] db.messages[i]) by {
        assert(db.messages[i].time_sent.spec_key() < now.spec_key());
    }
    lemma_filter_all_false(db.messages, pred);
    assert(db.messages.filter(pred).map_values(db.msg_mapper()) =~= Seq::<MessageView>::empty());
}

/// A message just created for a peer is listed for that peer: it is the
/// last entry of any listing whose range covers its send time, still
/// pending, and its content reads back out of the store unchanged.
pub proof fn lemma_new_message_listed(
    db: DbView,
    peer_id: u32,
    content: ContentView,
    now: Timestamp,
    since: Timestamp,
    until: Timestamp,
)
    requires
        db.wf(),
        db.peer_exists(peer_id),
        max_message_id(db.messages) < 0xFFFF_FFFF,
        since.spec_le(now),
        now.spec_le(until),
    ensures
        ({
            let db2 = db.spec_new_message(peer_id, content, now);
            let listed = db2.spec_get_messages(peer_id, since, until);
            &&& listed.len() > 0
            &&& listed.last().content == content
            &&& listed.last().message_id == max_message_id(db.messages) + 1
            &&& listed.last().time_sent == now
            &&& listed.last().time_recieved is None
        }),
{
    let db2 = db.spec_new_message(peer_id, content, now);
    let stored = db.spec_store_blob(content);
    let i = db.peer_index(peer_id);
    assert(0 <= i < db.connections.len() && db.connections[i].peer_id == peer_id);
    let row = RowView {
        message_id: (max_message_id(db.messages) + 1) as u32,
        connection_id: (i + 1) as u32,
        time_sent: now,
        time_recieved: None,
        content_kind: kind_of(content),
        content: cell_of(content),
    };
    assert(db2.messages == stored.messages.push(row));
    assert(db2.connections == db.connections);
    let pred = db2.range_pred(peer_id, since, until);
    assert(pred(row));
    lemma_filter_push(stored.messages, row, pred);
    let filtered = db2.messages.filter(pred);
    assert(filtered.last() == row);
    let listed = db2.spec_get_messages(peer_id, since, until);
    assert(listed.len() == filtered.len());
    assert(listed.last() == db2.msg_mapper()(row));
    match content {
        ContentView::Text(s) => {
            assert(db2.msg_of_row(row).content == ContentView::Text(decode_utf8(encode_utf8(s))));
        },
        ContentView::File(name, data) => {
            lemma_put_file(db.files, name, data);
            assert(db2.files == spec_put_file(db.files, name, data));
            assert(db2.file_at(decode_utf8(encode_utf8(name))) == data);
        },
    }
}

/// The kind tag and cell bytes under which a content value is stored.
fn content_cell(content: &MessageContent) -> (r: (ContentKind, Vec<u8>))
    ensures
        r.0 == kind_of(content@),
        r.1@ == cell_of(content@),
{
    match content {
        MessageContent::Text(s) => (ContentKind::Text, str_to_bytes(s.as_str())),
        MessageContent::File((name, _)) => (ContentKind::File, str_to_bytes(name.as_str())),
    }
}

} // verus!
