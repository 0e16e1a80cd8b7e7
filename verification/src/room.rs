//! The room/session layer: per-document multiplexing of WebSocket
//! connections over the binary sync protocol.
//!
//! Each connection's outbound traffic goes through a bounded queue; a
//! full queue drops the frame (the stale connection is reaped later). The
//! socket tasks that drain the queues live with the server glue.

use vstd::prelude::*;

use crate::document::DocumentStore;
use crate::protocol::{ProtocolMode, WsMessageModel};

verus! {

/// Error from room operations.
#[derive(Debug)]
pub enum RoomError {
    /// The room's document is not in the store
    DocumentNotFound,
    /// The document carries no CRDT state
    NoYjsState,
    /// The client's state vector or update did not decode
    DecodeError(String),
    /// The update could not be applied
    ApplyError(String),
}

/// An outgoing message to a WebSocket client.
#[derive(Debug)]
pub enum OutgoingMessage {
    /// Binary frame (sync messages, updates)
    Binary(Vec<u8>),
    /// Close the connection
    Close,
}

/// Mathematical model of an outgoing message.
pub enum OutgoingModel {
    Binary(Seq<u8>),
    Close,
}

/// The model of an outgoing message.
pub open spec fn out_view(m: OutgoingMessage) -> OutgoingModel {
    match m {
        OutgoingMessage::Binary(b) => OutgoingModel::Binary(b@),
        OutgoingMessage::Close => OutgoingModel::Close,
    }
}

/// The model of an outbound queue.
pub open spec fn queue_view(q: Seq<OutgoingMessage>) -> Seq<OutgoingModel> {
    Seq::new(q.len(), |i: int| out_view(q[i]))
}

/// A notification that a commit was persisted for a document; rooms
/// consume it and re-broadcast the commit as wire frames.
#[derive(Debug)]
pub struct CommitNotification {
    pub doc_id: String,
    pub commit_id: String,
    pub timestamp: u64,
}

/// Per-connection state: identity, negotiated protocol, liveness, and the
/// bounded outbound queue.
pub struct WsConnection {
    /// Unique connection ID (server-generated UUID)
    pub id: String,
    /// Document ID this connection is subscribed to
    pub doc_id: String,
    /// Negotiated protocol mode
    pub protocol: ProtocolMode,
    /// CRDT client ID for this connection (used for origin tracking)
    pub client_id: u64,
    /// Last activity timestamp, in milliseconds (for timeout detection)
    pub last_activity: u64,
    /// Outbound queue, drained by the connection's write task
    pub outbound: Vec<OutgoingMessage>,
    /// Bound on the outbound queue
    pub capacity: usize,
}

impl WsConnection {
    /// The queued outbound messages, oldest first.
    pub open spec fn spec_outbound(&self) -> Seq<OutgoingModel> {
        queue_view(self.outbound@)
    }

    /// The bound on the outbound queue.
    pub open spec fn spec_capacity(&self) -> nat {
        self.capacity as nat
    }

    /// Create a new connection with a fresh id and a client id drawn from
    /// its bytes.
    pub fn new(doc_id: String, protocol: ProtocolMode, capacity: usize, now_ms: u64) -> (r:
        WsConnection)
        ensures
            r.doc_id == doc_id,
            r.protocol == protocol,
            r.last_activity == now_ms,
            r.id@.len() == 36,
            r.spec_outbound() == Seq::<OutgoingModel>::empty(),
            r.spec_capacity() == capacity,
    {
        let (id, bytes) = crate::ids::new_uuid();
        // the first eight UUID bytes, little endian, as the client id
        let mut client_id: u64 = 0;
        let mut k: usize = 0;
        while k < 8
            invariant
                k <= 8,
                bytes@.len() == 16,
            decreases 8 - k,
        {
            let b = bytes[k] as u64;
            client_id = client_id | (b << ((8 * (k as u64)) as u64));
            k = k + 1;
        }
        let c = WsConnection {
            id,
            doc_id,
            protocol,
            client_id,
            last_activity: now_ms,
            outbound: Vec::new(),
            capacity,
        };
        proof {
            assert(c.spec_outbound() =~= Seq::<OutgoingModel>::empty());
        }
        c
    }

    /// Update the last-activity timestamp.
    pub fn touch(&mut self, now_ms: u64)
        ensures
            final(self).last_activity == now_ms,
            final(self).id == old(self).id,
            final(self).doc_id == old(self).doc_id,
            final(self).protocol == old(self).protocol,
            final(self).client_id == old(self).client_id,
            final(self).spec_outbound() == old(self).spec_outbound(),
            final(self).spec_capacity() == old(self).spec_capacity(),
    {
        self.last_activity = now_ms;
    }

    /// Queue a message (non-blocking). False when the queue is full: the
    /// message is dropped and the connection is left for the next sweep.
    pub fn try_send(&mut self, msg: OutgoingMessage) -> (r: bool)
        ensures
            final(self).id == old(self).id,
            final(self).doc_id == old(self).doc_id,
            final(self).protocol == old(self).protocol,
            final(self).client_id == old(self).client_id,
            final(self).last_activity == old(self).last_activity,
            final(self).spec_capacity() == old(self).spec_capacity(),
            if old(self).spec_outbound().len() < old(self).spec_capacity() {
                r && final(self).spec_outbound() == old(self).spec_outbound().push(out_view(msg))
            } else {
                !r && final(self).spec_outbound() == old(self).spec_outbound()
            },
    {
        if self.outbound.len() < self.capacity {
            let ghost before = self.outbound@;
            let ghost m = msg;
            self.outbound.push(msg);
            proof {
                assert(queue_view(before.push(m)) =~= queue_view(before).push(out_view(m)));
            }
            true
        } else {
            false
        }
    }

    /// Queue a binary frame.
    pub fn try_send_binary(&mut self, data: Vec<u8>) -> (r: bool)
        ensures
            final(self).id == old(self).id,
            final(self).doc_id == old(self).doc_id,
            final(self).protocol == old(self).protocol,
            final(self).client_id == old(self).client_id,
            final(self).last_activity == old(self).last_activity,
            final(self).spec_capacity() == old(self).spec_capacity(),
            if old(self).spec_outbound().len() < old(self).spec_capacity() {
                r && final(self).spec_outbound() == old(self).spec_outbound().push(
                    OutgoingModel::Binary(data@),
                )
            } else {
                !r && final(self).spec_outbound() == old(self).spec_outbound()
            },
    {
        self.try_send(OutgoingMessage::Binary(data))
    }

    /// Drain the queued outbound messages, oldest first.
    pub fn take_outbound(&mut self) -> (r: Vec<OutgoingMessage>)
        ensures
            queue_view(r@) == old(self).spec_outbound(),
            final(self).spec_outbound() == Seq::<OutgoingModel>::empty(),
            final(self).id == old(self).id,
            final(self).doc_id == old(self).doc_id,
            final(self).protocol == old(self).protocol,
            final(self).client_id == old(self).client_id,
            final(self).last_activity == old(self).last_activity,
            final(self).spec_capacity() == old(self).spec_capacity(),
    {
        let mut out: Vec<OutgoingMessage> = Vec::new();
        core::mem::swap(&mut out, &mut self.outbound);
        proof {
            assert(final(self).spec_outbound() =~= Seq::<OutgoingModel>::empty());
        }
        out
    }
}

/// The broadcast a connection received: its queue grew by exactly the
/// frame when it had room, and was left alone when full.
pub open spec fn received_frame(old_c: WsConnection, new_c: WsConnection, frame: Seq<u8>) -> bool {
    &&& new_c.id == old_c.id
    &&& new_c.doc_id == old_c.doc_id
    &&& new_c.protocol == old_c.protocol
    &&& new_c.client_id == old_c.client_id
    &&& new_c.spec_capacity() == old_c.spec_capacity()
    &&& if old_c.spec_outbound().len() < old_c.spec_capacity() {
        new_c.spec_outbound() == old_c.spec_outbound().push(OutgoingModel::Binary(frame))
    } else {
        new_c.spec_outbound() == old_c.spec_outbound()
    }
}

/// A connection that was left exactly as it was.
pub open spec fn untouched(old_c: WsConnection, new_c: WsConnection) -> bool {
    &&& new_c.id == old_c.id
    &&& new_c.doc_id == old_c.doc_id
    &&& new_c.protocol == old_c.protocol
    &&& new_c.client_id == old_c.client_id
    &&& new_c.spec_capacity() == old_c.spec_capacity()
    &&& new_c.spec_outbound() == old_c.spec_outbound()
}

/// A room manages all WebSocket connections to a single document.
pub struct Room {
    doc_id: String,
    connections: Vec<WsConnection>,
}

impl Room {
    /// The room's connections.
    pub closed spec fn spec_connections(&self) -> Seq<WsConnection> {
        self.connections@
    }

    /// The room's document id.
    pub closed spec fn spec_doc_id(&self) -> Seq<char> {
        self.doc_id@
    }

    /// Create a new room for a document.
    pub fn new(doc_id: String) -> (r: Room)
        ensures
            r.spec_doc_id() == doc_id@,
            r.spec_connections().len() == 0,
    {
        Room { doc_id, connections: Vec::new() }
    }

    /// The connections currently in the room.
    pub fn connections(&self) -> (r: &Vec<WsConnection>)
        ensures
            r@ == self.spec_connections(),
    {
        &self.connections
    }

    /// Get the document ID.
    pub fn doc_id(&self) -> (r: &str)
        ensures
            r@ == self.spec_doc_id(),
    {
        self.doc_id.as_str()
    }

    /// Add a connection to this room.
    pub fn add_connection(&mut self, conn: WsConnection)
        ensures
            final(self).spec_doc_id() == old(self).spec_doc_id(),
            final(self).spec_connections() == old(self).spec_connections().push(conn),
    {
        self.connections.push(conn);
    }

    /// Remove the connection with the given id, if present.
    pub fn remove_connection(&mut self, conn_id: &str)
        ensures
            final(self).spec_doc_id() == old(self).spec_doc_id(),
            ({
                let s = old(self).spec_connections();
                match spec_conn_idx(s, conn_id@) {
                    Some(k) => final(self).spec_connections() == s.remove(k),
                    None => final(self).spec_connections() == s,
                }
            }),
    {
        let ghost s = self.connections@;
        proof {
            assert(s.subrange(0, s.len() as int) =~= s);
        }
        let mut k: usize = 0;
        loop
            invariant
                k <= self.connections@.len(),
                self.connections@ == s,
                s == old(self).spec_connections(),
                self.doc_id == old(self).doc_id,
                match spec_conn_idx(s.subrange(k as int, s.len() as int), conn_id@) {
                    Some(i) => spec_conn_idx(s, conn_id@) == Some(i + k),
                    None => spec_conn_idx(s, conn_id@) is None,
                },
                forall|j: int| 0 <= j < k ==> s[j].id@ != conn_id@,
            decreases self.connections@.len() - k,
        {
            if k >= self.connections.len() {
                proof {
                    assert(s.subrange(k as int, s.len() as int) =~= Seq::empty());
                }
                return ;
            }
            let ghost rest = s.subrange(k as int, s.len() as int);
            proof {
                assert(rest[0] == s[k as int]);
                assert(rest.drop_first() =~= s.subrange(k as int + 1, s.len() as int));
            }
            if crate::text::str_eq(self.connections[k].id.as_str(), conn_id) {
                self.connections.remove(k);
                proof {
                    assert(final(self).spec_connections() =~= s.remove(k as int));
                }
                return ;
            }
            k = k + 1;
        }
    }

    /// Take the queued outbound frames of the connection with the given
    /// id, oldest first: the connection's write task drains its queue
    /// through this. Every other connection is left untouched.
    pub fn drain_connection(&mut self, conn_id: &str) -> (r: Vec<OutgoingMessage>)
        ensures
            final(self).spec_doc_id() == old(self).spec_doc_id(),
            final(self).spec_connections().len() == old(self).spec_connections().len(),
            match spec_conn_idx(old(self).spec_connections(), conn_id@) {
                Some(i) => {
                    &&& queue_view(r@) == old(self).spec_connections()[i].spec_outbound()
                    &&& final(self).spec_connections()[i].spec_outbound()
                        == Seq::<OutgoingModel>::empty()
                    &&& final(self).spec_connections()[i].id
                        == old(self).spec_connections()[i].id
                    &&& forall|k: int|
                        0 <= k < old(self).spec_connections().len() && k != i
                            ==> final(self).spec_connections()[k] == old(
                            self,
                        ).spec_connections()[k]
                },
                None => r@.len() == 0 && final(self).spec_connections()
                    == old(self).spec_connections(),
            },
    {
        let ghost s = self.connections@;
        proof {
            assert(s.subrange(0, s.len() as int) =~= s);
        }
        let mut k: usize = 0;
        loop
            invariant
                k <= self.connections@.len(),
                self.connections@ == s,
                s == old(self).spec_connections(),
                self.doc_id == old(self).doc_id,
                match spec_conn_idx(s.subrange(k as int, s.len() as int), conn_id@) {
                    Some(i) => spec_conn_idx(s, conn_id@) == Some(i + k),
                    None => spec_conn_idx(s, conn_id@) is None,
                },
                forall|j: int| 0 <= j < k ==> s[j].id@ != conn_id@,
            decreases self.connections@.len() - k,
        {
            if k >= self.connections.len() {
                proof {
                    assert(s.subrange(k as int, s.len() as int) =~= Seq::empty());
                }
                return Vec::new();
            }
            let ghost rest = s.subrange(k as int, s.len() as int);
            proof {
                assert(rest[0] == s[k as int]);
                assert(rest.drop_first() =~= s.subrange(k as int + 1, s.len() as int));
            }
            if crate::text::str_eq(self.connections[k].id.as_str(), conn_id) {
                let mut c = self.connections.remove(k);
                let out = c.take_outbound();
                self.connections.insert(k, c);
                proof {
                    assert(final(self).spec_connections() =~= s.remove(k as int).insert(
                        k as int,
                        final(self).spec_connections()[k as int],
                    ));
                    assert forall|j: int|
                        0 <= j < s.len() && j != k implies final(self).spec_connections()[j]
                        == s[j] by {
                        if j < k {
                            assert(final(self).spec_connections()[j] == s.remove(k as int)[j]);
                        } else {
                            assert(final(self).spec_connections()[j] == s.remove(k as int)[j
                                - 1]);
                        }
                    }
                }
                return out;
            }
            k = k + 1;
        }
    }

    /// Get the number of active connections.
    pub fn connection_count(&self) -> (r: usize)
        ensures
            r == self.spec_connections().len(),
    {
        self.connections.len()
    }

    /// Answer a client's SyncStep1: compute the diff against its state
    /// vector under the document's replica and frame it as SyncStep2.
    /// Fails with `DocumentNotFound` exactly when the document is absent,
    /// with `NoYjsState` exactly when it carries no replica, and with
    /// `DecodeError` exactly when the document is live but the state
    /// vector bytes do not decode; on a live document with well-formed
    /// bytes the reply is owed.
    pub fn handle_sync_step1(&self, store: &DocumentStore, state_vector_bytes: &[u8]) -> (r:
        Result<Vec<u8>, RoomError>)
        ensures
            !store.contains(self.spec_doc_id()) <==> (r matches Err(e) && e is DocumentNotFound),
            (store.spec_get(self.spec_doc_id()) matches Some(d) && d.ydoc is None) <==> (
            r matches Err(e) && e is NoYjsState),
            (store.spec_get(self.spec_doc_id()) matches Some(d) && d.ydoc is Some) ==> (r is Ok
                <==> crate::crdt::sv_decodes_v1(state_vector_bytes@)),
            r matches Ok(frame) ==> exists|diff: Seq<u8>|
                frame@ == crate::protocol::message_enc(
                    WsMessageModel::SyncStep2 { update: diff },
                ),
            r matches Err(e) ==> e is DocumentNotFound || e is NoYjsState || e is DecodeError,
    {
        let doc = match store.get_document(self.doc_id.as_str()) {
            Some(d) => d,
            None => {
                return Err(RoomError::DocumentNotFound);
            },
        };
        let ydoc = match &doc.ydoc {
            Some(y) => y,
            None => {
                return Err(RoomError::NoYjsState);
            },
        };
        match crate::crdt::ydoc_diff(ydoc, state_vector_bytes) {
            Ok(diff) => {
                let frame = crate::protocol::encode_sync_step2(diff.as_slice());
                proof {
                    assert(frame@ == crate::protocol::message_enc(
                        WsMessageModel::SyncStep2 { update: diff@ },
                    ));
                }
                Ok(frame)
            },
            Err(e) => Err(RoomError::DecodeError(e)),
        }
    }

    /// The server's own state vector, for the SyncStep1 it sends: owed
    /// whenever the document is live, since encoding a state vector
    /// cannot fail.
    pub fn get_state_vector(&self, store: &DocumentStore) -> (r: Result<Vec<u8>, RoomError>)
        ensures
            r is Ok <==> (store.spec_get(self.spec_doc_id()) matches Some(d) && d.ydoc is Some),
            !store.contains(self.spec_doc_id()) <==> (r matches Err(e) && e is DocumentNotFound),
            (store.spec_get(self.spec_doc_id()) matches Some(d) && d.ydoc is None) <==> (
            r matches Err(e) && e is NoYjsState),
    {
        let doc = match store.get_document(self.doc_id.as_str()) {
            Some(d) => d,
            None => {
                return Err(RoomError::DocumentNotFound);
            },
        };
        match &doc.ydoc {
            Some(y) => Ok(crate::crdt::ydoc_state_vector(y)),
            None => Err(RoomError::NoYjsState),
        }
    }

    /// Broadcast a frame to every connection but one: echo suppression.
    /// The excluded connection's queue is untouched; every other
    /// connection with room in its queue receives exactly this frame.
    pub fn broadcast_except(&mut self, except_conn_id: &str, message: Vec<u8>)
        ensures
            final(self).spec_doc_id() == old(self).spec_doc_id(),
            final(self).spec_connections().len() == old(self).spec_connections().len(),
            forall|k: int|
                0 <= k < old(self).spec_connections().len() ==> {
                    let oc = #[trigger] old(self).spec_connections()[k];
                    let nc = final(self).spec_connections()[k];
                    if oc.id@ == except_conn_id@ {
                        untouched(oc, nc)
                    } else {
                        received_frame(oc, nc, message@)
                    }
                },
    {
        let ghost s = old(self).connections@;
        let mut done: Vec<WsConnection> = Vec::new();
        while self.connections.len() > 0
            invariant
                self.doc_id == old(self).doc_id,
                s == old(self).connections@,
                done@.len() + self.connections@.len() == s.len(),
                forall|j: int|
                    0 <= j < self.connections@.len() ==> self.connections@[j] == s[j + done@.len()],
                forall|j: int|
                    0 <= j < done@.len() ==> {
                        let oc = #[trigger] s[j];
                        let nc = done@[j];
                        if oc.id@ == except_conn_id@ {
                            untouched(oc, nc)
                        } else {
                            received_frame(oc, nc, message@)
                        }
                    },
            decreases self.connections@.len(),
        {
            let mut c = self.connections.remove(0);
            if !crate::text::str_eq(c.id.as_str(), except_conn_id) {
                let _ = c.try_send_binary(message.clone());
            }
            done.push(c);
        }
        core::mem::swap(&mut self.connections, &mut done);
    }

    /// Broadcast a frame to every connection.
    pub fn broadcast_all(&mut self, message: Vec<u8>)
        ensures
            final(self).spec_doc_id() == old(self).spec_doc_id(),
            final(self).spec_connections().len() == old(self).spec_connections().len(),
            forall|k: int|
                0 <= k < old(self).spec_connections().len() ==> received_frame(
                    old(self).spec_connections()[k],
                    final(self).spec_connections()[k],
                    message@,
                ),
    {
        let ghost s = old(self).connections@;
        let mut done: Vec<WsConnection> = Vec::new();
        while self.connections.len() > 0
            invariant
                self.doc_id == old(self).doc_id,
                s == old(self).connections@,
                done@.len() + self.connections@.len() == s.len(),
                forall|j: int|
                    0 <= j < self.connections@.len() ==> self.connections@[j] == s[j + done@.len()],
                forall|j: int|
                    0 <= j < done@.len() ==> received_frame(s[j], done@[j], message@),
            decreases self.connections@.len(),
        {
            let mut c = self.connections.remove(0);
            let _ = c.try_send_binary(message.clone());
            done.push(c);
        }
        core::mem::swap(&mut self.connections, &mut done);
    }

    /// Handle an update from a client: apply it to the document store and
    /// fan the update frame out to every connection except the sender —
    /// the sender never receives its own update back. An absent document,
    /// a document without a replica, and bytes that do not decode as an
    /// update all fail without touching the room.
    pub fn handle_update(&mut self, store: &DocumentStore, from_conn_id: &str, update: &[u8])
        -> (r: Result<(), RoomError>)
        ensures
            final(self).spec_doc_id() == old(self).spec_doc_id(),
            r matches Err(e) ==> e is ApplyError && *final(self) == *old(self),
            !store.contains(old(self).spec_doc_id()) ==> r is Err,
            !crate::crdt::update_decodes_v1(update@) ==> r is Err,
            r is Ok ==> {
                let frame = crate::protocol::message_enc(
                    WsMessageModel::Update { update: update@ },
                );
                &&& final(self).spec_connections().len() == old(self).spec_connections().len()
                &&& forall|k: int|
                    0 <= k < old(self).spec_connections().len() ==> {
                        let oc = #[trigger] old(self).spec_connections()[k];
                        let nc = final(self).spec_connections()[k];
                        if oc.id@ == from_conn_id@ {
                            untouched(oc, nc)
                        } else {
                            received_frame(oc, nc, frame)
                        }
                    }
            },
    {
        if !store.apply_update(self.doc_id.as_str(), update) {
            return Err(RoomError::ApplyError(String::from_str("could not apply update")));
        }
        let encoded = crate::protocol::encode_update(update);
        self.broadcast_except(from_conn_id, encoded);
        Ok(())
    }

    /// Handle a commit notification from the broadcaster, carrying the
    /// commit's update bytes: a notification for another document is
    /// ignored; one for this document is framed as an update and sent to
    /// every connection — the originator was not a WebSocket peer.
    pub fn handle_commit_notification(
        &mut self,
        notification: &CommitNotification,
        update_bytes: &[u8],
    )
        ensures
            final(self).spec_doc_id() == old(self).spec_doc_id(),
            notification.doc_id@ != old(self).spec_doc_id() ==> *final(self) == *old(self),
            notification.doc_id@ == old(self).spec_doc_id() ==> {
                let frame = crate::protocol::message_enc(
                    WsMessageModel::Update { update: update_bytes@ },
                );
                &&& final(self).spec_connections().len() == old(self).spec_connections().len()
                &&& forall|k: int|
                    0 <= k < old(self).spec_connections().len() ==> received_frame(
                        old(self).spec_connections()[k],
                        final(self).spec_connections()[k],
                        frame,
                    )
            },
    {
        if !crate::text::str_eq(notification.doc_id.as_str(), self.doc_id.as_str()) {
            return ;
        }
        let encoded = crate::protocol::encode_update(update_bytes);
        self.broadcast_all(encoded);
    }
}

/// The position of the first room for the given document id.
pub open spec fn spec_room_idx(s: Seq<Room>, doc_id: Seq<char>) -> Option<int>
    decreases s.len(),
{
    if s.len() == 0 {
        None
    } else if s[0].spec_doc_id() == doc_id {
        Some(0)
    } else {
        match spec_room_idx(s.drop_first(), doc_id) {
            Some(i) => Some(i + 1),
            None => None,
        }
    }
}

/// The position of the first connection with the given id.
pub open spec fn spec_conn_idx(s: Seq<WsConnection>, id: Seq<char>) -> Option<int>
    decreases s.len(),
{
    if s.len() == 0 {
        None
    } else if s[0].id@ == id {
        Some(0)
    } else {
        match spec_conn_idx(s.drop_first(), id) {
            Some(i) => Some(i + 1),
            None => None,
        }
    }
}

/// Manager for all document rooms, indexed by document id.
pub struct RoomManager {
    rooms: Vec<Room>,
}

impl RoomManager {
    /// The managed rooms.
    pub closed spec fn spec_rooms(&self) -> Seq<Room> {
        self.rooms@
    }

    /// Create a new room manager.
    pub fn new() -> (r: RoomManager)
        ensures
            r.spec_rooms().len() == 0,
    {
        RoomManager { rooms: Vec::new() }
    }

    /// The index of the room for a document: the existing room when one
    /// exists (and the manager is untouched), else a fresh empty room
    /// appended for it.
    pub fn get_or_create_room(&mut self, doc_id: &str) -> (r: usize)
        ensures
            r < final(self).spec_rooms().len(),
            final(self).spec_rooms()[r as int].spec_doc_id() == doc_id@,
            forall|i: int|
                0 <= i < old(self).spec_rooms().len() ==> final(self).spec_rooms()[i] == old(
                    self,
                ).spec_rooms()[i],
            match spec_room_idx(old(self).spec_rooms(), doc_id@) {
                Some(i) => r == i && *final(self) == *old(self),
                None => final(self).spec_rooms().len() == old(self).spec_rooms().len() + 1 && r
                    == old(self).spec_rooms().len()
                    && final(self).spec_rooms()[r as int].spec_connections().len() == 0,
            },
    {
        let ghost s = self.rooms@;
        proof {
            assert(s.subrange(0, s.len() as int) =~= s);
        }
        let mut k: usize = 0;
        while k < self.rooms.len()
            invariant
                k <= self.rooms@.len(),
                self.rooms@ == s,
                s == old(self).spec_rooms(),
                match spec_room_idx(s.subrange(k as int, s.len() as int), doc_id@) {
                    Some(i) => spec_room_idx(s, doc_id@) == Some(i + k),
                    None => spec_room_idx(s, doc_id@) is None,
                },
                forall|j: int| 0 <= j < k ==> s[j].spec_doc_id() != doc_id@,
            decreases self.rooms@.len() - k,
        {
            let ghost rest = s.subrange(k as int, s.len() as int);
            proof {
                assert(rest[0] == s[k as int]);
                assert(rest.drop_first() =~= s.subrange(k as int + 1, s.len() as int));
            }
            if crate::text::str_eq(self.rooms[k].doc_id(), doc_id) {
                return k;
            }
            k = k + 1;
        }
        proof {
            assert(s.subrange(k as int, s.len() as int) =~= Seq::empty());
        }
        let n = self.rooms.len();
        self.rooms.push(Room::new(String::from_str(doc_id)));
        n
    }

    /// Take the room at an index out of the manager, to operate on it;
    /// put it back with `put_room` at the same index.
    pub fn take_room(&mut self, k: usize) -> (r: Room)
        requires
            k < old(self).spec_rooms().len(),
        ensures
            r == old(self).spec_rooms()[k as int],
            final(self).spec_rooms() == old(self).spec_rooms().remove(k as int),
    {
        self.rooms.remove(k)
    }

    /// Put a room back at the index it was taken from.
    pub fn put_room(&mut self, k: usize, room: Room)
        requires
            k <= old(self).spec_rooms().len(),
        ensures
            final(self).spec_rooms() == old(self).spec_rooms().insert(k as int, room),
    {
        self.rooms.insert(k, room);
    }

    /// Remove the rooms with no connections left.
    pub fn cleanup_empty_rooms(&mut self)
        ensures
            final(self).spec_rooms() == old(self).spec_rooms().filter(
                |r: Room| r.spec_connections().len() > 0,
            ),
    {
        let ghost s = old(self).rooms@;
        let ghost keep = |r: Room| r.spec_connections().len() > 0;
        let mut kept: Vec<Room> = Vec::new();
        proof {
            assert(s.take(0) =~= Seq::<Room>::empty());
            assert(Seq::<Room>::empty().filter(keep) =~= Seq::<Room>::empty());
            assert(kept@ =~= Seq::<Room>::empty());
        }
        let ghost mut gk: int = 0;
        while self.rooms.len() > 0
            invariant
                gk == s.len() - self.rooms@.len(),
                0 <= gk <= s.len(),
                s == old(self).rooms@,
                forall|j: int|
                    0 <= j < self.rooms@.len() ==> self.rooms@[j] == s[j + gk],
                kept@ == s.take(gk).filter(keep),
                keep == (|r: Room| r.spec_connections().len() > 0),
            decreases self.rooms@.len(),
        {
            let ghost pre = s.take(gk);
            proof {
                assert(s.take(gk + 1) =~= pre.push(s[gk]));
                pre.lemma_filter_push(s[gk], keep);
            }
            let room = self.rooms.remove(0);
            if room.connection_count() > 0 {
                kept.push(room);
            }
            proof {
                gk = gk + 1;
            }
        }
        proof {
            assert(s.take(s.len() as int) =~= s);
        }
        core::mem::swap(&mut self.rooms, &mut kept);
    }
}

}
