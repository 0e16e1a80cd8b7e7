//! The node fabric: documents and transient connections exposed as nodes
//! with a blue port (persistent edits) and a red port (ephemeral events).
//! The broadcast channels that carry the messages live with the server
//! glue; this module holds the node state machines and message types.

use vstd::prelude::*;

verus! {

/// A persistent, broadcastable mutation to a document's CRDT state.
#[derive(Debug)]
pub struct Edit {
    pub doc_id: String,
    pub update_bytes: Vec<u8>,
    pub parent_cid: Option<String>,
    pub author: Option<String>,
    pub message: Option<String>,
    pub ts: u64,
}

/// An ephemeral event; never stored.
#[derive(Debug)]
pub struct Event {
    pub source: String,
    pub event_type: String,
    pub payload: crate::json::JsonValue,
}

/// Errors from node operations.
#[derive(Debug, Clone, Copy, PartialEq, Eq, Structural)]
pub enum NodeError {
    /// The node has been shut down; receive operations fail
    Shutdown,
}

/// A node whose rendered content can be observed.
pub trait ObservableNode {
    /// Get the current rendered content of the node.
    fn get_content(&self) -> Result<String, NodeError>;

    /// Get the content type (MIME type) of the node's content.
    fn content_type(&self) -> &str;
}

/// A transient node standing for a remote subscriber (an SSE client).
///
/// It holds the id of the one document node it targets and forwards that
/// target's blue subscription; its own red port carries events addressed
/// to the connection. It is destroyed when the connection closes.
pub struct ConnectionNode {
    id: String,
    target_id: String,
    is_shutdown: bool,
}

impl ConnectionNode {
    /// Whether the node still accepts messages.
    pub closed spec fn spec_healthy(&self) -> bool {
        !self.is_shutdown
    }

    /// The node's own id.
    pub closed spec fn spec_id(&self) -> Seq<char> {
        self.id@
    }

    /// The id of the target document node.
    pub closed spec fn spec_target_id(&self) -> Seq<char> {
        self.target_id@
    }

    /// Create a connection node for a target, under a fresh random id.
    pub fn new(target_id: String) -> (r: ConnectionNode)
        ensures
            r.spec_healthy(),
            r.spec_target_id() == target_id@,
            r.spec_id().len() == 36,
    {
        let (id, _) = crate::ids::new_uuid();
        ConnectionNode { id, target_id, is_shutdown: false }
    }

    /// Create a connection node with a given id.
    pub fn with_id(id: String, target_id: String) -> (r: ConnectionNode)
        ensures
            r.spec_healthy(),
            r.spec_id() == id@,
            r.spec_target_id() == target_id@,
    {
        ConnectionNode { id, target_id, is_shutdown: false }
    }

    /// The node's id.
    pub fn id(&self) -> (r: &str)
        ensures
            r@ == self.spec_id(),
    {
        self.id.as_str()
    }

    /// The target node id this connection subscribes to.
    pub fn target_id(&self) -> (r: &str)
        ensures
            r@ == self.spec_target_id(),
    {
        self.target_id.as_str()
    }

    /// A human-readable description of this node's type.
    pub fn node_type(&self) -> (r: &'static str)
        ensures
            r@ == "connection"@,
    {
        "connection"
    }

    /// Connection nodes do not process edits: they are read-only
    /// subscribers. Succeeds while healthy, fails after shutdown.
    pub fn receive_edit(&self, _edit: &Edit) -> (r: Result<(), NodeError>)
        ensures
            self.spec_healthy() ==> r is Ok,
            !self.spec_healthy() ==> r == Err::<(), NodeError>(NodeError::Shutdown),
    {
        if self.is_shutdown {
            return Err(NodeError::Shutdown);
        }
        Ok(())
    }

    /// Rewrite an event's source to this node before it goes out on the
    /// red port. Fails after shutdown.
    pub fn receive_event(&self, event: Event) -> (r: Result<Event, NodeError>)
        ensures
            self.spec_healthy() ==> (r matches Ok(out) && out.source@ == self.spec_id()
                && out.event_type == event.event_type && out.payload == event.payload),
            !self.spec_healthy() ==> r == Err::<Event, NodeError>(NodeError::Shutdown),
    {
        if self.is_shutdown {
            return Err(NodeError::Shutdown);
        }
        Ok(Event { source: self.id.clone(), event_type: event.event_type, payload: event.payload })
    }

    /// The connection has no blue channel of its own: it forwards the
    /// target's, so its own count is zero.
    pub fn blue_subscriber_count(&self) -> (r: usize)
        ensures
            r == 0,
    {
        0
    }

    /// Mark the node shut down; receive operations fail from here on.
    pub fn shutdown(&mut self)
        ensures
            !final(self).spec_healthy(),
            final(self).spec_id() == old(self).spec_id(),
            final(self).spec_target_id() == old(self).spec_target_id(),
    {
        self.is_shutdown = true;
    }

    /// Whether the node is healthy and operational.
    pub fn is_healthy(&self) -> (r: bool)
        ensures
            r == self.spec_healthy(),
    {
        !self.is_shutdown
    }
}

}
