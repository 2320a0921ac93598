//! The wire vocabulary of the editing session: character identities, the
//! canonical RGA operations that travel between replicas, and the messages
//! exchanged with browser tabs.

use vstd::prelude::*;

verus! {

/// Identity of one character operation: the authoring site and that site's
/// logical clock value when the operation was made.
#[derive(Clone, Copy, Debug, PartialEq, Eq, Structural)]
pub struct OperationId {
    /// Site (replica) that created the operation.
    pub site_id: u32,
    /// Logical clock value at creation time.
    pub counter: u64,
}

/// A canonical operation on the replicated text.
#[derive(Debug)]
pub enum TextOperation {
    /// Insert one character between `origin_left` and `origin_right`.
    Insert {
        /// Identity of the inserted character.
        id: OperationId,
        /// Visible position the insert was requested at.
        position: usize,
        /// The inserted character, as a one-character string.
        content: String,
        /// Character this one goes after (`None` = start of text).
        origin_left: Option<OperationId>,
        /// Character this one goes before (`None` = end of text).
        origin_right: Option<OperationId>,
    },
    /// Tombstone the character identified by `target`.
    Delete {
        /// Identity of the delete operation itself.
        id: OperationId,
        /// Identity of the character being deleted.
        target: OperationId,
    },
}

impl TextOperation {
    /// Returns an equal, independently owned operation.
    pub fn duplicate(&self) -> (r: TextOperation)
        ensures
            r == *self,
    {
        match self {
            TextOperation::Insert { id, position, content, origin_left, origin_right } => {
                TextOperation::Insert {
                    id: *id,
                    position: *position,
                    content: content.clone(),
                    origin_left: *origin_left,
                    origin_right: *origin_right,
                }
            },
            TextOperation::Delete { id, target } => TextOperation::Delete { id: *id, target: *target },
        }
    }

    /// Identity of the operation itself.
    pub open spec fn id_spec(&self) -> OperationId {
        match self {
            TextOperation::Insert { id, .. } => *id,
            TextOperation::Delete { id, .. } => *id,
        }
    }
}

/// A canonical operation seen as plain values.
pub enum OpView {
    /// See [`TextOperation::Insert`].
    Insert {
        id: OperationId,
        position: usize,
        content: Seq<char>,
        origin_left: Option<OperationId>,
        origin_right: Option<OperationId>,
    },
    /// See [`TextOperation::Delete`].
    Delete { id: OperationId, target: OperationId },
}

impl View for TextOperation {
    type V = OpView;

    open spec fn view(&self) -> OpView {
        match self {
            TextOperation::Insert { id, position, content, origin_left, origin_right } => {
                OpView::Insert {
                    id: *id,
                    position: *position,
                    content: content@,
                    origin_left: *origin_left,
                    origin_right: *origin_right,
                }
            },
            TextOperation::Delete { id, target } => OpView::Delete { id: *id, target: *target },
        }
    }
}

/// A sequence of operations seen as plain values.
pub open spec fn views(ops: Seq<TextOperation>) -> Seq<OpView> {
    ops.map_values(|o: TextOperation| o@)
}

/// Copies a sequence of operations into a fresh vector.
pub fn duplicate_all(ops: &Vec<TextOperation>) -> (r: Vec<TextOperation>)
    ensures
        r@ == ops@,
{
    let mut r: Vec<TextOperation> = Vec::new();
    let mut i: usize = 0;
    while i < ops.len()
        invariant
            i <= ops.len(),
            r@ == ops@.take(i as int),
        decreases ops.len() - i,
    {
        r.push(ops[i].duplicate());
        assert(ops@.take(i as int).push(ops@[i as int]) =~= ops@.take(i + 1));
        i = i + 1;
    }
    assert(ops@.take(ops.len() as int) =~= ops@);
    r
}

/// Messages a client may send.
///
/// Inserts are positional intents, resolved against the server's replica;
/// deletes name the absolute identity of the character, so a concurrent
/// delete of an already deleted character is a no-op everywhere.
#[derive(Debug)]
pub enum ClientMsg {
    /// Insert `text` at visible index `pos` of the sender's current view.
    InsertAt {
        /// Visible character index in the sender's view.
        pos: usize,
        /// Text to insert.
        text: String,
    },
    /// Tombstone the character with identity `target`.
    DeleteChar {
        /// Identity of the character to delete.
        target: OperationId,
    },
}

/// Messages the server sends.
#[derive(Debug)]
pub enum ServerMsg {
    /// Site assignment plus the full operation log (join snapshot).
    Init {
        /// Site id assigned to this connection.
        site_id: u32,
        /// Every operation applied to the document, in order.
        ops: Vec<TextOperation>,
    },
    /// A canonical operation, sent to every tab (author included).
    Op {
        /// Site that authored the intent.
        from: u32,
        /// The canonical operation.
        op: TextOperation,
    },
    /// Presence roster update.
    Presence {
        /// `(site_id, name)` for every connected tab, ordered by site id.
        participants: Vec<(u32, String)>,
    },
}

} // verus!
