//! The content of a replicated document as plain values: its node list,
//! one node per character ever inserted, each with its identity, its
//! character and whether it is tombstoned.

use crate::kit::rga_apply;
use crate::ops::{OpView, OperationId};
use vstd::prelude::*;

verus! {

/// One character node: identity, character, tombstoned.
pub type Node = (OperationId, char, bool);

/// The ids of the visible (not tombstoned) nodes, in order.
pub open spec fn visible_ids(nodes: Seq<Node>) -> Seq<OperationId>
    decreases nodes.len(),
{
    if nodes.len() == 0 {
        Seq::empty()
    } else if nodes[0].2 {
        visible_ids(nodes.drop_first())
    } else {
        seq![nodes[0].0] + visible_ids(nodes.drop_first())
    }
}

/// The visible text: the characters of the visible nodes, in order.
pub open spec fn visible_text(nodes: Seq<Node>) -> Seq<char>
    decreases nodes.len(),
{
    if nodes.len() == 0 {
        Seq::empty()
    } else if nodes[0].2 {
        visible_text(nodes.drop_first())
    } else {
        seq![nodes[0].1] + visible_text(nodes.drop_first())
    }
}

/// The id of the visible character at index `i`, if there is one.
pub open spec fn visible_id_at(nodes: Seq<Node>, i: int) -> Option<OperationId> {
    if 0 <= i < visible_ids(nodes).len() {
        Some(visible_ids(nodes)[i])
    } else {
        None
    }
}

/// `nodes` with the first node whose id is `target` tombstoned.
pub open spec fn tombstone_first(nodes: Seq<Node>, target: OperationId) -> Seq<Node>
    decreases nodes.len(),
{
    if nodes.len() == 0 {
        nodes
    } else if nodes[0].0 == target {
        seq![(nodes[0].0, nodes[0].1, true)] + nodes.drop_first()
    } else {
        seq![nodes[0]] + tombstone_first(nodes.drop_first(), target)
    }
}

/// `nodes` after applying `ops` in order.
pub open spec fn apply_all(nodes: Seq<Node>, ops: Seq<OpView>) -> Seq<Node>
    decreases ops.len(),
{
    if ops.len() == 0 {
        nodes
    } else {
        rga_apply(apply_all(nodes, ops.drop_last()), ops.last())
    }
}

/// The node list of a replica that started empty and applied `ops`.
pub open spec fn replay(ops: Seq<OpView>) -> Seq<Node> {
    apply_all(Seq::empty(), ops)
}

/// `id` is the id of some node.
pub open spec fn has_node(nodes: Seq<Node>, id: OperationId) -> bool {
    exists|k: int| 0 <= k < nodes.len() && #[trigger] nodes[k].0 == id
}

/// Applying `a` then `b` is applying `a + b`.
pub proof fn lemma_apply_all_concat(nodes: Seq<Node>, a: Seq<OpView>, b: Seq<OpView>)
    ensures
        apply_all(apply_all(nodes, a), b) == apply_all(nodes, a + b),
    decreases b.len(),
{
    if b.len() == 0 {
        assert(a + b =~= a);
    } else {
        lemma_apply_all_concat(nodes, a, b.drop_last());
        assert((a + b).drop_last() =~= a + b.drop_last());
        assert((a + b).last() == b.last());
    }
}

/// Every visible id is the id of a node.
pub proof fn lemma_visible_ids_are_nodes(nodes: Seq<Node>)
    ensures
        forall|i: int| 0 <= i < visible_ids(nodes).len() ==> has_node(nodes, #[trigger] visible_ids(nodes)[i]),
    decreases nodes.len(),
{
    if nodes.len() > 0 {
        let rest = nodes.drop_first();
        lemma_visible_ids_are_nodes(rest);
        assert forall|i: int| 0 <= i < visible_ids(nodes).len() implies has_node(nodes, #[trigger] visible_ids(nodes)[i]) by {
            if !nodes[0].2 && i == 0 {
                assert(nodes[0].0 == visible_ids(nodes)[i]);
            } else {
                let j = if nodes[0].2 { i } else { i - 1 };
                assert(visible_ids(nodes)[i] == visible_ids(rest)[j]);
                assert(has_node(rest, visible_ids(rest)[j]));
                let k = choose|k: int| 0 <= k < rest.len() && #[trigger] rest[k].0 == visible_ids(rest)[j];
                assert(nodes[k + 1].0 == rest[k].0);
            }
        }
    }
}

/// Tombstoning keeps every node's id and character.
pub proof fn lemma_tombstone_keeps_ids(nodes: Seq<Node>, target: OperationId)
    ensures
        tombstone_first(nodes, target).len() == nodes.len(),
        forall|k: int| 0 <= k < nodes.len() ==> (#[trigger] tombstone_first(nodes, target)[k]).0 == nodes[k].0
            && tombstone_first(nodes, target)[k].1 == nodes[k].1,
    decreases nodes.len(),
{
    if nodes.len() > 0 && nodes[0].0 != target {
        lemma_tombstone_keeps_ids(nodes.drop_first(), target);
        let r = tombstone_first(nodes, target);
        assert forall|k: int| 0 <= k < nodes.len() implies (#[trigger] r[k]).0 == nodes[k].0 && r[k].1 == nodes[k].1 by {
            if k > 0 {
                assert(r[k] == tombstone_first(nodes.drop_first(), target)[k - 1]);
            }
        }
    }
}

/// Tombstoning the same target twice is tombstoning it once: a second
/// delete of a character changes nothing.
pub proof fn lemma_tombstone_idempotent(nodes: Seq<Node>, target: OperationId)
    ensures
        tombstone_first(tombstone_first(nodes, target), target) == tombstone_first(nodes, target),
    decreases nodes.len(),
{
    let once = tombstone_first(nodes, target);
    if nodes.len() == 0 {
    } else if nodes[0].0 == target {
        assert(once[0].0 == target);
        assert(once.drop_first() =~= nodes.drop_first());
        assert(tombstone_first(once, target) =~= once);
    } else {
        lemma_tombstone_idempotent(nodes.drop_first(), target);
        assert(once[0] == nodes[0]);
        assert(once.drop_first() =~= tombstone_first(nodes.drop_first(), target));
        assert(tombstone_first(once, target) =~= once);
    }
}

} // verus!
