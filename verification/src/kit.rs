//! The replicated document of `crdts_kit`, seen from this library.
//!
//! `CrdtDocument` is opaque here. Its participant registry, its version
//! counter, the logical clock of its RGA string and the RGA node list are
//! given names, and the wrappers below state what each call of `crdts_kit`
//! does to them, as the crate's source shows it. Where a node lands when an
//! insert is integrated (`RgaString::apply`) is named, not written out.

use crate::model::{has_node, tombstone_first, visible_id_at, apply_all, Node};
use crate::ops::{views, OpView, OperationId, TextOperation};
use crdts_kit::document::{CrdtDocument, DocumentId, ParticipantId};
use vstd::prelude::*;

verus! {

#[verifier::external_type_specification]
#[verifier::external_body]
pub struct ExCrdtDocument(CrdtDocument);

/// The participant registry of a document: site id to (the site id stored
/// with the participant, display name).
pub uninterp spec fn participants_of(doc: CrdtDocument) -> Map<u32, (u32, Seq<char>)>;

/// The public `version` counter of a document.
pub uninterp spec fn version_of(doc: CrdtDocument) -> u64;

/// The logical clock of the document's RGA string (a private field of
/// `crdts_kit`: the largest operation counter it has generated or seen).
pub uninterp spec fn clock_of(doc: CrdtDocument) -> u64;

/// The node list of the document's RGA string (the private field
/// `content.nodes`): per node its id, its character and its tombstone flag.
pub uninterp spec fn nodes_of(doc: CrdtDocument) -> Seq<Node>;

/// The node list after `RgaString::apply(op)` on a string whose node list
/// is `nodes` (it depends on nothing else; the clock is changed apart).
pub uninterp spec fn rga_apply(nodes: Seq<Node>, op: OpView) -> Seq<Node>;

/// Site id under which `insert_text` authors operations for `site`: the one
/// stored in the registry, or `site` itself when it is not registered.
pub open spec fn authoring_site(doc: CrdtDocument, site: u32) -> u32 {
    if participants_of(doc).contains_key(site) {
        participants_of(doc)[site].0
    } else {
        site
    }
}

/// `CrdtDocument::new(DocumentId(id))`: an empty registry, version 0 and a
/// fresh RGA string with no nodes whose clock is 0. The id is stored in the document and
/// read nowhere in this library.
#[verifier::external_body]
pub fn doc_new(id: &str) -> (doc: CrdtDocument)
    ensures
        participants_of(doc).dom() =~= Set::<u32>::empty(),
        version_of(doc) == 0,
        clock_of(doc) == 0,
        nodes_of(doc) == Seq::<Node>::empty(),
{
    CrdtDocument::new(DocumentId(id.to_string()))
}

/// `CrdtDocument::join`: inserts (or replaces) the registry entry of `site`
/// with site id `site` and the given name; nothing else changes. The
/// participant id it returns is `site` again and is dropped.
#[verifier::external_body]
pub fn doc_join(doc: &mut CrdtDocument, site: u32, name: &str)
    ensures
        participants_of(*final(doc)) == participants_of(*old(doc)).insert(site, (site, name@)),
        version_of(*final(doc)) == version_of(*old(doc)),
        clock_of(*final(doc)) == clock_of(*old(doc)),
        nodes_of(*final(doc)) == nodes_of(*old(doc)),
{
    doc.join(ParticipantId(site), name);
}

/// `CrdtDocument::leave`: removes the registry entry of `site`, if any;
/// nothing else changes.
#[verifier::external_body]
pub fn doc_leave(doc: &mut CrdtDocument, site: u32)
    ensures
        participants_of(*final(doc)) == participants_of(*old(doc)).remove(site),
        version_of(*final(doc)) == version_of(*old(doc)),
        clock_of(*final(doc)) == clock_of(*old(doc)),
        nodes_of(*final(doc)) == nodes_of(*old(doc)),
{
    doc.leave(&ParticipantId(site));
}

/// Reads the public field `CrdtDocument::version`.
#[verifier::external_body]
pub fn doc_version(doc: &CrdtDocument) -> (v: u64)
    ensures
        v == version_of(*doc),
{
    doc.version
}

/// `CrdtDocument::insert_text`: one `Insert` per character of `text`, in
/// order, authored by `authoring_site`, with consecutive counters following
/// the clock. The first character goes after the visible character at
/// `pos - 1` (none when `pos` is 0 or past the end), each later one after
/// the one before it, and all go before the visible character at `pos`.
/// The operations are applied to the node list in order; every node they
/// leave has the id of an earlier node or of one of them. The version goes
/// up by one and the clock by the number of characters. `version + 1` and
/// the clock overflow otherwise, hence `requires`.
#[verifier::external_body]
pub fn doc_insert_text(doc: &mut CrdtDocument, site: u32, pos: usize, text: &str) -> (ops: Vec<
    TextOperation,
>)
    requires
        version_of(*old(doc)) < u64::MAX,
        clock_of(*old(doc)) + text@.len() <= u64::MAX,
    ensures
        participants_of(*final(doc)) == participants_of(*old(doc)),
        version_of(*final(doc)) == version_of(*old(doc)) + 1,
        clock_of(*final(doc)) == clock_of(*old(doc)) + text@.len(),
        ops@.len() == text@.len(),
        forall|i: int|
            #![trigger ops@[i]]
            0 <= i < ops@.len() ==> {
                &&& ops@[i] matches TextOperation::Insert {
                    id,
                    position,
                    content,
                    origin_left,
                    origin_right,
                }
                &&& id == (OperationId {
                    site_id: authoring_site(*old(doc), site),
                    counter: (clock_of(*old(doc)) + 1 + i) as u64,
                })
                &&& position == pos
                &&& content@ == seq![text@[i]]
                &&& i == 0 ==> origin_left == (if pos == 0 {
                    None
                } else {
                    visible_id_at(nodes_of(*old(doc)), pos - 1)
                })
                &&& i > 0 ==> origin_left == Some(ops@[i - 1].id_spec())
                &&& origin_right == visible_id_at(nodes_of(*old(doc)), pos as int)
            },
        nodes_of(*final(doc)) == apply_all(nodes_of(*old(doc)), views(ops@)),
        forall|k: int|
            #![trigger nodes_of(*final(doc))[k]]
            0 <= k < nodes_of(*final(doc)).len() ==> has_node(
                nodes_of(*old(doc)),
                nodes_of(*final(doc))[k].0,
            ) || exists|i: int|
                #![trigger ops@[i]]
                0 <= i < ops@.len() && ops@[i].id_spec() == nodes_of(*final(doc))[k].0,
{
    let id = |o: crdts_kit::text::OperationId| OperationId { site_id: o.site_id, counter: o.counter };
    let ops = doc.insert_text(ParticipantId(site), pos, text).0;
    ops.into_iter().map(|op| match op {
        crdts_kit::text::TextOperation::Insert { id: i, position, content, origin_left: l, origin_right: r } =>
            TextOperation::Insert { id: id(i), position, content, origin_left: l.map(id), origin_right: r.map(id) },
        crdts_kit::text::TextOperation::Delete { id: i, target: t } =>
            TextOperation::Delete { id: id(i), target: id(t) },
    }).collect()
}

/// `CrdtDocument::apply_ops` on the single operation `Delete { id, target }`:
/// the first node whose id is `target` (if any) is tombstoned, the clock
/// becomes the larger of itself and `id.counter`, and the version goes up by
/// one. `version + 1` overflows otherwise, hence `requires`.
#[verifier::external_body]
pub fn doc_apply_delete(doc: &mut CrdtDocument, id: OperationId, target: OperationId)
    requires
        version_of(*old(doc)) < u64::MAX,
    ensures
        participants_of(*final(doc)) == participants_of(*old(doc)),
        version_of(*final(doc)) == version_of(*old(doc)) + 1,
        clock_of(*final(doc)) == if id.counter > clock_of(*old(doc)) {
            id.counter
        } else {
            clock_of(*old(doc))
        },
        nodes_of(*final(doc)) == rga_apply(nodes_of(*old(doc)), OpView::Delete { id, target }),
        nodes_of(*final(doc)) == tombstone_first(nodes_of(*old(doc)), target),
{
    let kid = |o: OperationId| crdts_kit::text::OperationId { site_id: o.site_id, counter: o.counter };
    doc.apply_ops(&[crdts_kit::text::TextOperation::Delete { id: kid(id), target: kid(target) }]);
}

/// Walks the public field `CrdtDocument::participants` (a `HashMap`) and
/// returns `(site, name)` per entry. The walk order is that of the hash map
/// and is not stated; every entry appears exactly once.
#[verifier::external_body]
pub fn doc_participants(doc: &CrdtDocument) -> (r: Vec<(u32, String)>)
    ensures
        forall|i: int|
            #![trigger r@[i]]
            0 <= i < r@.len() ==> participants_of(*doc).contains_key(r@[i].0)
                && participants_of(*doc)[r@[i].0].1 == r@[i].1@,
        forall|i: int, j: int|
            #![trigger r@[i], r@[j]]
            0 <= i < j < r@.len() ==> r@[i].0 != r@[j].0,
        forall|k: u32|
            #![trigger participants_of(*doc).contains_key(k)]
            participants_of(*doc).contains_key(k) ==> exists|i: int|
                #![trigger r@[i]]
                0 <= i < r@.len() && r@[i].0 == k,
{
    doc.participants.iter().map(|(id, info)| (id.0, info.name.clone())).collect()
}

} // verus!
