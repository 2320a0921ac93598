//! The server's authoritative state: one replicated document, the log of
//! every canonical operation applied to it, and the site-id dispenser. Each
//! method is one decision of the server about an event of a connection; it
//! gives back the messages to send.

use crate::kit::{
    clock_of, doc_apply_delete, doc_insert_text, doc_join, doc_leave, doc_new, doc_version,
    nodes_of, participants_of, version_of,
};
use crate::model::{
    apply_all, has_node, lemma_apply_all_concat, lemma_tombstone_keeps_ids,
    lemma_visible_ids_are_nodes, replay, tombstone_first, visible_id_at, visible_ids,
    visible_text, Node,
};
use crate::ops::{duplicate_all, views, ClientMsg, OpView, OperationId, ServerMsg, TextOperation};
use crate::roster::{entries_view, is_roster_of, roster};
use crdts_kit::document::CrdtDocument;
use vstd::prelude::*;
use vstd::string::StrSliceExecFns;

verus! {

/// Shared server state: one document, its operation log, the next site id
/// to hand out, and the document's RGA clock (kept here because
/// `crdts_kit` does not expose it).
pub struct AppState {
    doc: CrdtDocument,
    log: Vec<TextOperation>,
    next_site: u32,
    clock: u64,
}

/// The site following `s` in the dispenser (wrapping, as an atomic counter
/// does).
pub open spec fn next_site_after(s: u32) -> u32 {
    if s == u32::MAX {
        0
    } else {
        (s + 1) as u32
    }
}

/// The site the dispenser holds after handing out `n` ids from `k`.
pub open spec fn site_after(k: u32, n: nat) -> u32
    decreases n,
{
    if n == 0 {
        k
    } else {
        next_site_after(site_after(k, (n - 1) as nat))
    }
}

/// `ms` broadcasts exactly the operations `ops`, in order, as authored by
/// `site`.
pub open spec fn broadcasts(ms: Seq<ServerMsg>, site: u32, ops: Seq<TextOperation>) -> bool {
    &&& ms.len() == ops.len()
    &&& forall|i: int|
        #![trigger ms[i]]
        0 <= i < ms.len() ==> ms[i] == (ServerMsg::Op { from: site, op: ops[i] })
}

/// Every insert in `log` whose left origin names a character names one
/// inserted by an operation logged before it, so a client that applies the
/// log in order always has an insert's left origin already.
pub open spec fn origins_logged(log: Seq<TextOperation>) -> bool {
    forall|i: int|
        #![trigger log[i]]
        0 <= i < log.len() ==> (log[i] matches TextOperation::Insert {
            origin_left: Some(l),
            ..
        } ==> exists|j: int| 0 <= j < i && #[trigger] log[j].id_spec() == l)
}

/// No two operations of `log` share an id.
pub open spec fn ids_distinct(log: Seq<TextOperation>) -> bool {
    forall|i: int, j: int|
        #![trigger log[i], log[j]]
        0 <= i < j < log.len() ==> log[i].id_spec() != log[j].id_spec()
}

/// Every node of `nodes` was made by an operation of `log`.
pub open spec fn nodes_logged(nodes: Seq<Node>, log: Seq<TextOperation>) -> bool {
    forall|k: int|
        #![trigger nodes[k]]
        0 <= k < nodes.len() ==> exists|j: int| 0 <= j < log.len() && #[trigger] log[j].id_spec() == nodes[k].0
}

/// What every applied intent does: the log grows by exactly the broadcast
/// operations, authored by `site`, and the document changes by exactly
/// them; the registry and the dispenser stay, and the version goes up by
/// one. No new operation's id is used by a logged operation.
pub open spec fn applied(old: AppState, new: AppState, site: u32, ms: Seq<ServerMsg>) -> bool {
    let n = old.log().len();
    let new_ops = new.log().skip(n as int);
    &&& new.log().len() >= n
    &&& new.log().take(n as int) == old.log()
    &&& broadcasts(ms, site, new_ops)
    &&& new.nodes() == apply_all(old.nodes(), views(new_ops))
    &&& new.participants() == old.participants()
    &&& new.version() == old.version() + 1
    &&& new.next_site() == old.next_site()
    &&& forall|i: int, j: int|
        #![trigger new_ops[i], old.log()[j]]
        0 <= i < new_ops.len() && 0 <= j < n ==> new_ops[i].id_spec() != old.log()[j].id_spec()
}

/// What an applied insert of `text` at visible index `pos` adds: one
/// `Insert` per character, with ids `(site, clock + 1 + i)`, the first after
/// the visible character at `pos - 1` (none at 0 or past the end), each
/// later one after the one before, all before the visible character at
/// `pos`.
pub open spec fn inserted(old: AppState, new: AppState, site: u32, pos: usize, text: Seq<char>) -> bool {
    let new_ops = new.log().skip(old.log().len() as int);
    &&& new_ops.len() == text.len()
    &&& new.clock() == old.clock() + text.len()
    &&& forall|i: int|
        #![trigger new_ops[i]]
        0 <= i < new_ops.len() ==> {
            &&& new_ops[i] matches TextOperation::Insert {
                id,
                position,
                content,
                origin_left,
                origin_right,
            }
            &&& id == (OperationId { site_id: site, counter: (old.clock() + 1 + i) as u64 })
            &&& position == pos
            &&& content@ == seq![text[i]]
            &&& i == 0 ==> origin_left == (if pos == 0 {
                None
            } else {
                visible_id_at(old.nodes(), pos - 1)
            })
            &&& i > 0 ==> origin_left == Some(new_ops[i - 1].id_spec())
            &&& origin_right == visible_id_at(old.nodes(), pos as int)
        }
}

/// What an applied delete of `target` adds: the single operation
/// `Delete { id: (site, clock + 1), target }`, which tombstones the first
/// node whose id is `target` and moves the clock on by one.
pub open spec fn deleted(old: AppState, new: AppState, site: u32, target: OperationId) -> bool {
    &&& new.log().skip(old.log().len() as int) == seq![
        TextOperation::Delete {
            id: OperationId { site_id: site, counter: (old.clock() + 1) as u64 },
            target,
        },
    ]
    &&& new.nodes() == tombstone_first(old.nodes(), target)
    &&& new.clock() == old.clock() + 1
}

impl AppState {
    /// The participant registry of the document.
    pub closed spec fn participants(&self) -> Map<u32, (u32, Seq<char>)> {
        participants_of(self.doc)
    }

    /// The document's version counter.
    pub closed spec fn version(&self) -> u64 {
        version_of(self.doc)
    }

    /// The logical clock of the document's replicated string.
    pub closed spec fn clock(&self) -> u64 {
        clock_of(self.doc)
    }

    /// The node list of the document's replicated string.
    pub closed spec fn nodes(&self) -> Seq<Node> {
        nodes_of(self.doc)
    }

    /// The document's visible text.
    pub open spec fn text(&self) -> Seq<char> {
        visible_text(self.nodes())
    }

    /// Every operation applied to the document, in order.
    pub closed spec fn log(&self) -> Seq<TextOperation> {
        self.log@
    }

    /// The site id the next connection receives.
    pub closed spec fn next_site(&self) -> u32 {
        self.next_site
    }

    /// The state's invariant: every registered participant authors under its
    /// own site id; the document's nodes are exactly those of an empty
    /// replica that applied the log, and each was made by a logged
    /// operation; inserts' left origins were logged before them; every
    /// logged counter is at most the clock and no two logged operations share
    /// an id; the clock is mirrored.
    pub closed spec fn wf(&self) -> bool {
        &&& forall|k: u32|
            #![trigger self.participants().contains_key(k)]
            self.participants().contains_key(k) ==> self.participants()[k].0 == k
        &&& forall|i: int|
            #![trigger self.log@[i]]
            0 <= i < self.log@.len() ==> self.log@[i].id_spec().counter <= self.clock()
        &&& ids_distinct(self.log@)
        &&& self.clock() == self.clock
        &&& self.nodes() == replay(views(self.log@))
        &&& nodes_logged(self.nodes(), self.log@)
        &&& origins_logged(self.log@)
    }

    /// Whether the document's counters leave room for `intent`: the
    /// version, and for an insert the clock, must not overflow.
    pub open spec fn intent_fits(&self, intent: ClientMsg) -> bool {
        &&& self.version() < u64::MAX
        &&& match intent {
            ClientMsg::InsertAt { text, .. } => self.clock() + text@.len() <= u64::MAX,
            ClientMsg::DeleteChar { .. } => self.clock() < u64::MAX,
        }
    }

    /// Creates the demo state: a single empty document named `"main"`, an
    /// empty log, and site ids starting at 1.
    pub fn new() -> (s: Self)
        ensures
            s.wf(),
            s.participants().dom() =~= Set::<u32>::empty(),
            s.version() == 0,
            s.clock() == 0,
            s.nodes() == Seq::<Node>::empty(),
            s.log() =~= Seq::<TextOperation>::empty(),
            s.next_site() == 1,
    {
        let s = AppState { doc: doc_new("main"), log: Vec::new(), next_site: 1, clock: 0 };
        assert(views(s.log@) =~= Seq::<OpView>::empty());
        s
    }

    /// Hands out the site id of a new connection.
    pub fn take_site(&mut self) -> (site: u32)
        requires
            old(self).wf(),
        ensures
            final(self).wf(),
            site == old(self).next_site(),
            final(self).next_site() == next_site_after(old(self).next_site()),
            final(self).participants() == old(self).participants(),
            final(self).version() == old(self).version(),
            final(self).clock() == old(self).clock(),
            final(self).nodes() == old(self).nodes(),
            final(self).log() == old(self).log(),
    {
        let site = self.next_site;
        self.next_site = self.next_site.wrapping_add(1);
        assert(self.participants() == old(self).participants());
        site
    }

    /// Registers a connection as participant `site` under `name`, and returns
    /// its join snapshot: the site id and the full operation log, whose
    /// replay from an empty replica gives the document's node list.
    pub fn register(&mut self, site: u32, name: &str) -> (msg: ServerMsg)
        requires
            old(self).wf(),
        ensures
            final(self).wf(),
            final(self).participants() == old(self).participants().insert(site, (site, name@)),
            final(self).version() == old(self).version(),
            final(self).clock() == old(self).clock(),
            final(self).nodes() == old(self).nodes(),
            final(self).log() == old(self).log(),
            final(self).next_site() == old(self).next_site(),
            msg matches ServerMsg::Init { site_id, ops } && site_id == site && ops@ == old(
                self,
            ).log() && replay(views(ops@)) == final(self).nodes(),
    {
        doc_join(&mut self.doc, site, name);
        proof {
            assert forall|k: u32|
                #![trigger self.participants().contains_key(k)]
                self.participants().contains_key(k) implies self.participants()[k].0 == k by {
                if k != site {
                    assert(old(self).participants().contains_key(k));
                }
            }
        }
        ServerMsg::Init { site_id: site, ops: duplicate_all(&self.log) }
    }

    /// Removes participant `site` when its connection closes, and returns
    /// the presence message for the remaining participants.
    pub fn unregister(&mut self, site: u32) -> (msg: ServerMsg)
        requires
            old(self).wf(),
        ensures
            final(self).wf(),
            final(self).participants() == old(self).participants().remove(site),
            final(self).version() == old(self).version(),
            final(self).clock() == old(self).clock(),
            final(self).nodes() == old(self).nodes(),
            final(self).log() == old(self).log(),
            final(self).next_site() == old(self).next_site(),
            msg matches ServerMsg::Presence { participants } && is_roster_of(
                entries_view(participants@),
                final(self).participants(),
            ),
    {
        doc_leave(&mut self.doc, site);
        proof {
            assert forall|k: u32|
                #![trigger self.participants().contains_key(k)]
                self.participants().contains_key(k) implies self.participants()[k].0 == k by {
                assert(old(self).participants().contains_key(k));
            }
        }
        self.presence()
    }

    /// The presence message: the roster of the registered participants.
    pub fn presence(&self) -> (msg: ServerMsg)
        ensures
            msg matches ServerMsg::Presence { participants } && is_roster_of(
                entries_view(participants@),
                self.participants(),
            ),
    {
        ServerMsg::Presence { participants: roster(&self.doc) }
    }

    /// Translates one client intent into canonical operations: applies them
    /// to the document, appends them to the log and returns the messages
    /// that fan them out to every tab, the author included. An insert is
    /// resolved against the document's visible text at index `pos`; a delete
    /// names its target character and gets the id `(site, clock + 1)`, which
    /// no logged operation carries.
    /// `None`, with nothing changed, when the document's counters have no
    /// room left for the intent.
    pub fn apply_intent(&mut self, site: u32, intent: ClientMsg) -> (msgs: Option<Vec<ServerMsg>>)
        requires
            old(self).wf(),
        ensures
            final(self).wf(),
            msgs is Some <==> old(self).intent_fits(intent),
            old(self).version() < u64::MAX && match intent {
                ClientMsg::InsertAt { text, .. } => old(self).clock() + text@.len() <= u64::MAX,
                ClientMsg::DeleteChar { .. } => old(self).clock() < u64::MAX,
            } ==> msgs is Some,
            msgs is None ==> *final(self) == *old(self),
            msgs matches Some(ms) ==> applied(*old(self), *final(self), site, ms@),
            msgs matches Some(ms) ==> match intent {
                ClientMsg::InsertAt { pos, text } => inserted(*old(self), *final(self), site, pos, text@),
                ClientMsg::DeleteChar { target } => deleted(*old(self), *final(self), site, target),
            },
    {
        match intent {
            ClientMsg::InsertAt { pos, text } => self.apply_insert(site, pos, text),
            ClientMsg::DeleteChar { target } => self.apply_delete(site, target),
        }
    }

    /// Applies an insert intent.
    #[verifier::rlimit(40)]
    fn apply_insert(&mut self, site: u32, pos: usize, text: String) -> (msgs: Option<Vec<ServerMsg>>)
        requires
            old(self).wf(),
        ensures
            final(self).wf(),
            msgs is Some <==> old(self).intent_fits(ClientMsg::InsertAt { pos, text }),
            msgs is None ==> *final(self) == *old(self),
            msgs matches Some(ms) ==> applied(*old(self), *final(self), site, ms@)
                && inserted(*old(self), *final(self), site, pos, text@),
    {
        let v = doc_version(&self.doc);
        let n = text.as_str().unicode_len() as u64;
        if v == u64::MAX || n > u64::MAX - self.clock {
            return None;
        }
        let ghost old_log = self.log@;
        let ghost old_clock = clock_of(self.doc);
        let ghost old_nodes = nodes_of(self.doc);
        let ghost old_parts = self.participants();
        proof {
            if old_parts.contains_key(site) {
                assert(old_parts[site].0 == site);
            }
        }
        let ops = doc_insert_text(&mut self.doc, site, pos, text.as_str());
        let ghost mid_doc = self.doc;
        let mut msgs: Vec<ServerMsg> = Vec::new();
        let mut i: usize = 0;
        while i < ops.len()
            invariant
                i <= ops@.len(),
                self.doc == mid_doc,
                self.next_site == old(self).next_site,
                self.clock == old(self).clock,
                self.log@ == old_log + ops@.take(i as int),
                broadcasts(msgs@, site, ops@.take(i as int)),
            decreases ops@.len() - i,
        {
            self.log.push(ops[i].duplicate());
            msgs.push(ServerMsg::Op { from: site, op: ops[i].duplicate() });
            proof {
                assert(ops@.take(i as int).push(ops@[i as int]) =~= ops@.take(i + 1));
                assert(old_log + ops@.take(i + 1) =~= (old_log + ops@.take(i as int)).push(
                    ops@[i as int],
                ));
            }
            i = i + 1;
        }
        self.clock = self.clock + n;
        proof {
            assert(ops@.take(ops@.len() as int) =~= ops@);
            let nl = self.log@;
            let ol = old_log.len() as int;
            assert(nl.skip(ol) =~= ops@);
            assert(nl.take(ol) =~= old_log);
            assert(views(nl) =~= views(old_log) + views(ops@));
            lemma_apply_all_concat(Seq::<Node>::empty(), views(old_log), views(ops@));
            assert forall|k: u32|
                #![trigger self.participants().contains_key(k)]
                self.participants().contains_key(k) implies self.participants()[k].0
                    == k by {
                assert(old_parts.contains_key(k));
            }
            assert forall|j: int|
                #![trigger nl[j]]
                0 <= j < nl.len() implies nl[j].id_spec().counter <= self.clock() by {
                if j < ol {
                    assert(nl[j] == old_log[j]);
                } else {
                    assert(nl[j] == ops@[j - ol]);
                }
            }
            assert forall|a: int, b: int|
                #![trigger nl[a], nl[b]]
                0 <= a < b < nl.len() implies nl[a].id_spec() != nl[b].id_spec() by {
                if b < ol {
                    assert(nl[a] == old_log[a] && nl[b] == old_log[b]);
                } else if a < ol {
                    assert(nl[a] == old_log[a] && nl[b] == ops@[b - ol]);
                    assert(old_log[a].id_spec().counter <= old_clock);
                } else {
                    assert(nl[a] == ops@[a - ol] && nl[b] == ops@[b - ol]);
                }
            }
            let nn = nodes_of(self.doc);
            assert forall|k: int|
                #![trigger nn[k]]
                0 <= k < nn.len() implies exists|j: int|
                    0 <= j < nl.len() && #[trigger] nl[j].id_spec() == nn[k].0 by {
                if has_node(old_nodes, nn[k].0) {
                    let k0 = choose|k0: int| 0 <= k0 < old_nodes.len() && #[trigger] old_nodes[k0].0 == nn[k].0;
                    let j = choose|j: int| 0 <= j < old_log.len() && #[trigger] old_log[j].id_spec() == old_nodes[k0].0;
                    assert(nl[j] == old_log[j]);
                } else {
                    let m = choose|m: int| 0 <= m < ops@.len() && #[trigger] ops@[m].id_spec() == nn[k].0;
                    assert(nl[ol + m] == ops@[m]);
                }
            }
            lemma_visible_ids_are_nodes(old_nodes);
            assert forall|j: int|
                #![trigger nl[j]]
                0 <= j < nl.len() implies (nl[j] matches TextOperation::Insert {
                    origin_left: Some(l),
                    ..
                } ==> exists|j2: int| 0 <= j2 < j && #[trigger] nl[j2].id_spec() == l) by {
                if j < ol {
                    assert(nl[j] == old_log[j]);
                    if let TextOperation::Insert { origin_left: Some(l), .. } = nl[j] {
                        let j2 = choose|j2: int| 0 <= j2 < j && #[trigger] old_log[j2].id_spec() == l;
                        assert(nl[j2] == old_log[j2]);
                    }
                } else {
                    let m = j - ol;
                    assert(nl[j] == ops@[m]);
                    if let TextOperation::Insert { origin_left: Some(l), .. } = nl[j] {
                        if m == 0 {
                            assert(visible_id_at(old_nodes, pos - 1) == Some(l));
                            assert(has_node(old_nodes, visible_ids(old_nodes)[pos - 1]));
                            let k0 = choose|k0: int| 0 <= k0 < old_nodes.len() && #[trigger] old_nodes[k0].0 == l;
                            let j2 = choose|j2: int| 0 <= j2 < old_log.len() && #[trigger] old_log[j2].id_spec() == old_nodes[k0].0;
                            assert(nl[j2] == old_log[j2]);
                        } else {
                            assert(nl[j - 1] == ops@[m - 1]);
                        }
                    }
                }
            }
            assert forall|a: int, b: int|
                #![trigger ops@[a], old_log[b]]
                0 <= a < ops@.len() && 0 <= b < old_log.len() implies ops@[a].id_spec()
                != old_log[b].id_spec() by {
                assert(old_log[b].id_spec().counter <= old_clock);
            }
        }
        Some(msgs)
    }

    /// Applies a delete intent.
    #[verifier::rlimit(40)]
    fn apply_delete(&mut self, site: u32, target: OperationId) -> (msgs: Option<Vec<ServerMsg>>)
        requires
            old(self).wf(),
        ensures
            final(self).wf(),
            msgs is Some <==> old(self).intent_fits(ClientMsg::DeleteChar { target }),
            msgs is None ==> *final(self) == *old(self),
            msgs matches Some(ms) ==> applied(*old(self), *final(self), site, ms@)
                && deleted(*old(self), *final(self), site, target),
    {
        let v = doc_version(&self.doc);
        if v == u64::MAX || self.clock == u64::MAX {
            return None;
        }
        let ghost old_log = self.log@;
        let ghost old_parts = self.participants();
        let ghost old_nodes = nodes_of(self.doc);
        let ghost old_clock = self.clock;
        // The delete's own id follows the clock, so no operation the
        // document has generated or seen carries it.
        let id = OperationId { site_id: site, counter: self.clock + 1 };
        doc_apply_delete(&mut self.doc, id, target);
        self.clock = self.clock + 1;
        let op = TextOperation::Delete { id, target };
        self.log.push(op.duplicate());
        let mut msgs: Vec<ServerMsg> = Vec::new();
        msgs.push(ServerMsg::Op { from: site, op });
        proof {
            let nl = self.log@;
            let ol = old_log.len() as int;
            assert(nl.skip(ol) =~= seq![op]);
            assert(nl.take(ol) =~= old_log);
            let dv = seq![op@];
            assert(views(nl) =~= views(old_log) + dv);
            assert(dv.drop_last() =~= Seq::<OpView>::empty());
            assert(dv.last() == op@);
                assert(apply_all(old_nodes, dv.drop_last()) == old_nodes);
                assert(apply_all(old_nodes, dv) == nodes_of(self.doc));
            assert(views(seq![op]) =~= dv);
            lemma_apply_all_concat(Seq::<Node>::empty(), views(old_log), dv);
            lemma_tombstone_keeps_ids(old_nodes, target);
            assert forall|k: u32|
                #![trigger self.participants().contains_key(k)]
                self.participants().contains_key(k) implies self.participants()[k].0
                    == k by {
                assert(old_parts.contains_key(k));
            }
            assert forall|j: int|
                #![trigger nl[j]]
                0 <= j < nl.len() implies nl[j].id_spec().counter <= self.clock() by {
                if j < ol {
                    assert(nl[j] == old_log[j]);
                }
            }
            assert forall|a: int, b: int|
                #![trigger nl[a], nl[b]]
                0 <= a < b < nl.len() implies nl[a].id_spec() != nl[b].id_spec() by {
                assert(nl[a] == old_log[a]);
                if b < ol {
                    assert(nl[b] == old_log[b]);
                } else {
                    assert(old_log[a].id_spec().counter <= old_clock);
                }
            }
            let nn = nodes_of(self.doc);
            assert forall|k: int|
                #![trigger nn[k]]
                0 <= k < nn.len() implies exists|j: int|
                    0 <= j < nl.len() && #[trigger] nl[j].id_spec() == nn[k].0 by {
                assert(nn[k].0 == old_nodes[k].0);
                let j = choose|j: int| 0 <= j < old_log.len() && #[trigger] old_log[j].id_spec() == old_nodes[k].0;
                assert(nl[j] == old_log[j]);
            }
            assert forall|j: int|
                #![trigger nl[j]]
                0 <= j < nl.len() implies (nl[j] matches TextOperation::Insert {
                    origin_left: Some(l),
                    ..
                } ==> exists|j2: int| 0 <= j2 < j && #[trigger] nl[j2].id_spec() == l) by {
                if j < ol {
                    assert(nl[j] == old_log[j]);
                    if let TextOperation::Insert { origin_left: Some(l), .. } = nl[j] {
                        let j2 = choose|j2: int| 0 <= j2 < j && #[trigger] old_log[j2].id_spec() == l;
                        assert(nl[j2] == old_log[j2]);
                    }
                }
            }
            assert forall|b: int|
                #![trigger old_log[b]]
                0 <= b < old_log.len() implies op.id_spec() != old_log[b].id_spec() by {
                assert(old_log[b].id_spec().counter <= old_clock);
            }
            assert(seq![op][0] == op);
        }
        Some(msgs)
    }
}

impl Default for AppState {
    fn default() -> (s: Self)
        ensures
            s.wf(),
            s.participants().dom() =~= Set::<u32>::empty(),
            s.version() == 0,
            s.clock() == 0,
            s.nodes() == Seq::<Node>::empty(),
            s.log() =~= Seq::<TextOperation>::empty(),
            s.next_site() == 1,
    {
        Self::new()
    }
}

/// The snapshot law: in every state the document's node list (and so its
/// text) is what an empty replica gets by applying the logged operations in
/// order, every insert's left origin was logged before it, and no two
/// logged operations share an id. A tab that
/// joins and replays its `Init` snapshot therefore holds the server's text.
pub proof fn lemma_log_replays_document(s: AppState)
    requires
        s.wf(),
    ensures
        s.nodes() == replay(views(s.log())),
        s.text() == visible_text(replay(views(s.log()))),
        origins_logged(s.log()),
        ids_distinct(s.log()),
{
}

/// The site handed to the `n`-th connection (counting from 0) of a new
/// state.
pub open spec fn nth_site(n: nat) -> u32 {
    ((1 + n) % 0x1_0000_0000) as u32
}

/// Site ids: a new state hands out 1 first; each connection gets the id
/// that follows its predecessor's; and the first 2^32 connections all get
/// different ids.
pub proof fn lemma_site_ids(a: nat, b: nat)
    requires
        a < b < 0x1_0000_0000,
    ensures
        nth_site(0) == 1,
        nth_site(a + 1) == next_site_after(nth_site(a)),
        nth_site(a) != nth_site(b),
{
}

proof fn lemma_site_after_value(k: u32, n: nat)
    requires
        k + n <= u32::MAX,
    ensures
        site_after(k, n) == k + n,
    decreases n,
{
    if n > 0 {
        lemma_site_after_value(k, (n - 1) as nat);
    }
}

/// Site ids from any start: after `n` connections from a dispenser at `k`,
/// with `k + n` not past `u32::MAX`, the ids handed out were
/// `k, k + 1, ..., k + n - 1`, each once, and the dispenser holds `k + n`.
pub proof fn lemma_sites_from(k: u32, n: nat)
    requires
        k + n <= u32::MAX,
    ensures
        site_after(k, n) == k + n,
        forall|i: nat| i <= n ==> #[trigger] site_after(k, i) == k + i,
        forall|i: nat, j: nat| i < j <= n ==> site_after(k, i) != site_after(k, j),
{
    assert forall|i: nat| i <= n implies #[trigger] site_after(k, i) == k + i by {
        lemma_site_after_value(k, i);
    }
}

/// Intents are refused only for counter overflow: whenever the version has
/// room, an insert of any length fits while the clock has room for its
/// characters, and a delete of any target fits while the clock has room
/// for one more id.
pub proof fn lemma_intents_fit(s: AppState, pos: usize, text: String, target: OperationId)
    ensures
        s.version() < u64::MAX && s.clock() + text@.len() <= u64::MAX ==> s.intent_fits(
            ClientMsg::InsertAt { pos, text },
        ),
        s.version() < u64::MAX && s.clock() < u64::MAX ==> s.intent_fits(
            ClientMsg::DeleteChar { target },
        ),
{
}

} // verus!
