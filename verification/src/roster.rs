//! The presence roster: every registered participant as `(site, name)`,
//! ordered by site id.

use crate::kit::{doc_participants, participants_of};
use crdts_kit::document::CrdtDocument;
use vstd::prelude::*;

verus! {

/// A roster entry seen as plain values.
pub open spec fn entry_view(e: (u32, String)) -> (u32, Seq<char>) {
    (e.0, e.1@)
}

/// Roster entries seen as plain values.
pub open spec fn entries_view(v: Seq<(u32, String)>) -> Seq<(u32, Seq<char>)> {
    v.map_values(|e: (u32, String)| entry_view(e))
}

/// Site ids strictly increase along `r`.
pub open spec fn sorted_by_site(r: Seq<(u32, Seq<char>)>) -> bool {
    forall|i: int, j: int| #![trigger r[i], r[j]] 0 <= i < j < r.len() ==> r[i].0 < r[j].0
}

/// No site id occurs twice in `r`.
pub open spec fn distinct_sites(r: Seq<(u32, Seq<char>)>) -> bool {
    forall|i: int, j: int| #![trigger r[i], r[j]] 0 <= i < j < r.len() ==> r[i].0 != r[j].0
}

/// `a` and `b` hold the same entries.
pub open spec fn same_entries(a: Seq<(u32, Seq<char>)>, b: Seq<(u32, Seq<char>)>) -> bool {
    &&& forall|i: int| #![trigger a[i]] 0 <= i < a.len() ==> b.contains(a[i])
    &&& forall|j: int| #![trigger b[j]] 0 <= j < b.len() ==> a.contains(b[j])
}

/// `r` is the roster of the registry `m` (site id to (site id, name)): one
/// entry `(site, name)` per registered site, ordered by site id.
pub open spec fn is_roster_of(r: Seq<(u32, Seq<char>)>, m: Map<u32, (u32, Seq<char>)>) -> bool {
    &&& sorted_by_site(r)
    &&& forall|i: int|
        #![trigger r[i]]
        0 <= i < r.len() ==> m.contains_key(r[i].0) && m[r[i].0].1 == r[i].1
    &&& forall|k: u32|
        #![trigger m.contains_key(k)]
        m.contains_key(k) ==> exists|i: int| #![trigger r[i]] 0 <= i < r.len() && r[i].0 == k
}

/// Inserts `e` into `out`, which is ordered by site and holds no entry for
/// the site of `e`, so that `out` stays ordered.
fn insert_by_site(out: &mut Vec<(u32, String)>, e: (u32, String))
    requires
        sorted_by_site(entries_view(old(out)@)),
        forall|i: int|
            #![trigger old(out)@[i]]
            0 <= i < old(out)@.len() ==> old(out)@[i].0 != e.0,
    ensures
        sorted_by_site(entries_view(final(out)@)),
        final(out)@.len() == old(out)@.len() + 1,
        entries_view(final(out)@).contains(entry_view(e)),
        forall|i: int|
            #![trigger old(out)@[i]]
            0 <= i < old(out)@.len() ==> entries_view(final(out)@).contains(entry_view(old(out)@[i])),
        forall|i: int|
            #![trigger final(out)@[i]]
            0 <= i < final(out)@.len() ==> entry_view(final(out)@[i]) == entry_view(e)
                || entries_view(old(out)@).contains(entry_view(final(out)@[i])),
{
    let ghost old_out = entries_view(out@);
    let ghost raw = out@;
    let mut p: usize = 0;
    while p < out.len() && out[p].0 < e.0
        invariant
            p <= out@.len(),
            out@ == raw,
            old_out == entries_view(raw),
            forall|q: int| 0 <= q < p ==> #[trigger] raw[q].0 < e.0,
        decreases out@.len() - p,
    {
        p = p + 1;
    }
    let ghost ev = entry_view(e);
    out.insert(p, e);
    proof {
        let new_out = entries_view(out@);
        assert(new_out =~= old_out.insert(p as int, ev));
        if p < raw.len() {
            assert(raw[p as int].0 != e.0);
        }
        assert forall|i: int, k: int|
            #![trigger new_out[i], new_out[k]]
            0 <= i < k < new_out.len() implies new_out[i].0 < new_out[k].0 by {
            if k < p {
                assert(new_out[i] == old_out[i] && new_out[k] == old_out[k]);
            } else if k == p {
                assert(new_out[i] == old_out[i]);
                assert(raw[i].0 < e.0);
            } else if i < p {
                assert(new_out[i] == old_out[i] && new_out[k] == old_out[k - 1]);
                assert(raw[i].0 < e.0);
                assert(raw[p as int].0 > e.0);
                if k - 1 > p {
                    assert(old_out[p as int].0 < old_out[k - 1].0);
                }
            } else if i == p {
                assert(new_out[k] == old_out[k - 1]);
                assert(raw[p as int].0 > e.0);
                if k - 1 > p {
                    assert(old_out[p as int].0 < old_out[k - 1].0);
                }
            } else {
                assert(new_out[i] == old_out[i - 1] && new_out[k] == old_out[k - 1]);
            }
        }
        assert(new_out[p as int] == ev);
        assert forall|i: int|
            #![trigger raw[i]]
            0 <= i < raw.len() implies new_out.contains(entry_view(raw[i])) by {
            if i < p {
                assert(new_out[i] == old_out[i]);
            } else {
                assert(new_out[i + 1] == old_out[i]);
            }
        }
        assert forall|i: int|
            #![trigger out@[i]]
            0 <= i < out@.len() implies entry_view(out@[i]) == ev || old_out.contains(
                entry_view(out@[i]),
            ) by {
            assert(new_out[i] == entry_view(out@[i]));
            if i < p {
                assert(new_out[i] == old_out[i]);
            } else if i > p {
                assert(new_out[i] == old_out[i - 1]);
            }
        }
    }
}

/// Orders entries with pairwise distinct site ids by site id.
pub fn sort_by_site(v: Vec<(u32, String)>) -> (r: Vec<(u32, String)>)
    requires
        distinct_sites(entries_view(v@)),
    ensures
        sorted_by_site(entries_view(r@)),
        same_entries(entries_view(r@), entries_view(v@)),
        r@.len() == v@.len(),
{
    let ghost orig = entries_view(v@);
    let ghost orig_len = v@.len();
    let mut v = v;
    let mut out: Vec<(u32, String)> = Vec::new();
    while v.len() > 0
        invariant
            orig.len() == orig_len,
            distinct_sites(orig),
            v@.len() <= orig_len,
            entries_view(v@) == orig.take(v@.len() as int),
            out@.len() + v@.len() == orig_len,
            sorted_by_site(entries_view(out@)),
            forall|i: int|
                #![trigger out@[i]]
                0 <= i < out@.len() ==> orig.subrange(v@.len() as int, orig_len as int).contains(
                    entry_view(out@[i]),
                ),
            forall|j: int|
                #![trigger orig[j]]
                v@.len() <= j < orig_len ==> entries_view(out@).contains(orig[j]),
        decreases v@.len(),
    {
        let ghost old_out = out@;
        let ghost old_v = v@;
        let e = v.pop().unwrap();
        let ghost n = v@.len() as int;
        proof {
            assert(entries_view(old_v)[n] == entry_view(e));
            assert(orig.take(n + 1)[n] == orig[n]);
            assert(orig[n] == entry_view(e));
            assert(entries_view(v@) =~= orig.take(n));
            assert forall|i: int|
                #![trigger old_out[i]]
                0 <= i < old_out.len() implies old_out[i].0 != e.0 by {
                let tail = orig.subrange(n + 1, orig_len as int);
                assert(tail.contains(entry_view(old_out[i])));
                let j = choose|j: int| 0 <= j < tail.len() && tail[j] == entry_view(old_out[i]);
                assert(tail[j] == orig[n + 1 + j]);
                assert(orig[n].0 != orig[n + 1 + j].0);
            }
        }
        insert_by_site(&mut out, e);
        proof {
            let tail = orig.subrange(n, orig_len as int);
            let old_tail = orig.subrange(n + 1, orig_len as int);
            assert forall|i: int|
                #![trigger out@[i]]
                0 <= i < out@.len() implies tail.contains(entry_view(out@[i])) by {
                if entry_view(out@[i]) == entry_view(e) {
                    assert(tail[0] == orig[n]);
                } else {
                    let k = choose|k: int|
                        0 <= k < old_out.len() && entries_view(old_out)[k] == entry_view(out@[i]);
                    assert(entries_view(old_out)[k] == entry_view(old_out[k]));
                    assert(old_tail.contains(entry_view(old_out[k])));
                    let j = choose|j: int| 0 <= j < old_tail.len() && old_tail[j] == entry_view(old_out[k]);
                    assert(tail[j + 1] == old_tail[j]);
                }
            }
            assert forall|j: int|
                #![trigger orig[j]]
                n <= j < orig_len implies entries_view(out@).contains(orig[j]) by {
                if j > n {
                    assert(entries_view(old_out).contains(orig[j]));
                    let i = choose|i: int| 0 <= i < old_out.len() && entries_view(old_out)[i] == orig[j];
                    assert(entries_view(old_out)[i] == entry_view(old_out[i]));
                }
            }
        }
    }
    proof {
        let ro = entries_view(out@);
        assert(orig.subrange(0, orig_len as int) =~= orig);
        assert forall|i: int| #![trigger ro[i]] 0 <= i < ro.len() implies orig.contains(ro[i]) by {
            assert(ro[i] == entry_view(out@[i]));
        }
    }
    out
}

/// The roster of a document: its registered participants as `(site, name)`,
/// ordered by site id, whatever order the registry is walked in.
pub fn roster(doc: &CrdtDocument) -> (r: Vec<(u32, String)>)
    ensures
        is_roster_of(entries_view(r@), participants_of(*doc)),
{
    let entries = doc_participants(doc);
    let ghost m = participants_of(*doc);
    let ghost ev = entries_view(entries@);
    proof {
        assert forall|i: int, j: int|
            #![trigger ev[i], ev[j]]
            0 <= i < j < ev.len() implies ev[i].0 != ev[j].0 by {
            assert(ev[i] == entry_view(entries@[i]) && ev[j] == entry_view(entries@[j]));
        }
    }
    let r = sort_by_site(entries);
    proof {
        let rv = entries_view(r@);
        assert forall|i: int|
            #![trigger rv[i]]
            0 <= i < rv.len() implies m.contains_key(rv[i].0) && m[rv[i].0].1 == rv[i].1 by {
            assert(ev.contains(rv[i]));
            let j = choose|j: int| 0 <= j < ev.len() && ev[j] == rv[i];
            assert(ev[j] == entry_view(entries@[j]));
        }
        assert forall|k: u32|
            #![trigger m.contains_key(k)]
            m.contains_key(k) implies exists|i: int| #![trigger rv[i]] 0 <= i < rv.len() && rv[i].0 == k by {
            let j = choose|j: int| #![trigger entries@[j]] 0 <= j < entries@.len() && entries@[j].0 == k;
            assert(ev[j] == entry_view(entries@[j]));
            assert(rv.contains(ev[j]));
        }
    }
    r
}

/// The roster of a registry is unique: any two rosters of the same registry
/// are equal, so every tab is shown the same list whatever order the
/// registry happens to be walked in.
pub proof fn lemma_roster_unique(
    r1: Seq<(u32, Seq<char>)>,
    r2: Seq<(u32, Seq<char>)>,
    m: Map<u32, (u32, Seq<char>)>,
)
    requires
        is_roster_of(r1, m),
        is_roster_of(r2, m),
    ensures
        r1 == r2,
    decreases r1.len() + r2.len(),
{
    if r1.len() == 0 || r2.len() == 0 {
        if r1.len() > 0 {
            assert(m.contains_key(r1[0].0));
        }
        if r2.len() > 0 {
            assert(m.contains_key(r2[0].0));
        }
        assert(r1 =~= r2);
    } else {
        let k1 = r1[0].0;
        let k2 = r2[0].0;
        assert(m.contains_key(k1));
        assert(m.contains_key(k2));
        let i2 = choose|i: int| #![trigger r2[i]] 0 <= i < r2.len() && r2[i].0 == k1;
        let i1 = choose|i: int| #![trigger r1[i]] 0 <= i < r1.len() && r1[i].0 == k2;
        if i2 > 0 {
            assert(r2[0].0 < r2[i2].0);
        }
        if i1 > 0 {
            assert(r1[0].0 < r1[i1].0);
        }
        assert(k1 == k2);
        let m2 = m.remove(k1);
        let t1 = r1.drop_first();
        let t2 = r2.drop_first();
        assert forall|i: int|
            #![trigger t1[i]]
            0 <= i < t1.len() implies m2.contains_key(t1[i].0) && m2[t1[i].0].1 == t1[i].1 by {
            assert(t1[i] == r1[i + 1]);
            assert(r1[0].0 < r1[i + 1].0);
        }
        assert forall|i: int|
            #![trigger t2[i]]
            0 <= i < t2.len() implies m2.contains_key(t2[i].0) && m2[t2[i].0].1 == t2[i].1 by {
            assert(t2[i] == r2[i + 1]);
            assert(r2[0].0 < r2[i + 1].0);
        }
        assert forall|k: u32|
            #![trigger m2.contains_key(k)]
            m2.contains_key(k) implies exists|i: int| #![trigger t1[i]] 0 <= i < t1.len() && t1[i].0 == k by {
            assert(m.contains_key(k));
            let i = choose|i: int| #![trigger r1[i]] 0 <= i < r1.len() && r1[i].0 == k;
            assert(i != 0);
            assert(t1[i - 1] == r1[i]);
        }
        assert forall|k: u32|
            #![trigger m2.contains_key(k)]
            m2.contains_key(k) implies exists|i: int| #![trigger t2[i]] 0 <= i < t2.len() && t2[i].0 == k by {
            assert(m.contains_key(k));
            let i = choose|i: int| #![trigger r2[i]] 0 <= i < r2.len() && r2[i].0 == k;
            assert(i != 0);
            assert(t2[i - 1] == r2[i]);
        }
        assert forall|i: int, j: int| #![trigger t1[i], t1[j]] 0 <= i < j < t1.len() implies t1[i].0 < t1[j].0 by {
            assert(t1[i] == r1[i + 1] && t1[j] == r1[j + 1]);
        }
        assert forall|i: int, j: int| #![trigger t2[i], t2[j]] 0 <= i < j < t2.len() implies t2[i].0 < t2[j].0 by {
            assert(t2[i] == r2[i + 1] && t2[j] == r2[j + 1]);
        }
        lemma_roster_unique(t1, t2, m2);
        assert(r1[0].1 == m[k1].1);
        assert(r2[0].1 == m[k1].1);
        assert(r1 =~= seq![r1[0]] + t1);
        assert(r2 =~= seq![r2[0]] + t2);
    }
}

/// After `site` registers under `name`, the roster lists `(site, name)`.
pub proof fn lemma_registered_site_listed(
    r: Seq<(u32, Seq<char>)>,
    m: Map<u32, (u32, Seq<char>)>,
    site: u32,
    name: Seq<char>,
)
    requires
        is_roster_of(r, m.insert(site, (site, name))),
    ensures
        r.contains((site, name)),
{
    let m2 = m.insert(site, (site, name));
    assert(m2.contains_key(site));
    let i = choose|i: int| #![trigger r[i]] 0 <= i < r.len() && r[i].0 == site;
    assert(r[i] == (site, name));
}

/// After `site` leaves, the roster has no entry for it.
pub proof fn lemma_departed_site_unlisted(
    r: Seq<(u32, Seq<char>)>,
    m: Map<u32, (u32, Seq<char>)>,
    site: u32,
)
    requires
        is_roster_of(r, m.remove(site)),
    ensures
        forall|i: int| 0 <= i < r.len() ==> #[trigger] r[i].0 != site,
{
}

} // verus!
