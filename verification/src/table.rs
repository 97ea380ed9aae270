//! The latest-known-state table: a mapping from entity id to the most
//! recently reported state of that entity.
//!
//! The table is the single resource shared between the ingest path and the
//! evaluator. Ingest upserts one entry per decoded report; the evaluator
//! detaches the whole table into a snapshot, computes on it without holding
//! the table, and afterwards merges the snapshot back with whatever was
//! ingested meanwhile, so no report is ever lost.

use vstd::prelude::*;

use crate::Position;

verus! {

/// Latest reported state of one entity. Overwritten wholesale on each
/// report for its id; never partially updated.
#[derive(Clone, Debug)]
pub struct EntityState {
    /// Unique entity identifier; the key of the state table.
    pub id: String,
    pub position: Position,
    /// Reported speed, in millimeters per second.
    pub speed_mmps: i64,
    pub color: String,
    pub kind: String,
}

/// No two entries share an id.
pub open spec fn ids_unique(s: Seq<EntityState>) -> bool {
    forall|i: int, j: int| 0 <= i < j < s.len() ==> s[i].id@ != s[j].id@
}

/// Some entry of `s` carries the id `id`.
pub open spec fn has_id(s: Seq<EntityState>, id: Seq<char>) -> bool {
    exists|i: int| 0 <= i < s.len() && s[i].id@ == id
}

/// `post` is `pre` with `v` upserted: if an entry with `v`'s id was
/// present it is replaced in place, otherwise `v` is appended.
pub open spec fn upserted(pre: Seq<EntityState>, v: EntityState, post: Seq<EntityState>) -> bool {
    &&& (has_id(pre, v.id@) ==> exists|k: int|
        0 <= k < pre.len() && pre[k].id@ == v.id@ && post == pre.update(k, v))
    &&& (!has_id(pre, v.id@) ==> post == pre.push(v))
}

/// `post` is the merge of the detached snapshot `snap` with the entries
/// `cur` ingested while the snapshot was out: every id of either side is
/// present, an id reported on both sides keeps the later (`cur`) entry,
/// and nothing else is present. Order among entries is not pinned.
pub open spec fn merged(cur: Seq<EntityState>, snap: Seq<EntityState>, post: Seq<
    EntityState,
>) -> bool {
    &&& (forall|id: Seq<char>| has_id(post, id) <==> has_id(cur, id) || has_id(snap, id))
    &&& (forall|i: int| 0 <= i < cur.len() ==> post.contains(#[trigger] cur[i]))
    &&& (forall|i: int|
        0 <= i < snap.len() && !has_id(cur, (#[trigger] snap[i]).id@) ==> post.contains(snap[i]))
    &&& (forall|i: int|
        0 <= i < post.len() ==> cur.contains(#[trigger] post[i]) || (snap.contains(post[i])
            && !has_id(cur, post[i].id@)))
}

/// The shared state table. Keys (entity ids) are unique at all times.
#[derive(Debug)]
pub struct StateTable {
    entries: Vec<EntityState>,
}

impl View for StateTable {
    type V = Seq<EntityState>;

    closed spec fn view(&self) -> Seq<EntityState> {
        self.entries@
    }
}

impl StateTable {
    #[verifier::type_invariant]
    spec fn wf(self) -> bool {
        ids_unique(self.entries@)
    }

    /// An empty table.
    pub fn new() -> (r: StateTable)
        ensures
            r@ == Seq::<EntityState>::empty(),
    {
        StateTable { entries: Vec::new() }
    }

    /// How many entities are currently known: the number of distinct ids
    /// reported so far, not the number of reports received.
    pub fn len(&self) -> (r: usize)
        ensures
            r == self@.len(),
    {
        self.entries.len()
    }

    /// The entries, for read-only traversal.
    pub fn entries(&self) -> (r: &Vec<EntityState>)
        ensures
            r@ == self@,
    {
        &self.entries
    }

    /// Upserts one decoded report: an id already present is replaced in
    /// place — never duplicated — so the table grows only on the first
    /// report of a new id.
    pub fn insert(&mut self, v: EntityState)
        ensures
            upserted(old(self)@, v, final(self)@),
            ids_unique(final(self)@),
            has_id(old(self)@, v.id@) ==> final(self)@.len() == old(self)@.len(),
            !has_id(old(self)@, v.id@) ==> final(self)@.len() == old(self)@.len() + 1,
            forall|id: Seq<char>|
                has_id(final(self)@, id) <==> has_id(old(self)@, id) || id == v.id@,
    {
        proof {
            use_type_invariant(&*self);
        }
        let ghost pre = self.entries@;
        let mut es: Vec<EntityState> = Vec::new();
        core::mem::swap(&mut es, &mut self.entries);
        let n = es.len();
        let mut k: usize = 0;
        let mut found: Option<usize> = None;
        while k < n
            invariant
                n == es@.len(),
                0 <= k <= n,
                es@ == pre,
                ids_unique(pre),
                match found {
                    Some(f) => f < n && pre[f as int].id@ == v.id@,
                    None => forall|i: int| 0 <= i < k ==> pre[i].id@ != v.id@,
                },
            decreases n - k,
        {
            if found.is_none() && es[k].id == v.id {
                found = Some(k);
            }
            k += 1;
        }
        match found {
            Some(f) => {
                es[f] = v;
                proof {
                    assert(has_id(pre, v.id@));
                    assert(es@ == pre.update(f as int, v));
                }
            },
            None => {
                assert(!has_id(pre, v.id@));
                es.push(v);
            },
        }
        proof {
            lemma_upserted_ids(pre, v, es@);
        }
        self.entries = es;
    }

    /// Applies the outcome of decoding one inbound message: a decoded
    /// report is upserted; a decode failure (`None`) leaves the table
    /// exactly as it was, so a malformed message never alters the table.
    /// Returns whether an entry was applied.
    pub fn apply_message(&mut self, decoded: Option<EntityState>) -> (applied: bool)
        ensures
            match decoded {
                Some(v) => applied && upserted(old(self)@, v, final(self)@),
                None => !applied && final(self)@ == old(self)@,
            },
            ids_unique(final(self)@),
    {
        proof {
            use_type_invariant(&*self);
        }
        match decoded {
            Some(v) => {
                self.insert(v);
                true
            },
            None => false,
        }
    }

    /// Detaches the whole table into a snapshot, leaving the table empty:
    /// the evaluator's pointer-swap takeover, so the table is never held
    /// across the pairwise computation.
    pub fn detach(&mut self) -> (snap: StateTable)
        ensures
            snap@ == old(self)@,
            final(self)@ == Seq::<EntityState>::empty(),
    {
        proof {
            use_type_invariant(&*self);
        }
        let mut snap = StateTable { entries: Vec::new() };
        core::mem::swap(&mut snap.entries, &mut self.entries);
        snap
    }

    /// Merges a detached snapshot back: every entry ingested into the
    /// table while the snapshot was out is kept as it stands (the later
    /// report wins), and every snapshot entry whose id was not reported
    /// meanwhile is restored. No id is lost and none is duplicated.
    pub fn merge(&mut self, snapshot: StateTable)
        ensures
            merged(old(self)@, snapshot@, final(self)@),
            ids_unique(final(self)@),
    {
        proof {
            use_type_invariant(&*self);
            use_type_invariant(&snapshot);
        }
        let ghost cur0 = self.entries@;
        let ghost snap0 = snapshot@;
        let mut result = snapshot;
        let mut current = StateTable { entries: Vec::new() };
        core::mem::swap(&mut current, self);
        let mut cur_vec = current.entries;
        proof {
            assert(cur_vec@ =~= cur0.take(cur_vec@.len() as int));
        }
        while cur_vec.len() > 0
            invariant
                ids_unique(cur0),
                ids_unique(result@),
                cur_vec@.len() <= cur0.len(),
                cur_vec@ == cur0.take(cur_vec@.len() as int),
                // ids present so far
                forall|id: Seq<char>|
                    has_id(result@, id) <==> has_id(snap0, id) || (exists|i: int|
                        cur_vec@.len() <= i < cur0.len() && (#[trigger] cur0[i]).id@ == id),
                // every processed current entry stands in the result
                forall|i: int|
                    cur_vec@.len() <= i < cur0.len() ==> result@.contains(#[trigger] cur0[i]),
                // a snapshot entry not shadowed by a processed current entry stands
                forall|j: int|
                    0 <= j < snap0.len() && !(exists|i: int|
                        cur_vec@.len() <= i < cur0.len() && (#[trigger] cur0[i]).id@ == snap0[j].id@)
                        ==> result@.contains(#[trigger] snap0[j]),
                // nothing else is in the result
                forall|p: int|
                    0 <= p < result@.len() ==> cur0.contains(#[trigger] result@[p]) || (
                    snap0.contains(result@[p]) && !(exists|i: int|
                        cur_vec@.len() <= i < cur0.len() && (#[trigger] cur0[i]).id@
                            == result@[p].id@)),
            decreases cur_vec@.len(),
        {
            let ghost result_pre = result@;
            let ghost m = cur_vec@.len() as int;
            let e = cur_vec.pop().unwrap();
            proof {
                assert(cur0.take(m).drop_last() =~= cur0.take(m - 1));
                assert(e == cur0.take(m).last());
                assert(e == cur0[m - 1]);
            }
            result.insert(e);
            proof {
                lemma_merge_step(cur0, snap0, result_pre, result@, m - 1);
            }
        }
        let mut merged_table = StateTable { entries: Vec::new() };
        core::mem::swap(&mut merged_table, &mut result);
        let StateTable { entries: merged_entries } = merged_table;
        self.entries = merged_entries;
    }
}

/// Upserting `v` leaves the table's id set the union of the old id set
/// and `v`'s id.
proof fn lemma_upserted_ids(pre: Seq<EntityState>, v: EntityState, post: Seq<EntityState>)
    requires
        upserted(pre, v, post),
    ensures
        forall|id: Seq<char>| has_id(post, id) <==> has_id(pre, id) || id == v.id@,
{
    assert forall|id: Seq<char>| has_id(post, id) <==> (has_id(pre, id) || id == v.id@) by {
        if has_id(pre, v.id@) {
            let k = choose|k: int|
                0 <= k < pre.len() && pre[k].id@ == v.id@ && post == pre.update(k, v);
            if has_id(post, id) {
                let i = choose|i: int| 0 <= i < post.len() && post[i].id@ == id;
                if i != k {
                    assert(pre[i].id@ == id);
                    assert(has_id(pre, id));
                }
            }
            if has_id(pre, id) {
                let i = choose|i: int| 0 <= i < pre.len() && pre[i].id@ == id;
                if i == k {
                    assert(post[k].id@ == v.id@);
                    assert(has_id(post, id));
                } else {
                    assert(post[i].id@ == id);
                    assert(has_id(post, id));
                }
            }
            if id == v.id@ {
                assert(post[k].id@ == id);
                assert(has_id(post, id));
            }
        } else {
            assert(post == pre.push(v));
            if has_id(post, id) {
                let i = choose|i: int| 0 <= i < post.len() && post[i].id@ == id;
                if i != post.len() - 1 {
                    assert(pre[i].id@ == id);
                    assert(has_id(pre, id));
                }
            }
            if has_id(pre, id) {
                let i = choose|i: int| 0 <= i < pre.len() && pre[i].id@ == id;
                assert(post[i].id@ == id);
                assert(has_id(post, id));
            }
            if id == v.id@ {
                assert(post[post.len() - 1].id@ == id);
                assert(has_id(post, id));
            }
        }
    }
}

/// One step of the merge loop: upserting the current entry `cur0[m]` into
/// a result that already reflects the entries after `m` keeps every merge
/// invariant.
proof fn lemma_merge_step(
    cur0: Seq<EntityState>,
    snap0: Seq<EntityState>,
    pre: Seq<EntityState>,
    post: Seq<EntityState>,
    m: int,
)
    requires
        0 <= m < cur0.len(),
        ids_unique(cur0),
        ids_unique(pre),
        upserted(pre, cur0[m], post),
        forall|id: Seq<char>|
            has_id(pre, id) <==> has_id(snap0, id) || (exists|i: int|
                m + 1 <= i < cur0.len() && (#[trigger] cur0[i]).id@ == id),
        forall|i: int| m + 1 <= i < cur0.len() ==> pre.contains(#[trigger] cur0[i]),
        forall|j: int|
            0 <= j < snap0.len() && !(exists|i: int|
                m + 1 <= i < cur0.len() && (#[trigger] cur0[i]).id@ == snap0[j].id@)
                ==> pre.contains(#[trigger] snap0[j]),
        forall|p: int|
            0 <= p < pre.len() ==> cur0.contains(#[trigger] pre[p]) || (snap0.contains(pre[p])
                && !(exists|i: int|
                m + 1 <= i < cur0.len() && (#[trigger] cur0[i]).id@ == pre[p].id@)),
    ensures
        forall|id: Seq<char>|
            has_id(post, id) <==> has_id(snap0, id) || (exists|i: int|
                m <= i < cur0.len() && (#[trigger] cur0[i]).id@ == id),
        forall|i: int| m <= i < cur0.len() ==> post.contains(#[trigger] cur0[i]),
        forall|j: int|
            0 <= j < snap0.len() && !(exists|i: int|
                m <= i < cur0.len() && (#[trigger] cur0[i]).id@ == snap0[j].id@) ==> post.contains(
                #[trigger] snap0[j]),
        forall|p: int|
            0 <= p < post.len() ==> cur0.contains(#[trigger] post[p]) || (snap0.contains(post[p])
                && !(exists|i: int|
                m <= i < cur0.len() && (#[trigger] cur0[i]).id@ == post[p].id@)),
{
    let v = cur0[m];
    if has_id(pre, v.id@) {
        let k = choose|k: int| 0 <= k < pre.len() && pre[k].id@ == v.id@ && post == pre.update(k, v);
        assert(post == pre.update(k, v));
        assert forall|i: int| m <= i < cur0.len() implies post.contains(#[trigger] cur0[i]) by {
            if i == m {
                assert(post[k] == v);
            } else {
                let p = choose|p: int| 0 <= p < pre.len() && pre[p] == cur0[i];
                // the replaced slot did not hold cur0[i]: its id is v's id,
                // and ids are unique in cur0
                assert(cur0[i].id@ != v.id@);
                assert(post[p] == cur0[i]);
            }
        }
        assert forall|j: int|
            0 <= j < snap0.len() && !(exists|i: int|
                m <= i < cur0.len() && (#[trigger] cur0[i]).id@ == snap0[j].id@) implies post
            .contains(#[trigger] snap0[j]) by {
            let p = choose|p: int| 0 <= p < pre.len() && pre[p] == snap0[j];
            assert(snap0[j].id@ != v.id@);
            assert(post[p] == snap0[j]);
        }
        assert forall|p: int|
            0 <= p < post.len() implies cur0.contains(#[trigger] post[p]) || (snap0.contains(
            post[p],
        ) && !(exists|i: int|
            m <= i < cur0.len() && (#[trigger] cur0[i]).id@ == post[p].id@)) by {
            if p == k {
                assert(post[p] == v);
                assert(cur0.contains(v));
            } else {
                assert(post[p] == pre[p]);
                if !cur0.contains(pre[p]) {
                    assert(snap0.contains(pre[p]));
                    assert(pre[p].id@ != v.id@) by {
                        if pre[p].id@ == v.id@ {
                            assert(pre[k].id@ == v.id@);
                            assert(ids_unique(pre));
                        }
                    }
                }
            }
        }
    } else {
        assert(post == pre.push(v));
        assert forall|i: int| m <= i < cur0.len() implies post.contains(#[trigger] cur0[i]) by {
            if i == m {
                assert(post[post.len() - 1] == v);
            } else {
                let p = choose|p: int| 0 <= p < pre.len() && pre[p] == cur0[i];
                assert(post[p] == cur0[i]);
            }
        }
        assert forall|j: int|
            0 <= j < snap0.len() && !(exists|i: int|
                m <= i < cur0.len() && (#[trigger] cur0[i]).id@ == snap0[j].id@) implies post
            .contains(#[trigger] snap0[j]) by {
            let p = choose|p: int| 0 <= p < pre.len() && pre[p] == snap0[j];
            assert(post[p] == snap0[j]);
        }
        assert forall|p: int|
            0 <= p < post.len() implies cur0.contains(#[trigger] post[p]) || (snap0.contains(
            post[p],
        ) && !(exists|i: int|
            m <= i < cur0.len() && (#[trigger] cur0[i]).id@ == post[p].id@)) by {
            if p == post.len() - 1 {
                assert(post[p] == v);
                assert(cur0.contains(v));
            } else {
                assert(post[p] == pre[p]);
                if !cur0.contains(pre[p]) {
                    assert(!has_id(pre, v.id@));
                    assert(pre[p].id@ != v.id@);
                }
            }
        }
    }
}

/// No report is ever lost across a tick: an entry ingested into the table
/// while the evaluator held the detached snapshot — in particular one that
/// arrived after detachment and before the merge completed — stands in the
/// table the merge installs.
pub proof fn lemma_no_lost_update(
    cur: Seq<EntityState>,
    snap: Seq<EntityState>,
    post: Seq<EntityState>,
    i: int,
)
    requires
        merged(cur, snap, post),
        0 <= i < cur.len(),
    ensures
        post.contains(cur[i]),
        has_id(post, cur[i].id@),
{
    assert(post.contains(cur[i]));
    let p = choose|p: int| 0 <= p < post.len() && post[p] == cur[i];
    assert(post[p].id@ == cur[i].id@);
}

} // verus!
