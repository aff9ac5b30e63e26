//! The per-issue document backend: the same in-memory table as the
//! flat-file store, but each issue round-trips to its own mergeable
//! document, merges of diverged copies are resolved by causal history, and
//! a human-readable index is derived from the issue set.
//!
//! Reading and writing the document files lives with the caller; this
//! module holds the table semantics, the codec, the merge entry point, the
//! conflict-artifact plan and the index content.

use vstd::prelude::*;

use crate::error::Error;
use crate::issue::status_is_open;
use crate::issue::Issue;
use crate::issue::IssueView;
use crate::issue::Status;
use crate::strutil::has_substring;
use crate::table::direct_child_num;
use crate::table::has_id;
use crate::table::IssueTable;

verus! {

/// The document-backed issue store.
pub struct CrdtStore {
    table: IssueTable,
}

impl View for CrdtStore {
    type V = Seq<IssueView>;

    closed spec fn view(&self) -> Seq<IssueView> {
        self.table@
    }
}

/// Open issues come first by urgency, then youngest first.
pub open spec fn open_le(a: IssueView, b: IssueView) -> bool {
    a.priority < b.priority || (a.priority == b.priority && a.created_at >= b.created_at)
}

/// Closed issues are ordered by close date, latest first; issues without a
/// close date come last.
pub open spec fn closed_le(a: IssueView, b: IssueView) -> bool {
    match (a.closed_at, b.closed_at) {
        (Some(x), Some(y)) => x >= y,
        (Some(_), None) => true,
        (None, Some(_)) => false,
        (None, None) => true,
    }
}

/// The name of a document file that a host merge may have left conflict
/// artifacts for: it carries the document suffix and is not itself an
/// artifact.
pub open spec fn is_conflict_base_name(n: Seq<char>) -> bool {
    &&& ".automerge"@.len() <= n.len()
    &&& n.skip((n.len() - ".automerge"@.len()) as int) == ".automerge"@
    &&& !has_substring(n, ".BASE"@)
    &&& !has_substring(n, ".LOCAL"@)
    &&& !has_substring(n, ".REMOTE"@)
}

/// The image loads as a document that decodes to the issue value `v`
/// (whatever load time filled unreadable timestamps with).
pub open spec fn image_decodes_to(img: Seq<u8>, v: IssueView) -> bool {
    crate::doc::loaded_props(img) matches Some(m) && (exists|now: int|
        crate::doc::issue_of_doc(m, now) == Some(v))
}

/// The image does not decode: it is no document, or its document misses
/// `id` or `title`.
pub open spec fn image_undecodable(img: Seq<u8>) -> bool {
    crate::doc::loaded_props(img) is None || (crate::doc::loaded_props(img) matches Some(m)
        && crate::doc::issue_of_doc(m, 0) is None)
}

/// The directory listing holds both remaining artifacts of `n`.
pub open spec fn has_conflict_pair(names: Seq<Seq<char>>, n: Seq<char>) -> bool {
    names.contains(n + ".LOCAL"@) && names.contains(n + ".REMOTE"@)
}

impl CrdtStore {
    /// Id uniqueness, the store's invariant.
    pub open spec fn wf(&self) -> bool {
        crate::table::unique_ids(self@)
    }

    /// An empty store.
    pub fn new() -> (r: CrdtStore)
        ensures
            r@ == Seq::<IssueView>::empty(),
            r.wf(),
    {
        CrdtStore { table: IssueTable::new() }
    }

    /// The number of issues held.
    pub fn len(&self) -> (r: usize)
        ensures
            r == self@.len(),
    {
        self.table.len()
    }

    /// A borrowed view of the issue with the given id.
    pub fn get<'a>(&'a self, id: &str) -> (r: Option<&'a Issue>)
        ensures
            match r {
                Some(x) => has_id(self@, id@) && x@.id == id@ && (exists|j: int|
                    0 <= j < self@.len() && self@[j] == x@),
                None => !has_id(self@, id@),
            },
    {
        match self.table.get(id) {
            Some(x) => {
                proof {
                    let j = choose|j: int|
                        0 <= j < self.table@.len() && self.table@[j] == x@;
                    assert(0 <= j < self@.len() && self@[j] == x@);
                }
                Some(x)
            },
            None => None,
        }
    }

    /// Adds a new issue; rejected when its id is already taken.
    pub fn create(&mut self, issue: Issue) -> (r: Result<(), Error>)
        requires
            old(self).wf(),
        ensures
            final(self).wf(),
            match r {
                Ok(()) => !has_id(old(self)@, issue@.id) && final(self)@ == old(self)@.push(
                    issue@,
                ),
                Err(e) => has_id(old(self)@, issue@.id) && final(self)@ == old(self)@ && (e
                    matches Error::AlreadyExists(m) && m@ == issue@.id),
            },
    {
        self.table.create(issue)
    }

    /// Replaces the issue with the same id; rejected when none exists.
    pub fn update(&mut self, issue: Issue) -> (r: Result<(), Error>)
        requires
            old(self).wf(),
        ensures
            final(self).wf(),
            match r {
                Ok(()) => exists|j: int|
                    0 <= j < old(self)@.len() && (#[trigger] old(self)@[j]).id == issue@.id
                        && final(self)@ == old(self)@.update(j, issue@),
                Err(e) => !has_id(old(self)@, issue@.id) && final(self)@ == old(self)@ && (e
                    matches Error::NotFound(m) && m@ == issue@.id),
            },
    {
        let r = self.table.update(issue);
        proof {
            if r is Ok {
                let j = choose|j: int|
                    0 <= j < old(self).table@.len() && (#[trigger] old(self).table@[j]).id
                        == issue@.id && self.table@ == old(self).table@.update(j, issue@);
                assert(0 <= j < old(self)@.len() && old(self)@[j].id == issue@.id && self@
                    == old(self)@.update(j, issue@));
            }
        }
        r
    }

    /// Inserts or replaces by id; used when reloading after conflict
    /// resolution.
    pub fn upsert(&mut self, issue: Issue)
        requires
            old(self).wf(),
        ensures
            final(self).wf(),
            has_id(old(self)@, issue@.id) ==> exists|j: int|
                0 <= j < old(self)@.len() && (#[trigger] old(self)@[j]).id == issue@.id && final(self)@ == old(self)@.update(j, issue@),
            !has_id(old(self)@, issue@.id) ==> final(self)@ == old(self)@.push(issue@),
    {
        let ghost pre = self.table@;
        self.table.upsert(issue);
        proof {
            if has_id(pre, issue@.id) {
                let j = choose|j: int|
                    0 <= j < pre.len() && (#[trigger] pre[j]).id == issue@.id && self.table@
                        == pre.update(j, issue@);
                assert(0 <= j < old(self)@.len() && old(self)@[j].id == issue@.id && self@
                    == old(self)@.update(j, issue@));
            }
        }
    }

    /// Tombstones the issue with the given id; rejected when none exists.
    /// A second delete overwrites the tombstone's provenance.
    pub fn delete(&mut self, id: &str, by: Option<String>, reason: Option<String>) -> (r: Result<
        (),
        Error,
    >)
        requires
            old(self).wf(),
        ensures
            final(self).wf(),
            match r {
                Ok(()) => exists|j: int, now: int|
                    #![trigger old(self)@.update(j, crate::issue::delete_view(old(self)@[j],
                    crate::issue::opt_view(by), crate::issue::opt_view(reason), now))]
                    0 <= j < old(self)@.len() && old(self)@[j].id == id@ && final(self)@ == old(self)@.update(
                        j,
                        crate::issue::delete_view(
                            old(self)@[j],
                            crate::issue::opt_view(by),
                            crate::issue::opt_view(reason),
                            now,
                        ),
                    ),
                Err(e) => !has_id(old(self)@, id@) && final(self)@ == old(self)@ && (e matches
                    Error::NotFound(m) && m@ == id@),
            },
    {
        let r = self.table.delete(id, by, reason);
        proof {
            if r is Ok {
                let (j, now) = choose|j: int, now: int|
                    #![trigger old(self).table@.update(j, crate::issue::delete_view(
                    old(self).table@[j], crate::issue::opt_view(by),
                    crate::issue::opt_view(reason), now))]
                    0 <= j < old(self).table@.len() && old(self).table@[j].id == id@
                        && self.table@ == old(self).table@.update(
                        j,
                        crate::issue::delete_view(
                            old(self).table@[j],
                            crate::issue::opt_view(by),
                            crate::issue::opt_view(reason),
                            now,
                        ),
                    );
                assert(0 <= j < old(self)@.len() && old(self)@[j].id == id@ && self@ == old(self)@.update(
                    j,
                    crate::issue::delete_view(
                        old(self)@[j],
                        crate::issue::opt_view(by),
                        crate::issue::opt_view(reason),
                        now,
                    ),
                ));
            }
        }
        r
    }

    /// All issues, tombstones included only on request, in table order.
    pub fn list(&self, include_tombstones: bool) -> (r: Vec<Issue>)
        ensures
            include_tombstones ==> r@.map_values(|i: Issue| i@) == self@,
            !include_tombstones ==> r@.map_values(|i: Issue| i@) == self@.filter(
                |v: IssueView| v.status != Status::Tombstone,
            ),
    {
        self.table.list(include_tombstones)
    }

    /// The issues whose status is open, in table order.
    pub fn list_open(&self) -> (r: Vec<Issue>)
        ensures
            r@.map_values(|i: Issue| i@) == self@.filter(
                |v: IssueView| status_is_open(v.status),
            ),
    {
        self.table.list_open()
    }

    /// One more than the highest numeric suffix among the direct children
    /// of `parent_id`, or 1 when it has none.
    pub fn next_child_num(&self, parent_id: &str) -> (r: u32)
        requires
            forall|j: int|
                0 <= j < self@.len() ==> (direct_child_num(
                    (#[trigger] self@[j]).id,
                    parent_id@,
                ) matches Some(n) ==> n < u32::MAX),
        ensures
            r >= 1,
            forall|j: int|
                0 <= j < self@.len() ==> (direct_child_num(
                    (#[trigger] self@[j]).id,
                    parent_id@,
                ) matches Some(n) ==> n < r),
            r > 1 ==> exists|j: int|
                0 <= j < self@.len() && direct_child_num((#[trigger] self@[j]).id, parent_id@)
                    == Some(r - 1 as int),
    {
        self.table.next_child_num(parent_id)
    }

    /// Loads a store from per-issue document images in directory order: an
    /// image that fails to decode is skipped and counted, the rest are
    /// folded in with the last write per id winning, so one bad file never
    /// prevents the store from opening.
    #[verifier::loop_isolation(false)]
    pub fn load_from_images(images: &Vec<Vec<u8>>) -> (r: (CrdtStore, usize))
        ensures
            r.0.wf(),
            exists|ks: Seq<int>, vs: Seq<IssueView>|
                #![trigger ks.len(), crate::store::loaded_view(vs)]
                ks.len() == vs.len() && r.1 + ks.len() == images@.len() && (forall|m: int, l: int|
                    0 <= m < l < ks.len() ==> ks[m] < ks[l]) && (forall|m: int|
                    0 <= m < ks.len() ==> 0 <= #[trigger] ks[m] < images@.len()
                        && image_decodes_to(images@[ks[m]]@, vs[m])) && (forall|j: int|
                    0 <= j < images@.len() && !ks.contains(j) ==> image_undecodable(
                        images@[j]@,
                    )) && r.0@ == crate::store::loaded_view(vs),
    {
        let mut table = IssueTable::new();
        let mut skipped: usize = 0;
        let ghost mut ks: Seq<int> = Seq::empty();
        let ghost mut vs: Seq<IssueView> = Seq::empty();
        let mut j: usize = 0;
        proof {
            assert(table@ =~= crate::store::loaded_view(vs));
        }
        while j < images.len()
            invariant
                j <= images@.len(),
                table.wf(),
                ks.len() == vs.len(),
                skipped + ks.len() == j,
                forall|m: int, l: int| 0 <= m < l < ks.len() ==> ks[m] < ks[l],
                forall|m: int| 0 <= m < ks.len() ==> 0 <= #[trigger] ks[m] < j,
                forall|m: int|
                    0 <= m < ks.len() ==> image_decodes_to(images@[#[trigger] ks[m]]@, vs[m]),
                forall|j2: int|
                    0 <= j2 < j && !ks.contains(j2) ==> image_undecodable(images@[j2]@),
                table@ == crate::store::loaded_view(vs),
            decreases images@.len() - j,
        {
            match crate::doc::issue_from_bytes(images[j].as_slice()) {
                Ok(issue) => {
                    let ghost pre = table@;
                    let ghost v = issue@;
                    table.upsert(issue);
                    proof {
                        crate::graph::lemma_first_idx(pre, v.id);
                        if has_id(pre, v.id) {
                            let w = choose|w: int|
                                0 <= w < pre.len() && (#[trigger] pre[w]).id == v.id && table@
                                    == pre.update(w, v);
                            let f = crate::graph::first_idx_with_id(pre, v.id);
                            if f < pre.len() && f != w {
                                assert(pre[f].id == pre[w].id);
                                assert(false);
                            }
                            if f >= pre.len() {
                                assert(pre[w].id == v.id);
                                assert(false);
                            }
                        } else {
                            let f = crate::graph::first_idx_with_id(pre, v.id);
                            if f < pre.len() {
                                assert(pre[f].id == v.id);
                                assert(false);
                            }
                        }
                        assert(table@ == crate::store::upserted(pre, v));
                        let ks0 = ks;
                        let vs0 = vs;
                        ks = ks.push(j as int);
                        vs = vs.push(v);
                        assert(vs.drop_last() =~= vs0);
                        assert(table@ == crate::store::loaded_view(vs));
                        assert(ks[ks.len() - 1] == j as int);
                        assert forall|j2: int|
                            0 <= j2 < j + 1 && !ks.contains(j2) implies image_undecodable(
                            images@[j2]@,
                        ) by {
                            assert(ks.contains(j as int)) by {
                                assert(ks[ks.len() - 1] == j as int);
                            }
                            if j2 < j {
                                if ks0.contains(j2) {
                                    let w = choose|w: int|
                                        0 <= w < ks0.len() && ks0[w] == j2;
                                    assert(ks[w] == j2);
                                    assert(ks.contains(j2));
                                }
                            }
                        }
                    }
                },
                Err(_) => {
                    skipped += 1;
                    proof {
                        assert(image_undecodable(images@[j as int]@));
                        assert forall|j2: int|
                            0 <= j2 < j + 1 && !ks.contains(j2) implies image_undecodable(
                            images@[j2]@,
                        ) by {}
                    }
                },
            }
            j += 1;
        }
        (CrdtStore { table: table }, skipped)
    }

    /// Encodes an issue as its document; succeeds exactly when every
    /// timestamp of the issue fits the textual range.
    pub fn issue_to_doc(&self, issue: &Issue) -> (r: Result<automerge::AutoCommit, Error>)
        ensures
            (r is Ok) <==> crate::doc::issue_ts_in_range(issue@),
            r matches Ok(d) ==> crate::doc::doc_props(d) == crate::doc::doc_of_issue(issue@)
                && crate::doc::issue_ts_rt(issue@),
            r matches Err(e) ==> e matches Error::Other(_),
    {
        crate::doc::issue_to_doc(issue)
    }

    /// Decodes a document back to an issue.
    pub fn doc_to_issue(&self, d: &automerge::AutoCommit) -> (r: Result<Issue, Error>)
        ensures
            match r {
                Ok(i) => exists|now: int|
                    crate::doc::issue_of_doc(crate::doc::doc_props(*d), now) == Some(i@),
                Err(e) => crate::doc::issue_of_doc(crate::doc::doc_props(*d), 0) is None && (e
                    matches Error::Other(_)),
            },
    {
        crate::doc::doc_to_issue(d)
    }

    /// Merges two diverged byte images of one document; an empty image
    /// stands for a fresh document. A side that fails to load is an error,
    /// as is a merge the document format itself rejects; success is owed
    /// whenever no real merge is needed — a missing or identical side. An
    /// empty side is an identity, merging in either order gives the same
    /// properties, and merging an image with itself changes nothing.
    pub fn merge_conflict(base: &[u8], ours: &[u8], theirs: &[u8]) -> (r: Result<Vec<u8>, Error>)
        ensures
            r is Ok ==> (ours@.len() == 0 || crate::doc::loaded_props(ours@) is Some) && (
            theirs@.len() == 0 || crate::doc::loaded_props(theirs@) is Some),
            ours@.len() == 0 && theirs@.len() == 0 ==> r is Ok,
            ours@.len() == 0 && crate::doc::loaded_props(theirs@) is Some ==> r is Ok,
            theirs@.len() == 0 && crate::doc::loaded_props(ours@) is Some ==> r is Ok,
            ours@ == theirs@ && crate::doc::loaded_props(ours@) is Some ==> r is Ok,
            r matches Ok(b) ==> crate::doc::loaded_props(b@) is Some,
            r matches Ok(b) ==> (ours@.len() == 0 && theirs@.len() == 0
                ==> crate::doc::loaded_props(b@) == Some(
                Map::<Seq<char>, crate::doc::DocVal>::empty(),
            )),
            r matches Ok(b) ==> (ours@.len() == 0 && theirs@.len() > 0 ==> crate::doc::loaded_props(
                b@,
            ) == crate::doc::loaded_props(theirs@)),
            r matches Ok(b) ==> (theirs@.len() == 0 && ours@.len() > 0 ==> crate::doc::loaded_props(
                b@,
            ) == crate::doc::loaded_props(ours@)),
            r matches Ok(b) ==> (ours@.len() > 0 && theirs@.len() > 0
                ==> crate::doc::loaded_props(b@) == Some(crate::doc::merged_props(ours@, theirs@))
                && crate::doc::loaded_props(b@) == Some(crate::doc::merged_props(theirs@, ours@))),
            r matches Ok(b) ==> (ours@ == theirs@ && ours@.len() > 0 ==> crate::doc::loaded_props(
                b@,
            ) == crate::doc::loaded_props(ours@)),
    {
        crate::doc::merge_conflict(base, ours, theirs)
    }

    /// The canonical document names among `names` that still have both
    /// their `.LOCAL` and `.REMOTE` conflict artifacts beside them, in
    /// listing order; resolving works through exactly these.
    #[verifier::loop_isolation(false)]
    pub fn conflict_candidates(names: &Vec<String>) -> (r: Vec<String>)
        ensures
            r@.map_values(|s: String| s@) == names@.map_values(|s: String| s@).filter(
                |n: Seq<char>| is_conflict_base_name(n) && has_conflict_pair(
                    names@.map_values(|s: String| s@),
                    n,
                ),
            ),
    {
        let ghost nviews = names@.map_values(|s: String| s@);
        let ghost pred = |n: Seq<char>| is_conflict_base_name(n) && has_conflict_pair(nviews, n);
        let mut out: Vec<String> = Vec::new();
        let mut i: usize = 0;
        while i < names.len()
            invariant
                i <= nviews.len(),
                nviews == names@.map_values(|s: String| s@),
                pred == (|n: Seq<char>| is_conflict_base_name(n) && has_conflict_pair(
                    nviews,
                    n,
                )),
                out@.map_values(|s: String| s@) == nviews.take(i as int).filter(pred),
            decreases nviews.len() - i,
        {
            proof {
                crate::strutil::lemma_filter_step(nviews, pred, i as int);
            }
            let name = &names[i];
            let keep: bool = if crate::strutil::ends_with(name.as_str(), ".automerge")
                && !crate::strutil::contains_sub(name.as_str(), ".BASE")
                && !crate::strutil::contains_sub(name.as_str(), ".LOCAL")
                && !crate::strutil::contains_sub(name.as_str(), ".REMOTE") {
                let local = String::from_str(name.as_str()).concat(".LOCAL");
                let remote = String::from_str(name.as_str()).concat(".REMOTE");
                Self::names_contain(names, local.as_str()) && Self::names_contain(
                    names,
                    remote.as_str(),
                )
            } else {
                false
            };
            proof {
                assert(keep == pred(nviews[i as int]));
            }
            if keep {
                out.push(name.clone());
                proof {
                    assert(out@.map_values(|s: String| s@) =~= nviews.take(i as int).filter(
                        pred,
                    ).push(nviews[i as int]));
                }
            }
            i += 1;
        }
        proof {
            assert(nviews.take(nviews.len() as int) =~= nviews);
        }
        out
    }

    /// True when the listing holds the given name.
    #[verifier::loop_isolation(false)]
    fn names_contain(names: &Vec<String>, target: &str) -> (r: bool)
        ensures
            r == names@.map_values(|s: String| s@).contains(target@),
    {
        let ghost nviews = names@.map_values(|s: String| s@);
        let mut i: usize = 0;
        while i < names.len()
            invariant
                i <= nviews.len(),
                forall|j: int| 0 <= j < i ==> nviews[j] != target@,
            decreases nviews.len() - i,
        {
            if crate::strutil::str_eq(names[i].as_str(), target) {
                proof {
                    assert(nviews[i as int] == target@);
                }
                return true;
            }
            i += 1;
        }
        proof {
            if nviews.contains(target@) {
                let w = choose|w: int| 0 <= w < nviews.len() && nviews[w] == target@;
                assert(nviews[w] != target@);
            }
        }
        false
    }

    /// The open issues sorted for the index: most urgent first, and newest
    /// first within one urgency.
    pub fn open_sorted(&self) -> (r: Vec<Issue>)
        ensures
            r@.map_values(|i: Issue| i@).to_multiset() == self@.filter(
                |v: IssueView| status_is_open(v.status),
            ).to_multiset(),
            forall|a: int, b: int|
                0 <= a < b < r@.len() ==> open_le(
                    (#[trigger] r@[a])@,
                    (#[trigger] r@[b])@,
                ),
    {
        let open = self.list_open();
        sort_by_open(open)
    }

    /// The closed (but not tombstoned) issues sorted for the index: latest
    /// close first.
    pub fn closed_sorted(&self) -> (r: Vec<Issue>)
        ensures
            r@.map_values(|i: Issue| i@).to_multiset() == self@.filter(
                |v: IssueView| v.status == Status::Closed,
            ).to_multiset(),
            forall|a: int, b: int|
                0 <= a < b < r@.len() ==> closed_le(
                    (#[trigger] r@[a])@,
                    (#[trigger] r@[b])@,
                ),
    {
        let ghost pred = |v: IssueView| v.status == Status::Closed;
        let mut closed: Vec<Issue> = Vec::new();
        let all = self.list(true);
        let mut i: usize = 0;
        while i < all.len()
            invariant
                i <= all@.len(),
                all@.map_values(|x: Issue| x@) == self@,
                pred == (|v: IssueView| v.status == Status::Closed),
                closed@.map_values(|x: Issue| x@) == self@.take(i as int).filter(pred),
            decreases all@.len() - i,
        {
            proof {
                crate::strutil::lemma_filter_step(self@, pred, i as int);
            }
            if all[i].status == Status::Closed {
                closed.push(all[i].clone());
                proof {
                    assert(closed@.map_values(|x: Issue| x@) =~= self@.take(i as int).filter(
                        pred,
                    ).push(self@[i as int]));
                }
            } else {
                proof {
                    assert(!pred(self@[i as int]));
                }
            }
            i += 1;
        }
        proof {
            assert(self@.take(self@.len() as int) =~= self@);
        }
        sort_by_closed(closed)
    }
}

/// `ids[k]` occurs at position `ps[k]` of `text`, every occurrence inside
/// `lo .. hi`, in order and without overlap.
pub open spec fn positions_witness(
    text: Seq<char>,
    ids: Seq<Seq<char>>,
    lo: int,
    hi: int,
    ps: Seq<int>,
) -> bool {
    &&& ps.len() == ids.len()
    &&& forall|k: int|
        #![trigger ps[k]]
        0 <= k < ps.len() ==> lo <= ps[k] && ps[k] + ids[k].len() <= hi && text.subrange(
            ps[k],
            ps[k] + ids[k].len(),
        ) == ids[k]
    &&& forall|k: int, l: int|
        #![trigger ps[k], ps[l]]
        0 <= k < l < ps.len() ==> ps[k] + ids[k].len() <= ps[l]
}

/// Each of `ids` occurs in `text` within `lo .. hi`, in the given order.
pub open spec fn ids_in_order(text: Seq<char>, ids: Seq<Seq<char>>, lo: int, hi: int) -> bool {
    exists|ps: Seq<int>| #[trigger] positions_witness(text, ids, lo, hi, ps)
}

/// The ids of a group of issues, in group order.
pub open spec fn id_seq(s: Seq<IssueView>) -> Seq<Seq<char>> {
    s.map_values(|v: IssueView| v.id)
}

/// `s` is sorted as the index lists open issues.
pub open spec fn sorted_for_open(s: Seq<IssueView>) -> bool {
    forall|a: int, b: int| 0 <= a < b < s.len() ==> open_le(#[trigger] s[a], #[trigger] s[b])
}

/// `s` is sorted as the index lists closed issues.
pub open spec fn sorted_for_closed(s: Seq<IssueView>) -> bool {
    forall|a: int, b: int| 0 <= a < b < s.len() ==> closed_le(#[trigger] s[a], #[trigger] s[b])
}

/// The index text lists the ids of the open issues of `all`, sorted by
/// urgency then recency, and after all of them the ids of the closed
/// (non-tombstoned) issues, sorted by close date descending.
pub open spec fn index_lists_issues(text: Seq<char>, all: Seq<IssueView>) -> bool {
    exists|openv: Seq<IssueView>|
        #![trigger openv.to_multiset()]
        openv.to_multiset() == all.filter(|v: IssueView| status_is_open(v.status)).to_multiset()
            && sorted_for_open(openv) && (exists|closedv: Seq<IssueView>|
            #![trigger closedv.to_multiset()]
            closedv.to_multiset() == all.filter(
                |v: IssueView| v.status == Status::Closed,
            ).to_multiset() && sorted_for_closed(closedv) && (exists|mid: int|
                0 <= mid <= text.len() && #[trigger] ids_in_order(text, id_seq(openv), 0, mid)
                    && ids_in_order(text, id_seq(closedv), mid, text.len() as int)))
}

impl CrdtStore {
    /// The human-readable index of the store: open issues grouped first and
    /// sorted by urgency then recency, closed issues after, sorted by close
    /// date, and the placeholder line exactly when there is nothing to
    /// list. The index is a projection for people; nothing reads it back.
    #[verifier::loop_isolation(false)]
    pub fn issues_md_content(&self) -> (r: String)
        ensures
            r@.len() >= "# Issues\n\n"@.len() && r@.take("# Issues\n\n"@.len() as int)
                == "# Issues\n\n"@,
            (r@ == "# Issues\n\n"@ + "No issues yet.\n"@) <==> (self@.filter(
                |v: IssueView| status_is_open(v.status),
            ).len() == 0 && self@.filter(|v: IssueView| v.status == Status::Closed).len() == 0),
            index_lists_issues(r@, self@),
    {
        broadcast use vstd::seq_lib::group_to_multiset_ensures;

        let mut content = String::from_str("# Issues\n\n");
        let ghost header = content@;
        proof {
            reveal_strlit("# Issues\n\n");
            reveal_strlit("## Open\n\n");
            reveal_strlit("## Closed\n\n");
            reveal_strlit("No issues yet.\n");
            reveal_strlit("### [");
            reveal_strlit("- [");
        }
        let open = self.open_sorted();
        let closed = self.closed_sorted();
        let ghost open_ids = open@.map_values(|x: Issue| x@).map_values(|v: IssueView| v.id);
        let ghost closed_ids = closed@.map_values(|x: Issue| x@).map_values(|v: IssueView| v.id);
        let ghost mut open_ps: Seq<int> = Seq::empty();
        if open.len() > 0 {
            content.append("## Open\n\n");
            let mut i: usize = 0;
            while i < open.len()
                invariant
                    header == "# Issues\n\n"@,
                    content@.len() > header.len(),
                    content@.take(header.len() as int) == header,
                    content@[header.len() as int] == '#',
                    open_ids == open@.map_values(|x: Issue| x@).map_values(
                        |v: IssueView| v.id,
                    ),
                    i <= open@.len(),
                    positions_witness(
                        content@,
                        open_ids.take(i as int),
                        0,
                        content@.len() as int,
                        open_ps,
                    ),
                decreases open@.len() - i,
            {
                let ghost pre = content@;
                let issue = &open[i];
                content.append("### [");
                let ghost pos = content@.len() as int;
                content.append(issue.id.as_str());
                proof {
                    assert(content@.subrange(pos, pos + open_ids[i as int].len())
                        =~= open_ids[i as int]);
                }
                content.append("] ");
                content.append(issue.title.as_str());
                content.append(" (P");
                let pr = crate::strutil::u32_to_string(issue.priority as u32);
                content.append(pr.as_str());
                content.append(", ");
                content.append(issue.issue_type.as_str());
                content.append(")\n");
                match &issue.description {
                    Some(desc) => {
                        let preview = first_lines(desc.as_str(), 5);
                        content.append(preview.0.as_str());
                        if preview.1 {
                            content.append("\n...\n");
                        }
                        content.append("\n");
                    },
                    None => (),
                }
                content.append("\n");
                proof {
                    assert(content@.take(header.len() as int) =~= header);
                    assert(content@.take(pre.len() as int) =~= pre);
                    open_ps = open_ps.push(pos);
                    assert(open_ids.take(i + 1).drop_last() =~= open_ids.take(i as int));
                    assert forall|k: int| 0 <= k < open_ps.len() implies 0 <= open_ps[k]
                        && open_ps[k] + open_ids.take(i + 1)[k].len() <= content@.len()
                        && content@.subrange(
                        open_ps[k],
                        open_ps[k] + open_ids.take(i + 1)[k].len(),
                    ) == open_ids.take(i + 1)[k] by {
                        if k < open_ps.len() - 1 {
                            assert(pre.subrange(open_ps[k], open_ps[k] + open_ids[k].len())
                                == open_ids[k]);
                            assert(content@.subrange(open_ps[k], open_ps[k] + open_ids[k].len())
                                =~= pre.subrange(open_ps[k], open_ps[k] + open_ids[k].len()));
                        } else {
                            assert(content@.subrange(pos, pos + open_ids[i as int].len())
                                =~= open_ids[i as int]);
                        }
                    }
                    assert(positions_witness(
                        content@,
                        open_ids.take(i + 1),
                        0,
                        content@.len() as int,
                        open_ps,
                    ));
                }
                i += 1;
            }
            proof {
                assert(open_ids.take(open@.len() as int) =~= open_ids);
            }
        }
        let ghost mid = content@.len() as int;
        let ghost pre_closed = content@;
        let ghost mut closed_ps: Seq<int> = Seq::empty();
        proof {
            if open@.len() == 0 {
                assert(open_ids =~= Seq::<Seq<char>>::empty());
            }
            assert(positions_witness(pre_closed, open_ids, 0, mid, open_ps));
        }
        if closed.len() > 0 {
            content.append("## Closed\n\n");
            proof {
                assert(content@.take(mid) =~= pre_closed);
                assert forall|k: int| 0 <= k < open_ps.len() implies 0 <= open_ps[k]
                    && open_ps[k] + open_ids[k].len() <= mid && content@.subrange(
                    open_ps[k],
                    open_ps[k] + open_ids[k].len(),
                ) == open_ids[k] by {
                    assert(pre_closed.subrange(open_ps[k], open_ps[k] + open_ids[k].len())
                        == open_ids[k]);
                    assert(content@.subrange(open_ps[k], open_ps[k] + open_ids[k].len())
                        =~= pre_closed.subrange(open_ps[k], open_ps[k] + open_ids[k].len()));
                }
                assert(positions_witness(content@, open_ids, 0, mid, open_ps));
                assert(closed_ids.take(0) =~= Seq::<Seq<char>>::empty());
                assert(positions_witness(
                    content@,
                    closed_ids.take(0),
                    mid,
                    content@.len() as int,
                    closed_ps,
                ));
            }
            let mut i: usize = 0;
            while i < closed.len()
                invariant
                    header == "# Issues\n\n"@,
                    content@.len() > header.len(),
                    content@.take(header.len() as int) == header,
                    content@[header.len() as int] == '#',
                    closed_ids == closed@.map_values(|x: Issue| x@).map_values(
                        |v: IssueView| v.id,
                    ),
                    i <= closed@.len(),
                    mid <= content@.len(),
                    content@.take(mid) == pre_closed,
                    positions_witness(
                        content@,
                        closed_ids.take(i as int),
                        mid,
                        content@.len() as int,
                        closed_ps,
                    ),
                    positions_witness(content@, open_ids, 0, mid, open_ps),
                decreases closed@.len() - i,
            {
                let ghost pre = content@;
                let issue = &closed[i];
                content.append("- [");
                let ghost pos = content@.len() as int;
                content.append(issue.id.as_str());
                proof {
                    assert(content@.subrange(pos, pos + closed_ids[i as int].len())
                        =~= closed_ids[i as int]);
                }
                content.append("] ");
                content.append(issue.title.as_str());
                content.append(" (closed ");
                match issue.closed_at {
                    Some(t) => {
                        let date = crate::timeutil::format_date(t);
                        content.append(date.as_str());
                    },
                    None => (),
                }
                content.append(")\n");
                proof {
                    assert(content@.take(header.len() as int) =~= header);
                    assert(content@.take(pre.len() as int) =~= pre);
                    assert(content@.take(mid) =~= pre_closed);
                    closed_ps = closed_ps.push(pos);
                    assert(closed_ids.take(i + 1).drop_last() =~= closed_ids.take(i as int));
                    assert forall|k: int| 0 <= k < closed_ps.len() implies mid <= closed_ps[k]
                        && closed_ps[k] + closed_ids.take(i + 1)[k].len() <= content@.len()
                        && content@.subrange(
                        closed_ps[k],
                        closed_ps[k] + closed_ids.take(i + 1)[k].len(),
                    ) == closed_ids.take(i + 1)[k] by {
                        if k < closed_ps.len() - 1 {
                            assert(pre.subrange(
                                closed_ps[k],
                                closed_ps[k] + closed_ids[k].len(),
                            ) == closed_ids[k]);
                            assert(content@.subrange(
                                closed_ps[k],
                                closed_ps[k] + closed_ids[k].len(),
                            ) =~= pre.subrange(
                                closed_ps[k],
                                closed_ps[k] + closed_ids[k].len(),
                            ));
                        } else {
                            assert(content@.subrange(pos, pos + closed_ids[i as int].len())
                                =~= closed_ids[i as int]);
                        }
                    }
                    assert forall|k: int| 0 <= k < open_ps.len() implies 0 <= open_ps[k]
                        && open_ps[k] + open_ids[k].len() <= mid && content@.subrange(
                        open_ps[k],
                        open_ps[k] + open_ids[k].len(),
                    ) == open_ids[k] by {
                        assert(pre.subrange(open_ps[k], open_ps[k] + open_ids[k].len())
                            == open_ids[k]);
                        assert(content@.subrange(open_ps[k], open_ps[k] + open_ids[k].len())
                            =~= pre.subrange(open_ps[k], open_ps[k] + open_ids[k].len()));
                    }
                }
                i += 1;
            }
            proof {
                assert(closed_ids.take(closed@.len() as int) =~= closed_ids);
            }
        }
        if open.len() == 0 && closed.len() == 0 {
            content.append("No issues yet.\n");
            proof {
                assert(content@ == "# Issues\n\n"@ + "No issues yet.\n"@);
            }
        }
        proof {
            assert(content@.take(header.len() as int) =~= header);
            // Whenever anything is listed, the text differs from the
            // placeholder page at the first character after the header.
            if open@.len() > 0 || closed@.len() > 0 {
                assert(content@[header.len() as int] == '#');
                assert(("# Issues\n\n"@ + "No issues yet.\n"@).len() == 25);
                assert(("# Issues\n\n"@ + "No issues yet.\n"@)[10] == 'N');
                assert(content@ != "# Issues\n\n"@ + "No issues yet.\n"@);
            }
            // The sorted groups stand for the filtered issue sets.
            assert(open@.map_values(|x: Issue| x@).to_multiset().len() == self@.filter(
                |v: IssueView| status_is_open(v.status),
            ).len());
            assert(closed@.map_values(|x: Issue| x@).to_multiset().len() == self@.filter(
                |v: IssueView| v.status == Status::Closed,
            ).len());
            // Witnesses for the listing property.
            let openv = open@.map_values(|x: Issue| x@);
            let closedv = closed@.map_values(|x: Issue| x@);
            if open@.len() == 0 {
                assert(positions_witness(
                    content@,
                    open_ids,
                    0,
                    mid,
                    Seq::<int>::empty(),
                ));
                assert(open_ids =~= id_seq(openv));
                assert(ids_in_order(content@, id_seq(openv), 0, mid));
            } else {
                assert(positions_witness(content@, open_ids, 0, mid, open_ps)) by {
                    if closed@.len() == 0 {
                        assert(content@.len() as int == mid);
                    }
                }
                assert(open_ids =~= id_seq(openv));
                assert(ids_in_order(content@, id_seq(openv), 0, mid));
            }
            if closed@.len() == 0 {
                assert(positions_witness(
                    content@,
                    closed_ids,
                    mid,
                    content@.len() as int,
                    Seq::<int>::empty(),
                ));
            }
            assert(closed_ids =~= id_seq(closedv));
            assert(ids_in_order(content@, id_seq(closedv), mid, content@.len() as int));
            assert(index_lists_issues(content@, self@));
        }
        content
    }
}

/// The text before the `n`-th line break of `s` (the whole text when there
/// are fewer), and whether anything was cut off.
#[verifier::loop_isolation(false)]
fn first_lines(s: &str, n: u32) -> (r: (String, bool))
    ensures
        r.0@.len() <= s@.len(),
        r.0@ == s@.take(r.0@.len() as int),
{
    let len = s.unicode_len();
    let mut seen: u32 = 0;
    let mut i: usize = 0;
    while i < len && seen < n
        invariant
            i <= len,
            len == s@.len(),
        decreases len - i,
    {
        if s.get_char(i) == '\n' {
            seen += 1;
            if seen == n {
                let prefix = s.substring_char(0, i);
                proof {
                    assert(prefix@ =~= s@.take(prefix@.len() as int));
                }
                return (String::from_str(prefix), true);
            }
        }
        i += 1;
    }
    let whole = String::from_str(s);
    proof {
        assert(whole@ =~= s@.take(whole@.len() as int));
    }
    (whole, false)
}

/// True when `a` sorts at or before `b` among open issues.
fn open_before(a: &Issue, b: &Issue) -> (r: bool)
    ensures
        r == open_le(a@, b@),
{
    if a.priority < b.priority {
        true
    } else if a.priority == b.priority {
        a.created_at >= b.created_at
    } else {
        false
    }
}

/// True when `a` sorts at or before `b` among closed issues.
fn closed_before(a: &Issue, b: &Issue) -> (r: bool)
    ensures
        r == closed_le(a@, b@),
{
    match (a.closed_at, b.closed_at) {
        (Some(x), Some(y)) => x >= y,
        (Some(_), None) => true,
        (None, Some(_)) => false,
        (None, None) => true,
    }
}

/// Insertion sort by the open-issue order: the result is a reordering of
/// the input, sorted.
#[verifier::loop_isolation(false)]
fn sort_by_open(v: Vec<Issue>) -> (r: Vec<Issue>)
    ensures
        r@.map_values(|i: Issue| i@).to_multiset() == v@.map_values(
            |i: Issue| i@,
        ).to_multiset(),
        forall|a: int, b: int|
            0 <= a < b < r@.len() ==> open_le((#[trigger] r@[a])@, (#[trigger] r@[b])@),
{
    let ghost views = v@.map_values(|i: Issue| i@);
    let mut out: Vec<Issue> = Vec::new();
    proof {
        assert(out@.map_values(|x: Issue| x@) =~= views.take(0));
    }
    let mut i: usize = 0;
    while i < v.len()
        invariant
            i <= views.len(),
            views == v@.map_values(|x: Issue| x@),
            out@.map_values(|x: Issue| x@).to_multiset() == views.take(i as int).to_multiset(),
            forall|a: int, b: int|
                0 <= a < b < out@.len() ==> open_le(
                    (#[trigger] out@[a])@,
                    (#[trigger] out@[b])@,
                ),
        decreases views.len() - i,
    {
        let x = v[i].clone();
        let mut p: usize = 0;
        while p < out.len() && open_before(&out[p], &x)
            invariant
                p <= out@.len(),
                forall|q: int| 0 <= q < p ==> open_le((#[trigger] out@[q])@, x@),
            decreases out@.len() - p,
        {
            p += 1;
        }
        proof {
            if p < out@.len() {
                assert(open_le(x@, out@[p as int]@));
            }
        }
        let ghost pre = out@;
        out.insert(p, x);
        proof {
            broadcast use vstd::seq_lib::to_multiset_insert;
            broadcast use vstd::seq_lib::to_multiset_build;

            assert(out@.map_values(|y: Issue| y@) =~= pre.map_values(|y: Issue| y@).insert(
                p as int,
                x@,
            ));
            assert(views.take(i + 1).drop_last() =~= views.take(i as int));
            assert(views.take(i + 1) =~= views.take(i as int).push(views[i as int]));
            assert forall|a: int, b: int|
                0 <= a < b < out@.len() implies open_le(
                (#[trigger] out@[a])@,
                (#[trigger] out@[b])@,
            ) by {
                if b < p {
                    assert(pre[a]@ == out@[a]@ && pre[b]@ == out@[b]@);
                } else if a < p && b == p {
                } else if a < p && b > p {
                    assert(pre[a]@ == out@[a]@ && pre[b - 1]@ == out@[b]@);
                } else if a == p {
                    assert(pre[b - 1]@ == out@[b]@);
                    if b - 1 >= p {
                        assert(open_le(x@, pre[p as int]@));
                        assert(open_le(pre[p as int]@, pre[b - 1]@) || p as int == b - 1);
                    }
                } else {
                    assert(pre[a - 1]@ == out@[a]@ && pre[b - 1]@ == out@[b]@);
                }
            }
        }
        i += 1;
    }
    proof {
        assert(views.take(views.len() as int) =~= views);
    }
    out
}

/// Insertion sort by the closed-issue order: the result is a reordering of
/// the input, sorted.
#[verifier::loop_isolation(false)]
fn sort_by_closed(v: Vec<Issue>) -> (r: Vec<Issue>)
    ensures
        r@.map_values(|i: Issue| i@).to_multiset() == v@.map_values(
            |i: Issue| i@,
        ).to_multiset(),
        forall|a: int, b: int|
            0 <= a < b < r@.len() ==> closed_le((#[trigger] r@[a])@, (#[trigger] r@[b])@),
{
    let ghost views = v@.map_values(|i: Issue| i@);
    let mut out: Vec<Issue> = Vec::new();
    proof {
        assert(out@.map_values(|x: Issue| x@) =~= views.take(0));
    }
    let mut i: usize = 0;
    while i < v.len()
        invariant
            i <= views.len(),
            views == v@.map_values(|x: Issue| x@),
            out@.map_values(|x: Issue| x@).to_multiset() == views.take(i as int).to_multiset(),
            forall|a: int, b: int|
                0 <= a < b < out@.len() ==> closed_le(
                    (#[trigger] out@[a])@,
                    (#[trigger] out@[b])@,
                ),
        decreases views.len() - i,
    {
        let x = v[i].clone();
        let mut p: usize = 0;
        while p < out.len() && closed_before(&out[p], &x)
            invariant
                p <= out@.len(),
                forall|q: int| 0 <= q < p ==> closed_le((#[trigger] out@[q])@, x@),
            decreases out@.len() - p,
        {
            p += 1;
        }
        proof {
            if p < out@.len() {
                assert(closed_le(x@, out@[p as int]@));
            }
        }
        let ghost pre = out@;
        out.insert(p, x);
        proof {
            broadcast use vstd::seq_lib::to_multiset_insert;
            broadcast use vstd::seq_lib::to_multiset_build;

            assert(out@.map_values(|y: Issue| y@) =~= pre.map_values(|y: Issue| y@).insert(
                p as int,
                x@,
            ));
            assert(views.take(i + 1).drop_last() =~= views.take(i as int));
            assert(views.take(i + 1) =~= views.take(i as int).push(views[i as int]));
            assert forall|a: int, b: int|
                0 <= a < b < out@.len() implies closed_le(
                (#[trigger] out@[a])@,
                (#[trigger] out@[b])@,
            ) by {
                if b < p {
                    assert(pre[a]@ == out@[a]@ && pre[b]@ == out@[b]@);
                } else if a < p && b == p {
                } else if a < p && b > p {
                    assert(pre[a]@ == out@[a]@ && pre[b - 1]@ == out@[b]@);
                } else if a == p {
                    assert(pre[b - 1]@ == out@[b]@);
                    if b - 1 >= p {
                        assert(closed_le(x@, pre[p as int]@));
                        assert(closed_le(pre[p as int]@, pre[b - 1]@) || p as int == b - 1);
                    }
                } else {
                    assert(pre[a - 1]@ == out@[a]@ && pre[b - 1]@ == out@[b]@);
                }
            }
        }
        i += 1;
    }
    proof {
        assert(views.take(views.len() as int) =~= views);
    }
    out
}

} // verus!
