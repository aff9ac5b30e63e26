//! The flat-file backend: the whole issue set as one in-memory table,
//! persisted by the caller as one line-delimited file that is rewritten on
//! every mutation.
//!
//! File reading and writing live with the caller; this module holds the
//! table semantics, including last-write-wins loading of duplicate ids.
//! There is no handle into the table's interior: a caller edits an issue by
//! cloning it from `get`, changing it, and writing it back with `update`,
//! which keeps the id-uniqueness invariant in one place.

use vstd::prelude::*;

use crate::error::Error;
use crate::graph::first_idx_with_id;
use crate::issue::Issue;
use crate::issue::IssueView;
use crate::table::direct_child_num;
use crate::table::has_id;
use crate::table::IssueTable;

verus! {

/// `s` with `v` written over the first issue of the same id, or appended
/// when the id is new.
pub open spec fn upserted(s: Seq<IssueView>, v: IssueView) -> Seq<IssueView> {
    if first_idx_with_id(s, v.id) < s.len() {
        s.update(first_idx_with_id(s, v.id), v)
    } else {
        s.push(v)
    }
}

/// The table a sequence of records loads to: later records with an already
/// seen id win.
pub open spec fn loaded_view(input: Seq<IssueView>) -> Seq<IssueView>
    decreases input.len(),
{
    if input.len() == 0 {
        Seq::empty()
    } else {
        upserted(loaded_view(input.drop_last()), input.last())
    }
}

/// The flat-file issue store.
pub struct Store {
    table: IssueTable,
}

impl View for Store {
    type V = Seq<IssueView>;

    closed spec fn view(&self) -> Seq<IssueView> {
        self.table@
    }
}

impl Store {
    /// Id uniqueness, the store's invariant.
    pub open spec fn wf(&self) -> bool {
        crate::table::unique_ids(self@)
    }

    /// An empty store.
    pub fn new() -> (r: Store)
        ensures
            r@ == Seq::<IssueView>::empty(),
            r.wf(),
    {
        Store { table: IssueTable::new() }
    }

    /// Loads a store from records in file order; on duplicate ids the last
    /// record wins.
    #[verifier::loop_isolation(false)]
    pub fn load_from(input: &Vec<Issue>) -> (r: Store)
        ensures
            r.wf(),
            r@ == loaded_view(input@.map_values(|x: Issue| x@)),
    {
        let ghost views = input@.map_values(|x: Issue| x@);
        let mut table = IssueTable::new();
        let mut i: usize = 0;
        let n = input.len();
        proof {
            assert(views.take(0) =~= Seq::<IssueView>::empty());
            assert(table@ =~= loaded_view(views.take(0)));
        }
        while i < n
            invariant
                n == views.len(),
                i <= n,
                views == input@.map_values(|x: Issue| x@),
                table.wf(),
                table@ == loaded_view(views.take(i as int)),
            decreases n - i,
        {
            let issue = input[i].clone();
            assert(issue@ == views[i as int]);
            let ghost pre = table@;
            table.upsert(issue);
            proof {
                assert(views.take(i + 1).drop_last() =~= views.take(i as int));
                assert(views.take(i + 1).last() == views[i as int]);
                crate::graph::lemma_first_idx(pre, views[i as int].id);
                if has_id(pre, views[i as int].id) {
                    let j = choose|j: int|
                        0 <= j < pre.len() && (#[trigger] pre[j]).id == views[i as int].id
                            && table@ == pre.update(j, views[i as int]);
                    let f = first_idx_with_id(pre, views[i as int].id);
                    if f < pre.len() && f != j {
                        assert(pre[f].id == pre[j].id);
                        assert(false);
                    }
                    if f >= pre.len() {
                        assert(pre[j].id == views[i as int].id);
                        assert(false);
                    }
                } else {
                    let f = first_idx_with_id(pre, views[i as int].id);
                    if f < pre.len() {
                        assert(pre[f].id == views[i as int].id);
                        assert(false);
                    }
                }
                assert(table@ == upserted(pre, views[i as int]));
            }
            i += 1;
        }
        proof {
            assert(views.take(n as int) =~= views);
        }
        Store { table: table }
    }

    /// The number of issues held.
    pub fn len(&self) -> (r: usize)
        ensures
            r == self@.len(),
    {
        self.table.len()
    }

    /// A borrowed view of the issue with the given id.
    pub fn get<'a>(&'a self, id: &str) -> (r: Option<&'a Issue>)
        ensures
            match r {
                Some(x) => has_id(self@, id@) && x@.id == id@ && (exists|j: int|
                    0 <= j < self@.len() && self@[j] == x@),
                None => !has_id(self@, id@),
            },
    {
        match self.table.get(id) {
            Some(x) => {
                proof {
                    let j = choose|j: int|
                        0 <= j < self.table@.len() && self.table@[j] == x@;
                    assert(0 <= j < self@.len() && self@[j] == x@);
                }
                Some(x)
            },
            None => None,
        }
    }

    /// Adds a new issue; rejected when its id is already taken.
    pub fn create(&mut self, issue: Issue) -> (r: Result<(), Error>)
        requires
            old(self).wf(),
        ensures
            final(self).wf(),
            match r {
                Ok(()) => !has_id(old(self)@, issue@.id) && final(self)@ == old(self)@.push(
                    issue@,
                ),
                Err(e) => has_id(old(self)@, issue@.id) && final(self)@ == old(self)@ && (e
                    matches Error::AlreadyExists(m) && m@ == issue@.id),
            },
    {
        self.table.create(issue)
    }

    /// Replaces the issue with the same id; rejected when none exists.
    pub fn update(&mut self, issue: Issue) -> (r: Result<(), Error>)
        requires
            old(self).wf(),
        ensures
            final(self).wf(),
            match r {
                Ok(()) => exists|j: int|
                    0 <= j < old(self)@.len() && (#[trigger] old(self)@[j]).id == issue@.id
                        && final(self)@ == old(self)@.update(j, issue@),
                Err(e) => !has_id(old(self)@, issue@.id) && final(self)@ == old(self)@ && (e
                    matches Error::NotFound(m) && m@ == issue@.id),
            },
    {
        let r = self.table.update(issue);
        proof {
            if r is Ok {
                let j = choose|j: int|
                    0 <= j < old(self).table@.len() && (#[trigger] old(self).table@[j]).id
                        == issue@.id && self.table@ == old(self).table@.update(j, issue@);
                assert(0 <= j < old(self)@.len() && old(self)@[j].id == issue@.id && self@
                    == old(self)@.update(j, issue@));
            }
        }
        r
    }

    /// Tombstones the issue with the given id; rejected when none exists.
    /// A second delete overwrites the tombstone's provenance.
    pub fn delete(&mut self, id: &str, by: Option<String>, reason: Option<String>) -> (r: Result<
        (),
        Error,
    >)
        requires
            old(self).wf(),
        ensures
            final(self).wf(),
            match r {
                Ok(()) => exists|j: int, now: int|
                    #![trigger old(self)@.update(j, crate::issue::delete_view(old(self)@[j],
                    crate::issue::opt_view(by), crate::issue::opt_view(reason), now))]
                    0 <= j < old(self)@.len() && old(self)@[j].id == id@ && final(self)@ == old(
                        self,
                    )@.update(
                        j,
                        crate::issue::delete_view(
                            old(self)@[j],
                            crate::issue::opt_view(by),
                            crate::issue::opt_view(reason),
                            now,
                        ),
                    ),
                Err(e) => !has_id(old(self)@, id@) && final(self)@ == old(self)@ && (e matches
                    Error::NotFound(m) && m@ == id@),
            },
    {
        let r = self.table.delete(id, by, reason);
        proof {
            if r is Ok {
                let (j, now) = choose|j: int, now: int|
                    #![trigger old(self).table@.update(j, crate::issue::delete_view(
                    old(self).table@[j], crate::issue::opt_view(by),
                    crate::issue::opt_view(reason), now))]
                    0 <= j < old(self).table@.len() && old(self).table@[j].id == id@
                        && self.table@ == old(self).table@.update(
                        j,
                        crate::issue::delete_view(
                            old(self).table@[j],
                            crate::issue::opt_view(by),
                            crate::issue::opt_view(reason),
                            now,
                        ),
                    );
                assert(0 <= j < old(self)@.len() && old(self)@[j].id == id@ && self@ == old(
                    self,
                )@.update(
                    j,
                    crate::issue::delete_view(
                        old(self)@[j],
                        crate::issue::opt_view(by),
                        crate::issue::opt_view(reason),
                        now,
                    ),
                ));
            }
        }
        r
    }

    /// All issues, tombstones included only on request, in table order.
    pub fn list(&self, include_tombstones: bool) -> (r: Vec<Issue>)
        ensures
            include_tombstones ==> r@.map_values(|i: Issue| i@) == self@,
            !include_tombstones ==> r@.map_values(|i: Issue| i@) == self@.filter(
                |v: IssueView| v.status != crate::issue::Status::Tombstone,
            ),
    {
        self.table.list(include_tombstones)
    }

    /// The issues whose status is open, in table order.
    pub fn list_open(&self) -> (r: Vec<Issue>)
        ensures
            r@.map_values(|i: Issue| i@) == self@.filter(
                |v: IssueView| crate::issue::status_is_open(v.status),
            ),
    {
        self.table.list_open()
    }

    /// One more than the highest numeric suffix among the direct children
    /// of `parent_id`, or 1 when it has none.
    pub fn next_child_num(&self, parent_id: &str) -> (r: u32)
        requires
            forall|j: int|
                0 <= j < self@.len() ==> (direct_child_num(
                    (#[trigger] self@[j]).id,
                    parent_id@,
                ) matches Some(n) ==> n < u32::MAX),
        ensures
            r >= 1,
            forall|j: int|
                0 <= j < self@.len() ==> (direct_child_num(
                    (#[trigger] self@[j]).id,
                    parent_id@,
                ) matches Some(n) ==> n < r),
            r > 1 ==> exists|j: int|
                0 <= j < self@.len() && direct_child_num((#[trigger] self@[j]).id, parent_id@)
                    == Some(r - 1 as int),
    {
        self.table.next_child_num(parent_id)
    }
}

} // verus!
