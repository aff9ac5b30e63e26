//! The in-memory issue map both persistence backends share: a sequence of
//! issues with pairwise-distinct ids, addressed by id.
//!
//! A store's corpus is small (hundreds of issues), so the table is a plain
//! vector searched linearly; its contract speaks of the sequence of issue
//! values and of id uniqueness.

use vstd::prelude::*;

use crate::error::Error;
use crate::issue::delete_view;
use crate::issue::status_is_open;
use crate::issue::Issue;
use crate::issue::IssueView;
use crate::issue::Status;
use crate::strutil::dec_val;
use crate::strutil::is_digit_seq;

verus! {

/// True when `s` holds an issue with the given id.
pub open spec fn has_id(s: Seq<IssueView>, id: Seq<char>) -> bool {
    exists|j: int| 0 <= j < s.len() && (#[trigger] s[j]).id == id
}

/// True when no two issues of `s` share an id.
pub open spec fn unique_ids(s: Seq<IssueView>) -> bool {
    forall|j: int, k: int| 0 <= j < k < s.len() ==> (#[trigger] s[j]).id != (#[trigger] s[k]).id
}

/// The suffix number of `id` when it names a direct child of `parent`
/// (i.e. `id` is `parent`, a dot, and digits that fit a `u32`).
pub open spec fn direct_child_num(id: Seq<char>, parent: Seq<char>) -> Option<int> {
    let plen = parent.len() + 1;
    if id.len() > plen && id.take(plen as int) == parent + "."@ && is_digit_seq(id.skip(plen as int))
        && dec_val(id.skip(plen as int)) <= u32::MAX {
        Some(dec_val(id.skip(plen as int)))
    } else {
        None
    }
}

/// The in-memory issue map: issues in insertion order, ids unique.
pub struct IssueTable {
    issues: Vec<Issue>,
}

impl View for IssueTable {
    type V = Seq<IssueView>;

    closed spec fn view(&self) -> Seq<IssueView> {
        self.issues@.map_values(|i: Issue| i@)
    }
}

impl IssueTable {
    /// Id uniqueness, the table's invariant.
    pub open spec fn wf(&self) -> bool {
        unique_ids(self@)
    }

    /// An empty table.
    pub fn new() -> (r: IssueTable)
        ensures
            r@ == Seq::<IssueView>::empty(),
            r.wf(),
    {
        let r = IssueTable { issues: Vec::new() };
        proof {
            assert(r@ =~= Seq::<IssueView>::empty());
        }
        r
    }

    /// The number of issues held.
    pub fn len(&self) -> (r: usize)
        ensures
            r == self@.len(),
    {
        self.issues.len()
    }

    /// The position of the issue with the given id, if present.
    fn find_index(&self, id: &str) -> (r: Option<usize>)
        ensures
            match r {
                Some(j) => j < self@.len() && self@[j as int].id == id@,
                None => !has_id(self@, id@),
            },
    {
        let mut i: usize = 0;
        while i < self.issues.len()
            invariant
                i <= self@.len(),
                forall|j: int| 0 <= j < i ==> (#[trigger] self@[j]).id != id@,
            decreases self@.len() - i,
        {
            if crate::strutil::str_eq(self.issues[i].id.as_str(), id) {
                assert(self@[i as int].id == id@);
                return Some(i);
            }
            i += 1;
        }
        None
    }

    /// A borrowed view of the issue with the given id.
    pub fn get<'a>(&'a self, id: &str) -> (r: Option<&'a Issue>)
        ensures
            match r {
                Some(x) => has_id(self@, id@) && x@.id == id@ && (exists|j: int|
                    0 <= j < self@.len() && self@[j] == x@),
                None => !has_id(self@, id@),
            },
    {
        match self.find_index(id) {
            Some(j) => {
                let x = &self.issues[j];
                assert(self@[j as int] == x@);
                Some(x)
            },
            None => None,
        }
    }

    /// Adds a new issue; rejected when its id is already taken.
    pub fn create(&mut self, issue: Issue) -> (r: Result<(), Error>)
        requires
            old(self).wf(),
        ensures
            final(self).wf(),
            match r {
                Ok(()) => !has_id(old(self)@, issue@.id) && final(self)@ == old(self)@.push(issue@),
                Err(e) => has_id(old(self)@, issue@.id) && final(self)@ == old(self)@ && (e matches
                    Error::AlreadyExists(m) && m@ == issue@.id),
            },
    {
        match self.find_index(issue.id.as_str()) {
            Some(j) => {
                assert(has_id(self@, issue@.id)) by {
                    assert(self@[j as int].id == issue@.id);
                }
                Err(Error::AlreadyExists(issue.id))
            },
            None => {
                self.issues.push(issue);
                proof {
                    assert(self@ =~= old(self)@.push(issue@));
                    assert forall|j: int, k: int|
                        0 <= j < k < self@.len() implies (#[trigger] self@[j]).id
                        != (#[trigger] self@[k]).id by {
                        if k == self@.len() - 1 {
                            assert(self@[j].id != issue@.id);
                        }
                    }
                }
                Ok(())
            },
        }
    }

    /// Replaces the issue with the same id; rejected when none exists.
    pub fn update(&mut self, issue: Issue) -> (r: Result<(), Error>)
        requires
            old(self).wf(),
        ensures
            final(self).wf(),
            match r {
                Ok(()) => exists|j: int|
                    0 <= j < old(self)@.len() && (#[trigger] old(self)@[j]).id == issue@.id
                        && final(self)@ == old(self)@.update(j, issue@),
                Err(e) => !has_id(old(self)@, issue@.id) && final(self)@ == old(self)@ && (e matches
                    Error::NotFound(m) && m@ == issue@.id),
            },
    {
        match self.find_index(issue.id.as_str()) {
            Some(j) => {
                let ghost jj = j as int;
                self.issues[j] = issue;
                proof {
                    assert(self@ =~= old(self)@.update(jj, issue@));
                    assert forall|a: int, b: int|
                        0 <= a < b < self@.len() implies (#[trigger] self@[a]).id
                        != (#[trigger] self@[b]).id by {
                        assert(old(self)@[a].id != old(self)@[b].id);
                        assert(old(self)@[jj].id == issue@.id);
                    }
                }
                Ok(())
            },
            None => Err(Error::NotFound(issue.id)),
        }
    }

    /// Inserts or replaces by id; the last write wins.
    pub fn upsert(&mut self, issue: Issue)
        requires
            old(self).wf(),
        ensures
            final(self).wf(),
            has_id(old(self)@, issue@.id) ==> exists|j: int|
                0 <= j < old(self)@.len() && (#[trigger] old(self)@[j]).id == issue@.id && final(self)@ == old(self)@.update(j, issue@),
            !has_id(old(self)@, issue@.id) ==> final(self)@ == old(self)@.push(issue@),
    {
        match self.find_index(issue.id.as_str()) {
            Some(j) => {
                let ghost jj = j as int;
                proof {
                    assert(has_id(self@, issue@.id)) by {
                        assert(self@[jj].id == issue@.id);
                    }
                }
                self.issues[j] = issue;
                proof {
                    assert(self@ =~= old(self)@.update(jj, issue@));
                    assert forall|a: int, b: int|
                        0 <= a < b < self@.len() implies (#[trigger] self@[a]).id
                        != (#[trigger] self@[b]).id by {
                        assert(old(self)@[a].id != old(self)@[b].id);
                        assert(old(self)@[jj].id == issue@.id);
                    }
                }
            },
            None => {
                self.issues.push(issue);
                proof {
                    assert(self@ =~= old(self)@.push(issue@));
                    assert forall|a: int, b: int|
                        0 <= a < b < self@.len() implies (#[trigger] self@[a]).id
                        != (#[trigger] self@[b]).id by {
                        if b == self@.len() - 1 {
                            assert(self@[a].id != issue@.id);
                        }
                    }
                }
            },
        }
    }

    /// Tombstones the issue with the given id in place, recording who
    /// deleted it and why; rejected when none exists. Tombstoning an
    /// already tombstoned issue overwrites its provenance.
    pub fn delete(&mut self, id: &str, by: Option<String>, reason: Option<String>) -> (r: Result<
        (),
        Error,
    >)
        requires
            old(self).wf(),
        ensures
            final(self).wf(),
            match r {
                Ok(()) => exists|j: int, now: int|
                    #![trigger old(self)@.update(
                        j,
                        delete_view(
                            old(self)@[j],
                            crate::issue::opt_view(by),
                            crate::issue::opt_view(reason),
                            now,
                        ),
                    )]
                    0 <= j < old(self)@.len() && old(self)@[j].id == id@ && final(self)@ == old(
                        self,
                    )@.update(
                        j,
                        delete_view(
                            old(self)@[j],
                            crate::issue::opt_view(by),
                            crate::issue::opt_view(reason),
                            now,
                        ),
                    ),
                Err(e) => !has_id(old(self)@, id@) && final(self)@ == old(self)@ && (e matches
                    Error::NotFound(m) && m@ == id@),
            },
    {
        match self.find_index(id) {
            Some(j) => {
                let ghost jj = j as int;
                self.issues[j].delete(by, reason);
                proof {
                    let now = choose|now: int|
                        self.issues@[jj]@ == delete_view(
                            old(self)@[jj],
                            crate::issue::opt_view(by),
                            crate::issue::opt_view(reason),
                            now,
                        );
                    assert(self@ =~= old(self)@.update(
                        jj,
                        delete_view(
                            old(self)@[jj],
                            crate::issue::opt_view(by),
                            crate::issue::opt_view(reason),
                            now,
                        ),
                    ));
                    assert forall|a: int, b: int|
                        0 <= a < b < self@.len() implies (#[trigger] self@[a]).id
                        != (#[trigger] self@[b]).id by {
                        assert(old(self)@[a].id != old(self)@[b].id);
                        assert(old(self)@[jj].id == id@);
                    }
                }
                Ok(())
            },
            None => Err(Error::NotFound(id.to_owned())),
        }
    }

    /// All issues, tombstones included only on request, in table order.
    pub fn list(&self, include_tombstones: bool) -> (r: Vec<Issue>)
        ensures
            include_tombstones ==> r@.map_values(|i: Issue| i@) == self@,
            !include_tombstones ==> r@.map_values(|i: Issue| i@) == self@.filter(
                |v: IssueView| v.status != Status::Tombstone,
            ),
    {
        let ghost pred = |v: IssueView| v.status != Status::Tombstone;
        let mut out: Vec<Issue> = Vec::new();
        let mut i: usize = 0;
        while i < self.issues.len()
            invariant
                i <= self@.len(),
                pred == (|v: IssueView| v.status != Status::Tombstone),
                include_tombstones ==> out@.map_values(|x: Issue| x@) == self@.take(i as int),
                !include_tombstones ==> out@.map_values(|x: Issue| x@) == self@.take(
                    i as int,
                ).filter(pred),
            decreases self@.len() - i,
        {
            proof {
                crate::strutil::lemma_filter_step(self@, pred, i as int);
            }
            if include_tombstones || self.issues[i].status != Status::Tombstone {
                out.push(self.issues[i].clone());
                proof {
                    if include_tombstones {
                        assert(out@.map_values(|x: Issue| x@) =~= self@.take(i + 1));
                    } else {
                        assert(pred(self@[i as int]));
                        assert(out@.map_values(|x: Issue| x@) =~= self@.take(i as int).filter(
                            pred,
                        ).push(self@[i as int]));
                    }
                }
            } else {
                proof {
                    assert(!pred(self@[i as int]));
                }
            }
            i += 1;
        }
        proof {
            assert(self@.take(self@.len() as int) =~= self@);
        }
        out
    }

    /// The issues whose status is open, in table order.
    pub fn list_open(&self) -> (r: Vec<Issue>)
        ensures
            r@.map_values(|i: Issue| i@) == self@.filter(|v: IssueView| status_is_open(v.status)),
    {
        let ghost pred = |v: IssueView| status_is_open(v.status);
        let mut out: Vec<Issue> = Vec::new();
        let mut i: usize = 0;
        while i < self.issues.len()
            invariant
                i <= self@.len(),
                pred == (|v: IssueView| status_is_open(v.status)),
                out@.map_values(|x: Issue| x@) == self@.take(i as int).filter(pred),
            decreases self@.len() - i,
        {
            proof {
                crate::strutil::lemma_filter_step(self@, pred, i as int);
            }
            if self.issues[i].status.is_open() {
                out.push(self.issues[i].clone());
                proof {
                    assert(pred(self@[i as int]));
                    assert(out@.map_values(|x: Issue| x@) =~= self@.take(i as int).filter(
                        pred,
                    ).push(self@[i as int]));
                }
            } else {
                proof {
                    assert(!pred(self@[i as int]));
                }
            }
            i += 1;
        }
        proof {
            assert(self@.take(self@.len() as int) =~= self@);
        }
        out
    }

    /// One more than the highest numeric suffix among the direct children
    /// of `parent_id`, or 1 when it has none.
    pub fn next_child_num(&self, parent_id: &str) -> (r: u32)
        requires
            forall|j: int|
                0 <= j < self@.len() ==> (direct_child_num(
                    (#[trigger] self@[j]).id,
                    parent_id@,
                ) matches Some(n) ==> n < u32::MAX),
        ensures
            r >= 1,
            forall|j: int|
                0 <= j < self@.len() ==> (direct_child_num(
                    (#[trigger] self@[j]).id,
                    parent_id@,
                ) matches Some(n) ==> n < r),
            r > 1 ==> exists|j: int|
                0 <= j < self@.len() && direct_child_num((#[trigger] self@[j]).id, parent_id@)
                    == Some(r - 1 as int),
    {
        let prefix = String::from_str(parent_id).concat(".");
        proof {
            reveal_strlit(".");
            assert(prefix@ == parent_id@ + "."@);
        }
        let plen = prefix.as_str().unicode_len();
        let mut best: u32 = 0;
        let mut i: usize = 0;
        while i < self.issues.len()
            invariant
                i <= self@.len(),
                prefix@ == parent_id@ + "."@,
                plen == prefix@.len(),
                plen == parent_id@.len() + 1,
                forall|j: int|
                    0 <= j < self@.len() ==> (direct_child_num(
                        (#[trigger] self@[j]).id,
                        parent_id@,
                    ) matches Some(n) ==> n < u32::MAX),
                forall|j: int|
                    0 <= j < i ==> (direct_child_num(
                        (#[trigger] self@[j]).id,
                        parent_id@,
                    ) matches Some(n) ==> n <= best),
                best > 0 ==> exists|j: int|
                    0 <= j < i && direct_child_num((#[trigger] self@[j]).id, parent_id@) == Some(
                        best as int,
                    ),
            decreases self@.len() - i,
        {
            let id = &self.issues[i].id;
            let ghost idv = self@[i as int].id;
            if crate::strutil::starts_with(id.as_str(), prefix.as_str()) && id.as_str().unicode_len()
                > plen {
                let suffix = id.as_str().substring_char(plen, id.as_str().unicode_len());
                assert(suffix@ == idv.skip(plen as int));
                match crate::strutil::parse_u32(suffix) {
                    Some(n) => {
                        proof {
                            assert(idv.take(plen as int) == parent_id@ + "."@);
                            assert(direct_child_num(idv, parent_id@) == Some(n as int));
                        }
                        if n > best {
                            best = n;
                        }
                    },
                    None => {
                        proof {
                            assert(direct_child_num(idv, parent_id@) is None);
                        }
                    },
                }
            } else {
                proof {
                    if idv.len() > plen && idv.take(plen as int) == parent_id@ + "."@ {
                        assert(plen <= idv.len());
                        assert(idv.take(plen as int) == prefix@);
                    }
                    assert(direct_child_num(idv, parent_id@) is None);
                }
            }
            i += 1;
        }
        best + 1
    }
}

} // verus!
