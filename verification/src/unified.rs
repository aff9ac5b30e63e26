//! The version-tagged facade over the two backends, and the one-way
//! transforms between them.
//!
//! Opening a repository (reading its configuration and files) lives with
//! the caller; the facade dispatches every operation to whichever backend
//! the store was opened as, and the transforms turn one backend's full
//! issue set into the other's.

use vstd::prelude::*;

use crate::config::StorageVersion;
use crate::crdt_store::CrdtStore;
use crate::error::Error;
use crate::issue::Issue;
use crate::issue::IssueView;
use crate::store::Store;
use crate::table::direct_child_num;
use crate::table::has_id;
use crate::table::unique_ids;

verus! {

/// A store of either backend, chosen at open time.
pub enum UnifiedStore {
    V1(Store),
    V2(CrdtStore),
}

impl View for UnifiedStore {
    type V = Seq<IssueView>;

    open spec fn view(&self) -> Seq<IssueView> {
        match self {
            UnifiedStore::V1(s) => s@,
            UnifiedStore::V2(s) => s@,
        }
    }
}

impl UnifiedStore {
    /// Id uniqueness, the store's invariant.
    pub open spec fn wf(&self) -> bool {
        unique_ids(self@)
    }

    /// Which backend this store is.
    pub fn version(&self) -> (r: StorageVersion)
        ensures
            r == (match self {
                UnifiedStore::V1(_) => StorageVersion::V1,
                UnifiedStore::V2(_) => StorageVersion::V2,
            }),
    {
        match self {
            UnifiedStore::V1(_) => StorageVersion::V1,
            UnifiedStore::V2(_) => StorageVersion::V2,
        }
    }

    /// A borrowed view of the issue with the given id.
    pub fn get<'a>(&'a self, id: &str) -> (r: Option<&'a Issue>)
        ensures
            match r {
                Some(x) => has_id(self@, id@) && x@.id == id@ && (exists|j: int|
                    0 <= j < self@.len() && self@[j] == x@),
                None => !has_id(self@, id@),
            },
    {
        match self {
            UnifiedStore::V1(s) => {
                let r = s.get(id);
                if let Some(x) = r {
                    proof {
                        let j = choose|j: int| 0 <= j < s@.len() && s@[j] == x@;
                        assert(0 <= j < self@.len() && self@[j] == x@);
                    }
                }
                r
            },
            UnifiedStore::V2(s) => {
                let r = s.get(id);
                if let Some(x) = r {
                    proof {
                        let j = choose|j: int| 0 <= j < s@.len() && s@[j] == x@;
                        assert(0 <= j < self@.len() && self@[j] == x@);
                    }
                }
                r
            },
        }
    }

    /// Adds a new issue; rejected when its id is already taken.
    pub fn create(&mut self, issue: Issue) -> (r: Result<(), Error>)
        requires
            old(self).wf(),
        ensures
            final(self).wf(),
            match r {
                Ok(()) => !has_id(old(self)@, issue@.id) && final(self)@ == old(self)@.push(
                    issue@,
                ),
                Err(e) => has_id(old(self)@, issue@.id) && final(self)@ == old(self)@ && (e
                    matches Error::AlreadyExists(m) && m@ == issue@.id),
            },
    {
        match self {
            UnifiedStore::V1(s) => s.create(issue),
            UnifiedStore::V2(s) => s.create(issue),
        }
    }

    /// Replaces the issue with the same id; rejected when none exists.
    pub fn update(&mut self, issue: Issue) -> (r: Result<(), Error>)
        requires
            old(self).wf(),
        ensures
            final(self).wf(),
            match r {
                Ok(()) => exists|j: int|
                    0 <= j < old(self)@.len() && (#[trigger] old(self)@[j]).id == issue@.id
                        && final(self)@ == old(self)@.update(j, issue@),
                Err(e) => !has_id(old(self)@, issue@.id) && final(self)@ == old(self)@ && (e
                    matches Error::NotFound(m) && m@ == issue@.id),
            },
    {
        match self {
            UnifiedStore::V1(s) => s.update(issue),
            UnifiedStore::V2(s) => s.update(issue),
        }
    }

    /// Tombstones the issue with the given id; rejected when none exists.
    pub fn delete(&mut self, id: &str, by: Option<String>, reason: Option<String>) -> (r: Result<
        (),
        Error,
    >)
        requires
            old(self).wf(),
        ensures
            final(self).wf(),
            match r {
                Ok(()) => exists|j: int, now: int|
                    #![trigger old(self)@.update(j, crate::issue::delete_view(old(self)@[j],
                    crate::issue::opt_view(by), crate::issue::opt_view(reason), now))]
                    0 <= j < old(self)@.len() && old(self)@[j].id == id@ && final(self)@ == old(
                        self,
                    )@.update(
                        j,
                        crate::issue::delete_view(
                            old(self)@[j],
                            crate::issue::opt_view(by),
                            crate::issue::opt_view(reason),
                            now,
                        ),
                    ),
                Err(e) => !has_id(old(self)@, id@) && final(self)@ == old(self)@ && (e matches
                    Error::NotFound(m) && m@ == id@),
            },
    {
        match self {
            UnifiedStore::V1(s) => s.delete(id, by, reason),
            UnifiedStore::V2(s) => s.delete(id, by, reason),
        }
    }

    /// All issues, tombstones included only on request, in table order.
    pub fn list(&self, include_tombstones: bool) -> (r: Vec<Issue>)
        ensures
            include_tombstones ==> r@.map_values(|i: Issue| i@) == self@,
            !include_tombstones ==> r@.map_values(|i: Issue| i@) == self@.filter(
                |v: IssueView| v.status != crate::issue::Status::Tombstone,
            ),
    {
        match self {
            UnifiedStore::V1(s) => s.list(include_tombstones),
            UnifiedStore::V2(s) => s.list(include_tombstones),
        }
    }

    /// The issues whose status is open, in table order.
    pub fn list_open(&self) -> (r: Vec<Issue>)
        ensures
            r@.map_values(|i: Issue| i@) == self@.filter(
                |v: IssueView| crate::issue::status_is_open(v.status),
            ),
    {
        match self {
            UnifiedStore::V1(s) => s.list_open(),
            UnifiedStore::V2(s) => s.list_open(),
        }
    }

    /// One more than the highest numeric suffix among the direct children
    /// of `parent_id`, or 1 when it has none.
    pub fn next_child_num(&self, parent_id: &str) -> (r: u32)
        requires
            forall|j: int|
                0 <= j < self@.len() ==> (direct_child_num(
                    (#[trigger] self@[j]).id,
                    parent_id@,
                ) matches Some(n) ==> n < u32::MAX),
        ensures
            r >= 1,
            forall|j: int|
                0 <= j < self@.len() ==> (direct_child_num(
                    (#[trigger] self@[j]).id,
                    parent_id@,
                ) matches Some(n) ==> n < r),
            r > 1 ==> exists|j: int|
                0 <= j < self@.len() && direct_child_num((#[trigger] self@[j]).id, parent_id@)
                    == Some(r - 1 as int),
    {
        match self {
            UnifiedStore::V1(s) => s.next_child_num(parent_id),
            UnifiedStore::V2(s) => s.next_child_num(parent_id),
        }
    }

    /// The conflict-artifact plan for a directory listing: empty for a
    /// flat-file store (the host merges its one file textually), the
    /// document backend's candidate set otherwise.
    pub fn conflict_candidates(&self, names: &Vec<String>) -> (r: Vec<String>)
        ensures
            self matches UnifiedStore::V1(_) ==> r@.len() == 0,
            self matches UnifiedStore::V2(_) ==> r@.map_values(|s: String| s@) == names@.map_values(
                |s: String| s@,
            ).filter(
                |n: Seq<char>| crate::crdt_store::is_conflict_base_name(n)
                    && crate::crdt_store::has_conflict_pair(names@.map_values(|s: String| s@), n),
            ),
    {
        match self {
            UnifiedStore::V1(_) => Vec::new(),
            UnifiedStore::V2(_) => CrdtStore::conflict_candidates(names),
        }
    }

    /// The human-readable index, for document-backed stores; flat-file
    /// stores keep none. The text satisfies the document store's index
    /// contract: header first, the placeholder line exactly when there is
    /// nothing to list, and the sorted open then closed ids in order.
    pub fn issues_md_content(&self) -> (r: Option<String>)
        ensures
            (r is Some) == (self matches UnifiedStore::V2(_)),
            r matches Some(text) ==> text@.len() >= "# Issues\n\n"@.len() && text@.take(
                "# Issues\n\n"@.len() as int,
            ) == "# Issues\n\n"@,
            r matches Some(text) ==> ((text@ == "# Issues\n\n"@ + "No issues yet.\n"@) <==> (
            self@.filter(|v: IssueView| crate::issue::status_is_open(v.status)).len() == 0
                && self@.filter(|v: IssueView| v.status == crate::issue::Status::Closed).len()
                == 0)),
            r matches Some(text) ==> crate::crdt_store::index_lists_issues(text@, self@),
    {
        match self {
            UnifiedStore::V1(_) => None,
            UnifiedStore::V2(s) => Some(s.issues_md_content()),
        }
    }
}

/// What a migration or rollback did.
#[derive(Debug)]
pub struct MigrationResult {
    /// How many issues were (or, in a dry run, would be) carried over.
    pub issues_migrated: usize,
    /// Whether this was a dry run that changed nothing.
    pub dry_run: bool,
}

/// One document file a migration asks the caller to write.
#[derive(Debug)]
pub struct DocFile {
    /// File name, `<issue-id>.automerge`.
    pub name: String,
    /// The document's bytes.
    pub bytes: Vec<u8>,
}

/// Turns a flat-file store into a document store: every issue, tombstones
/// included, becomes one document file. A dry run only counts and always
/// succeeds; a real run succeeds exactly when every issue's timestamps fit
/// the textual range. The caller writes the files, flips the version
/// marker and keeps the flat file as a backup.
#[verifier::loop_isolation(false)]
pub fn migrate_v1_to_v2(v1: &Store, dry_run: bool) -> (r: Result<
    (MigrationResult, Option<(CrdtStore, Vec<DocFile>)>),
    Error,
>)
    requires
        v1.wf(),
    ensures
        (r is Ok) <==> (dry_run || (forall|j: int|
            0 <= j < v1@.len() ==> crate::doc::issue_ts_in_range(#[trigger] v1@[j]))),
        r matches Ok(out) ==> out.0.issues_migrated == v1@.len() && out.0.dry_run == dry_run && (
        dry_run <==> out.1 is None) && (out.1 matches Some(built) ==> built.0@ == v1@
            && built.0.wf() && built.1@.len() == v1@.len() && (forall|j: int|
            0 <= j < v1@.len() ==> (#[trigger] built.1@[j]).name@ == v1@[j].id + ".automerge"@
                && crate::doc::loaded_props(built.1@[j].bytes@) == Some(
                crate::doc::doc_of_issue(v1@[j]),
            ))),
        r matches Err(e) ==> e matches Error::Other(_),
{
    let issues = v1.list(true);
    let count = issues.len();
    if dry_run {
        return Ok((MigrationResult { issues_migrated: count, dry_run: true }, None));
    }
    let mut store = CrdtStore::new();
    let mut files: Vec<DocFile> = Vec::new();
    let mut i: usize = 0;
    while i < issues.len()
        invariant
            issues@.map_values(|x: Issue| x@) == v1@,
            v1.wf(),
            i <= v1@.len(),
            store@ == v1@.take(i as int),
            store.wf(),
            files@.len() == i,
            forall|j: int|
                0 <= j < i ==> (#[trigger] files@[j]).name@ == v1@[j].id + ".automerge"@
                    && crate::doc::loaded_props(files@[j].bytes@) == Some(
                    crate::doc::doc_of_issue(v1@[j]),
                ),
            forall|j: int| 0 <= j < i ==> crate::doc::issue_ts_in_range(#[trigger] v1@[j]),
        decreases v1@.len() - i,
    {
        let issue = issues[i].clone();
        let bytes = match crate::doc::issue_to_bytes(&issue) {
            Ok(b) => b,
            Err(e) => {
                proof {
                    assert(!crate::doc::issue_ts_in_range(v1@[i as int]));
                }
                return Err(e);
            },
        };
        let name = String::from_str(issue.id.as_str()).concat(".automerge");
        proof {
            reveal_strlit(".automerge");
            assert(!has_id(store@, issue@.id)) by {
                if has_id(store@, issue@.id) {
                    let j = choose|j: int|
                        0 <= j < store@.len() && (#[trigger] store@[j]).id == issue@.id;
                    assert(v1@[j].id == v1@[i as int].id);
                }
            }
        }
        match store.create(issue) {
            Ok(()) => {},
            Err(_) => {
                proof {
                    assert(false);
                }
            },
        }
        files.push(DocFile { name: name, bytes: bytes });
        proof {
            assert(store@ =~= v1@.take(i + 1));
        }
        i += 1;
    }
    proof {
        assert(v1@.take(v1@.len() as int) =~= v1@);
    }
    Ok((MigrationResult { issues_migrated: count, dry_run: false }, Some((store, files))))
}

/// Turns a document store back into a flat-file store holding the same
/// issues. A dry run only counts. The caller writes the flat file and
/// flips the version marker; the document directory is kept for safety.
#[verifier::loop_isolation(false)]
pub fn rollback_v2_to_v1(v2: &CrdtStore, dry_run: bool) -> (r: (MigrationResult, Option<Store>))
    requires
        v2.wf(),
    ensures
        r.0.issues_migrated == v2@.len(),
        r.0.dry_run == dry_run,
        (dry_run <==> r.1 is None),
        r.1 matches Some(s) ==> s@ == v2@ && s.wf(),
{
    let issues = v2.list(true);
    let count = issues.len();
    if dry_run {
        return (MigrationResult { issues_migrated: count, dry_run: true }, None);
    }
    let mut store = Store::new();
    let mut i: usize = 0;
    while i < issues.len()
        invariant
            issues@.map_values(|x: Issue| x@) == v2@,
            v2.wf(),
            i <= v2@.len(),
            store@ == v2@.take(i as int),
            store.wf(),
        decreases v2@.len() - i,
    {
        let issue = issues[i].clone();
        proof {
            assert(!has_id(store@, issue@.id)) by {
                if has_id(store@, issue@.id) {
                    let j = choose|j: int|
                        0 <= j < store@.len() && (#[trigger] store@[j]).id == issue@.id;
                    assert(v2@[j].id == v2@[i as int].id);
                }
            }
        }
        match store.create(issue) {
            Ok(()) => {},
            Err(_) => {
                proof {
                    assert(false);
                }
            },
        }
        proof {
            assert(store@ =~= v2@.take(i + 1));
        }
        i += 1;
    }
    proof {
        assert(v2@.take(v2@.len() as int) =~= v2@);
    }
    (MigrationResult { issues_migrated: count, dry_run: false }, Some(store))
}

} // verus!
