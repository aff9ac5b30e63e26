//! The issue data model: statuses, types, dependencies, and the issue
//! record itself with its pure mutation methods.
//!
//! Timestamps are milliseconds since the Unix epoch. Every mutation keeps
//! `updated_at` non-decreasing, so the record's history is ordered even when
//! the clock steps backwards.

use vstd::prelude::*;

use crate::error::Error;
use crate::strutil::lower_seq;
use crate::strutil::str_eq_ignore_ascii_case;
use crate::timeutil::now_millis;

verus! {

/// Issue status. `Tombstone` is the terminal soft-delete state, preserved so
/// that concurrent clones merge without resurrecting deleted records.
#[derive(Debug, Clone, Copy, PartialEq, Eq, Structural)]
pub enum Status {
    Open,
    InProgress,
    Blocked,
    Closed,
    Tombstone,
}

/// True for the statuses under which work can still proceed.
pub open spec fn status_is_open(s: Status) -> bool {
    s == Status::Open || s == Status::InProgress || s == Status::Blocked
}

/// The lowercase name each status is persisted under.
pub open spec fn status_name(s: Status) -> Seq<char> {
    match s {
        Status::Open => "open"@,
        Status::InProgress => "in_progress"@,
        Status::Blocked => "blocked"@,
        Status::Closed => "closed"@,
        Status::Tombstone => "tombstone"@,
    }
}

/// The status a (case-folded) name denotes, if any.
pub open spec fn status_of_name(l: Seq<char>) -> Option<Status> {
    if l == "open"@ {
        Some(Status::Open)
    } else if l == "in_progress"@ || l == "in-progress"@ || l == "inprogress"@ {
        Some(Status::InProgress)
    } else if l == "blocked"@ {
        Some(Status::Blocked)
    } else if l == "closed"@ {
        Some(Status::Closed)
    } else if l == "tombstone"@ {
        Some(Status::Tombstone)
    } else {
        None
    }
}

impl Status {
    /// An issue counts as open while work on it can still proceed.
    pub fn is_open(&self) -> (r: bool)
        ensures
            r == status_is_open(*self),
    {
        match self {
            Status::Open => true,
            Status::InProgress => true,
            Status::Blocked => true,
            _ => false,
        }
    }

    /// Closed and tombstoned issues are both finished.
    pub fn is_closed(&self) -> (r: bool)
        ensures
            r == (*self == Status::Closed || *self == Status::Tombstone),
    {
        match self {
            Status::Closed => true,
            Status::Tombstone => true,
            _ => false,
        }
    }

    /// The lowercase name this status is persisted under.
    pub fn as_str(&self) -> (r: &'static str)
        ensures
            r@ == status_name(*self),
    {
        match self {
            Status::Open => "open",
            Status::InProgress => "in_progress",
            Status::Blocked => "blocked",
            Status::Closed => "closed",
            Status::Tombstone => "tombstone",
        }
    }

    /// Parses a status name, ignoring ASCII case.
    pub fn from_str(s: &str) -> (r: Result<Status, Error>)
        ensures
            match r {
                Ok(st) => status_of_name(lower_seq(s@)) == Some(st),
                Err(e) => status_of_name(lower_seq(s@)) is None && (e matches
                    Error::InvalidStatus(m) && m@ == s@),
            },
    {
        if str_eq_ignore_ascii_case(s, "open") {
            Ok(Status::Open)
        } else if str_eq_ignore_ascii_case(s, "in_progress") || str_eq_ignore_ascii_case(
            s,
            "in-progress",
        ) || str_eq_ignore_ascii_case(s, "inprogress") {
            Ok(Status::InProgress)
        } else if str_eq_ignore_ascii_case(s, "blocked") {
            Ok(Status::Blocked)
        } else if str_eq_ignore_ascii_case(s, "closed") {
            Ok(Status::Closed)
        } else if str_eq_ignore_ascii_case(s, "tombstone") {
            Ok(Status::Tombstone)
        } else {
            Err(Error::InvalidStatus(s.to_owned()))
        }
    }
}

impl Default for Status {
    /// New issues start open.
    fn default() -> (r: Self)
        ensures
            r == Status::Open,
    {
        Status::Open
    }
}

/// The kind of work an issue describes.
#[derive(Debug, Clone, Copy, PartialEq, Eq, Structural)]
pub enum IssueType {
    Bug,
    Feature,
    Task,
    Epic,
    Chore,
}

/// The lowercase name each issue type is persisted under.
pub open spec fn issue_type_name(t: IssueType) -> Seq<char> {
    match t {
        IssueType::Bug => "bug"@,
        IssueType::Feature => "feature"@,
        IssueType::Task => "task"@,
        IssueType::Epic => "epic"@,
        IssueType::Chore => "chore"@,
    }
}

/// The issue type a (case-folded) name denotes, if any.
pub open spec fn issue_type_of_name(l: Seq<char>) -> Option<IssueType> {
    if l == "bug"@ {
        Some(IssueType::Bug)
    } else if l == "feature"@ {
        Some(IssueType::Feature)
    } else if l == "task"@ {
        Some(IssueType::Task)
    } else if l == "epic"@ {
        Some(IssueType::Epic)
    } else if l == "chore"@ {
        Some(IssueType::Chore)
    } else {
        None
    }
}

impl IssueType {
    /// The lowercase name this type is persisted under.
    pub fn as_str(&self) -> (r: &'static str)
        ensures
            r@ == issue_type_name(*self),
    {
        match self {
            IssueType::Bug => "bug",
            IssueType::Feature => "feature",
            IssueType::Task => "task",
            IssueType::Epic => "epic",
            IssueType::Chore => "chore",
        }
    }

    /// Parses an issue-type name, ignoring ASCII case.
    pub fn from_str(s: &str) -> (r: Result<IssueType, Error>)
        ensures
            match r {
                Ok(t) => issue_type_of_name(lower_seq(s@)) == Some(t),
                Err(e) => issue_type_of_name(lower_seq(s@)) is None && (e matches
                    Error::InvalidType(m) && m@ == s@),
            },
    {
        if str_eq_ignore_ascii_case(s, "bug") {
            Ok(IssueType::Bug)
        } else if str_eq_ignore_ascii_case(s, "feature") {
            Ok(IssueType::Feature)
        } else if str_eq_ignore_ascii_case(s, "task") {
            Ok(IssueType::Task)
        } else if str_eq_ignore_ascii_case(s, "epic") {
            Ok(IssueType::Epic)
        } else if str_eq_ignore_ascii_case(s, "chore") {
            Ok(IssueType::Chore)
        } else {
            Err(Error::InvalidType(s.to_owned()))
        }
    }
}

impl Default for IssueType {
    /// Plain tasks are the default kind.
    fn default() -> (r: Self)
        ensures
            r == IssueType::Task,
    {
        IssueType::Task
    }
}

/// How one issue relates to the issue it points at.
#[derive(Debug, Clone, Copy, PartialEq, Eq, Structural)]
pub enum DependencyType {
    /// The pointing issue is blocked until the target is finished.
    Blocks,
    /// The target is the parent in a hierarchy.
    ParentChild,
    /// Related without blocking.
    Related,
}

/// The lowercase-with-hyphen name each dependency type is persisted under.
pub open spec fn dep_type_name(t: DependencyType) -> Seq<char> {
    match t {
        DependencyType::Blocks => "blocks"@,
        DependencyType::ParentChild => "parent-child"@,
        DependencyType::Related => "related"@,
    }
}

/// The dependency type a name denotes, if any. Both the hyphenated and the
/// underscored spelling of the parent-child kind are accepted.
pub open spec fn dep_type_of_name(l: Seq<char>) -> Option<DependencyType> {
    if l == "blocks"@ {
        Some(DependencyType::Blocks)
    } else if l == "parent-child"@ || l == "parent_child"@ {
        Some(DependencyType::ParentChild)
    } else if l == "related"@ {
        Some(DependencyType::Related)
    } else {
        None
    }
}

impl DependencyType {
    /// The lowercase-with-hyphen name this type is persisted under.
    pub fn as_str(&self) -> (r: &'static str)
        ensures
            r@ == dep_type_name(*self),
    {
        match self {
            DependencyType::Blocks => "blocks",
            DependencyType::ParentChild => "parent-child",
            DependencyType::Related => "related",
        }
    }

    /// Parses a dependency-type name.
    pub fn from_str(s: &str) -> (r: Option<DependencyType>)
        ensures
            r == dep_type_of_name(s@),
    {
        if crate::strutil::str_eq(s, "blocks") {
            Some(DependencyType::Blocks)
        } else if crate::strutil::str_eq(s, "parent-child") || crate::strutil::str_eq(
            s,
            "parent_child",
        ) {
            Some(DependencyType::ParentChild)
        } else if crate::strutil::str_eq(s, "related") {
            Some(DependencyType::Related)
        } else {
            None
        }
    }
}

impl Default for DependencyType {
    /// An untyped dependency blocks.
    fn default() -> (r: Self)
        ensures
            r == DependencyType::Blocks,
    {
        DependencyType::Blocks
    }
}

/// The mathematical value of a `Dependency`.
#[verifier::ext_equal]
pub ghost struct DependencyView {
    pub issue_id: Seq<char>,
    pub depends_on_id: Seq<char>,
    pub dep_type: DependencyType,
    pub created_at: int,
    pub created_by: Option<Seq<char>>,
}

/// A directed, typed edge from the issue `issue_id` to `depends_on_id`.
#[derive(Debug)]
pub struct Dependency {
    pub issue_id: String,
    pub depends_on_id: String,
    pub dep_type: DependencyType,
    pub created_at: i64,
    pub created_by: Option<String>,
}

/// The value of an optional string.
pub open spec fn opt_view(o: Option<String>) -> Option<Seq<char>> {
    match o {
        Some(s) => Some(s@),
        None => None,
    }
}

impl View for Dependency {
    type V = DependencyView;

    open spec fn view(&self) -> DependencyView {
        DependencyView {
            issue_id: self.issue_id@,
            depends_on_id: self.depends_on_id@,
            dep_type: self.dep_type,
            created_at: self.created_at as int,
            created_by: opt_view(self.created_by),
        }
    }
}

/// Clones an optional string.
pub fn clone_opt_string(o: &Option<String>) -> (r: Option<String>)
    ensures
        opt_view(r) == opt_view(*o),
{
    match o {
        Some(s) => Some(s.clone()),
        None => None,
    }
}

impl Dependency {
    /// A small integer standing for the dependency type, used as the edge
    /// weight in the dependency graph.
    pub fn dep_type_code(&self) -> (r: u8)
        ensures
            r == match self.dep_type {
                DependencyType::Blocks => 0u8,
                DependencyType::ParentChild => 1u8,
                DependencyType::Related => 2u8,
            },
    {
        match self.dep_type {
            DependencyType::Blocks => 0,
            DependencyType::ParentChild => 1,
            DependencyType::Related => 2,
        }
    }
}

impl Clone for Dependency {
    fn clone(&self) -> (r: Self)
        ensures
            r@ == self@,
    {
        Dependency {
            issue_id: self.issue_id.clone(),
            depends_on_id: self.depends_on_id.clone(),
            dep_type: self.dep_type,
            created_at: self.created_at,
            created_by: clone_opt_string(&self.created_by),
        }
    }
}

/// The mathematical value of an `Issue`.
#[verifier::ext_equal]
pub ghost struct IssueView {
    pub id: Seq<char>,
    pub title: Seq<char>,
    pub description: Option<Seq<char>>,
    pub status: Status,
    pub priority: int,
    pub issue_type: IssueType,
    pub labels: Seq<Seq<char>>,
    pub created_at: int,
    pub updated_at: int,
    pub closed_at: Option<int>,
    pub deleted_at: Option<int>,
    pub dependencies: Seq<DependencyView>,
    pub created_by: Option<Seq<char>>,
    pub close_reason: Option<Seq<char>>,
    pub assignee: Option<Seq<char>>,
    pub notes: Option<Seq<char>>,
    pub original_type: Option<Seq<char>>,
    pub deleted_by: Option<Seq<char>>,
    pub delete_reason: Option<Seq<char>>,
}

/// The value of an optional timestamp.
pub open spec fn opt_ts_view(o: Option<i64>) -> Option<int> {
    match o {
        Some(t) => Some(t as int),
        None => None,
    }
}

/// The unit of work the store persists.
#[derive(Debug)]
pub struct Issue {
    /// Unique identifier, immutable once assigned.
    pub id: String,
    pub title: String,
    pub description: Option<String>,
    pub status: Status,
    /// 0 is most urgent, 4 least.
    pub priority: u8,
    pub issue_type: IssueType,
    pub labels: Vec<String>,
    pub created_at: i64,
    pub updated_at: i64,
    pub closed_at: Option<i64>,
    pub deleted_at: Option<i64>,
    pub dependencies: Vec<Dependency>,
    pub created_by: Option<String>,
    pub close_reason: Option<String>,
    pub assignee: Option<String>,
    pub notes: Option<String>,
    /// The type the issue had before it was tombstoned.
    pub original_type: Option<String>,
    pub deleted_by: Option<String>,
    pub delete_reason: Option<String>,
}

impl View for Issue {
    type V = IssueView;

    open spec fn view(&self) -> IssueView {
        IssueView {
            id: self.id@,
            title: self.title@,
            description: opt_view(self.description),
            status: self.status,
            priority: self.priority as int,
            issue_type: self.issue_type,
            labels: self.labels@.map_values(|s: String| s@),
            created_at: self.created_at as int,
            updated_at: self.updated_at as int,
            closed_at: opt_ts_view(self.closed_at),
            deleted_at: opt_ts_view(self.deleted_at),
            dependencies: self.dependencies@.map_values(|d: Dependency| d@),
            created_by: opt_view(self.created_by),
            close_reason: opt_view(self.close_reason),
            assignee: opt_view(self.assignee),
            notes: opt_view(self.notes),
            original_type: opt_view(self.original_type),
            deleted_by: opt_view(self.deleted_by),
            delete_reason: opt_view(self.delete_reason),
        }
    }
}

/// Clones a vector of strings.
pub fn clone_string_vec(v: &Vec<String>) -> (r: Vec<String>)
    ensures
        r@.map_values(|s: String| s@) == v@.map_values(|s: String| s@),
{
    let mut out: Vec<String> = Vec::new();
    let mut i: usize = 0;
    while i < v.len()
        invariant
            i <= v@.len(),
            out@.len() == i,
            forall|j: int| 0 <= j < i ==> (#[trigger] out@[j])@ == v@[j]@,
        decreases v@.len() - i,
    {
        out.push(v[i].clone());
        i += 1;
    }
    proof {
        assert(out@.map_values(|s: String| s@) =~= v@.map_values(|s: String| s@));
    }
    out
}

/// Clones a vector of dependencies.
pub fn clone_dep_vec(v: &Vec<Dependency>) -> (r: Vec<Dependency>)
    ensures
        r@.map_values(|d: Dependency| d@) == v@.map_values(|d: Dependency| d@),
{
    let mut out: Vec<Dependency> = Vec::new();
    let mut i: usize = 0;
    while i < v.len()
        invariant
            i <= v@.len(),
            out@.len() == i,
            forall|j: int| 0 <= j < i ==> (#[trigger] out@[j])@ == v@[j]@,
        decreases v@.len() - i,
    {
        out.push(v[i].clone());
        i += 1;
    }
    proof {
        assert(out@.map_values(|d: Dependency| d@) =~= v@.map_values(|d: Dependency| d@));
    }
    out
}

impl Clone for Issue {
    fn clone(&self) -> (r: Self)
        ensures
            r@ == self@,
    {
        let r = Issue {
            id: self.id.clone(),
            title: self.title.clone(),
            description: clone_opt_string(&self.description),
            status: self.status,
            priority: self.priority,
            issue_type: self.issue_type,
            labels: clone_string_vec(&self.labels),
            created_at: self.created_at,
            updated_at: self.updated_at,
            closed_at: self.closed_at,
            deleted_at: self.deleted_at,
            dependencies: clone_dep_vec(&self.dependencies),
            created_by: clone_opt_string(&self.created_by),
            close_reason: clone_opt_string(&self.close_reason),
            assignee: clone_opt_string(&self.assignee),
            notes: clone_opt_string(&self.notes),
            original_type: clone_opt_string(&self.original_type),
            deleted_by: clone_opt_string(&self.deleted_by),
            delete_reason: clone_opt_string(&self.delete_reason),
        };
        proof {
            assert(r@ =~= self@);
        }
        r
    }
}

/// The value of a freshly created issue.
pub open spec fn new_issue_view(id: Seq<char>, title: Seq<char>, now: int) -> IssueView {
    IssueView {
        id: id,
        title: title,
        description: None,
        status: Status::Open,
        priority: 2,
        issue_type: IssueType::Task,
        labels: Seq::empty(),
        created_at: now,
        updated_at: now,
        closed_at: None,
        deleted_at: None,
        dependencies: Seq::empty(),
        created_by: None,
        close_reason: None,
        assignee: None,
        notes: None,
        original_type: None,
        deleted_by: None,
        delete_reason: None,
    }
}

/// `updated_at` after a mutation at time `now`: never earlier than before.
pub open spec fn bumped(updated_at: int, now: int) -> int {
    if now > updated_at {
        now
    } else {
        updated_at
    }
}

/// The value of an issue after it is closed at time `now`.
pub open spec fn close_view(v: IssueView, reason: Option<Seq<char>>, now: int) -> IssueView {
    IssueView {
        status: Status::Closed,
        closed_at: Some(now),
        updated_at: bumped(v.updated_at, now),
        close_reason: reason,
        ..v
    }
}

/// The value of an issue after it is tombstoned at time `now`.
pub open spec fn delete_view(
    v: IssueView,
    by: Option<Seq<char>>,
    reason: Option<Seq<char>>,
    now: int,
) -> IssueView {
    IssueView {
        original_type: Some(issue_type_name(v.issue_type)),
        status: Status::Tombstone,
        deleted_at: Some(now),
        updated_at: bumped(v.updated_at, now),
        deleted_by: by,
        delete_reason: reason,
        ..v
    }
}

/// The value of an issue after a dependency on `target` is appended at time
/// `now`.
pub open spec fn add_dep_view(
    v: IssueView,
    target: Seq<char>,
    dep_type: DependencyType,
    now: int,
) -> IssueView {
    IssueView {
        dependencies: v.dependencies.push(
            DependencyView {
                issue_id: v.id,
                depends_on_id: target,
                dep_type: dep_type,
                created_at: now,
                created_by: None,
            },
        ),
        updated_at: bumped(v.updated_at, now),
        ..v
    }
}

/// The value of an issue after every dependency on `target` is removed at
/// time `now`.
pub open spec fn remove_dep_view(v: IssueView, target: Seq<char>, now: int) -> IssueView {
    IssueView {
        dependencies: v.dependencies.filter(|d: DependencyView| d.depends_on_id != target),
        updated_at: bumped(v.updated_at, now),
        ..v
    }
}

/// True when some dependency of `v` blocks on an issue that is open within
/// the snapshot `issues`.
pub open spec fn blocked_within(v: IssueView, issues: Seq<IssueView>) -> bool {
    exists|di: int|
        0 <= di < v.dependencies.len() && (#[trigger] v.dependencies[di]).dep_type
            == DependencyType::Blocks && exists|j: int|
            0 <= j < issues.len() && (#[trigger] issues[j]).id == v.dependencies[di].depends_on_id
                && status_is_open(issues[j].status)
}

impl Issue {
    /// Creates an issue with the given id and title at time `now`; all other
    /// fields take their defaults.
    pub fn new_at(id: String, title: String, now: i64) -> (r: Issue)
        ensures
            r@ == new_issue_view(id@, title@, now as int),
    {
        let r = Issue {
            id: id,
            title: title,
            description: None,
            status: Status::Open,
            priority: 2,
            issue_type: IssueType::Task,
            labels: Vec::new(),
            created_at: now,
            updated_at: now,
            closed_at: None,
            deleted_at: None,
            dependencies: Vec::new(),
            created_by: None,
            close_reason: None,
            assignee: None,
            notes: None,
            original_type: None,
            deleted_by: None,
            delete_reason: None,
        };
        proof {
            assert(r@ =~= new_issue_view(r.id@, r.title@, now as int));
        }
        r
    }

    /// Creates an issue with the given id and title at the current time.
    pub fn new(id: String, title: String) -> (r: Issue)
        ensures
            exists|now: int| r@ == new_issue_view(id@, title@, now),
            r.created_at == r.updated_at,
            r.status == Status::Open,
            r.priority == 2,
            r.issue_type == IssueType::Task,
    {
        let now = now_millis();
        let r = Self::new_at(id, title, now);
        proof {
            assert(r@ == new_issue_view(r@.id, r@.title, now as int));
        }
        r
    }

    /// True when this issue has any blocking dependency.
    pub fn is_blocking(&self) -> (r: bool)
        ensures
            r == exists|i: int|
                0 <= i < self@.dependencies.len() && (#[trigger] self@.dependencies[i]).dep_type
                    == DependencyType::Blocks,
    {
        let mut i: usize = 0;
        while i < self.dependencies.len()
            invariant
                i <= self@.dependencies.len(),
                forall|j: int|
                    0 <= j < i ==> (#[trigger] self@.dependencies[j]).dep_type
                        != DependencyType::Blocks,
        decreases self@.dependencies.len() - i,
        {
            if self.dependencies[i].dep_type == DependencyType::Blocks {
                assert((self@.dependencies[i as int]).dep_type == DependencyType::Blocks);
                return true;
            }
            i += 1;
        }
        false
    }

    /// True when some blocking dependency of this issue points at an issue
    /// that is open within the snapshot.
    pub fn is_blocked_by(&self, open_issues: &[Issue]) -> (r: bool)
        ensures
            r == blocked_within(self@, open_issues@.map_values(|x: Issue| x@)),
    {
        let ghost snapshot = open_issues@.map_values(|x: Issue| x@);
        let mut i: usize = 0;
        while i < self.dependencies.len()
            invariant
                i <= self@.dependencies.len(),
                snapshot == open_issues@.map_values(|x: Issue| x@),
                forall|di: int|
                    0 <= di < i ==> !((#[trigger] self@.dependencies[di]).dep_type
                        == DependencyType::Blocks && exists|j: int|
                        0 <= j < snapshot.len() && (#[trigger] snapshot[j]).id
                            == self@.dependencies[di].depends_on_id && status_is_open(
                            snapshot[j].status,
                        )),
            decreases self@.dependencies.len() - i,
        {
            if self.dependencies[i].dep_type == DependencyType::Blocks {
                let mut j: usize = 0;
                while j < open_issues.len()
                    invariant
                        i < self@.dependencies.len(),
                        j <= snapshot.len(),
                        snapshot == open_issues@.map_values(|x: Issue| x@),
                        self@.dependencies[i as int].dep_type == DependencyType::Blocks,
                        forall|k: int|
                            0 <= k < j ==> !((#[trigger] snapshot[k]).id
                                == self@.dependencies[i as int].depends_on_id && status_is_open(
                                snapshot[k].status,
                            )),
                    decreases snapshot.len() - j,
                {
                    let other = &open_issues[j];
                    if crate::strutil::str_eq(
                        other.id.as_str(),
                        self.dependencies[i].depends_on_id.as_str(),
                    ) && other.status.is_open() {
                        proof {
                            assert((snapshot[j as int]).id == self@.dependencies[
                                i as int
                            ].depends_on_id && status_is_open(snapshot[j as int].status));
                            assert((self@.dependencies[i as int]).dep_type
                                == DependencyType::Blocks);
                            assert(blocked_within(self@, snapshot));
                        }
                        return true;
                    }
                    j += 1;
                }
            }
            i += 1;
        }
        false
    }

    /// The parent's id, when this issue's id names a child.
    pub fn parent_id<'a>(&'a self) -> (r: Option<&'a str>)
        ensures
            match r {
                Some(p) => crate::id::parent_of(self@.id) == Some(p@),
                None => crate::id::parent_of(self@.id) is None,
            },
    {
        crate::id::get_parent_id(self.id.as_str())
    }

    /// True when this issue's id names a child.
    pub fn is_child(&self) -> (r: bool)
        ensures
            r == self@.id.contains('.'),
    {
        crate::id::is_child_id(self.id.as_str())
    }

    /// Closes the issue at time `now`.
    pub fn close_at(&mut self, reason: Option<String>, now: i64)
        ensures
            final(self)@ == close_view(old(self)@, opt_view(reason), now as int),
            final(self).updated_at >= old(self).updated_at,
    {
        self.status = Status::Closed;
        self.closed_at = Some(now);
        if now > self.updated_at {
            self.updated_at = now;
        }
        self.close_reason = reason;
        proof {
            assert(self@ =~= close_view(old(self)@, opt_view(self.close_reason), now as int));
        }
    }

    /// Closes the issue at the current time.
    pub fn close(&mut self, reason: Option<String>)
        ensures
            exists|now: int| final(self)@ == close_view(old(self)@, opt_view(reason), now),
            final(self).updated_at >= old(self).updated_at,
            final(self).status == Status::Closed,
    {
        let now = now_millis();
        self.close_at(reason, now);
    }

    /// Tombstones the issue at time `now`, recording who deleted it and why.
    /// Deleting an already tombstoned issue simply overwrites that record.
    pub fn delete_at(&mut self, by: Option<String>, reason: Option<String>, now: i64)
        ensures
            final(self)@ == delete_view(old(self)@, opt_view(by), opt_view(reason), now as int),
            final(self).updated_at >= old(self).updated_at,
    {
        self.original_type = Some(self.issue_type.as_str().to_owned());
        self.status = Status::Tombstone;
        self.deleted_at = Some(now);
        if now > self.updated_at {
            self.updated_at = now;
        }
        self.deleted_by = by;
        self.delete_reason = reason;
        proof {
            assert(self@ =~= delete_view(
                old(self)@,
                opt_view(self.deleted_by),
                opt_view(self.delete_reason),
                now as int,
            ));
        }
    }

    /// Tombstones the issue at the current time.
    pub fn delete(&mut self, by: Option<String>, reason: Option<String>)
        ensures
            exists|now: int|
                final(self)@ == delete_view(old(self)@, opt_view(by), opt_view(reason), now),
            final(self).updated_at >= old(self).updated_at,
            final(self).status == Status::Tombstone,
            opt_view(final(self).deleted_by) == opt_view(by),
            opt_view(final(self).delete_reason) == opt_view(reason),
    {
        let now = now_millis();
        self.delete_at(by, reason, now);
    }

    /// Appends a dependency on `depends_on_id` at time `now`.
    pub fn add_dependency_at(&mut self, depends_on_id: String, dep_type: DependencyType, now: i64)
        ensures
            final(self)@ == add_dep_view(old(self)@, depends_on_id@, dep_type, now as int),
            final(self).updated_at >= old(self).updated_at,
    {
        let dep = Dependency {
            issue_id: self.id.clone(),
            depends_on_id: depends_on_id,
            dep_type: dep_type,
            created_at: now,
            created_by: None,
        };
        self.dependencies.push(dep);
        if now > self.updated_at {
            self.updated_at = now;
        }
        proof {
            let target = add_dep_view(old(self)@, depends_on_id@, dep_type, now as int);
            assert(self@.dependencies =~= target.dependencies);
            assert(self@ =~= target);
        }
    }

    /// Appends a dependency on `depends_on_id` at the current time.
    pub fn add_dependency(&mut self, depends_on_id: String, dep_type: DependencyType)
        ensures
            exists|now: int|
                final(self)@ == add_dep_view(old(self)@, depends_on_id@, dep_type, now),
            final(self).updated_at >= old(self).updated_at,
    {
        let now = now_millis();
        self.add_dependency_at(depends_on_id, dep_type, now);
    }

    /// Removes every dependency on `depends_on_id` at time `now`.
    pub fn remove_dependency_at(&mut self, depends_on_id: &str, now: i64)
        ensures
            final(self)@ == remove_dep_view(old(self)@, depends_on_id@, now as int),
            final(self).updated_at >= old(self).updated_at,
    {
        let mut kept: Vec<Dependency> = Vec::new();
        let mut i: usize = 0;
        let ghost pred = |d: DependencyView| d.depends_on_id != depends_on_id@;
        let ghost deps = self@.dependencies;
        while i < self.dependencies.len()
            invariant
                i <= deps.len(),
                deps == self@.dependencies,
                pred == (|d: DependencyView| d.depends_on_id != depends_on_id@),
                kept@.map_values(|d: Dependency| d@) == deps.take(i as int).filter(pred),
            decreases deps.len() - i,
        {
            proof {
                crate::strutil::lemma_filter_step(deps, pred, i as int);
            }
            if !crate::strutil::str_eq(
                self.dependencies[i].depends_on_id.as_str(),
                depends_on_id,
            ) {
                kept.push(self.dependencies[i].clone());
                proof {
                    assert(pred(deps[i as int]));
                    assert(kept@.map_values(|d: Dependency| d@) =~= deps.take(i as int).filter(
                        pred,
                    ).push(deps[i as int]));
                }
            } else {
                proof {
                    assert(!pred(deps[i as int]));
                }
            }
            i += 1;
        }
        proof {
            assert(deps.take(deps.len() as int) =~= deps);
        }
        self.dependencies = kept;
        if now > self.updated_at {
            self.updated_at = now;
        }
        proof {
            assert(self@ =~= remove_dep_view(old(self)@, depends_on_id@, now as int));
        }
    }

    /// Removes every dependency on `depends_on_id` at the current time.
    pub fn remove_dependency(&mut self, depends_on_id: &str)
        ensures
            exists|now: int| final(self)@ == remove_dep_view(old(self)@, depends_on_id@, now),
            final(self).updated_at >= old(self).updated_at,
    {
        let now = now_millis();
        self.remove_dependency_at(depends_on_id, now);
    }

    /// The targets of this issue's blocking dependencies, in order.
    pub fn blocking_ids(&self) -> (r: Vec<String>)
        ensures
            r@.map_values(|s: String| s@) == self@.dependencies.filter(
                |d: DependencyView| d.dep_type == DependencyType::Blocks,
            ).map_values(|d: DependencyView| d.depends_on_id),
    {
        let mut out: Vec<String> = Vec::new();
        let mut i: usize = 0;
        let ghost pred = |d: DependencyView| d.dep_type == DependencyType::Blocks;
        let ghost deps = self@.dependencies;
        while i < self.dependencies.len()
            invariant
                i <= deps.len(),
                deps == self@.dependencies,
                pred == (|d: DependencyView| d.dep_type == DependencyType::Blocks),
                out@.map_values(|s: String| s@) == deps.take(i as int).filter(pred).map_values(
                    |d: DependencyView| d.depends_on_id,
                ),
            decreases deps.len() - i,
        {
            proof {
                crate::strutil::lemma_filter_step(deps, pred, i as int);
            }
            if self.dependencies[i].dep_type == DependencyType::Blocks {
                out.push(self.dependencies[i].depends_on_id.clone());
                proof {
                    assert(pred(deps[i as int]));
                    assert(out@.map_values(|s: String| s@) =~= deps.take(i as int).filter(
                        pred,
                    ).map_values(|d: DependencyView| d.depends_on_id).push(
                        deps[i as int].depends_on_id,
                    ));
                    assert(deps.take(i + 1).filter(pred).map_values(
                        |d: DependencyView| d.depends_on_id,
                    ) =~= deps.take(i as int).filter(pred).map_values(
                        |d: DependencyView| d.depends_on_id,
                    ).push(deps[i as int].depends_on_id));
                }
            } else {
                proof {
                    assert(!pred(deps[i as int]));
                }
            }
            i += 1;
        }
        proof {
            assert(deps.take(deps.len() as int) =~= deps);
        }
        out
    }
}

/// Tombstoning is an overwrite: deleting twice leaves a tombstone whose
/// provenance reflects the second call's arguments.
pub proof fn lemma_delete_twice(
    v: IssueView,
    by1: Option<Seq<char>>,
    r1: Option<Seq<char>>,
    t1: int,
    by2: Option<Seq<char>>,
    r2: Option<Seq<char>>,
    t2: int,
)
    ensures
        delete_view(delete_view(v, by1, r1, t1), by2, r2, t2).status == Status::Tombstone,
        delete_view(delete_view(v, by1, r1, t1), by2, r2, t2).deleted_by == by2,
        delete_view(delete_view(v, by1, r1, t1), by2, r2, t2).delete_reason == r2,
        delete_view(delete_view(v, by1, r1, t1), by2, r2, t2).deleted_at == Some(t2),
{
}

} // verus!
