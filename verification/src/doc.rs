//! The mergeable per-issue document: its model, the trusted `automerge`
//! wrappers, and the verified codec between issues and documents.
//!
//! A document is modelled as a map from property names to values: strings,
//! integers, lists (of strings or of string-maps), or anything else. The
//! codec writes every issue field under a fixed name and reads it back;
//! decoding tolerates foreign documents by falling back to defaults, but
//! a missing `id` or `title` is an error.

use vstd::prelude::*;

use crate::error::Error;
use crate::issue::dep_type_name;
use crate::issue::dep_type_of_name;
use crate::issue::issue_type_name;
use crate::issue::issue_type_of_name;
use crate::issue::status_name;
use crate::issue::status_of_name;
use crate::issue::DependencyType;
use crate::issue::DependencyView;
use crate::issue::Issue;
use crate::issue::IssueType;
use crate::issue::IssueView;
use crate::issue::Status;
use crate::strutil::lower_seq;
use crate::timeutil::rfc3339_of;
use crate::timeutil::rfc3339_parse;

verus! {

/// An element of a list property: a string, a map of strings, or anything
/// else.
#[verifier::ext_equal]
pub ghost enum DocElem {
    LStr(Seq<char>),
    LMap(Map<Seq<char>, Seq<char>>),
    LOther,
}

/// The value of a root property: a string scalar, a scalar that reads as a
/// 64-bit integer, a list, or anything else.
#[verifier::ext_equal]
pub ghost enum DocVal {
    Str(Seq<char>),
    Int(int),
    List(Seq<DocElem>),
    Other,
}

#[verifier::external_type_specification]
#[verifier::external_body]
pub struct ExAutoCommit(automerge::AutoCommit);

/// The root properties of a document.
pub uninterp spec fn doc_props(d: automerge::AutoCommit) -> Map<Seq<char>, DocVal>;

/// The root properties of the document a byte string loads to, if it loads
/// at all.
pub uninterp spec fn loaded_props(bytes: Seq<u8>) -> Option<Map<Seq<char>, DocVal>>;

/// A fresh, empty document.
///
/// Relies on `automerge::AutoCommit::new`.
#[verifier::external_body]
pub(crate) fn am_new() -> (r: automerge::AutoCommit)
    ensures
        doc_props(r) == (Map::<Seq<char>, DocVal>::empty()),
{
    automerge::AutoCommit::new()
}

/// Loads a document from bytes.
///
/// Relies on `automerge::AutoCommit::load`; the outcome is a function of
/// the bytes alone.
#[verifier::external_body]
pub(crate) fn am_load(bytes: &[u8]) -> (r: Result<automerge::AutoCommit, Error>)
    ensures
        match r {
            Ok(d) => loaded_props(bytes@) == Some(doc_props(d)),
            Err(e) => loaded_props(bytes@) is None && e matches Error::Other(_),
        },
{
    automerge::AutoCommit::load(bytes).map_err(|e| Error::Other(format!(
        "Failed to load automerge doc: {}",
        e,
    )))
}

/// Serializes a document; loading the result yields the same properties.
///
/// Relies on `automerge::AutoCommit::save` and `load`, documented to
/// round-trip a document.
#[verifier::external_body]
pub(crate) fn am_save(d: &mut automerge::AutoCommit) -> (r: Vec<u8>)
    ensures
        loaded_props(r@) == Some(doc_props(*old(d))),
        doc_props(*final(d)) == doc_props(*old(d)),
{
    d.save()
}

/// The root properties of the causal merge of two loadable byte images,
/// when the merge succeeds. Which concurrent edit of one scalar property
/// survives is the document format's own tie-break, so the properties
/// carry no finer description than this name.
pub uninterp spec fn merged_props(ours: Seq<u8>, theirs: Seq<u8>) -> Map<Seq<char>, DocVal>;

/// Merges the documents in two loadable byte images by causal history and
/// returns the merged document's bytes.
///
/// Relies on `automerge::AutoCommit::load`, `merge` and `save`: loading is
/// deterministic; merging applies the changes the other document holds and
/// this one lacks, and can reject them — it errs on an incoming change
/// whose actor sequence this document already holds with different content
/// (diverged copies of one actor's history) — so the error is returned,
/// not swallowed. The outcome is a function of the two images alone, the
/// same in either order (the format's merge is commutative). Merging an
/// image with itself applies nothing, so it succeeds and changes nothing.
#[verifier::external_body]
pub(crate) fn am_merge_bytes(ours: &[u8], theirs: &[u8]) -> (r: Result<Vec<u8>, Error>)
    requires
        loaded_props(ours@) is Some,
        loaded_props(theirs@) is Some,
    ensures
        r matches Ok(b) ==> loaded_props(b@) == Some(merged_props(ours@, theirs@))
            && loaded_props(b@) == Some(merged_props(theirs@, ours@)),
        r is Ok || ours@ != theirs@,
        r matches Ok(b) ==> (ours@ == theirs@ ==> loaded_props(b@) == loaded_props(ours@)),
        r matches Err(e) ==> e matches Error::Other(_),
{
    let mut doc_ours = automerge::AutoCommit::load(ours).unwrap();
    let mut doc_theirs = automerge::AutoCommit::load(theirs).unwrap();
    match doc_ours.merge(&mut doc_theirs) {
        Ok(_) => Ok(doc_ours.save()),
        Err(e) => Err(Error::Other(format!("Failed to merge: {}", e))),
    }
}

/// Sets a string property at the root.
///
/// Relies on `automerge::transaction::Transactable::put`: on the root map,
/// which always exists, a put of a scalar under a map key has no failing
/// path in the source, so success is promised.
#[verifier::external_body]
pub(crate) fn am_put_str(d: &mut automerge::AutoCommit, key: &str, val: &str) -> (r: Result<(), Error>)
    ensures
        r is Ok,
        doc_props(*final(d)) == doc_props(*old(d)).insert(key@, DocVal::Str(val@)),
{
    automerge::transaction::Transactable::put(d, automerge::ROOT, key, val).map_err(|e| {
        Error::Other(format!("Failed to set {}: {}", key, e))
    })
}

/// Sets an integer property at the root.
///
/// Relies on `automerge::transaction::Transactable::put`, which cannot fail
/// on the root map (see `am_put_str`).
#[verifier::external_body]
pub(crate) fn am_put_int(d: &mut automerge::AutoCommit, key: &str, val: i64) -> (r: Result<(), Error>)
    ensures
        r is Ok,
        doc_props(*final(d)) == doc_props(*old(d)).insert(key@, DocVal::Int(val as int)),
{
    automerge::transaction::Transactable::put(d, automerge::ROOT, key, val).map_err(|e| {
        Error::Other(format!("Failed to set {}: {}", key, e))
    })
}

/// Puts an empty list property at the root.
///
/// Relies on `automerge::transaction::Transactable::put_object`, which
/// cannot fail on the root map (see `am_put_str`).
#[verifier::external_body]
pub(crate) fn am_put_empty_list(d: &mut automerge::AutoCommit, key: &str) -> (r: Result<(), Error>)
    ensures
        r is Ok,
        doc_props(*final(d)) == doc_props(*old(d)).insert(key@, DocVal::List(Seq::empty())),
{
    automerge::transaction::Transactable::put_object(
        d,
        automerge::ROOT,
        key,
        automerge::ObjType::List,
    ).map(|_| ()).map_err(|e| Error::Other(format!("Failed to create {}: {}", key, e)))
}

/// Appends a string to the list property `key`.
///
/// Relies on `automerge::ReadDoc::get` and `length` to locate the list and
/// `Transactable::insert` to append. The list exists by the precondition
/// and an insert at the list's own length has no failing path in the
/// source, so success is promised.
#[verifier::external_body]
pub(crate) fn am_push_str(d: &mut automerge::AutoCommit, key: &str, val: &str) -> (r: Result<(), Error>)
    requires
        doc_props(*old(d)).contains_key(key@),
        doc_props(*old(d))[key@] is List,
    ensures
        r is Ok,
        doc_props(*final(d)) == doc_props(*old(d)).insert(
            key@,
            DocVal::List(doc_props(*old(d))[key@]->List_0.push(DocElem::LStr(val@))),
        ),
{
    let obj = match automerge::ReadDoc::get(d, automerge::ROOT, key) {
        Ok(Some((_, id))) => id,
        _ => return Err(Error::Other(format!("missing list {}", key))),
    };
    let len = automerge::ReadDoc::length(d, &obj);
    automerge::transaction::Transactable::insert(d, &obj, len, val).map_err(|e| {
        Error::Other(format!("Failed to add to {}: {}", key, e))
    })
}

/// Appends an empty map to the list property `key`.
///
/// Relies on `automerge::ReadDoc::get` and `length` to locate the list and
/// `Transactable::insert_object` to append; success is promised as in
/// `am_push_str`.
#[verifier::external_body]
pub(crate) fn am_push_empty_map(d: &mut automerge::AutoCommit, key: &str) -> (r: Result<(), Error>)
    requires
        doc_props(*old(d)).contains_key(key@),
        doc_props(*old(d))[key@] is List,
    ensures
        r is Ok,
        doc_props(*final(d)) == doc_props(*old(d)).insert(
            key@,
            DocVal::List(
                doc_props(*old(d))[key@]->List_0.push(DocElem::LMap(Map::empty())),
            ),
        ),
{
    let obj = match automerge::ReadDoc::get(d, automerge::ROOT, key) {
        Ok(Some((_, id))) => id,
        _ => return Err(Error::Other(format!("missing list {}", key))),
    };
    let len = automerge::ReadDoc::length(d, &obj);
    automerge::transaction::Transactable::insert_object(d, &obj, len, automerge::ObjType::Map)
        .map(|_| ())
        .map_err(|e| Error::Other(format!("Failed to create entry of {}: {}", key, e)))
}

/// Sets a string field of the `i`-th map of the list property `key`.
///
/// Relies on `automerge::ReadDoc::get` to locate the list and its element
/// and `Transactable::put` to set the field; the element is a map by the
/// precondition and a put under a map key cannot fail, so success is
/// promised.
#[verifier::external_body]
pub(crate) fn am_map_put_field(
    d: &mut automerge::AutoCommit,
    key: &str,
    i: usize,
    field: &str,
    val: &str,
) -> (r: Result<(), Error>)
    requires
        doc_props(*old(d)).contains_key(key@),
        doc_props(*old(d))[key@] is List,
        i < doc_props(*old(d))[key@]->List_0.len(),
        doc_props(*old(d))[key@]->List_0[i as int] is LMap,
    ensures
        r is Ok,
        doc_props(*final(d)) == doc_props(*old(d)).insert(
            key@,
            DocVal::List(
                doc_props(*old(d))[key@]->List_0.update(
                    i as int,
                    DocElem::LMap(
                        doc_props(*old(d))[key@]->List_0[i as int]->LMap_0.insert(field@, val@),
                    ),
                ),
            ),
        ),
{
    let list = match automerge::ReadDoc::get(d, automerge::ROOT, key) {
        Ok(Some((_, id))) => id,
        _ => return Err(Error::Other(format!("missing list {}", key))),
    };
    let entry = match automerge::ReadDoc::get(d, &list, i) {
        Ok(Some((_, id))) => id,
        _ => return Err(Error::Other(format!("missing entry of {}", key))),
    };
    automerge::transaction::Transactable::put(d, &entry, field, val).map_err(|e| {
        Error::Other(format!("Failed to set {}: {}", field, e))
    })
}

/// Reads a string property at the root; non-strings and absent keys read
/// as nothing.
///
/// Relies on `automerge::ReadDoc::get` and `Value::as_str`.
#[verifier::external_body]
pub(crate) fn am_get_str(d: &automerge::AutoCommit, key: &str) -> (r: Option<String>)
    ensures
        (r is Some) <==> (doc_props(*d).contains_key(key@) && doc_props(*d)[key@] is Str),
        match r {
            Some(s) => doc_props(*d)[key@] == DocVal::Str(s@),
            None => true,
        },
{
    match automerge::ReadDoc::get(d, automerge::ROOT, key) {
        Ok(Some((v, _))) => v.as_str().map(|s| s.to_string()),
        _ => None,
    }
}

/// Reads an integer property at the root; values that do not read as a
/// 64-bit integer and absent keys read as nothing.
///
/// Relies on `automerge::ReadDoc::get` and `Value::as_i64`.
#[verifier::external_body]
pub(crate) fn am_get_int(d: &automerge::AutoCommit, key: &str) -> (r: Option<i64>)
    ensures
        (r is Some) <==> (doc_props(*d).contains_key(key@) && doc_props(*d)[key@] is Int),
        match r {
            Some(n) => doc_props(*d)[key@] == DocVal::Int(n as int),
            None => true,
        },
{
    match automerge::ReadDoc::get(d, automerge::ROOT, key) {
        Ok(Some((v, _))) => v.as_i64(),
        _ => None,
    }
}

/// The length of the list property `key`; an absent key reads as zero.
/// Nothing is promised of keys holding other objects.
///
/// Relies on `automerge::ReadDoc::get` and `length`.
#[verifier::external_body]
pub(crate) fn am_list_len(d: &automerge::AutoCommit, key: &str) -> (r: usize)
    ensures
        doc_props(*d).contains_key(key@) && doc_props(*d)[key@] is List ==> r == doc_props(
            *d,
        )[key@]->List_0.len(),
        !doc_props(*d).contains_key(key@) ==> r == 0,
{
    match automerge::ReadDoc::get(d, automerge::ROOT, key) {
        Ok(Some((_, id))) => automerge::ReadDoc::length(d, &id),
        _ => 0,
    }
}

/// Reads the `i`-th element of the list property `key` as a string;
/// out-of-range indices, non-string elements and non-list keys read as
/// nothing.
///
/// Relies on `automerge::ReadDoc::get` and `Value::as_str`.
#[verifier::external_body]
pub(crate) fn am_list_get_str(d: &automerge::AutoCommit, key: &str, i: usize) -> (r: Option<String>)
    ensures
        doc_props(*d).contains_key(key@) && doc_props(*d)[key@] is List ==> ({
            let l = doc_props(*d)[key@]->List_0;
            ((i < l.len() && l[i as int] is LStr) ==> (r matches Some(s) && DocElem::LStr(s@)
                == l[i as int])) && ((i >= l.len() || !(l[i as int] is LStr)) ==> r is None)
        }),
        (!doc_props(*d).contains_key(key@) || !(doc_props(*d)[key@] is List)) ==> r is None,
{
    let id = match automerge::ReadDoc::get(d, automerge::ROOT, key) {
        Ok(Some((_, id))) => id,
        _ => return None,
    };
    match automerge::ReadDoc::get(d, &id, i) {
        Ok(Some((v, _))) => v.as_str().map(|s| s.to_string()),
        _ => None,
    }
}

/// Reads a string field of the `i`-th map of the list property `key`;
/// anything that is not a string field of a map element reads as nothing.
///
/// Relies on `automerge::ReadDoc::get` and `Value::as_str`.
#[verifier::external_body]
pub(crate) fn am_map_get_field(d: &automerge::AutoCommit, key: &str, i: usize, field: &str) -> (r:
    Option<String>)
    ensures
        doc_props(*d).contains_key(key@) && doc_props(*d)[key@] is List ==> ({
            let l = doc_props(*d)[key@]->List_0;
            ((i < l.len() && l[i as int] is LMap) ==> ({
                let m = l[i as int]->LMap_0;
                ((r matches Some(s) && m.contains_key(field@) && m[field@] == s@) || (r is None
                    && !m.contains_key(field@)))
            })) && ((i >= l.len() || !(l[i as int] is LMap)) ==> r is None)
        }),
        (!doc_props(*d).contains_key(key@) || !(doc_props(*d)[key@] is List)) ==> r is None,
{
    let id = match automerge::ReadDoc::get(d, automerge::ROOT, key) {
        Ok(Some((_, id))) => id,
        _ => return None,
    };
    let entry = match automerge::ReadDoc::get(d, &id, i) {
        Ok(Some((_, eid))) => eid,
        _ => return None,
    };
    match automerge::ReadDoc::get(d, &entry, field) {
        Ok(Some((v, _))) => v.as_str().map(|s| s.to_string()),
        _ => None,
    }
}

/// The map a dependency is stored as.
pub open spec fn dep_map(d: DependencyView) -> Map<Seq<char>, Seq<char>> {
    let m = Map::<Seq<char>, Seq<char>>::empty().insert("issue_id"@, d.issue_id).insert(
        "depends_on_id"@,
        d.depends_on_id,
    ).insert("type"@, dep_type_name(d.dep_type)).insert(
        "created_at"@,
        rfc3339_of(d.created_at),
    );
    match d.created_by {
        Some(s) => m.insert("created_by"@, s),
        None => m,
    }
}

/// Inserts an optional string property.
pub open spec fn opt_str_insert(
    m: Map<Seq<char>, DocVal>,
    k: Seq<char>,
    o: Option<Seq<char>>,
) -> Map<Seq<char>, DocVal> {
    match o {
        Some(s) => m.insert(k, DocVal::Str(s)),
        None => m,
    }
}

/// Inserts an optional timestamp property, in its RFC 3339 form.
pub open spec fn opt_ts_insert(m: Map<Seq<char>, DocVal>, k: Seq<char>, o: Option<int>) -> Map<
    Seq<char>,
    DocVal,
> {
    match o {
        Some(t) => m.insert(k, DocVal::Str(rfc3339_of(t))),
        None => m,
    }
}

/// The document an issue is stored as: every field under its own property
/// name, timestamps as RFC 3339 strings, labels as a list of strings and
/// dependencies as a list of maps; empty lists and absent optionals are
/// left out.
pub open spec fn doc_of_issue(v: IssueView) -> Map<Seq<char>, DocVal> {
    let m = Map::<Seq<char>, DocVal>::empty().insert("id"@, DocVal::Str(v.id)).insert(
        "title"@,
        DocVal::Str(v.title),
    );
    let m = opt_str_insert(m, "description"@, v.description);
    let m = m.insert("status"@, DocVal::Str(status_name(v.status))).insert(
        "priority"@,
        DocVal::Int(v.priority),
    ).insert("issue_type"@, DocVal::Str(issue_type_name(v.issue_type))).insert(
        "created_at"@,
        DocVal::Str(rfc3339_of(v.created_at)),
    ).insert("updated_at"@, DocVal::Str(rfc3339_of(v.updated_at)));
    let m = opt_ts_insert(m, "closed_at"@, v.closed_at);
    let m = opt_ts_insert(m, "deleted_at"@, v.deleted_at);
    let m = opt_str_insert(m, "assignee"@, v.assignee);
    let m = opt_str_insert(m, "close_reason"@, v.close_reason);
    let m = opt_str_insert(m, "notes"@, v.notes);
    let m = opt_str_insert(m, "created_by"@, v.created_by);
    let m = opt_str_insert(m, "original_type"@, v.original_type);
    let m = opt_str_insert(m, "deleted_by"@, v.deleted_by);
    let m = opt_str_insert(m, "delete_reason"@, v.delete_reason);
    let m = if v.labels.len() > 0 {
        m.insert("labels"@, DocVal::List(v.labels.map_values(|s: Seq<char>| DocElem::LStr(s))))
    } else {
        m
    };
    if v.dependencies.len() > 0 {
        m.insert(
            "dependencies"@,
            DocVal::List(
                v.dependencies.map_values(|d: DependencyView| DocElem::LMap(dep_map(d))),
            ),
        )
    } else {
        m
    }
}

/// An optional string read back from a document.
pub open spec fn dec_opt_str(m: Map<Seq<char>, DocVal>, k: Seq<char>) -> Option<Seq<char>> {
    if m.contains_key(k) && m[k] is Str {
        Some(m[k]->Str_0)
    } else {
        None
    }
}

/// The status read back from a document; anything unreadable is open.
pub open spec fn dec_status(m: Map<Seq<char>, DocVal>) -> Status {
    if m.contains_key("status"@) && m["status"@] is Str {
        match status_of_name(lower_seq(m["status"@]->Str_0)) {
            Some(st) => st,
            None => Status::Open,
        }
    } else {
        Status::Open
    }
}

/// The priority read back from a document: the low byte of the stored
/// integer, or the default when absent.
pub open spec fn dec_priority(m: Map<Seq<char>, DocVal>) -> int {
    if m.contains_key("priority"@) && m["priority"@] is Int {
        m["priority"@]->Int_0 % 256
    } else {
        2
    }
}

/// The issue type read back from a document; anything unreadable is a
/// task.
pub open spec fn dec_type(m: Map<Seq<char>, DocVal>) -> IssueType {
    if m.contains_key("issue_type"@) && m["issue_type"@] is Str {
        match issue_type_of_name(lower_seq(m["issue_type"@]->Str_0)) {
            Some(t) => t,
            None => IssueType::Task,
        }
    } else {
        IssueType::Task
    }
}

/// A mandatory timestamp read back from a document; anything unreadable
/// falls back to the time of loading.
pub open spec fn dec_ts(m: Map<Seq<char>, DocVal>, k: Seq<char>, now: int) -> int {
    if m.contains_key(k) && m[k] is Str && rfc3339_parse(m[k]->Str_0) is Some {
        rfc3339_parse(m[k]->Str_0)->0
    } else {
        now
    }
}

/// An optional timestamp read back from a document.
pub open spec fn dec_opt_ts(m: Map<Seq<char>, DocVal>, k: Seq<char>) -> Option<int> {
    if m.contains_key(k) && m[k] is Str && rfc3339_parse(m[k]->Str_0) is Some {
        Some(rfc3339_parse(m[k]->Str_0)->0)
    } else {
        None
    }
}

/// The labels read back from a document: the string elements of the
/// `labels` list, anything else skipped.
pub open spec fn dec_labels(m: Map<Seq<char>, DocVal>) -> Seq<Seq<char>> {
    if m.contains_key("labels"@) && m["labels"@] is List {
        m["labels"@]->List_0.filter(|e: DocElem| e is LStr).map_values(
            |e: DocElem| e->LStr_0,
        )
    } else {
        Seq::empty()
    }
}

/// One dependency read back from a list element: map elements with both id
/// fields qualify, anything else is skipped.
pub open spec fn dec_dep_one(e: DocElem, now: int) -> Option<DependencyView> {
    if e is LMap {
        let dm = e->LMap_0;
        if dm.contains_key("issue_id"@) && dm.contains_key("depends_on_id"@) {
            Some(
                DependencyView {
                    issue_id: dm["issue_id"@],
                    depends_on_id: dm["depends_on_id"@],
                    dep_type: if dm.contains_key("type"@) {
                        match dep_type_of_name(dm["type"@]) {
                            Some(t) => t,
                            None => DependencyType::Blocks,
                        }
                    } else {
                        DependencyType::Blocks
                    },
                    created_at: if dm.contains_key("created_at"@) && rfc3339_parse(
                        dm["created_at"@],
                    ) is Some {
                        rfc3339_parse(dm["created_at"@])->0
                    } else {
                        now
                    },
                    created_by: if dm.contains_key("created_by"@) {
                        Some(dm["created_by"@])
                    } else {
                        None
                    },
                },
            )
        } else {
            None
        }
    } else {
        None
    }
}

/// The dependencies read back from a list of elements, in order.
pub open spec fn dec_dep_list(l: Seq<DocElem>, now: int) -> Seq<DependencyView>
    decreases l.len(),
{
    if l.len() == 0 {
        Seq::empty()
    } else {
        dec_dep_list(l.drop_last(), now) + (match dec_dep_one(l.last(), now) {
            Some(d) => seq![d],
            None => Seq::empty(),
        })
    }
}

/// The dependencies read back from a document.
pub open spec fn dec_deps(m: Map<Seq<char>, DocVal>, now: int) -> Seq<DependencyView> {
    if m.contains_key("dependencies"@) && m["dependencies"@] is List {
        dec_dep_list(m["dependencies"@]->List_0, now)
    } else {
        Seq::empty()
    }
}

/// The issue a document's properties decode to, or nothing when `id` or
/// `title` is missing. `now` stands in for timestamps that fail to parse.
pub open spec fn issue_of_doc(m: Map<Seq<char>, DocVal>, now: int) -> Option<IssueView> {
    if m.contains_key("id"@) && m["id"@] is Str && m.contains_key("title"@) && m["title"@]
        is Str {
        Some(
            IssueView {
                id: m["id"@]->Str_0,
                title: m["title"@]->Str_0,
                description: dec_opt_str(m, "description"@),
                status: dec_status(m),
                priority: dec_priority(m),
                issue_type: dec_type(m),
                labels: dec_labels(m),
                created_at: dec_ts(m, "created_at"@, now),
                updated_at: dec_ts(m, "updated_at"@, now),
                closed_at: dec_opt_ts(m, "closed_at"@),
                deleted_at: dec_opt_ts(m, "deleted_at"@),
                dependencies: dec_deps(m, now),
                created_by: dec_opt_str(m, "created_by"@),
                close_reason: dec_opt_str(m, "close_reason"@),
                assignee: dec_opt_str(m, "assignee"@),
                notes: dec_opt_str(m, "notes"@),
                original_type: dec_opt_str(m, "original_type"@),
                deleted_by: dec_opt_str(m, "deleted_by"@),
                delete_reason: dec_opt_str(m, "delete_reason"@),
            },
        )
    } else {
        None
    }
}

/// Writes an optional string property; absent values write nothing.
fn put_opt_str(d: &mut automerge::AutoCommit, key: &str, o: &Option<String>) -> (r: Result<
    (),
    Error,
>)
    ensures
        r is Ok,
        doc_props(*final(d)) == opt_str_insert(
            doc_props(*old(d)),
            key@,
            crate::issue::opt_view(*o),
        ),
{
    match o {
        Some(s) => am_put_str(d, key, s.as_str()),
        None => Ok(()),
    }
}

/// True when `t` fits the four-digit-year range the textual form keeps.
fn ts_in_range(t: i64) -> (r: bool)
    ensures
        r == crate::timeutil::ts_ok(t as int),
{
    crate::timeutil::TS_MIN <= t && t <= crate::timeutil::TS_MAX
}

/// Writes an optional timestamp property as RFC 3339; absent values write
/// nothing, out-of-range ones exactly are an error.
fn put_opt_ts(d: &mut automerge::AutoCommit, key: &str, o: Option<i64>) -> (r: Result<(), Error>)
    ensures
        (r is Ok) <==> (o matches Some(t) ==> crate::timeutil::ts_ok(t as int)),
        r is Ok ==> doc_props(*final(d)) == opt_ts_insert(
            doc_props(*old(d)),
            key@,
            crate::issue::opt_ts_view(o),
        ) && (o matches Some(t) ==> ts_rt(t as int)),
        r matches Err(e) ==> e matches Error::Other(_),
{
    match o {
        Some(t) => {
            if !ts_in_range(t) {
                return Err(Error::Other("timestamp out of range".to_owned()));
            }
            let s = crate::timeutil::format_rfc3339(t);
            am_put_str(d, key, s.as_str())
        },
        None => Ok(()),
    }
}

/// Writes a mandatory timestamp property as RFC 3339; out-of-range
/// timestamps exactly are an error.
fn put_ts(d: &mut automerge::AutoCommit, key: &str, t: i64) -> (r: Result<(), Error>)
    ensures
        (r is Ok) <==> crate::timeutil::ts_ok(t as int),
        r is Ok ==> doc_props(*final(d)) == doc_props(*old(d)).insert(
            key@,
            DocVal::Str(rfc3339_of(t as int)),
        ) && ts_rt(t as int),
        r matches Err(e) ==> e matches Error::Other(_),
{
    if !ts_in_range(t) {
        return Err(Error::Other("timestamp out of range".to_owned()));
    }
    let s = crate::timeutil::format_rfc3339(t);
    am_put_str(d, key, s.as_str())
}

/// Encodes an issue as a document whose properties are exactly
/// `doc_of_issue` of the issue's value. Encoding succeeds exactly when
/// every timestamp of the issue fits the four-digit-year textual range.
#[verifier::loop_isolation(false)]
pub fn issue_to_doc(issue: &Issue) -> (r: Result<automerge::AutoCommit, Error>)
    ensures
        (r is Ok) <==> issue_ts_in_range(issue@),
        r matches Ok(d) ==> doc_props(d) == doc_of_issue(issue@) && issue_ts_rt(issue@),
        r matches Err(e) ==> e matches Error::Other(_),
{
    let mut d = am_new();
    am_put_str(&mut d, "id", issue.id.as_str())?;
    am_put_str(&mut d, "title", issue.title.as_str())?;
    put_opt_str(&mut d, "description", &issue.description)?;
    am_put_str(&mut d, "status", issue.status.as_str())?;
    am_put_int(&mut d, "priority", issue.priority as i64)?;
    am_put_str(&mut d, "issue_type", issue.issue_type.as_str())?;
    put_ts(&mut d, "created_at", issue.created_at)?;
    put_ts(&mut d, "updated_at", issue.updated_at)?;
    put_opt_ts(&mut d, "closed_at", issue.closed_at)?;
    put_opt_ts(&mut d, "deleted_at", issue.deleted_at)?;
    put_opt_str(&mut d, "assignee", &issue.assignee)?;
    put_opt_str(&mut d, "close_reason", &issue.close_reason)?;
    put_opt_str(&mut d, "notes", &issue.notes)?;
    put_opt_str(&mut d, "created_by", &issue.created_by)?;
    put_opt_str(&mut d, "original_type", &issue.original_type)?;
    put_opt_str(&mut d, "deleted_by", &issue.deleted_by)?;
    put_opt_str(&mut d, "delete_reason", &issue.delete_reason)?;
    let ghost base = doc_props(d);
    if issue.labels.len() > 0 {
        am_put_empty_list(&mut d, "labels")?;
        proof {
            assert(issue@.labels.take(0).map_values(|s: Seq<char>| DocElem::LStr(s))
                =~= Seq::<DocElem>::empty());
        }
        let mut i: usize = 0;
        while i < issue.labels.len()
            invariant
                i <= issue@.labels.len(),
                doc_props(d) == base.insert(
                    "labels"@,
                    DocVal::List(
                        issue@.labels.take(i as int).map_values(
                            |s: Seq<char>| DocElem::LStr(s),
                        ),
                    ),
                ),
            decreases issue@.labels.len() - i,
        {
            am_push_str(&mut d, "labels", issue.labels[i].as_str())?;
            proof {
                assert(issue@.labels.take(i as int).map_values(
                    |s: Seq<char>| DocElem::LStr(s),
                ).push(DocElem::LStr(issue@.labels[i as int])) =~= issue@.labels.take(
                    i + 1,
                ).map_values(|s: Seq<char>| DocElem::LStr(s)));
            }
            i += 1;
        }
        proof {
            assert(issue@.labels.take(issue@.labels.len() as int) =~= issue@.labels);
        }
    }
    let ghost base2 = doc_props(d);
    if issue.dependencies.len() > 0 {
        am_put_empty_list(&mut d, "dependencies")?;
        proof {
            assert(issue@.dependencies.take(0).map_values(
                |x: DependencyView| DocElem::LMap(dep_map(x)),
            ) =~= Seq::<DocElem>::empty());
        }
        let mut i: usize = 0;
        while i < issue.dependencies.len()
            invariant
                i <= issue@.dependencies.len(),
                doc_props(d) == base2.insert(
                    "dependencies"@,
                    DocVal::List(
                        issue@.dependencies.take(i as int).map_values(
                            |dv: DependencyView| DocElem::LMap(dep_map(dv)),
                        ),
                    ),
                ),
                forall|j: int|
                    0 <= j < i ==> ts_rt((#[trigger] issue@.dependencies[j]).created_at)
                        && crate::timeutil::ts_ok(issue@.dependencies[j].created_at),
            decreases issue@.dependencies.len() - i,
        {
            let ghost dv = issue@.dependencies[i as int];
            let ghost l0 = issue@.dependencies.take(i as int).map_values(
                |x: DependencyView| DocElem::LMap(dep_map(x)),
            );
            am_push_empty_map(&mut d, "dependencies")?;
            let dep = &issue.dependencies[i];
            am_map_put_field(&mut d, "dependencies", i, "issue_id", dep.issue_id.as_str())?;
            proof {
                assert(doc_props(d)["dependencies"@]->List_0 =~= l0.push(
                    DocElem::LMap(
                        Map::<Seq<char>, Seq<char>>::empty().insert("issue_id"@, dv.issue_id),
                    ),
                ));
            }
            am_map_put_field(
                &mut d,
                "dependencies",
                i,
                "depends_on_id",
                dep.depends_on_id.as_str(),
            )?;
            am_map_put_field(&mut d, "dependencies", i, "type", dep.dep_type.as_str())?;
            if !ts_in_range(dep.created_at) {
                proof {
                    assert(!crate::timeutil::ts_ok(
                        issue@.dependencies[i as int].created_at,
                    ));
                    assert(!issue_ts_in_range(issue@));
                }
                return Err(Error::Other("timestamp out of range".to_owned()));
            }
            let created = crate::timeutil::format_rfc3339(dep.created_at);
            am_map_put_field(&mut d, "dependencies", i, "created_at", created.as_str())?;
            match &dep.created_by {
                Some(by) => {
                    am_map_put_field(&mut d, "dependencies", i, "created_by", by.as_str())?;
                },
                None => (),
            }
            proof {
                assert(doc_props(d)["dependencies"@]->List_0 =~= l0.push(
                    DocElem::LMap(dep_map(dv)),
                ));
                assert(l0.push(DocElem::LMap(dep_map(dv))) =~= issue@.dependencies.take(
                    i + 1,
                ).map_values(|x: DependencyView| DocElem::LMap(dep_map(x))));
                assert(doc_props(d) == base2.insert(
                    "dependencies"@,
                    DocVal::List(
                        issue@.dependencies.take(i + 1).map_values(
                            |x: DependencyView| DocElem::LMap(dep_map(x)),
                        ),
                    ),
                ));
            }
            i += 1;
        }
        proof {
            assert(issue@.dependencies.take(issue@.dependencies.len() as int) =~= issue@
                .dependencies);
        }
    }
    proof {
        assert(doc_props(d) == doc_of_issue(issue@));
    }
    Ok(d)
}

/// Decodes a document back to an issue; a missing or non-string `id` or
/// `title` is an error, everything else falls back to defaults.
#[verifier::loop_isolation(false)]
pub fn doc_to_issue(d: &automerge::AutoCommit) -> (r: Result<Issue, Error>)
    ensures
        match r {
            Ok(i) => exists|now: int| issue_of_doc(doc_props(*d), now) == Some(i@),
            Err(e) => issue_of_doc(doc_props(*d), 0) is None && e matches Error::Other(_),
        },
{
    let now = crate::timeutil::now_millis();
    let ghost m = doc_props(*d);
    let id = match am_get_str(d, "id") {
        Some(s) => s,
        None => {
            return Err(Error::Other("Missing id field".to_owned()));
        },
    };
    let title = match am_get_str(d, "title") {
        Some(s) => s,
        None => {
            return Err(Error::Other("Missing title field".to_owned()));
        },
    };
    let description = am_get_str(d, "description");
    let status = match am_get_str(d, "status") {
        Some(s) => match Status::from_str(s.as_str()) {
            Ok(st) => st,
            Err(_) => Status::Open,
        },
        None => Status::Open,
    };
    let priority: u8 = match am_get_int(d, "priority") {
        Some(n) => {
            let p = #[verifier::truncate] (n as u8);
            proof {
                assert(p == n as u8);
                assert(n as u8 == (n as int % 256)) by (bit_vector);
            }
            p
        },
        None => 2,
    };
    let issue_type = match am_get_str(d, "issue_type") {
        Some(s) => match IssueType::from_str(s.as_str()) {
            Ok(t) => t,
            Err(_) => IssueType::Task,
        },
        None => IssueType::Task,
    };
    let created_at = get_ts(d, "created_at", now);
    let updated_at = get_ts(d, "updated_at", now);
    let closed_at = get_opt_ts(d, "closed_at");
    let deleted_at = get_opt_ts(d, "deleted_at");
    let assignee = am_get_str(d, "assignee");
    let close_reason = am_get_str(d, "close_reason");
    let notes = am_get_str(d, "notes");
    let created_by = am_get_str(d, "created_by");
    let original_type = am_get_str(d, "original_type");
    let deleted_by = am_get_str(d, "deleted_by");
    let delete_reason = am_get_str(d, "delete_reason");

    // Labels: the string elements of the list, in order.
    let mut labels: Vec<String> = Vec::new();
    let llen = am_list_len(d, "labels");
    let ghost lhas = m.contains_key("labels"@) && m["labels"@] is List;
    let mut i: usize = 0;
    while i < llen
        invariant
            lhas ==> llen == m["labels"@]->List_0.len(),
            lhas ==> labels@.map_values(|s: String| s@) == m["labels"@]->List_0.take(
                i as int,
            ).filter(|e: DocElem| e is LStr).map_values(|e: DocElem| e->LStr_0),
            !lhas ==> labels@.len() == 0,
            i <= llen,
        decreases llen - i,
    {
        proof {
            if lhas {
                crate::strutil::lemma_filter_step(
                    m["labels"@]->List_0,
                    |e: DocElem| e is LStr,
                    i as int,
                );
            }
        }
        match am_list_get_str(d, "labels", i) {
            Some(s) => {
                labels.push(s);
                proof {
                    let l = m["labels"@]->List_0;
                    assert(labels@.map_values(|s2: String| s2@) =~= l.take(i as int).filter(
                        |e: DocElem| e is LStr,
                    ).map_values(|e: DocElem| e->LStr_0).push(l[i as int]->LStr_0));
                    assert(l.take(i as int).filter(|e: DocElem| e is LStr).push(l[i as int])
                        .map_values(|e: DocElem| e->LStr_0) =~= l.take(i as int).filter(
                        |e: DocElem| e is LStr,
                    ).map_values(|e: DocElem| e->LStr_0).push(l[i as int]->LStr_0));
                }
            },
            None => (),
        }
        i += 1;
    }
    proof {
        if lhas {
            assert(m["labels"@]->List_0.take(m["labels"@]->List_0.len() as int) =~= m[
                "labels"@
            ]->List_0);
        }
        assert(labels@.map_values(|s: String| s@) == dec_labels(m));
    }

    // Dependencies: the map elements carrying both id fields, in order.
    let mut dependencies: Vec<crate::issue::Dependency> = Vec::new();
    let dlen = am_list_len(d, "dependencies");
    let ghost dhas = m.contains_key("dependencies"@) && m["dependencies"@] is List;
    let mut i2: usize = 0;
    while i2 < dlen
        invariant
            dhas ==> dlen == m["dependencies"@]->List_0.len(),
            dhas ==> dependencies@.map_values(|x: crate::issue::Dependency| x@) == dec_dep_list(
                m["dependencies"@]->List_0.take(i2 as int),
                now as int,
            ),
            !dhas ==> dependencies@.len() == 0,
            i2 <= dlen,
        decreases dlen - i2,
    {
        let ghost l = m["dependencies"@]->List_0;
        proof {
            if dhas {
                lemma_dec_dep_step(l, now as int, i2 as int);
            }
        }
        let dep_issue_id = am_map_get_field(d, "dependencies", i2, "issue_id");
        let dep_target = am_map_get_field(d, "dependencies", i2, "depends_on_id");
        match (dep_issue_id, dep_target) {
            (Some(diid), Some(dtgt)) => {
                let ty = match am_map_get_field(d, "dependencies", i2, "type") {
                    Some(s) => match DependencyType::from_str(s.as_str()) {
                        Some(t) => t,
                        None => DependencyType::Blocks,
                    },
                    None => DependencyType::Blocks,
                };
                let created = match am_map_get_field(d, "dependencies", i2, "created_at") {
                    Some(s) => match crate::timeutil::parse_rfc3339(s.as_str()) {
                        Some(t) => t,
                        None => now,
                    },
                    None => now,
                };
                let by = am_map_get_field(d, "dependencies", i2, "created_by");
                let dep = crate::issue::Dependency {
                    issue_id: diid,
                    depends_on_id: dtgt,
                    dep_type: ty,
                    created_at: created,
                    created_by: by,
                };
                proof {
                    assert(dec_dep_one(l[i2 as int], now as int) == Some(dep@));
                }
                dependencies.push(dep);
                proof {
                    assert(dependencies@.map_values(|x: crate::issue::Dependency| x@)
                        =~= dec_dep_list(l.take(i2 + 1), now as int));
                }
            },
            _ => {
                proof {
                    if dhas {
                        assert(dec_dep_one(l[i2 as int], now as int) is None);
                        assert(dec_dep_list(l.take(i2 + 1), now as int) =~= dec_dep_list(
                            l.take(i2 as int),
                            now as int,
                        ));
                    }
                }
            },
        }
        i2 += 1;
    }
    proof {
        if dhas {
            let l = m["dependencies"@]->List_0;
            assert(l.take(l.len() as int) =~= l);
        }
        assert(dependencies@.map_values(|x: crate::issue::Dependency| x@) == dec_deps(
            m,
            now as int,
        ));
    }

    let out = Issue {
        id: id,
        title: title,
        description: description,
        status: status,
        priority: priority,
        issue_type: issue_type,
        labels: labels,
        created_at: created_at,
        updated_at: updated_at,
        closed_at: closed_at,
        deleted_at: deleted_at,
        dependencies: dependencies,
        created_by: created_by,
        close_reason: close_reason,
        assignee: assignee,
        notes: notes,
        original_type: original_type,
        deleted_by: deleted_by,
        delete_reason: delete_reason,
    };
    proof {
        assert(issue_of_doc(m, now as int) == Some(out@)) by {
            assert(out@ =~= issue_of_doc(m, now as int)->0);
        }
    }
    Ok(out)
}

/// A mandatory timestamp property, with the given fallback.
fn get_ts(d: &automerge::AutoCommit, key: &str, now: i64) -> (r: i64)
    ensures
        r as int == dec_ts(doc_props(*d), key@, now as int),
{
    match am_get_str(d, key) {
        Some(s) => match crate::timeutil::parse_rfc3339(s.as_str()) {
            Some(t) => t,
            None => now,
        },
        None => now,
    }
}

/// An optional timestamp property.
fn get_opt_ts(d: &automerge::AutoCommit, key: &str) -> (r: Option<i64>)
    ensures
        crate::issue::opt_ts_view(r) == dec_opt_ts(doc_props(*d), key@),
{
    match am_get_str(d, key) {
        Some(s) => crate::timeutil::parse_rfc3339(s.as_str()),
        None => None,
    }
}

/// Reading one more list element extends the decoded dependencies by that
/// element's decoding.
proof fn lemma_dec_dep_step(l: Seq<DocElem>, now: int, i: int)
    requires
        0 <= i < l.len(),
    ensures
        dec_dep_list(l.take(i + 1), now) == dec_dep_list(l.take(i), now) + (match dec_dep_one(
            l[i],
            now,
        ) {
            Some(dv) => seq![dv],
            None => Seq::<DependencyView>::empty(),
        }),
{
    assert(l.take(i + 1).drop_last() =~= l.take(i));
    assert(l.take(i + 1).last() == l[i]);
}

/// The timestamp `t` survives formatting and parsing.
pub open spec fn ts_rt(t: int) -> bool {
    rfc3339_parse(rfc3339_of(t)) == Some(t)
}

/// Every timestamp of `v` fits the four-digit-year range the textual form
/// keeps; encoding succeeds exactly on such issues.
pub open spec fn issue_ts_in_range(v: IssueView) -> bool {
    crate::timeutil::ts_ok(v.created_at) && crate::timeutil::ts_ok(v.updated_at) && (
    v.closed_at matches Some(t) ==> crate::timeutil::ts_ok(t)) && (v.deleted_at matches Some(t)
        ==> crate::timeutil::ts_ok(t)) && (forall|i: int|
        0 <= i < v.dependencies.len() ==> crate::timeutil::ts_ok(
            (#[trigger] v.dependencies[i]).created_at,
        ))
}

/// Every timestamp of `v` survives formatting and parsing.
pub open spec fn issue_ts_rt(v: IssueView) -> bool {
    ts_rt(v.created_at) && ts_rt(v.updated_at) && (v.closed_at matches Some(t) ==> ts_rt(t)) && (
    v.deleted_at matches Some(t) ==> ts_rt(t)) && (forall|i: int|
        0 <= i < v.dependencies.len() ==> ts_rt((#[trigger] v.dependencies[i]).created_at))
}

/// A status name written by the codec reads back as the same status.
proof fn lemma_status_name_rt(s: Status)
    ensures
        status_of_name(lower_seq(status_name(s))) == Some(s),
{
    reveal_strlit("open");
    reveal_strlit("in_progress");
    reveal_strlit("in-progress");
    reveal_strlit("inprogress");
    reveal_strlit("blocked");
    reveal_strlit("closed");
    reveal_strlit("tombstone");
    match s {
        Status::Open => {
            assert(lower_seq("open"@) =~= "open"@);
        },
        Status::InProgress => {
            assert(lower_seq("in_progress"@) =~= "in_progress"@);
            assert("in_progress"@ != "open"@);
        },
        Status::Blocked => {
            assert(lower_seq("blocked"@) =~= "blocked"@);
        },
        Status::Closed => {
            assert(lower_seq("closed"@) =~= "closed"@);
        },
        Status::Tombstone => {
            assert(lower_seq("tombstone"@) =~= "tombstone"@);
        },
    }
}

/// An issue-type name written by the codec reads back as the same type.
proof fn lemma_type_name_rt(t: IssueType)
    ensures
        issue_type_of_name(lower_seq(issue_type_name(t))) == Some(t),
{
    reveal_strlit("bug");
    reveal_strlit("feature");
    reveal_strlit("task");
    reveal_strlit("epic");
    reveal_strlit("chore");
    assert("bug"@.len() == 3 && "feature"@.len() == 7 && "task"@.len() == 4 && "epic"@.len()
        == 4 && "chore"@.len() == 5);
    assert("task"@[0] == 't' && "epic"@[0] == 'e');
    match t {
        IssueType::Bug => {
            assert(lower_seq("bug"@) =~= "bug"@);
            assert(issue_type_of_name("bug"@) == Some(IssueType::Bug));
        },
        IssueType::Feature => {
            assert(lower_seq("feature"@) =~= "feature"@);
            assert(issue_type_of_name("feature"@) == Some(IssueType::Feature));
        },
        IssueType::Task => {
            assert(lower_seq("task"@) =~= "task"@);
            assert(issue_type_of_name("task"@) == Some(IssueType::Task));
        },
        IssueType::Epic => {
            assert(lower_seq("epic"@) =~= "epic"@);
            assert("epic"@ != "task"@);
            assert(issue_type_of_name("epic"@) == Some(IssueType::Epic));
        },
        IssueType::Chore => {
            assert(lower_seq("chore"@) =~= "chore"@);
            assert(issue_type_of_name("chore"@) == Some(IssueType::Chore));
        },
    }
}

/// A dependency-type name written by the codec reads back as the same
/// type.
proof fn lemma_dep_type_name_rt(t: DependencyType)
    ensures
        dep_type_of_name(dep_type_name(t)) == Some(t),
{
    reveal_strlit("blocks");
    reveal_strlit("parent-child");
    reveal_strlit("parent_child");
    reveal_strlit("related");
    assert("blocks"@.len() == 6);
    assert("parent-child"@.len() == 12);
    assert("parent_child"@.len() == 12);
    assert("related"@.len() == 7);
    assert("parent-child"@[6] == '-' && "parent_child"@[6] == '_');
    match t {
        DependencyType::Blocks => {
            assert(dep_type_of_name("blocks"@) == Some(DependencyType::Blocks));
        },
        DependencyType::ParentChild => {
            assert("parent-child"@ != "blocks"@);
            assert(dep_type_of_name("parent-child"@) == Some(DependencyType::ParentChild));
        },
        DependencyType::Related => {
            assert("related"@ != "blocks"@);
            assert("related"@ != "parent-child"@ && "related"@ != "parent_child"@);
            assert(dep_type_of_name("related"@) == Some(DependencyType::Related));
        },
    }
}

/// A dependency's stored map reads back as the same dependency.
proof fn lemma_dep_map_rt(dv: DependencyView, now: int)
    requires
        ts_rt(dv.created_at),
    ensures
        dec_dep_one(DocElem::LMap(dep_map(dv)), now) == Some(dv),
{
    reveal_strlit("issue_id");
    reveal_strlit("depends_on_id");
    reveal_strlit("type");
    reveal_strlit("created_at");
    reveal_strlit("created_by");
    assert("issue_id"@.len() == 8);
    assert("depends_on_id"@.len() == 13);
    assert("type"@.len() == 4);
    assert("created_at"@.len() == 10 && "created_at"@[8] == 'a');
    assert("created_by"@.len() == 10 && "created_by"@[8] == 'b');
    lemma_dep_type_name_rt(dv.dep_type);
    let got = dec_dep_one(DocElem::LMap(dep_map(dv)), now);
    assert(got matches Some(g) && g =~= dv);
}

/// A stored dependency list reads back as the same dependencies.
proof fn lemma_dep_list_rt(deps: Seq<DependencyView>, now: int)
    requires
        forall|i: int| 0 <= i < deps.len() ==> ts_rt((#[trigger] deps[i]).created_at),
    ensures
        dec_dep_list(deps.map_values(|x: DependencyView| DocElem::LMap(dep_map(x))), now)
            == deps,
    decreases deps.len(),
{
    let enc = deps.map_values(|x: DependencyView| DocElem::LMap(dep_map(x)));
    if deps.len() == 0 {
        assert(dec_dep_list(enc, now) =~= deps);
    } else {
        lemma_dep_list_rt(deps.drop_last(), now);
        assert(enc.drop_last() =~= deps.drop_last().map_values(
            |x: DependencyView| DocElem::LMap(dep_map(x)),
        ));
        lemma_dep_map_rt(deps.last(), now);
        assert(enc.last() == DocElem::LMap(dep_map(deps.last())));
        assert(dec_dep_list(enc, now) =~= deps);
    }
}

/// Encoding an issue as a document and decoding it back is lossless for
/// every field, including absent optionals, labels and nested
/// dependencies. The hypotheses ask only that the priority is a byte and
/// that each timestamp survives its textual form.
#[verifier::rlimit(100)]
#[verifier::spinoff_prover]
pub proof fn lemma_issue_doc_roundtrip(v: IssueView, now: int)
    requires
        0 <= v.priority < 256,
        issue_ts_rt(v),
    ensures
        issue_of_doc(doc_of_issue(v), now) == Some(v),
{
    reveal_strlit("id");
    reveal_strlit("title");
    reveal_strlit("description");
    reveal_strlit("status");
    reveal_strlit("priority");
    reveal_strlit("issue_type");
    reveal_strlit("created_at");
    reveal_strlit("updated_at");
    reveal_strlit("closed_at");
    reveal_strlit("deleted_at");
    reveal_strlit("assignee");
    reveal_strlit("close_reason");
    reveal_strlit("notes");
    reveal_strlit("created_by");
    reveal_strlit("original_type");
    reveal_strlit("deleted_by");
    reveal_strlit("delete_reason");
    reveal_strlit("labels");
    reveal_strlit("dependencies");
    assert("id"@.len() == 2);
    assert("title"@.len() == 5 && "title"@[0] == 't');
    assert("description"@.len() == 11);
    assert("status"@.len() == 6 && "status"@[0] == 's');
    assert("priority"@.len() == 8 && "priority"@[0] == 'p');
    assert("issue_type"@.len() == 10 && "issue_type"@[0] == 'i');
    assert("created_at"@.len() == 10 && "created_at"@[0] == 'c' && "created_at"@[8] == 'a');
    assert("updated_at"@.len() == 10 && "updated_at"@[0] == 'u');
    assert("closed_at"@.len() == 9);
    assert("deleted_at"@.len() == 10 && "deleted_at"@[0] == 'd' && "deleted_at"@[8] == 'a');
    assert("assignee"@.len() == 8 && "assignee"@[0] == 'a');
    assert("close_reason"@.len() == 12 && "close_reason"@[0] == 'c');
    assert("notes"@.len() == 5 && "notes"@[0] == 'n');
    assert("created_by"@.len() == 10 && "created_by"@[0] == 'c' && "created_by"@[8] == 'b');
    assert("original_type"@.len() == 13 && "original_type"@[0] == 'o');
    assert("deleted_by"@.len() == 10 && "deleted_by"@[0] == 'd' && "deleted_by"@[8] == 'b');
    assert("delete_reason"@.len() == 13 && "delete_reason"@[0] == 'd');
    assert("labels"@.len() == 6 && "labels"@[0] == 'l');
    assert("dependencies"@.len() == 12 && "dependencies"@[0] == 'd');
    let m = doc_of_issue(v);
    lemma_status_name_rt(v.status);
    lemma_type_name_rt(v.issue_type);
    assert(m.contains_key("id"@) && m["id"@] == DocVal::Str(v.id));
    assert(m.contains_key("title"@) && m["title"@] == DocVal::Str(v.title));
    assert(dec_opt_str(m, "description"@) == v.description);
    assert(m.contains_key("status"@) && m["status"@] == DocVal::Str(status_name(v.status)));
    assert(dec_status(m) == v.status);
    assert(m.contains_key("priority"@) && m["priority"@] == DocVal::Int(v.priority));
    assert(v.priority % 256 == v.priority);
    assert(dec_priority(m) == v.priority);
    assert(m.contains_key("issue_type"@) && m["issue_type"@] == DocVal::Str(
        issue_type_name(v.issue_type),
    ));
    assert(dec_type(m) == v.issue_type);
    assert(m.contains_key("created_at"@) && m["created_at"@] == DocVal::Str(
        rfc3339_of(v.created_at),
    ));
    assert(dec_ts(m, "created_at"@, now) == v.created_at);
    assert(dec_ts(m, "updated_at"@, now) == v.updated_at);
    assert(dec_opt_ts(m, "closed_at"@) == v.closed_at);
    assert(dec_opt_ts(m, "deleted_at"@) == v.deleted_at);
    assert(dec_opt_str(m, "assignee"@) == v.assignee);
    assert(dec_opt_str(m, "close_reason"@) == v.close_reason);
    assert(dec_opt_str(m, "notes"@) == v.notes);
    assert(dec_opt_str(m, "created_by"@) == v.created_by);
    assert(dec_opt_str(m, "original_type"@) == v.original_type);
    assert(dec_opt_str(m, "deleted_by"@) == v.deleted_by);
    assert(dec_opt_str(m, "delete_reason"@) == v.delete_reason);
    assert(dec_labels(m) =~= v.labels) by {
        if v.labels.len() > 0 {
            let enc = v.labels.map_values(|s: Seq<char>| DocElem::LStr(s));
            assert(enc.filter(|e: DocElem| e is LStr) =~= enc) by {
                lemma_all_str_filter(enc);
            }
            assert(enc.map_values(|e: DocElem| e->LStr_0) =~= v.labels);
        }
    }
    assert(dec_deps(m, now) == v.dependencies) by {
        if v.dependencies.len() > 0 {
            lemma_dep_list_rt(v.dependencies, now);
        } else {
            assert(dec_deps(m, now) =~= v.dependencies);
        }
    }
    assert(v.priority % 256 == v.priority);
    let got = issue_of_doc(m, now);
    assert(got matches Some(g) && g =~= v);
}

/// A list of string elements is unchanged by filtering for string
/// elements.
proof fn lemma_all_str_filter(l: Seq<DocElem>)
    requires
        forall|i: int| 0 <= i < l.len() ==> (#[trigger] l[i]) is LStr,
    ensures
        l.filter(|e: DocElem| e is LStr) == l,
    decreases l.len(),
{
    reveal(Seq::filter);
    if l.len() > 0 {
        lemma_all_str_filter(l.drop_last());
        assert(l.filter(|e: DocElem| e is LStr) =~= l);
    }
}

/// Encodes an issue to the bytes of its document; succeeds exactly when
/// every timestamp of the issue fits the textual range.
pub fn issue_to_bytes(issue: &Issue) -> (r: Result<Vec<u8>, Error>)
    ensures
        (r is Ok) <==> issue_ts_in_range(issue@),
        r matches Ok(b) ==> loaded_props(b@) == Some(doc_of_issue(issue@)) && issue_ts_rt(
            issue@,
        ),
        r matches Err(e) ==> e matches Error::Other(_),
{
    let mut d = issue_to_doc(issue)?;
    Ok(am_save(&mut d))
}

/// Decodes an issue from the bytes of its document; bytes that do not
/// load, or a document missing `id` or `title`, are an error.
pub fn issue_from_bytes(bytes: &[u8]) -> (r: Result<Issue, Error>)
    ensures
        match r {
            Ok(i) => loaded_props(bytes@) matches Some(m) && (exists|now: int|
                issue_of_doc(m, now) == Some(i@)),
            Err(_) => loaded_props(bytes@) is None || (loaded_props(bytes@) matches Some(m)
                && issue_of_doc(m, 0) is None),
        },
{
    let d = am_load(bytes)?;
    doc_to_issue(&d)
}

/// Merges two diverged byte images of one document, treating an empty
/// image as a fresh document. A side that fails to load is an error, as is
/// a merge the document format itself rejects (diverged copies of one
/// actor's history); success is owed whenever no real merge is needed — a
/// missing or identical side. An empty side is an identity, merging in
/// either order gives the same properties, and merging an image with
/// itself changes nothing.
pub fn merge_conflict(base: &[u8], ours: &[u8], theirs: &[u8]) -> (r: Result<Vec<u8>, Error>)
    ensures
        r is Ok ==> (ours@.len() == 0 || loaded_props(ours@) is Some) && (theirs@.len() == 0
            || loaded_props(theirs@) is Some),
        ours@.len() == 0 && theirs@.len() == 0 ==> r is Ok,
        ours@.len() == 0 && loaded_props(theirs@) is Some ==> r is Ok,
        theirs@.len() == 0 && loaded_props(ours@) is Some ==> r is Ok,
        ours@ == theirs@ && loaded_props(ours@) is Some ==> r is Ok,
        r is Err ==> (ours@.len() > 0 && loaded_props(ours@) is None) || (theirs@.len() > 0
            && loaded_props(theirs@) is None) || (ours@.len() > 0 && theirs@.len() > 0),
        r matches Ok(b) ==> loaded_props(b@) is Some,
        r matches Ok(b) ==> (ours@.len() == 0 && theirs@.len() == 0 ==> loaded_props(b@)
            == Some(Map::<Seq<char>, DocVal>::empty())),
        r matches Ok(b) ==> (ours@.len() == 0 && theirs@.len() > 0 ==> loaded_props(b@)
            == loaded_props(theirs@)),
        r matches Ok(b) ==> (theirs@.len() == 0 && ours@.len() > 0 ==> loaded_props(b@)
            == loaded_props(ours@)),
        r matches Ok(b) ==> (ours@.len() > 0 && theirs@.len() > 0 ==> loaded_props(b@) == Some(
            merged_props(ours@, theirs@),
        ) && loaded_props(b@) == Some(merged_props(theirs@, ours@))),
        r matches Ok(b) ==> (ours@ == theirs@ && ours@.len() > 0 ==> loaded_props(b@)
            == loaded_props(ours@)),
        r matches Err(e) ==> e matches Error::Other(_),
{
    // The ancestor is implicit in each side's causal history; the merge
    // itself needs only the two sides.
    let _ = base;
    if ours.len() == 0 && theirs.len() == 0 {
        let mut fresh = am_new();
        return Ok(am_save(&mut fresh));
    }
    if ours.len() == 0 {
        match am_load(theirs) {
            Ok(_) => (),
            Err(e) => {
                return Err(e);
            },
        }
        return am_merge_bytes(theirs, theirs);
    }
    if theirs.len() == 0 {
        match am_load(ours) {
            Ok(_) => (),
            Err(e) => {
                return Err(e);
            },
        }
        return am_merge_bytes(ours, ours);
    }
    match am_load(ours) {
        Ok(_) => (),
        Err(e) => {
            return Err(e);
        },
    }
    match am_load(theirs) {
        Ok(_) => (),
        Err(e) => {
            return Err(e);
        },
    }
    am_merge_bytes(ours, theirs)
}

} // verus!
