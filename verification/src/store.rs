//! How tuples are laid out in rows of a relational store: each subject takes
//! three columns, namespace, id and relation, with the empty relation for a
//! plain object. The wildcard has no columns: it is never stored, and every
//! row reads back as an object subject or as corrupt data.
use vstd::prelude::*;
use crate::check::{StoreError, StoreErrorView};
use crate::text::string_from;
use crate::tuple::{
    lemma_component_fault_none, object_result, parse_error_text,
    tuple_result, user_result, ObjectRef, ParseError, ParseErrorView, SubjectRef, SubjectView, Tuple, TupleView,
};

verus! {

/// The columns of a subject, if it has any: the wildcard has none.
pub open spec fn subject_parts(s: SubjectView) -> Option<(Seq<char>, Seq<char>, Seq<char>)> {
    match s {
        SubjectView::User { object, relation: None } => Some(
            (object.namespace, object.id, Seq::empty()),
        ),
        SubjectView::User { object, relation: Some(r) } => Some((object.namespace, object.id, r)),
        SubjectView::Wildcard => None,
    }
}

/// A stored row that is not valid becomes corrupt data, with the syntax error's message.
pub open spec fn corrupt(e: ParseErrorView) -> StoreErrorView {
    StoreErrorView::CorruptData(parse_error_text(e))
}

/// The subject that three columns hold.
pub open spec fn subject_from_parts(ns: Seq<char>, id: Seq<char>, rel: Seq<char>) -> Result<
    SubjectView,
    StoreErrorView,
> {
    match object_result(ns, id) {
        Err(e) => Err(corrupt(e)),
        Ok(o) => match user_result(
            o,
            if rel.len() == 0 {
                None
            } else {
                Some(rel)
            },
        ) {
            Err(e) => Err(corrupt(e)),
            Ok(s) => Ok(s),
        },
    }
}

/// The tuple that six columns hold.
pub open spec fn tuple_from_parts(
    obj_ns: Seq<char>,
    obj_id: Seq<char>,
    rel: Seq<char>,
    subj_ns: Seq<char>,
    subj_id: Seq<char>,
    subj_rel: Seq<char>,
) -> Result<TupleView, StoreErrorView> {
    match object_result(obj_ns, obj_id) {
        Err(e) => Err(corrupt(e)),
        Ok(o) => match subject_from_parts(subj_ns, subj_id, subj_rel) {
            Err(e) => Err(e),
            Ok(s) => match tuple_result(o, rel, s) {
                Err(e) => Err(corrupt(e)),
                Ok(t) => Ok(t),
            },
        },
    }
}

pub open spec fn stored_subject_view(r: Result<SubjectRef, StoreError>) -> Result<
    SubjectView,
    StoreErrorView,
> {
    match r {
        Ok(s) => Ok(s@),
        Err(e) => Err(e@),
    }
}

pub open spec fn stored_tuple_view(r: Result<Tuple, StoreError>) -> Result<TupleView, StoreErrorView> {
    match r {
        Ok(t) => Ok(t@),
        Err(e) => Err(e@),
    }
}

/// The columns of a subject; `None` for the wildcard, which cannot be stored.
pub fn subject_to_parts(s: &SubjectRef) -> (r: Option<(String, String, String)>)
    ensures
        r is None <==> s@ is Wildcard,
        r matches Some(p) ==> subject_parts(s@) == Some((p.0@, p.1@, p.2@)),
{
    match s {
        SubjectRef::User { object, relation } => {
            let rel = match relation {
                Some(r) => r.clone(),
                None => String::new(),
            };
            Some((string_from(object.namespace()), string_from(object.id()), rel))
        },
        SubjectRef::Wildcard => None,
    }
}

fn corrupt_data(e: ParseError) -> (r: StoreError)
    ensures
        r@ == corrupt(e@),
{
    StoreError::CorruptData(e.message())
}

/// The subject that three columns hold.
pub fn row_to_subject(ns: &str, id: &str, rel: &str) -> (r: Result<SubjectRef, StoreError>)
    ensures
        stored_subject_view(r) == subject_from_parts(ns@, id@, rel@),
{
    let obj = match ObjectRef::new(ns, id) {
        Ok(o) => o,
        Err(e) => return Err(corrupt_data(e)),
    };
    let relation = if rel.is_empty() {
        None
    } else {
        Some(string_from(rel))
    };
    match SubjectRef::user(obj, relation) {
        Ok(s) => Ok(s),
        Err(e) => Err(corrupt_data(e)),
    }
}

/// The tuple that six columns hold.
pub fn row_to_tuple(
    obj_ns: &str,
    obj_id: &str,
    rel: &str,
    subj_ns: &str,
    subj_id: &str,
    subj_rel: &str,
) -> (r: Result<Tuple, StoreError>)
    ensures
        stored_tuple_view(r) == tuple_from_parts(obj_ns@, obj_id@, rel@, subj_ns@, subj_id@, subj_rel@),
{
    let obj = match ObjectRef::new(obj_ns, obj_id) {
        Ok(o) => o,
        Err(e) => return Err(corrupt_data(e)),
    };
    let subj = row_to_subject(subj_ns, subj_id, subj_rel)?;
    match Tuple::new(obj, rel, subj) {
        Ok(t) => Ok(t),
        Err(e) => Err(corrupt_data(e)),
    }
}

/// A well-formed subject other than the wildcard, read back from its columns,
/// is that subject.
pub proof fn lemma_subject_parts_roundtrip(s: SubjectView)
    requires
        s.wf(),
        s is User,
    ensures
        subject_parts(s) matches Some(p) && subject_from_parts(p.0, p.1, p.2) == Ok::<
            SubjectView,
            StoreErrorView,
        >(s),
{
    if let SubjectView::User { object, relation } = s {
        lemma_component_fault_none("namespace"@, object.namespace);
        lemma_component_fault_none("id"@, object.id);
        if let Some(r) = relation {
            lemma_component_fault_none("relation"@, r);
        }
    }
}

/// A well-formed tuple whose subject is not the wildcard, read back from its
/// columns, is that tuple.
pub proof fn lemma_tuple_parts_roundtrip(t: TupleView)
    requires
        t.wf(),
        t.subject is User,
    ensures
        subject_parts(t.subject) matches Some(p) && tuple_from_parts(
            t.object.namespace,
            t.object.id,
            t.relation,
            p.0,
            p.1,
            p.2,
        ) == Ok::<TupleView, StoreErrorView>(t),
{
    lemma_component_fault_none("namespace"@, t.object.namespace);
    lemma_component_fault_none("id"@, t.object.id);
    lemma_component_fault_none("relation"@, t.relation);
    lemma_subject_parts_roundtrip(t.subject);
}

/// No row reads back as the wildcard: a row whose object is not valid is
/// corrupt data, with the object's syntax error.
pub proof fn lemma_rows_hold_no_wildcard(ns: Seq<char>, id: Seq<char>, rel: Seq<char>)
    ensures
        subject_from_parts(ns, id, rel) matches Ok(s) ==> s is User,
        object_result(ns, id) matches Err(e) ==> subject_from_parts(ns, id, rel) == Err::<
            SubjectView,
            StoreErrorView,
        >(corrupt(e)),
{
}

} // verus!
