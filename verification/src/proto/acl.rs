//! Messages of the access-control service, and their conversion to and from
//! the tuple model.
use vstd::prelude::*;
use crate::text::string_from;
use crate::tuple::{
    lemma_component_fault_none, object_result, subject_result_view,
    tuple_result, tuple_result_view, user_result, ObjectRef, ObjectView, ParseError,
    ParseErrorView, SubjectRef, SubjectView, Tuple as AclTuple, TupleView,
};

verus! {

/// A subject as sent by clients.
#[derive(Debug)]
pub enum Subject {
    User { namespace: String, id: String },
    UserSet { namespace: String, object_id: String, relation: String },
    Wildcard,
}

pub enum SubjectMessage {
    User { namespace: Seq<char>, id: Seq<char> },
    UserSet { namespace: Seq<char>, object_id: Seq<char>, relation: Seq<char> },
    Wildcard,
}

impl View for Subject {
    type V = SubjectMessage;

    open spec fn view(&self) -> SubjectMessage {
        match self {
            Subject::User { namespace, id } => SubjectMessage::User {
                namespace: namespace@,
                id: id@,
            },
            Subject::UserSet { namespace, object_id, relation } => SubjectMessage::UserSet {
                namespace: namespace@,
                object_id: object_id@,
                relation: relation@,
            },
            Subject::Wildcard => SubjectMessage::Wildcard,
        }
    }
}

/// A tuple as sent by clients.
#[derive(Debug)]
pub struct Tuple {
    pub namespace: String,
    pub object_id: String,
    pub relation: String,
    pub subject: Subject,
}

pub struct TupleMessage {
    pub namespace: Seq<char>,
    pub object_id: Seq<char>,
    pub relation: Seq<char>,
    pub subject: SubjectMessage,
}

impl View for Tuple {
    type V = TupleMessage;

    open spec fn view(&self) -> TupleMessage {
        TupleMessage {
            namespace: self.namespace@,
            object_id: self.object_id@,
            relation: self.relation@,
            subject: self.subject@,
        }
    }
}

#[derive(Debug)]
pub struct WriteRequest {
    pub writes: Vec<Tuple>,
    pub deletes: Vec<Tuple>,
}

#[derive(Debug)]
pub struct WriteResponse {
    pub written: usize,
    pub deleted: usize,
}

#[derive(Debug)]
pub struct CheckRequest {
    pub namespace: String,
    pub object_id: String,
    pub relation: String,
    pub subject: Subject,
}

#[derive(Debug)]
pub struct CheckResponse {
    pub allowed: bool,
}

#[derive(Debug)]
pub struct AclErrorBody {
    pub error: String,
    pub code: Option<String>,
}

/// The message form of a subject.
pub open spec fn subject_message(s: SubjectView) -> SubjectMessage {
    match s {
        SubjectView::User { object, relation: None } => SubjectMessage::User {
            namespace: object.namespace,
            id: object.id,
        },
        SubjectView::User { object, relation: Some(r) } => SubjectMessage::UserSet {
            namespace: object.namespace,
            object_id: object.id,
            relation: r,
        },
        SubjectView::Wildcard => SubjectMessage::Wildcard,
    }
}

/// The subject a message stands for, or why it stands for none.
pub open spec fn subject_from_message(m: SubjectMessage) -> Result<SubjectView, ParseErrorView> {
    match m {
        SubjectMessage::User { namespace, id } => match object_result(namespace, id) {
            Err(e) => Err(e),
            Ok(o) => user_result(o, None),
        },
        SubjectMessage::UserSet { namespace, object_id, relation } => match object_result(
            namespace,
            object_id,
        ) {
            Err(e) => Err(e),
            Ok(o) => user_result(o, Some(relation)),
        },
        SubjectMessage::Wildcard => Ok(SubjectView::Wildcard),
    }
}

/// The message form of a tuple.
pub open spec fn tuple_message(t: TupleView) -> TupleMessage {
    TupleMessage {
        namespace: t.object.namespace,
        object_id: t.object.id,
        relation: t.relation,
        subject: subject_message(t.subject),
    }
}

/// The tuple a message stands for, or why it stands for none: the object is
/// checked first, then the subject, then the relation.
pub open spec fn tuple_from_message(m: TupleMessage) -> Result<TupleView, ParseErrorView> {
    match object_result(m.namespace, m.object_id) {
        Err(e) => Err(e),
        Ok(o) => match subject_from_message(m.subject) {
            Err(e) => Err(e),
            Ok(s) => tuple_result(o, m.relation, s),
        },
    }
}

impl Subject {
    /// The message form of a subject.
    pub fn from(s: &SubjectRef) -> (r: Subject)
        ensures
            r@ == subject_message(s@),
    {
        match s {
            SubjectRef::User { object, relation: None } => Subject::User {
                namespace: string_from(object.namespace()),
                id: string_from(object.id()),
            },
            SubjectRef::User { object, relation: Some(rel) } => Subject::UserSet {
                namespace: string_from(object.namespace()),
                object_id: string_from(object.id()),
                relation: rel.clone(),
            },
            SubjectRef::Wildcard => Subject::Wildcard,
        }
    }
}

impl SubjectRef {
    /// The subject a message stands for.
    pub fn try_from(s: Subject) -> (r: Result<SubjectRef, ParseError>)
        ensures
            subject_result_view(r) == subject_from_message(s@),
    {
        match s {
            Subject::User { namespace, id } => {
                let obj = ObjectRef::new(namespace.as_str(), id.as_str())?;
                SubjectRef::user(obj, None)
            },
            Subject::UserSet { namespace, object_id, relation } => {
                let obj = ObjectRef::new(namespace.as_str(), object_id.as_str())?;
                SubjectRef::user(obj, Some(relation))
            },
            Subject::Wildcard => Ok(SubjectRef::Wildcard),
        }
    }
}

impl Tuple {
    /// The message form of a tuple.
    pub fn from(t: &AclTuple) -> (r: Tuple)
        ensures
            r@ == tuple_message(t@),
    {
        Tuple {
            namespace: string_from(t.object().namespace()),
            object_id: string_from(t.object().id()),
            relation: string_from(t.relation()),
            subject: Subject::from(t.subject()),
        }
    }
}

impl AclTuple {
    /// The tuple a message stands for.
    pub fn try_from(t: Tuple) -> (r: Result<AclTuple, ParseError>)
        ensures
            tuple_result_view(r) == tuple_from_message(t@),
    {
        let object = ObjectRef::new(t.namespace.as_str(), t.object_id.as_str())?;
        let subject = SubjectRef::try_from(t.subject)?;
        AclTuple::new(object, t.relation.as_str(), subject)
    }
}

proof fn lemma_object_parts(o: ObjectView)
    requires
        o.wf(),
    ensures
        object_result(o.namespace, o.id) == Ok::<ObjectView, ParseErrorView>(o),
{
    lemma_component_fault_none("namespace"@, o.namespace);
    lemma_component_fault_none("id"@, o.id);
}

/// Sending a well-formed subject as a message and reading it back gives the subject.
pub proof fn lemma_subject_message_roundtrip(s: SubjectView)
    requires
        s.wf(),
    ensures
        subject_from_message(subject_message(s)) == Ok::<SubjectView, ParseErrorView>(s),
{
    if let SubjectView::User { object, relation } = s {
        lemma_object_parts(object);
        if let Some(r) = relation {
            lemma_component_fault_none("relation"@, r);
        }
    }
}

/// Sending a well-formed tuple as a message and reading it back gives the tuple.
pub proof fn lemma_tuple_message_roundtrip(t: TupleView)
    requires
        t.wf(),
    ensures
        tuple_from_message(tuple_message(t)) == Ok::<TupleView, ParseErrorView>(t),
{
    lemma_object_parts(t.object);
    lemma_subject_message_roundtrip(t.subject);
    lemma_component_fault_none("relation"@, t.relation);
}

} // verus!
