//! What the access-control service decides around a request: which tuples a
//! request names, and how each error is answered.
use vstd::prelude::*;
use crate::check::{store_error_text, CheckError, CheckErrorView, StoreError, StoreErrorView};
use crate::proto::acl::{
    subject_from_message, tuple_from_message, AclErrorBody, CheckRequest, Tuple as TupleMessageBody,
    TupleMessage, WriteRequest,
};
use crate::text::{push_str, string_from};
use crate::tuple::{
    object_result, parse_error_text, ObjectRef, ObjectView, ParseError, ParseErrorView,
    SubjectRef, SubjectView, Tuple, TupleView,
};

verus! {

/// Errors of the access-control service, as values.
pub enum AclErrorView {
    BadRequest(Seq<char>),
    UnknownRelation { namespace: Seq<char>, relation: Seq<char> },
    Store(StoreErrorView),
}

/// Errors of the access-control service.
#[derive(Debug)]
pub enum AclError {
    BadRequest(String),
    UnknownRelation { namespace: String, relation: String },
    Store(StoreError),
}

impl View for AclError {
    type V = AclErrorView;

    open spec fn view(&self) -> AclErrorView {
        match self {
            AclError::BadRequest(m) => AclErrorView::BadRequest(m@),
            AclError::UnknownRelation { namespace, relation } => AclErrorView::UnknownRelation {
                namespace: namespace@,
                relation: relation@,
            },
            AclError::Store(e) => AclErrorView::Store(e@),
        }
    }
}

/// The service error for a syntax error: a bad request with its message.
pub open spec fn acl_error_of_parse(e: ParseErrorView) -> AclErrorView {
    AclErrorView::BadRequest(parse_error_text(e))
}

/// The service error for a check error.
pub open spec fn acl_error_of_check(e: CheckErrorView) -> AclErrorView {
    match e {
        CheckErrorView::UnknownRelation { namespace, relation } => AclErrorView::UnknownRelation {
            namespace,
            relation,
        },
        CheckErrorView::Store(s) => AclErrorView::Store(s),
    }
}

/// The message of a service error.
pub open spec fn acl_error_text(e: AclErrorView) -> Seq<char> {
    match e {
        AclErrorView::BadRequest(m) => "bad request: "@ + m,
        AclErrorView::UnknownRelation { namespace, relation } => "unknown relation "@ + namespace
            + "#"@ + relation,
        AclErrorView::Store(s) => "store: "@ + store_error_text(s),
    }
}

/// The HTTP status that answers a service error.
pub open spec fn acl_error_status(e: AclErrorView) -> u16 {
    match e {
        AclErrorView::BadRequest(_) => 400,
        AclErrorView::UnknownRelation { .. } => 404,
        AclErrorView::Store(_) => 500,
    }
}

/// The machine-readable code of a service error.
pub open spec fn acl_error_code(e: AclErrorView) -> Seq<char> {
    match e {
        AclErrorView::BadRequest(_) => "bad_request"@,
        AclErrorView::UnknownRelation { .. } => "unknown_relation"@,
        AclErrorView::Store(_) => "store_error"@,
    }
}

impl AclError {
    /// A request that names an invalid tuple is a bad request.
    pub fn from_parse_error(e: ParseError) -> (r: AclError)
        ensures
            r@ == acl_error_of_parse(e@),
    {
        AclError::BadRequest(e.message())
    }

    /// The service error for a check error.
    pub fn from_check_error(e: CheckError) -> (r: AclError)
        ensures
            r@ == acl_error_of_check(e@),
    {
        match e {
            CheckError::UnknownRelation { namespace, relation } => AclError::UnknownRelation {
                namespace,
                relation,
            },
            CheckError::Store(s) => AclError::Store(s),
        }
    }

    /// The service error for a failed store.
    pub fn from_store_error(e: StoreError) -> (r: AclError)
        ensures
            r@ == AclErrorView::Store(e@),
    {
        AclError::Store(e)
    }

    /// The error's message.
    pub fn message(&self) -> (r: String)
        ensures
            r@ == acl_error_text(self@),
    {
        match self {
            AclError::BadRequest(m) => {
                let mut r = string_from("bad request: ");
                push_str(&mut r, m.as_str());
                r
            },
            AclError::UnknownRelation { namespace, relation } => {
                let mut r = string_from("unknown relation ");
                push_str(&mut r, namespace.as_str());
                push_str(&mut r, "#");
                push_str(&mut r, relation.as_str());
                r
            },
            AclError::Store(s) => {
                let mut r = string_from("store: ");
                let m = s.message();
                push_str(&mut r, m.as_str());
                r
            },
        }
    }

    /// The HTTP status and body that answer the error.
    pub fn response(&self) -> (r: (u16, AclErrorBody))
        ensures
            r.0 == acl_error_status(self@),
            r.1.error@ == acl_error_text(self@),
            r.1.code matches Some(c) && c@ == acl_error_code(self@),
    {
        let (status, code) = match self {
            AclError::BadRequest(_) => (400u16, "bad_request"),
            AclError::UnknownRelation { .. } => (404u16, "unknown_relation"),
            AclError::Store(_) => (500u16, "store_error"),
        };
        (status, AclErrorBody { error: self.message(), code: Some(string_from(code)) })
    }
}

/// The question a check request asks, or why it asks none: the object is read
/// first, then the subject.
pub open spec fn check_question(req: (Seq<char>, Seq<char>, Seq<char>, crate::proto::acl::SubjectMessage)) -> Result<
    (ObjectView, Seq<char>, SubjectView),
    AclErrorView,
> {
    match object_result(req.0, req.1) {
        Err(e) => Err(acl_error_of_parse(e)),
        Ok(o) => match subject_from_message(req.3) {
            Err(e) => Err(acl_error_of_parse(e)),
            Ok(s) => Ok((o, req.2, s)),
        },
    }
}

pub open spec fn question_view(r: Result<(ObjectRef, String, SubjectRef), AclError>) -> Result<
    (ObjectView, Seq<char>, SubjectView),
    AclErrorView,
> {
    match r {
        Ok((o, rel, s)) => Ok((o@, rel@, s@)),
        Err(e) => Err(e@),
    }
}

/// The object, relation and subject of a check request.
pub fn check_request_question(req: CheckRequest) -> (r: Result<
    (ObjectRef, String, SubjectRef),
    AclError,
>)
    ensures
        question_view(r) == check_question(
            (req.namespace@, req.object_id@, req.relation@, req.subject@),
        ),
{
    let object = match ObjectRef::new(req.namespace.as_str(), req.object_id.as_str()) {
        Ok(o) => o,
        Err(e) => return Err(AclError::from_parse_error(e)),
    };
    let subject = match SubjectRef::try_from(req.subject) {
        Ok(s) => s,
        Err(e) => return Err(AclError::from_parse_error(e)),
    };
    Ok((object, req.relation, subject))
}

/// The tuples that a list of messages stand for, or the first message's error.
pub open spec fn tuples_from_messages(ms: Seq<TupleMessage>) -> Result<Seq<TupleView>, ParseErrorView>
    decreases ms.len(),
{
    if ms.len() == 0 {
        Ok(Seq::empty())
    } else {
        match tuples_from_messages(ms.subrange(0, ms.len() - 1)) {
            Err(e) => Err(e),
            Ok(ts) => match tuple_from_message(ms[ms.len() - 1]) {
                Err(e) => Err(e),
                Ok(t) => Ok(ts.push(t)),
            },
        }
    }
}

pub open spec fn messages_view(v: Seq<TupleMessageBody>) -> Seq<TupleMessage> {
    v.map_values(|t: TupleMessageBody| t@)
}

pub open spec fn tuples_view(v: Seq<Tuple>) -> Seq<TupleView> {
    v.map_values(|t: Tuple| t@)
}

fn tuples_from(ms: Vec<TupleMessageBody>) -> (r: Result<Vec<Tuple>, ParseError>)
    ensures
        match tuples_from_messages(messages_view(ms@)) {
            Ok(ts) => r matches Ok(v) && tuples_view(v@) == ts,
            Err(e) => r matches Err(x) && x@ == e,
        },
{
    let ghost all = messages_view(ms@);
    let mut rest = ms;
    let mut out: Vec<Tuple> = Vec::new();
    let ghost mut i: int = 0;
    assert(all.subrange(0, 0) =~= Seq::<TupleMessage>::empty());
    assert(tuples_view(out@) =~= Seq::<TupleView>::empty());
    while rest.len() > 0
        invariant
            all == messages_view(ms@),
            0 <= i <= all.len(),
            messages_view(rest@) == all.subrange(i, all.len() as int),
            tuples_from_messages(all.subrange(0, i)) == Ok::<Seq<TupleView>, ParseErrorView>(
                tuples_view(out@),
            ),
        decreases rest.len(),
    {
        let ghost old_rest = rest@;
        let m = rest.remove(0);
        proof {
            assert(messages_view(old_rest).len() == old_rest.len());
            assert(messages_view(old_rest)[0] == all.subrange(i, all.len() as int)[0]);
            assert(all[i] == m@);
            assert(all.subrange(0, i + 1).subrange(0, i) =~= all.subrange(0, i));
        }
        match Tuple::try_from(m) {
            Ok(t) => {
                proof {
                    let pre = all.subrange(0, i + 1);
                    assert(pre.subrange(0, pre.len() - 1) =~= all.subrange(0, i));
                    assert(pre[pre.len() - 1] == m@);
                }
                let ghost before = tuples_view(out@);
                let ghost tv = t@;
                out.push(t);
                assert(tuples_view(out@) =~= before.push(tv));
            },
            Err(e) => {
                proof {
                    let pre = all.subrange(0, i + 1);
                    assert(pre.subrange(0, pre.len() - 1) =~= all.subrange(0, i));
                    assert(pre[pre.len() - 1] == m@);
                    assert(tuples_from_messages(pre) == Err::<Seq<TupleView>, ParseErrorView>(e@));
                    assert(i + 1 <= all.len());
                    lemma_prefix_error(all, i + 1);
                    assert(tuples_from_messages(all) == Err::<Seq<TupleView>, ParseErrorView>(e@));
                }
                return Err(e);
            },
        }
        proof {
            i = i + 1;
            assert forall|k: int| 0 <= k < rest@.len() implies #[trigger] messages_view(rest@)[k]
                == all[i + k] by {
                assert(rest@[k] == old_rest[k + 1]);
                assert(messages_view(old_rest)[k + 1] == all.subrange(i - 1, all.len() as int)[k
                    + 1]);
            }
            assert(messages_view(rest@) =~= all.subrange(i, all.len() as int));
        }
    }
    assert(all.subrange(0, i) =~= all);
    Ok(out)
}

/// An error in a prefix is the error of the whole list.
proof fn lemma_prefix_error(ms: Seq<TupleMessage>, n: int)
    requires
        0 <= n <= ms.len(),
        tuples_from_messages(ms.subrange(0, n)) is Err,
    ensures
        tuples_from_messages(ms) == tuples_from_messages(ms.subrange(0, n)),
    decreases ms.len() - n,
{
    if n < ms.len() {
        assert(ms.subrange(0, n + 1).subrange(0, n) =~= ms.subrange(0, n));
        lemma_prefix_error(ms, n + 1);
    } else {
        assert(ms.subrange(0, n) =~= ms);
    }
}

/// Whether a subject of `ts` is the wildcard.
pub open spec fn has_wildcard_subject(ts: Seq<TupleView>) -> bool {
    exists|i: int| 0 <= i < ts.len() && (#[trigger] ts[i]).subject is Wildcard
}

/// The message that refuses to store a tuple whose subject is the wildcard.
pub open spec fn wildcard_refusal() -> Seq<char> {
    "a wildcard subject cannot be stored"@
}

/// The tuples a write request names, or the first error: writes are read
/// before deletes, and a request whose tuples name the wildcard as subject is
/// refused, since the store holds no wildcard.
pub open spec fn write_batches(writes: Seq<TupleMessage>, deletes: Seq<TupleMessage>) -> Result<
    (Seq<TupleView>, Seq<TupleView>),
    AclErrorView,
> {
    match tuples_from_messages(writes) {
        Err(e) => Err(acl_error_of_parse(e)),
        Ok(w) => match tuples_from_messages(deletes) {
            Err(e) => Err(acl_error_of_parse(e)),
            Ok(d) => if has_wildcard_subject(w) || has_wildcard_subject(d) {
                Err(AclErrorView::BadRequest(wildcard_refusal()))
            } else {
                Ok((w, d))
            },
        },
    }
}

fn any_wildcard(ts: &Vec<Tuple>) -> (r: bool)
    ensures
        r == has_wildcard_subject(tuples_view(ts@)),
{
    let ghost tv = tuples_view(ts@);
    let mut i: usize = 0;
    while i < ts.len()
        invariant
            0 <= i <= ts.len(),
            tv == tuples_view(ts@),
            tv.len() == ts.len(),
            forall|k: int| 0 <= k < i ==> !((#[trigger] tv[k]).subject is Wildcard),
        decreases ts.len() - i,
    {
        assert(tv[i as int] == ts@[i as int]@);
        match ts[i].subject() {
            SubjectRef::Wildcard => {
                return true;
            },
            SubjectRef::User { .. } => {},
        }
        i = i + 1;
    }
    false
}

pub open spec fn batches_view(r: Result<(Vec<Tuple>, Vec<Tuple>), AclError>) -> Result<
    (Seq<TupleView>, Seq<TupleView>),
    AclErrorView,
> {
    match r {
        Ok((w, d)) => Ok((tuples_view(w@), tuples_view(d@))),
        Err(e) => Err(e@),
    }
}

/// The tuples to write and to delete that a write request names.
pub fn write_request_tuples(req: WriteRequest) -> (r: Result<(Vec<Tuple>, Vec<Tuple>), AclError>)
    ensures
        batches_view(r) == write_batches(messages_view(req.writes@), messages_view(req.deletes@)),
{
    let writes = match tuples_from(req.writes) {
        Ok(w) => w,
        Err(e) => return Err(AclError::from_parse_error(e)),
    };
    let deletes = match tuples_from(req.deletes) {
        Ok(d) => d,
        Err(e) => return Err(AclError::from_parse_error(e)),
    };
    if any_wildcard(&writes) || any_wildcard(&deletes) {
        return Err(AclError::BadRequest(string_from("a wildcard subject cannot be stored")));
    }
    Ok((writes, deletes))
}

/// Where the access-control service listens and what it reads.
pub struct Config {
    pub addr: String,
    pub schema_path: String,
    pub database_url: String,
    pub jwt_secret: String,
}

/// The address used when none is configured.
pub open spec fn default_addr() -> Seq<char> {
    "0.0.0.0:8081"@
}

impl Config {
    /// A configuration from settings that may be missing: the address has a
    /// default; the others are required, and the first one missing (schema
    /// path, then database URL, then JWT secret) is reported by name.
    pub fn from_settings(
        addr: Option<String>,
        schema_path: Option<String>,
        database_url: Option<String>,
        jwt_secret: Option<String>,
    ) -> (r: Result<Config, String>)
        ensures
            match (schema_path, database_url, jwt_secret) {
                (Some(s), Some(d), Some(j)) => r matches Ok(c) && c.schema_path@ == s@
                    && c.database_url@ == d@ && c.jwt_secret@ == j@ && c.addr@ == (match addr {
                    Some(a) => a@,
                    None => default_addr(),
                }),
                (None, _, _) => r matches Err(m) && m@ == "SCHEMA_PATH not set"@,
                (Some(_), None, _) => r matches Err(m) && m@ == "DATABASE_URL not set"@,
                (Some(_), Some(_), None) => r matches Err(m) && m@ == "JWT_SECRET not set"@,
            },
    {
        let addr = match addr {
            Some(a) => a,
            None => string_from("0.0.0.0:8081"),
        };
        let schema_path = match schema_path {
            Some(s) => s,
            None => return Err(string_from("SCHEMA_PATH not set")),
        };
        let database_url = match database_url {
            Some(d) => d,
            None => return Err(string_from("DATABASE_URL not set")),
        };
        let jwt_secret = match jwt_secret {
            Some(j) => j,
            None => return Err(string_from("JWT_SECRET not set")),
        };
        Ok(Config { addr, schema_path, database_url, jwt_secret })
    }
}

/// The error for a schema file that could not be read.
pub fn unreadable_schema(path: &str, reason: &str) -> (r: crate::schema::SchemaError)
    ensures
        r@ == (crate::schema::SchemaErrorView::Parse {
            message: "failed to read schema file '"@ + path@ + "': "@ + reason@,
            start: 0,
            end: 0,
        }),
{
    let mut message = string_from("failed to read schema file '");
    push_str(&mut message, path);
    push_str(&mut message, "': ");
    push_str(&mut message, reason);
    crate::schema::SchemaError::Parse { message, span: std::ops::Range { start: 0, end: 0 } }
}

} // verus!
