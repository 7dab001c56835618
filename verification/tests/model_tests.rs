use securebase::api::{check_request_question, unreadable_schema, write_request_tuples, AclError, Config};
use securebase::auth::{
    bearer_token, logout_reply, session_reply, upstream_endpoint, upstream_error, upstream_error_status,
    upstream_succeeded, upstream_url, AuthError, AuthReply, LogoutOutcome, SessionOutcome,
};
use securebase::proto::auth::{Session, TokenClaims};
use securebase::check::{CheckError, StoreError};
use securebase::proto::acl::{CheckRequest, Subject, Tuple as TupleMessage, WriteRequest};
use securebase::schema::{parse_schema, Rewrite, Schema, SchemaError, TypeDef};
use securebase::store::{row_to_subject, row_to_tuple, subject_to_parts};
use securebase::tuple::{parse_object_ref, ObjectRef, ParseError, SubjectRef, Tuple};

#[test]
fn parse_error_messages() {
    assert_eq!(ParseError::MissingRelationSeparator.message(), "missing '#' relation separator");
    assert_eq!(ParseError::MissingSubjectSeparator.message(), "missing '@' subject separator");
    assert_eq!(
        ParseError::MissingNamespaceSeparator("docreadme".into()).message(),
        "missing ':' namespace separator in 'docreadme'"
    );
    assert_eq!(ParseError::EmptyComponent("id").message(), "empty id");
    assert_eq!(
        ParseError::ReservedCharacter('@').message(),
        "component contains reserved character: '@'"
    );
}

#[test]
fn parse_object_ref_splits_at_first_colon() {
    assert_eq!(parse_object_ref("doc"), Err(ParseError::MissingNamespaceSeparator("doc".into())));
    assert_eq!(parse_object_ref("doc:a:b"), Err(ParseError::ReservedCharacter(':')));
    let o = parse_object_ref("doc:a").unwrap();
    assert_eq!((o.namespace(), o.id()), ("doc", "a"));
}

#[test]
fn tuple_subject_relation_is_validated() {
    assert_eq!(
        "doc:a#viewer@group:eng#mem@ber".parse::<Tuple>(),
        Err(ParseError::ReservedCharacter('@'))
    );
    assert_eq!(
        "doc:a#viewer@group".parse::<Tuple>(),
        Err(ParseError::MissingNamespaceSeparator("group".into()))
    );
}

#[test]
fn subject_columns_roundtrip() {
    for text in ["doc:a#viewer@user:alice", "doc:a#viewer@group:eng#member"] {
        let t: Tuple = text.parse().unwrap();
        let (ns, id, rel) = subject_to_parts(t.subject()).unwrap();
        let back = row_to_subject(&ns, &id, &rel).unwrap();
        assert_eq!(&back, t.subject());
        let o = t.object();
        let again = row_to_tuple(o.namespace(), o.id(), t.relation(), &ns, &id, &rel).unwrap();
        assert_eq!(again, t);
    }
    assert_eq!(subject_to_parts(&SubjectRef::wildcard()), None);
    let u = subject_to_parts(&SubjectRef::user(ObjectRef::new("user", "a").unwrap(), None).unwrap());
    assert_eq!(u, Some(("user".to_string(), "a".to_string(), String::new())));
}

#[test]
fn wildcard_row_is_corrupt() {
    match row_to_subject("*", "", "") {
        Err(StoreError::CorruptData(m)) => assert_eq!(m, "empty id"),
        other => panic!("unexpected {other:?}"),
    }
}

#[test]
fn corrupt_rows_are_reported() {
    match row_to_subject("", "alice", "") {
        Err(StoreError::CorruptData(m)) => assert_eq!(m, "empty namespace"),
        other => panic!("unexpected {other:?}"),
    }
    match row_to_tuple("doc", "a", "vie#wer", "user", "alice", "") {
        Err(StoreError::CorruptData(m)) => assert_eq!(m, "component contains reserved character: '#'"),
        other => panic!("unexpected {other:?}"),
    }
}

#[test]
fn messages_roundtrip() {
    for text in ["doc:a#viewer@user:alice", "doc:a#viewer@group:eng#member", "doc:a#viewer@*"] {
        let t: Tuple = text.parse().unwrap();
        let m = TupleMessage::from(&t);
        let back = Tuple::try_from(m).unwrap();
        assert_eq!(back, t);
    }
    let t: Tuple = "doc:a#viewer@group:eng#member".parse().unwrap();
    match TupleMessage::from(&t).subject {
        Subject::UserSet { namespace, object_id, relation } => {
            assert_eq!((namespace.as_str(), object_id.as_str(), relation.as_str()), ("group", "eng", "member"));
        }
        other => panic!("unexpected {other:?}"),
    }
}

#[test]
fn message_errors_in_order() {
    let bad = TupleMessage {
        namespace: "".into(),
        object_id: "a".into(),
        relation: "".into(),
        subject: Subject::User { namespace: "user".into(), id: "".into() },
    };
    assert_eq!(Tuple::try_from(bad), Err(ParseError::EmptyComponent("namespace")));
    let bad = TupleMessage {
        namespace: "doc".into(),
        object_id: "a".into(),
        relation: "".into(),
        subject: Subject::User { namespace: "user".into(), id: "".into() },
    };
    assert_eq!(Tuple::try_from(bad), Err(ParseError::EmptyComponent("id")));
    assert_eq!(
        SubjectRef::try_from(Subject::UserSet { namespace: "g".into(), object_id: "e".into(), relation: "".into() }),
        Err(ParseError::EmptyComponent("relation"))
    );
    assert_eq!(SubjectRef::try_from(Subject::Wildcard), Ok(SubjectRef::wildcard()));
}

fn msg(ns: &str, id: &str, rel: &str, user: &str) -> TupleMessage {
    TupleMessage {
        namespace: ns.into(),
        object_id: id.into(),
        relation: rel.into(),
        subject: Subject::User { namespace: "user".into(), id: user.into() },
    }
}

#[test]
fn write_request_converts_or_reports_first_error() {
    let req = WriteRequest { writes: vec![msg("doc", "a", "viewer", "alice"), msg("doc", "b", "owner", "bob")], deletes: vec![msg("doc", "a", "viewer", "carol")] };
    let (w, d) = write_request_tuples(req).unwrap();
    assert_eq!(w.len(), 2);
    assert_eq!(d.len(), 1);
    assert_eq!(w[1].to_string(), "doc:b#owner@user:bob");
    let req = WriteRequest { writes: vec![msg("doc", "a", "", "alice"), msg("", "b", "owner", "bob")], deletes: vec![] };
    match write_request_tuples(req) {
        Err(AclError::BadRequest(m)) => assert_eq!(m, "empty relation"),
        other => panic!("unexpected {other:?}"),
    }
}

#[test]
fn write_request_refuses_wildcard_subjects() {
    let star = TupleMessage {
        namespace: "doc".into(),
        object_id: "a".into(),
        relation: "viewer".into(),
        subject: Subject::Wildcard,
    };
    let req = WriteRequest { writes: vec![msg("doc", "a", "viewer", "alice")], deletes: vec![star] };
    match write_request_tuples(req) {
        Err(AclError::BadRequest(m)) => assert_eq!(m, "a wildcard subject cannot be stored"),
        other => panic!("unexpected {other:?}"),
    }
}

#[test]
fn check_request_question_reads_parts() {
    let req = CheckRequest {
        namespace: "doc".into(),
        object_id: "a".into(),
        relation: "viewer".into(),
        subject: Subject::User { namespace: "user".into(), id: "alice".into() },
    };
    let (o, r, s) = check_request_question(req).unwrap();
    assert_eq!(o.to_string(), "doc:a");
    assert_eq!(r, "viewer");
    assert_eq!(s.to_string(), "user:alice");
    let bad = CheckRequest {
        namespace: "d:oc".into(),
        object_id: "a".into(),
        relation: "viewer".into(),
        subject: Subject::Wildcard,
    };
    match check_request_question(bad) {
        Err(AclError::BadRequest(m)) => assert_eq!(m, "component contains reserved character: ':'"),
        other => panic!("unexpected {other:?}"),
    }
}

#[test]
fn acl_error_responses() {
    let e = AclError::from_parse_error(ParseError::EmptyComponent("id"));
    let (status, body) = e.response();
    assert_eq!(status, 400);
    assert_eq!(body.error, "bad request: empty id");
    assert_eq!(body.code.as_deref(), Some("bad_request"));
    let e = AclError::from_check_error(CheckError::UnknownRelation { namespace: "doc".into(), relation: "x".into() });
    let (status, body) = e.response();
    assert_eq!(status, 404);
    assert_eq!(body.error, "unknown relation doc#x");
    assert_eq!(body.code.as_deref(), Some("unknown_relation"));
    let e = AclError::from_check_error(CheckError::Store(StoreError::backend("down")));
    let (status, body) = e.response();
    assert_eq!(status, 500);
    assert_eq!(body.error, "store: storage backend: down");
    assert_eq!(body.code.as_deref(), Some("store_error"));
    assert_eq!(AclError::from_store_error(StoreError::CorruptData("x".into())).message(), "store: corrupt stored data: x");
}

#[test]
fn config_from_settings() {
    let c = Config::from_settings(None, Some("s.fga".into()), Some("postgres://db".into()), Some("k".into())).unwrap();
    assert_eq!(c.addr, "0.0.0.0:8081");
    assert_eq!(c.schema_path, "s.fga");
    let c = Config::from_settings(Some("127.0.0.1:9".into()), Some("s".into()), Some("d".into()), Some("k".into())).unwrap();
    assert_eq!(c.addr, "127.0.0.1:9");
    assert_eq!(Config::from_settings(None, None, None, None).err().unwrap(), "SCHEMA_PATH not set");
    assert_eq!(Config::from_settings(None, Some("s".into()), None, None).err().unwrap(), "DATABASE_URL not set");
    assert_eq!(Config::from_settings(None, Some("s".into()), Some("d".into()), None).err().unwrap(), "JWT_SECRET not set");
}

#[test]
fn unreadable_schema_error() {
    match unreadable_schema("/etc/x.fga", "No such file") {
        SchemaError::Parse { message, span } => {
            assert_eq!(message, "failed to read schema file '/etc/x.fga': No such file");
            assert_eq!(span, 0..0);
        }
        other => panic!("unexpected {other:?}"),
    }
}

#[test]
fn bearer_tokens() {
    assert_eq!(bearer_token(Some(Some("Bearer abc.def"))).unwrap(), "abc.def");
    assert!(matches!(bearer_token(None), Err(AuthError::MissingHeader)));
    assert!(matches!(bearer_token(Some(None)), Err(AuthError::MalformedHeader)));
    assert!(matches!(bearer_token(Some(Some("Basic abc"))), Err(AuthError::MalformedHeader)));
    assert!(matches!(bearer_token(Some(Some("Bearer"))), Err(AuthError::MalformedHeader)));
    assert_eq!(bearer_token(Some(Some("Bearer "))).unwrap(), "");
}

#[test]
fn auth_error_messages() {
    assert_eq!(AuthError::MissingHeader.message(), "missing Authorization header");
    assert_eq!(AuthError::MalformedHeader.message(), "malformed Authorization header");
    assert_eq!(AuthError::InvalidToken("ExpiredSignature".into()).message(), "invalid token: ExpiredSignature");
    assert_eq!(AuthError::MissingHeader.status(), 401);
}

#[test]
fn upstream_statuses() {
    assert_eq!(upstream_error_status(401), 401);
    assert_eq!(upstream_error_status(422), 400);
    assert_eq!(upstream_error_status(500), 502);
    assert_eq!(upstream_error_status(503), 502);
}

#[test]
fn upstream_endpoints() {
    assert_eq!(upstream_endpoint("http://gotrue:9999/"), "http://gotrue:9999");
    assert_eq!(upstream_endpoint("http://gotrue:9999//"), "http://gotrue:9999");
    assert_eq!(upstream_endpoint("http://gotrue:9999"), "http://gotrue:9999");
    assert_eq!(upstream_endpoint("/"), "");
}

#[test]
fn upstream_error_bodies() {
    let (m, c) = upstream_error(br#"{"error_description":"Invalid login credentials","error":"invalid_grant","error_code":"invalid_credentials"}"#);
    assert_eq!(m, "Invalid login credentials");
    assert_eq!(c.as_deref(), Some("invalid_credentials"));
    let (m, c) = upstream_error(br#"{"msg":"User already registered"}"#);
    assert_eq!(m, "User already registered");
    assert_eq!(c, None);
    let (m, _) = upstream_error(br#"{"error":"bad","msg":5}"#);
    assert_eq!(m, "bad");
    let (m, c) = upstream_error(b"not json");
    assert_eq!(m, "auth error");
    assert_eq!(c, None);
}

#[test]
fn later_definitions_override() {
    let schema = parse_schema(
        "type doc\n  relations\n    define viewer: [user]\n    define viewer: [user] or editor\n    define editor: [user]\ntype doc",
    )
    .unwrap();
    assert_eq!(schema.type_count(), 1);
    assert!(schema.get_rewrite("doc", "viewer").is_none());
    let schema = parse_schema(
        "type doc\n  relations\n    define viewer: [user]\n    define viewer: [user] or editor\n    define editor: [user]",
    )
    .unwrap();
    assert!(matches!(schema.get_rewrite("doc", "viewer"), Some(Rewrite::Union(v)) if v.len() == 2));
    let t = schema.type_def("doc").unwrap();
    assert_eq!(t.relations.len(), 2);
    assert_eq!(t.relations[0].0, "viewer");
}

#[test]
fn schema_new_keeps_last_type() {
    let a = TypeDef { name: "doc".into(), relations: vec![("x".into(), Rewrite::This { allowed: vec![] })] };
    let b = TypeDef { name: "doc".into(), relations: vec![] };
    let c = TypeDef { name: "user".into(), relations: vec![] };
    let schema = Schema::new(vec![a, b, c]);
    assert_eq!(schema.type_count(), 2);
    assert!(schema.get_rewrite("doc", "x").is_none());
    assert!(schema.has_type("user"));
}

#[test]
fn schema_syntax_error_span_is_in_bytes() {
    match parse_schema("type ab\u{a0}\u{e9}").unwrap_err().as_slice() {
        [SchemaError::Parse { message, span }] => {
            assert_eq!(span.clone(), 9..11);
            assert_eq!(message, "unexpected input: expected a type definition or the end of the schema");
        }
        other => panic!("unexpected {other:?}"),
    }
}

#[test]
fn upstream_urls() {
    assert_eq!(upstream_url("http://auth:9999", "/logout"), "http://auth:9999/logout");
    assert_eq!(upstream_url("", "/signup"), "/signup");
}

#[test]
fn schema_syntax_error_position() {
    match parse_schema("type doc\n  relations\n    define viewer: [user] or").unwrap_err().as_slice() {
        [SchemaError::Parse { span, .. }] => assert_eq!(span.start, 47),
        other => panic!("unexpected {other:?}"),
    }
    assert!(parse_schema("type doc relations define v: [user] but blocked").is_err());
    assert!(parse_schema("type doc relations define v: or").is_err());
    assert!(parse_schema("type doc relations define v: [user:]").is_err());
    assert!(parse_schema("type doc relations define v: [user#]").is_err());
    assert!(parse_schema("type doc relations define v: v from").is_err());
    assert!(parse_schema("type relations").is_ok());
}

#[test]
fn schema_whitespace_and_grouping() {
    let schema = parse_schema(
        "\t type  doc relations define a: [user] define b: [user]define v:(a and b)or a\u{a0}",
    )
    .unwrap();
    let r = schema.get_rewrite("doc", "v").unwrap();
    let Rewrite::Union(v) = r else { panic!("expected Union, got {r:?}") };
    assert!(matches!(&v[0], Rewrite::Intersection(i) if i.len() == 2));
    let schema = parse_schema("type doc relations define a: [user] define v: (a or a) or a").unwrap();
    assert!(matches!(schema.get_rewrite("doc", "v"), Some(Rewrite::Union(v)) if v.len() == 3));
    let schema = parse_schema("type doc relations define a: [user] define v: a or (a or a)").unwrap();
    assert!(matches!(schema.get_rewrite("doc", "v"), Some(Rewrite::Union(v)) if v.len() == 2));
}

#[test]
fn relation_splits_at_last_hash() {
    assert_eq!(
        "doc:a#b#viewer@user:x".parse::<Tuple>(),
        Err(ParseError::ReservedCharacter('#'))
    );
    assert_eq!(
        "doc:a#viewer@user:x@y".parse::<Tuple>(),
        Err(ParseError::ReservedCharacter('@'))
    );
}

fn failure_parts(r: AuthReply) -> (u16, String, Option<String>) {
    match r {
        AuthReply::Failure { status, body } => (status, body.error, body.code),
        _ => panic!("expected a failure"),
    }
}

#[test]
fn session_replies() {
    assert_eq!(
        failure_parts(session_reply(SessionOutcome::Unreachable)),
        (502, "auth upstream unreachable".to_string(), None)
    );
    assert_eq!(
        failure_parts(session_reply(SessionOutcome::Unreadable)),
        (502, "auth upstream read failed".to_string(), None)
    );
    assert_eq!(
        failure_parts(session_reply(SessionOutcome::Malformed)),
        (502, "unexpected upstream response".to_string(), None)
    );
    assert_eq!(
        failure_parts(session_reply(SessionOutcome::Unverified)),
        (502, "issued token failed local verification".to_string(), None)
    );
    let body = br#"{"error_description":"Invalid login credentials","error_code":"invalid_credentials"}"#.to_vec();
    assert_eq!(
        failure_parts(session_reply(SessionOutcome::Failed { status: 401, body: body.clone() })),
        (401, "Invalid login credentials".to_string(), Some("invalid_credentials".to_string()))
    );
    assert_eq!(failure_parts(session_reply(SessionOutcome::Failed { status: 422, body: body.clone() })).0, 400);
    assert_eq!(failure_parts(session_reply(SessionOutcome::Failed { status: 503, body })).0, 502);
    let session = Session {
        access_token: "a".into(),
        refresh_token: "r".into(),
        token_type: "bearer".into(),
        expires_in: 3600,
    };
    let claims = TokenClaims { subject: "u1".into(), exp: 10, email: None };
    match session_reply(SessionOutcome::Issued { session, claims }) {
        AuthReply::Session { session, claims } => {
            assert_eq!(session.refresh_token, "r");
            assert_eq!(session.expires_in, 3600);
            assert_eq!(claims.subject, "u1");
        }
        _ => panic!("expected a session"),
    }
}

#[test]
fn logout_replies() {
    assert_eq!(
        failure_parts(logout_reply(LogoutOutcome::MissingHeader)),
        (401, "missing Authorization header".to_string(), None)
    );
    assert_eq!(
        failure_parts(logout_reply(LogoutOutcome::Unreachable)),
        (502, "auth upstream unreachable".to_string(), None)
    );
    assert_eq!(
        failure_parts(logout_reply(LogoutOutcome::Failed { body: Vec::new() })),
        (400, "auth error".to_string(), None)
    );
    assert!(matches!(logout_reply(LogoutOutcome::LoggedOut), AuthReply::NoContent));
    assert!(upstream_succeeded(204));
    assert!(!upstream_succeeded(302));
}
