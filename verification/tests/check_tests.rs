use securebase::check::{CheckError, CheckStep, Checker, StoreError};
use securebase::schema::{parse_schema, Schema};
use securebase::tuple::{parse_object_ref, ObjectRef, SubjectRef, Tuple};

const DEMO_SCHEMA: &str = "\
type user

type group
  relations
    define member: [user, group#member]

type folder
  relations
    define owner: [user]
    define editor: [user] or owner
    define viewer: [user] or editor

type document
  relations
    define parent: [folder]
    define owner: [user]
    define blocked: [user]
    define editor: [user] or owner or editor from parent
    define viewer: [user] or editor or viewer from parent
    define reader: viewer and owner
    define limited: viewer but not blocked
";

fn subject(text: &str) -> SubjectRef {
    if text == "*" {
        return SubjectRef::wildcard();
    }
    match text.split_once('#') {
        Some((obj, rel)) => SubjectRef::user(parse_object_ref(obj).unwrap(), Some(rel.to_string())).unwrap(),
        None => SubjectRef::user(parse_object_ref(text).unwrap(), None).unwrap(),
    }
}

/// Runs a check against stored tuples, counting the reads it asks for.
fn run(schema: &Schema, stored: &[&str], object: &str, relation: &str, who: &str, fail_on: Option<&str>) -> (Result<bool, CheckError>, usize) {
    let tuples: Vec<Tuple> = stored.iter().map(|t| t.parse::<Tuple>().unwrap()).collect();
    let checker = Checker::new(schema);
    let obj = parse_object_ref(object).unwrap();
    let subj = subject(who);
    let mut run = checker.begin(&obj, relation, &subj);
    let mut reads = 0;
    loop {
        match checker.step(&mut run) {
            CheckStep::Read { object, relation } => {
                reads += 1;
                if fail_on == Some(relation.as_str()) {
                    run.record(object, relation, Err(StoreError::backend("connection reset")));
                    continue;
                }
                let found: Vec<SubjectRef> = tuples
                    .iter()
                    .filter(|t| *t.object() == object && t.relation() == relation)
                    .map(|t| t.subject().duplicate())
                    .collect();
                run.record(object, relation, Ok(found));
            }
            CheckStep::Done(r) => return (r, reads),
            CheckStep::Continue => {}
        }
    }
}

fn demo() -> Schema {
    parse_schema(DEMO_SCHEMA).unwrap()
}

#[test]
fn check_direct_tuple() {
    let s = demo();
    let (r, reads) = run(&s, &["document:readme#owner@user:alice"], "document:readme", "owner", "user:alice", None);
    assert!(r.unwrap());
    assert_eq!(reads, 1);
    let (r, _) = run(&s, &["document:readme#owner@user:alice"], "document:readme", "owner", "user:bob", None);
    assert!(!r.unwrap());
}

#[test]
fn check_computed_userset() {
    let s = demo();
    let (r, _) = run(&s, &["document:readme#owner@user:alice"], "document:readme", "editor", "user:alice", None);
    assert!(r.unwrap());
}

#[test]
fn check_tuple_to_userset_through_parent() {
    let s = demo();
    let stored = ["document:readme#parent@folder:docs", "folder:docs#owner@user:carol"];
    let (r, _) = run(&s, &stored, "document:readme", "viewer", "user:carol", None);
    assert!(r.unwrap());
    let (r, _) = run(&s, &stored, "document:readme", "viewer", "user:dave", None);
    assert!(!r.unwrap());
}

#[test]
fn check_union_short_circuits() {
    let s = demo();
    // The direct viewer tuple decides the union before any other read.
    let (r, reads) = run(&s, &["document:readme#viewer@user:alice"], "document:readme", "viewer", "user:alice", None);
    assert!(r.unwrap());
    assert_eq!(reads, 1);
}

#[test]
fn check_intersection_needs_all() {
    let s = demo();
    let (r, _) = run(&s, &["document:readme#viewer@user:alice"], "document:readme", "reader", "user:alice", None);
    assert!(!r.unwrap());
    let stored = ["document:readme#viewer@user:alice", "document:readme#owner@user:alice"];
    let (r, _) = run(&s, &stored, "document:readme", "reader", "user:alice", None);
    assert!(r.unwrap());
}

#[test]
fn check_exclusion_subtracts() {
    let s = demo();
    let stored = ["document:readme#viewer@user:alice", "document:readme#blocked@user:alice", "document:readme#viewer@user:bob"];
    let (r, _) = run(&s, &stored, "document:readme", "limited", "user:alice", None);
    assert!(!r.unwrap());
    let (r, _) = run(&s, &stored, "document:readme", "limited", "user:bob", None);
    assert!(r.unwrap());
}

#[test]
fn check_userset_subject_matches_exactly() {
    let s = demo();
    let stored = ["document:readme#viewer@group:eng#member"];
    let (r, _) = run(&s, &stored, "document:readme", "viewer", "group:eng#member", None);
    assert!(r.unwrap());
    let (r, _) = run(&s, &stored, "document:readme", "viewer", "group:eng", None);
    assert!(!r.unwrap());
}

#[test]
fn check_unknown_relation() {
    let s = demo();
    let (r, reads) = run(&s, &[], "document:readme", "admin", "user:alice", None);
    assert_eq!(reads, 0);
    match r {
        Err(CheckError::UnknownRelation { namespace, relation }) => {
            assert_eq!(namespace, "document");
            assert_eq!(relation, "admin");
        }
        other => panic!("expected UnknownRelation, got {other:?}"),
    }
}

#[test]
fn check_store_error_ends_check() {
    let s = demo();
    let (r, _) = run(&s, &[], "document:readme", "owner", "user:alice", Some("owner"));
    match r {
        Err(CheckError::Store(StoreError::Backend(m))) => assert_eq!(m, "connection reset"),
        other => panic!("expected a store error, got {other:?}"),
    }
}

#[test]
fn check_cycle_keeps_asking_for_steps() {
    let s = parse_schema("type doc\n  relations\n    define a: b\n    define b: a").unwrap();
    let checker = Checker::new(&s);
    let obj = ObjectRef::new("doc", "x").unwrap();
    let subj = subject("user:alice");
    let mut run = checker.begin(&obj, "a", &subj);
    for _ in 0..5 {
        assert!(matches!(checker.step(&mut run), CheckStep::Continue));
    }
}

#[test]
fn check_error_messages() {
    let e = CheckError::UnknownRelation { namespace: "doc".into(), relation: "x".into() };
    assert_eq!(e.message(), "unknown relation doc#x");
    let e = CheckError::Store(StoreError::backend("boom"));
    assert_eq!(e.message(), "store: storage backend: boom");
    assert_eq!(StoreError::CorruptData("bad".into()).message(), "corrupt stored data: bad");
}
