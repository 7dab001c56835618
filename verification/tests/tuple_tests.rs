use securebase::tuple::{ObjectRef, ParseError, SubjectRef, Tuple};

#[test]
fn object_ref_display() {
    let o = ObjectRef::new("document", "readme").unwrap();
    assert_eq!(o.to_string(), "document:readme");
    assert_eq!(o.namespace(), "document");
    assert_eq!(o.id(), "readme");
}

#[test]
fn object_ref_empty_namespace() {
    assert_eq!(
        ObjectRef::new("", "id"),
        Err(ParseError::EmptyComponent("namespace"))
    );
}

#[test]
fn object_ref_empty_id() {
    assert_eq!(
        ObjectRef::new("ns", ""),
        Err(ParseError::EmptyComponent("id"))
    );
}

#[test]
fn object_ref_reserved_char_in_namespace() {
    assert_eq!(
        ObjectRef::new("doc:ument", "id"),
        Err(ParseError::ReservedCharacter(':'))
    );
}

#[test]
fn object_ref_reserved_char_at_sign() {
    assert_eq!(
        ObjectRef::new("doc", "id@bad"),
        Err(ParseError::ReservedCharacter('@'))
    );
}

#[test]
fn object_ref_hash_eq() {
    let a = ObjectRef::new("document", "readme").unwrap();
    let b = ObjectRef::new("document", "readme").unwrap();
    assert_eq!(a, b);
}

#[test]
fn subject_ref_direct_user_display() {
    let obj = ObjectRef::new("user", "alice").unwrap();
    let s = SubjectRef::user(obj, None).unwrap();
    assert_eq!(s.to_string(), "user:alice");
}

#[test]
fn subject_ref_userset_display() {
    let obj = ObjectRef::new("group", "eng").unwrap();
    let s = SubjectRef::user(obj, Some("member".into())).unwrap();
    assert_eq!(s.to_string(), "group:eng#member");
}

#[test]
fn subject_ref_wildcard_display() {
    assert_eq!(SubjectRef::wildcard().to_string(), "*");
}

#[test]
fn subject_ref_empty_relation_rejected() {
    let obj = ObjectRef::new("group", "eng").unwrap();
    assert_eq!(
        SubjectRef::user(obj, Some("".into())),
        Err(ParseError::EmptyComponent("relation"))
    );
}

#[test]
fn subject_ref_reserved_char_in_relation() {
    let obj = ObjectRef::new("group", "eng").unwrap();
    assert_eq!(
        SubjectRef::user(obj, Some("mem#ber".into())),
        Err(ParseError::ReservedCharacter('#'))
    );
}

#[test]
fn subject_ref_hash_eq() {
    let obj_a = ObjectRef::new("user", "alice").unwrap();
    let obj_b = ObjectRef::new("user", "alice").unwrap();
    let a = SubjectRef::user(obj_a, None).unwrap();
    let b = SubjectRef::user(obj_b, None).unwrap();
    assert_eq!(a, b);
}

#[test]
fn roundtrip_direct_user() {
    let s = "document:readme#viewer@user:alice";
    assert_eq!(s.parse::<Tuple>().unwrap().to_string(), s);
}

#[test]
fn roundtrip_userset() {
    let s = "document:readme#viewer@group:eng#member";
    assert_eq!(s.parse::<Tuple>().unwrap().to_string(), s);
}

#[test]
fn roundtrip_wildcard() {
    let s = "document:readme#viewer@*";
    assert_eq!(s.parse::<Tuple>().unwrap().to_string(), s);
}

#[test]
fn roundtrip_uuid_id() {
    let s = "document:550e8400-e29b-41d4-a716-446655440000#owner@user:abc123";
    assert_eq!(s.parse::<Tuple>().unwrap().to_string(), s);
}

#[test]
fn parse_missing_at() {
    assert_eq!(
        "document:readme#viewer".parse::<Tuple>(),
        Err(ParseError::MissingSubjectSeparator)
    );
}

#[test]
fn parse_missing_hash() {
    assert_eq!(
        "document:readme@user:alice".parse::<Tuple>(),
        Err(ParseError::MissingRelationSeparator)
    );
}

#[test]
fn parse_missing_colon_in_object() {
    assert_eq!(
        "documentreadme#viewer@user:alice".parse::<Tuple>(),
        Err(ParseError::MissingNamespaceSeparator(
            "documentreadme".into()
        ))
    );
}

#[test]
fn parse_empty_relation() {
    assert_eq!(
        "document:readme#@user:alice".parse::<Tuple>(),
        Err(ParseError::EmptyComponent("relation"))
    );
}

#[test]
fn parse_empty_namespace() {
    assert_eq!(
        ":readme#viewer@user:alice".parse::<Tuple>(),
        Err(ParseError::EmptyComponent("namespace"))
    );
}

#[test]
fn tuple_new_validates_relation() {
    let obj = ObjectRef::new("document", "readme").unwrap();
    let subj = SubjectRef::wildcard();
    assert_eq!(
        Tuple::new(obj, "", subj),
        Err(ParseError::EmptyComponent("relation"))
    );
}

#[test]
fn tuple_hash_eq() {
    let s = "document:readme#viewer@user:alice";
    let a: Tuple = s.parse().unwrap();
    let b: Tuple = s.parse().unwrap();
    assert_eq!(a, b);
}

#[test]
fn tuple_accessors() {
    let t: Tuple = "document:readme#viewer@user:alice".parse().unwrap();
    assert_eq!(t.object().namespace(), "document");
    assert_eq!(t.object().id(), "readme");
    assert_eq!(t.relation(), "viewer");
    assert!(matches!(t.subject(), SubjectRef::User { .. }));
}
