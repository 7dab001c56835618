//! Relationship tuples: `namespace:id#relation@subject`.
use vstd::prelude::*;
use crate::text::{
    chars_of, find_first, find_last, first_index, last_index,
    lemma_first_index_is, lemma_first_index_none, lemma_last_index_is, lemma_last_index_none,
    push_char, push_str, slice_of, string_from, string_of,
};

verus! {

/// Characters that separate the parts of a tuple and so cannot occur in a component.
pub open spec fn is_reserved(c: char) -> bool {
    c == ':' || c == '#' || c == '@'
}

/// A component is non-empty and holds no reserved character.
pub open spec fn valid_component(s: Seq<char>) -> bool {
    &&& s.len() > 0
    &&& forall|j: int| 0 <= j < s.len() ==> !is_reserved(#[trigger] s[j])
}

/// `k` is the position of the first reserved character of `s`.
pub open spec fn is_first_reserved(s: Seq<char>, k: int) -> bool {
    &&& 0 <= k < s.len()
    &&& is_reserved(s[k])
    &&& forall|j: int| 0 <= j < k ==> !is_reserved(#[trigger] s[j])
}

/// Errors of tuple syntax, as values.
pub enum ParseErrorView {
    MissingRelationSeparator,
    MissingSubjectSeparator,
    MissingNamespaceSeparator(Seq<char>),
    EmptyComponent(Seq<char>),
    ReservedCharacter(char),
}

/// What is wrong with component `s` (named `what` in the error), if anything:
/// emptiness first, then the first reserved character.
pub open spec fn component_fault(what: Seq<char>, s: Seq<char>) -> Option<ParseErrorView> {
    if s.len() == 0 {
        Some(ParseErrorView::EmptyComponent(what))
    } else if exists|k: int| is_first_reserved(s, k) {
        Some(ParseErrorView::ReservedCharacter(s[choose|k: int| is_first_reserved(s, k)]))
    } else {
        None
    }
}

proof fn lemma_first_reserved_exists(s: Seq<char>, i: int)
    requires
        0 <= i < s.len(),
        is_reserved(s[i]),
    ensures
        exists|k: int| is_first_reserved(s, k),
    decreases i,
{
    if exists|j: int| 0 <= j < i && is_reserved(s[j]) {
        let j = choose|j: int| 0 <= j < i && is_reserved(s[j]);
        lemma_first_reserved_exists(s, j);
    } else {
        assert(is_first_reserved(s, i));
    }
}

/// A component has no fault exactly when it is valid.
pub proof fn lemma_component_fault_none(what: Seq<char>, s: Seq<char>)
    ensures
        component_fault(what, s) is None <==> valid_component(s),
{
    if s.len() > 0 && !valid_component(s) {
        let i = choose|i: int| 0 <= i < s.len() && is_reserved(s[i]);
        lemma_first_reserved_exists(s, i);
    }
}

/// The only characters a component may not hold are `:`, `#` and `@`: a
/// component is accepted exactly when it is non-empty and free of those
/// three, and a refused non-empty component is refused for the first of them
/// that it holds.
pub proof fn lemma_component_accepts(what: Seq<char>, s: Seq<char>)
    ensures
        component_fault(what, s) is None <==> (s.len() > 0 && forall|j: int|
            0 <= j < s.len() ==> #[trigger] s[j] != ':' && s[j] != '#' && s[j] != '@'),
        s.len() == 0 ==> component_fault(what, s) == Some(ParseErrorView::EmptyComponent(what)),
        component_fault(what, s) matches Some(ParseErrorView::ReservedCharacter(c)) ==> exists|k: int|
            0 <= k < s.len() && s[k] == c && (c == ':' || c == '#' || c == '@') && forall|j: int|
                0 <= j < k ==> #[trigger] s[j] != ':' && s[j] != '#' && s[j] != '@',
{
    lemma_component_fault_none(what, s);
    if s.len() > 0 && exists|k: int| is_first_reserved(s, k) {
        let k = choose|k: int| is_first_reserved(s, k);
        assert(is_first_reserved(s, k));
        assert forall|j: int| 0 <= j < k implies #[trigger] s[j] != ':' && s[j] != '#' && s[j] != '@' by {
            assert(!is_reserved(s[j]));
        }
    }
}

/// Errors of tuple syntax.
#[derive(Debug, PartialEq)]
pub enum ParseError {
    MissingRelationSeparator,
    MissingSubjectSeparator,
    MissingNamespaceSeparator(String),
    EmptyComponent(&'static str),
    ReservedCharacter(char),
}

impl View for ParseError {
    type V = ParseErrorView;

    open spec fn view(&self) -> ParseErrorView {
        match self {
            ParseError::MissingRelationSeparator => ParseErrorView::MissingRelationSeparator,
            ParseError::MissingSubjectSeparator => ParseErrorView::MissingSubjectSeparator,
            ParseError::MissingNamespaceSeparator(s) => ParseErrorView::MissingNamespaceSeparator(
                s@,
            ),
            ParseError::EmptyComponent(n) => ParseErrorView::EmptyComponent(n@),
            ParseError::ReservedCharacter(c) => ParseErrorView::ReservedCharacter(*c),
        }
    }
}

/// The text that `{:?}` gives for a character.
pub uninterp spec fn char_debug_text(c: char) -> Seq<char>;

/// `format!("{:?}", c)` from std: the character's `Debug` text. std documents it
/// as the character between single quotes, escaped as `char::escape_debug` does;
/// stated here only for the reserved characters, which need no escape.
#[verifier::external_body]
fn char_debug(c: char) -> (r: String)
    ensures
        r@ == char_debug_text(c),
        is_reserved(c) ==> r@ == seq!['\'', c, '\''],
{
    format!("{:?}", c)
}

/// The message of a syntax error.
pub open spec fn parse_error_text(e: ParseErrorView) -> Seq<char> {
    match e {
        ParseErrorView::MissingRelationSeparator => "missing '#' relation separator"@,
        ParseErrorView::MissingSubjectSeparator => "missing '@' subject separator"@,
        ParseErrorView::MissingNamespaceSeparator(s) => "missing ':' namespace separator in '"@
            + s + "'"@,
        ParseErrorView::EmptyComponent(n) => "empty "@ + n,
        ParseErrorView::ReservedCharacter(c) => "component contains reserved character: "@
            + char_debug_text(c),
    }
}

impl ParseError {
    /// The error's message.
    pub fn message(&self) -> (r: String)
        ensures
            r@ == parse_error_text(self@),
    {
        match self {
            ParseError::MissingRelationSeparator => string_from("missing '#' relation separator"),
            ParseError::MissingSubjectSeparator => string_from("missing '@' subject separator"),
            ParseError::MissingNamespaceSeparator(s) => {
                let mut r = string_from("missing ':' namespace separator in '");
                push_str(&mut r, s.as_str());
                push_str(&mut r, "'");
                r
            },
            ParseError::EmptyComponent(n) => {
                let mut r = string_from("empty ");
                push_str(&mut r, n);
                r
            },
            ParseError::ReservedCharacter(c) => {
                let mut r = string_from("component contains reserved character: ");
                let d = char_debug(*c);
                push_str(&mut r, d.as_str());
                r
            },
        }
    }
}

fn check_chars(name: &'static str, s: &Vec<char>) -> (r: Result<(), ParseError>)
    ensures
        match component_fault(name@, s@) {
            Some(e) => r matches Err(x) && x@ == e,
            None => r is Ok,
        },
{
    if s.len() == 0 {
        return Err(ParseError::EmptyComponent(name));
    }
    let mut i: usize = 0;
    while i < s.len()
        invariant
            i <= s@.len(),
            forall|j: int| 0 <= j < i ==> !is_reserved(#[trigger] s@[j]),
        decreases s.len() - i,
    {
        let c = s[i];
        if c == ':' || c == '#' || c == '@' {
            proof {
                assert(is_first_reserved(s@, i as int));
                let w = choose|k: int| is_first_reserved(s@, k);
                assert(is_first_reserved(s@, w));
                if w < i {
                    assert(!is_reserved(s@[w]));
                }
                if (i as int) < w {
                    assert(!is_reserved(s@[i as int]));
                }
            }
            return Err(ParseError::ReservedCharacter(c));
        }
        i = i + 1;
    }
    proof {
        assert(valid_component(s@));
        lemma_component_fault_none(name@, s@);
    }
    Ok(())
}

/// Checks that `s` is a valid component; `name` says which one in the error.
pub fn validate_component(name: &'static str, s: &str) -> (r: Result<(), ParseError>)
    ensures
        match component_fault(name@, s@) {
            Some(e) => r matches Err(x) && x@ == e,
            None => r is Ok,
        },
{
    let cs = chars_of(s);
    check_chars(name, &cs)
}

/// An object, `namespace:id`, as values.
pub struct ObjectView {
    pub namespace: Seq<char>,
    pub id: Seq<char>,
}

impl ObjectView {
    pub open spec fn wf(self) -> bool {
        valid_component(self.namespace) && valid_component(self.id)
    }
}

/// An object `namespace:id`; both parts are valid components.
#[derive(Debug, PartialEq)]
pub struct ObjectRef {
    namespace: String,
    id: String,
}

impl View for ObjectRef {
    type V = ObjectView;

    closed spec fn view(&self) -> ObjectView {
        ObjectView { namespace: self.namespace@, id: self.id@ }
    }
}

/// The outcome of building an object from its two parts.
pub open spec fn object_result(namespace: Seq<char>, id: Seq<char>) -> Result<
    ObjectView,
    ParseErrorView,
> {
    match component_fault("namespace"@, namespace) {
        Some(e) => Err(e),
        None => match component_fault("id"@, id) {
            Some(e) => Err(e),
            None => Ok(ObjectView { namespace, id }),
        },
    }
}

pub open spec fn object_result_view(r: Result<ObjectRef, ParseError>) -> Result<
    ObjectView,
    ParseErrorView,
> {
    match r {
        Ok(o) => Ok(o@),
        Err(e) => Err(e@),
    }
}

impl ObjectRef {
    #[verifier::type_invariant]
    spec fn inv(self) -> bool {
        valid_component(self.namespace@) && valid_component(self.id@)
    }

    /// Builds `namespace:id`, rejecting an empty part or a reserved character.
    pub fn new(namespace: &str, id: &str) -> (r: Result<ObjectRef, ParseError>)
        ensures
            object_result_view(r) == object_result(namespace@, id@),
    {
        validate_component("namespace", namespace)?;
        validate_component("id", id)?;
        proof {
            lemma_component_fault_none("namespace"@, namespace@);
            lemma_component_fault_none("id"@, id@);
        }
        Ok(ObjectRef { namespace: string_from(namespace), id: string_from(id) })
    }

    pub fn namespace(&self) -> (r: &str)
        ensures
            r@ == self@.namespace,
            self@.wf(),
    {
        proof {
            use_type_invariant(self);
        }
        self.namespace.as_str()
    }

    pub fn id(&self) -> (r: &str)
        ensures
            r@ == self@.id,
            self@.wf(),
    {
        proof {
            use_type_invariant(self);
        }
        self.id.as_str()
    }

    /// A second object equal to this one.
    pub fn duplicate(&self) -> (r: ObjectRef)
        ensures
            r@ == self@,
    {
        proof {
            use_type_invariant(self);
        }
        ObjectRef { namespace: self.namespace.clone(), id: self.id.clone() }
    }

    /// `namespace:id`.
    pub fn to_string(&self) -> (r: String)
        ensures
            r@ == object_text(self@),
    {
        let mut r = string_from(self.namespace.as_str());
        push_char(&mut r, ':');
        push_str(&mut r, self.id.as_str());
        r
    }

    /// Whether both objects are the same.
    pub fn same_as(&self, other: &ObjectRef) -> (r: bool)
        ensures
            r == (self@ == other@),
    {
        self.namespace == other.namespace && self.id == other.id
    }
}

/// The text of an object.
pub open spec fn object_text(o: ObjectView) -> Seq<char> {
    o.namespace + seq![':'] + o.id
}

/// A subject as values.
pub enum SubjectView {
    User { object: ObjectView, relation: Option<Seq<char>> },
    Wildcard,
}

impl SubjectView {
    pub open spec fn wf(self) -> bool {
        match self {
            SubjectView::User { object, relation } => object.wf() && (relation matches Some(r)
                ==> valid_component(r)),
            SubjectView::Wildcard => true,
        }
    }
}

/// Who a tuple grants to: an object, the members of an object's relation
/// (`namespace:id#relation`), or everyone (`*`).
#[derive(Debug, PartialEq)]
pub enum SubjectRef {
    User { object: ObjectRef, relation: Option<String> },
    Wildcard,
}

pub open spec fn opt_string_view(r: Option<String>) -> Option<Seq<char>> {
    match r {
        Some(s) => Some(s@),
        None => None,
    }
}

impl View for SubjectRef {
    type V = SubjectView;

    open spec fn view(&self) -> SubjectView {
        match self {
            SubjectRef::User { object, relation } => SubjectView::User {
                object: object@,
                relation: opt_string_view(*relation),
            },
            SubjectRef::Wildcard => SubjectView::Wildcard,
        }
    }
}

/// The outcome of building a user subject with an optional relation.
pub open spec fn user_result(object: ObjectView, relation: Option<Seq<char>>) -> Result<
    SubjectView,
    ParseErrorView,
> {
    match relation {
        Some(r) => match component_fault("relation"@, r) {
            Some(e) => Err(e),
            None => Ok(SubjectView::User { object, relation: Some(r) }),
        },
        None => Ok(SubjectView::User { object, relation: None }),
    }
}

pub open spec fn subject_result_view(r: Result<SubjectRef, ParseError>) -> Result<
    SubjectView,
    ParseErrorView,
> {
    match r {
        Ok(s) => Ok(s@),
        Err(e) => Err(e@),
    }
}

/// The text of a subject.
pub open spec fn subject_text(s: SubjectView) -> Seq<char> {
    match s {
        SubjectView::Wildcard => seq!['*'],
        SubjectView::User { object, relation: None } => object_text(object),
        SubjectView::User { object, relation: Some(r) } => object_text(object) + seq!['#'] + r,
    }
}

impl SubjectRef {
    /// `object` or, with a relation, `object#relation`; the relation must be a valid component.
    pub fn user(object: ObjectRef, relation: Option<String>) -> (r: Result<SubjectRef, ParseError>)
        ensures
            subject_result_view(r) == user_result(object@, opt_string_view(relation)),
    {
        if let Some(ref rel) = relation {
            validate_component("relation", rel.as_str())?;
            proof {
                lemma_component_fault_none("relation"@, rel@);
            }
        }
        Ok(SubjectRef::User { object, relation })
    }

    /// Everyone.
    pub fn wildcard() -> (r: SubjectRef)
        ensures
            r@ == SubjectView::Wildcard,
    {
        SubjectRef::Wildcard
    }

    /// A second subject equal to this one.
    pub fn duplicate(&self) -> (r: SubjectRef)
        ensures
            r@ == self@,
    {
        match self {
            SubjectRef::User { object, relation } => SubjectRef::User {
                object: object.duplicate(),
                relation: match relation {
                    Some(x) => Some(x.clone()),
                    None => None,
                },
            },
            SubjectRef::Wildcard => SubjectRef::Wildcard,
        }
    }

    /// Whether both subjects are the same.
    pub fn same_as(&self, other: &SubjectRef) -> (r: bool)
        ensures
            r == (self@ == other@),
    {
        match (self, other) {
            (SubjectRef::Wildcard, SubjectRef::Wildcard) => true,
            (
                SubjectRef::User { object: o1, relation: r1 },
                SubjectRef::User { object: o2, relation: r2 },
            ) => {
                if !o1.same_as(o2) {
                    return false;
                }
                match (r1, r2) {
                    (None, None) => true,
                    (Some(a), Some(b)) => *a == *b,
                    _ => false,
                }
            },
            _ => false,
        }
    }

    /// `*`, `namespace:id`, or `namespace:id#relation`.
    pub fn to_string(&self) -> (r: String)
        ensures
            r@ == subject_text(self@),
    {
        match self {
            SubjectRef::Wildcard => {
                let mut r = String::new();
                push_char(&mut r, '*');
                assert(r@ =~= seq!['*']);
                r
            },
            SubjectRef::User { object, relation: None } => object.to_string(),
            SubjectRef::User { object, relation: Some(rel) } => {
                let mut r = object.to_string();
                push_char(&mut r, '#');
                push_str(&mut r, rel.as_str());
                r
            },
        }
    }
}

/// A relationship tuple as values.
pub struct TupleView {
    pub object: ObjectView,
    pub relation: Seq<char>,
    pub subject: SubjectView,
}

impl TupleView {
    pub open spec fn wf(self) -> bool {
        self.object.wf() && valid_component(self.relation) && self.subject.wf()
    }
}

/// A relationship tuple `object#relation@subject`; the relation is a valid component.
#[derive(Debug, PartialEq)]
pub struct Tuple {
    object: ObjectRef,
    relation: String,
    subject: SubjectRef,
}

impl View for Tuple {
    type V = TupleView;

    closed spec fn view(&self) -> TupleView {
        TupleView { object: self.object@, relation: self.relation@, subject: self.subject@ }
    }
}

/// The outcome of building a tuple from its parts.
pub open spec fn tuple_result(object: ObjectView, relation: Seq<char>, subject: SubjectView) -> Result<
    TupleView,
    ParseErrorView,
> {
    match component_fault("relation"@, relation) {
        Some(e) => Err(e),
        None => Ok(TupleView { object, relation, subject }),
    }
}

pub open spec fn tuple_result_view(r: Result<Tuple, ParseError>) -> Result<
    TupleView,
    ParseErrorView,
> {
    match r {
        Ok(t) => Ok(t@),
        Err(e) => Err(e@),
    }
}

/// The text of a tuple.
pub open spec fn tuple_text(t: TupleView) -> Seq<char> {
    object_text(t.object) + seq!['#'] + t.relation + seq!['@'] + subject_text(t.subject)
}

/// Reads `namespace:id`, split at the first `:`.
pub open spec fn parse_object_text(s: Seq<char>) -> Result<ObjectView, ParseErrorView> {
    match first_index(s, ':') {
        None => Err(ParseErrorView::MissingNamespaceSeparator(s)),
        Some(k) => object_result(s.subrange(0, k), s.subrange(k + 1, s.len() as int)),
    }
}

/// Reads the subject part of a tuple: `*`, or an object with an optional
/// `#relation` split at the first `#`.
pub open spec fn parse_subject_text(s: Seq<char>) -> Result<SubjectView, ParseErrorView> {
    if s == seq!['*'] {
        Ok(SubjectView::Wildcard)
    } else {
        match first_index(s, '#') {
            Some(h) => match parse_object_text(s.subrange(0, h)) {
                Err(e) => Err(e),
                Ok(o) => user_result(o, Some(s.subrange(h + 1, s.len() as int))),
            },
            None => match parse_object_text(s) {
                Err(e) => Err(e),
                Ok(o) => Ok(SubjectView::User { object: o, relation: None }),
            },
        }
    }
}

/// Reads a tuple: the subject follows the first `@`; before it, the relation
/// follows the last `#`; errors are reported in that order of reading.
pub open spec fn parse_tuple_text(s: Seq<char>) -> Result<TupleView, ParseErrorView> {
    match first_index(s, '@') {
        None => Err(ParseErrorView::MissingSubjectSeparator),
        Some(at) => {
            let left = s.subrange(0, at);
            let right = s.subrange(at + 1, s.len() as int);
            match last_index(left, '#') {
                None => Err(ParseErrorView::MissingRelationSeparator),
                Some(h) => {
                    let relation = left.subrange(h + 1, left.len() as int);
                    match parse_object_text(left.subrange(0, h)) {
                        Err(e) => Err(e),
                        Ok(object) => match component_fault("relation"@, relation) {
                            Some(e) => Err(e),
                            None => match parse_subject_text(right) {
                                Err(e) => Err(e),
                                Ok(subject) => Ok(TupleView { object, relation, subject }),
                            },
                        },
                    }
                },
            }
        },
    }
}

fn parse_object_chars(s: &Vec<char>) -> (r: Result<ObjectRef, ParseError>)
    ensures
        object_result_view(r) == parse_object_text(s@),
{
    match find_first(s, ':') {
        None => {
            let whole = string_of(s, 0, s.len());
            assert(s@.subrange(0, s@.len() as int) =~= s@);
            Err(ParseError::MissingNamespaceSeparator(whole))
        },
        Some(colon) => {
            assert(colon < s.len());
            let ns = string_of(s, 0, colon);
            let id = string_of(s, colon + 1, s.len());
            proof {
                assert(s@.subrange(0, s@.len() as int) =~= s@);
            }
            ObjectRef::new(ns.as_str(), id.as_str())
        },
    }
}

/// Reads `namespace:id`.
pub fn parse_object_ref(s: &str) -> (r: Result<ObjectRef, ParseError>)
    ensures
        object_result_view(r) == parse_object_text(s@),
{
    let cs = chars_of(s);
    parse_object_chars(&cs)
}

fn parse_subject_chars(s: &Vec<char>) -> (r: Result<SubjectRef, ParseError>)
    ensures
        subject_result_view(r) == parse_subject_text(s@),
{
    if s.len() == 1 && s[0] == '*' {
        assert(s@ =~= seq!['*']);
        return Ok(SubjectRef::Wildcard);
    }
    assert(s@ != seq!['*']);
    match find_first(s, '#') {
        Some(h) => {
            let obj_chars = slice_of(s, 0, h);
            let rel = string_of(s, h + 1, s.len());
            let obj = parse_object_chars(&obj_chars)?;
            SubjectRef::user(obj, Some(rel))
        },
        None => {
            let obj = parse_object_chars(s)?;
            SubjectRef::user(obj, None)
        },
    }
}

impl Tuple {
    #[verifier::type_invariant]
    spec fn inv(self) -> bool {
        valid_component(self.relation@) && self.object@.wf()
    }

    /// Builds `object#relation@subject`, rejecting an invalid relation.
    pub fn new(object: ObjectRef, relation: &str, subject: SubjectRef) -> (r: Result<
        Tuple,
        ParseError,
    >)
        ensures
            tuple_result_view(r) == tuple_result(object@, relation@, subject@),
    {
        validate_component("relation", relation)?;
        proof {
            lemma_component_fault_none("relation"@, relation@);
            use_type_invariant(&object);
        }
        Ok(Tuple { object, relation: string_from(relation), subject })
    }

    pub fn object(&self) -> (r: &ObjectRef)
        ensures
            r@ == self@.object,
    {
        &self.object
    }

    pub fn relation(&self) -> (r: &str)
        ensures
            r@ == self@.relation,
            valid_component(self@.relation),
    {
        proof {
            use_type_invariant(self);
        }
        self.relation.as_str()
    }

    pub fn subject(&self) -> (r: &SubjectRef)
        ensures
            r@ == self@.subject,
    {
        &self.subject
    }

    /// `object#relation@subject`.
    pub fn to_string(&self) -> (r: String)
        ensures
            r@ == tuple_text(self@),
    {
        let mut r = self.object.to_string();
        push_char(&mut r, '#');
        push_str(&mut r, self.relation.as_str());
        push_char(&mut r, '@');
        let s = self.subject.to_string();
        push_str(&mut r, s.as_str());
        proof {
            assert(r@ =~= tuple_text(self@));
        }
        r
    }

    /// Reads `namespace:id#relation@subject`.
    pub fn parse(s: &str) -> (r: Result<Tuple, ParseError>)
        ensures
            tuple_result_view(r) == parse_tuple_text(s@),
    {
        let cs = chars_of(s);
        let at = match find_first(&cs, '@') {
            Some(at) => at,
            None => return Err(ParseError::MissingSubjectSeparator),
        };
        assert(at < cs.len());
        let left = slice_of(&cs, 0, at);
        let right = slice_of(&cs, at + 1, cs.len());
        let hash = match find_last(&left, '#') {
            Some(h) => h,
            None => return Err(ParseError::MissingRelationSeparator),
        };
        assert(hash < left.len());
        let object_chars = slice_of(&left, 0, hash);
        let relation = string_of(&left, hash + 1, left.len());
        let object = parse_object_chars(&object_chars)?;
        validate_component("relation", relation.as_str())?;
        let subject = parse_subject_chars(&right)?;
        proof {
            lemma_component_fault_none("relation"@, relation@);
        }
        Tuple::new(object, relation.as_str(), subject)
    }
}

proof fn lemma_valid_has_no(x: Seq<char>, c: char)
    requires
        valid_component(x),
        is_reserved(c),
    ensures
        forall|j: int| 0 <= j < x.len() ==> x[j] != c,
{
    assert forall|j: int| 0 <= j < x.len() implies x[j] != c by {
        assert(!is_reserved(x[j]));
    }
}

/// The text of an object reads back as that object.
pub proof fn lemma_object_text_parses(o: ObjectView)
    requires
        o.wf(),
    ensures
        parse_object_text(object_text(o)) == Ok::<ObjectView, ParseErrorView>(o),
{
    let s = object_text(o);
    let n = o.namespace.len() as int;
    lemma_valid_has_no(o.namespace, ':');
    assert(s[n] == ':');
    assert forall|j: int| 0 <= j < n implies s[j] != ':' by {
        assert(s[j] == o.namespace[j]);
    }
    lemma_first_index_is(s, ':', n);
    assert(s.subrange(0, n) =~= o.namespace);
    assert(s.subrange(n + 1, s.len() as int) =~= o.id);
    lemma_component_fault_none("namespace"@, o.namespace);
    lemma_component_fault_none("id"@, o.id);
}

proof fn lemma_object_text_has_no(o: ObjectView, c: char)
    requires
        o.wf(),
        c == '#' || c == '@',
    ensures
        forall|j: int| 0 <= j < object_text(o).len() ==> object_text(o)[j] != c,
{
    lemma_valid_has_no(o.namespace, c);
    lemma_valid_has_no(o.id, c);
    let s = object_text(o);
    let n = o.namespace.len() as int;
    assert forall|j: int| 0 <= j < s.len() implies s[j] != c by {
        if j < n {
            assert(s[j] == o.namespace[j]);
        } else if j > n {
            assert(s[j] == o.id[j - n - 1]);
        }
    }
}

/// The text of a subject reads back as that subject.
pub proof fn lemma_subject_text_parses(sv: SubjectView)
    requires
        sv.wf(),
    ensures
        parse_subject_text(subject_text(sv)) == Ok::<SubjectView, ParseErrorView>(sv),
{
    match sv {
        SubjectView::Wildcard => {},
        SubjectView::User { object, relation } => {
            let o = object_text(object);
            lemma_object_text_has_no(object, '#');
            lemma_object_text_parses(object);
            assert(o.len() >= 3);
            match relation {
                None => {
                    assert(o != seq!['*']);
                    lemma_first_index_none(o, '#');
                },
                Some(r) => {
                    let s = subject_text(sv);
                    let n = o.len() as int;
                    assert(s.len() >= 3);
                    assert(s != seq!['*']);
                    assert(s[n] == '#');
                    assert forall|j: int| 0 <= j < n implies s[j] != '#' by {
                        assert(s[j] == o[j]);
                    }
                    lemma_first_index_is(s, '#', n);
                    assert(s.subrange(0, n) =~= o);
                    assert(s.subrange(n + 1, s.len() as int) =~= r);
                    lemma_component_fault_none("relation"@, r);
                },
            }
        },
    }
}

/// Reading the text of a well-formed tuple gives the tuple back.
pub proof fn lemma_tuple_text_parses(t: TupleView)
    requires
        t.wf(),
    ensures
        parse_tuple_text(tuple_text(t)) == Ok::<TupleView, ParseErrorView>(t),
{
    let o = object_text(t.object);
    let rel = t.relation;
    let st = subject_text(t.subject);
    let s = tuple_text(t);
    let n = o.len() as int;
    let at = n + 1 + rel.len();
    lemma_object_text_has_no(t.object, '@');
    lemma_object_text_has_no(t.object, '#');
    lemma_valid_has_no(rel, '@');
    lemma_valid_has_no(rel, '#');
    assert(s[at] == '@');
    assert forall|j: int| 0 <= j < at implies s[j] != '@' by {
        if j < n {
            assert(s[j] == o[j]);
        } else if j > n {
            assert(s[j] == rel[j - n - 1]);
        }
    }
    lemma_first_index_is(s, '@', at);
    let left = s.subrange(0, at);
    assert(left =~= o + seq!['#'] + rel);
    assert(s.subrange(at + 1, s.len() as int) =~= st);
    assert(left[n] == '#');
    assert forall|j: int| n < j < left.len() implies left[j] != '#' by {
        assert(left[j] == rel[j - n - 1]);
    }
    lemma_last_index_is(left, '#', n);
    assert(left.subrange(0, n) =~= o);
    assert(left.subrange(n + 1, left.len() as int) =~= rel);
    lemma_object_text_parses(t.object);
    lemma_component_fault_none("relation"@, rel);
    lemma_subject_text_parses(t.subject);
}

/// Whatever reads as an object is that object's text.
pub proof fn lemma_parsed_object_text(s: Seq<char>)
    ensures
        parse_object_text(s) matches Ok(o) ==> o.wf() && object_text(o) == s,
{
    lemma_first_index_none(s, ':');
    if let Some(k) = first_index(s, ':') {
        let ns = s.subrange(0, k);
        let id = s.subrange(k + 1, s.len() as int);
        lemma_component_fault_none("namespace"@, ns);
        lemma_component_fault_none("id"@, id);
        assert(s =~= ns + seq![':'] + id);
    }
}

/// Whatever reads as a subject is that subject's text.
pub proof fn lemma_parsed_subject_text(s: Seq<char>)
    ensures
        parse_subject_text(s) matches Ok(sv) ==> sv.wf() && subject_text(sv) == s,
{
    if s != seq!['*'] {
        lemma_first_index_none(s, '#');
        match first_index(s, '#') {
            Some(h) => {
                let os = s.subrange(0, h);
                let r = s.subrange(h + 1, s.len() as int);
                lemma_parsed_object_text(os);
                lemma_component_fault_none("relation"@, r);
                assert(s =~= os + seq!['#'] + r);
            },
            None => {
                lemma_parsed_object_text(s);
            },
        }
    }
}

/// Whatever reads as a tuple is that tuple's text: printing a parsed tuple
/// gives the input back.
pub proof fn lemma_parsed_tuple_text(s: Seq<char>)
    ensures
        parse_tuple_text(s) matches Ok(t) ==> t.wf() && tuple_text(t) == s,
{
    lemma_first_index_none(s, '@');
    if let Some(at) = first_index(s, '@') {
        let left = s.subrange(0, at);
        let right = s.subrange(at + 1, s.len() as int);
        lemma_last_index_none(left, '#');
        if let Some(h) = last_index(left, '#') {
            let os = left.subrange(0, h);
            let rel = left.subrange(h + 1, left.len() as int);
            lemma_parsed_object_text(os);
            lemma_component_fault_none("relation"@, rel);
            lemma_parsed_subject_text(right);
            assert(left =~= os + seq!['#'] + rel);
            assert(s =~= left + seq!['@'] + right);
        }
    }
}

impl std::str::FromStr for Tuple {
    type Err = ParseError;

    fn from_str(s: &str) -> (r: Result<Tuple, ParseError>)
        ensures
            tuple_result_view(r) == parse_tuple_text(s@),
    {
        Tuple::parse(s)
    }
}

} // verus!
