//! The permission check: does `subject` have `relation` on `object`?
//!
//! A check reads stored tuples as it goes, and what it reads next depends on
//! what it has read. The decisions live here as a step function: a
//! [`CheckRun`] holds the question and every answer the store has given so far;
//! [`Checker::step`] says which read is needed next, or gives the verdict. The
//! caller performs each read and records its outcome with [`CheckRun::record`].
use vstd::prelude::*;
use crate::schema::{
    lemma_rewrites_view, rewrites_view, schema_rewrite, text_eq, Rewrite, RewriteView, Schema,
    SchemaView,
};
use crate::text::{push_str, string_from};
use crate::tuple::{ObjectRef, ObjectView, SubjectRef, SubjectView};

verus! {

/// Errors of a tuple store, as values.
pub enum StoreErrorView {
    Backend(Seq<char>),
    CorruptData(Seq<char>),
}

/// Errors of a tuple store.
#[derive(Debug)]
pub enum StoreError {
    /// The storage backend failed; the text is its message.
    Backend(String),
    /// A stored row is not a valid tuple.
    CorruptData(String),
}

impl View for StoreError {
    type V = StoreErrorView;

    open spec fn view(&self) -> StoreErrorView {
        match self {
            StoreError::Backend(m) => StoreErrorView::Backend(m@),
            StoreError::CorruptData(m) => StoreErrorView::CorruptData(m@),
        }
    }
}

/// The message of a store error.
pub open spec fn store_error_text(e: StoreErrorView) -> Seq<char> {
    match e {
        StoreErrorView::Backend(m) => "storage backend: "@ + m,
        StoreErrorView::CorruptData(m) => "corrupt stored data: "@ + m,
    }
}

impl StoreError {
    /// A backend failure with the backend's message.
    pub fn backend(message: &str) -> (r: StoreError)
        ensures
            r@ == StoreErrorView::Backend(message@),
    {
        StoreError::Backend(string_from(message))
    }

    /// The error's message.
    pub fn message(&self) -> (r: String)
        ensures
            r@ == store_error_text(self@),
    {
        match self {
            StoreError::Backend(m) => {
                let mut r = string_from("storage backend: ");
                push_str(&mut r, m.as_str());
                r
            },
            StoreError::CorruptData(m) => {
                let mut r = string_from("corrupt stored data: ");
                push_str(&mut r, m.as_str());
                r
            },
        }
    }

    /// A second error equal to this one.
    pub fn duplicate(&self) -> (r: StoreError)
        ensures
            r@ == self@,
    {
        match self {
            StoreError::Backend(m) => StoreError::Backend(m.clone()),
            StoreError::CorruptData(m) => StoreError::CorruptData(m.clone()),
        }
    }
}

/// Errors of a check, as values.
pub enum CheckErrorView {
    Store(StoreErrorView),
    UnknownRelation { namespace: Seq<char>, relation: Seq<char> },
}

/// Errors of a check: a failed read, or a relation that the schema does not define.
#[derive(Debug)]
pub enum CheckError {
    Store(StoreError),
    UnknownRelation { namespace: String, relation: String },
}

impl View for CheckError {
    type V = CheckErrorView;

    open spec fn view(&self) -> CheckErrorView {
        match self {
            CheckError::Store(e) => CheckErrorView::Store(e@),
            CheckError::UnknownRelation { namespace, relation } => CheckErrorView::UnknownRelation {
                namespace: namespace@,
                relation: relation@,
            },
        }
    }
}

/// The message of a check error.
pub open spec fn check_error_text(e: CheckErrorView) -> Seq<char> {
    match e {
        CheckErrorView::Store(s) => "store: "@ + store_error_text(s),
        CheckErrorView::UnknownRelation { namespace, relation } => "unknown relation "@ + namespace
            + "#"@ + relation,
    }
}

impl CheckError {
    /// The error's message.
    pub fn message(&self) -> (r: String)
        ensures
            r@ == check_error_text(self@),
    {
        match self {
            CheckError::Store(s) => {
                let mut r = string_from("store: ");
                let m = s.message();
                push_str(&mut r, m.as_str());
                r
            },
            CheckError::UnknownRelation { namespace, relation } => {
                let mut r = string_from("unknown relation ");
                push_str(&mut r, namespace.as_str());
                push_str(&mut r, "#");
                push_str(&mut r, relation.as_str());
                r
            },
        }
    }
}

/// What the store answers to "the subjects of `relation` on `object`": the
/// answer, a failure, or, while unread, nothing.
pub type Oracle = spec_fn(ObjectView, Seq<char>) -> Option<Result<Seq<SubjectView>, StoreErrorView>>;

/// Where a check stands.
pub enum Verdict {
    /// The answer, or the error that ends the check.
    Decided(Result<bool, CheckErrorView>),
    /// The check needs to read the subjects of a relation on an object.
    Need(ObjectView, Seq<char>),
    /// The check needs more steps than it was given.
    OutOfFuel,
}

/// Whether `subject` has `relation` on `object`: the relation's rewrite decides.
pub open spec fn check_relation(
    schema: SchemaView,
    oracle: Oracle,
    fuel: nat,
    object: ObjectView,
    relation: Seq<char>,
    subject: SubjectView,
) -> Verdict
    decreases fuel, 0int,
{
    if fuel == 0 {
        Verdict::OutOfFuel
    } else {
        match schema_rewrite(schema, object.namespace, relation) {
            None => Verdict::Decided(
                Err(
                    CheckErrorView::UnknownRelation { namespace: object.namespace, relation },
                ),
            ),
            Some(rw) => check_rewrite(
                schema,
                oracle,
                (fuel - 1) as nat,
                rw,
                object,
                relation,
                subject,
            ),
        }
    }
}

/// Whether `subject` is in the userset that `rw` gives for `relation` on `object`:
/// a direct relation holds when the stored subjects include `subject`; a
/// computed userset asks another relation of the same object; a tuple-to-userset
/// asks `computed` on each object stored under `tupleset`; a union holds when
/// some child does, an intersection when every child does, an exclusion when
/// the base does and the subtracted rewrite does not. Children are asked in
/// order and the first deciding one ends the asking.
pub open spec fn check_rewrite(
    schema: SchemaView,
    oracle: Oracle,
    fuel: nat,
    rw: RewriteView,
    object: ObjectView,
    relation: Seq<char>,
    subject: SubjectView,
) -> Verdict
    decreases fuel, 0int,
{
    if fuel == 0 {
        Verdict::OutOfFuel
    } else {
        let f = (fuel - 1) as nat;
        match rw {
            RewriteView::This { .. } => match oracle(object, relation) {
                None => Verdict::Need(object, relation),
                Some(Err(e)) => Verdict::Decided(Err(CheckErrorView::Store(e))),
                Some(Ok(subjects)) => Verdict::Decided(Ok(subjects.contains(subject))),
            },
            RewriteView::ComputedUserset { relation: r } => check_relation(
                schema,
                oracle,
                f,
                object,
                r,
                subject,
            ),
            RewriteView::TupleToUserset { tupleset, computed } => match oracle(object, tupleset) {
                None => Verdict::Need(object, tupleset),
                Some(Err(e)) => Verdict::Decided(Err(CheckErrorView::Store(e))),
                Some(Ok(parents)) => check_parents(schema, oracle, f, parents, 0, computed, subject),
            },
            RewriteView::Union(v) => check_union(schema, oracle, f, v, 0, object, relation, subject),
            RewriteView::Intersection(v) => check_intersection(
                schema,
                oracle,
                f,
                v,
                0,
                object,
                relation,
                subject,
            ),
            RewriteView::Exclusion(a, b) => match check_rewrite(
                schema,
                oracle,
                f,
                *a,
                object,
                relation,
                subject,
            ) {
                Verdict::Decided(Ok(true)) => match check_rewrite(
                    schema,
                    oracle,
                    f,
                    *b,
                    object,
                    relation,
                    subject,
                ) {
                    Verdict::Decided(Ok(x)) => Verdict::Decided(Ok(!x)),
                    other => other,
                },
                other => other,
            },
        }
    }
}

/// Children `i..` of a union.
pub open spec fn check_union(
    schema: SchemaView,
    oracle: Oracle,
    fuel: nat,
    v: Seq<RewriteView>,
    i: int,
    object: ObjectView,
    relation: Seq<char>,
    subject: SubjectView,
) -> Verdict
    decreases fuel, v.len() - i,
{
    if i < 0 || i >= v.len() {
        Verdict::Decided(Ok(false))
    } else {
        match check_rewrite(schema, oracle, fuel, v[i], object, relation, subject) {
            Verdict::Decided(Ok(false)) => check_union(
                schema,
                oracle,
                fuel,
                v,
                i + 1,
                object,
                relation,
                subject,
            ),
            other => other,
        }
    }
}

/// Children `i..` of an intersection.
pub open spec fn check_intersection(
    schema: SchemaView,
    oracle: Oracle,
    fuel: nat,
    v: Seq<RewriteView>,
    i: int,
    object: ObjectView,
    relation: Seq<char>,
    subject: SubjectView,
) -> Verdict
    decreases fuel, v.len() - i,
{
    if i < 0 || i >= v.len() {
        Verdict::Decided(Ok(true))
    } else {
        match check_rewrite(schema, oracle, fuel, v[i], object, relation, subject) {
            Verdict::Decided(Ok(true)) => check_intersection(
                schema,
                oracle,
                fuel,
                v,
                i + 1,
                object,
                relation,
                subject,
            ),
            other => other,
        }
    }
}

/// Parents `i..` of a tuple-to-userset; the wildcard names no object and is passed over.
pub open spec fn check_parents(
    schema: SchemaView,
    oracle: Oracle,
    fuel: nat,
    parents: Seq<SubjectView>,
    i: int,
    computed: Seq<char>,
    subject: SubjectView,
) -> Verdict
    decreases fuel, parents.len() - i,
{
    if i < 0 || i >= parents.len() {
        Verdict::Decided(Ok(false))
    } else {
        match parents[i] {
            SubjectView::Wildcard => check_parents(
                schema,
                oracle,
                fuel,
                parents,
                i + 1,
                computed,
                subject,
            ),
            SubjectView::User { object: p, .. } => match check_relation(
                schema,
                oracle,
                fuel,
                p,
                computed,
                subject,
            ) {
                Verdict::Decided(Ok(false)) => check_parents(
                    schema,
                    oracle,
                    fuel,
                    parents,
                    i + 1,
                    computed,
                    subject,
                ),
                other => other,
            },
        }
    }
}

proof fn lemma_union_skip(
    schema: SchemaView,
    oracle: Oracle,
    fuel: nat,
    v: Seq<RewriteView>,
    j: int,
    k: int,
    object: ObjectView,
    relation: Seq<char>,
    subject: SubjectView,
)
    requires
        0 <= j <= k <= v.len(),
        forall|i: int|
            0 <= i < k ==> check_rewrite(schema, oracle, fuel, #[trigger] v[i], object, relation, subject)
                == Verdict::Decided(Ok(false)),
    ensures
        check_union(schema, oracle, fuel, v, j, object, relation, subject) == check_union(
            schema,
            oracle,
            fuel,
            v,
            k,
            object,
            relation,
            subject,
        ),
    decreases k - j,
{
    if j < k {
        lemma_union_skip(schema, oracle, fuel, v, j + 1, k, object, relation, subject);
    }
}

/// A union's verdict is that of its first child whose verdict is not "false"
/// (an answer `true`, an error, or a read it needs), and children after it
/// are not asked; when every child is false, so is the union.
pub proof fn lemma_union_first(
    schema: SchemaView,
    oracle: Oracle,
    fuel: nat,
    v: Seq<RewriteView>,
    k: int,
    object: ObjectView,
    relation: Seq<char>,
    subject: SubjectView,
)
    requires
        0 <= k <= v.len(),
        forall|i: int|
            0 <= i < k ==> check_rewrite(schema, oracle, fuel, #[trigger] v[i], object, relation, subject)
                == Verdict::Decided(Ok(false)),
    ensures
        k == v.len() ==> check_union(schema, oracle, fuel, v, 0, object, relation, subject)
            == Verdict::Decided(Ok(false)),
        k < v.len() && check_rewrite(schema, oracle, fuel, v[k], object, relation, subject)
            != Verdict::Decided(Ok(false)) ==> check_union(
            schema,
            oracle,
            fuel,
            v,
            0,
            object,
            relation,
            subject,
        ) == check_rewrite(schema, oracle, fuel, v[k], object, relation, subject),
{
    lemma_union_skip(schema, oracle, fuel, v, 0, k, object, relation, subject);
}

proof fn lemma_intersection_skip(
    schema: SchemaView,
    oracle: Oracle,
    fuel: nat,
    v: Seq<RewriteView>,
    j: int,
    k: int,
    object: ObjectView,
    relation: Seq<char>,
    subject: SubjectView,
)
    requires
        0 <= j <= k <= v.len(),
        forall|i: int|
            0 <= i < k ==> check_rewrite(schema, oracle, fuel, #[trigger] v[i], object, relation, subject)
                == Verdict::Decided(Ok(true)),
    ensures
        check_intersection(schema, oracle, fuel, v, j, object, relation, subject)
            == check_intersection(schema, oracle, fuel, v, k, object, relation, subject),
    decreases k - j,
{
    if j < k {
        lemma_intersection_skip(schema, oracle, fuel, v, j + 1, k, object, relation, subject);
    }
}

/// An intersection's verdict is that of its first child whose verdict is not
/// "true" (an answer `false`, an error, or a read it needs), and children
/// after it are not asked; when every child is true, so is the intersection.
pub proof fn lemma_intersection_first(
    schema: SchemaView,
    oracle: Oracle,
    fuel: nat,
    v: Seq<RewriteView>,
    k: int,
    object: ObjectView,
    relation: Seq<char>,
    subject: SubjectView,
)
    requires
        0 <= k <= v.len(),
        forall|i: int|
            0 <= i < k ==> check_rewrite(schema, oracle, fuel, #[trigger] v[i], object, relation, subject)
                == Verdict::Decided(Ok(true)),
    ensures
        k == v.len() ==> check_intersection(schema, oracle, fuel, v, 0, object, relation, subject)
            == Verdict::Decided(Ok(true)),
        k < v.len() && check_rewrite(schema, oracle, fuel, v[k], object, relation, subject)
            != Verdict::Decided(Ok(true)) ==> check_intersection(
            schema,
            oracle,
            fuel,
            v,
            0,
            object,
            relation,
            subject,
        ) == check_rewrite(schema, oracle, fuel, v[k], object, relation, subject),
{
    lemma_intersection_skip(schema, oracle, fuel, v, 0, k, object, relation, subject);
}

/// The verdict that a parent gives in a tuple-to-userset: the wildcard names
/// no object and counts as "false"; an object is asked for `computed`.
pub open spec fn parent_verdict(
    schema: SchemaView,
    oracle: Oracle,
    fuel: nat,
    parent: SubjectView,
    computed: Seq<char>,
    subject: SubjectView,
) -> Verdict {
    match parent {
        SubjectView::Wildcard => Verdict::Decided(Ok(false)),
        SubjectView::User { object: p, .. } => check_relation(schema, oracle, fuel, p, computed, subject),
    }
}

proof fn lemma_parents_skip(
    schema: SchemaView,
    oracle: Oracle,
    fuel: nat,
    parents: Seq<SubjectView>,
    j: int,
    k: int,
    computed: Seq<char>,
    subject: SubjectView,
)
    requires
        0 <= j <= k <= parents.len(),
        forall|i: int|
            0 <= i < k ==> parent_verdict(schema, oracle, fuel, #[trigger] parents[i], computed, subject)
                == Verdict::Decided(Ok(false)),
    ensures
        check_parents(schema, oracle, fuel, parents, j, computed, subject) == check_parents(
            schema,
            oracle,
            fuel,
            parents,
            k,
            computed,
            subject,
        ),
    decreases k - j,
{
    if j < k {
        lemma_parents_skip(schema, oracle, fuel, parents, j + 1, k, computed, subject);
    }
}

/// A tuple-to-userset asks `computed` of the stored parents in order: its
/// verdict is that of the first parent whose verdict is not "false", and later
/// parents are not asked; when no parent grants, it is false.
pub proof fn lemma_parents_first(
    schema: SchemaView,
    oracle: Oracle,
    fuel: nat,
    parents: Seq<SubjectView>,
    k: int,
    computed: Seq<char>,
    subject: SubjectView,
)
    requires
        0 <= k <= parents.len(),
        forall|i: int|
            0 <= i < k ==> parent_verdict(schema, oracle, fuel, #[trigger] parents[i], computed, subject)
                == Verdict::Decided(Ok(false)),
    ensures
        k == parents.len() ==> check_parents(schema, oracle, fuel, parents, 0, computed, subject)
            == Verdict::Decided(Ok(false)),
        k < parents.len() && parent_verdict(schema, oracle, fuel, parents[k], computed, subject)
            != Verdict::Decided(Ok(false)) ==> check_parents(
            schema,
            oracle,
            fuel,
            parents,
            0,
            computed,
            subject,
        ) == parent_verdict(schema, oracle, fuel, parents[k], computed, subject),
{
    lemma_parents_skip(schema, oracle, fuel, parents, 0, k, computed, subject);
}

/// A tuple-to-userset `computed from tupleset` on `object` first reads the
/// objects stored under `tupleset`, then asks each of them, in order, the
/// computed relation `computed`, whatever relation is being checked: the
/// verdict is that of the first parent that does not answer "false", and
/// false when none grants.
pub proof fn lemma_tuple_to_userset(
    schema: SchemaView,
    oracle: Oracle,
    fuel: nat,
    tupleset: Seq<char>,
    computed: Seq<char>,
    object: ObjectView,
    relation: Seq<char>,
    other_relation: Seq<char>,
    subject: SubjectView,
    k: int,
)
    requires
        fuel > 0,
    ensures
        check_rewrite(
            schema,
            oracle,
            fuel,
            RewriteView::TupleToUserset { tupleset, computed },
            object,
            relation,
            subject,
        ) == check_rewrite(
            schema,
            oracle,
            fuel,
            RewriteView::TupleToUserset { tupleset, computed },
            object,
            other_relation,
            subject,
        ),
        oracle(object, tupleset) is None ==> check_rewrite(
            schema,
            oracle,
            fuel,
            RewriteView::TupleToUserset { tupleset, computed },
            object,
            relation,
            subject,
        ) == Verdict::Need(object, tupleset),
        oracle(object, tupleset) matches Some(Err(e)) ==> check_rewrite(
            schema,
            oracle,
            fuel,
            RewriteView::TupleToUserset { tupleset, computed },
            object,
            relation,
            subject,
        ) == Verdict::Decided(Err(CheckErrorView::Store(e))),
        oracle(object, tupleset) matches Some(Ok(ps)) ==> (0 <= k <= ps.len() && (forall|i: int|
            0 <= i < k ==> parent_verdict(
                schema,
                oracle,
                (fuel - 1) as nat,
                #[trigger] ps[i],
                computed,
                subject,
            ) == Verdict::Decided(Ok(false))) ==> {
            let r = check_rewrite(
                schema,
                oracle,
                fuel,
                RewriteView::TupleToUserset { tupleset, computed },
                object,
                relation,
                subject,
            );
            &&& k == ps.len() ==> r == Verdict::Decided(Ok(false))
            &&& k < ps.len() && parent_verdict(schema, oracle, (fuel - 1) as nat, ps[k], computed, subject)
                != Verdict::Decided(Ok(false)) ==> r == parent_verdict(
                schema,
                oracle,
                (fuel - 1) as nat,
                ps[k],
                computed,
                subject,
            )
        }),
{
    if let Some(Ok(ps)) = oracle(object, tupleset) {
        if 0 <= k <= ps.len() && (forall|i: int|
            0 <= i < k ==> parent_verdict(
                schema,
                oracle,
                (fuel - 1) as nat,
                #[trigger] ps[i],
                computed,
                subject,
            ) == Verdict::Decided(Ok(false))) {
            lemma_parents_first(schema, oracle, (fuel - 1) as nat, ps, k, computed, subject);
        }
    }
}

/// An exclusion `base but not sub` holds only where its base holds: a base
/// that answers false makes it false without asking `sub`; a base that
/// answers true makes it the negation of `sub`'s answer; a base that does not
/// answer (an error, a read it needs) is the exclusion's verdict.
pub proof fn lemma_exclusion(
    schema: SchemaView,
    oracle: Oracle,
    fuel: nat,
    base: RewriteView,
    sub: RewriteView,
    object: ObjectView,
    relation: Seq<char>,
    subject: SubjectView,
)
    requires
        fuel > 0,
    ensures
        ({
            let f = (fuel - 1) as nat;
            let b = check_rewrite(schema, oracle, f, base, object, relation, subject);
            let s = check_rewrite(schema, oracle, f, sub, object, relation, subject);
            let r = check_rewrite(
                schema,
                oracle,
                fuel,
                RewriteView::Exclusion(Box::new(base), Box::new(sub)),
                object,
                relation,
                subject,
            );
            &&& b == Verdict::Decided(Ok(false)) ==> r == Verdict::Decided(Ok(false))
            &&& b == Verdict::Decided(Ok(true)) ==> match s {
                Verdict::Decided(Ok(x)) => r == Verdict::Decided(Ok(!x)),
                _ => r == s,
            }
            &&& !(b matches Verdict::Decided(Ok(_))) ==> r == b
            &&& r == Verdict::Decided(Ok(true)) ==> b == Verdict::Decided(Ok(true)) && s
                == Verdict::Decided(Ok(false))
        }),
{
}

/// Every read that `o1` answers, `o2` answers the same way.
pub open spec fn extends(o1: Oracle, o2: Oracle) -> bool {
    forall|k: ObjectView, r: Seq<char>| (#[trigger] o1(k, r)) is Some ==> o2(k, r) == o1(k, r)
}

/// A check that did not stop at a missing read gives the same verdict when
/// more reads are answered.
pub proof fn lemma_extend_relation(
    schema: SchemaView,
    o1: Oracle,
    o2: Oracle,
    fuel: nat,
    object: ObjectView,
    relation: Seq<char>,
    subject: SubjectView,
)
    requires
        extends(o1, o2),
        !(check_relation(schema, o1, fuel, object, relation, subject) is Need),
    ensures
        check_relation(schema, o2, fuel, object, relation, subject) == check_relation(
            schema,
            o1,
            fuel,
            object,
            relation,
            subject,
        ),
    decreases fuel, 0int,
{
    if fuel > 0 {
        if let Some(rw) = schema_rewrite(schema, object.namespace, relation) {
            lemma_extend_rewrite(schema, o1, o2, (fuel - 1) as nat, rw, object, relation, subject);
        }
    }
}

/// As [`lemma_extend_relation`], for a rewrite.
pub proof fn lemma_extend_rewrite(
    schema: SchemaView,
    o1: Oracle,
    o2: Oracle,
    fuel: nat,
    rw: RewriteView,
    object: ObjectView,
    relation: Seq<char>,
    subject: SubjectView,
)
    requires
        extends(o1, o2),
        !(check_rewrite(schema, o1, fuel, rw, object, relation, subject) is Need),
    ensures
        check_rewrite(schema, o2, fuel, rw, object, relation, subject) == check_rewrite(
            schema,
            o1,
            fuel,
            rw,
            object,
            relation,
            subject,
        ),
    decreases fuel, 0int,
{
    if fuel > 0 {
        let f = (fuel - 1) as nat;
        match rw {
            RewriteView::This { .. } => {
                assert(o1(object, relation) is Some);
            },
            RewriteView::ComputedUserset { relation: r } => {
                lemma_extend_relation(schema, o1, o2, f, object, r, subject);
            },
            RewriteView::TupleToUserset { tupleset, computed } => {
                assert(o1(object, tupleset) is Some);
                if let Some(Ok(parents)) = o1(object, tupleset) {
                    lemma_extend_parents(schema, o1, o2, f, parents, 0, computed, subject);
                }
            },
            RewriteView::Union(v) => {
                lemma_extend_union(schema, o1, o2, f, v, 0, object, relation, subject);
            },
            RewriteView::Intersection(v) => {
                lemma_extend_intersection(schema, o1, o2, f, v, 0, object, relation, subject);
            },
            RewriteView::Exclusion(a, b) => {
                lemma_extend_rewrite(schema, o1, o2, f, *a, object, relation, subject);
                if check_rewrite(schema, o1, f, *a, object, relation, subject) == Verdict::Decided(
                    Ok(true),
                ) {
                    lemma_extend_rewrite(schema, o1, o2, f, *b, object, relation, subject);
                }
            },
        }
    }
}

/// As [`lemma_extend_relation`], for the children of a union.
pub proof fn lemma_extend_union(
    schema: SchemaView,
    o1: Oracle,
    o2: Oracle,
    fuel: nat,
    v: Seq<RewriteView>,
    i: int,
    object: ObjectView,
    relation: Seq<char>,
    subject: SubjectView,
)
    requires
        extends(o1, o2),
        !(check_union(schema, o1, fuel, v, i, object, relation, subject) is Need),
    ensures
        check_union(schema, o2, fuel, v, i, object, relation, subject) == check_union(
            schema,
            o1,
            fuel,
            v,
            i,
            object,
            relation,
            subject,
        ),
    decreases fuel, v.len() - i,
{
    if 0 <= i < v.len() {
        lemma_extend_rewrite(schema, o1, o2, fuel, v[i], object, relation, subject);
        if check_rewrite(schema, o1, fuel, v[i], object, relation, subject) == Verdict::Decided(
            Ok(false),
        ) {
            lemma_extend_union(schema, o1, o2, fuel, v, i + 1, object, relation, subject);
        }
    }
}

/// As [`lemma_extend_relation`], for the children of an intersection.
pub proof fn lemma_extend_intersection(
    schema: SchemaView,
    o1: Oracle,
    o2: Oracle,
    fuel: nat,
    v: Seq<RewriteView>,
    i: int,
    object: ObjectView,
    relation: Seq<char>,
    subject: SubjectView,
)
    requires
        extends(o1, o2),
        !(check_intersection(schema, o1, fuel, v, i, object, relation, subject) is Need),
    ensures
        check_intersection(schema, o2, fuel, v, i, object, relation, subject)
            == check_intersection(schema, o1, fuel, v, i, object, relation, subject),
    decreases fuel, v.len() - i,
{
    if 0 <= i < v.len() {
        lemma_extend_rewrite(schema, o1, o2, fuel, v[i], object, relation, subject);
        if check_rewrite(schema, o1, fuel, v[i], object, relation, subject) == Verdict::Decided(
            Ok(true),
        ) {
            lemma_extend_intersection(schema, o1, o2, fuel, v, i + 1, object, relation, subject);
        }
    }
}

/// As [`lemma_extend_relation`], for the parents of a tuple-to-userset.
pub proof fn lemma_extend_parents(
    schema: SchemaView,
    o1: Oracle,
    o2: Oracle,
    fuel: nat,
    parents: Seq<SubjectView>,
    i: int,
    computed: Seq<char>,
    subject: SubjectView,
)
    requires
        extends(o1, o2),
        !(check_parents(schema, o1, fuel, parents, i, computed, subject) is Need),
    ensures
        check_parents(schema, o2, fuel, parents, i, computed, subject) == check_parents(
            schema,
            o1,
            fuel,
            parents,
            i,
            computed,
            subject,
        ),
    decreases fuel, parents.len() - i,
{
    if 0 <= i < parents.len() {
        match parents[i] {
            SubjectView::Wildcard => {
                lemma_extend_parents(schema, o1, o2, fuel, parents, i + 1, computed, subject);
            },
            SubjectView::User { object: p, .. } => {
                lemma_extend_relation(schema, o1, o2, fuel, p, computed, subject);
                if check_relation(schema, o1, fuel, p, computed, subject) == Verdict::Decided(
                    Ok(false),
                ) {
                    lemma_extend_parents(schema, o1, o2, fuel, parents, i + 1, computed, subject);
                }
            },
        }
    }
}

/// A check that did not run out of fuel gives the same verdict with more fuel.
pub proof fn lemma_fuel_relation(
    schema: SchemaView,
    oracle: Oracle,
    f1: nat,
    f2: nat,
    object: ObjectView,
    relation: Seq<char>,
    subject: SubjectView,
)
    requires
        f1 <= f2,
        !(check_relation(schema, oracle, f1, object, relation, subject) is OutOfFuel),
    ensures
        check_relation(schema, oracle, f2, object, relation, subject) == check_relation(
            schema,
            oracle,
            f1,
            object,
            relation,
            subject,
        ),
    decreases f1, 0int,
{
    if let Some(rw) = schema_rewrite(schema, object.namespace, relation) {
        lemma_fuel_rewrite(
            schema,
            oracle,
            (f1 - 1) as nat,
            (f2 - 1) as nat,
            rw,
            object,
            relation,
            subject,
        );
    }
}

/// As [`lemma_fuel_relation`], for a rewrite.
pub proof fn lemma_fuel_rewrite(
    schema: SchemaView,
    oracle: Oracle,
    f1: nat,
    f2: nat,
    rw: RewriteView,
    object: ObjectView,
    relation: Seq<char>,
    subject: SubjectView,
)
    requires
        f1 <= f2,
        !(check_rewrite(schema, oracle, f1, rw, object, relation, subject) is OutOfFuel),
    ensures
        check_rewrite(schema, oracle, f2, rw, object, relation, subject) == check_rewrite(
            schema,
            oracle,
            f1,
            rw,
            object,
            relation,
            subject,
        ),
    decreases f1, 0int,
{
    let g1 = (f1 - 1) as nat;
    let g2 = (f2 - 1) as nat;
    match rw {
        RewriteView::This { .. } => {},
        RewriteView::ComputedUserset { relation: r } => {
            lemma_fuel_relation(schema, oracle, g1, g2, object, r, subject);
        },
        RewriteView::TupleToUserset { tupleset, computed } => {
            if let Some(Ok(parents)) = oracle(object, tupleset) {
                lemma_fuel_parents(schema, oracle, g1, g2, parents, 0, computed, subject);
            }
        },
        RewriteView::Union(v) => {
            lemma_fuel_union(schema, oracle, g1, g2, v, 0, object, relation, subject);
        },
        RewriteView::Intersection(v) => {
            lemma_fuel_intersection(schema, oracle, g1, g2, v, 0, object, relation, subject);
        },
        RewriteView::Exclusion(a, b) => {
            lemma_fuel_rewrite(schema, oracle, g1, g2, *a, object, relation, subject);
            if check_rewrite(schema, oracle, g1, *a, object, relation, subject)
                == Verdict::Decided(Ok(true)) {
                lemma_fuel_rewrite(schema, oracle, g1, g2, *b, object, relation, subject);
            }
        },
    }
}

/// As [`lemma_fuel_relation`], for the children of a union.
pub proof fn lemma_fuel_union(
    schema: SchemaView,
    oracle: Oracle,
    f1: nat,
    f2: nat,
    v: Seq<RewriteView>,
    i: int,
    object: ObjectView,
    relation: Seq<char>,
    subject: SubjectView,
)
    requires
        f1 <= f2,
        !(check_union(schema, oracle, f1, v, i, object, relation, subject) is OutOfFuel),
    ensures
        check_union(schema, oracle, f2, v, i, object, relation, subject) == check_union(
            schema,
            oracle,
            f1,
            v,
            i,
            object,
            relation,
            subject,
        ),
    decreases f1, v.len() - i,
{
    if 0 <= i < v.len() {
        lemma_fuel_rewrite(schema, oracle, f1, f2, v[i], object, relation, subject);
        if check_rewrite(schema, oracle, f1, v[i], object, relation, subject) == Verdict::Decided(
            Ok(false),
        ) {
            lemma_fuel_union(schema, oracle, f1, f2, v, i + 1, object, relation, subject);
        }
    }
}

/// As [`lemma_fuel_relation`], for the children of an intersection.
pub proof fn lemma_fuel_intersection(
    schema: SchemaView,
    oracle: Oracle,
    f1: nat,
    f2: nat,
    v: Seq<RewriteView>,
    i: int,
    object: ObjectView,
    relation: Seq<char>,
    subject: SubjectView,
)
    requires
        f1 <= f2,
        !(check_intersection(schema, oracle, f1, v, i, object, relation, subject) is OutOfFuel),
    ensures
        check_intersection(schema, oracle, f2, v, i, object, relation, subject)
            == check_intersection(schema, oracle, f1, v, i, object, relation, subject),
    decreases f1, v.len() - i,
{
    if 0 <= i < v.len() {
        lemma_fuel_rewrite(schema, oracle, f1, f2, v[i], object, relation, subject);
        if check_rewrite(schema, oracle, f1, v[i], object, relation, subject) == Verdict::Decided(
            Ok(true),
        ) {
            lemma_fuel_intersection(schema, oracle, f1, f2, v, i + 1, object, relation, subject);
        }
    }
}

/// As [`lemma_fuel_relation`], for the parents of a tuple-to-userset.
pub proof fn lemma_fuel_parents(
    schema: SchemaView,
    oracle: Oracle,
    f1: nat,
    f2: nat,
    parents: Seq<SubjectView>,
    i: int,
    computed: Seq<char>,
    subject: SubjectView,
)
    requires
        f1 <= f2,
        !(check_parents(schema, oracle, f1, parents, i, computed, subject) is OutOfFuel),
    ensures
        check_parents(schema, oracle, f2, parents, i, computed, subject) == check_parents(
            schema,
            oracle,
            f1,
            parents,
            i,
            computed,
            subject,
        ),
    decreases f1, parents.len() - i,
{
    if 0 <= i < parents.len() {
        match parents[i] {
            SubjectView::Wildcard => {
                lemma_fuel_parents(schema, oracle, f1, f2, parents, i + 1, computed, subject);
            },
            SubjectView::User { object: p, .. } => {
                lemma_fuel_relation(schema, oracle, f1, f2, p, computed, subject);
                if check_relation(schema, oracle, f1, p, computed, subject) == Verdict::Decided(
                    Ok(false),
                ) {
                    lemma_fuel_parents(schema, oracle, f1, f2, parents, i + 1, computed, subject);
                }
            },
        }
    }
}

/// A check asks only for reads that are still unanswered.
pub proof fn lemma_need_relation(
    schema: SchemaView,
    oracle: Oracle,
    fuel: nat,
    object: ObjectView,
    relation: Seq<char>,
    subject: SubjectView,
)
    ensures
        check_relation(schema, oracle, fuel, object, relation, subject) matches Verdict::Need(k, r)
            ==> oracle(k, r) is None,
    decreases fuel, 0int,
{
    if fuel > 0 {
        if let Some(rw) = schema_rewrite(schema, object.namespace, relation) {
            lemma_need_rewrite(schema, oracle, (fuel - 1) as nat, rw, object, relation, subject);
        }
    }
}

/// As [`lemma_need_relation`], for a rewrite.
pub proof fn lemma_need_rewrite(
    schema: SchemaView,
    oracle: Oracle,
    fuel: nat,
    rw: RewriteView,
    object: ObjectView,
    relation: Seq<char>,
    subject: SubjectView,
)
    ensures
        check_rewrite(schema, oracle, fuel, rw, object, relation, subject) matches Verdict::Need(
            k,
            r,
        ) ==> oracle(k, r) is None,
    decreases fuel, 0int,
{
    if fuel > 0 {
        let f = (fuel - 1) as nat;
        match rw {
            RewriteView::This { .. } => {},
            RewriteView::ComputedUserset { relation: r } => {
                lemma_need_relation(schema, oracle, f, object, r, subject);
            },
            RewriteView::TupleToUserset { tupleset, computed } => {
                if let Some(Ok(parents)) = oracle(object, tupleset) {
                    lemma_need_parents(schema, oracle, f, parents, 0, computed, subject);
                }
            },
            RewriteView::Union(v) => {
                lemma_need_union(schema, oracle, f, v, 0, object, relation, subject);
            },
            RewriteView::Intersection(v) => {
                lemma_need_intersection(schema, oracle, f, v, 0, object, relation, subject);
            },
            RewriteView::Exclusion(a, b) => {
                lemma_need_rewrite(schema, oracle, f, *a, object, relation, subject);
                lemma_need_rewrite(schema, oracle, f, *b, object, relation, subject);
            },
        }
    }
}

/// As [`lemma_need_relation`], for the children of a union.
pub proof fn lemma_need_union(
    schema: SchemaView,
    oracle: Oracle,
    fuel: nat,
    v: Seq<RewriteView>,
    i: int,
    object: ObjectView,
    relation: Seq<char>,
    subject: SubjectView,
)
    ensures
        check_union(schema, oracle, fuel, v, i, object, relation, subject) matches Verdict::Need(
            k,
            r,
        ) ==> oracle(k, r) is None,
    decreases fuel, v.len() - i,
{
    if 0 <= i < v.len() {
        lemma_need_rewrite(schema, oracle, fuel, v[i], object, relation, subject);
        lemma_need_union(schema, oracle, fuel, v, i + 1, object, relation, subject);
    }
}

/// As [`lemma_need_relation`], for the children of an intersection.
pub proof fn lemma_need_intersection(
    schema: SchemaView,
    oracle: Oracle,
    fuel: nat,
    v: Seq<RewriteView>,
    i: int,
    object: ObjectView,
    relation: Seq<char>,
    subject: SubjectView,
)
    ensures
        check_intersection(schema, oracle, fuel, v, i, object, relation, subject) matches
            Verdict::Need(k, r) ==> oracle(k, r) is None,
    decreases fuel, v.len() - i,
{
    if 0 <= i < v.len() {
        lemma_need_rewrite(schema, oracle, fuel, v[i], object, relation, subject);
        lemma_need_intersection(schema, oracle, fuel, v, i + 1, object, relation, subject);
    }
}

/// As [`lemma_need_relation`], for the parents of a tuple-to-userset.
pub proof fn lemma_need_parents(
    schema: SchemaView,
    oracle: Oracle,
    fuel: nat,
    parents: Seq<SubjectView>,
    i: int,
    computed: Seq<char>,
    subject: SubjectView,
)
    ensures
        check_parents(schema, oracle, fuel, parents, i, computed, subject) matches Verdict::Need(
            k,
            r,
        ) ==> oracle(k, r) is None,
    decreases fuel, parents.len() - i,
{
    if 0 <= i < parents.len() {
        if let SubjectView::User { object: p, .. } = parents[i] {
            lemma_need_relation(schema, oracle, fuel, p, computed, subject);
        }
        lemma_need_parents(schema, oracle, fuel, parents, i + 1, computed, subject);
    }
}

/// The subjects of a list, as values.
pub open spec fn subjects_view(v: Seq<SubjectRef>) -> Seq<SubjectView> {
    v.map_values(|s: SubjectRef| s@)
}

/// One answered read, as values.
pub struct DirectReadView {
    pub object: ObjectView,
    pub relation: Seq<char>,
    pub outcome: Result<Seq<SubjectView>, StoreErrorView>,
}

/// The outcome of reading the subjects of `relation` on `object`.
pub struct DirectRead {
    object: ObjectRef,
    relation: String,
    outcome: Result<Vec<SubjectRef>, StoreError>,
}

pub open spec fn outcome_view(o: Result<Vec<SubjectRef>, StoreError>) -> Result<
    Seq<SubjectView>,
    StoreErrorView,
> {
    match o {
        Ok(v) => Ok(subjects_view(v@)),
        Err(e) => Err(e@),
    }
}

impl View for DirectRead {
    type V = DirectReadView;

    closed spec fn view(&self) -> DirectReadView {
        DirectReadView {
            object: self.object@,
            relation: self.relation@,
            outcome: outcome_view(self.outcome),
        }
    }
}

pub open spec fn reads_view(v: Seq<DirectRead>) -> Seq<DirectReadView> {
    v.map_values(|d: DirectRead| d@)
}

/// The first recorded answer for `relation` on `object`.
pub open spec fn first_read(reads: Seq<DirectReadView>, object: ObjectView, relation: Seq<char>) -> Option<
    Result<Seq<SubjectView>, StoreErrorView>,
>
    decreases reads.len(),
{
    if reads.len() == 0 {
        None
    } else if reads[0].object == object && reads[0].relation == relation {
        Some(reads[0].outcome)
    } else {
        first_read(reads.subrange(1, reads.len() as int), object, relation)
    }
}

/// The reads recorded so far, as what the store answers.
pub open spec fn reads_oracle(reads: Seq<DirectReadView>) -> Oracle {
    |o: ObjectView, r: Seq<char>| first_read(reads, o, r)
}

/// A check in progress, as values.
pub struct CheckRunView {
    pub object: ObjectView,
    pub relation: Seq<char>,
    pub subject: SubjectView,
    pub reads: Seq<DirectReadView>,
    pub fuel: nat,
}

/// A check in progress: the question, the reads answered so far, and how many
/// steps the next evaluation may take.
pub struct CheckRun {
    object: ObjectRef,
    relation: String,
    subject: SubjectRef,
    reads: Vec<DirectRead>,
    fuel: u64,
}

impl View for CheckRun {
    type V = CheckRunView;

    closed spec fn view(&self) -> CheckRunView {
        CheckRunView {
            object: self.object@,
            relation: self.relation@,
            subject: self.subject@,
            reads: reads_view(self.reads@),
            fuel: self.fuel as nat,
        }
    }
}

/// The steps a check starts with.
pub open spec fn initial_fuel() -> nat {
    64
}

/// The steps allowed after running out: twice as many, up to the largest `u64`.
pub open spec fn next_fuel(fuel: nat) -> nat {
    if fuel <= u64::MAX / 2 {
        fuel * 2
    } else {
        u64::MAX as nat
    }
}

/// What the caller of [`Checker::step`] does next.
#[derive(Debug)]
pub enum CheckStep {
    /// Read the subjects of `relation` on `object` and record the outcome.
    Read { object: ObjectRef, relation: String },
    /// The check is over.
    Done(Result<bool, CheckError>),
    /// Step again: the check needs more steps than it had.
    Continue,
}

pub open spec fn check_result_view(r: Result<bool, CheckError>) -> Result<bool, CheckErrorView> {
    match r {
        Ok(b) => Ok(b),
        Err(e) => Err(e@),
    }
}

enum Outcome {
    Decided(Result<bool, CheckError>),
    Need(ObjectRef, String),
    OutOfFuel,
}

spec fn verdict_of(o: Outcome) -> Verdict {
    match o {
        Outcome::Decided(r) => Verdict::Decided(check_result_view(r)),
        Outcome::Need(k, r) => Verdict::Need(k@, r@),
        Outcome::OutOfFuel => Verdict::OutOfFuel,
    }
}

fn find_read(reads: &Vec<DirectRead>, object: &ObjectRef, relation: &str) -> (r: Option<usize>)
    ensures
        match r {
            Some(i) => i < reads@.len() && first_read(reads_view(reads@), object@, relation@)
                == Some(reads@[i as int]@.outcome),
            None => first_read(reads_view(reads@), object@, relation@) is None,
        },
{
    let ghost rv = reads_view(reads@);
    let mut i: usize = 0;
    assert(rv.subrange(0, rv.len() as int) =~= rv);
    while i < reads.len()
        invariant
            i <= reads@.len(),
            rv == reads_view(reads@),
            first_read(rv, object@, relation@) == first_read(
                rv.subrange(i as int, rv.len() as int),
                object@,
                relation@,
            ),
        decreases reads.len() - i,
    {
        let d = &reads[i];
        let ghost rest = rv.subrange(i as int, rv.len() as int);
        assert(rest[0] == d@);
        if d.object.same_as(object) && text_eq(d.relation.as_str(), relation) {
            return Some(i);
        }
        assert(rest.subrange(1, rest.len() as int) =~= rv.subrange(i + 1, rv.len() as int));
        i = i + 1;
    }
    None
}

fn contains_subject(v: &Vec<SubjectRef>, subject: &SubjectRef) -> (r: bool)
    ensures
        r == subjects_view(v@).contains(subject@),
{
    let ghost sv = subjects_view(v@);
    let mut i: usize = 0;
    while i < v.len()
        invariant
            i <= v@.len(),
            sv == subjects_view(v@),
            forall|j: int| 0 <= j < i ==> sv[j] != subject@,
        decreases v.len() - i,
    {
        if v[i].same_as(subject) {
            assert(sv[i as int] == subject@);
            return true;
        }
        i = i + 1;
    }
    false
}

fn read_outcome(reads: &Vec<DirectRead>, i: usize) -> (r: &Result<Vec<SubjectRef>, StoreError>)
    requires
        i < reads@.len(),
    ensures
        outcome_view(*r) == reads@[i as int]@.outcome,
{
    &reads[i].outcome
}

fn eval_relation(
    schema: &Schema,
    reads: &Vec<DirectRead>,
    fuel: u64,
    object: &ObjectRef,
    relation: &str,
    subject: &SubjectRef,
) -> (r: Outcome)
    ensures
        verdict_of(r) == check_relation(
            schema@,
            reads_oracle(reads_view(reads@)),
            fuel as nat,
            object@,
            relation@,
            subject@,
        ),
    decreases fuel, 0int,
{
    if fuel == 0 {
        return Outcome::OutOfFuel;
    }
    match schema.get_rewrite(object.namespace(), relation) {
        None => Outcome::Decided(
            Err(
                CheckError::UnknownRelation {
                    namespace: string_from(object.namespace()),
                    relation: string_from(relation),
                },
            ),
        ),
        Some(rw) => eval_rewrite(schema, reads, fuel - 1, rw, object, relation, subject),
    }
}

fn eval_rewrite(
    schema: &Schema,
    reads: &Vec<DirectRead>,
    fuel: u64,
    rw: &Rewrite,
    object: &ObjectRef,
    relation: &str,
    subject: &SubjectRef,
) -> (r: Outcome)
    ensures
        verdict_of(r) == check_rewrite(
            schema@,
            reads_oracle(reads_view(reads@)),
            fuel as nat,
            rw@,
            object@,
            relation@,
            subject@,
        ),
    decreases fuel, 0int,
{
    if fuel == 0 {
        return Outcome::OutOfFuel;
    }
    let f = fuel - 1;
    match rw {
        Rewrite::This { .. } => match find_read(reads, object, relation) {
            None => Outcome::Need(object.duplicate(), string_from(relation)),
            Some(i) => match read_outcome(reads, i) {
                Err(e) => Outcome::Decided(Err(CheckError::Store(e.duplicate()))),
                Ok(subjects) => Outcome::Decided(Ok(contains_subject(subjects, subject))),
            },
        },
        Rewrite::ComputedUserset { relation: r } => eval_relation(
            schema,
            reads,
            f,
            object,
            r.as_str(),
            subject,
        ),
        Rewrite::TupleToUserset { tupleset, computed } => match find_read(
            reads,
            object,
            tupleset.as_str(),
        ) {
            None => Outcome::Need(object.duplicate(), tupleset.clone()),
            Some(i) => match read_outcome(reads, i) {
                Err(e) => Outcome::Decided(Err(CheckError::Store(e.duplicate()))),
                Ok(parents) => eval_parents(
                    schema,
                    reads,
                    f,
                    parents,
                    0,
                    computed.as_str(),
                    subject,
                ),
            },
        },
        Rewrite::Union(v) => {
            proof {
                lemma_rewrites_view(v@);
            }
            eval_union(schema, reads, f, v, 0, object, relation, subject)
        },
        Rewrite::Intersection(v) => {
            proof {
                lemma_rewrites_view(v@);
            }
            eval_intersection(schema, reads, f, v, 0, object, relation, subject)
        },
        Rewrite::Exclusion(a, b) => {
            match eval_rewrite(schema, reads, f, a, object, relation, subject) {
                Outcome::Decided(Ok(true)) => match eval_rewrite(
                    schema,
                    reads,
                    f,
                    b,
                    object,
                    relation,
                    subject,
                ) {
                    Outcome::Decided(Ok(x)) => Outcome::Decided(Ok(!x)),
                    other => other,
                },
                other => other,
            }
        },
    }
}

fn eval_union(
    schema: &Schema,
    reads: &Vec<DirectRead>,
    fuel: u64,
    v: &Vec<Rewrite>,
    i: usize,
    object: &ObjectRef,
    relation: &str,
    subject: &SubjectRef,
) -> (r: Outcome)
    requires
        rewrites_view(v@).len() == v@.len(),
        forall|k: int| 0 <= k < v@.len() ==> #[trigger] rewrites_view(v@)[k] == v@[k]@,
    ensures
        verdict_of(r) == check_union(
            schema@,
            reads_oracle(reads_view(reads@)),
            fuel as nat,
            rewrites_view(v@),
            i as int,
            object@,
            relation@,
            subject@,
        ),
    decreases fuel, v@.len() - i,
{
    if i >= v.len() {
        return Outcome::Decided(Ok(false));
    }
    assert(rewrites_view(v@)[i as int] == v@[i as int]@);
    match eval_rewrite(schema, reads, fuel, &v[i], object, relation, subject) {
        Outcome::Decided(Ok(false)) => eval_union(
            schema,
            reads,
            fuel,
            v,
            i + 1,
            object,
            relation,
            subject,
        ),
        other => other,
    }
}

fn eval_intersection(
    schema: &Schema,
    reads: &Vec<DirectRead>,
    fuel: u64,
    v: &Vec<Rewrite>,
    i: usize,
    object: &ObjectRef,
    relation: &str,
    subject: &SubjectRef,
) -> (r: Outcome)
    requires
        rewrites_view(v@).len() == v@.len(),
        forall|k: int| 0 <= k < v@.len() ==> #[trigger] rewrites_view(v@)[k] == v@[k]@,
    ensures
        verdict_of(r) == check_intersection(
            schema@,
            reads_oracle(reads_view(reads@)),
            fuel as nat,
            rewrites_view(v@),
            i as int,
            object@,
            relation@,
            subject@,
        ),
    decreases fuel, v@.len() - i,
{
    if i >= v.len() {
        return Outcome::Decided(Ok(true));
    }
    assert(rewrites_view(v@)[i as int] == v@[i as int]@);
    match eval_rewrite(schema, reads, fuel, &v[i], object, relation, subject) {
        Outcome::Decided(Ok(true)) => eval_intersection(
            schema,
            reads,
            fuel,
            v,
            i + 1,
            object,
            relation,
            subject,
        ),
        other => other,
    }
}

fn eval_parents(
    schema: &Schema,
    reads: &Vec<DirectRead>,
    fuel: u64,
    parents: &Vec<SubjectRef>,
    i: usize,
    computed: &str,
    subject: &SubjectRef,
) -> (r: Outcome)
    ensures
        verdict_of(r) == check_parents(
            schema@,
            reads_oracle(reads_view(reads@)),
            fuel as nat,
            subjects_view(parents@),
            i as int,
            computed@,
            subject@,
        ),
    decreases fuel, parents@.len() - i,
{
    if i >= parents.len() {
        return Outcome::Decided(Ok(false));
    }
    assert(subjects_view(parents@)[i as int] == parents@[i as int]@);
    match &parents[i] {
        SubjectRef::Wildcard => eval_parents(
            schema,
            reads,
            fuel,
            parents,
            i + 1,
            computed,
            subject,
        ),
        SubjectRef::User { object: p, .. } => match eval_relation(
            schema,
            reads,
            fuel,
            p,
            computed,
            subject,
        ) {
            Outcome::Decided(Ok(false)) => eval_parents(
                schema,
                reads,
                fuel,
                parents,
                i + 1,
                computed,
                subject,
            ),
            other => other,
        },
    }
}

impl CheckRun {
    /// Records what the store answered to the read of `relation` on `object`.
    pub fn record(
        &mut self,
        object: ObjectRef,
        relation: String,
        outcome: Result<Vec<SubjectRef>, StoreError>,
    )
        ensures
            final(self)@ == (CheckRunView {
                reads: old(self)@.reads.push(
                    DirectReadView {
                        object: object@,
                        relation: relation@,
                        outcome: outcome_view(outcome),
                    },
                ),
                ..old(self)@
            }),
    {
        let d = DirectRead { object, relation, outcome };
        let ghost before = reads_view(self.reads@);
        let ghost dv = d@;
        self.reads.push(d);
        assert(reads_view(self.reads@) =~= before.push(dv));
    }
}

/// Answers permission checks against a schema.
pub struct Checker<'a> {
    schema: &'a Schema,
}

impl<'a> Checker<'a> {
    /// The schema the checker answers by.
    pub closed spec fn schema(&self) -> SchemaView {
        self.schema@
    }

    pub fn new(schema: &'a Schema) -> (r: Checker<'a>)
        ensures
            r.schema() == schema@,
    {
        Checker { schema }
    }

    /// Starts checking whether `subject` has `relation` on `object`.
    pub fn begin(&self, object: &ObjectRef, relation: &str, subject: &SubjectRef) -> (r: CheckRun)
        ensures
            r@ == (CheckRunView {
                object: object@,
                relation: relation@,
                subject: subject@,
                reads: Seq::empty(),
                fuel: initial_fuel(),
            }),
    {
        let reads: Vec<DirectRead> = Vec::new();
        assert(reads_view(reads@) =~= Seq::empty());
        CheckRun {
            object: object.duplicate(),
            relation: string_from(relation),
            subject: subject.duplicate(),
            reads,
            fuel: 64,
        }
    }

    /// Evaluates the check on the reads recorded so far: the verdict, the
    /// next read it needs, or, when the evaluation needs more steps, `Continue`
    /// with the allowance raised.
    pub fn step(&self, run: &mut CheckRun) -> (r: CheckStep)
        ensures
            match check_relation(
                self.schema(),
                reads_oracle(old(run)@.reads),
                old(run)@.fuel,
                old(run)@.object,
                old(run)@.relation,
                old(run)@.subject,
            ) {
                Verdict::Decided(res) => r matches CheckStep::Done(x) && check_result_view(x)
                    == res && final(run)@ == old(run)@,
                Verdict::Need(k, rel) => r matches CheckStep::Read { object, relation } && object@
                    == k && relation@ == rel && final(run)@ == old(run)@,
                Verdict::OutOfFuel => r is Continue && final(run)@ == (CheckRunView {
                    fuel: next_fuel(old(run)@.fuel),
                    ..old(run)@
                }),
            },
    {
        let v = eval_relation(
            self.schema,
            &run.reads,
            run.fuel,
            &run.object,
            run.relation.as_str(),
            &run.subject,
        );
        match v {
            Outcome::Decided(res) => CheckStep::Done(res),
            Outcome::Need(object, relation) => CheckStep::Read { object, relation },
            Outcome::OutOfFuel => {
                if run.fuel <= u64::MAX / 2 {
                    run.fuel = run.fuel * 2;
                } else {
                    run.fuel = u64::MAX;
                }
                CheckStep::Continue
            },
        }
    }
}

/// Every recorded read is what `store` holds.
pub open spec fn consistent(
    reads: Seq<DirectReadView>,
    store: spec_fn(ObjectView, Seq<char>) -> Result<Seq<SubjectView>, StoreErrorView>,
) -> bool {
    forall|i: int|
        0 <= i < reads.len() ==> (#[trigger] reads[i]).outcome == store(
            reads[i].object,
            reads[i].relation,
        )
}

/// A store that answers every read.
pub open spec fn store_oracle(
    store: spec_fn(ObjectView, Seq<char>) -> Result<Seq<SubjectView>, StoreErrorView>,
) -> Oracle {
    |o: ObjectView, r: Seq<char>| Some(store(o, r))
}

proof fn lemma_first_read_consistent(
    reads: Seq<DirectReadView>,
    store: spec_fn(ObjectView, Seq<char>) -> Result<Seq<SubjectView>, StoreErrorView>,
    object: ObjectView,
    relation: Seq<char>,
)
    requires
        consistent(reads, store),
    ensures
        first_read(reads, object, relation) matches Some(x) ==> x == store(object, relation),
    decreases reads.len(),
{
    if reads.len() > 0 {
        let rest = reads.subrange(1, reads.len() as int);
        assert forall|i: int| 0 <= i < rest.len() implies (#[trigger] rest[i]).outcome == store(
            rest[i].object,
            rest[i].relation,
        ) by {
            assert(rest[i] == reads[i + 1]);
        }
        lemma_first_read_consistent(rest, store, object, relation);
    }
}

/// The verdict of a check is the store's: when every recorded read is what the
/// store holds and the recorded reads decide the check, evaluating against the
/// whole store decides it the same way, with that fuel or any more.
pub proof fn lemma_run_verdict(
    schema: SchemaView,
    reads: Seq<DirectReadView>,
    store: spec_fn(ObjectView, Seq<char>) -> Result<Seq<SubjectView>, StoreErrorView>,
    fuel: nat,
    more: nat,
    object: ObjectView,
    relation: Seq<char>,
    subject: SubjectView,
)
    requires
        consistent(reads, store),
        check_relation(schema, reads_oracle(reads), fuel, object, relation, subject) is Decided,
        fuel <= more,
    ensures
        check_relation(schema, store_oracle(store), more, object, relation, subject)
            == check_relation(schema, reads_oracle(reads), fuel, object, relation, subject),
{
    let o1 = reads_oracle(reads);
    let o2 = store_oracle(store);
    assert forall|k: ObjectView, r: Seq<char>| (#[trigger] o1(k, r)) is Some implies o2(k, r)
        == o1(k, r) by {
        lemma_first_read_consistent(reads, store, k, r);
    }
    lemma_extend_relation(schema, o1, o2, fuel, object, relation, subject);
    lemma_fuel_relation(schema, o2, fuel, more, object, relation, subject);
}

/// A read that a check asks for has not been recorded yet.
pub proof fn lemma_step_asks_new_read(
    schema: SchemaView,
    reads: Seq<DirectReadView>,
    fuel: nat,
    object: ObjectView,
    relation: Seq<char>,
    subject: SubjectView,
)
    ensures
        check_relation(schema, reads_oracle(reads), fuel, object, relation, subject) matches
            Verdict::Need(k, r) ==> forall|i: int|
            0 <= i < reads.len() ==> !((#[trigger] reads[i]).object == k && reads[i].relation == r),
{
    lemma_need_relation(schema, reads_oracle(reads), fuel, object, relation, subject);
    if let Verdict::Need(k, r) = check_relation(
        schema,
        reads_oracle(reads),
        fuel,
        object,
        relation,
        subject,
    ) {
        lemma_first_read_none(reads, k, r);
    }
}

proof fn lemma_first_read_none(reads: Seq<DirectReadView>, object: ObjectView, relation: Seq<char>)
    ensures
        first_read(reads, object, relation) is None ==> forall|i: int|
            0 <= i < reads.len() ==> !((#[trigger] reads[i]).object == object && reads[i].relation
                == relation),
    decreases reads.len(),
{
    if reads.len() > 0 {
        let rest = reads.subrange(1, reads.len() as int);
        lemma_first_read_none(rest, object, relation);
        if first_read(reads, object, relation) is None {
            assert forall|i: int| 0 <= i < reads.len() implies !((#[trigger] reads[i]).object
                == object && reads[i].relation == relation) by {
                if i > 0 {
                    assert(reads[i] == rest[i - 1]);
                }
            }
        }
    }
}

} // verus!
