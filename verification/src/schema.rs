//! The authorization model: object types, their relations, and how each
//! relation is computed from stored tuples and other relations.
use vstd::prelude::*;
use std::ops::Range;
use crate::text::{byte_offset, chars_of, string_from, utf8_offset};

pub mod parser;
pub mod validator;

verus! {

/// How a type may appear in a direct relation: `user`, `user:*`, `group#member`.
pub enum TypeRefKindView {
    Direct,
    Wildcard,
    Userset(Seq<char>),
}

pub struct TypeRefView {
    pub namespace: Seq<char>,
    pub subject: TypeRefKindView,
}

/// A relation's rewrite rule, as values.
pub enum RewriteView {
    This { allowed: Seq<TypeRefView> },
    ComputedUserset { relation: Seq<char> },
    TupleToUserset { tupleset: Seq<char>, computed: Seq<char> },
    Union(Seq<RewriteView>),
    Intersection(Seq<RewriteView>),
    Exclusion(Box<RewriteView>, Box<RewriteView>),
}

#[derive(Debug)]
pub enum TypeRefKind {
    Direct,
    Wildcard,
    Userset(String),
}

impl View for TypeRefKind {
    type V = TypeRefKindView;

    open spec fn view(&self) -> TypeRefKindView {
        match self {
            TypeRefKind::Direct => TypeRefKindView::Direct,
            TypeRefKind::Wildcard => TypeRefKindView::Wildcard,
            TypeRefKind::Userset(r) => TypeRefKindView::Userset(r@),
        }
    }
}

/// A type allowed in a direct relation.
#[derive(Debug)]
pub struct TypeRef {
    pub namespace: String,
    pub subject: TypeRefKind,
}

impl View for TypeRef {
    type V = TypeRefView;

    open spec fn view(&self) -> TypeRefView {
        TypeRefView { namespace: self.namespace@, subject: self.subject@ }
    }
}

/// How a relation is computed.
#[derive(Debug)]
pub enum Rewrite {
    This { allowed: Vec<TypeRef> },
    ComputedUserset { relation: String },
    TupleToUserset { tupleset: String, computed: String },
    Union(Vec<Rewrite>),
    Intersection(Vec<Rewrite>),
    Exclusion(Box<Rewrite>, Box<Rewrite>),
}

pub open spec fn type_refs_view(s: Seq<TypeRef>) -> Seq<TypeRefView> {
    s.map_values(|t: TypeRef| t@)
}

pub open spec fn rewrite_view(r: Rewrite) -> RewriteView
    decreases r,
{
    match r {
        Rewrite::This { allowed } => RewriteView::This { allowed: type_refs_view(allowed@) },
        Rewrite::ComputedUserset { relation } => RewriteView::ComputedUserset {
            relation: relation@,
        },
        Rewrite::TupleToUserset { tupleset, computed } => RewriteView::TupleToUserset {
            tupleset: tupleset@,
            computed: computed@,
        },
        Rewrite::Union(v) => RewriteView::Union(rewrites_view(v@)),
        Rewrite::Intersection(v) => RewriteView::Intersection(rewrites_view(v@)),
        Rewrite::Exclusion(a, b) => RewriteView::Exclusion(
            Box::new(rewrite_view(*a)),
            Box::new(rewrite_view(*b)),
        ),
    }
}

pub open spec fn rewrites_view(s: Seq<Rewrite>) -> Seq<RewriteView>
    decreases s,
{
    if s.len() == 0 {
        Seq::empty()
    } else {
        rewrites_view(s.subrange(0, s.len() - 1)).push(rewrite_view(s[s.len() - 1]))
    }
}

impl View for Rewrite {
    type V = RewriteView;

    open spec fn view(&self) -> RewriteView {
        rewrite_view(*self)
    }
}

pub proof fn lemma_rewrites_view(s: Seq<Rewrite>)
    ensures
        rewrites_view(s).len() == s.len(),
        forall|i: int| 0 <= i < s.len() ==> #[trigger] rewrites_view(s)[i] == s[i]@,
    decreases s.len(),
{
    if s.len() > 0 {
        lemma_rewrites_view(s.subrange(0, s.len() - 1));
    }
}

/// An association list: the first entry with a key holds its value.
pub open spec fn is_key_index<V>(entries: Seq<(Seq<char>, V)>, key: Seq<char>, i: int) -> bool {
    &&& 0 <= i < entries.len()
    &&& entries[i].0 == key
    &&& forall|j: int| 0 <= j < i ==> (#[trigger] entries[j]).0 != key
}

pub open spec fn key_index<V>(entries: Seq<(Seq<char>, V)>, key: Seq<char>) -> Option<int> {
    if exists|i: int| is_key_index(entries, key, i) {
        Some(choose|i: int| is_key_index(entries, key, i))
    } else {
        None
    }
}

/// The value stored under `key`.
pub open spec fn lookup<V>(entries: Seq<(Seq<char>, V)>, key: Seq<char>) -> Option<V> {
    match key_index(entries, key) {
        Some(i) => Some(entries[i].1),
        None => None,
    }
}

/// Stores `value` under `key`, replacing an earlier value and keeping its place.
pub open spec fn insert<V>(entries: Seq<(Seq<char>, V)>, key: Seq<char>, value: V) -> Seq<
    (Seq<char>, V),
> {
    match key_index(entries, key) {
        Some(i) => entries.update(i, (key, value)),
        None => entries.push((key, value)),
    }
}

/// No key occurs twice.
pub open spec fn keys_unique<V>(entries: Seq<(Seq<char>, V)>) -> bool {
    forall|i: int, j: int|
        0 <= i < j < entries.len() ==> (#[trigger] entries[i]).0 != (#[trigger] entries[j]).0
}

/// The entries of `defs` stored in order, a later key overriding an earlier one.
pub open spec fn insert_all<V>(defs: Seq<(Seq<char>, V)>) -> Seq<(Seq<char>, V)>
    decreases defs.len(),
{
    if defs.len() == 0 {
        Seq::empty()
    } else {
        let last = defs[defs.len() - 1];
        insert(insert_all(defs.subrange(0, defs.len() - 1)), last.0, last.1)
    }
}

proof fn lemma_key_index_exists<V>(entries: Seq<(Seq<char>, V)>, key: Seq<char>, i: int)
    requires
        0 <= i < entries.len(),
        entries[i].0 == key,
    ensures
        exists|k: int| is_key_index(entries, key, k),
    decreases i,
{
    if exists|j: int| 0 <= j < i && entries[j].0 == key {
        let j = choose|j: int| 0 <= j < i && entries[j].0 == key;
        lemma_key_index_exists(entries, key, j);
    } else {
        assert(is_key_index(entries, key, i));
    }
}

/// How `key_index` answers: at the first entry with the key, or `None` when there is none.
pub proof fn lemma_key_index<V>(entries: Seq<(Seq<char>, V)>, key: Seq<char>)
    ensures
        key_index(entries, key) is None <==> (forall|j: int|
            0 <= j < entries.len() ==> (#[trigger] entries[j]).0 != key),
        key_index(entries, key) matches Some(i) ==> is_key_index(entries, key, i),
        forall|i: int| is_key_index(entries, key, i) ==> key_index(entries, key) == Some(i),
{
    if exists|j: int| 0 <= j < entries.len() && entries[j].0 == key {
        let j = choose|j: int| 0 <= j < entries.len() && entries[j].0 == key;
        lemma_key_index_exists(entries, key, j);
    }
    assert forall|i: int| is_key_index(entries, key, i) implies key_index(entries, key) == Some(
        i,
    ) by {
        let w = choose|k: int| is_key_index(entries, key, k);
        assert(is_key_index(entries, key, w));
        if w < i {
            assert(entries[w].0 != key);
        }
        if i < w {
            assert(entries[i].0 != key);
        }
    }
}

/// After storing a value under a key, reading that key gives the value, and
/// every other key reads as before; keys stay unique.
pub proof fn lemma_insert_lookup<V>(
    entries: Seq<(Seq<char>, V)>,
    key: Seq<char>,
    value: V,
    other: Seq<char>,
)
    ensures
        lookup(insert(entries, key, value), key) == Some(value),
        other != key ==> lookup(insert(entries, key, value), other) == lookup(entries, other),
        keys_unique(entries) ==> keys_unique(insert(entries, key, value)),
{
    let m = insert(entries, key, value);
    lemma_key_index(entries, key);
    lemma_key_index(entries, other);
    lemma_key_index(m, key);
    lemma_key_index(m, other);
    match key_index(entries, key) {
        Some(i) => {
            assert(is_key_index(m, key, i));
            if other != key {
                match key_index(entries, other) {
                    Some(k) => {
                        assert(is_key_index(m, other, k));
                    },
                    None => {
                        assert forall|j: int| 0 <= j < m.len() implies (#[trigger] m[j]).0
                            != other by {
                            if j != i {
                                assert(m[j] == entries[j]);
                            }
                        }
                    },
                }
            }
        },
        None => {
            assert(is_key_index(m, key, entries.len() as int));
            if other != key {
                match key_index(entries, other) {
                    Some(k) => {
                        assert(is_key_index(m, other, k));
                    },
                    None => {
                        assert forall|j: int| 0 <= j < m.len() implies (#[trigger] m[j]).0
                            != other by {
                            if j < entries.len() {
                                assert(m[j] == entries[j]);
                            }
                        }
                    },
                }
            }
        },
    }
}

/// Storing entries one after another keeps keys unique.
pub proof fn lemma_insert_all_unique<V>(defs: Seq<(Seq<char>, V)>)
    ensures
        keys_unique(insert_all(defs)),
    decreases defs.len(),
{
    if defs.len() > 0 {
        let last = defs[defs.len() - 1];
        lemma_insert_all_unique(defs.subrange(0, defs.len() - 1));
        lemma_insert_lookup(insert_all(defs.subrange(0, defs.len() - 1)), last.0, last.1, last.0);
    }
}

/// Storing entries keeps every value from among the stored ones: a property of
/// all given values holds of all stored values.
pub proof fn lemma_insert_all_preserves<V>(defs: Seq<(Seq<char>, V)>, pred: spec_fn(V) -> bool)
    requires
        forall|j: int| 0 <= j < defs.len() ==> pred(#[trigger] defs[j].1),
    ensures
        forall|i: int| 0 <= i < insert_all(defs).len() ==> pred(#[trigger] insert_all(defs)[i].1),
    decreases defs.len(),
{
    if defs.len() > 0 {
        let prefix = defs.subrange(0, defs.len() - 1);
        let last = defs[defs.len() - 1];
        assert forall|j: int| 0 <= j < prefix.len() implies pred(#[trigger] prefix[j].1) by {
            assert(prefix[j] == defs[j]);
        }
        lemma_insert_all_preserves(prefix, pred);
        let m = insert_all(prefix);
        let r = insert(m, last.0, last.1);
        assert(r == insert_all(defs));
        assert forall|i: int| 0 <= i < r.len() implies pred(#[trigger] r[i].1) by {
            match key_index(m, last.0) {
                Some(k) => {
                    if i != k {
                        assert(r[i] == m[i]);
                    }
                },
                None => {
                    if i < m.len() {
                        assert(r[i] == m[i]);
                    }
                },
            }
        }
    }
}

/// The value of the last entry of `defs` under `key`.
pub open spec fn last_def<V>(defs: Seq<(Seq<char>, V)>, key: Seq<char>) -> Option<V>
    decreases defs.len(),
{
    if defs.len() == 0 {
        None
    } else if defs[defs.len() - 1].0 == key {
        Some(defs[defs.len() - 1].1)
    } else {
        last_def(defs.subrange(0, defs.len() - 1), key)
    }
}

/// The keys of `defs`.
pub open spec fn keys_of<V>(defs: Seq<(Seq<char>, V)>) -> Set<Seq<char>> {
    defs.map_values(|e: (Seq<char>, V)| e.0).to_set()
}

/// A key has a last entry exactly when some entry has it.
pub proof fn lemma_last_def_some<V>(defs: Seq<(Seq<char>, V)>, key: Seq<char>)
    ensures
        last_def(defs, key) is Some <==> exists|i: int| 0 <= i < defs.len() && (#[trigger] defs[i]).0
            == key,
    decreases defs.len(),
{
    if defs.len() > 0 {
        let prefix = defs.subrange(0, defs.len() - 1);
        lemma_last_def_some(prefix, key);
        if exists|i: int| 0 <= i < prefix.len() && (#[trigger] prefix[i]).0 == key {
            let i = choose|i: int| 0 <= i < prefix.len() && (#[trigger] prefix[i]).0 == key;
            assert(defs[i] == prefix[i]);
        }
        if exists|i: int| 0 <= i < defs.len() && (#[trigger] defs[i]).0 == key {
            let i = choose|i: int| 0 <= i < defs.len() && (#[trigger] defs[i]).0 == key;
            if i < defs.len() - 1 {
                assert(prefix[i] == defs[i]);
            }
        }
    }
}

/// Reading a key of stored entries gives the value of its last entry: a later
/// definition overrides an earlier one.
pub proof fn lemma_insert_all_lookup<V>(defs: Seq<(Seq<char>, V)>, key: Seq<char>)
    ensures
        lookup(insert_all(defs), key) == last_def(defs, key),
    decreases defs.len(),
{
    if defs.len() > 0 {
        let prefix = defs.subrange(0, defs.len() - 1);
        let last = defs[defs.len() - 1];
        lemma_insert_all_lookup(prefix, key);
        lemma_insert_lookup(insert_all(prefix), last.0, last.1, key);
    }
}

/// Stored entries hold one entry per distinct key.
pub proof fn lemma_insert_all_len<V>(defs: Seq<(Seq<char>, V)>)
    ensures
        insert_all(defs).len() == keys_of(defs).len(),
        keys_of(defs).finite(),
    decreases defs.len(),
{
    let ks = defs.map_values(|e: (Seq<char>, V)| e.0);
    vstd::seq_lib::seq_to_set_is_finite(ks);
    if defs.len() == 0 {
        assert(keys_of(defs) =~= Set::<Seq<char>>::empty());
    } else {
        let prefix = defs.subrange(0, defs.len() - 1);
        let last = defs[defs.len() - 1];
        let pks = prefix.map_values(|e: (Seq<char>, V)| e.0);
        lemma_insert_all_len(prefix);
        assert(keys_of(defs) =~= keys_of(prefix).insert(last.0)) by {
            assert forall|k: Seq<char>| #[trigger] keys_of(defs).contains(k) implies keys_of(
                prefix,
            ).insert(last.0).contains(k) by {
                let i = choose|i: int| 0 <= i < ks.len() && ks[i] == k;
                if i < defs.len() - 1 {
                    assert(pks[i] == k);
                }
            }
            assert forall|k: Seq<char>| #[trigger] keys_of(prefix).insert(last.0).contains(k)
                implies keys_of(defs).contains(k) by {
                if k == last.0 {
                    assert(ks[defs.len() - 1] == k);
                } else {
                    let i = choose|i: int| 0 <= i < pks.len() && pks[i] == k;
                    assert(ks[i] == k);
                }
            }
        }
        let m = insert_all(prefix);
        lemma_key_index(m, last.0);
        lemma_insert_all_lookup(prefix, last.0);
        lemma_last_def_some(prefix, last.0);
        if keys_of(prefix).contains(last.0) {
            let i = choose|i: int| 0 <= i < pks.len() && pks[i] == last.0;
            assert(prefix[i].0 == last.0);
        } else {
            assert forall|i: int| 0 <= i < prefix.len() implies (#[trigger] prefix[i]).0 != last.0 by {
                assert(pks[i] == prefix[i].0);
            }
        }
    }
}

/// The relations of a type, as values.
pub open spec fn relations_view(v: Seq<(String, Rewrite)>) -> Seq<(Seq<char>, RewriteView)> {
    v.map_values(|e: (String, Rewrite)| (e.0@, e.1@))
}

/// A type and its relations, keyed by relation name.
#[derive(Debug)]
pub struct TypeDef {
    pub name: String,
    pub relations: Vec<(String, Rewrite)>,
}

pub open spec fn type_def_view(t: TypeDef) -> (Seq<char>, Seq<(Seq<char>, RewriteView)>) {
    (t.name@, relations_view(t.relations@))
}

impl View for TypeDef {
    type V = (Seq<char>, Seq<(Seq<char>, RewriteView)>);

    open spec fn view(&self) -> (Seq<char>, Seq<(Seq<char>, RewriteView)>) {
        type_def_view(*self)
    }
}

/// The types of a schema, as values.
pub open spec fn types_view(v: Seq<TypeDef>) -> SchemaView {
    v.map_values(|t: TypeDef| t@)
}

/// A schema as values: type names, each with its relations.
pub type SchemaView = Seq<(Seq<char>, Seq<(Seq<char>, RewriteView)>)>;

/// The rewrite of `relation` on type `name`.
pub open spec fn schema_rewrite(schema: SchemaView, name: Seq<char>, relation: Seq<char>) -> Option<
    RewriteView,
> {
    match lookup(schema, name) {
        Some(rels) => lookup(rels, relation),
        None => None,
    }
}

/// Every type and every type's relations have unique names.
pub open spec fn schema_wf(schema: SchemaView) -> bool {
    &&& keys_unique(schema)
    &&& forall|i: int| 0 <= i < schema.len() ==> keys_unique(#[trigger] schema[i].1)
}

/// Whatever types are given, the schema made of them names no type twice and,
/// within each type, no relation twice.
pub proof fn lemma_schema_of_wf(types: SchemaView)
    ensures
        schema_wf(schema_of(types)),
{
    let all = types.map_values(
        |t: (Seq<char>, Seq<(Seq<char>, RewriteView)>)| (t.0, insert_all(t.1)),
    );
    lemma_insert_all_unique(all);
    let pred = |rels: Seq<(Seq<char>, RewriteView)>| keys_unique(rels);
    assert forall|j: int| 0 <= j < all.len() implies pred(#[trigger] all[j].1) by {
        lemma_insert_all_unique(types[j].1);
    }
    lemma_insert_all_preserves(all, pred);
}

/// What a schema made of `types` holds: a type is defined exactly when some
/// block names it, and then holds the relations of the last block of that
/// name, each relation the rewrite of its last definition in that block; there
/// is one type per distinct name.
pub proof fn lemma_schema_of_lookup(types: SchemaView, name: Seq<char>, relation: Seq<char>)
    ensures
        lookup(schema_of(types), name) is Some <==> exists|i: int|
            0 <= i < types.len() && (#[trigger] types[i]).0 == name,
        lookup(schema_of(types), name) == match last_def(types, name) {
            Some(rels) => Some(insert_all(rels)),
            None => None,
        },
        schema_rewrite(schema_of(types), name, relation) == match last_def(types, name) {
            Some(rels) => last_def(rels, relation),
            None => None,
        },
        schema_of(types).len() == keys_of(types).len(),
{
    let g = |t: (Seq<char>, Seq<(Seq<char>, RewriteView)>)| (t.0, insert_all(t.1));
    let all = types.map_values(g);
    lemma_insert_all_lookup(all, name);
    lemma_last_def_mapped(types, name);
    lemma_last_def_some(types, name);
    if let Some(rels) = last_def(types, name) {
        lemma_insert_all_lookup(rels, relation);
    }
    lemma_insert_all_len(all);
    assert(all.map_values(|e: (Seq<char>, Seq<(Seq<char>, RewriteView)>)| e.0) =~= types.map_values(
        |e: (Seq<char>, Seq<(Seq<char>, RewriteView)>)| e.0,
    ));
}

proof fn lemma_last_def_mapped(types: SchemaView, name: Seq<char>)
    ensures
        last_def(
            types.map_values(
                |t: (Seq<char>, Seq<(Seq<char>, RewriteView)>)| (t.0, insert_all(t.1)),
            ),
            name,
        ) == match last_def(types, name) {
            Some(rels) => Some(insert_all(rels)),
            None => None,
        },
    decreases types.len(),
{
    if types.len() > 0 {
        let g = |t: (Seq<char>, Seq<(Seq<char>, RewriteView)>)| (t.0, insert_all(t.1));
        let prefix = types.subrange(0, types.len() - 1);
        lemma_last_def_mapped(prefix, name);
        assert(types.map_values(g).subrange(0, types.len() - 1) =~= prefix.map_values(g));
    }
}

/// The schema that holds `types` in order, with relations and types stored
/// one after another so that a later definition overrides an earlier one.
pub open spec fn schema_of(types: SchemaView) -> SchemaView {
    insert_all(types.map_values(|t: (Seq<char>, Seq<(Seq<char>, RewriteView)>)| (t.0, insert_all(t.1))))
}

/// All types of an authorization model.
#[derive(Debug)]
pub struct Schema {
    types: Vec<TypeDef>,
}

impl View for Schema {
    type V = SchemaView;

    closed spec fn view(&self) -> SchemaView {
        types_view(self.types@)
    }
}

fn same_text(a: &Vec<char>, b: &Vec<char>) -> (r: bool)
    ensures
        r == (a@ == b@),
{
    if a.len() != b.len() {
        return false;
    }
    let mut i: usize = 0;
    while i < a.len()
        invariant
            a@.len() == b@.len(),
            i <= a@.len(),
            forall|j: int| 0 <= j < i ==> a@[j] == b@[j],
        decreases a.len() - i,
    {
        if a[i] != b[i] {
            return false;
        }
        i = i + 1;
    }
    assert(a@ =~= b@);
    true
}

/// Whether two texts are equal.
pub fn text_eq(a: &str, b: &str) -> (r: bool)
    ensures
        r == (a@ == b@),
{
    let x = chars_of(a);
    let y = chars_of(b);
    same_text(&x, &y)
}

fn relation_index(rels: &Vec<(String, Rewrite)>, key: &str) -> (r: Option<usize>)
    ensures
        match r {
            Some(i) => key_index(relations_view(rels@), key@) == Some(i as int),
            None => key_index(relations_view(rels@), key@) is None,
        },
{
    let ghost v = relations_view(rels@);
    proof {
        lemma_key_index(v, key@);
    }
    let mut i: usize = 0;
    while i < rels.len()
        invariant
            v == relations_view(rels@),
            i <= rels@.len(),
            forall|j: int| 0 <= j < i ==> (#[trigger] v[j]).0 != key@,
        decreases rels.len() - i,
    {
        if text_eq(rels[i].0.as_str(), key) {
            assert(is_key_index(v, key@, i as int));
            return Some(i);
        }
        i = i + 1;
    }
    None
}

/// Stores `rewrite` as relation `name`, replacing an earlier one of that name.
pub fn insert_relation(rels: &mut Vec<(String, Rewrite)>, name: String, rewrite: Rewrite)
    ensures
        relations_view(final(rels)@) == insert(relations_view(old(rels)@), name@, rewrite@),
{
    let ghost before = relations_view(rels@);
    match relation_index(rels, name.as_str()) {
        Some(i) => {
            rels.set(i, (name, rewrite));
            assert(relations_view(rels@) =~= before.update(i as int, (name@, rewrite@)));
        },
        None => {
            rels.push((name, rewrite));
            assert(relations_view(rels@) =~= before.push((name@, rewrite@)));
        },
    }
}

fn type_index(types: &Vec<TypeDef>, key: &str) -> (r: Option<usize>)
    ensures
        match r {
            Some(i) => key_index(types_view(types@), key@) == Some(i as int),
            None => key_index(types_view(types@), key@) is None,
        },
{
    let ghost v = types_view(types@);
    proof {
        lemma_key_index(v, key@);
    }
    let mut i: usize = 0;
    while i < types.len()
        invariant
            v == types_view(types@),
            i <= types@.len(),
            forall|j: int| 0 <= j < i ==> (#[trigger] v[j]).0 != key@,
        decreases types.len() - i,
    {
        if text_eq(types[i].name.as_str(), key) {
            assert(is_key_index(v, key@, i as int));
            return Some(i);
        }
        i = i + 1;
    }
    None
}

/// Stores all of `defs` one after another.
fn insert_relations(defs: Vec<(String, Rewrite)>) -> (r: Vec<(String, Rewrite)>)
    ensures
        relations_view(r@) == insert_all(relations_view(defs@)),
{
    let ghost all = relations_view(defs@);
    let mut rest = defs;
    let mut r: Vec<(String, Rewrite)> = Vec::new();
    let ghost mut i: int = 0;
    while rest.len() > 0
        invariant
            0 <= i <= all.len(),
            relations_view(rest@) == all.subrange(i, all.len() as int),
            relations_view(r@) == insert_all(all.subrange(0, i)),
        decreases rest.len(),
    {
        let ghost old_rest = rest@;
        let (name, rewrite) = rest.remove(0);
        proof {
            assert(relations_view(old_rest).len() == old_rest.len());
            assert(i < all.len());
            assert(relations_view(old_rest)[0] == all.subrange(i, all.len() as int)[0]);
            assert(relations_view(old_rest)[0] == (old_rest[0].0@, old_rest[0].1@));
            assert(all[i] == (name@, rewrite@));
        }
        let ghost prev = all.subrange(0, i);
        insert_relation(&mut r, name, rewrite);
        proof {
            assert(all.subrange(0, i + 1).subrange(0, i) =~= prev);
            i = i + 1;
            assert forall|k: int| 0 <= k < rest@.len() implies #[trigger] relations_view(rest@)[k] == all[i + k] by {
                assert(rest@[k] == old_rest[k + 1]);
                assert(relations_view(old_rest)[k + 1] == all.subrange(i - 1, all.len() as int)[k + 1]);
            }
            assert(relations_view(rest@) =~= all.subrange(i, all.len() as int));
        }
    }
    assert(all.subrange(0, i) =~= all);
    r
}

/// Stores `def` as a type, replacing an earlier type of the same name.
fn insert_type(types: &mut Vec<TypeDef>, def: TypeDef)
    ensures
        types_view(final(types)@) == insert(
            types_view(old(types)@),
            def@.0,
            def@.1,
        ),
{
    let ghost before = types_view(types@);
    match type_index(types, def.name.as_str()) {
        Some(i) => {
            let ghost d = def@;
            types.set(i, def);
            assert(types_view(types@) =~= before.update(i as int, d));
        },
        None => {
            let ghost d = def@;
            types.push(def);
            assert(types_view(types@) =~= before.push(d));
        },
    }
}

impl Schema {
    #[verifier::type_invariant]
    spec fn inv(self) -> bool {
        schema_wf(self@)
    }

    /// A schema of the given types; a later type or relation of the same name
    /// overrides an earlier one.
    pub fn new(types: Vec<TypeDef>) -> (r: Schema)
        ensures
            r@ == schema_of(types_view(types@)),
    {
        let ghost given = types_view(types@);
        let ghost all = given.map_values(
            |t: (Seq<char>, Seq<(Seq<char>, RewriteView)>)| (t.0, insert_all(t.1)),
        );
        let mut rest = types;
        let mut out: Vec<TypeDef> = Vec::new();
        let ghost mut i: int = 0;
        while rest.len() > 0
            invariant
                0 <= i <= all.len(),
                all.len() == given.len(),
                all == given.map_values(
                    |t: (Seq<char>, Seq<(Seq<char>, RewriteView)>)| (t.0, insert_all(t.1)),
                ),
                types_view(rest@) == given.subrange(i, given.len() as int),
                types_view(out@) == insert_all(all.subrange(0, i)),
            decreases rest.len(),
        {
            let ghost old_rest = rest@;
            let def = rest.remove(0);
            proof {
                assert(types_view(old_rest).len() == old_rest.len());
                assert(i < given.len());
                assert(types_view(old_rest)[0] == old_rest[0]@);
                assert(given[i] == def@);
            }
            let TypeDef { name, relations } = def;
            let relations = insert_relations(relations);
            let ghost prev = all.subrange(0, i);
            insert_type(&mut out, TypeDef { name, relations });
            proof {
                assert(all.subrange(0, i + 1).subrange(0, i) =~= prev);
                i = i + 1;
                assert forall|k: int| 0 <= k < rest@.len() implies #[trigger] types_view(rest@)[k] == given[i + k] by {
                    assert(rest@[k] == old_rest[k + 1]);
                    assert(types_view(old_rest)[k + 1] == given.subrange(i - 1, given.len() as int)[k + 1]);
                }
                assert(types_view(rest@) =~= given.subrange(i, given.len() as int));
            }
        }
        proof {
            assert(all.subrange(0, i) =~= all);
            lemma_schema_of_wf(given);
        }
        Schema { types: out }
    }

    /// The rewrite of `relation` on type `name`.
    pub fn get_rewrite(&self, name: &str, relation: &str) -> (r: Option<&Rewrite>)
        ensures
            match r {
                Some(x) => schema_rewrite(self@, name@, relation@) == Some(x@),
                None => schema_rewrite(self@, name@, relation@) is None,
            },
    {
        let i = type_index(&self.types, name)?;
        let rels = &self.types[i as usize].relations;
        let j = relation_index(rels, relation)?;
        assert(relations_view(rels@)[j as int] == (rels@[j as int].0@, rels@[j as int].1@));
        Some(&rels[j].1)
    }

    /// Whether type `name` is defined.
    pub fn has_type(&self, name: &str) -> (r: bool)
        ensures
            r == lookup(self@, name@) is Some,
    {
        type_index(&self.types, name).is_some()
    }

    /// The definition of type `name`.
    pub fn type_def(&self, name: &str) -> (r: Option<&TypeDef>)
        ensures
            match r {
                Some(t) => t@.0 == name@ && lookup(self@, name@) == Some(t@.1),
                None => lookup(self@, name@) is None,
            },
    {
        match type_index(&self.types, name) {
            Some(i) => {
                proof {
                    lemma_key_index(self@, name@);
                }
                Some(&self.types[i])
            },
            None => None,
        }
    }

    /// The number of types; no two have the same name, and no type has two
    /// relations of the same name.
    pub fn type_count(&self) -> (r: usize)
        ensures
            r == self@.len(),
            schema_wf(self@),
    {
        proof {
            use_type_invariant(self);
        }
        self.types.len()
    }
}

/// Errors of a schema: syntax, or a relation that a rewrite names but its type does not define.
#[derive(Debug)]
pub enum SchemaError {
    Parse { message: String, span: Range<usize> },
    UndefinedRelation { namespace: String, relation: String, referenced_from: String },
}

pub enum SchemaErrorView {
    Parse { message: Seq<char>, start: int, end: int },
    UndefinedRelation { namespace: Seq<char>, relation: Seq<char>, referenced_from: Seq<char> },
}

impl View for SchemaError {
    type V = SchemaErrorView;

    open spec fn view(&self) -> SchemaErrorView {
        match self {
            SchemaError::Parse { message, span } => SchemaErrorView::Parse {
                message: message@,
                start: span.start as int,
                end: span.end as int,
            },
            SchemaError::UndefinedRelation { namespace, relation, referenced_from } =>
                SchemaErrorView::UndefinedRelation {
                namespace: namespace@,
                relation: relation@,
                referenced_from: referenced_from@,
            },
        }
    }
}

pub open spec fn errors_view(v: Seq<SchemaError>) -> Seq<SchemaErrorView> {
    v.map_values(|e: SchemaError| e@)
}

/// For any identifiers `d` and `x`, the text `type d relations define x:
/// [user]` is a valid schema: reading it gives type `d` whose relation `x` is
/// granted directly to `user`, and it has no validation error, so
/// [`parse_schema`] accepts it with that schema.
pub proof fn lemma_parse_define_direct(d: Seq<char>, x: Seq<char>)
    requires
        parser::is_identifier(d),
        parser::is_identifier(x),
    ensures
        parser::schema_text(parser::direct_define_text(d, x)) == Some(
            parser::direct_define_schema(d, x),
        ),
        schema_of(parser::direct_define_schema(d, x)) == parser::direct_define_schema(d, x),
        validator::validation_errors(schema_of(parser::direct_define_schema(d, x))).len() == 0,
        schema_rewrite(schema_of(parser::direct_define_schema(d, x)), d, x) == Some(
            RewriteView::This {
                allowed: seq![TypeRefView { namespace: "user"@, subject: TypeRefKindView::Direct }],
            },
        ),
{
    parser::lemma_define_direct(d, x);
    let types = parser::direct_define_schema(d, x);
    let rels = types[0].1;
    let e = rels[0];
    assert(rels.subrange(0, 0) =~= Seq::<(Seq<char>, RewriteView)>::empty());
    lemma_key_index(Seq::<(Seq<char>, RewriteView)>::empty(), e.0);
    assert(insert_all(rels.subrange(0, 0)) =~= Seq::<(Seq<char>, RewriteView)>::empty());
    assert(key_index(Seq::<(Seq<char>, RewriteView)>::empty(), e.0) is None);
    assert(insert_all(rels) =~= Seq::<(Seq<char>, RewriteView)>::empty().push(e));
    assert(insert_all(rels) =~= rels);
    let g = |t: (Seq<char>, Seq<(Seq<char>, RewriteView)>)| (t.0, insert_all(t.1));
    assert(types.map_values(g) =~= types);
    assert(types.subrange(0, 0) =~= SchemaView::empty());
    lemma_key_index(SchemaView::empty(), d);
    assert(insert_all(types.subrange(0, 0)) =~= SchemaView::empty());
    assert(key_index(SchemaView::empty(), d) is None);
    assert(insert_all(types) =~= SchemaView::empty().push(types[0]));
    assert(insert_all(types) =~= types);
    assert(schema_of(types) == types);
    assert(validator::relations_errors(d, rels.subrange(0, 0), rels) =~= Seq::<SchemaErrorView>::empty());
    assert(validator::relations_errors(d, rels, rels) =~= Seq::<SchemaErrorView>::empty());
    assert(validator::validation_errors(types.subrange(0, 0)) =~= Seq::<SchemaErrorView>::empty());
    assert(validator::validation_errors(types).len() == 0);
    lemma_schema_of_lookup(types, d, x);
    assert(last_def(types.subrange(0, 0), d) is None);
    assert(last_def(rels.subrange(0, 0), x) is None);
}

/// The message of a syntax error in a schema.
pub open spec fn syntax_error_message() -> Seq<char> {
    "unexpected input: expected a type definition or the end of the schema"@
}

/// Reads a schema text and checks that every relation a rewrite names is
/// defined on its type.
///
/// When the text is not a sequence of type blocks, the one error is a syntax
/// error whose span is the byte range, in the text, of the character where
/// reading stopped. Otherwise the
/// types are stored in order (a later type or relation of the same name
/// overriding an earlier one) and either all of them are well defined, or every
/// undefined reference is reported, type by type and relation by relation.
pub fn parse_schema(input: &str) -> (r: Result<Schema, Vec<SchemaError>>)
    ensures
        match parser::schema_text(input@) {
            None => r matches Err(errs) && errs@.len() == 1 && (errs@[0]@ matches
                SchemaErrorView::Parse { message, start, end } && message == syntax_error_message()
                && start == utf8_offset(input@, parser::schema_text_end(input@)) && end
                == utf8_offset(input@, parser::schema_text_end(input@) + 1)),
            Some(types) => if validator::validation_errors(schema_of(types)).len() == 0 {
                r matches Ok(s) && s@ == schema_of(types)
            } else {
                r matches Err(errs) && errors_view(errs@) == validator::validation_errors(
                    schema_of(types),
                )
            },
        },
{
    let cs = chars_of(input);
    match parser::read_schema(&cs) {
        Err(pos) => {
            let message = string_from(
                "unexpected input: expected a type definition or the end of the schema",
            );
            let start = byte_offset(input, pos);
            let end = byte_offset(input, pos + 1);
            let e = SchemaError::Parse { message, span: Range { start, end } };
            Err(vec![e])
        },
        Ok(raw) => {
            let schema = Schema::new(raw);
            let errors = validator::validate(&schema.types);
            if errors.len() == 0 {
                Ok(schema)
            } else {
                Err(errors)
            }
        },
    }
}

} // verus!
