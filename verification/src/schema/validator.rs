//! Every relation that a rewrite names must be defined on the same type.
use vstd::prelude::*;
use super::{
    lemma_key_index, lemma_rewrites_view, lookup, relation_index, relations_view, rewrites_view,
    types_view, Rewrite, RewriteView, SchemaError, SchemaErrorView, SchemaView, TypeDef,
    errors_view,
};
use crate::text::string_from;

verus! {

/// The error for `name`, referenced from relation `from` of type `ty`, when
/// `rels` does not define it.
pub open spec fn undefined_error(
    ty: Seq<char>,
    from: Seq<char>,
    name: Seq<char>,
    rels: Seq<(Seq<char>, RewriteView)>,
) -> Seq<SchemaErrorView> {
    if lookup(rels, name) is Some {
        Seq::empty()
    } else {
        seq![SchemaErrorView::UndefinedRelation { namespace: ty, relation: name, referenced_from: from }]
    }
}

/// The errors of one rewrite, in the order the rewrite names relations.
pub open spec fn rewrite_errors(
    ty: Seq<char>,
    from: Seq<char>,
    rw: RewriteView,
    rels: Seq<(Seq<char>, RewriteView)>,
) -> Seq<SchemaErrorView>
    decreases rw,
{
    match rw {
        RewriteView::This { .. } => Seq::empty(),
        RewriteView::ComputedUserset { relation } => undefined_error(ty, from, relation, rels),
        RewriteView::TupleToUserset { tupleset, computed } => undefined_error(
            ty,
            from,
            tupleset,
            rels,
        ) + undefined_error(ty, from, computed, rels),
        RewriteView::Union(v) => rewrites_errors(ty, from, v, rels),
        RewriteView::Intersection(v) => rewrites_errors(ty, from, v, rels),
        RewriteView::Exclusion(a, b) => rewrite_errors(ty, from, *a, rels) + rewrite_errors(
            ty,
            from,
            *b,
            rels,
        ),
    }
}

/// The errors of a list of rewrites, in order.
pub open spec fn rewrites_errors(
    ty: Seq<char>,
    from: Seq<char>,
    v: Seq<RewriteView>,
    rels: Seq<(Seq<char>, RewriteView)>,
) -> Seq<SchemaErrorView>
    decreases v,
{
    if v.len() == 0 {
        Seq::empty()
    } else {
        rewrites_errors(ty, from, v.subrange(0, v.len() - 1), rels) + rewrite_errors(
            ty,
            from,
            v[v.len() - 1],
            rels,
        )
    }
}

/// The errors of the relations `defs` of type `ty`, whose relations are `rels`.
pub open spec fn relations_errors(
    ty: Seq<char>,
    defs: Seq<(Seq<char>, RewriteView)>,
    rels: Seq<(Seq<char>, RewriteView)>,
) -> Seq<SchemaErrorView>
    decreases defs.len(),
{
    if defs.len() == 0 {
        Seq::empty()
    } else {
        let last = defs[defs.len() - 1];
        relations_errors(ty, defs.subrange(0, defs.len() - 1), rels) + rewrite_errors(
            ty,
            last.0,
            last.1,
            rels,
        )
    }
}

/// All errors of a schema: type by type, relation by relation.
pub open spec fn validation_errors(types: SchemaView) -> Seq<SchemaErrorView>
    decreases types.len(),
{
    if types.len() == 0 {
        Seq::empty()
    } else {
        let last = types[types.len() - 1];
        validation_errors(types.subrange(0, types.len() - 1)) + relations_errors(
            last.0,
            last.1,
            last.1,
        )
    }
}

fn report_undefined(
    ty: &str,
    from: &str,
    name: &String,
    rels: &Vec<(String, Rewrite)>,
    errors: &mut Vec<SchemaError>,
)
    ensures
        errors_view(final(errors)@) == errors_view(old(errors)@) + undefined_error(
            ty@,
            from@,
            name@,
            relations_view(rels@),
        ),
{
    proof {
        lemma_key_index(relations_view(rels@), name@);
    }
    let ghost before = errors_view(errors@);
    if relation_index(rels, name.as_str()).is_none() {
        let e = SchemaError::UndefinedRelation {
            namespace: string_from(ty),
            relation: name.clone(),
            referenced_from: string_from(from),
        };
        let ghost ev = e@;
        errors.push(e);
        assert(errors_view(errors@) =~= before + seq![ev]);
    } else {
        assert(errors_view(errors@) =~= before + Seq::<SchemaErrorView>::empty());
    }
}

/// Appends the errors of `rw`, a rewrite of relation `from` on type `ty`.
pub fn check_rewrite(
    ty: &str,
    from: &str,
    rw: &Rewrite,
    rels: &Vec<(String, Rewrite)>,
    errors: &mut Vec<SchemaError>,
)
    ensures
        errors_view(final(errors)@) == errors_view(old(errors)@) + rewrite_errors(
            ty@,
            from@,
            rw@,
            relations_view(rels@),
        ),
    decreases rw@,
{
    let ghost before = errors_view(errors@);
    let ghost rv = relations_view(rels@);
    match rw {
        Rewrite::This { .. } => {
            assert(errors_view(errors@) =~= before + Seq::<SchemaErrorView>::empty());
        },
        Rewrite::ComputedUserset { relation } => {
            report_undefined(ty, from, relation, rels, errors);
        },
        Rewrite::TupleToUserset { tupleset, computed } => {
            report_undefined(ty, from, tupleset, rels, errors);
            report_undefined(ty, from, computed, rels, errors);
            assert(errors_view(errors@) =~= before + (undefined_error(ty@, from@, tupleset@, rv)
                + undefined_error(ty@, from@, computed@, rv)));
        },
        Rewrite::Union(v) => {
            proof {
                lemma_rewrites_view(v@);
            }
            assert(rw@ == RewriteView::Union(rewrites_view(v@)));
            let mut i: usize = 0;
            assert(rewrites_view(v@).subrange(0, 0) =~= Seq::<RewriteView>::empty());
            assert(errors_view(errors@) =~= before + Seq::<SchemaErrorView>::empty());
            while i < v.len()
                invariant
                    rw@ == RewriteView::Union(rewrites_view(v@)),
                    i <= v@.len(),
                    rewrites_view(v@).len() == v@.len(),
                    forall|k: int| 0 <= k < v@.len() ==> #[trigger] rewrites_view(v@)[k] == v@[k]@,
                    rv == relations_view(rels@),
                    errors_view(errors@) == before + rewrites_errors(
                        ty@,
                        from@,
                        rewrites_view(v@).subrange(0, i as int),
                        rv,
                    ),
                decreases v.len() - i,
            {
                proof {
                    assert(rewrites_view(v@)[i as int] == v@[i as int]@);
                    assert(decreases_to!(rw@ => rw@->Union_0));
                    assert(decreases_to!(rewrites_view(v@) => rewrites_view(v@)[i as int]));
                }
                check_rewrite(ty, from, &v[i], rels, errors);
                proof {
                    let w = rewrites_view(v@);
                    assert(w.subrange(0, i + 1).subrange(0, i as int) =~= w.subrange(0, i as int));
                    assert(w.subrange(0, i + 1)[i as int] == v@[i as int]@);
                    assert(errors_view(errors@) =~= before + rewrites_errors(
                        ty@,
                        from@,
                        w.subrange(0, i + 1),
                        rv,
                    ));
                }
                i = i + 1;
            }
            assert(rewrites_view(v@).subrange(0, i as int) =~= rewrites_view(v@));
        },
        Rewrite::Intersection(v) => {
            proof {
                lemma_rewrites_view(v@);
            }
            assert(rw@ == RewriteView::Intersection(rewrites_view(v@)));
            let mut i: usize = 0;
            assert(rewrites_view(v@).subrange(0, 0) =~= Seq::<RewriteView>::empty());
            assert(errors_view(errors@) =~= before + Seq::<SchemaErrorView>::empty());
            while i < v.len()
                invariant
                    rw@ == RewriteView::Intersection(rewrites_view(v@)),
                    i <= v@.len(),
                    rewrites_view(v@).len() == v@.len(),
                    forall|k: int| 0 <= k < v@.len() ==> #[trigger] rewrites_view(v@)[k] == v@[k]@,
                    rv == relations_view(rels@),
                    errors_view(errors@) == before + rewrites_errors(
                        ty@,
                        from@,
                        rewrites_view(v@).subrange(0, i as int),
                        rv,
                    ),
                decreases v.len() - i,
            {
                proof {
                    assert(rewrites_view(v@)[i as int] == v@[i as int]@);
                    assert(decreases_to!(rw@ => rw@->Intersection_0));
                    assert(decreases_to!(rewrites_view(v@) => rewrites_view(v@)[i as int]));
                }
                check_rewrite(ty, from, &v[i], rels, errors);
                proof {
                    let w = rewrites_view(v@);
                    assert(w.subrange(0, i + 1).subrange(0, i as int) =~= w.subrange(0, i as int));
                    assert(w.subrange(0, i + 1)[i as int] == v@[i as int]@);
                    assert(errors_view(errors@) =~= before + rewrites_errors(
                        ty@,
                        from@,
                        w.subrange(0, i + 1),
                        rv,
                    ));
                }
                i = i + 1;
            }
            assert(rewrites_view(v@).subrange(0, i as int) =~= rewrites_view(v@));
        },
        Rewrite::Exclusion(a, b) => {
            assert(rw@ == RewriteView::Exclusion(Box::new((**a)@), Box::new((**b)@)));
            assert(decreases_to!(rw@ => rw@->Exclusion_0));
            assert(decreases_to!(rw@ => rw@->Exclusion_1));
            check_rewrite(ty, from, a, rels, errors);
            check_rewrite(ty, from, b, rels, errors);
            assert(errors_view(errors@) =~= before + (rewrite_errors(ty@, from@, (**a)@, rv)
                + rewrite_errors(ty@, from@, (**b)@, rv)));
        },
    }
}

/// All errors of the given types, type by type and relation by relation.
pub fn validate(types: &Vec<TypeDef>) -> (r: Vec<SchemaError>)
    ensures
        errors_view(r@) == validation_errors(types_view(types@)),
{
    let mut errors: Vec<SchemaError> = Vec::new();
    let ghost tv = types_view(types@);
    assert(errors_view(errors@) =~= validation_errors(tv.subrange(0, 0)));
    let mut t: usize = 0;
    while t < types.len()
        invariant
            t <= types@.len(),
            tv == types_view(types@),
            errors_view(errors@) == validation_errors(tv.subrange(0, t as int)),
        decreases types.len() - t,
    {
        let def = &types[t];
        let rels = &def.relations;
        let ghost rv = relations_view(rels@);
        let ghost start = errors_view(errors@);
        let mut j: usize = 0;
        assert(errors_view(errors@) =~= start + relations_errors(def.name@, rv.subrange(0, 0), rv));
        while j < rels.len()
            invariant
                j <= rels@.len(),
                rv == relations_view(rels@),
                errors_view(errors@) == start + relations_errors(
                    def.name@,
                    rv.subrange(0, j as int),
                    rv,
                ),
            decreases rels.len() - j,
        {
            check_rewrite(def.name.as_str(), rels[j].0.as_str(), &rels[j].1, rels, &mut errors);
            proof {
                assert(rv.subrange(0, j + 1).subrange(0, j as int) =~= rv.subrange(0, j as int));
                assert(rv.subrange(0, j + 1)[j as int] == (rels@[j as int].0@, rels@[j as int].1@));
                assert(errors_view(errors@) =~= start + relations_errors(
                    def.name@,
                    rv.subrange(0, j + 1),
                    rv,
                ));
            }
            j = j + 1;
        }
        proof {
            assert(rv.subrange(0, j as int) =~= rv);
            assert(tv[t as int] == (def.name@, rv));
            assert(tv.subrange(0, t + 1).subrange(0, t as int) =~= tv.subrange(0, t as int));
        }
        t = t + 1;
    }
    assert(tv.subrange(0, t as int) =~= tv);
    errors
}

/// The relation names that a rewrite refers to, in the order it names them: a
/// tuple-to-userset names its tupleset, then its computed relation.
pub open spec fn rewrite_names(rw: RewriteView) -> Seq<Seq<char>>
    decreases rw,
{
    match rw {
        RewriteView::This { .. } => Seq::empty(),
        RewriteView::ComputedUserset { relation } => seq![relation],
        RewriteView::TupleToUserset { tupleset, computed } => seq![tupleset, computed],
        RewriteView::Union(v) => rewrites_names(v),
        RewriteView::Intersection(v) => rewrites_names(v),
        RewriteView::Exclusion(a, b) => rewrite_names(*a) + rewrite_names(*b),
    }
}

/// The relation names that a list of rewrites refers to, in order.
pub open spec fn rewrites_names(v: Seq<RewriteView>) -> Seq<Seq<char>>
    decreases v,
{
    if v.len() == 0 {
        Seq::empty()
    } else {
        rewrites_names(v.subrange(0, v.len() - 1)) + rewrite_names(v[v.len() - 1])
    }
}

/// One error for each of `names` that `rels` does not define, in order.
pub open spec fn names_errors(
    ty: Seq<char>,
    from: Seq<char>,
    names: Seq<Seq<char>>,
    rels: Seq<(Seq<char>, RewriteView)>,
) -> Seq<SchemaErrorView>
    decreases names.len(),
{
    if names.len() == 0 {
        Seq::empty()
    } else {
        names_errors(ty, from, names.subrange(0, names.len() - 1), rels) + undefined_error(
            ty,
            from,
            names[names.len() - 1],
            rels,
        )
    }
}

/// Whether `rels` defines every one of `names`.
pub open spec fn all_defined(names: Seq<Seq<char>>, rels: Seq<(Seq<char>, RewriteView)>) -> bool {
    forall|k: int| 0 <= k < names.len() ==> lookup(rels, #[trigger] names[k]) is Some
}

/// Whether every relation of every type names only relations of its own type.
pub open spec fn schema_defined(types: SchemaView) -> bool {
    forall|i: int, j: int|
        0 <= i < types.len() && 0 <= j < types[i].1.len() ==> all_defined(
            rewrite_names(#[trigger] types[i].1[j].1),
            types[i].1,
        )
}

proof fn lemma_names_errors_append(
    ty: Seq<char>,
    from: Seq<char>,
    a: Seq<Seq<char>>,
    b: Seq<Seq<char>>,
    rels: Seq<(Seq<char>, RewriteView)>,
)
    ensures
        names_errors(ty, from, a + b, rels) == names_errors(ty, from, a, rels) + names_errors(
            ty,
            from,
            b,
            rels,
        ),
    decreases b.len(),
{
    if b.len() == 0 {
        assert(a + b =~= a);
        assert(names_errors(ty, from, a, rels) + Seq::<SchemaErrorView>::empty() =~= names_errors(
            ty,
            from,
            a,
            rels,
        ));
    } else {
        let bp = b.subrange(0, b.len() - 1);
        lemma_names_errors_append(ty, from, a, bp, rels);
        assert((a + b).subrange(0, (a + b).len() - 1) =~= a + bp);
        assert((a + b)[(a + b).len() - 1] == b[b.len() - 1]);
        assert(names_errors(ty, from, a + b, rels) =~= names_errors(ty, from, a, rels) + names_errors(
            ty,
            from,
            b,
            rels,
        ));
    }
}

proof fn lemma_names_errors_one(
    ty: Seq<char>,
    from: Seq<char>,
    name: Seq<char>,
    rels: Seq<(Seq<char>, RewriteView)>,
)
    ensures
        names_errors(ty, from, seq![name], rels) == undefined_error(ty, from, name, rels),
{
    let ns = seq![name];
    assert(ns.subrange(0, 0) =~= Seq::<Seq<char>>::empty());
    assert(names_errors(ty, from, ns.subrange(0, 0), rels) =~= Seq::<SchemaErrorView>::empty());
    assert(ns[0] == name);
    assert(Seq::<SchemaErrorView>::empty() + undefined_error(ty, from, name, rels)
        =~= undefined_error(ty, from, name, rels));
}

/// The errors of a rewrite are one error for each relation name it uses that
/// `rels` does not define, in the order the rewrite names them.
pub proof fn lemma_rewrite_errors_names(
    ty: Seq<char>,
    from: Seq<char>,
    rw: RewriteView,
    rels: Seq<(Seq<char>, RewriteView)>,
)
    ensures
        rewrite_errors(ty, from, rw, rels) == names_errors(ty, from, rewrite_names(rw), rels),
    decreases rw,
{
    match rw {
        RewriteView::This { .. } => {
            assert(rewrite_names(rw) =~= Seq::<Seq<char>>::empty());
            assert(names_errors(ty, from, Seq::<Seq<char>>::empty(), rels) =~= Seq::<SchemaErrorView>::empty());
        },
        RewriteView::ComputedUserset { relation } => {
            lemma_names_errors_one(ty, from, relation, rels);
        },
        RewriteView::TupleToUserset { tupleset, computed } => {
            lemma_names_errors_one(ty, from, tupleset, rels);
            lemma_names_errors_one(ty, from, computed, rels);
            lemma_names_errors_append(ty, from, seq![tupleset], seq![computed], rels);
            assert(seq![tupleset] + seq![computed] =~= seq![tupleset, computed]);
        },
        RewriteView::Union(v) => {
            lemma_rewrites_errors_names(ty, from, v, rels);
        },
        RewriteView::Intersection(v) => {
            lemma_rewrites_errors_names(ty, from, v, rels);
        },
        RewriteView::Exclusion(a, b) => {
            lemma_rewrite_errors_names(ty, from, *a, rels);
            lemma_rewrite_errors_names(ty, from, *b, rels);
            lemma_names_errors_append(ty, from, rewrite_names(*a), rewrite_names(*b), rels);
        },
    }
}

/// As [`lemma_rewrite_errors_names`], for a list of rewrites.
pub proof fn lemma_rewrites_errors_names(
    ty: Seq<char>,
    from: Seq<char>,
    v: Seq<RewriteView>,
    rels: Seq<(Seq<char>, RewriteView)>,
)
    ensures
        rewrites_errors(ty, from, v, rels) == names_errors(ty, from, rewrites_names(v), rels),
    decreases v,
{
    if v.len() > 0 {
        let prefix = v.subrange(0, v.len() - 1);
        assert(decreases_to!(v => v[v.len() - 1]));
        lemma_rewrites_errors_names(ty, from, prefix, rels);
        lemma_rewrite_errors_names(ty, from, v[v.len() - 1], rels);
        lemma_names_errors_append(
            ty,
            from,
            rewrites_names(prefix),
            rewrite_names(v[v.len() - 1]),
            rels,
        );
    }
}

/// Names give no error exactly when all of them are defined.
pub proof fn lemma_names_errors_empty(
    ty: Seq<char>,
    from: Seq<char>,
    names: Seq<Seq<char>>,
    rels: Seq<(Seq<char>, RewriteView)>,
)
    ensures
        names_errors(ty, from, names, rels).len() == 0 <==> all_defined(names, rels),
    decreases names.len(),
{
    if names.len() > 0 {
        let prefix = names.subrange(0, names.len() - 1);
        lemma_names_errors_empty(ty, from, prefix, rels);
        if all_defined(names, rels) {
            assert forall|k: int| 0 <= k < prefix.len() implies lookup(rels, #[trigger] prefix[k]) is Some by {
                assert(prefix[k] == names[k]);
            }
            assert(lookup(rels, names[names.len() - 1]) is Some);
        }
        if all_defined(prefix, rels) && lookup(rels, names[names.len() - 1]) is Some {
            assert forall|k: int| 0 <= k < names.len() implies lookup(rels, #[trigger] names[k]) is Some by {
                if k < names.len() - 1 {
                    assert(names[k] == prefix[k]);
                }
            }
        }
    }
}

proof fn lemma_relations_errors_empty(
    ty: Seq<char>,
    defs: Seq<(Seq<char>, RewriteView)>,
    rels: Seq<(Seq<char>, RewriteView)>,
)
    ensures
        relations_errors(ty, defs, rels).len() == 0 <==> forall|j: int|
            0 <= j < defs.len() ==> all_defined(rewrite_names(#[trigger] defs[j].1), rels),
    decreases defs.len(),
{
    if defs.len() > 0 {
        let prefix = defs.subrange(0, defs.len() - 1);
        let last = defs[defs.len() - 1];
        lemma_relations_errors_empty(ty, prefix, rels);
        lemma_rewrite_errors_names(ty, last.0, last.1, rels);
        lemma_names_errors_empty(ty, last.0, rewrite_names(last.1), rels);
        if forall|j: int| 0 <= j < defs.len() ==> all_defined(rewrite_names(#[trigger] defs[j].1), rels) {
            assert forall|j: int| 0 <= j < prefix.len() implies all_defined(
                rewrite_names(#[trigger] prefix[j].1),
                rels,
            ) by {
                assert(prefix[j] == defs[j]);
            }
            assert(all_defined(rewrite_names(defs[defs.len() - 1].1), rels));
        }
        if relations_errors(ty, defs, rels).len() == 0 {
            assert forall|j: int| 0 <= j < defs.len() implies all_defined(
                rewrite_names(#[trigger] defs[j].1),
                rels,
            ) by {
                if j < defs.len() - 1 {
                    assert(defs[j] == prefix[j]);
                }
            }
        }
    }
}

/// A schema has no validation error exactly when every relation of every type
/// names only relations that its own type defines; otherwise each undefined
/// name is one error (see [`lemma_rewrite_errors_names`]).
pub proof fn lemma_validation_empty(types: SchemaView)
    ensures
        validation_errors(types).len() == 0 <==> schema_defined(types),
    decreases types.len(),
{
    if types.len() > 0 {
        let prefix = types.subrange(0, types.len() - 1);
        let last = types[types.len() - 1];
        lemma_validation_empty(prefix);
        lemma_relations_errors_empty(last.0, last.1, last.1);
        if schema_defined(types) {
            assert forall|i: int, j: int|
                0 <= i < prefix.len() && 0 <= j < prefix[i].1.len() implies all_defined(
                rewrite_names(#[trigger] prefix[i].1[j].1),
                prefix[i].1,
            ) by {
                assert(prefix[i] == types[i]);
            }
            assert forall|j: int| 0 <= j < last.1.len() implies all_defined(
                rewrite_names(#[trigger] last.1[j].1),
                last.1,
            ) by {
                assert(types[types.len() - 1].1[j] == last.1[j]);
            }
        }
        if validation_errors(types).len() == 0 {
            assert forall|i: int, j: int|
                0 <= i < types.len() && 0 <= j < types[i].1.len() implies all_defined(
                rewrite_names(#[trigger] types[i].1[j].1),
                types[i].1,
            ) by {
                if i < types.len() - 1 {
                    assert(types[i] == prefix[i]);
                    assert(all_defined(rewrite_names(prefix[i].1[j].1), prefix[i].1));
                } else {
                    assert(all_defined(rewrite_names(last.1[j].1), last.1));
                }
            }
        }
    }
}

/// Name `k` of `names`, used by relation `from` of type `ty`, is not defined in
/// `rels`, and `e` is the error that reports it.
pub open spec fn name_error_at(
    ty: Seq<char>,
    from: Seq<char>,
    names: Seq<Seq<char>>,
    rels: Seq<(Seq<char>, RewriteView)>,
    k: int,
    e: SchemaErrorView,
) -> bool {
    &&& 0 <= k < names.len()
    &&& lookup(rels, names[k]) is None
    &&& e == SchemaErrorView::UndefinedRelation {
        namespace: ty,
        relation: names[k],
        referenced_from: from,
    }
}

/// The `k`-th name that relation `j` of `defs` uses is undefined in `rels`,
/// and `e` reports it.
pub open spec fn relation_error_at(
    ty: Seq<char>,
    defs: Seq<(Seq<char>, RewriteView)>,
    rels: Seq<(Seq<char>, RewriteView)>,
    j: int,
    k: int,
    e: SchemaErrorView,
) -> bool {
    &&& 0 <= j < defs.len()
    &&& name_error_at(ty, defs[j].0, rewrite_names(defs[j].1), rels, k, e)
}

/// The `k`-th name that relation `j` of type `i` uses is not a relation of
/// type `i`, and `e` reports it.
pub open spec fn schema_error_at(types: SchemaView, i: int, j: int, k: int, e: SchemaErrorView) -> bool {
    &&& 0 <= i < types.len()
    &&& relation_error_at(types[i].0, types[i].1, types[i].1, j, k, e)
}

proof fn lemma_concat_contains(a: Seq<SchemaErrorView>, b: Seq<SchemaErrorView>, x: SchemaErrorView)
    ensures
        (a + b).contains(x) <==> a.contains(x) || b.contains(x),
{
    if (a + b).contains(x) {
        let i = choose|i: int| 0 <= i < (a + b).len() && (a + b)[i] == x;
        if i < a.len() {
            assert(a[i] == x);
        } else {
            assert(b[i - a.len()] == x);
        }
    }
    if a.contains(x) {
        let i = choose|i: int| 0 <= i < a.len() && a[i] == x;
        assert((a + b)[i] == x);
    }
    if b.contains(x) {
        let i = choose|i: int| 0 <= i < b.len() && b[i] == x;
        assert((a + b)[a.len() + i] == x);
    }
}

proof fn lemma_names_errors_contains(
    ty: Seq<char>,
    from: Seq<char>,
    names: Seq<Seq<char>>,
    rels: Seq<(Seq<char>, RewriteView)>,
    e: SchemaErrorView,
)
    ensures
        names_errors(ty, from, names, rels).contains(e) <==> exists|k: int|
            name_error_at(ty, from, names, rels, k, e),
    decreases names.len(),
{
    if names.len() > 0 {
        let n = names.len() - 1;
        let prefix = names.subrange(0, n);
        let tail = undefined_error(ty, from, names[n], rels);
        lemma_names_errors_contains(ty, from, prefix, rels, e);
        lemma_concat_contains(names_errors(ty, from, prefix, rels), tail, e);
        if exists|k: int| name_error_at(ty, from, prefix, rels, k, e) {
            let k = choose|k: int| name_error_at(ty, from, prefix, rels, k, e);
            assert(prefix[k] == names[k]);
            assert(name_error_at(ty, from, names, rels, k, e));
        }
        if tail.contains(e) {
            let i = choose|i: int| 0 <= i < tail.len() && tail[i] == e;
            assert(name_error_at(ty, from, names, rels, n, e));
        }
        if exists|k: int| name_error_at(ty, from, names, rels, k, e) {
            let k = choose|k: int| name_error_at(ty, from, names, rels, k, e);
            if k < n {
                assert(prefix[k] == names[k]);
                assert(name_error_at(ty, from, prefix, rels, k, e));
            } else {
                assert(tail[0] == e);
            }
        }
    }
}

proof fn lemma_relations_errors_contains(
    ty: Seq<char>,
    defs: Seq<(Seq<char>, RewriteView)>,
    rels: Seq<(Seq<char>, RewriteView)>,
    e: SchemaErrorView,
)
    ensures
        relations_errors(ty, defs, rels).contains(e) <==> exists|j: int, k: int|
            relation_error_at(ty, defs, rels, j, k, e),
    decreases defs.len(),
{
    if defs.len() > 0 {
        let n = defs.len() - 1;
        let prefix = defs.subrange(0, n);
        let last = defs[n];
        let tail = rewrite_errors(ty, last.0, last.1, rels);
        lemma_relations_errors_contains(ty, prefix, rels, e);
        lemma_concat_contains(relations_errors(ty, prefix, rels), tail, e);
        lemma_rewrite_errors_names(ty, last.0, last.1, rels);
        lemma_names_errors_contains(ty, last.0, rewrite_names(last.1), rels, e);
        if exists|j: int, k: int| relation_error_at(ty, prefix, rels, j, k, e) {
            let (j, k) = choose|j: int, k: int| relation_error_at(ty, prefix, rels, j, k, e);
            assert(prefix[j] == defs[j]);
            assert(relation_error_at(ty, defs, rels, j, k, e));
        }
        if tail.contains(e) {
            let k = choose|k: int| name_error_at(ty, last.0, rewrite_names(last.1), rels, k, e);
            assert(relation_error_at(ty, defs, rels, n, k, e));
        }
        if exists|j: int, k: int| relation_error_at(ty, defs, rels, j, k, e) {
            let (j, k) = choose|j: int, k: int| relation_error_at(ty, defs, rels, j, k, e);
            if j < n {
                assert(prefix[j] == defs[j]);
                assert(relation_error_at(ty, prefix, rels, j, k, e));
            } else {
                assert(name_error_at(ty, last.0, rewrite_names(last.1), rels, k, e));
            }
        }
    }
}

/// Validation reports every undefined reference of every type, and nothing
/// else: an error is among a schema's validation errors exactly when some
/// relation of some type uses a name that its type does not define, and the
/// error names that type, that name and that relation.
pub proof fn lemma_validation_reports_all(types: SchemaView, e: SchemaErrorView)
    ensures
        validation_errors(types).contains(e) <==> exists|i: int, j: int, k: int|
            schema_error_at(types, i, j, k, e),
    decreases types.len(),
{
    if types.len() > 0 {
        let n = types.len() - 1;
        let prefix = types.subrange(0, n);
        let last = types[n];
        let tail = relations_errors(last.0, last.1, last.1);
        lemma_validation_reports_all(prefix, e);
        lemma_concat_contains(validation_errors(prefix), tail, e);
        lemma_relations_errors_contains(last.0, last.1, last.1, e);
        if exists|i: int, j: int, k: int| schema_error_at(prefix, i, j, k, e) {
            let (i, j, k) = choose|i: int, j: int, k: int| schema_error_at(prefix, i, j, k, e);
            assert(prefix[i] == types[i]);
            assert(schema_error_at(types, i, j, k, e));
        }
        if tail.contains(e) {
            let (j, k) = choose|j: int, k: int| relation_error_at(last.0, last.1, last.1, j, k, e);
            assert(schema_error_at(types, n, j, k, e));
        }
        if exists|i: int, j: int, k: int| schema_error_at(types, i, j, k, e) {
            let (i, j, k) = choose|i: int, j: int, k: int| schema_error_at(types, i, j, k, e);
            if i < n {
                assert(prefix[i] == types[i]);
                assert(schema_error_at(prefix, i, j, k, e));
            } else {
                assert(relation_error_at(last.0, last.1, last.1, j, k, e));
            }
        }
    }
}

} // verus!
