//! The schema language:
//!
//! ```text
//! type document
//!   relations
//!     define parent: [folder]
//!     define viewer: [user, group#member, user:*] or editor or viewer from parent
//! ```
//!
//! Rewrites combine with `or`, `and` and `but not`, left to right, and group
//! with parentheses; a chain of the same operator builds one flat node.
use vstd::prelude::*;
use super::{
    insert_all, lemma_insert_all_preserves, schema_of, relations_view, rewrites_view, type_refs_view, types_view, Rewrite,
    RewriteView, SchemaView, TypeDef, TypeRef, TypeRefKind, TypeRefKindView, TypeRefView,
};
use crate::text::{chars_of, string_of};

verus! {

/// Unicode white space, as `char::is_whitespace` defines it.
pub open spec fn is_space(c: char) -> bool {
    let u = c as u32;
    ||| 9 <= u <= 13
    ||| u == 32 || u == 0x85 || u == 0xA0 || u == 0x1680
    ||| 0x2000 <= u <= 0x200A
    ||| u == 0x2028 || u == 0x2029 || u == 0x202F || u == 0x205F || u == 0x3000
}

/// ASCII letter or underscore.
pub open spec fn is_ident_start(c: char) -> bool {
    let u = c as u32;
    (97 <= u <= 122) || (65 <= u <= 90) || u == 95
}

/// ASCII letter, digit or underscore.
pub open spec fn is_ident_char(c: char) -> bool {
    is_ident_start(c) || (48 <= (c as u32) <= 57)
}

/// Position after the white space that starts at `p`.
pub open spec fn ws_end(s: Seq<char>, p: int) -> int
    decreases s.len() - p,
{
    if 0 <= p < s.len() && is_space(s[p]) {
        ws_end(s, p + 1)
    } else {
        p
    }
}

/// Position after the identifier characters that start at `p`.
pub open spec fn ident_end(s: Seq<char>, p: int) -> int
    decreases s.len() - p,
{
    if 0 <= p < s.len() && is_ident_char(s[p]) {
        ident_end(s, p + 1)
    } else {
        p
    }
}

/// An identifier starting exactly at `p`, and the position after it.
pub open spec fn ident_at(s: Seq<char>, p: int) -> Option<(Seq<char>, int)> {
    if 0 <= p < s.len() && is_ident_start(s[p]) {
        let e = ident_end(s, p + 1);
        Some((s.subrange(p, e), e))
    } else {
        None
    }
}

/// An identifier with white space around it.
pub open spec fn padded_ident(s: Seq<char>, p: int) -> Option<(Seq<char>, int)> {
    match ident_at(s, ws_end(s, p)) {
        Some((w, e)) => Some((w, ws_end(s, e))),
        None => None,
    }
}

/// The keyword `w`: an identifier equal to it, with white space around it.
pub open spec fn keyword_at(s: Seq<char>, p: int, w: Seq<char>) -> Option<int> {
    match padded_ident(s, p) {
        Some((x, e)) => if x == w {
            Some(e)
        } else {
            None
        },
        None => None,
    }
}

/// The character `c` with white space around it.
pub open spec fn symbol_at(s: Seq<char>, p: int, c: char) -> Option<int> {
    let q = ws_end(s, p);
    if 0 <= q < s.len() && s[q] == c {
        Some(ws_end(s, q + 1))
    } else {
        None
    }
}

/// One allowed type: `name`, `name#relation` or `name:*`.
pub open spec fn type_ref_at(s: Seq<char>, p: int) -> Option<(TypeRefView, int)> {
    match ident_at(s, ws_end(s, p)) {
        None => None,
        Some((name, e)) => {
            let userset = if 0 <= e < s.len() && s[e] == '#' {
                ident_at(s, e + 1)
            } else {
                None
            };
            match userset {
                Some((r, f)) => Some(
                    (
                        TypeRefView { namespace: name, subject: TypeRefKindView::Userset(r) },
                        ws_end(s, f),
                    ),
                ),
                None => if 0 <= e && e + 1 < s.len() && s[e] == ':' && s[e + 1] == '*' {
                    Some(
                        (
                            TypeRefView { namespace: name, subject: TypeRefKindView::Wildcard },
                            ws_end(s, e + 2),
                        ),
                    )
                } else {
                    Some(
                        (
                            TypeRefView { namespace: name, subject: TypeRefKindView::Direct },
                            ws_end(s, e),
                        ),
                    )
                },
            }
        },
    }
}

/// Further `, type` entries after `acc`.
pub open spec fn type_refs_after(s: Seq<char>, p: int, acc: Seq<TypeRefView>) -> (
    Seq<TypeRefView>,
    int,
)
    decreases s.len() - p,
{
    match symbol_at(s, p, ',') {
        Some(q) => match type_ref_at(s, q) {
            Some((t, e)) => if p < e <= s.len() {
                type_refs_after(s, e, acc.push(t))
            } else {
                (acc, p)
            },
            None => (acc, p),
        },
        None => (acc, p),
    }
}

/// A direct relation `[type, ...]`.
pub open spec fn restriction_at(s: Seq<char>, p: int) -> Option<(RewriteView, int)> {
    match symbol_at(s, p, '[') {
        None => None,
        Some(q) => match type_ref_at(s, q) {
            None => None,
            Some((t, e)) => {
                let (all, f) = type_refs_after(s, e, seq![t]);
                match symbol_at(s, f, ']') {
                    Some(g) => Some((RewriteView::This { allowed: all }, g)),
                    None => None,
                }
            },
        },
    }
}

/// Words that cannot name a relation inside a rewrite.
pub open spec fn is_reserved_word(w: Seq<char>) -> bool {
    ||| w == "or"@
    ||| w == "and"@
    ||| w == "but"@
    ||| w == "not"@
    ||| w == "from"@
    ||| w == "type"@
    ||| w == "relations"@
    ||| w == "define"@
}

/// `relation` or `relation from tupleset`.
pub open spec fn name_rewrite_at(s: Seq<char>, p: int) -> Option<(RewriteView, int)> {
    match padded_ident(s, p) {
        None => None,
        Some((name, q)) => if is_reserved_word(name) {
            None
        } else {
            match keyword_at(s, q, "from"@) {
                Some(r) => match padded_ident(s, r) {
                    Some((ts, e)) => Some(
                        (RewriteView::TupleToUserset { tupleset: ts, computed: name }, e),
                    ),
                    None => Some((RewriteView::ComputedUserset { relation: name }, q)),
                },
                None => Some((RewriteView::ComputedUserset { relation: name }, q)),
            }
        },
    }
}

/// Whether `x` is an identifier: a letter or underscore, then letters, digits
/// and underscores.
pub open spec fn is_identifier(x: Seq<char>) -> bool {
    &&& x.len() > 0
    &&& letter_or_underscore(x[0])
    &&& forall|i: int|
        0 <= i < x.len() ==> letter_or_underscore(#[trigger] x[i]) || ('0' <= x[i] && x[i] <= '9')
}

/// An ASCII letter, or `_`.
pub open spec fn letter_or_underscore(c: char) -> bool {
    ||| 'a' <= c && c <= 'z'
    ||| 'A' <= c && c <= 'Z'
    ||| c == '_'
}

/// Identifiers are read whole: an identifier that starts at `p` and is not
/// followed by a letter, digit or `_` reads as exactly that identifier.
pub proof fn lemma_ident_at(s: Seq<char>, p: int, w: Seq<char>)
    requires
        is_identifier(w),
        0 <= p,
        p + w.len() <= s.len(),
        s.subrange(p, p + w.len()) == w,
        p + w.len() == s.len() || !(letter_or_underscore(s[p + w.len()]) || ('0' <= s[p + w.len()]
            && s[p + w.len()] <= '9')),
    ensures
        ident_at(s, p) == Some((w, p + w.len())),
{
    let e = p + w.len();
    assert(s[p] == s.subrange(p, e)[0]);
    assert forall|i: int| p + 1 <= i < e implies is_ident_char(#[trigger] s[i]) by {
        assert(s[i] == s.subrange(p, e)[i - p]);
    }
    if e < s.len() {
        lemma_char_classes(s[e]);
    }
    lemma_ident_end(s, p + 1, e);
}

proof fn lemma_ws_end_at(s: Seq<char>, p: int, q: int)
    requires
        0 <= p <= q <= s.len(),
        forall|i: int| p <= i < q ==> is_space(#[trigger] s[i]),
        q == s.len() || !is_space(s[q]),
    ensures
        ws_end(s, p) == q,
    decreases q - p,
{
    if p < q {
        lemma_ws_end_at(s, p + 1, q);
    }
}

/// The text of a type `d` with the one relation `x`, directly granted to users.
#[verifier::opaque]
pub open spec fn direct_define_text(d: Seq<char>, x: Seq<char>) -> Seq<char> {
    "type "@ + d + " relations define "@ + x + ": [user]"@
}

/// The schema of [`direct_define_text`]: type `d` whose relation `x` is
/// granted directly to `user`.
pub open spec fn direct_define_schema(d: Seq<char>, x: Seq<char>) -> SchemaView {
    seq![
        (
            d,
            seq![
                (
                    x,
                    RewriteView::This {
                        allowed: seq![TypeRefView { namespace: "user"@, subject: TypeRefKindView::Direct }],
                    },
                ),
            ],
        ),
    ]
}

proof fn lemma_direct_define_chars(d: Seq<char>, x: Seq<char>)
    requires
        is_identifier(d),
        is_identifier(x),
    ensures
        ({
            let s = direct_define_text(d, x);
            let n = d.len() as int;
            let pp = 23 + n + x.len();
            &&& s.len() == pp + 8
            &&& s[4] == ' ' && s[5 + n] == ' ' && s[15 + n] == ' ' && s[22 + n] == ' '
            &&& s[pp] == ':' && s[pp + 1] == ' ' && s[pp + 2] == '[' && s[pp + 3] == 'u'
            &&& s[pp + 7] == ']'
            &&& s[0] == 't' && s[5] == d[0] && s[6 + n] == 'r' && s[16 + n] == 'd' && s[23 + n] == x[0]
            &&& s.subrange(0, 4) == "type"@
            &&& s.subrange(5, 5 + n) == d
            &&& s.subrange(6 + n, 15 + n) == "relations"@
            &&& s.subrange(16 + n, 22 + n) == "define"@
            &&& s.subrange(23 + n, pp) == x
            &&& s.subrange(pp + 3, pp + 7) == "user"@
        }),
{
    reveal_strlit("type ");
    reveal_strlit(" relations define ");
    reveal_strlit(": [user]");
    reveal_strlit("type");
    reveal_strlit("relations");
    reveal_strlit("define");
    reveal_strlit("user");
    let a = "type "@;
    let b = " relations define "@;
    let c = ": [user]"@;
    assert(a =~= seq!['t', 'y', 'p', 'e', ' ']);
    assert(b =~= seq![
        ' ', 'r', 'e', 'l', 'a', 't', 'i', 'o', 'n', 's', ' ', 'd', 'e', 'f', 'i', 'n', 'e', ' ',
    ]);
    assert(c =~= seq![':', ' ', '[', 'u', 's', 'e', 'r', ']']);
    reveal(direct_define_text);
    let s = direct_define_text(d, x);
    let n = d.len() as int;
    let pp = 23 + n + x.len();
    assert(s.subrange(0, 4) =~= "type"@);
    assert(s.subrange(5, 5 + n) =~= d);
    assert(s.subrange(6 + n, 15 + n) =~= "relations"@);
    assert(s.subrange(16 + n, 22 + n) =~= "define"@);
    assert(s.subrange(23 + n, pp) =~= x);
    assert(s.subrange(pp + 3, pp + 7) =~= "user"@);
}

proof fn lemma_padded_word(s: Seq<char>, p: int, w: Seq<char>, q: int)
    requires
        is_identifier(w),
        0 <= p,
        p + w.len() < s.len(),
        s.subrange(p, p + w.len()) == w,
        q == p + w.len() + 1 && s[p + w.len()] == ' ' && q < s.len() && !is_space(s[q]) || q
            == p + w.len() && !is_space(s[q]) && !is_ident_char(s[q]),
    ensures
        padded_ident(s, p) == Some((w, q)),
{
    let e = p + w.len();
    assert(s[p] == s.subrange(p, e)[0]);
    lemma_char_classes(s[p]);
    lemma_char_classes(s[e]);
    lemma_ws_end_at(s, p, p);
    lemma_ident_at(s, p, w);
    lemma_ws_end_at(s, e, q);
}

proof fn lemma_direct_define_words(d: Seq<char>, x: Seq<char>)
    requires
        is_identifier(d),
        is_identifier(x),
    ensures
        ({
            let s = direct_define_text(d, x);
            let n = d.len() as int;
            let pp = 23 + n + x.len();
            &&& keyword_at(s, 0, "type"@) == Some(5int)
            &&& padded_ident(s, 5) == Some((d, 6 + n))
            &&& keyword_at(s, 6 + n, "relations"@) == Some(16 + n)
            &&& keyword_at(s, 16 + n, "define"@) == Some(23 + n)
            &&& padded_ident(s, 23 + n) == Some((x, pp))
        }),
{
    reveal_strlit("type");
    reveal_strlit("relations");
    reveal_strlit("define");
    lemma_direct_define_chars(d, x);
    let s = direct_define_text(d, x);
    let n = d.len() as int;
    let pp = 23 + n + x.len();
    lemma_char_classes(d[0]);
    lemma_char_classes(x[0]);
    assert(is_identifier("type"@));
    assert(is_identifier("relations"@));
    assert(is_identifier("define"@));
    lemma_padded_word(s, 0, "type"@, 5);
    lemma_padded_word(s, 5, d, 6 + n);
    lemma_padded_word(s, 6 + n, "relations"@, 16 + n);
    lemma_padded_word(s, 16 + n, "define"@, 23 + n);
    lemma_padded_word(s, 23 + n, x, pp);
}

proof fn lemma_direct_define_rewrite(d: Seq<char>, x: Seq<char>)
    requires
        is_identifier(d),
        is_identifier(x),
    ensures
        ({
            let s = direct_define_text(d, x);
            let pp = 23 + d.len() as int + x.len() as int;
            let len = pp + 8;
            let t = TypeRefView { namespace: "user"@, subject: TypeRefKindView::Direct };
            &&& symbol_at(s, pp, ':') == Some(pp + 2)
            &&& restriction_at(s, pp + 2) == Some((RewriteView::This { allowed: seq![t] }, len))
        }),
{
    reveal_strlit("user");
    lemma_direct_define_chars(d, x);
    let s = direct_define_text(d, x);
    let pp = 23 + d.len() as int + x.len() as int;
    let len = pp + 8;
    assert(symbol_at(s, pp, ':') == Some(pp + 2)) by {
        lemma_ws_end_at(s, pp, pp);
        lemma_ws_end_at(s, pp + 1, pp + 2);
    }
    assert(symbol_at(s, pp + 2, '[') == Some(pp + 3)) by {
        lemma_ws_end_at(s, pp + 2, pp + 2);
        lemma_ws_end_at(s, pp + 3, pp + 3);
    }
    let t = TypeRefView { namespace: "user"@, subject: TypeRefKindView::Direct };
    assert(type_ref_at(s, pp + 3) == Some((t, pp + 7))) by {
        assert(is_identifier("user"@));
        lemma_ws_end_at(s, pp + 3, pp + 3);
        lemma_ident_at(s, pp + 3, "user"@);
        lemma_ws_end_at(s, pp + 7, pp + 7);
    }
    assert(type_refs_after(s, pp + 7, seq![t]) == (seq![t], pp + 7)) by {
        lemma_ws_end_at(s, pp + 7, pp + 7);
        assert(symbol_at(s, pp + 7, ',') is None);
    }
    assert(symbol_at(s, pp + 7, ']') == Some(len)) by {
        lemma_ws_end_at(s, pp + 7, pp + 7);
        lemma_ws_end_at(s, len, len);
    }
}

/// Any identifiers name a type and a relation: `type d relations define x:
/// [user]` reads as type `d` with relation `x` granted directly to `user`.
pub proof fn lemma_define_direct(d: Seq<char>, x: Seq<char>)
    requires
        is_identifier(d),
        is_identifier(x),
    ensures
        schema_text(direct_define_text(d, x)) == Some(direct_define_schema(d, x)),
{
    lemma_direct_define_chars(d, x);
    lemma_direct_define_words(d, x);
    lemma_direct_define_rewrite(d, x);
    let s = direct_define_text(d, x);
    let n = d.len() as int;
    let pp = 23 + n + x.len();
    let len = pp + 8;
    let t = TypeRefView { namespace: "user"@, subject: TypeRefKindView::Direct };
    let rw = RewriteView::This { allowed: seq![t] };
    assert(padded_ident(s, len) is None) by {
        lemma_ws_end_at(s, len, len);
    }
    assert(atom_at(s, pp + 2) == Some((rw, len)));
    assert(expr_at(s, pp + 2) == Some((rw, len))) by {
        assert(operator_at(s, len) is None);
        assert(expr_rest_at(s, len, rw) == (rw, len));
    }
    assert(relation_def_at(s, 16 + n) == Some(((x, rw), len)));
    assert(relation_defs_after(s, len, seq![(x, rw)]) == (seq![(x, rw)], len)) by {
        assert(relation_def_at(s, len) is None);
    }
    assert(relations_block_at(s, 6 + n) == Some((seq![(x, rw)], len)));
    assert(type_block_at(s, 0) == Some(((d, seq![(x, rw)]), len)));
    let defs = Seq::<(Seq<char>, Seq<(Seq<char>, RewriteView)>)>::empty().push((d, seq![(x, rw)]));
    assert(type_blocks_after(s, len, defs) == (defs, len)) by {
        assert(type_block_at(s, len) is None);
    }
    lemma_ws_end_at(s, 0, 0);
    lemma_ws_end_at(s, len, len);
    assert(type_blocks_after(s, 0, Seq::empty()) == (defs, len));
    assert(defs =~= direct_define_schema(d, x));
}

/// The identifier characters of the reader are the ASCII letters, digits and `_`.
pub proof fn lemma_char_classes(c: char)
    ensures
        is_ident_start(c) <==> letter_or_underscore(c),
        is_ident_char(c) <==> letter_or_underscore(c) || ('0' <= c && c <= '9'),
{
    assert(('a' <= c && c <= 'z') <==> (97 <= (c as u32) && (c as u32) <= 122));
    assert(('A' <= c && c <= 'Z') <==> (65 <= (c as u32) && (c as u32) <= 90));
    assert(('0' <= c && c <= '9') <==> (48 <= (c as u32) && (c as u32) <= 57));
    assert((c == '_') <==> ((c as u32) == 95));
}

proof fn lemma_ident_end(s: Seq<char>, p: int, e: int)
    requires
        0 <= p <= e <= s.len(),
        forall|i: int| p <= i < e ==> is_ident_char(#[trigger] s[i]),
        e == s.len() || !is_ident_char(s[e]),
    ensures
        ident_end(s, p) == e,
    decreases e - p,
{
    if p < e {
        lemma_ident_end(s, p + 1, e);
    }
}

/// A relation name alone reads as that computed relation, and `x from y` as
/// relation `x` of the objects that tupleset `y` holds; a reserved word does
/// not read as a relation name.
pub proof fn lemma_name_rewrite_text(x: Seq<char>, y: Seq<char>)
    requires
        is_identifier(x),
        is_identifier(y),
    ensures
        name_rewrite_at(x, 0) == if is_reserved_word(x) {
            None
        } else {
            Some((RewriteView::ComputedUserset { relation: x }, x.len() as int))
        },
        name_rewrite_at(x + " from "@ + y, 0) == if is_reserved_word(x) {
            None
        } else {
            Some(
                (
                    RewriteView::TupleToUserset { tupleset: y, computed: x },
                    (x.len() + 6 + y.len()) as int,
                ),
            )
        },
{
    let n = x.len() as int;
    lemma_ident_end(x, 1, n);
    assert(x.subrange(0, n) =~= x);
    assert(!is_space(x[0]));
    assert(ws_end(x, 0) == 0);
    assert(ws_end(x, n) == n);
    assert(padded_ident(x, 0) == Some((x, n)));
    assert(ident_at(x, n) is None);
    assert(padded_ident(x, n) is None);
    reveal_strlit(" from ");
    reveal_strlit("from");
    let sep = " from "@;
    assert(sep =~= seq![' ', 'f', 'r', 'o', 'm', ' ']);
    let s = x + sep + y;
    let m = s.len() as int;
    assert(m == n + 6 + y.len());
    assert forall|i: int| 0 <= i < n implies #[trigger] s[i] == x[i] by {}
    assert forall|j: int| 0 <= j < y.len() implies #[trigger] s[n + 6 + j] == y[j] by {}
    assert(s[n] == ' ' && s[n + 1] == 'f' && s[n + 2] == 'r' && s[n + 3] == 'o' && s[n + 4] == 'm'
        && s[n + 5] == ' ');
    assert(s[n + 6] == y[0]);
    lemma_ident_end(s, 1, n);
    assert(s.subrange(0, n) =~= x);
    assert(!is_space(s[0]));
    assert(ws_end(s, 0) == 0);
    assert(ws_end(s, n + 1) == n + 1);
    assert(ws_end(s, n) == n + 1);
    assert(padded_ident(s, 0) == Some((x, n + 1)));
    lemma_ident_end(s, n + 2, n + 5);
    assert(s.subrange(n + 1, n + 5) =~= "from"@);
    assert(!is_space(s[n + 6]));
    assert(ws_end(s, n + 6) == n + 6);
    assert(ws_end(s, n + 5) == n + 6);
    assert(padded_ident(s, n + 1) == Some(("from"@, n + 6)));
    assert(keyword_at(s, n + 1, "from"@) == Some(n + 6));
    assert forall|i: int| n + 7 <= i < m implies is_ident_char(#[trigger] s[i]) by {
        assert(s[n + 6 + (i - n - 6)] == y[i - n - 6]);
    }
    lemma_ident_end(s, n + 7, m);
    assert(s.subrange(n + 6, m) =~= y);
    assert(ws_end(s, m) == m);
    assert(padded_ident(s, n + 6) == Some((y, m)));
}

/// The operators between rewrites.
#[derive(Clone, Copy, PartialEq, Eq, Debug)]
pub enum BinOp {
    Or,
    And,
    ButNot,
}

/// `or`, `and`, or `but not`.
pub open spec fn operator_at(s: Seq<char>, p: int) -> Option<(BinOp, int)> {
    match keyword_at(s, p, "or"@) {
        Some(q) => Some((BinOp::Or, q)),
        None => match keyword_at(s, p, "and"@) {
            Some(q) => Some((BinOp::And, q)),
            None => match keyword_at(s, p, "but"@) {
                Some(q) => match keyword_at(s, q, "not"@) {
                    Some(r) => Some((BinOp::ButNot, r)),
                    None => None,
                },
                None => None,
            },
        },
    }
}

/// Combines two rewrites; `or` onto a union, or `and` onto an intersection,
/// extends it rather than nesting it.
pub open spec fn merge(lhs: RewriteView, op: BinOp, rhs: RewriteView) -> RewriteView {
    match op {
        BinOp::Or => match lhs {
            RewriteView::Union(v) => RewriteView::Union(v.push(rhs)),
            _ => RewriteView::Union(seq![lhs, rhs]),
        },
        BinOp::And => match lhs {
            RewriteView::Intersection(v) => RewriteView::Intersection(v.push(rhs)),
            _ => RewriteView::Intersection(seq![lhs, rhs]),
        },
        BinOp::ButNot => RewriteView::Exclusion(Box::new(lhs), Box::new(rhs)),
    }
}

/// A rewrite expression: operands joined by operators, folded from the left.
pub open spec fn expr_at(s: Seq<char>, p: int) -> Option<(RewriteView, int)>
    decreases s.len() - p, 3int,
{
    if 0 <= p <= s.len() {
        match atom_at(s, p) {
            Some((a, q)) => if p < q <= s.len() {
                Some(expr_rest_at(s, q, a))
            } else {
                None
            },
            None => None,
        }
    } else {
        None
    }
}

/// Further `operator operand` pairs folded onto `acc`.
pub open spec fn expr_rest_at(s: Seq<char>, p: int, acc: RewriteView) -> (RewriteView, int)
    decreases s.len() - p, 2int,
{
    match operator_at(s, p) {
        Some((o, q)) => if p < q <= s.len() {
            match atom_at(s, q) {
                Some((r, e)) => if q < e <= s.len() {
                    expr_rest_at(s, e, merge(acc, o, r))
                } else {
                    (acc, p)
                },
                None => (acc, p),
            }
        } else {
            (acc, p)
        },
        None => (acc, p),
    }
}

/// An operand: a direct relation, a parenthesized expression, or a relation name.
pub open spec fn atom_at(s: Seq<char>, p: int) -> Option<(RewriteView, int)>
    decreases s.len() - p, 1int,
{
    match restriction_at(s, p) {
        Some(x) => Some(x),
        None => match group_at(s, p) {
            Some(x) => Some(x),
            None => name_rewrite_at(s, p),
        },
    }
}

/// `( expression )`.
pub open spec fn group_at(s: Seq<char>, p: int) -> Option<(RewriteView, int)>
    decreases s.len() - p, 0int,
{
    match symbol_at(s, p, '(') {
        Some(q) => if p < q <= s.len() {
            match expr_at(s, q) {
                Some((e, r)) => match symbol_at(s, r, ')') {
                    Some(f) => Some((e, f)),
                    None => None,
                },
                None => None,
            }
        } else {
            None
        },
        None => None,
    }
}

/// `define name: expression`.
pub open spec fn relation_def_at(s: Seq<char>, p: int) -> Option<((Seq<char>, RewriteView), int)> {
    match keyword_at(s, p, "define"@) {
        None => None,
        Some(q) => match padded_ident(s, q) {
            None => None,
            Some((name, r)) => match symbol_at(s, r, ':') {
                None => None,
                Some(t) => match expr_at(s, t) {
                    None => None,
                    Some((rw, e)) => Some(((name, rw), e)),
                },
            },
        },
    }
}

/// Further relation definitions after `acc`.
pub open spec fn relation_defs_after(
    s: Seq<char>,
    p: int,
    acc: Seq<(Seq<char>, RewriteView)>,
) -> (Seq<(Seq<char>, RewriteView)>, int)
    decreases s.len() - p,
{
    match relation_def_at(s, p) {
        Some((d, q)) => if p < q <= s.len() {
            relation_defs_after(s, q, acc.push(d))
        } else {
            (acc, p)
        },
        None => (acc, p),
    }
}

/// `relations` and at least one definition.
pub open spec fn relations_block_at(s: Seq<char>, p: int) -> Option<
    (Seq<(Seq<char>, RewriteView)>, int),
> {
    match keyword_at(s, p, "relations"@) {
        None => None,
        Some(q) => match relation_def_at(s, q) {
            None => None,
            Some((d, r)) => if q < r <= s.len() {
                Some(relation_defs_after(s, r, seq![d]))
            } else {
                None
            },
        },
    }
}

/// `type name`, optionally followed by its relations.
pub open spec fn type_block_at(s: Seq<char>, p: int) -> Option<
    ((Seq<char>, Seq<(Seq<char>, RewriteView)>), int),
> {
    match keyword_at(s, p, "type"@) {
        None => None,
        Some(q) => match padded_ident(s, q) {
            None => None,
            Some((name, r)) => match relations_block_at(s, r) {
                Some((rels, e)) => Some(((name, rels), e)),
                None => Some(((name, Seq::empty()), r)),
            },
        },
    }
}

/// Further type blocks after `acc`.
pub open spec fn type_blocks_after(s: Seq<char>, p: int, acc: SchemaView) -> (SchemaView, int)
    decreases s.len() - p,
{
    match type_block_at(s, p) {
        Some((d, q)) => if p < q <= s.len() {
            type_blocks_after(s, q, acc.push(d))
        } else {
            (acc, p)
        },
        None => (acc, p),
    }
}

/// Where reading the type blocks of a text stops.
pub open spec fn schema_text_end(s: Seq<char>) -> int {
    ws_end(s, type_blocks_after(s, ws_end(s, 0), Seq::empty()).1)
}

/// The type blocks of a schema text, in order, when the whole text is type blocks.
pub open spec fn schema_text(s: Seq<char>) -> Option<SchemaView> {
    let (defs, q) = type_blocks_after(s, ws_end(s, 0), Seq::empty());
    if ws_end(s, q) == s.len() {
        Some(defs)
    } else {
        None
    }
}

fn space_char(c: char) -> (r: bool)
    ensures
        r == is_space(c),
{
    let u = c as u32;
    (9 <= u && u <= 13) || u == 32 || u == 0x85 || u == 0xA0 || u == 0x1680 || (0x2000 <= u
        && u <= 0x200A) || u == 0x2028 || u == 0x2029 || u == 0x202F || u == 0x205F || u
        == 0x3000
}

fn ident_start_char(c: char) -> (r: bool)
    ensures
        r == is_ident_start(c),
{
    let u = c as u32;
    (97 <= u && u <= 122) || (65 <= u && u <= 90) || u == 95
}

fn ident_char(c: char) -> (r: bool)
    ensures
        r == is_ident_char(c),
{
    let u = c as u32;
    ident_start_char(c) || (48 <= u && u <= 57)
}

fn read_ws(s: &Vec<char>, p: usize) -> (q: usize)
    requires
        p <= s@.len(),
    ensures
        q == ws_end(s@, p as int),
        p <= q <= s@.len(),
{
    let mut q = p;
    while q < s.len() && space_char(s[q])
        invariant
            p <= q <= s@.len(),
            ws_end(s@, p as int) == ws_end(s@, q as int),
        decreases s.len() - q,
    {
        q = q + 1;
    }
    q
}

fn read_ident(s: &Vec<char>, p: usize) -> (r: Option<usize>)
    requires
        p <= s@.len(),
    ensures
        match r {
            Some(e) => ident_at(s@, p as int) == Some((s@.subrange(p as int, e as int), e as int))
                && p < e <= s@.len(),
            None => ident_at(s@, p as int) is None,
        },
{
    if p < s.len() && ident_start_char(s[p]) {
        let mut e = p + 1;
        while e < s.len() && ident_char(s[e])
            invariant
                p < e <= s@.len(),
                ident_end(s@, p + 1) == ident_end(s@, e as int),
            decreases s.len() - e,
        {
            e = e + 1;
        }
        Some(e)
    } else {
        None
    }
}

/// `(start, end, next)` of a padded identifier.
fn read_padded_ident(s: &Vec<char>, p: usize) -> (r: Option<(usize, usize, usize)>)
    requires
        p <= s@.len(),
    ensures
        match r {
            Some((a, b, c)) => padded_ident(s@, p as int) == Some(
                (s@.subrange(a as int, b as int), c as int),
            ) && p <= a < b <= c <= s@.len(),
            None => padded_ident(s@, p as int) is None,
        },
{
    let a = read_ws(s, p);
    let b = read_ident(s, a)?;
    let c = read_ws(s, b);
    Some((a, b, c))
}

fn same_chars(s: &Vec<char>, a: usize, b: usize, w: &Vec<char>) -> (r: bool)
    requires
        a <= b <= s@.len(),
    ensures
        r == (s@.subrange(a as int, b as int) == w@),
{
    if b - a != w.len() {
        return false;
    }
    let mut i: usize = 0;
    while i < w.len()
        invariant
            a <= b <= s@.len(),
            b - a == w@.len(),
            i <= w@.len(),
            forall|j: int| 0 <= j < i ==> s@[a + j] == w@[j],
        decreases w.len() - i,
    {
        if s[a + i] != w[i] {
            assert(s@.subrange(a as int, b as int)[i as int] != w@[i as int]);
            return false;
        }
        i = i + 1;
    }
    assert(s@.subrange(a as int, b as int) =~= w@);
    true
}

fn read_keyword(s: &Vec<char>, p: usize, w: &Vec<char>) -> (r: Option<usize>)
    requires
        p <= s@.len(),
    ensures
        match r {
            Some(q) => keyword_at(s@, p as int, w@) == Some(q as int) && p < q <= s@.len(),
            None => keyword_at(s@, p as int, w@) is None,
        },
{
    let (a, b, c) = read_padded_ident(s, p)?;
    if same_chars(s, a, b, w) {
        Some(c)
    } else {
        None
    }
}

fn read_symbol(s: &Vec<char>, p: usize, c: char) -> (r: Option<usize>)
    requires
        p <= s@.len(),
    ensures
        match r {
            Some(q) => symbol_at(s@, p as int, c) == Some(q as int) && p < q <= s@.len(),
            None => symbol_at(s@, p as int, c) is None,
        },
{
    let q = read_ws(s, p);
    if q < s.len() && s[q] == c {
        Some(read_ws(s, q + 1))
    } else {
        None
    }
}

fn read_type_ref(s: &Vec<char>, p: usize) -> (r: Option<(TypeRef, usize)>)
    requires
        p <= s@.len(),
    ensures
        match r {
            Some((t, q)) => type_ref_at(s@, p as int) == Some((t@, q as int)) && p < q <= s@.len(),
            None => type_ref_at(s@, p as int) is None,
        },
{
    let a = read_ws(s, p);
    let e = read_ident(s, a)?;
    let name = string_of(s, a, e);
    if e < s.len() && s[e] == '#' {
        if let Some(f) = read_ident(s, e + 1) {
            let rel = string_of(s, e + 1, f);
            let q = read_ws(s, f);
            return Some((TypeRef { namespace: name, subject: TypeRefKind::Userset(rel) }, q));
        }
    }
    if e < s.len() && e + 1 < s.len() && s[e] == ':' && s[e + 1] == '*' {
        let q = read_ws(s, e + 2);
        return Some((TypeRef { namespace: name, subject: TypeRefKind::Wildcard }, q));
    }
    let q = read_ws(s, e);
    Some((TypeRef { namespace: name, subject: TypeRefKind::Direct }, q))
}

fn read_type_refs_after(s: &Vec<char>, p: usize, acc: Vec<TypeRef>) -> (r: (Vec<TypeRef>, usize))
    requires
        p <= s@.len(),
    ensures
        type_refs_after(s@, p as int, type_refs_view(acc@)) == (type_refs_view(r.0@), r.1 as int),
        p <= r.1 <= s@.len(),
    decreases s@.len() - p,
{
    let q = match read_symbol(s, p, ',') {
        Some(q) => q,
        None => return (acc, p),
    };
    match read_type_ref(s, q) {
        Some((t, e)) => {
            let mut acc = acc;
            let ghost before = type_refs_view(acc@);
            let ghost tv = t@;
            acc.push(t);
            assert(type_refs_view(acc@) =~= before.push(tv));
            read_type_refs_after(s, e, acc)
        },
        None => (acc, p),
    }
}

fn read_restriction(s: &Vec<char>, p: usize) -> (r: Option<(Rewrite, usize)>)
    requires
        p <= s@.len(),
    ensures
        match r {
            Some((x, q)) => restriction_at(s@, p as int) == Some((x@, q as int)) && p < q
                <= s@.len(),
            None => restriction_at(s@, p as int) is None,
        },
{
    let q = read_symbol(s, p, '[')?;
    let (t, e) = read_type_ref(s, q)?;
    let ghost tv = t@;
    let first = vec![t];
    assert(type_refs_view(first@) =~= seq![tv]);
    let (all, f) = read_type_refs_after(s, e, first);
    let g = read_symbol(s, f, ']')?;
    Some((Rewrite::This { allowed: all }, g))
}

fn reserved_word(s: &Vec<char>, a: usize, b: usize) -> (r: bool)
    requires
        a <= b <= s@.len(),
    ensures
        r == is_reserved_word(s@.subrange(a as int, b as int)),
{
    same_chars(s, a, b, &chars_of("or")) || same_chars(s, a, b, &chars_of("and")) || same_chars(
        s,
        a,
        b,
        &chars_of("but"),
    ) || same_chars(s, a, b, &chars_of("not")) || same_chars(s, a, b, &chars_of("from"))
        || same_chars(s, a, b, &chars_of("type")) || same_chars(s, a, b, &chars_of("relations"))
        || same_chars(s, a, b, &chars_of("define"))
}

fn read_name_rewrite(s: &Vec<char>, p: usize) -> (r: Option<(Rewrite, usize)>)
    requires
        p <= s@.len(),
    ensures
        match r {
            Some((x, q)) => name_rewrite_at(s@, p as int) == Some((x@, q as int)) && p < q
                <= s@.len(),
            None => name_rewrite_at(s@, p as int) is None,
        },
{
    let (a, b, q) = read_padded_ident(s, p)?;
    if reserved_word(s, a, b) {
        return None;
    }
    let name = string_of(s, a, b);
    let from = chars_of("from");
    if let Some(r) = read_keyword(s, q, &from) {
        if let Some((c, d, e)) = read_padded_ident(s, r) {
            let tupleset = string_of(s, c, d);
            return Some((Rewrite::TupleToUserset { tupleset, computed: name }, e));
        }
    }
    Some((Rewrite::ComputedUserset { relation: name }, q))
}

fn read_operator(s: &Vec<char>, p: usize) -> (r: Option<(BinOp, usize)>)
    requires
        p <= s@.len(),
    ensures
        match r {
            Some((o, q)) => operator_at(s@, p as int) == Some((o, q as int)) && p < q <= s@.len(),
            None => operator_at(s@, p as int) is None,
        },
{
    if let Some(q) = read_keyword(s, p, &chars_of("or")) {
        return Some((BinOp::Or, q));
    }
    if let Some(q) = read_keyword(s, p, &chars_of("and")) {
        return Some((BinOp::And, q));
    }
    let q = read_keyword(s, p, &chars_of("but"))?;
    let r = read_keyword(s, q, &chars_of("not"))?;
    Some((BinOp::ButNot, r))
}

proof fn lemma_push_view(v: Seq<Rewrite>, x: Rewrite)
    ensures
        rewrites_view(v.push(x)) == rewrites_view(v).push(x@),
{
    assert(v.push(x).subrange(0, v.len() as int) =~= v);
}

/// Combines two rewrites with an operator, extending a union or intersection
/// on the left rather than nesting it.
pub fn merge_rewrites(lhs: Rewrite, op: BinOp, rhs: Rewrite) -> (r: Rewrite)
    ensures
        r@ == merge(lhs@, op, rhs@),
{
    let ghost l = lhs@;
    let ghost rv = rhs@;
    match op {
        BinOp::Or => match lhs {
            Rewrite::Union(v) => {
                let mut v = v;
                proof {
                    lemma_push_view(v@, rhs);
                }
                v.push(rhs);
                Rewrite::Union(v)
            },
            other => {
                let v = vec![other, rhs];
                proof {
                    lemma_push_view(seq![v@[0]], rhs);
                    lemma_push_view(Seq::empty(), v@[0]);
                    assert(v@ =~= seq![v@[0]].push(rhs));
                    assert(seq![v@[0]] =~= Seq::<Rewrite>::empty().push(v@[0]));
                    assert(rewrites_view(v@) =~= seq![l, rv]);
                }
                Rewrite::Union(v)
            },
        },
        BinOp::And => match lhs {
            Rewrite::Intersection(v) => {
                let mut v = v;
                proof {
                    lemma_push_view(v@, rhs);
                }
                v.push(rhs);
                Rewrite::Intersection(v)
            },
            other => {
                let v = vec![other, rhs];
                proof {
                    lemma_push_view(seq![v@[0]], rhs);
                    lemma_push_view(Seq::empty(), v@[0]);
                    assert(v@ =~= seq![v@[0]].push(rhs));
                    assert(seq![v@[0]] =~= Seq::<Rewrite>::empty().push(v@[0]));
                    assert(rewrites_view(v@) =~= seq![l, rv]);
                }
                Rewrite::Intersection(v)
            },
        },
        BinOp::ButNot => Rewrite::Exclusion(Box::new(lhs), Box::new(rhs)),
    }
}

fn read_expr(s: &Vec<char>, p: usize) -> (r: Option<(Rewrite, usize)>)
    requires
        p <= s@.len(),
    ensures
        match r {
            Some((x, q)) => expr_at(s@, p as int) == Some((x@, q as int)) && p < q <= s@.len(),
            None => expr_at(s@, p as int) is None,
        },
    decreases s@.len() - p, 3int,
{
    let (a, q) = read_atom(s, p)?;
    let (x, e) = read_expr_rest(s, q, a);
    Some((x, e))
}

fn read_expr_rest(s: &Vec<char>, p: usize, acc: Rewrite) -> (r: (Rewrite, usize))
    requires
        p <= s@.len(),
    ensures
        expr_rest_at(s@, p as int, acc@) == (r.0@, r.1 as int),
        p <= r.1 <= s@.len(),
    decreases s@.len() - p, 2int,
{
    let (o, q) = match read_operator(s, p) {
        Some(x) => x,
        None => return (acc, p),
    };
    match read_atom(s, q) {
        Some((r, e)) => {
            let m = merge_rewrites(acc, o, r);
            read_expr_rest(s, e, m)
        },
        None => (acc, p),
    }
}

fn read_atom(s: &Vec<char>, p: usize) -> (r: Option<(Rewrite, usize)>)
    requires
        p <= s@.len(),
    ensures
        match r {
            Some((x, q)) => atom_at(s@, p as int) == Some((x@, q as int)) && p < q <= s@.len(),
            None => atom_at(s@, p as int) is None,
        },
    decreases s@.len() - p, 1int,
{
    if let Some(x) = read_restriction(s, p) {
        return Some(x);
    }
    if let Some(x) = read_group(s, p) {
        return Some(x);
    }
    read_name_rewrite(s, p)
}

fn read_group(s: &Vec<char>, p: usize) -> (r: Option<(Rewrite, usize)>)
    requires
        p <= s@.len(),
    ensures
        match r {
            Some((x, q)) => group_at(s@, p as int) == Some((x@, q as int)) && p < q <= s@.len(),
            None => group_at(s@, p as int) is None,
        },
    decreases s@.len() - p, 0int,
{
    let q = read_symbol(s, p, '(')?;
    let (e, r) = read_expr(s, q)?;
    let f = read_symbol(s, r, ')')?;
    Some((e, f))
}

fn read_relation_def(s: &Vec<char>, p: usize) -> (r: Option<(String, Rewrite, usize)>)
    requires
        p <= s@.len(),
    ensures
        match r {
            Some((n, x, q)) => relation_def_at(s@, p as int) == Some(((n@, x@), q as int)) && p
                < q <= s@.len(),
            None => relation_def_at(s@, p as int) is None,
        },
{
    let q = read_keyword(s, p, &chars_of("define"))?;
    let (a, b, r) = read_padded_ident(s, q)?;
    let t = read_symbol(s, r, ':')?;
    let (rw, e) = read_expr(s, t)?;
    Some((string_of(s, a, b), rw, e))
}

fn read_relation_defs_after(s: &Vec<char>, p: usize, acc: Vec<(String, Rewrite)>) -> (r: (
    Vec<(String, Rewrite)>,
    usize,
))
    requires
        p <= s@.len(),
    ensures
        relation_defs_after(s@, p as int, relations_view(acc@)) == (
            relations_view(r.0@),
            r.1 as int,
        ),
        p <= r.1 <= s@.len(),
    decreases s@.len() - p,
{
    match read_relation_def(s, p) {
        Some((n, x, q)) => {
            let mut acc = acc;
            let ghost before = relations_view(acc@);
            let ghost d = (n@, x@);
            acc.push((n, x));
            assert(relations_view(acc@) =~= before.push(d));
            read_relation_defs_after(s, q, acc)
        },
        None => (acc, p),
    }
}

fn read_relations_block(s: &Vec<char>, p: usize) -> (r: Option<(Vec<(String, Rewrite)>, usize)>)
    requires
        p <= s@.len(),
    ensures
        match r {
            Some((v, q)) => relations_block_at(s@, p as int) == Some(
                (relations_view(v@), q as int),
            ) && p < q <= s@.len(),
            None => relations_block_at(s@, p as int) is None,
        },
{
    let q = read_keyword(s, p, &chars_of("relations"))?;
    let (n, x, r) = read_relation_def(s, q)?;
    let ghost d = (n@, x@);
    let first = vec![(n, x)];
    assert(relations_view(first@) =~= seq![d]);
    let (all, e) = read_relation_defs_after(s, r, first);
    Some((all, e))
}

fn read_type_block(s: &Vec<char>, p: usize) -> (r: Option<(TypeDef, usize)>)
    requires
        p <= s@.len(),
    ensures
        match r {
            Some((t, q)) => type_block_at(s@, p as int) == Some((t@, q as int)) && p < q
                <= s@.len(),
            None => type_block_at(s@, p as int) is None,
        },
{
    let q = read_keyword(s, p, &chars_of("type"))?;
    let (a, b, r) = read_padded_ident(s, q)?;
    let name = string_of(s, a, b);
    match read_relations_block(s, r) {
        Some((relations, e)) => Some((TypeDef { name, relations }, e)),
        None => {
            let relations: Vec<(String, Rewrite)> = Vec::new();
            assert(relations_view(relations@) =~= Seq::empty());
            Some((TypeDef { name, relations }, r))
        },
    }
}

fn read_type_blocks_after(s: &Vec<char>, p: usize, acc: Vec<TypeDef>) -> (r: (
    Vec<TypeDef>,
    usize,
))
    requires
        p <= s@.len(),
    ensures
        type_blocks_after(s@, p as int, types_view(acc@)) == (types_view(r.0@), r.1 as int),
        p <= r.1 <= s@.len(),
    decreases s@.len() - p,
{
    match read_type_block(s, p) {
        Some((t, q)) => {
            let mut acc = acc;
            let ghost before = types_view(acc@);
            let ghost d = t@;
            acc.push(t);
            assert(types_view(acc@) =~= before.push(d));
            read_type_blocks_after(s, q, acc)
        },
        None => (acc, p),
    }
}

/// No union starts with a union and no intersection starts with an
/// intersection, all the way down: `a or b or c` is one union of three.
pub open spec fn flat(rw: RewriteView) -> bool
    decreases rw,
{
    match rw {
        RewriteView::Union(v) => v.len() >= 2 && !(v[0] is Union) && all_flat(v),
        RewriteView::Intersection(v) => v.len() >= 2 && !(v[0] is Intersection) && all_flat(v),
        RewriteView::Exclusion(a, b) => flat(*a) && flat(*b),
        _ => true,
    }
}

pub open spec fn all_flat(v: Seq<RewriteView>) -> bool
    decreases v,
{
    v.len() == 0 || (all_flat(v.subrange(0, v.len() - 1)) && flat(v[v.len() - 1]))
}

proof fn lemma_all_flat_push(v: Seq<RewriteView>, r: RewriteView)
    requires
        all_flat(v),
        flat(r),
    ensures
        all_flat(v.push(r)),
{
    assert(v.push(r).subrange(0, v.len() as int) =~= v);
}

/// Joining two flat rewrites with an operator gives a flat rewrite.
pub proof fn lemma_merge_flat(lhs: RewriteView, op: BinOp, rhs: RewriteView)
    requires
        flat(lhs),
        flat(rhs),
    ensures
        flat(merge(lhs, op, rhs)),
{
    match op {
        BinOp::Or => match lhs {
            RewriteView::Union(v) => {
                lemma_all_flat_push(v, rhs);
            },
            _ => {
                lemma_all_flat_push(Seq::empty(), lhs);
                lemma_all_flat_push(seq![lhs], rhs);
                assert(Seq::<RewriteView>::empty().push(lhs) =~= seq![lhs]);
                assert(seq![lhs].push(rhs) =~= seq![lhs, rhs]);
            },
        },
        BinOp::And => match lhs {
            RewriteView::Intersection(v) => {
                lemma_all_flat_push(v, rhs);
            },
            _ => {
                lemma_all_flat_push(Seq::empty(), lhs);
                lemma_all_flat_push(seq![lhs], rhs);
                assert(Seq::<RewriteView>::empty().push(lhs) =~= seq![lhs]);
                assert(seq![lhs].push(rhs) =~= seq![lhs, rhs]);
            },
        },
        BinOp::ButNot => {},
    }
}

/// Every rewrite expression that reads is flat: a chain of one operator is a
/// single node, whatever grouping came before it.
pub proof fn lemma_expr_flat(s: Seq<char>, p: int)
    ensures
        expr_at(s, p) matches Some((rw, _)) ==> flat(rw),
    decreases s.len() - p, 3int,
{
    if 0 <= p <= s.len() {
        lemma_atom_flat(s, p);
        if let Some((a, q)) = atom_at(s, p) {
            if p < q <= s.len() {
                lemma_expr_rest_flat(s, q, a);
            }
        }
    }
}

/// As [`lemma_expr_flat`], for the operators after a first operand.
pub proof fn lemma_expr_rest_flat(s: Seq<char>, p: int, acc: RewriteView)
    requires
        flat(acc),
    ensures
        flat(expr_rest_at(s, p, acc).0),
    decreases s.len() - p, 2int,
{
    if let Some((o, q)) = operator_at(s, p) {
        if p < q <= s.len() {
            lemma_atom_flat(s, q);
            if let Some((r, e)) = atom_at(s, q) {
                if q < e <= s.len() {
                    lemma_merge_flat(acc, o, r);
                    lemma_expr_rest_flat(s, e, merge(acc, o, r));
                }
            }
        }
    }
}

/// As [`lemma_expr_flat`], for one operand.
pub proof fn lemma_atom_flat(s: Seq<char>, p: int)
    ensures
        atom_at(s, p) matches Some((rw, _)) ==> flat(rw),
    decreases s.len() - p, 1int,
{
    lemma_group_flat(s, p);
}

/// As [`lemma_expr_flat`], for a parenthesized expression.
pub proof fn lemma_group_flat(s: Seq<char>, p: int)
    ensures
        group_at(s, p) matches Some((rw, _)) ==> flat(rw),
    decreases s.len() - p, 0int,
{
    if let Some(q) = symbol_at(s, p, '(') {
        if p < q <= s.len() {
            lemma_expr_flat(s, q);
        }
    }
}

/// Every relation of every type has a flat rewrite.
pub open spec fn schema_flat(types: SchemaView) -> bool {
    forall|i: int, j: int|
        0 <= i < types.len() && 0 <= j < types[i].1.len() ==> flat(#[trigger] types[i].1[j].1)
}

proof fn lemma_relation_def_flat(s: Seq<char>, p: int)
    ensures
        relation_def_at(s, p) matches Some((d, _)) ==> flat(d.1),
{
    if let Some(q) = keyword_at(s, p, "define"@) {
        if let Some((name, r)) = padded_ident(s, q) {
            if let Some(t) = symbol_at(s, r, ':') {
                lemma_expr_flat(s, t);
            }
        }
    }
}

proof fn lemma_relation_defs_flat(s: Seq<char>, p: int, acc: Seq<(Seq<char>, RewriteView)>)
    requires
        forall|j: int| 0 <= j < acc.len() ==> flat(#[trigger] acc[j].1),
    ensures
        forall|j: int|
            0 <= j < relation_defs_after(s, p, acc).0.len() ==> flat(
                #[trigger] relation_defs_after(s, p, acc).0[j].1,
            ),
    decreases s.len() - p,
{
    lemma_relation_def_flat(s, p);
    let r = relation_defs_after(s, p, acc).0;
    match relation_def_at(s, p) {
        Some((d, q)) => {
            if p < q <= s.len() {
                let next = acc.push(d);
                assert forall|j: int| 0 <= j < next.len() implies flat(#[trigger] next[j].1) by {
                    if j < acc.len() {
                        assert(next[j] == acc[j]);
                    }
                }
                lemma_relation_defs_flat(s, q, next);
                let r2 = relation_defs_after(s, q, next).0;
                assert(r == r2);
                assert forall|j: int| 0 <= j < r.len() implies flat(#[trigger] r[j].1) by {
                    assert(flat(r2[j].1));
                }
            } else {
                assert forall|j: int| 0 <= j < r.len() implies flat(#[trigger] r[j].1) by {
                    assert(r[j] == acc[j]);
                }
            }
        },
        None => {
            assert forall|j: int| 0 <= j < r.len() implies flat(#[trigger] r[j].1) by {
                assert(r[j] == acc[j]);
            }
        },
    }
}

proof fn lemma_type_block_flat(s: Seq<char>, p: int)
    ensures
        type_block_at(s, p) matches Some((d, _)) ==> forall|j: int|
            0 <= j < d.1.len() ==> flat(#[trigger] d.1[j].1),
{
    if let Some(q) = keyword_at(s, p, "type"@) {
        if let Some((name, r)) = padded_ident(s, q) {
            if let Some(t) = keyword_at(s, r, "relations"@) {
                lemma_relation_def_flat(s, t);
                if let Some((d, u)) = relation_def_at(s, t) {
                    if t < u <= s.len() {
                        lemma_relation_defs_flat(s, u, seq![d]);
                    }
                }
            }
        }
    }
}

proof fn lemma_type_blocks_flat(s: Seq<char>, p: int, acc: SchemaView)
    requires
        schema_flat(acc),
    ensures
        schema_flat(type_blocks_after(s, p, acc).0),
    decreases s.len() - p,
{
    lemma_type_block_flat(s, p);
    if let Some((d, q)) = type_block_at(s, p) {
        if p < q <= s.len() {
            let next = acc.push(d);
            assert forall|i: int, j: int|
                0 <= i < next.len() && 0 <= j < next[i].1.len() implies flat(
                #[trigger] next[i].1[j].1,
            ) by {
                if i < acc.len() {
                    assert(next[i] == acc[i]);
                }
            }
            lemma_type_blocks_flat(s, q, next);
            assert(type_blocks_after(s, p, acc).0 == type_blocks_after(s, q, next).0);
        }
    }
}

/// Every rewrite of a schema text that reads is flat.
pub proof fn lemma_schema_text_flat(s: Seq<char>)
    ensures
        schema_text(s) matches Some(types) ==> schema_flat(types),
{
    lemma_type_blocks_flat(s, ws_end(s, 0), Seq::empty());
}

/// Storing the types of a flat schema keeps it flat.
pub proof fn lemma_schema_of_flat(types: SchemaView)
    requires
        schema_flat(types),
    ensures
        schema_flat(schema_of(types)),
{
    let inner = |r: RewriteView| flat(r);
    let outer = |rels: Seq<(Seq<char>, RewriteView)>|
        forall|j: int| 0 <= j < rels.len() ==> flat(#[trigger] rels[j].1);
    let stored = types.map_values(
        |t: (Seq<char>, Seq<(Seq<char>, RewriteView)>)| (t.0, insert_all(t.1)),
    );
    assert forall|i: int| 0 <= i < stored.len() implies outer(#[trigger] stored[i].1) by {
        let rels = types[i].1;
        assert forall|j: int| 0 <= j < rels.len() implies inner(#[trigger] rels[j].1) by {
            assert(flat(types[i].1[j].1));
        }
        lemma_insert_all_preserves(rels, inner);
        assert forall|j: int| 0 <= j < insert_all(rels).len() implies flat(
            #[trigger] insert_all(rels)[j].1,
        ) by {
            assert(inner(insert_all(rels)[j].1));
        }
    }
    lemma_insert_all_preserves(stored, outer);
    let out = schema_of(types);
    assert forall|i: int, j: int|
        0 <= i < out.len() && 0 <= j < out[i].1.len() implies flat(#[trigger] out[i].1[j].1) by {
        assert(outer(out[i].1));
    }
}

/// Every rewrite of a schema that a text reads as is flat: a chain of one
/// operator, `a or b or c`, is one node with all of its operands.
pub proof fn lemma_parsed_schema_flat(s: Seq<char>)
    ensures
        schema_text(s) matches Some(types) ==> schema_flat(schema_of(types)),
{
    lemma_schema_text_flat(s);
    if let Some(types) = schema_text(s) {
        lemma_schema_of_flat(types);
    }
}

/// Reads a schema text into its type blocks, or gives the position where the
/// text stops being type blocks.
pub fn read_schema(s: &Vec<char>) -> (r: Result<Vec<TypeDef>, usize>)
    ensures
        match r {
            Ok(v) => schema_text(s@) == Some(types_view(v@)),
            Err(q) => schema_text(s@) is None && q == schema_text_end(s@) && q < s@.len(),
        },
{
    let p = read_ws(s, 0);
    let empty: Vec<TypeDef> = Vec::new();
    assert(types_view(empty@) =~= Seq::empty());
    let (defs, q) = read_type_blocks_after(s, p, empty);
    let e = read_ws(s, q);
    if e == s.len() {
        Ok(defs)
    } else {
        Err(e)
    }
}

} // verus!
