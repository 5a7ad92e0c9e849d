use vstd::prelude::*;
use crate::document::{
    ContactView, MetadataView, OperationView, lemma_op_index, op_index, spec_document,
};
use crate::emitter::{accumulate_ops, spec_operation_ids};
use crate::parser::{
    DeclarationView, GrammarError, Token, ident_chars, is_keyword, lemma_parse_path_bounds,
    spec_parse_declaration, spec_parse_mutator, spec_parse_path, spec_parse_path_rest,
    spec_parse_routes, spec_parse_routes_rest,
};
use crate::path::{PathView, spec_operation_id};

verus! {

/// The token is the identifier with exactly these characters.
pub open spec fn is_ident_with(t: Token, s: Seq<char>) -> bool {
    match t {
        Token::Ident(x) => x@ == s,
        _ => false,
    }
}

/// At positions `i + 2m - 1` and `i + 2m` stand the scope separator and
/// then the identifier `s`: the rendering of the path segment number `m`.
pub open spec fn sep_ident_before(t: Seq<Token>, i: int, m: int, s: Seq<char>) -> bool {
    (t[i + 2 * m - 1] is PathSep) && is_ident_with(t[i + 2 * m], s)
}

/// At positions `j + 2m` and `j + 2m + 1` stand the scope separator and
/// then the identifier `s`.
pub open spec fn sep_ident_from(t: Seq<Token>, j: int, m: int, s: Seq<char>) -> bool {
    (t[j + 2 * m] is PathSep) && is_ident_with(t[j + 2 * m + 1], s)
}

/// The tokens starting at `i` spell the path `p`: its first segment, then
/// one scope separator and one identifier for every further segment. The
/// rendering occupies the positions `i` to `path_end(i, p)`, exclusive.
pub open spec fn path_at(t: Seq<Token>, i: int, p: PathView) -> bool {
    &&& p.len() >= 1
    &&& 0 <= i
    &&& path_end(i, p) <= t.len()
    &&& is_ident_with(t[i], p[0])
    &&& (forall|m: int| 1 <= m < p.len() ==> #[trigger] sep_ident_before(t, i, m, p[m]))
}

/// The position just after the rendering of `p` that starts at `i`.
pub open spec fn path_end(i: int, p: PathView) -> int {
    i + 2 * p.len() - 1
}

/// The tokens starting at `i` spell the continuation of a route list after
/// a path: nothing (or one trailing comma) at the very end of the input, or
/// a separating comma and the next path.
pub open spec fn routes_tail_at(t: Seq<Token>, i: int, more: Seq<PathView>, trailing: bool) -> bool
    decreases more.len(),
{
    if more.len() == 0 {
        if trailing {
            i + 1 == t.len() && i < t.len() && t[i] is Comma
        } else {
            i == t.len()
        }
    } else {
        &&& i < t.len() && t[i] is Comma
        &&& path_at(t, i + 1, more[0])
        &&& routes_tail_at(t, path_end(i + 1, more[0]), more.drop_first(), trailing)
    }
}

/// The tokens starting at `i` spell the route list `routes`, reaching the
/// end of the input, with a trailing comma exactly when `trailing` holds.
pub open spec fn routes_at(t: Seq<Token>, i: int, routes: Seq<PathView>, trailing: bool) -> bool {
    &&& routes.len() >= 1
    &&& path_at(t, i, routes[0])
    &&& routes_tail_at(t, path_end(i, routes[0]), routes.drop_first(), trailing)
}

/// The token sequence spells the declaration `dv` of the grammar: an
/// optional mutator clause `spec : path ;` first, then the route list.
pub open spec fn renders_declaration(t: Seq<Token>, dv: DeclarationView, trailing: bool) -> bool {
    match dv.mutator {
        None => routes_at(t, 0, dv.routes, trailing),
        Some(m) => {
            &&& t.len() >= 2
            &&& is_keyword(t[0])
            &&& t[1] is Colon
            &&& path_at(t, 2, m)
            &&& path_end(2, m) < t.len() && t[path_end(2, m)] is Semi
            &&& routes_at(t, path_end(2, m) + 1, dv.routes, trailing)
        },
    }
}

/// The continuation of a path parse consumes exactly the rendered
/// separator-identifier pairs and stops at the first token that is not a
/// scope separator.
proof fn lemma_path_rest_parses(t: Seq<Token>, j: int, acc: PathView, more: PathView)
    requires
        0 <= j,
        j + 2 * more.len() <= t.len(),
        forall|m: int| 0 <= m < more.len() ==> #[trigger] sep_ident_from(t, j, m, more[m]),
        j + 2 * more.len() < t.len() ==> !(t[j + 2 * more.len()] is PathSep),
    ensures
        spec_parse_path_rest(t, j, acc) == Ok::<(PathView, int), GrammarError>(
            (acc + more, j + 2 * more.len()),
        ),
    decreases more.len(),
{
    if more.len() == 0 {
        assert(acc + more =~= acc);
    } else {
        assert(sep_ident_from(t, j, 0, more[0]));
        assert forall|m: int| 0 <= m < more.drop_first().len() implies #[trigger] sep_ident_from(
            t,
            j + 2,
            m,
            more.drop_first()[m],
        ) by {
            assert(more.drop_first()[m] == more[m + 1]);
            assert(sep_ident_from(t, j, m + 1, more[m + 1]));
        }
        lemma_path_rest_parses(t, j + 2, acc.push(more[0]), more.drop_first());
        assert(acc.push(more[0]) + more.drop_first() =~= acc + more);
    }
}

/// A rendered path parses to exactly its segments, ending just after its
/// rendering, provided no scope separator follows it directly.
proof fn lemma_path_at_parses(t: Seq<Token>, i: int, p: PathView)
    requires
        path_at(t, i, p),
        path_end(i, p) < t.len() ==> !(t[path_end(i, p)] is PathSep),
    ensures
        spec_parse_path(t, i) == Ok::<(PathView, int), GrammarError>((p, path_end(i, p))),
{
    assert forall|m: int| 0 <= m < p.drop_first().len() implies #[trigger] sep_ident_from(
        t,
        i + 1,
        m,
        p.drop_first()[m],
    ) by {
        assert(p.drop_first()[m] == p[m + 1]);
        assert(sep_ident_before(t, i, m + 1, p[m + 1]));
    }
    lemma_path_rest_parses(t, i + 1, seq![p[0]], p.drop_first());
    assert(seq![p[0]] + p.drop_first() =~= p);
}

/// The continuation of a route-list parse accepts exactly the rendered
/// tail: each further comma-separated path is appended in order, and one
/// trailing comma is ignored.
proof fn lemma_routes_tail_parses(
    t: Seq<Token>,
    i: int,
    acc: Seq<PathView>,
    more: Seq<PathView>,
    trailing: bool,
)
    requires
        0 <= i <= t.len(),
        routes_tail_at(t, i, more, trailing),
    ensures
        spec_parse_routes_rest(t, i, acc) == Ok::<Seq<PathView>, GrammarError>(acc + more),
    decreases more.len(),
{
    if more.len() == 0 {
        assert(acc + more =~= acc);
    } else {
        let pe = path_end(i + 1, more[0]);
        assert(routes_tail_at(t, pe, more.drop_first(), trailing));
        if more.drop_first().len() == 0 {
            if trailing {
                assert(pe < t.len() && t[pe] is Comma);
            } else {
                assert(pe == t.len());
            }
        } else {
            assert(pe < t.len() && t[pe] is Comma);
        }
        lemma_path_at_parses(t, i + 1, more[0]);
        lemma_routes_tail_parses(t, pe, acc.push(more[0]), more.drop_first(), trailing);
        assert(acc.push(more[0]) + more.drop_first() =~= acc + more);
    }
}

/// A rendered route list parses to exactly its routes, in order.
proof fn lemma_routes_at_parses(t: Seq<Token>, i: int, routes: Seq<PathView>, trailing: bool)
    requires
        routes_at(t, i, routes, trailing),
    ensures
        spec_parse_routes(t, i) == Ok::<Seq<PathView>, GrammarError>(routes),
{
    let pe = path_end(i, routes[0]);
    assert(routes_tail_at(t, pe, routes.drop_first(), trailing));
    if routes.drop_first().len() == 0 {
        if trailing {
            assert(pe < t.len() && t[pe] is Comma);
        } else {
            assert(pe == t.len());
        }
    } else {
        assert(pe < t.len() && t[pe] is Comma);
    }
    lemma_path_at_parses(t, i, routes[0]);
    lemma_routes_tail_parses(t, pe, seq![routes[0]], routes.drop_first(), trailing);
    assert(seq![routes[0]] + routes.drop_first() =~= routes);
}

/// Grammar completeness: every token sequence that spells a declaration of
/// the grammar is accepted by the parser and parses to exactly that
/// declaration. The one proviso reproduces the positional disambiguation of
/// the reserved keyword: a declaration without a mutator clause whose first
/// route starts with the bare segment `spec` cannot be spelled, since the
/// leading keyword would open a mutator clause.
pub proof fn lemma_grammar_completeness(t: Seq<Token>, dv: DeclarationView, trailing: bool)
    requires
        renders_declaration(t, dv, trailing),
        dv.mutator is None ==> dv.routes[0][0] != "spec"@,
    ensures
        spec_parse_declaration(t) == Ok::<DeclarationView, GrammarError>(dv),
{
    match dv.mutator {
        None => {
            lemma_routes_at_parses(t, 0, dv.routes, trailing);
            assert(!is_keyword(t[0]));
            assert(DeclarationView { mutator: None, routes: dv.routes } =~= dv);
        },
        Some(m) => {
            lemma_path_at_parses(t, 2, m);
            assert(spec_parse_mutator(t) == Ok::<(PathView, int), GrammarError>(
                (m, path_end(2, m) + 1),
            ));
            lemma_routes_at_parses(t, path_end(2, m) + 1, dv.routes, trailing);
            assert(DeclarationView { mutator: Some(m), routes: dv.routes } =~= dv);
        },
    }
}

/// The continuation of a route-list parse never drops a route that was
/// already accumulated.
proof fn lemma_routes_rest_grows(t: Seq<Token>, i: int, acc: Seq<PathView>)
    requires
        0 <= i <= t.len(),
    ensures
        spec_parse_routes_rest(t, i, acc) matches Ok(rs) ==> rs.len() >= acc.len(),
    decreases t.len() - i,
{
    if i < t.len() && t[i] is Comma && i + 1 < t.len() {
        match spec_parse_path(t, i + 1) {
            Ok(r) => {
                lemma_parse_path_bounds(t, i + 1);
                lemma_routes_rest_grows(t, r.1, acc.push(r.0));
            },
            Err(_) => {},
        }
    }
}

/// A successful route-list parse yields at least one route.
proof fn lemma_routes_nonempty(t: Seq<Token>, i: int)
    requires
        0 <= i <= t.len(),
    ensures
        spec_parse_routes(t, i) matches Ok(rs) ==> rs.len() >= 1,
{
    if i < t.len() {
        match spec_parse_path(t, i) {
            Ok(r) => {
                lemma_parse_path_bounds(t, i);
                lemma_routes_rest_grows(t, r.1, seq![r.0]);
            },
            Err(_) => {},
        }
    }
}

/// A declaration with zero routes is never parsed: every successful parse
/// yields at least one route, so a token sequence whose route list is empty
/// fails with a grammar diagnostic and produces no artifact.
pub proof fn lemma_declaration_has_routes(t: Seq<Token>)
    ensures
        spec_parse_declaration(t) matches Ok(dv) ==> dv.routes.len() >= 1,
{
    if spec_parse_declaration(t) is Ok {
        if 0 < t.len() && crate::parser::is_keyword(t[0]) {
            match crate::parser::spec_parse_mutator(t) {
                Ok(m) => {
                    lemma_parse_path_bounds(t, 2);
                    lemma_routes_nonempty(t, m.1);
                },
                Err(_) => {},
            }
        } else {
            lemma_routes_nonempty(t, 0);
        }
    }
}

/// All the separator-identifier pairs of a path tail rendering, starting
/// at `j`.
pub open spec fn tail_pairs_at(t: Seq<Token>, j: int, more: PathView) -> bool {
    forall|m: int| 0 <= m < more.len() ==> #[trigger] sep_ident_from(t, j, m, more[m])
}

/// What a successful path-continuation parse consumed: the accumulated
/// segments are kept as a prefix, every further segment was read from a
/// rendered separator-identifier pair, and the parse stopped at the end of
/// the input or at a token that is no scope separator.
proof fn lemma_path_rest_sound(t: Seq<Token>, j: int, acc: PathView)
    requires
        0 <= j <= t.len(),
    ensures
        spec_parse_path_rest(t, j, acc) matches Ok(r) ==> {
            &&& r.0.len() >= acc.len()
            &&& r.0.take(acc.len() as int) == acc
            &&& tail_pairs_at(t, j, r.0.skip(acc.len() as int))
            &&& r.1 == j + 2 * (r.0.len() - acc.len())
            &&& r.1 <= t.len()
            &&& (r.1 == t.len() || !(t[r.1] is PathSep))
        },
    decreases t.len() - j,
{
    if j < t.len() && t[j] is PathSep {
        if j + 1 < t.len() && t[j + 1] is Ident {
            let c = ident_chars(t[j + 1]);
            lemma_path_rest_sound(t, j + 2, acc.push(c));
            match spec_parse_path_rest(t, j + 2, acc.push(c)) {
                Ok(r) => {
                    let p = r.0;
                    let a = acc.len() as int;
                    assert(p.take(a) =~= acc) by {
                        assert(forall|q: int| 0 <= q < a ==> p.take(a + 1)[q] == p.take(a)[q]);
                    }
                    assert(p[a] == p.take(a + 1)[a]);
                    let more0 = p.skip(a);
                    assert forall|m: int| 0 <= m < more0.len() implies #[trigger] sep_ident_from(
                        t,
                        j,
                        m,
                        more0[m],
                    ) by {
                        if m == 0 {
                            assert(more0[0] == p[a]);
                        } else {
                            assert(more0[m] == p.skip(a + 1)[m - 1]);
                            assert(sep_ident_from(t, j + 2, m - 1, p.skip(a + 1)[m - 1]));
                        }
                    }
                },
                Err(_) => {},
            }
        }
    } else {
        match spec_parse_path_rest(t, j, acc) {
            Ok(r) => {
                assert(r.0.take(acc.len() as int) =~= acc);
                assert(r.0.skip(acc.len() as int) =~= Seq::<Seq<char>>::empty());
            },
            Err(_) => {},
        }
    }
}

/// A successful path parse read exactly the rendering of its result.
proof fn lemma_path_sound(t: Seq<Token>, i: int)
    requires
        0 <= i <= t.len(),
    ensures
        spec_parse_path(t, i) matches Ok(r) ==> {
            &&& path_at(t, i, r.0)
            &&& r.1 == path_end(i, r.0)
            &&& (r.1 == t.len() || !(t[r.1] is PathSep))
        },
{
    if i < t.len() && t[i] is Ident {
        let c = ident_chars(t[i]);
        lemma_path_rest_sound(t, i + 1, seq![c]);
        match spec_parse_path(t, i) {
            Ok(r) => {
                let p = r.0;
                assert(p[0] == p.take(1)[0]);
                assert forall|m: int| 1 <= m < p.len() implies #[trigger] sep_ident_before(
                    t,
                    i,
                    m,
                    p[m],
                ) by {
                    assert(p.skip(1)[m - 1] == p[m]);
                    assert(sep_ident_from(t, i + 1, m - 1, p.skip(1)[m - 1]));
                }
            },
            Err(_) => {},
        }
    }
}

/// What a successful route-list-continuation parse consumed: the
/// accumulated routes are kept as a prefix and the remaining input renders
/// the further routes, with or without a trailing comma.
proof fn lemma_routes_rest_sound(t: Seq<Token>, i: int, acc: Seq<PathView>)
    requires
        0 <= i <= t.len(),
    ensures
        spec_parse_routes_rest(t, i, acc) matches Ok(rs) ==> {
            &&& rs.len() >= acc.len()
            &&& rs.take(acc.len() as int) == acc
            &&& exists|trailing: bool|
                #[trigger] routes_tail_at(t, i, rs.skip(acc.len() as int), trailing)
        },
    decreases t.len() - i,
{
    let a = acc.len() as int;
    if i >= t.len() {
        assert(acc.take(a) =~= acc);
        assert(acc.skip(a) =~= Seq::<PathView>::empty());
        assert(routes_tail_at(t, i, acc.skip(a), false));
    } else if t[i] is Comma {
        if i + 1 >= t.len() {
            assert(acc.take(a) =~= acc);
            assert(acc.skip(a) =~= Seq::<PathView>::empty());
            assert(routes_tail_at(t, i, acc.skip(a), true));
        } else {
            match spec_parse_path(t, i + 1) {
                Ok(r) => {
                    lemma_path_sound(t, i + 1);
                    lemma_parse_path_bounds(t, i + 1);
                    lemma_routes_rest_sound(t, r.1, acc.push(r.0));
                    match spec_parse_routes_rest(t, r.1, acc.push(r.0)) {
                        Ok(rs) => {
                            assert(rs.take(a) =~= acc) by {
                                assert(forall|q: int|
                                    0 <= q < a ==> rs.take(a + 1)[q] == rs.take(a)[q]);
                            }
                            assert(rs[a] == rs.take(a + 1)[a]);
                            let tr = routes_tail_at(t, r.1, rs.skip(a + 1), true);
                            assert(routes_tail_at(t, r.1, rs.skip(a + 1), tr));
                            let more0 = rs.skip(a);
                            assert(more0[0] == rs[a]);
                            assert(more0.drop_first() =~= rs.skip(a + 1));
                            assert(routes_tail_at(t, i, more0, tr));
                        },
                        Err(_) => {},
                    }
                },
                Err(_) => {},
            }
        }
    }
}

/// A successful route-list parse read exactly the rendering of its routes.
proof fn lemma_routes_sound(t: Seq<Token>, i: int)
    requires
        0 <= i <= t.len(),
    ensures
        spec_parse_routes(t, i) matches Ok(rs) ==> exists|trailing: bool|
            #[trigger] routes_at(t, i, rs, trailing),
{
    if i < t.len() {
        match spec_parse_path(t, i) {
            Ok(r) => {
                lemma_path_sound(t, i);
                lemma_parse_path_bounds(t, i);
                lemma_routes_rest_sound(t, r.1, seq![r.0]);
                match spec_parse_routes_rest(t, r.1, seq![r.0]) {
                    Ok(rs) => {
                        let tr = routes_tail_at(t, r.1, rs.skip(1), true);
                        assert(routes_tail_at(t, r.1, rs.skip(1), tr));
                        assert(rs[0] == rs.take(1)[0]);
                        assert(rs.drop_first() =~= rs.skip(1));
                        assert(routes_at(t, i, rs, tr));
                    },
                    Err(_) => {},
                }
            },
            Err(_) => {},
        }
    }
}

/// Grammar soundness: whatever the parser accepts is the one declaration
/// that the input spells. Together with completeness this pins the parser
/// down to exactly the grammar: it accepts a token sequence if and only if
/// the sequence renders a declaration, and then parses it to that
/// declaration.
pub proof fn lemma_grammar_soundness(t: Seq<Token>)
    ensures
        spec_parse_declaration(t) matches Ok(dv) ==> (exists|trailing: bool|
            #[trigger] renders_declaration(t, dv, trailing)) && (dv.mutator is None
            ==> dv.routes[0][0] != "spec"@),
{
    if 0 < t.len() && is_keyword(t[0]) {
        match spec_parse_mutator(t) {
            Ok(m) => {
                lemma_path_sound(t, 2);
                match spec_parse_path(t, 2) {
                    Ok(r) => {
                        lemma_routes_sound(t, m.1);
                        match spec_parse_routes(t, m.1) {
                            Ok(rs) => {
                                let tr = routes_at(t, m.1, rs, true);
                                assert(routes_at(t, m.1, rs, tr));
                                let dv = DeclarationView { mutator: Some(r.0), routes: rs };
                                assert(renders_declaration(t, dv, tr));
                            },
                            Err(_) => {},
                        }
                    },
                    Err(_) => {},
                }
            },
            Err(_) => {},
        }
    } else {
        lemma_routes_sound(t, 0);
        match spec_parse_routes(t, 0) {
            Ok(rs) => {
                let tr = routes_at(t, 0, rs, true);
                assert(routes_at(t, 0, rs, tr));
                let dv = DeclarationView { mutator: None, routes: rs };
                assert(renders_declaration(t, dv, tr));
                assert(rs[0][0] != "spec"@);
            },
            Err(_) => {},
        }
    }
}

/// Registration order is declaration order. When the derived operation
/// identifiers of the declared routes are pairwise distinct, the assembled
/// document holds exactly one operation per route, in declaration order,
/// each carrying that route's identifier and fragment: nothing is reordered
/// and nothing is dropped.
pub proof fn lemma_registration_order(ids: Seq<Seq<char>>, fragments: Seq<Seq<char>>)
    requires
        ids.len() == fragments.len(),
        forall|i: int, j: int| 0 <= i < j < ids.len() ==> ids[i] != ids[j],
    ensures
        ({
            let ops = accumulate_ops(ids, fragments);
            &&& ops.len() == ids.len()
            &&& forall|i: int|
                0 <= i < ids.len() ==> (#[trigger] ops[i]).id == ids[i] && ops[i].fragment
                    == fragments[i]
        }),
    decreases ids.len(),
{
    if ids.len() > 0 {
        let prev_ids = ids.drop_last();
        let prev_frags = fragments.drop_last();
        assert(forall|i: int, j: int|
            0 <= i < j < prev_ids.len() ==> prev_ids[i] != prev_ids[j]) by {
            assert(forall|i: int| 0 <= i < prev_ids.len() ==> prev_ids[i] == ids[i]);
        }
        lemma_registration_order(prev_ids, prev_frags);
        let prev = accumulate_ops(prev_ids, prev_frags);
        let last_id = ids.last();
        lemma_op_index(prev, last_id);
        if op_index(prev, last_id) != -1 {
            let x = op_index(prev, last_id);
            assert(prev[x].id == prev_ids[x]);
            assert(ids[x] == prev_ids[x]);
            assert(ids[x] != ids[ids.len() - 1]);
            assert(false);
        }
        assert(accumulate_ops(ids, fragments) == prev.push(
            OperationView { id: last_id, fragment: fragments.last() },
        ));
    }
}

/// Registration order, stated over the declared routes: with pairwise
/// distinct derived operation identifiers, the operations of the assembled
/// document stand in declaration order.
pub proof fn lemma_document_keeps_declaration_order(
    routes: Seq<PathView>,
    fragments: Seq<Seq<char>>,
    meta: MetadataView,
)
    requires
        fragments.len() == routes.len(),
        forall|i: int, j: int|
            0 <= i < j < routes.len() ==> spec_operation_id(routes[i]) != spec_operation_id(
                routes[j],
            ),
    ensures
        ({
            let doc = spec_document(accumulate_ops(spec_operation_ids(routes), fragments), meta);
            &&& doc.operations.len() == routes.len()
            &&& forall|i: int|
                0 <= i < routes.len() ==> (#[trigger] doc.operations[i]).id == spec_operation_id(
                    routes[i],
                ) && doc.operations[i].fragment == fragments[i]
        }),
{
    let ids = spec_operation_ids(routes);
    assert(forall|i: int| 0 <= i < routes.len() ==> ids[i] == spec_operation_id(routes[i]));
    lemma_registration_order(ids, fragments);
}

/// Contact resolution is last-write-wins: when both a repository URL and a
/// homepage URL are supplied, the single contact entry of the assembled
/// document carries the label `Homepage` and the homepage URL; the
/// repository contact is overwritten.
pub proof fn lemma_contact_homepage_wins(ops: Seq<OperationView>, meta: MetadataView)
    requires
        meta.repository_url.len() > 0,
        meta.homepage_url.len() > 0,
    ensures
        spec_document(ops, meta).contact == Some(
            ContactView { label: "Homepage"@, url: meta.homepage_url },
        ),
{
}

/// Generation is deterministic: the parsed declaration and the assembled
/// document are pure functions of the token input, the ambient package
/// facts, and the fragments contributed by the companion registrations, so
/// two passes over identical inputs yield identical documents.
pub proof fn lemma_generation_deterministic(
    t1: Seq<Token>,
    t2: Seq<Token>,
    meta1: MetadataView,
    meta2: MetadataView,
    fragments1: Seq<Seq<char>>,
    fragments2: Seq<Seq<char>>,
    routes: Seq<PathView>,
)
    requires
        t1 == t2,
        meta1 == meta2,
        fragments1 == fragments2,
    ensures
        spec_parse_declaration(t1) == spec_parse_declaration(t2),
        spec_document(accumulate_ops(spec_operation_ids(routes), fragments1), meta1)
            == spec_document(accumulate_ops(spec_operation_ids(routes), fragments2), meta2),
{
}

} // verus!
