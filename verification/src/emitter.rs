use vstd::prelude::*;
use crate::document::{
    Generator, MetadataView, OperationView, PackageMetadata, SpecificationDocument, DocumentView,
    metadata_complete, spec_document, spec_register,
};
use crate::parser::{
    Declaration, DeclarationView, GrammarError, Token, parse_declaration, spec_parse_declaration,
};
use crate::path::{PathView, RoutePath, paths_view, spec_operation_id};

verus! {

/// Why a generation pass aborted. Every failure is fatal: no partial
/// artifact is produced and nothing is retried.
#[derive(Debug)]
pub enum GenError {
    /// The token sequence is malformed; the diagnostic holds the nearest
    /// valid parse position.
    Grammar(GrammarError),
    /// A required package fact (name or version) is missing.
    Configuration,
    /// The companion registration invocation failed for this route.
    Registration(RoutePath),
}

/// One runtime route binding of the generated collection.
#[derive(Debug)]
pub enum RouteBinding {
    /// Dispatches to the declared route target, unmodified.
    Dispatch(RoutePath),
    /// Serves the assembled specification document at the given path.
    DocumentHandler(SpecificationDocument, String),
}

/// Whether a binding dispatches, unmodified, to the given route reference.
pub open spec fn dispatches_to(b: RouteBinding, p: PathView) -> bool {
    match b {
        RouteBinding::Dispatch(rp) => rp@ == p,
        _ => false,
    }
}

/// The operation identifiers derived from a sequence of route references.
pub open spec fn spec_operation_ids(routes: Seq<PathView>) -> Seq<Seq<char>> {
    routes.map_values(|p: PathView| spec_operation_id(p))
}

/// The operations accumulated by registering the given identifiers and
/// fragments pairwise, in order, into an empty generator.
pub open spec fn accumulate_ops(ids: Seq<Seq<char>>, fragments: Seq<Seq<char>>) -> Seq<
    OperationView,
>
    decreases ids.len(),
{
    if ids.len() == 0 || fragments.len() == 0 {
        Seq::empty()
    } else {
        spec_register(
            accumulate_ops(ids.drop_last(), fragments.drop_last()),
            ids.last(),
            fragments.last(),
        )
    }
}

/// The companion reference `cr` was derived from the route reference `p`:
/// the qualification prefix is kept byte for byte, and the final segment is
/// an output of the injected naming rule on the route's base name.
pub open spec fn derived_from<N: Fn(String) -> String>(naming: N, p: PathView, cr: PathView) -> bool {
    &&& cr.len() == p.len()
    &&& (forall|j: int| 0 <= j < p.len() - 1 ==> cr[j] == p[j])
    &&& exists|base: String, derived: String|
        base@ == p.last() && #[trigger] call_ensures(naming, (base,), derived) && cr.last()
            == derived@
}

/// The companion registration invocation for route `p` can succeed with the
/// fragment `fragment`: it is called with a reference derived by the naming
/// rule and with the operation identifier of `p`.
pub open spec fn companion_ok<
    N: Fn(String) -> String,
    C: Fn(RoutePath, String) -> Result<String, String>,
>(naming: N, companion: C, p: PathView, fragment: Seq<char>) -> bool {
    exists|cr: RoutePath, id: String, f: String|
        derived_from(naming, p, cr@) && id@ == spec_operation_id(p) && #[trigger] call_ensures(
            companion,
            (cr, id),
            Ok::<String, String>(f),
        ) && f@ == fragment
}

/// The companion registration invocation for route `p` can fail.
pub open spec fn companion_failed<
    N: Fn(String) -> String,
    C: Fn(RoutePath, String) -> Result<String, String>,
>(naming: N, companion: C, p: PathView) -> bool {
    exists|cr: RoutePath, id: String, message: String|
        derived_from(naming, p, cr@) && id@ == spec_operation_id(p) && #[trigger] call_ensures(
            companion,
            (cr, id),
            Err::<String, String>(message),
        )
}

/// The companion registration invocation for route `p` can succeed with
/// some fragment.
pub open spec fn companion_succeeds<
    N: Fn(String) -> String,
    C: Fn(RoutePath, String) -> Result<String, String>,
>(naming: N, companion: C, p: PathView) -> bool {
    exists|fragment: Seq<char>| #[trigger] companion_ok(naming, companion, p, fragment)
}

/// How the served document relates to the assembled one. Without a mutator
/// clause the served document is exactly the assembled document. With one,
/// the mutator was invoked once, on the fully assembled document (all
/// operations and all metadata present), and its output is served.
pub open spec fn document_final<
    M: Fn(RoutePath, SpecificationDocument) -> SpecificationDocument,
>(
    mutator: M,
    mutator_ref: Option<PathView>,
    ops: Seq<OperationView>,
    meta: MetadataView,
    doc: DocumentView,
) -> bool {
    match mutator_ref {
        None => doc == spec_document(ops, meta),
        Some(mp) => exists|m: RoutePath, before: SpecificationDocument, after: SpecificationDocument|
            m@ == mp && before@ == spec_document(ops, meta) && #[trigger] call_ensures(
                mutator,
                (m, before),
            after) && after@ == doc,
    }
}

/// The served document of a successful generation: some sequence of
/// fragments, one per route and each a possible outcome of that route's
/// companion invocation, was registered in declaration order, the package
/// metadata was attached, and the optional mutator ran last.
pub open spec fn generated_document<
    N: Fn(String) -> String,
    C: Fn(RoutePath, String) -> Result<String, String>,
    M: Fn(RoutePath, SpecificationDocument) -> SpecificationDocument,
>(naming: N, companion: C, mutator: M, dv: DeclarationView, meta: MetadataView, doc: DocumentView) -> bool {
    exists|fragments: Seq<Seq<char>>|
        #![trigger fragments.len()]
        {
            &&& fragments.len() == dv.routes.len()
            &&& (forall|k: int|
                0 <= k < dv.routes.len() ==> companion_ok(
                    naming,
                    companion,
                    dv.routes[k],
                    #[trigger] fragments[k],
                ))
            &&& document_final(
                mutator,
                dv.mutator,
                accumulate_ops(spec_operation_ids(dv.routes), fragments),
                meta,
                doc,
            )
        }
}

/// One whole generation pass: parses the declaration, checks the required
/// package facts, invokes the companion registration for every route in
/// declaration order (the first failure aborts, naming the offending
/// route), assembles the specification document, applies the optional
/// mutator, and returns the route collection: one binding per declared
/// route, in order, followed by exactly one synthesized binding that serves
/// the document at `document_path`.
pub fn generate<N, C, M>(
    tokens: &Vec<Token>,
    meta: &PackageMetadata,
    document_path: String,
    naming: N,
    companion: C,
    mutator: M,
) -> (r: Result<Vec<RouteBinding>, GenError>) where
    N: Fn(String) -> String,
    C: Fn(RoutePath, String) -> Result<String, String>,
    M: Fn(RoutePath, SpecificationDocument) -> SpecificationDocument,

    requires
        forall|s: String| #[trigger] call_requires(naming, (s,)),
        forall|p: RoutePath, id: String| #[trigger] call_requires(companion, (p, id)),
        forall|mp: RoutePath, d: SpecificationDocument| #[trigger] call_requires(mutator, (mp, d)),
    ensures
        match r {
            Ok(collection) => match spec_parse_declaration(tokens@) {
                Ok(dv) => {
                    &&& metadata_complete(meta@)
                    &&& collection@.len() == dv.routes.len() + 1
                    &&& (forall|i: int|
                        0 <= i < dv.routes.len() ==> dispatches_to(
                            #[trigger] collection@[i],
                            dv.routes[i],
                        ))
                    &&& match collection@.last() {
                        RouteBinding::DocumentHandler(doc, path) => path@ == document_path@
                            && generated_document(naming, companion, mutator, dv, meta@, doc@),
                        _ => false,
                    }
                },
                Err(_) => false,
            },
            Err(err) => match err {
                GenError::Grammar(e) => spec_parse_declaration(tokens@) == Err::<
                    DeclarationView,
                    GrammarError,
                >(e),
                GenError::Configuration => spec_parse_declaration(tokens@) is Ok
                    && !metadata_complete(meta@),
                GenError::Registration(route) => match spec_parse_declaration(tokens@) {
                    Ok(dv) => {
                        &&& metadata_complete(meta@)
                        &&& exists|k: int|
                            0 <= k < dv.routes.len() && route@ == #[trigger] dv.routes[k]
                                && companion_failed(naming, companion, dv.routes[k]) && (forall|
                                j: int,
                            |
                                0 <= j < k ==> companion_succeeds(
                                    naming,
                                    companion,
                                    #[trigger] dv.routes[j],
                                ))
                    },
                    Err(_) => false,
                },
            },
        },
{
    let decl = match parse_declaration(tokens) {
        Ok(d) => d,
        Err(e) => {
            return Err(GenError::Grammar(e));
        },
    };
    if meta.name.as_str().is_empty() || meta.version.as_str().is_empty() {
        return Err(GenError::Configuration);
    }
    let ghost dv = decl@;
    let Declaration { mutator: mutator_ref, routes } = decl;
    let ghost ids = spec_operation_ids(dv.routes);
    let mut generator = Generator::new();
    let ghost mut fragments: Seq<Seq<char>> = Seq::empty();
    let n = routes.len();
    let mut k: usize = 0;
    proof {
        assert(ids.take(0) =~= Seq::<Seq<char>>::empty());
        assert(generator@ == accumulate_ops(ids.take(0), fragments));
    }
    while k < n
        invariant
            n == routes@.len(),
            k <= n,
            spec_parse_declaration(tokens@) == Ok::<DeclarationView, GrammarError>(dv),
            metadata_complete(meta@),
            dv.routes == paths_view(routes@),
            ids == spec_operation_ids(dv.routes),
            forall|i: int| 0 <= i < routes@.len() ==> (#[trigger] routes@[i]).wf(),
            fragments.len() == k as int,
            forall|j: int|
                0 <= j < k ==> companion_ok(
                    naming,
                    companion,
                    dv.routes[j],
                    #[trigger] fragments[j],
                ),
            generator@ == accumulate_ops(ids.take(k as int), fragments),
            forall|s: String| #[trigger] call_requires(naming, (s,)),
            forall|p: RoutePath, id: String| #[trigger] call_requires(companion, (p, id)),
        decreases n - k,
    {
        let route = &routes[k];
        proof {
            assert(route@ == dv.routes[k as int]);
        }
        let base: String = route.last_segment().clone();
        let ghost base_g = base;
        let derived: String = naming(base);
        let ghost derived_g = derived;
        let companion_ref: RoutePath = route.companion_reference(derived);
        let ghost cr_g = companion_ref;
        let op_id: String = route.operation_id();
        let id_arg: String = op_id.clone();
        let ghost id_g = id_arg;
        proof {
            assert(derived_from(naming, dv.routes[k as int], cr_g@));
            assert(id_g@ == spec_operation_id(dv.routes[k as int]));
        }
        match companion(companion_ref, id_arg) {
            Ok(fragment) => {
                let ghost frag_g = fragment;
                generator.register(op_id, fragment);
                proof {
                    assert(call_ensures(companion, (cr_g, id_g), Ok::<String, String>(frag_g)));
                    assert(companion_ok(naming, companion, dv.routes[k as int], frag_g@));
                    let ids1 = ids.take(k + 1 as int);
                    let frags1 = fragments.push(frag_g@);
                    assert(ids1.drop_last() =~= ids.take(k as int));
                    assert(frags1.drop_last() =~= fragments);
                    assert(ids1.last() == spec_operation_id(dv.routes[k as int]));
                    assert(generator@ == accumulate_ops(ids1, frags1));
                    fragments = frags1;
                }
                k = k + 1;
            },
            Err(message) => {
                let ghost msg_g = message;
                let offending = route.clone();
                proof {
                    assert(call_ensures(companion, (cr_g, id_g), Err::<String, String>(msg_g)));
                    assert(companion_failed(naming, companion, dv.routes[k as int]));
                    assert forall|j: int| 0 <= j < k as int implies companion_succeeds(
                        naming,
                        companion,
                        dv.routes[j],
                    ) by {
                        assert(companion_ok(naming, companion, dv.routes[j], fragments[j]));
                    }
                }
                return Err(GenError::Registration(offending));
            },
        }
    }
    proof {
        assert(ids.take(n as int) =~= ids);
    }
    let document = generator.finalize(meta);
    let final_document: SpecificationDocument = match mutator_ref {
        Some(m) => {
            let ghost m_g = m;
            let ghost before_g = document;
            let after = mutator(m, document);
            proof {
                assert(call_ensures(mutator, (m_g, before_g), after));
                assert(document_final(
                    mutator,
                    dv.mutator,
                    accumulate_ops(ids, fragments),
                    meta@,
                    after@,
                ));
            }
            after
        },
        None => document,
    };
    proof {
        assert(document_final(
            mutator,
            dv.mutator,
            accumulate_ops(ids, fragments),
            meta@,
            final_document@,
        ));
        assert(generated_document(naming, companion, mutator, dv, meta@, final_document@));
    }
    let mut collection: Vec<RouteBinding> = Vec::new();
    let mut i: usize = 0;
    while i < n
        invariant
            n == routes@.len(),
            i <= n,
            collection@.len() == i as int,
            dv.routes == paths_view(routes@),
            forall|j: int| 0 <= j < i ==> dispatches_to(#[trigger] collection@[j], dv.routes[j]),
        decreases n - i,
    {
        collection.push(RouteBinding::Dispatch(routes[i].clone()));
        i = i + 1;
    }
    let ghost fd_g = final_document;
    let ghost dp_g = document_path;
    collection.push(RouteBinding::DocumentHandler(final_document, document_path));
    proof {
        assert(collection@.last() == RouteBinding::DocumentHandler(fd_g, dp_g));
    }
    Ok(collection)
}

} // verus!
