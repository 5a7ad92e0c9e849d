use vstd::prelude::*;
use crate::path::{PathView, RoutePath, paths_view, strings_view};

verus! {

/// One token of the declaration grammar.
#[derive(Debug)]
pub enum Token {
    /// An identifier segment. The identifier `spec` doubles as the keyword
    /// that opens a mutator clause, but only at the very start of the input.
    Ident(String),
    /// The scope separator `::`.
    PathSep,
    /// `:`
    Colon,
    /// `;`
    Semi,
    /// `,`
    Comma,
}

/// What the parser expected at the position where it stopped.
#[derive(Debug, PartialEq, Eq, Clone, Copy)]
pub enum GrammarErrorKind {
    ExpectedIdentifier,
    ExpectedColon,
    ExpectedSemicolon,
    ExpectedComma,
    /// The route list is empty: at least one route is required.
    EmptyRouteList,
}

/// A diagnostic for a malformed token sequence: the kind of token that was
/// expected and the nearest valid parse position, an index into the input.
#[derive(Debug, PartialEq, Eq, Clone, Copy)]
pub struct GrammarError {
    pub kind: GrammarErrorKind,
    pub position: usize,
}

/// Builds a diagnostic at a spec-level position.
pub open spec fn grammar_error(kind: GrammarErrorKind, position: int) -> GrammarError {
    GrammarError { kind, position: position as usize }
}

/// The characters of an identifier token.
pub open spec fn ident_chars(t: Token) -> Seq<char> {
    match t {
        Token::Ident(s) => s@,
        _ => Seq::empty(),
    }
}

/// Whether a token is the reserved leading keyword `spec`.
pub open spec fn is_keyword(t: Token) -> bool {
    t matches Token::Ident(s) && s@ == "spec"@
}

/// The mathematical value of a declaration: the optional mutator reference
/// and the ordered route references.
#[verifier::ext_equal]
pub ghost struct DeclarationView {
    pub mutator: Option<PathView>,
    pub routes: Seq<PathView>,
}

/// The parsed unit: an optional specification-mutator reference plus an
/// ordered, non-empty sequence of route references.
#[derive(Debug)]
pub struct Declaration {
    pub mutator: Option<RoutePath>,
    pub routes: Vec<RoutePath>,
}

impl View for Declaration {
    type V = DeclarationView;

    open spec fn view(&self) -> DeclarationView {
        DeclarationView {
            mutator: match self.mutator {
                Some(p) => Some(p@),
                None => None,
            },
            routes: paths_view(self.routes@),
        }
    }
}

impl Declaration {
    /// A declaration is well formed when it has at least one route and
    /// every reference has at least one segment.
    pub open spec fn wf(&self) -> bool {
        &&& self.routes@.len() > 0
        &&& forall|i: int| 0 <= i < self.routes@.len() ==> (#[trigger] self.routes@[i]).wf()
        &&& match self.mutator {
            Some(p) => p.wf(),
            None => true,
        }
    }
}

/// Parses the continuation of a path after its first segment: a possibly
/// empty run of `:: identifier` pairs. Returns the accumulated segments and
/// the position of the first token after the path.
pub open spec fn spec_parse_path_rest(t: Seq<Token>, i: int, acc: PathView) -> Result<
    (PathView, int),
    GrammarError,
>
    decreases t.len() - i,
{
    if i < t.len() && t[i] is PathSep {
        if i + 1 < t.len() && t[i + 1] is Ident {
            spec_parse_path_rest(t, i + 2, acc.push(ident_chars(t[i + 1])))
        } else {
            Err(grammar_error(GrammarErrorKind::ExpectedIdentifier, i + 1))
        }
    } else {
        Ok((acc, i))
    }
}

/// Parses one path (`identifier { "::" identifier }`) starting at `i`.
pub open spec fn spec_parse_path(t: Seq<Token>, i: int) -> Result<(PathView, int), GrammarError> {
    if i < t.len() && t[i] is Ident {
        spec_parse_path_rest(t, i + 1, seq![ident_chars(t[i])])
    } else {
        Err(grammar_error(GrammarErrorKind::ExpectedIdentifier, i))
    }
}

/// A successful path parse lands strictly past its start, never past the
/// end of the input, and yields at least the accumulated segments.
pub proof fn lemma_parse_path_rest_bounds(t: Seq<Token>, i: int, acc: PathView)
    requires
        0 <= i <= t.len(),
    ensures
        spec_parse_path_rest(t, i, acc) matches Ok(r) ==> i <= r.1 <= t.len() && r.0.len()
            >= acc.len(),
    decreases t.len() - i,
{
    if i < t.len() && t[i] is PathSep {
        if i + 1 < t.len() && t[i + 1] is Ident {
            lemma_parse_path_rest_bounds(t, i + 2, acc.push(ident_chars(t[i + 1])));
        }
    }
}

/// A successful path parse consumes at least one token and yields at least
/// one segment.
pub proof fn lemma_parse_path_bounds(t: Seq<Token>, i: int)
    requires
        0 <= i <= t.len(),
    ensures
        spec_parse_path(t, i) matches Ok(r) ==> i < r.1 <= t.len() && r.0.len() >= 1,
{
    if i < t.len() && t[i] is Ident {
        lemma_parse_path_rest_bounds(t, i + 1, seq![ident_chars(t[i])]);
    }
}

/// Parses the continuation of the route list after a path: either the end
/// of the input, or a separating comma followed by the next path, with one
/// trailing comma permitted and ignored.
pub open spec fn spec_parse_routes_rest(t: Seq<Token>, i: int, acc: Seq<PathView>) -> Result<
    Seq<PathView>,
    GrammarError,
>
    decreases t.len() - i,
        when 0 <= i <= t.len()
        via spec_parse_routes_rest_decreases
{
    if i >= t.len() {
        Ok(acc)
    } else if t[i] is Comma {
        if i + 1 >= t.len() {
            Ok(acc)
        } else {
            match spec_parse_path(t, i + 1) {
                Ok(r) => spec_parse_routes_rest(t, r.1, acc.push(r.0)),
                Err(e) => Err(e),
            }
        }
    } else {
        Err(grammar_error(GrammarErrorKind::ExpectedComma, i))
    }
}

#[via_fn]
proof fn spec_parse_routes_rest_decreases(t: Seq<Token>, i: int, acc: Seq<PathView>) {
    if i < t.len() && t[i] is Comma && i + 1 < t.len() {
        lemma_parse_path_bounds(t, i + 1);
    }
}

/// Parses the route list (`path { "," path } [ "," ]`) starting at `i`.
/// The list must reach the end of the input and hold at least one path.
pub open spec fn spec_parse_routes(t: Seq<Token>, i: int) -> Result<Seq<PathView>, GrammarError> {
    if i >= t.len() {
        Err(grammar_error(GrammarErrorKind::EmptyRouteList, i))
    } else {
        match spec_parse_path(t, i) {
            Ok(r) => spec_parse_routes_rest(t, r.1, seq![r.0]),
            Err(e) => Err(e),
        }
    }
}

/// Parses the mutator clause `"spec" ":" path ";"`; the keyword at position
/// zero has already been recognized. Returns the mutator reference and the
/// position of the first token after the clause.
pub open spec fn spec_parse_mutator(t: Seq<Token>) -> Result<(PathView, int), GrammarError> {
    if 2 <= t.len() && t[1] is Colon {
        match spec_parse_path(t, 2) {
            Ok(r) => if r.1 < t.len() && t[r.1] is Semi {
                Ok((r.0, r.1 + 1))
            } else {
                Err(grammar_error(GrammarErrorKind::ExpectedSemicolon, r.1))
            },
            Err(e) => Err(e),
        }
    } else {
        Err(grammar_error(GrammarErrorKind::ExpectedColon, 1))
    }
}

/// Parses a whole declaration: an optional mutator clause, recognized by
/// the reserved keyword `spec` standing at the very start of the input,
/// followed by the route list.
pub open spec fn spec_parse_declaration(t: Seq<Token>) -> Result<DeclarationView, GrammarError> {
    if 0 < t.len() && is_keyword(t[0]) {
        match spec_parse_mutator(t) {
            Ok(m) => match spec_parse_routes(t, m.1) {
                Ok(rs) => Ok(DeclarationView { mutator: Some(m.0), routes: rs }),
                Err(e) => Err(e),
            },
            Err(e) => Err(e),
        }
    } else {
        match spec_parse_routes(t, 0) {
            Ok(rs) => Ok(DeclarationView { mutator: None, routes: rs }),
            Err(e) => Err(e),
        }
    }
}

fn is_path_sep(t: &Token) -> (b: bool)
    ensures
        b == (*t is PathSep),
{
    match t {
        Token::PathSep => true,
        _ => false,
    }
}

fn is_comma(t: &Token) -> (b: bool)
    ensures
        b == (*t is Comma),
{
    match t {
        Token::Comma => true,
        _ => false,
    }
}

fn is_colon(t: &Token) -> (b: bool)
    ensures
        b == (*t is Colon),
{
    match t {
        Token::Colon => true,
        _ => false,
    }
}

fn is_semi(t: &Token) -> (b: bool)
    ensures
        b == (*t is Semi),
{
    match t {
        Token::Semi => true,
        _ => false,
    }
}

fn is_keyword_token(t: &Token) -> (b: bool)
    ensures
        b == is_keyword(*t),
{
    match t {
        Token::Ident(s) => {
            let kw: String = "spec".to_owned();
            *s == kw
        },
        _ => false,
    }
}

fn parse_path(tokens: &Vec<Token>, start: usize) -> (r: Result<(RoutePath, usize), GrammarError>)
    requires
        start <= tokens@.len(),
    ensures
        match r {
            Ok(p) => {
                &&& spec_parse_path(tokens@, start as int) == Ok::<(PathView, int), GrammarError>(
                    (p.0@, p.1 as int),
                )
                &&& p.0.wf()
                &&& start < p.1 <= tokens@.len()
            },
            Err(e) => spec_parse_path(tokens@, start as int) == Err::<
                (PathView, int),
                GrammarError,
            >(e),
        },
{
    if start >= tokens.len() {
        return Err(GrammarError { kind: GrammarErrorKind::ExpectedIdentifier, position: start });
    }
    let first: String = match &tokens[start] {
        Token::Ident(s) => s.clone(),
        _ => {
            return Err(
                GrammarError { kind: GrammarErrorKind::ExpectedIdentifier, position: start },
            );
        },
    };
    let mut segments: Vec<String> = Vec::new();
    segments.push(first);
    let mut i: usize = start + 1;
    proof {
        assert(strings_view(segments@) =~= seq![ident_chars(tokens@[start as int])]);
    }
    while i < tokens.len() && is_path_sep(&tokens[i])
        invariant
            start < i <= tokens@.len(),
            segments@.len() >= 1,
            spec_parse_path(tokens@, start as int) == spec_parse_path_rest(
                tokens@,
                i as int,
                strings_view(segments@),
            ),
        decreases tokens@.len() - i,
    {
        if i + 1 >= tokens.len() {
            return Err(
                GrammarError { kind: GrammarErrorKind::ExpectedIdentifier, position: i + 1 },
            );
        }
        match &tokens[i + 1] {
            Token::Ident(s) => {
                let ghost before = strings_view(segments@);
                segments.push(s.clone());
                proof {
                    assert(strings_view(segments@) =~= before.push(
                        ident_chars(tokens@[i + 1 as int]),
                    ));
                }
                i = i + 2;
            },
            _ => {
                return Err(
                    GrammarError { kind: GrammarErrorKind::ExpectedIdentifier, position: i + 1 },
                );
            },
        }
    }
    let p = RoutePath { segments };
    Ok((p, i))
}

fn parse_route_list(tokens: &Vec<Token>, start: usize) -> (r: Result<Vec<RoutePath>, GrammarError>)
    requires
        start <= tokens@.len(),
    ensures
        match r {
            Ok(routes) => {
                &&& spec_parse_routes(tokens@, start as int) == Ok::<Seq<PathView>, GrammarError>(
                    paths_view(routes@),
                )
                &&& routes@.len() >= 1
                &&& forall|k: int| 0 <= k < routes@.len() ==> (#[trigger] routes@[k]).wf()
            },
            Err(e) => spec_parse_routes(tokens@, start as int) == Err::<Seq<PathView>, GrammarError>(
                e,
            ),
        },
{
    if start >= tokens.len() {
        return Err(GrammarError { kind: GrammarErrorKind::EmptyRouteList, position: start });
    }
    let (p0, j0) = match parse_path(tokens, start) {
        Ok(r) => r,
        Err(e) => {
            return Err(e);
        },
    };
    let mut routes: Vec<RoutePath> = Vec::new();
    routes.push(p0);
    let mut i: usize = j0;
    proof {
        assert(paths_view(routes@) =~= seq![routes@[0]@]);
    }
    while i < tokens.len()
        invariant
            i <= tokens@.len(),
            routes@.len() >= 1,
            forall|k: int| 0 <= k < routes@.len() ==> (#[trigger] routes@[k]).wf(),
            spec_parse_routes(tokens@, start as int) == spec_parse_routes_rest(
                tokens@,
                i as int,
                paths_view(routes@),
            ),
        decreases tokens@.len() - i,
    {
        if !is_comma(&tokens[i]) {
            return Err(GrammarError { kind: GrammarErrorKind::ExpectedComma, position: i });
        }
        if i + 1 >= tokens.len() {
            i = i + 1;
        } else {
            match parse_path(tokens, i + 1) {
                Ok((p, j)) => {
                    let ghost before = paths_view(routes@);
                    let ghost pv = p@;
                    routes.push(p);
                    proof {
                        assert(paths_view(routes@) =~= before.push(pv));
                    }
                    i = j;
                },
                Err(e) => {
                    return Err(e);
                },
            }
        }
    }
    Ok(routes)
}

/// Turns a token sequence into a declaration, or fails with a diagnostic at
/// the nearest valid parse position. The result is exactly what the grammar
/// gives: the first error aborts parsing, and no recovery is attempted.
pub fn parse_declaration(tokens: &Vec<Token>) -> (r: Result<Declaration, GrammarError>)
    ensures
        match r {
            Ok(d) => spec_parse_declaration(tokens@) == Ok::<DeclarationView, GrammarError>(d@)
                && d.wf(),
            Err(e) => spec_parse_declaration(tokens@) == Err::<DeclarationView, GrammarError>(e),
        },
{
    let has_keyword = tokens.len() > 0 && is_keyword_token(&tokens[0]);
    if has_keyword {
        if !(tokens.len() >= 2 && is_colon(&tokens[1])) {
            return Err(GrammarError { kind: GrammarErrorKind::ExpectedColon, position: 1 });
        }
        let (mutator, idx) = match parse_path(tokens, 2) {
            Ok((p, j)) => {
                if j < tokens.len() && is_semi(&tokens[j]) {
                    (p, j + 1)
                } else {
                    return Err(
                        GrammarError { kind: GrammarErrorKind::ExpectedSemicolon, position: j },
                    );
                }
            },
            Err(e) => {
                return Err(e);
            },
        };
        match parse_route_list(tokens, idx) {
            Ok(routes) => Ok(Declaration { mutator: Some(mutator), routes }),
            Err(e) => Err(e),
        }
    } else {
        match parse_route_list(tokens, 0) {
            Ok(routes) => Ok(Declaration { mutator: None, routes }),
            Err(e) => Err(e),
        }
    }
}

} // verus!
