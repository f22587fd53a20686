//! The path-pattern router: pattern compilation, single-pass matching, and
//! ordered route lookup.
//!
//! A pattern is literal text interspersed with `{name}` placeholders. The
//! byte right after a placeholder, if any, ends that capture; a placeholder
//! at the end of the pattern captures to the end of the path.

use vstd::prelude::*;
use crate::ascii::{bytes_of, match_at, str_bytes};
use crate::codes::HttpCode;
use crate::entity::{Response, ResponseType};

verus! {

/// One element of a compiled pattern, at the specification level: a literal
/// run of bytes, or a named variable with the byte that stops its capture
/// (0 when the variable captures to the end of the path).
pub enum SpecPart {
    Literal(Seq<u8>),
    Variable(Seq<u8>, u8),
}

enum PathPart {
    Literal(Vec<u8>),
    Variable(Vec<u8>, u8),
}

impl View for PathPart {
    type V = SpecPart;

    closed spec fn view(&self) -> Self::V {
        match self {
            PathPart::Literal(l) => SpecPart::Literal(l@),
            PathPart::Variable(n, stop) => SpecPart::Variable(n@, *stop),
        }
    }
}

/// Compilation, scanning pattern text outside any placeholder. `tmp` holds
/// the literal bytes accumulated so far.
pub open spec fn spec_compile_outside(p: Seq<u8>, tmp: Seq<u8>) -> Seq<SpecPart>
    decreases p.len(), 1int,
{
    if p.len() == 0 {
        if tmp.len() != 0 {
            seq![SpecPart::Literal(tmp)]
        } else {
            seq![]
        }
    } else if p[0] == 123 {
        if tmp.len() != 0 {
            seq![SpecPart::Literal(tmp)] + spec_compile_invar(p.drop_first(), Seq::empty())
        } else {
            spec_compile_invar(p.drop_first(), Seq::empty())
        }
    } else {
        spec_compile_outside(p.drop_first(), tmp.push(p[0]))
    }
}

/// Compilation inside `{...}`. `name` holds the variable name read so far;
/// a pattern that ends before the closing brace drops the fragment.
pub open spec fn spec_compile_invar(p: Seq<u8>, name: Seq<u8>) -> Seq<SpecPart>
    decreases p.len(), 0int,
{
    if p.len() == 0 {
        seq![]
    } else if p[0] == 125 {
        spec_compile_aftervar(p.drop_first(), name)
    } else {
        spec_compile_invar(p.drop_first(), name.push(p[0]))
    }
}

/// Compilation right after a closing brace: the next byte, if any, becomes
/// the variable's stop byte; at the end of the pattern the variable
/// captures to the end of the path.
pub open spec fn spec_compile_aftervar(p: Seq<u8>, name: Seq<u8>) -> Seq<SpecPart>
    decreases p.len(), 2int,
{
    if p.len() == 0 {
        seq![SpecPart::Variable(name, 0)]
    } else {
        seq![SpecPart::Variable(name, p[0])] + spec_compile_outside(p.drop_first(), Seq::empty())
    }
}

/// The compiled form of a whole pattern.
pub open spec fn spec_compile(p: Seq<u8>) -> Seq<SpecPart> {
    spec_compile_outside(p, Seq::empty())
}

/// How many bytes a variable with stop byte `stop` captures from `pos`:
/// everything up to the first stop byte, or to the end of the path.
pub open spec fn var_span(path: Seq<u8>, pos: int, stop: u8) -> int
    decreases path.len() - pos,
{
    if pos < 0 || pos >= path.len() || path[pos] == stop {
        0
    } else {
        1 + var_span(path, pos + 1, stop)
    }
}

pub proof fn lemma_var_span(path: Seq<u8>, pos: int, stop: u8)
    requires
        0 <= pos <= path.len(),
    ensures
        0 <= var_span(path, pos, stop),
        pos + var_span(path, pos, stop) <= path.len(),
        forall|j: int| pos <= j < pos + var_span(path, pos, stop) ==> path[j] != stop,
        pos + var_span(path, pos, stop) < path.len() ==> path[pos + var_span(path, pos, stop)]
            == stop,
    decreases path.len() - pos,
{
    if !(pos >= path.len() || path[pos] == stop) {
        lemma_var_span(path, pos + 1, stop);
    }
}

/// Whether the parts from a compiled pattern match the path from cursor
/// position `pos`, and the variable bindings the match produces, in order.
///
/// A literal must appear byte-for-byte at the cursor, and a literal that
/// ends the pattern must also exhaust the path. A variable captures to its
/// stop byte or to the end of the path, and the cursor then steps over the
/// stop byte; a cursor past the end of the path fails every remaining part.
pub open spec fn spec_match_parts(parts: Seq<SpecPart>, path: Seq<u8>, pos: int) -> Option<
    Seq<(Seq<u8>, Seq<u8>)>,
>
    decreases parts.len(),
{
    if parts.len() == 0 {
        Some(seq![])
    } else {
        match parts[0] {
            SpecPart::Literal(l) => {
                if pos >= 0 && pos + l.len() <= path.len() && path.subrange(pos, pos + l.len()) == l
                    && (parts.len() > 1 || pos + l.len() == path.len()) {
                    spec_match_parts(parts.drop_first(), path, pos + l.len())
                } else {
                    None
                }
            },
            SpecPart::Variable(name, stop) => {
                if 0 <= pos <= path.len() {
                    let n = var_span(path, pos, stop);
                    match spec_match_parts(parts.drop_first(), path, pos + n + 1) {
                        Some(bs) => Some(seq![(name, path.subrange(pos, pos + n))] + bs),
                        None => None,
                    }
                } else {
                    None
                }
            },
        }
    }
}

/// Whether a compiled pattern matches a whole path, with its bindings.
pub open spec fn spec_match(parts: Seq<SpecPart>, path: Seq<u8>) -> Option<Seq<(Seq<u8>, Seq<u8>)>> {
    spec_match_parts(parts, path, 0)
}

/// The view of an executable binding list.
pub open spec fn bindings_view(bs: Seq<(Vec<u8>, Vec<u8>)>) -> Seq<(Seq<u8>, Seq<u8>)> {
    bs.map_values(|b: (Vec<u8>, Vec<u8>)| (b.0@, b.1@))
}

/// A compiled route pattern: the sequence of literal and variable parts
/// that one pattern string denotes.
pub struct PathMatcher(Vec<PathPart>);

impl View for PathMatcher {
    type V = Seq<SpecPart>;

    closed spec fn view(&self) -> Self::V {
        self.0@.map_values(|p: PathPart| p@)
    }
}

impl PathMatcher {
    /// Compiles a pattern string.
    pub fn from_pattern(pattern: &[u8]) -> (r: PathMatcher)
        ensures
            r@ == spec_compile(pattern@),
    {
        let mut out: Vec<PathPart> = Vec::new();
        let mut tmp: Vec<u8> = Vec::new();
        let mut is_var = false;
        let mut is_var_end = false;
        let mut i: usize = 0;
        proof {
            assert(pattern@.skip(0) =~= pattern@);
            assert(out@.map_values(|p: PathPart| p@) =~= Seq::<SpecPart>::empty());
        }
        while i < pattern.len()
            invariant
                i <= pattern.len(),
                !(is_var && is_var_end),
                spec_compile(pattern@) == out@.map_values(|p: PathPart| p@) + if is_var {
                    spec_compile_invar(pattern@.skip(i as int), tmp@)
                } else if is_var_end {
                    spec_compile_aftervar(pattern@.skip(i as int), tmp@)
                } else {
                    spec_compile_outside(pattern@.skip(i as int), tmp@)
                },
            decreases pattern.len() - i,
        {
            let ghost rest = pattern@.skip(i as int);
            proof {
                assert(rest[0] == pattern@[i as int]);
                assert(rest.drop_first() =~= pattern@.skip(i + 1));
            }
            let ch = pattern[i];
            if is_var {
                if ch == 125 {
                    is_var = false;
                    is_var_end = true;
                } else {
                    tmp.push(ch);
                }
            } else if is_var_end {
                let name = tmp;
                tmp = Vec::new();
                out.push(PathPart::Variable(name, ch));
                is_var_end = false;
                proof {
                    assert(out@.map_values(|p: PathPart| p@) =~= out@.drop_last().map_values(
                        |p: PathPart| p@,
                    ).push(out@.last()@));
                    assert(tmp@ =~= Seq::<u8>::empty());
                }
            } else if ch == 123 {
                if tmp.len() != 0 {
                    let lit = tmp;
                    tmp = Vec::new();
                    out.push(PathPart::Literal(lit));
                    proof {
                        assert(out@.map_values(|p: PathPart| p@) =~= out@.drop_last().map_values(
                            |p: PathPart| p@,
                        ).push(SpecPart::Literal(lit@)));
                    }
                }
                is_var = true;
                proof {
                    assert(tmp@ =~= Seq::<u8>::empty());
                }
            } else {
                tmp.push(ch);
            }
            i = i + 1;
        }
        proof {
            assert(pattern@.skip(pattern@.len() as int) =~= Seq::<u8>::empty());
        }
        if is_var_end {
            out.push(PathPart::Variable(tmp, 0));
            proof {
                assert(out@.map_values(|p: PathPart| p@) =~= out@.drop_last().map_values(
                    |p: PathPart| p@,
                ).push(out@.last()@));
            }
        } else if !is_var && tmp.len() != 0 {
            out.push(PathPart::Literal(tmp));
            proof {
                assert(out@.map_values(|p: PathPart| p@) =~= out@.drop_last().map_values(
                    |p: PathPart| p@,
                ).push(out@.last()@));
            }
        }
        PathMatcher(out)
    }

    /// Runs the compiled pattern against a path. A match returns the
    /// variable bindings in pattern order; a failure returns nothing.
    pub fn exec(&self, path: &[u8]) -> (r: Option<Vec<(Vec<u8>, Vec<u8>)>>)
        ensures
            match r {
                Some(bs) => spec_match(self@, path@) == Some(bindings_view(bs@)),
                None => spec_match(self@, path@) is None,
            },
    {
        let mut out: Vec<(Vec<u8>, Vec<u8>)> = Vec::new();
        let mut pos: usize = 0;
        let mut past_end = false;
        let mut i: usize = 0;
        let n_parts = self.0.len();
        let plen = path.len();
        proof {
            assert(self@.skip(0) =~= self@);
            assert(bindings_view(out@) =~= Seq::<(Seq<u8>, Seq<u8>)>::empty());
        }
        while i < n_parts
            invariant
                i <= n_parts,
                n_parts == self@.len(),
                self@.len() == self.0@.len(),
                plen == path@.len(),
                !past_end ==> pos <= path@.len(),
                past_end ==> pos == path@.len(),
                ({
                    let c = if past_end {
                        path@.len() as int + 1
                    } else {
                        pos as int
                    };
                    match spec_match_parts(self@.skip(i as int), path@, c) {
                        Some(bs) => spec_match(self@, path@) == Some(bindings_view(out@) + bs),
                        None => spec_match(self@, path@) is None,
                    }
                }),
            decreases n_parts - i,
        {
            let ghost c = if past_end {
                path@.len() as int + 1
            } else {
                pos as int
            };
            let ghost rest = self@.skip(i as int);
            proof {
                assert(rest[0] == self@[i as int]);
                assert(self@[i as int] == self.0@[i as int]@);
                assert(rest.drop_first() =~= self@.skip(i + 1));
            }
            match &self.0[i] {
                PathPart::Literal(l) => {
                    if past_end {
                        proof {
                            assert(spec_match_parts(rest, path@, c) is None);
                        }
                        return None;
                    }
                    if !match_at(path, pos, l.as_slice()) {
                        proof {
                            assert(spec_match_parts(rest, path@, c) is None);
                        }
                        return None;
                    }
                    let is_last = i == n_parts - 1;
                    if is_last && pos + l.len() != path.len() {
                        proof {
                            assert(spec_match_parts(rest, path@, c) is None);
                        }
                        return None;
                    }
                    pos = pos + l.len();
                },
                PathPart::Variable(name, stop) => {
                    if past_end {
                        proof {
                            assert(spec_match_parts(rest, path@, c) is None);
                        }
                        return None;
                    }
                    let mut j: usize = pos;
                    while j < path.len() && path[j] != *stop
                        invariant
                            pos <= j <= path@.len(),
                            forall|k: int| pos <= k < j ==> path@[k] != stop,
                        decreases path@.len() - j,
                    {
                        j = j + 1;
                    }
                    proof {
                        lemma_var_span(path@, pos as int, *stop);
                        lemma_var_span_exact(path@, pos as int, *stop, j as int);
                    }
                    let val = vstd::slice::slice_to_vec(
                        vstd::slice::slice_subrange(path, pos, j),
                    );
                    proof {
                        assert(val@ =~= path@.subrange(pos as int, pos + var_span(path@, pos as int, *stop)));
                    }
                    let name_copy = vstd::slice::slice_to_vec(name.as_slice());
                    let ghost old_out = out@;
                    out.push((name_copy, val));
                    proof {
                        assert(bindings_view(out@) =~= bindings_view(old_out).push(
                            (name@, path@.subrange(pos as int, pos + var_span(path@, pos as int, *stop))),
                        ));
                    }
                    if j < path.len() {
                        pos = j + 1;
                    } else {
                        pos = j;
                        past_end = true;
                    }
                },
            }
            i = i + 1;
            proof {
                let c2 = if past_end {
                    path@.len() as int + 1
                } else {
                    pos as int
                };
                match spec_match_parts(self@.skip(i as int), path@, c2) {
                    Some(bs) => {
                        assert(bindings_view(out@) + bs =~= match spec_match_parts(rest, path@, c) {
                            Some(bs0) => bindings_view(out@) + bs,
                            None => bindings_view(out@) + bs,
                        });
                    },
                    None => {},
                }
            }
        }
        proof {
            assert(self@.skip(i as int) =~= Seq::<SpecPart>::empty());
            assert(spec_match_parts(Seq::<SpecPart>::empty(), path@, if past_end {
                path@.len() as int + 1
            } else {
                pos as int
            }) == Some(Seq::<(Seq<u8>, Seq<u8>)>::empty()));
            assert(bindings_view(out@) + Seq::<(Seq<u8>, Seq<u8>)>::empty() =~= bindings_view(
                out@,
            ));
        }
        Some(out)
    }
}

/// When the bytes from `pos` up to `j` avoid the stop byte and `j` is the
/// end of the path or sits on the stop byte, the span is exactly `j - pos`.
proof fn lemma_var_span_exact(path: Seq<u8>, pos: int, stop: u8, j: int)
    requires
        0 <= pos <= j <= path.len(),
        forall|k: int| pos <= k < j ==> path[k] != stop,
        j == path.len() || path[j] == stop,
    ensures
        var_span(path, pos, stop) == j - pos,
    decreases j - pos,
{
    if pos < j {
        lemma_var_span_exact(path, pos + 1, stop, j);
    }
}

/// One registered route: a compiled pattern and the host's identifier for
/// the handler that answers it.
pub struct Route {
    pub matcher: PathMatcher,
    pub handler: u64,
}

impl Route {
    /// Compiles a pattern and binds it to a handler identifier.
    pub fn new(pattern: &[u8], handler: u64) -> (r: Route)
        ensures
            r.matcher@ == spec_compile(pattern@),
            r.handler == handler,
    {
        Route { matcher: PathMatcher::from_pattern(pattern), handler }
    }
}

/// The ordered route table: lookup walks it in registration order and the
/// first full match wins, so order is significant and a more specific
/// pattern must be registered before a more general one.
pub struct Router {
    pub routes: Vec<Route>,
}

impl Router {
    /// A router with no routes.
    pub fn empty() -> (r: Router)
        ensures
            r.routes@ =~= Seq::<Route>::empty(),
    {
        Router { routes: Vec::new() }
    }

    /// Appends one route after all routes registered so far.
    pub fn register(&mut self, pattern: &[u8], handler: u64)
        ensures
            final (self).routes@.len() == old(self).routes@.len() + 1,
            final (self).routes@.drop_last() == old(self).routes@,
            final (self).routes@.last().matcher@ == spec_compile(pattern@),
            final (self).routes@.last().handler == handler,
    {
        self.routes.push(Route::new(pattern, handler));
        proof {
            assert(self.routes@.drop_last() =~= old(self).routes@);
        }
    }

    /// Finds the first route, in registration order, whose pattern matches
    /// the path, with the bindings of that match. Every earlier route is
    /// guaranteed not to match, so registration order alone decides which
    /// route claims a path that several patterns cover.
    pub fn match_path(&self, path: &[u8]) -> (r: Option<(usize, Vec<(Vec<u8>, Vec<u8>)>)>)
        ensures
            match r {
                Some((i, bs)) => {
                    &&& i < self.routes@.len()
                    &&& spec_match(self.routes@[i as int].matcher@, path@) == Some(
                        bindings_view(bs@),
                    )
                    &&& forall|j: int|
                        0 <= j < i ==> spec_match(
                            (#[trigger] self.routes@[j]).matcher@,
                            path@,
                        ) is None
                },
                None => forall|j: int|
                    0 <= j < self.routes@.len() ==> spec_match(
                        (#[trigger] self.routes@[j]).matcher@,
                        path@,
                    ) is None,
            },
    {
        let mut i: usize = 0;
        while i < self.routes.len()
            invariant
                i <= self.routes@.len(),
                forall|j: int|
                    0 <= j < i ==> spec_match((#[trigger] self.routes@[j]).matcher@, path@) is None,
            decreases self.routes@.len() - i,
        {
            if let Some(params) = self.routes[i].matcher.exec(path) {
                return Some((i, params));
            }
            i = i + 1;
        }
        None
    }
}

/// What the router decides for one request path.
pub enum DispatchOutcome {
    /// The first matching route: its position, the host's handler
    /// identifier, and the variable bindings of the match. The host
    /// invokes the handler under the shared-state lock and writes the
    /// response the handler builds.
    Handle { route: usize, handler: u64, params: Vec<(Vec<u8>, Vec<u8>)> },
    /// No route matches: answer with this plain `404` response. This is a
    /// normal outcome, not an engine error.
    NotFound(Response),
}

impl Router {
    /// Decides one request: the first route whose pattern matches the
    /// path, in registration order, or the fixed `404` response.
    pub fn dispatch(&self, path: &[u8]) -> (r: DispatchOutcome)
        ensures
            match self.spec_first_match(path@) {
                Some(i) => r matches DispatchOutcome::Handle { route, handler, params } && route
                    == i && handler == self.routes@[i as int].handler && spec_match(
                    self.routes@[i as int].matcher@,
                    path@,
                ) == Some(bindings_view(params@)),
                None => r matches DispatchOutcome::NotFound(res)
                    && res.payload matches ResponseType::Payload(p) && res.code
                    == HttpCode::NotFound && p@ == bytes_of("API endpoint not found"@),
            },
    {
        proof {
            reveal_strlit("API endpoint not found");
        }
        match self.match_path(path) {
            Some((i, params)) => {
                proof {
                    self.lemma_first_match_at(path@, i as int);
                }
                let handler = self.routes[i].handler;
                DispatchOutcome::Handle { route: i, handler, params }
            },
            None => {
                proof {
                    self.lemma_first_match_absent(path@);
                }
                DispatchOutcome::NotFound(Response::from_code(
                    HttpCode::NotFound,
                    str_bytes("API endpoint not found").as_slice(),
                ))
            },
        }
    }

    /// The position of the first route whose pattern matches the path.
    pub open spec fn spec_first_match(&self, path: Seq<u8>) -> Option<int> {
        spec_first_match_from(self.routes@, path, 0)
    }

    proof fn lemma_first_match_at(&self, path: Seq<u8>, i: int)
        requires
            0 <= i < self.routes@.len(),
            spec_match(self.routes@[i].matcher@, path) is Some,
            forall|j: int|
                0 <= j < i ==> spec_match((#[trigger] self.routes@[j]).matcher@, path) is None,
        ensures
            self.spec_first_match(path) == Some(i),
    {
        lemma_first_match_from_at(self.routes@, path, i, 0);
    }

    proof fn lemma_first_match_absent(&self, path: Seq<u8>)
        requires
            forall|j: int|
                0 <= j < self.routes@.len() ==> spec_match(
                    (#[trigger] self.routes@[j]).matcher@,
                    path,
                ) is None,
        ensures
            self.spec_first_match(path) is None,
    {
        lemma_first_match_from_absent(self.routes@, path, 0);
    }
}

/// The position of the first route at or after `from` whose pattern
/// matches the path.
pub open spec fn spec_first_match_from(routes: Seq<Route>, path: Seq<u8>, from: int) -> Option<int>
    decreases routes.len() - from,
{
    if from < 0 || from >= routes.len() {
        None
    } else if spec_match(routes[from].matcher@, path) is Some {
        Some(from)
    } else {
        spec_first_match_from(routes, path, from + 1)
    }
}

proof fn lemma_first_match_from_at(routes: Seq<Route>, path: Seq<u8>, i: int, from: int)
    requires
        0 <= from <= i < routes.len(),
        spec_match(routes[i].matcher@, path) is Some,
        forall|j: int| from <= j < i ==> spec_match((#[trigger] routes[j]).matcher@, path) is None,
    ensures
        spec_first_match_from(routes, path, from) == Some(i),
    decreases i - from,
{
    if from < i {
        lemma_first_match_from_at(routes, path, i, from + 1);
    }
}

/// Registration order alone decides a contested path: when the route at
/// position `i` matches the path, lookup returns a route no later than
/// `i`. Registering a more specific pattern after a more general one
/// therefore cannot take a path away from the general one.
pub proof fn lemma_registration_order_wins(routes: Seq<Route>, path: Seq<u8>, i: int)
    requires
        0 <= i < routes.len(),
        spec_match(routes[i].matcher@, path) is Some,
    ensures
        spec_first_match_from(routes, path, 0) matches Some(k) && 0 <= k <= i,
{
    lemma_first_match_from_bounded(routes, path, i, 0);
}

proof fn lemma_first_match_from_bounded(routes: Seq<Route>, path: Seq<u8>, i: int, from: int)
    requires
        0 <= from <= i < routes.len(),
        spec_match(routes[i].matcher@, path) is Some,
    ensures
        spec_first_match_from(routes, path, from) matches Some(k) && from <= k <= i,
    decreases i - from,
{
    if spec_match(routes[from].matcher@, path) is None {
        lemma_first_match_from_bounded(routes, path, i, from + 1);
    }
}

proof fn lemma_first_match_from_absent(routes: Seq<Route>, path: Seq<u8>, from: int)
    requires
        0 <= from,
        forall|j: int|
            from <= j < routes.len() ==> spec_match((#[trigger] routes[j]).matcher@, path) is None,
    ensures
        spec_first_match_from(routes, path, from) is None,
    decreases routes.len() - from,
{
    if from < routes.len() {
        lemma_first_match_from_absent(routes, path, from + 1);
    }
}

} // verus!
