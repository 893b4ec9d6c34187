//! Route templates and the router. A template is an ordered sequence of
//! static and parameter segments compiled from a path pattern; the router is
//! an ordered registry of (template, handler) pairs resolved first-match-wins
//! in registration order, distinguishing an unknown path from a known path
//! asked with the wrong method.
use std::sync::Arc;
use vstd::prelude::*;

use crate::dispatch::HandlerTypes;
use crate::request::Method;
use crate::strmap::{map_insert, Pairs, StringMap};
use crate::text::{first_index_of, lemma_first_index_of, str_eq, strings_view};

verus! {

/// A shared handle on a frozen router; cloned once per connection, all
/// clones refer to the same route set.
pub struct RouterService {
    pub router: Arc<Router>,
}

/// Relies on Arc::clone: the returned handle refers to the same value.
#[verifier::external_body]
fn arc_clone(a: &Arc<Router>) -> (r: Arc<Router>)
    ensures
        r == *a,
{
    Arc::clone(a)
}

impl Clone for RouterService {
    /// A cloned service resolves with the very same route set.
    fn clone(&self) -> (r: Self)
        ensures
            r.router == self.router,
    {
        RouterService { router: arc_clone(&self.router) }
    }
}

/// The outcome of a successful resolution: the matched route's handler, the
/// parameters extracted from the path, and the route's required method.
pub struct RouteMatch<'a> {
    pub handler: &'a HandlerTypes,
    pub params: StringMap,
    pub methods: &'a Method,
}

/// A method selector.
pub enum MethodTypes {
    GET,
    POST,
}

/// Resolution failure: either no template matches the path at all, or some
/// template matches but none with the required method.
#[derive(Debug, PartialEq, Eq, Structural)]
pub enum RouterError {
    PathNotFound,
    MethodNotAllowed,
}

/// An ordered, growing list of routes; frozen into a router by `build`.
pub struct RouterBuilder {
    pub routes: Vec<(&'static str, HandlerTypes)>,
}

/// The frozen, immutable route registry.
pub struct Router {
    pub inner: Vec<(&'static str, HandlerTypes)>,
}

impl RouterBuilder {
    /// An empty route list.
    pub fn new() -> (r: Self)
        ensures
            r.routes@ == Seq::<(&'static str, HandlerTypes)>::empty(),
    {
        Self { routes: Vec::new() }
    }

    /// Appends a route; registration order is preserved.
    pub fn route(self, path: &'static str, handler: HandlerTypes) -> (r: Self)
        ensures
            r.routes@ == self.routes@.push((path, handler)),
    {
        let mut routes = self.routes;
        routes.push((path, handler));
        Self { routes }
    }

    /// Freezes the routes into an immutable router.
    pub fn build(self) -> (r: Router)
        ensures
            r.inner@ == self.routes@,
    {
        Router { inner: self.routes }
    }
}

impl Router {
    /// Starts an empty route list.
    pub fn builder() -> (r: RouterBuilder)
        ensures
            r.routes@ == Seq::<(&'static str, HandlerTypes)>::empty(),
    {
        RouterBuilder::new()
    }

    /// Wraps the frozen router into a shareable service.
    pub fn into_service(self) -> (r: RouterService)
        ensures
            r.router == self,
    {
        RouterService { router: Arc::new(self) }
    }
}

/// One segment of a compiled template, as a mathematical value.
pub enum SegModel {
    Static(Seq<char>),
    Param(Seq<char>),
}

/// One segment of a compiled template: a literal, or a named parameter.
#[derive(Debug)]
pub enum PathSegment {
    Static(String),
    Parameter(String),
}

impl View for PathSegment {
    type V = SegModel;

    open spec fn view(&self) -> SegModel {
        match self {
            PathSegment::Static(s) => SegModel::Static(s@),
            PathSegment::Parameter(s) => SegModel::Param(s@),
        }
    }
}

/// The views of a sequence of segments.
pub open spec fn segs_view(segs: Seq<PathSegment>) -> Seq<SegModel> {
    segs.map(|i: int, s: PathSegment| s@)
}

/// The `/`-separated segments of a path, with empty segments discarded, so
/// leading, trailing and doubled slashes collapse.
pub open spec fn split_path(p: Seq<char>) -> Seq<Seq<char>>
    decreases p.len(),
    via split_path_dec
{
    if p.len() == 0 {
        Seq::empty()
    } else if p[0] == '/' {
        split_path(p.drop_first())
    } else {
        seq![p.take(first_index_of(p, '/'))] + split_path(p.skip(first_index_of(p, '/')))
    }
}

#[via_fn]
proof fn split_path_dec(p: Seq<char>) {
    if p.len() > 0 && p[0] != '/' {
        lemma_first_index_of(p, '/');
    }
}

/// Whether a template segment text declares a named parameter: it is wrapped
/// exactly in braces.
pub open spec fn is_param_seg(t: Seq<char>) -> bool {
    t.len() > 0 && t[0] == '{' && t[t.len() - 1] == '}'
}

/// The segment a template segment text compiles to.
pub open spec fn compile_seg(t: Seq<char>) -> SegModel {
    if is_param_seg(t) {
        SegModel::Param(t.subrange(1, t.len() - 1))
    } else {
        SegModel::Static(t)
    }
}

/// The segments a template string compiles to.
pub open spec fn compile_path(t: Seq<char>) -> Seq<SegModel> {
    split_path(t).map(|i: int, s: Seq<char>| compile_seg(s))
}

/// Whether one template segment accepts one path segment: a literal must be
/// equal, a parameter accepts anything.
pub open spec fn seg_matches(seg: SegModel, s: Seq<char>) -> bool {
    match seg {
        SegModel::Static(t) => t == s,
        SegModel::Param(_) => true,
    }
}

/// Whether a template matches a path: the segment counts are equal and every
/// segment accepts the corresponding path segment.
pub open spec fn template_matches(segs: Seq<SegModel>, path: Seq<char>) -> bool {
    &&& segs.len() == split_path(path).len()
    &&& forall|i: int|
        0 <= i < segs.len() ==> #[trigger] seg_matches(segs[i], split_path(path)[i])
}

/// The parameter bindings gathered from the first `n` segments, later
/// occurrences of a name overwriting earlier ones.
pub open spec fn extract_upto(segs: Seq<SegModel>, vals: Seq<Seq<char>>, n: int) -> Pairs
    decreases n,
{
    if n <= 0 {
        Seq::empty()
    } else {
        match segs[n - 1] {
            SegModel::Param(name) => map_insert(extract_upto(segs, vals, n - 1), name, vals[n - 1]),
            SegModel::Static(_) => extract_upto(segs, vals, n - 1),
        }
    }
}

/// The parameter bindings of a template against path segments: each
/// parameter name bound to the corresponding path segment.
pub open spec fn extract_spec(segs: Seq<SegModel>, vals: Seq<Seq<char>>) -> Pairs {
    extract_upto(
        segs,
        vals,
        if segs.len() <= vals.len() {
            segs.len() as int
        } else {
            vals.len() as int
        },
    )
}

/// Splits a path into its non-empty `/`-separated segments.
pub fn split_segments(s: &str) -> (r: Vec<String>)
    ensures
        strings_view(r@) == split_path(s@),
{
    let len = s.unicode_len();
    let mut out: Vec<String> = Vec::new();
    let mut i: usize = 0;
    proof {
        assert(strings_view(out@).len() == 0);
        assert(s@.skip(0) =~= s@);
        assert(strings_view(out@) + split_path(s@.skip(0)) =~= split_path(s@));
    }
    while i < len
        invariant
            i <= len,
            len == s@.len(),
            strings_view(out@) + split_path(s@.skip(i as int)) == split_path(s@),
        decreases len - i,
    {
        let ghost pre = out@;
        if s.get_char(i) == '/' {
            proof {
                assert(s@.skip(i as int).drop_first() =~= s@.skip(i + 1 as int));
            }
            i += 1;
        } else {
            proof {
                lemma_first_index_of(s@.skip(i as int), '/');
            }
            let e = match crate::text::find_char(s, i, '/') {
                Some(e) => e,
                None => len,
            };
            proof {
                assert(first_index_of(s@.skip(i as int), '/') == e - i);
                assert(i <= e <= len);
            }
            let seg = s.substring_char(i, e).to_owned();
            out.push(seg);
            proof {
                let suf = s@.skip(i as int);
                let fi = first_index_of(suf, '/');
                assert(fi == e - i);
                assert(suf.take(fi) =~= s@.subrange(i as int, e as int));
                assert(suf.skip(fi) =~= s@.skip(e as int));
                assert(split_path(suf) == seq![suf.take(fi)] + split_path(suf.skip(fi)));
                assert(strings_view(out@) =~= strings_view(pre).push(
                    s@.subrange(i as int, e as int),
                ));
                assert(strings_view(out@) + split_path(s@.skip(e as int)) =~= strings_view(pre)
                    + split_path(suf));
            }
            i = e;
        }
    }
    proof {
        assert(s@.skip(len as int) =~= Seq::<char>::empty());
        assert(strings_view(out@) + split_path(s@.skip(len as int)) =~= strings_view(out@));
    }
    out
}

/// A compiled route template: an ordered sequence of segments.
#[derive(Debug)]
pub struct PatternPath {
    pub segments: Vec<PathSegment>,
}

impl PatternPath {
    /// Compiles a template string: each non-empty `/`-separated segment
    /// becomes a parameter if it is wrapped in braces, a literal otherwise.
    pub fn from_path(path: &str) -> (r: Self)
        ensures
            segs_view(r.segments@) == compile_path(path@),
    {
        let parts = split_segments(path);
        let mut segments: Vec<PathSegment> = Vec::new();
        let mut i: usize = 0;
        while i < parts.len()
            invariant
                i <= parts.len(),
                strings_view(parts@) == split_path(path@),
                segs_view(segments@) == compile_path(path@).subrange(0, i as int),
            decreases parts.len() - i,
        {
            let ghost pre = segments@;
            let p = &parts[i];
            let plen = p.as_str().unicode_len();
            proof {
                assert(p@ == split_path(path@)[i as int]);
            }
            let seg = if plen > 0 && p.as_str().get_char(0) == '{' && p.as_str().get_char(plen - 1)
                == '}' {
                proof {
                    assert(is_param_seg(p@));
                    assert(plen >= 2);
                }
                PathSegment::Parameter(p.as_str().substring_char(1, plen - 1).to_owned())
            } else {
                proof {
                    assert(!is_param_seg(p@));
                }
                PathSegment::Static(p.clone())
            };
            segments.push(seg);
            proof {
                assert(segs_view(pre).len() == pre.len());
                assert(pre.len() == i);
                assert(compile_path(path@).len() == split_path(path@).len());
                assert(seg@ == compile_seg(split_path(path@)[i as int]));
                assert(compile_path(path@)[i as int] == compile_seg(split_path(path@)[i as int]));
                assert forall|j: int| 0 <= j < i + 1 implies segs_view(segments@)[j] == compile_path(
                    path@,
                ).subrange(0, i + 1 as int)[j] by {
                    if j < i {
                        assert(segs_view(pre)[j] == compile_path(path@).subrange(0, i as int)[j]);
                        assert(segments@[j] == pre[j]);
                    }
                }
                assert(segs_view(segments@) =~= compile_path(path@).subrange(0, i + 1 as int));
            }
            i += 1;
        }
        proof {
            assert(strings_view(parts@).len() == parts@.len());
            assert(compile_path(path@).subrange(0, compile_path(path@).len() as int) =~= compile_path(
                path@,
            ));
        }
        PatternPath { segments }
    }

    /// Whether this template matches the path: equal segment counts, every
    /// literal equal to the corresponding path segment, every parameter
    /// accepting its segment.
    pub fn matches(&self, path: &str) -> (r: bool)
        ensures
            r == template_matches(segs_view(self.segments@), path@),
    {
        let vals = split_segments(path);
        proof {
            assert(strings_view(vals@).len() == vals@.len());
            assert(segs_view(self.segments@).len() == self.segments@.len());
        }
        if vals.len() != self.segments.len() {
            return false;
        }
        let ghost segs = segs_view(self.segments@);
        let ghost ps = split_path(path@);
        let mut i: usize = 0;
        while i < self.segments.len()
            invariant
                i <= self.segments.len(),
                segs == segs_view(self.segments@),
                ps == split_path(path@),
                segs.len() == self.segments@.len(),
                ps.len() == vals@.len(),
                strings_view(vals@) == ps,
                vals@.len() == self.segments@.len(),
                forall|j: int| 0 <= j < i ==> #[trigger] seg_matches(segs[j], ps[j]),
            decreases self.segments.len() - i,
        {
            match &self.segments[i] {
                PathSegment::Static(t) => {
                    proof {
                        assert(segs[i as int] == SegModel::Static(t@));
                        assert(ps[i as int] == vals@[i as int]@);
                    }
                    if !str_eq(t.as_str(), vals[i].as_str()) {
                        proof {
                            assert(!seg_matches(segs[i as int], ps[i as int]));
                        }
                        return false;
                    }
                },
                PathSegment::Parameter(_) => {},
            }
            proof {
                assert(seg_matches(segs[i as int], ps[i as int]));
            }
            i += 1;
        }
        true
    }

    /// The parameter bindings of this template against the path, each
    /// parameter name bound to the corresponding path segment, a later
    /// occurrence of a name overwriting an earlier one.
    pub fn extract_params(&self, path: &str) -> (r: StringMap)
        ensures
            r.wf(),
            r@ == extract_spec(segs_view(self.segments@), split_path(path@)),
    {
        let mut params = StringMap::new();
        let vals = split_segments(path);
        proof {
            assert(strings_view(vals@).len() == vals@.len());
            assert(segs_view(self.segments@).len() == self.segments@.len());
        }
        let n = if self.segments.len() <= vals.len() {
            self.segments.len()
        } else {
            vals.len()
        };
        let ghost segs = segs_view(self.segments@);
        let ghost ps = split_path(path@);
        let mut i: usize = 0;
        while i < n
            invariant
                i <= n,
                segs == segs_view(self.segments@),
                ps == split_path(path@),
                segs.len() == self.segments@.len(),
                ps == strings_view(vals@),
                ps.len() == vals@.len(),
                n == if segs.len() <= ps.len() {
                    segs.len() as int
                } else {
                    ps.len() as int
                },
                params.wf(),
                params@ == extract_upto(segs, ps, i as int),
            decreases n - i,
        {
            match &self.segments[i] {
                PathSegment::Parameter(name) => {
                    proof {
                        assert(segs[i as int] == SegModel::Param(name@));
                        assert(ps[i as int] == vals@[i as int]@);
                    }
                    params.insert(name.clone(), vals[i].clone());
                },
                PathSegment::Static(_) => {
                    proof {
                        assert(segs[i as int] is Static);
                    }
                },
            }
            i += 1;
        }
        params
    }
}

/// Law: a template matches a path exactly when the segment counts are equal
/// and every segment — every static one by string equality, every parameter
/// unconditionally — accepts the corresponding path segment; a differing
/// segment count never matches.
pub proof fn lemma_matches_iff(segs: Seq<SegModel>, path: Seq<char>)
    ensures
        template_matches(segs, path) <==> (segs.len() == split_path(path).len() && forall|i: int|
            0 <= i < segs.len() ==> #[trigger] seg_matches(segs[i], split_path(path)[i])),
        segs.len() != split_path(path).len() ==> !template_matches(segs, path),
{
}

proof fn lemma_extract_upto_domain(segs: Seq<SegModel>, vals: Seq<Seq<char>>, k: Seq<char>, n: int)
    requires
        0 <= n <= segs.len(),
        n <= vals.len(),
    ensures
        crate::strmap::map_has_key(extract_upto(segs, vals, n), k) <==> exists|i: int|
            0 <= i < n && segs[i] == SegModel::Param(k),
    decreases n,
{
    if n > 0 {
        lemma_extract_upto_domain(segs, vals, k, n - 1);
        let prev = extract_upto(segs, vals, n - 1);
        match segs[n - 1] {
            SegModel::Param(name) => {
                crate::strmap::lemma_map_insert_has_key(prev, name, vals[n - 1], k);
                if k == name {
                    assert(segs[n - 1] == SegModel::Param(k));
                }
                if crate::strmap::map_has_key(extract_upto(segs, vals, n), k) {
                    if k != name {
                        let i = choose|i: int| 0 <= i < n - 1 && segs[i] == SegModel::Param(k);
                        assert(0 <= i < n && segs[i] == SegModel::Param(k));
                    }
                } else {
                    assert(forall|i: int| 0 <= i < n - 1 ==> segs[i] != SegModel::Param(k));
                }
            },
            SegModel::Static(_) => {
                if crate::strmap::map_has_key(extract_upto(segs, vals, n), k) {
                    let i = choose|i: int| 0 <= i < n - 1 && segs[i] == SegModel::Param(k);
                    assert(0 <= i < n && segs[i] == SegModel::Param(k));
                }
            },
        }
    }
}

/// Law: the extracted parameters hold exactly the parameter names the
/// template declares, whatever its static segments hold.
pub proof fn lemma_extract_params_domain(segs: Seq<SegModel>, vals: Seq<Seq<char>>, k: Seq<char>)
    requires
        segs.len() == vals.len(),
    ensures
        crate::strmap::map_has_key(extract_spec(segs, vals), k) <==> exists|i: int|
            0 <= i < segs.len() && segs[i] == SegModel::Param(k),
{
    lemma_extract_upto_domain(segs, vals, k, segs.len() as int);
}

proof fn lemma_extract_upto_binding(
    segs: Seq<SegModel>,
    vals: Seq<Seq<char>>,
    k: Seq<char>,
    i: int,
    n: int,
)
    requires
        i < n <= segs.len(),
        n <= vals.len(),
        0 <= i,
        segs[i] == SegModel::Param(k),
        forall|j: int| i < j < n ==> segs[j] != SegModel::Param(k),
    ensures
        crate::strmap::map_get(extract_upto(segs, vals, n), k) == Some(vals[i]),
    decreases n,
{
    let prev = extract_upto(segs, vals, n - 1);
    if n - 1 == i {
        crate::strmap::lemma_map_insert_get_same(prev, k, vals[i]);
    } else {
        lemma_extract_upto_binding(segs, vals, k, i, n - 1);
        match segs[n - 1] {
            SegModel::Param(name) => {
                assert(name != k);
                crate::strmap::lemma_map_insert_get_other(prev, name, vals[n - 1], k);
            },
            SegModel::Static(_) => {},
        }
    }
}

/// Law: each declared parameter name is bound to the literal path segment at
/// its position; when a name occurs more than once, the later occurrence
/// wins.
pub proof fn lemma_extract_params_binding(
    segs: Seq<SegModel>,
    vals: Seq<Seq<char>>,
    k: Seq<char>,
    i: int,
)
    requires
        segs.len() == vals.len(),
        0 <= i < segs.len(),
        segs[i] == SegModel::Param(k),
        forall|j: int| i < j < segs.len() ==> segs[j] != SegModel::Param(k),
    ensures
        crate::strmap::map_get(extract_spec(segs, vals), k) == Some(vals[i]),
{
    lemma_extract_upto_binding(segs, vals, k, i, segs.len() as int);
}

/// Whether the route at position `i` has a template that matches the path.
pub open spec fn route_path_match(
    routes: Seq<(&'static str, HandlerTypes)>,
    path: Seq<char>,
    i: int,
) -> bool {
    template_matches(compile_path(routes[i].0@), path)
}

/// Whether the route at position `i` matches the path and requires the
/// method.
pub open spec fn route_full_match(
    routes: Seq<(&'static str, HandlerTypes)>,
    path: Seq<char>,
    m: Method,
    i: int,
) -> bool {
    route_path_match(routes, path, i) && routes[i].1.spec_method() == m
}

impl Router {
    /// Resolves a path and method against the routes, first match wins in
    /// registration order. If no template matches the path the failure is
    /// `PathNotFound`; if templates match the path but none with the
    /// required method, it is `MethodNotAllowed`.
    pub fn matches<'a>(&'a self, path: &str, required_method: Method) -> (r: Result<
        RouteMatch<'a>,
        RouterError,
    >)
        ensures
            match r {
                Ok(rm) => exists|i: int|
                    {
                        &&& 0 <= i < self.inner@.len()
                        &&& #[trigger] route_full_match(self.inner@, path@, required_method, i)
                        &&& forall|j: int|
                            0 <= j < i ==> !route_full_match(self.inner@, path@, required_method, j)
                        &&& rm.handler == self.inner@[i].1
                        &&& rm.methods == self.inner@[i].1.spec_method()
                        &&& rm.params.wf()
                        &&& rm.params@ == extract_spec(
                            compile_path(self.inner@[i].0@),
                            split_path(path@),
                        )
                    },
                Err(e) => {
                    &&& forall|j: int|
                        0 <= j < self.inner@.len() ==> !route_full_match(
                            self.inner@,
                            path@,
                            required_method,
                            j,
                        )
                    &&& match e {
                        RouterError::MethodNotAllowed => exists|i: int|
                            0 <= i < self.inner@.len() && #[trigger] route_path_match(
                                self.inner@,
                                path@,
                                i,
                            ),
                        RouterError::PathNotFound => forall|i: int|
                            0 <= i < self.inner@.len() ==> !route_path_match(
                                self.inner@,
                                path@,
                                i,
                            ),
                    }
                },
            },
    {
        let mut i: usize = 0;
        while i < self.inner.len()
            invariant
                i <= self.inner@.len(),
                forall|j: int|
                    0 <= j < i ==> !route_full_match(self.inner@, path@, required_method, j),
            decreases self.inner@.len() - i,
        {
            let pattern = self.inner[i].0;
            let handler = &self.inner[i].1;
            let path_pattern = PatternPath::from_path(pattern);
            if path_pattern.matches(path) {
                let m = handler.get_method();
                if *m == required_method {
                    let params = path_pattern.extract_params(path);
                    proof {
                        assert(route_full_match(self.inner@, path@, required_method, i as int));
                    }
                    return Ok(RouteMatch { handler, params, methods: m });
                }
            }
            proof {
                assert(!route_full_match(self.inner@, path@, required_method, i as int));
            }
            i += 1;
        }
        let mut k: usize = 0;
        while k < self.inner.len()
            invariant
                k <= self.inner@.len(),
                forall|j: int|
                    0 <= j < self.inner@.len() ==> !route_full_match(
                        self.inner@,
                        path@,
                        required_method,
                        j,
                    ),
                forall|j: int| 0 <= j < k ==> !route_path_match(self.inner@, path@, j),
            decreases self.inner@.len() - k,
        {
            let path_pattern = PatternPath::from_path(self.inner[k].0);
            if path_pattern.matches(path) {
                proof {
                    assert(route_path_match(self.inner@, path@, k as int));
                }
                return Err(RouterError::MethodNotAllowed);
            }
            k += 1;
        }
        Err(RouterError::PathNotFound)
    }
}

} // verus!
