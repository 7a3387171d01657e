//! Path templates, and the table that maps a method and a path to a handler.
//!
//! A template is a path whose segments are separated by `/`. A segment that
//! begins with `{` and ends with `}` is a parameter named by what stands
//! between the braces; every other segment is literal. A route keeps the
//! template in normalized form: each parameter segment replaced by `{}`, and
//! the parameter names listed in template order.

use crate::request::{HttpMethod, HttpRequest};
use crate::response::HttpResponse;
use crate::route_laws::lemma_compile;
use crate::text::{join, join_slices, same_text, split, split_slice, to_chars, to_string, views};
use crate::text_map::{map_of, TextMap};
use vstd::prelude::*;
use vstd::slice::slice_subrange;

verus! {

/// The separator between the segments of a path.
pub open spec fn slash() -> Seq<char> {
    seq!['/']
}

/// The segment that stands for a parameter in a normalized pattern.
pub open spec fn placeholder() -> Seq<char> {
    seq!['{', '}']
}

/// Whether a template segment is a parameter: wrapped in `{` and `}`.
pub open spec fn is_param(segment: Seq<char>) -> bool {
    segment.len() >= 2 && segment.first() == '{' && segment.last() == '}'
}

/// The name of a parameter segment: what stands between the braces.
pub open spec fn param_name(segment: Seq<char>) -> Seq<char> {
    segment.subrange(1, segment.len() - 1)
}

/// A template segment in normalized form.
pub open spec fn normalize(segment: Seq<char>) -> Seq<char> {
    if is_param(segment) {
        placeholder()
    } else {
        segment
    }
}

/// The names of the parameter segments among `segments`, from left to right.
pub open spec fn names_of(segments: Seq<Seq<char>>) -> Seq<Seq<char>>
    decreases segments.len(),
{
    if segments.len() == 0 {
        Seq::empty()
    } else if is_param(segments.last()) {
        names_of(segments.drop_last()).push(param_name(segments.last()))
    } else {
        names_of(segments.drop_last())
    }
}

/// The segments of a template.
pub open spec fn template_segments(template: Seq<char>) -> Seq<Seq<char>> {
    split(template, slash())
}

/// The segments in normalized form.
pub open spec fn normalized(segments: Seq<Seq<char>>) -> Seq<Seq<char>> {
    Seq::new(segments.len(), |i: int| normalize(segments[i]))
}

/// The segments of the normalized pattern of a template.
pub open spec fn pattern_segments(template: Seq<char>) -> Seq<Seq<char>> {
    normalized(template_segments(template))
}

/// The normalized pattern of a template.
pub open spec fn pattern_of(template: Seq<char>) -> Seq<char> {
    join(pattern_segments(template), slash())
}

/// The parameter names of a template, in template order.
pub open spec fn param_names(template: Seq<char>) -> Seq<Seq<char>> {
    names_of(template_segments(template))
}

/// The name at `index`, or the empty name where the list is too short.
pub open spec fn name_at(names: Seq<Seq<char>>, index: int) -> Seq<char> {
    if 0 <= index < names.len() {
        names[index]
    } else {
        Seq::empty()
    }
}

/// Whether a path has the shape of a pattern: as many segments, and the same
/// segment wherever the pattern holds no placeholder.
pub open spec fn segments_match(pattern: Seq<Seq<char>>, path: Seq<Seq<char>>) -> bool {
    &&& pattern.len() == path.len()
    &&& forall|i: int|
        0 <= i < pattern.len() ==> #[trigger] pattern[i] == placeholder() || pattern[i] == path[i]
}

/// The names and values that the placeholders of a pattern capture from a
/// path of the same length, from left to right: the placeholder that is the
/// `k`-th from the left binds the `k`-th name to the path segment at its
/// position.
pub open spec fn captured(
    pattern: Seq<Seq<char>>,
    path: Seq<Seq<char>>,
    names: Seq<Seq<char>>,
) -> Seq<(Seq<char>, Seq<char>)>
    decreases pattern.len(),
{
    if pattern.len() == 0 {
        Seq::empty()
    } else {
        let front = captured(pattern.drop_last(), path.drop_last(), names);
        if pattern.last() == placeholder() {
            front.push((name_at(names, front.len() as int), path.last()))
        } else {
            front
        }
    }
}

/// What a normalized pattern with its parameter names extracts from a path:
/// `None` if the path has not the shape of the pattern, else the parameters.
pub open spec fn route_match(pattern: Seq<char>, names: Seq<Seq<char>>, path: Seq<char>) -> Option<
    Map<Seq<char>, Seq<char>>,
> {
    let ps = split(pattern, slash());
    let rs = split(path, slash());
    if segments_match(ps, rs) {
        Some(map_of(captured(ps, rs, names)))
    } else {
        None
    }
}

/// The number of placeholders among the segments of a pattern.
pub open spec fn placeholder_count(pattern: Seq<Seq<char>>) -> nat
    decreases pattern.len(),
{
    if pattern.len() == 0 {
        0
    } else if pattern.last() == placeholder() {
        placeholder_count(pattern.drop_last()) + 1
    } else {
        placeholder_count(pattern.drop_last())
    }
}

/// The character sequences of a list of names.
pub open spec fn name_views(names: Seq<String>) -> Seq<Seq<char>> {
    Seq::new(names.len(), |i: int| names[i]@)
}

/// A path template in normalized form.
#[derive(Debug, Clone)]
pub struct Route {
    /// The normalized pattern.
    pub path: String,
    /// The parameter names, in template order.
    pub params: Vec<String>,
}

impl Route {
    /// The parameter names as character sequences.
    pub open spec fn names(&self) -> Seq<Seq<char>> {
        name_views(self.params@)
    }

    /// The pattern has as many placeholders as there are parameter names.
    pub open spec fn wf(&self) -> bool {
        placeholder_count(split(self.path@, slash())) == self.params@.len()
    }

    /// What the route extracts from a path.
    pub open spec fn match_spec(&self, path: Seq<char>) -> Option<Map<Seq<char>, Seq<char>>> {
        route_match(self.path@, self.names(), path)
    }

    /// Compiles a template.
    pub fn new(path: &str) -> (route: Self)
        ensures
            route.path@ == pattern_of(path@),
            route.names() == param_names(path@),
            route.wf(),
    {
        proof {
            lemma_compile(path@, Seq::empty());
        }
        let template = to_chars(path);
        let sep: Vec<char> = vec!['/'];
        let marker: Vec<char> = vec!['{', '}'];
        assert(sep@ =~= slash());
        assert(marker@ =~= placeholder());
        let segments = split_slice(template.as_slice(), sep.as_slice());
        let ghost ts = template_segments(path@);
        let mut pieces: Vec<&[char]> = Vec::new();
        let mut params: Vec<String> = Vec::new();
        let mut i: usize = 0;
        assert(ts.take(0) =~= Seq::empty());
        assert(name_views(params@) =~= Seq::empty());
        while i < segments.len()
            invariant
                i <= segments.len(),
                ts == views(segments@),
                ts == template_segments(path@),
                marker@ == placeholder(),
                pieces@.len() == i,
                forall|j: int| 0 <= j < i ==> (#[trigger] pieces@[j])@ == normalize(ts[j]),
                name_views(params@) == names_of(ts.take(i as int)),
            decreases segments.len() - i,
        {
            let segment = segments[i];
            assert(segment@ == ts[i as int]);
            assert(ts.take(i + 1).drop_last() =~= ts.take(i as int));
            assert(ts.take(i + 1).last() == ts[i as int]);
            let n = segment.len();
            if n >= 2 && segment[0] == '{' && segment[n - 1] == '}' {
                let name = to_string(slice_subrange(segment, 1, n - 1));
                let ghost before = name_views(params@);
                params.push(name);
                assert(name_views(params@) =~= before.push(param_name(segment@)));
                pieces.push(marker.as_slice());
            } else {
                pieces.push(segment);
            }
            i += 1;
        }
        assert(ts.take(i as int) =~= ts);
        assert(views(pieces@) =~= pattern_segments(path@));
        let pattern = join_slices(pieces.as_slice(), sep.as_slice());
        Route { path: to_string(pattern.as_slice()), params }
    }

    /// Matches a path against the route and extracts its parameters.
    ///
    /// The pattern and the path are walked segment by segment. A placeholder
    /// takes whatever segment stands at its position, the empty one too, and
    /// binds it to the next parameter name; any other pattern segment must be
    /// equal to the path segment. Should the route hold fewer names than
    /// placeholders, the empty name stands in for each missing one.
    pub fn matches(&self, path: &str) -> (r: Option<TextMap>)
        ensures
            match r {
                Some(params) => self.match_spec(path@) == Some(params@),
                None => self.match_spec(path@) is None,
            },
    {
        let pattern = to_chars(self.path.as_str());
        let request = to_chars(path);
        let sep: Vec<char> = vec!['/'];
        let marker: Vec<char> = vec!['{', '}'];
        assert(sep@ =~= slash());
        assert(marker@ =~= placeholder());
        let ps = split_slice(pattern.as_slice(), sep.as_slice());
        let rs = split_slice(request.as_slice(), sep.as_slice());
        let ghost pv = views(ps@);
        let ghost rv = views(rs@);
        if ps.len() != rs.len() {
            return None;
        }
        let mut params = TextMap::new();
        let mut count: usize = 0;
        let mut i: usize = 0;
        assert(pv.take(0) =~= Seq::empty());
        while i < ps.len()
            invariant
                i <= ps.len(),
                ps.len() == rs.len(),
                pv == views(ps@),
                rv == views(rs@),
                pv == split(self.path@, slash()),
                rv == split(path@, slash()),
                marker@ == placeholder(),
                forall|j: int| 0 <= j < i ==> #[trigger] pv[j] == placeholder() || pv[j] == rv[j],
                count == captured(pv.take(i as int), rv.take(i as int), self.names()).len(),
                count <= i,
                params@ == map_of(captured(pv.take(i as int), rv.take(i as int), self.names())),
            decreases ps.len() - i,
        {
            assert(pv[i as int] == ps@[i as int]@);
            assert(rv[i as int] == rs@[i as int]@);
            assert(pv.take(i + 1).drop_last() =~= pv.take(i as int));
            assert(rv.take(i + 1).drop_last() =~= rv.take(i as int));
            assert(pv.take(i + 1).last() == pv[i as int]);
            assert(rv.take(i + 1).last() == rv[i as int]);
            if same_text(ps[i], marker.as_slice()) {
                let name = if count < self.params.len() {
                    self.params[count].clone()
                } else {
                    String::new()
                };
                assert(name@ == name_at(self.names(), count as int));
                let ghost front = captured(pv.take(i as int), rv.take(i as int), self.names());
                let ghost pair = (name@, rv[i as int]);
                assert(front.push(pair).drop_last() =~= front);
                params.insert(name, to_string(rs[i]));
                count += 1;
            } else if !same_text(ps[i], rs[i]) {
                return None;
            }
            i += 1;
        }
        assert(pv.take(i as int) =~= pv);
        assert(rv.take(i as int) =~= rv);
        Some(params)
    }
}

/// Two routes are the same key of the table where their normalized patterns
/// are equal, whatever their parameters are called.
impl PartialEq for Route {
    fn eq(&self, other: &Self) -> (r: bool) {
        self.path == other.path
    }
}

impl vstd::std_specs::cmp::PartialEqSpecImpl for Route {
    open spec fn obeys_eq_spec() -> bool {
        true
    }

    open spec fn eq_spec(&self, other: &Self) -> bool {
        self.path@ == other.path@
    }
}

impl Eq for Route {

}

/// One registration of the table.
#[derive(Debug)]
pub struct RouteEntry<H> {
    pub method: HttpMethod,
    pub route: Route,
    pub handler: H,
}

/// What an entry extracts from a path that is asked for with `method`.
pub open spec fn entry_match<H>(entry: RouteEntry<H>, method: HttpMethod, path: Seq<char>) -> Option<
    Map<Seq<char>, Seq<char>>,
> {
    if entry.method == method {
        entry.route.match_spec(path)
    } else {
        None
    }
}

/// The index of the first entry, in the order of registration, that matches.
pub open spec fn first_match<H>(
    entries: Seq<RouteEntry<H>>,
    method: HttpMethod,
    path: Seq<char>,
) -> Option<int>
    decreases entries.len(),
{
    if entries.len() == 0 {
        None
    } else {
        match first_match(entries.drop_last(), method, path) {
            Some(i) => Some(i),
            None => if entry_match(entries.last(), method, path) is Some {
                Some(entries.len() - 1)
            } else {
                None
            },
        }
    }
}

/// Whether an entry is registered under a method and a normalized pattern.
pub open spec fn has_key<H>(entry: RouteEntry<H>, method: HttpMethod, pattern: Seq<char>) -> bool {
    entry.method == method && entry.route.path@ == pattern
}

/// No two entries are registered under the same method and pattern.
pub open spec fn distinct_keys<H>(entries: Seq<RouteEntry<H>>) -> bool {
    forall|i: int, j: int|
        0 <= i < j < entries.len() ==> !has_key(
            #[trigger] entries[i],
            (#[trigger] entries[j]).method,
            entries[j].route.path@,
        )
}

/// How registering `handler` for `method` and `template` changes the entries.
///
/// Where an entry stands under the same method and normalized pattern, its
/// handler is replaced; the entry keeps its place and its parameter names.
/// Otherwise a new entry is added at the end.
pub open spec fn registered<H>(
    before: Seq<RouteEntry<H>>,
    after: Seq<RouteEntry<H>>,
    method: HttpMethod,
    template: Seq<char>,
    handler: H,
) -> bool {
    let pattern = pattern_of(template);
    &&& forall|i: int|
        0 <= i < before.len() && has_key(#[trigger] before[i], method, pattern) ==> after
            == before.update(
            i,
            RouteEntry { method: before[i].method, route: before[i].route, handler },
        )
    &&& (forall|i: int| 0 <= i < before.len() ==> !has_key(#[trigger] before[i], method, pattern))
        ==> {
        &&& after.len() == before.len() + 1
        &&& after.drop_last() == before
        &&& after.last().method == method
        &&& after.last().route.path@ == pattern
        &&& after.last().route.names() == param_names(template)
        &&& after.last().handler == handler
    }
}

/// A request with its parameters set.
pub open spec fn with_params(request: HttpRequest, params: TextMap) -> HttpRequest {
    HttpRequest {
        method: request.method,
        resource: request.resource,
        protocol: request.protocol,
        headers: request.headers,
        body: request.body,
        params: Some(params),
    }
}

/// The outcome of looking a request up in the table.
#[derive(Debug)]
pub enum Routing {
    /// A route matched, and its handler gave this response.
    Matched(HttpResponse),
    /// No route matched. The request is handed back as it was.
    Unmatched(HttpRequest),
}

/// Whether `response` is a response of the entry's handler to `request`:
/// the handler was called with the request and the parameters that the
/// entry's route extracts from the request's path.
pub open spec fn handled_by<H: Fn(HttpRequest) -> HttpResponse>(
    entry: RouteEntry<H>,
    request: HttpRequest,
    response: HttpResponse,
) -> bool {
    exists|params: TextMap|
        {
            &&& entry_match(entry, request.method, request.resource@) == Some(params@)
            &&& #[trigger] call_ensures(entry.handler, (with_params(request, params),), response)
        }
}

/// Whether `outcome` is an outcome of dispatching `request` over `entries`:
/// a response of the first matching entry's handler, or the request itself
/// where no entry matches.
pub open spec fn routed<H: Fn(HttpRequest) -> HttpResponse>(
    entries: Seq<RouteEntry<H>>,
    request: HttpRequest,
    outcome: Routing,
) -> bool {
    match first_match(entries, request.method, request.resource@) {
        Some(i) => outcome matches Routing::Matched(response) && handled_by(
            entries[i],
            request,
            response,
        ),
        None => outcome == Routing::Unmatched(request),
    }
}

/// Whether `response` is an answer of `entries` to `request`: a response of
/// the first matching entry's handler, or `NotFound` where no entry matches.
pub open spec fn answered<H: Fn(HttpRequest) -> HttpResponse>(
    entries: Seq<RouteEntry<H>>,
    request: HttpRequest,
    response: HttpResponse,
) -> bool {
    match first_match(entries, request.method, request.resource@) {
        Some(i) => handled_by(entries[i], request, response),
        None => response == HttpResponse::NotFound,
    }
}

/// `first_match` is the least index of an entry that matches, and `None`
/// exactly where no entry matches.
pub proof fn lemma_first_match<H>(entries: Seq<RouteEntry<H>>, method: HttpMethod, path: Seq<char>)
    ensures
        match first_match(entries, method, path) {
            Some(i) => {
                &&& 0 <= i < entries.len()
                &&& entry_match(entries[i], method, path) is Some
                &&& forall|j: int|
                    0 <= j < i ==> entry_match(#[trigger] entries[j], method, path) is None
            },
            None => forall|j: int|
                0 <= j < entries.len() ==> entry_match(#[trigger] entries[j], method, path) is None,
        },
    decreases entries.len(),
{
    if entries.len() > 0 {
        let front = entries.drop_last();
        lemma_first_match(front, method, path);
        match first_match(front, method, path) {
            Some(i) => {
                assert forall|j: int| 0 <= j < i implies entry_match(
                    #[trigger] entries[j],
                    method,
                    path,
                ) is None by {
                    assert(entries[j] == front[j]);
                }
                assert(entries[i] == front[i]);
            },
            None => {
                assert forall|j: int| 0 <= j < entries.len() - 1 implies entry_match(
                    #[trigger] entries[j],
                    method,
                    path,
                ) is None by {
                    assert(entries[j] == front[j]);
                }
            },
        }
    }
}

/// A match in a prefix of the entries is the match in all of them.
pub proof fn lemma_first_match_prefix<H>(
    entries: Seq<RouteEntry<H>>,
    method: HttpMethod,
    path: Seq<char>,
    k: int,
)
    requires
        0 <= k <= entries.len(),
        first_match(entries.take(k), method, path) is Some,
    ensures
        first_match(entries, method, path) == first_match(entries.take(k), method, path),
    decreases entries.len() - k,
{
    if k < entries.len() {
        assert(entries.take(k + 1).drop_last() =~= entries.take(k));
        lemma_first_match_prefix(entries, method, path, k + 1);
    } else {
        assert(entries.take(k) =~= entries);
    }
}

/// The table of routes. Entries are kept in the order of registration, and
/// the first one that matches a request answers it.
pub struct Router<H: Fn(HttpRequest) -> HttpResponse> {
    routes: Vec<RouteEntry<H>>,
}

impl<H: Fn(HttpRequest) -> HttpResponse> Router<H> {
    /// The registrations, in order.
    pub closed spec fn entries(&self) -> Seq<RouteEntry<H>> {
        self.routes@
    }

    #[verifier::type_invariant]
    spec fn well_formed(&self) -> bool {
        &&& distinct_keys(self.routes@)
        &&& forall|i: int, request: HttpRequest|
            0 <= i < self.routes@.len() ==> #[trigger] call_requires(
                self.routes@[i].handler,
                (request,),
            )
    }

    /// An empty table.
    pub fn new() -> (router: Self)
        ensures
            router.entries() == Seq::<RouteEntry<H>>::empty(),
    {
        Router { routes: Vec::new() }
    }

    /// The number of registrations.
    pub fn len(&self) -> (n: usize)
        ensures
            n == self.entries().len(),
            distinct_keys(self.entries()),
    {
        proof {
            use_type_invariant(self);
        }
        self.routes.len()
    }

    /// The index of the entry that stands under a method and a route's pattern.
    fn position(
        routes: &Vec<RouteEntry<H>>,
        method: HttpMethod,
        route: &Route,
    ) -> (found: Option<usize>)
        ensures
            match found {
                Some(k) => k < routes@.len() && has_key(routes@[k as int], method, route.path@),
                None => forall|j: int|
                    0 <= j < routes@.len() ==> !has_key(#[trigger] routes@[j], method, route.path@),
            },
    {
        let mut i: usize = 0;
        while i < routes.len()
            invariant
                i <= routes.len(),
                forall|j: int| 0 <= j < i ==> !has_key(#[trigger] routes@[j], method, route.path@),
            decreases routes.len() - i,
        {
            if routes[i].method == method && routes[i].route == *route {
                return Some(i);
            }
            i += 1;
        }
        None
    }

    /// Registers `handler` for `method` and the template `path`.
    ///
    /// A handler must accept every request.
    pub fn add_route(&mut self, method: HttpMethod, path: &str, handler: H)
        requires
            forall|request: HttpRequest| call_requires(handler, (request,)),
        ensures
            registered(old(self).entries(), final(self).entries(), method, path@, handler),
    {
        proof {
            use_type_invariant(&*self);
        }
        let route = Route::new(path);
        let ghost before = self.routes@;
        let mut routes: Vec<RouteEntry<H>> = Vec::new();
        core::mem::swap(&mut self.routes, &mut routes);
        match Self::position(&routes, method, &route) {
            Some(k) => {
                routes[k].handler = handler;
                proof {
                    let after = routes@;
                    assert(after =~= before.update(
                        k as int,
                        RouteEntry {
                            method: before[k as int].method,
                            route: before[k as int].route,
                            handler,
                        },
                    ));
                    assert forall|i: int|
                        0 <= i < before.len() && has_key(
                            #[trigger] before[i],
                            method,
                            route.path@,
                        ) implies i == k by {
                        let at = before[k as int];
                        if i < k {
                            assert(!has_key(before[i], at.method, at.route.path@));
                        } else if i > k {
                            assert(!has_key(at, before[i].method, before[i].route.path@));
                        }
                    }
                    assert forall|i: int, j: int| 0 <= i < j < after.len() implies !has_key(
                        #[trigger] after[i],
                        (#[trigger] after[j]).method,
                        after[j].route.path@,
                    ) by {
                        assert(!has_key(before[i], before[j].method, before[j].route.path@));
                    }
                    assert forall|i: int, request: HttpRequest|
                        0 <= i < after.len() implies #[trigger] call_requires(
                        after[i].handler,
                        (request,),
                    ) by {
                        if i != k {
                            assert(call_requires(before[i].handler, (request,)));
                        }
                    }
                }
            },
            None => {
                routes.push(RouteEntry { method, route, handler });
                proof {
                    let after = routes@;
                    assert(after.drop_last() =~= before);
                    assert forall|i: int, j: int| 0 <= i < j < after.len() implies !has_key(
                        #[trigger] after[i],
                        (#[trigger] after[j]).method,
                        after[j].route.path@,
                    ) by {
                        if j < before.len() {
                            assert(!has_key(before[i], before[j].method, before[j].route.path@));
                        } else {
                            assert(!has_key(before[i], method, route.path@));
                        }
                    }
                    assert forall|i: int, request: HttpRequest|
                        0 <= i < after.len() implies #[trigger] call_requires(
                        after[i].handler,
                        (request,),
                    ) by {
                        if i < before.len() {
                            assert(call_requires(before[i].handler, (request,)));
                        }
                    }
                }
            },
        }
        core::mem::swap(&mut self.routes, &mut routes);
    }

    /// Registers `handler` for `GET` requests to the template `path`.
    pub fn get(&mut self, path: &str, handler: H)
        requires
            forall|request: HttpRequest| call_requires(handler, (request,)),
        ensures
            registered(
                old(self).entries(),
                final(self).entries(),
                HttpMethod::Get,
                path@,
                handler,
            ),
    {
        self.add_route(HttpMethod::Get, path, handler);
    }

    /// Registers `handler` for `POST` requests to the template `path`.
    pub fn post(&mut self, path: &str, handler: H)
        requires
            forall|request: HttpRequest| call_requires(handler, (request,)),
        ensures
            registered(
                old(self).entries(),
                final(self).entries(),
                HttpMethod::Post,
                path@,
                handler,
            ),
    {
        self.add_route(HttpMethod::Post, path, handler);
    }

    /// Registers `handler` for `PUT` requests to the template `path`.
    pub fn put(&mut self, path: &str, handler: H)
        requires
            forall|request: HttpRequest| call_requires(handler, (request,)),
        ensures
            registered(
                old(self).entries(),
                final(self).entries(),
                HttpMethod::Put,
                path@,
                handler,
            ),
    {
        self.add_route(HttpMethod::Put, path, handler);
    }

    /// Registers `handler` for `DELETE` requests to the template `path`.
    pub fn delete(&mut self, path: &str, handler: H)
        requires
            forall|request: HttpRequest| call_requires(handler, (request,)),
        ensures
            registered(
                old(self).entries(),
                final(self).entries(),
                HttpMethod::Delete,
                path@,
                handler,
            ),
    {
        self.add_route(HttpMethod::Delete, path, handler);
    }

    /// Finds the route that answers `method` and `path`: the first one, in
    /// the order of registration, that is registered for the method and whose
    /// pattern the path matches. Returns its handler and the parameters that
    /// it extracts from the path.
    pub fn resolve(&self, method: HttpMethod, path: &str) -> (r: Option<(&H, TextMap)>)
        ensures
            match r {
                Some((handler, params)) => {
                    &&& first_match(self.entries(), method, path@) matches Some(i)
                    &&& 0 <= i < self.entries().len()
                    &&& *handler == self.entries()[i].handler
                    &&& entry_match(self.entries()[i], method, path@) == Some(params@)
                    &&& forall|request: HttpRequest| call_requires(*handler, (request,))
                },
                None => first_match(self.entries(), method, path@) is None,
            },
    {
        proof {
            use_type_invariant(self);
        }
        let ghost entries = self.routes@;
        let mut i: usize = 0;
        assert(entries.take(0) =~= Seq::empty());
        while i < self.routes.len()
            invariant
                i <= self.routes@.len(),
                entries == self.routes@,
                first_match(entries.take(i as int), method, path@) is None,
                forall|k: int, request: HttpRequest|
                    0 <= k < entries.len() ==> #[trigger] call_requires(
                        entries[k].handler,
                        (request,),
                    ),
            decreases self.routes@.len() - i,
        {
            let entry = &self.routes[i];
            assert(entries.take(i + 1).drop_last() =~= entries.take(i as int));
            assert(entries.take(i + 1).last() == entries[i as int]);
            if entry.method == method {
                match entry.route.matches(path) {
                    Some(params) => {
                        proof {
                            lemma_first_match_prefix(entries, method, path@, i + 1);
                        }
                        return Some((&entry.handler, params));
                    },
                    None => {},
                }
            }
            i += 1;
        }
        assert(entries.take(i as int) =~= entries);
        None
    }

    /// Looks a request up: the handler of the route that `resolve` finds is
    /// given the request, with the extracted parameters set, and its response
    /// is returned. Without such a route the request comes back unchanged.
    pub fn dispatch(&self, request: HttpRequest) -> (outcome: Routing)
        ensures
            routed(self.entries(), request, outcome),
    {
        match self.resolve(request.method, request.resource.as_str()) {
            Some((handler, params)) => {
                let ghost extracted = params;
                let with_parameters = HttpRequest {
                    method: request.method,
                    resource: request.resource,
                    protocol: request.protocol,
                    headers: request.headers,
                    body: request.body,
                    params: Some(params),
                };
                assert(with_parameters == with_params(request, extracted));
                Routing::Matched(handler(with_parameters))
            },
            None => Routing::Unmatched(request),
        }
    }

    /// Answers a request with the response of the matching route's handler,
    /// or with `NotFound` where no route matches.
    pub fn handle_request(&self, request: HttpRequest) -> (response: HttpResponse)
        ensures
            answered(self.entries(), request, response),
    {
        match self.dispatch(request) {
            Routing::Matched(response) => response,
            Routing::Unmatched(_) => HttpResponse::NotFound,
        }
    }
}

} // verus!
