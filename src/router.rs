use vstd::prelude::*;

use crate::codec::{decode, decode_raw, lookup, lossy_text, text_headers, RawRequest};
use crate::handler::{
    bind_spec, BoxedHandler, StatefulHandler, StatelessHandler, StatelessHandlerImpl,
};
use crate::http::{pairs_text, Error, Method, Request, Response};
use crate::matcher::{
    compile_regex, compile_template, distinct, parse_template, regex_accepts, regex_captures,
    texts, Matcher,
};

verus! {

/// A compiled route: its matcher, its parameter names in template order,
/// and its handler.
pub struct Route<T> {
    matcher: Matcher,
    params: Vec<String>,
    handler: T,
}

impl<T> Route<T> {
    /// The anchored pattern the route matches paths with.
    pub closed spec fn pattern(&self) -> Seq<char> {
        self.matcher.pattern()
    }

    /// The parameter names, left to right as the template gives them.
    pub closed spec fn names(&self) -> Seq<Seq<char>> {
        texts(self.params@)
    }

    pub closed spec fn handler_spec(&self) -> T {
        self.handler
    }

    /// The route compiled from template `t`, or the error that registering
    /// it fails with.
    pub fn new(t: &str, handler: T) -> (r: Result<Self, Error>)
        ensures
            match compile_template(t@) {
                None => r matches Err(Error::InvalidTemplate),
                Some((p, ns)) => if !distinct(ns) {
                    r matches Err(Error::DuplicateParam)
                } else if !regex_accepts(p) {
                    r matches Err(Error::PatternRejected)
                } else {
                    r matches Ok(route) && route.pattern() == p && route.names() == ns
                        && route.handler_spec() == handler
                },
            },
    {
        let (pattern, params) = match parse_template(t) {
            None => return Err(Error::InvalidTemplate),
            Some(x) => x,
        };
        if !all_distinct(&params) {
            return Err(Error::DuplicateParam);
        }
        match compile_regex(pattern) {
            Ok(matcher) => Ok(Route { matcher, params, handler }),
            Err(_) => Err(Error::PatternRejected),
        }
    }
}

/// Whether no two of `v` are equal.
pub fn all_distinct(v: &Vec<String>) -> (r: bool)
    ensures
        r == distinct(texts(v@)),
{
    let ghost ns = texts(v@);
    let mut j: usize = 0;
    while j < v.len()
        invariant
            j <= v@.len(),
            ns == texts(v@),
            forall|a: int, b: int| 0 <= a < b < j ==> ns[a] != ns[b],
        decreases v@.len() - j,
    {
        let mut i: usize = 0;
        while i < j
            invariant
                i <= j < v@.len(),
                ns == texts(v@),
                forall|a: int, b: int| 0 <= a < b < j ==> ns[a] != ns[b],
                forall|a: int| 0 <= a < i ==> ns[a] != ns[j as int],
            decreases j - i,
        {
            if v[i].eq(&v[j]) {
                assert(ns[i as int] == ns[j as int]);
                return false;
            }
            i = i + 1;
        }
        j = j + 1;
    }
    true
}

/// The anchored patterns of a list of routes.
pub open spec fn patterns<T>(rs: Seq<Route<T>>) -> Seq<Seq<char>> {
    rs.map_values(|r: Route<T>| r.pattern())
}

/// The index of the first pattern that matches `path`.
pub open spec fn first_match(ps: Seq<Seq<char>>, path: Seq<char>) -> Option<int>
    decreases ps.len(),
{
    if ps.len() == 0 {
        None
    } else {
        match first_match(ps.drop_last(), path) {
            Some(i) => Some(i),
            None => if regex_captures(ps.last(), path) is Some {
                Some(ps.len() - 1)
            } else {
                None
            },
        }
    }
}

/// The parameters a route sets: each name paired, in order, with the text of
/// the capture group in the same position (group 0 being the whole match).
pub open spec fn bind_params(names: Seq<Seq<char>>, groups: Seq<Option<Seq<char>>>) -> Seq<
    (Seq<char>, Seq<char>),
>
    decreases names.len(),
{
    if names.len() == 0 {
        Seq::empty()
    } else {
        let k = names.len() - 1;
        let rest = bind_params(names.drop_last(), groups);
        if k + 1 < groups.len() && groups[k + 1] is Some {
            rest.push((names[k], groups[k + 1]->0))
        } else {
            rest
        }
    }
}

/// A table of routes: for each method the routes registered for it, in order.
pub struct Router<T> {
    get_routes: Vec<Route<T>>,
    post_routes: Vec<Route<T>>,
}

impl<T> Router<T> {
    /// The routes registered for method `m`, in registration order.
    pub closed spec fn bag(&self, m: Method) -> Seq<Route<T>> {
        match m {
            Method::Get => self.get_routes@,
            Method::Post => self.post_routes@,
        }
    }

    /// Every route's parameter names are distinct.
    pub open spec fn wf(&self) -> bool {
        forall|m: Method, k: int|
            0 <= k < self.bag(m).len() ==> distinct(#[trigger] self.bag(m)[k].names())
    }

    /// An empty table.
    pub fn new() -> (r: Self)
        ensures
            r.wf(),
            r.bag(Method::Get).len() == 0,
            r.bag(Method::Post).len() == 0,
    {
        Router { get_routes: Vec::new(), post_routes: Vec::new() }
    }

    /// Registers `handler` for `method` requests whose path matches template
    /// `t`, after the routes already there; fails as `Route::new` does.
    pub fn register(self, method: Method, t: &str, handler: T) -> (r: Result<Self, Error>)
        ensures
            self.wf() && r is Ok ==> r->Ok_0.wf(),
            match compile_template(t@) {
                None => r matches Err(Error::InvalidTemplate),
                Some((p, ns)) => if !distinct(ns) {
                    r matches Err(Error::DuplicateParam)
                } else if !regex_accepts(p) {
                    r matches Err(Error::PatternRejected)
                } else {
                    r matches Ok(next) && next.bag(method).len() == self.bag(method).len() + 1
                        && next.bag(method).drop_last() == self.bag(method)
                        && next.bag(method).last().pattern() == p
                        && next.bag(method).last().names() == ns
                        && next.bag(method).last().handler_spec() == handler
                        && forall|m: Method| m != method ==> next.bag(m) == self.bag(m)
                },
            },
    {
        let route = match Route::new(t, handler) {
            Ok(route) => route,
            Err(e) => return Err(e),
        };
        let mut next = self;
        match method {
            Method::Get => next.get_routes.push(route),
            Method::Post => next.post_routes.push(route),
        }
        proof {
            assert(next.bag(method).drop_last() =~= self.bag(method));
            if self.wf() {
                assert forall|m: Method, k: int| 0 <= k < next.bag(m).len() implies distinct(
                    #[trigger] next.bag(m)[k].names(),
                ) by {
                    if m == method && k < self.bag(method).len() {
                        assert(next.bag(m)[k] == self.bag(m)[k]);
                    } else if m != method {
                        assert(next.bag(m) == self.bag(m));
                    }
                }
            }
        }
        Ok(next)
    }

    /// Registers a GET route; see `register`.
    pub fn get(self, t: &str, handler: T) -> (r: Result<Self, Error>)
        ensures
            self.wf() && r is Ok ==> r->Ok_0.wf(),
            match compile_template(t@) {
                None => r matches Err(Error::InvalidTemplate),
                Some((p, ns)) => if !distinct(ns) {
                    r matches Err(Error::DuplicateParam)
                } else if !regex_accepts(p) {
                    r matches Err(Error::PatternRejected)
                } else {
                    r matches Ok(next) && next.bag(Method::Get) == self.bag(Method::Get).push(
                        next.bag(Method::Get).last(),
                    ) && next.bag(Method::Get).last().pattern() == p
                        && next.bag(Method::Get).last().names() == ns
                        && next.bag(Method::Get).last().handler_spec() == handler
                        && next.bag(Method::Post) == self.bag(Method::Post)
                },
            },
    {
        let ghost old_self = self;
        let r = self.register(Method::Get, t, handler);
        proof {
            if r is Ok {
                let next = r->Ok_0;
                assert(next.bag(Method::Get) =~= old_self.bag(Method::Get).push(next.bag(Method::Get).last()));
            }
        }
        r
    }

    /// Registers a POST route; see `register`.
    pub fn post(self, t: &str, handler: T) -> (r: Result<Self, Error>)
        ensures
            self.wf() && r is Ok ==> r->Ok_0.wf(),
            match compile_template(t@) {
                None => r matches Err(Error::InvalidTemplate),
                Some((p, ns)) => if !distinct(ns) {
                    r matches Err(Error::DuplicateParam)
                } else if !regex_accepts(p) {
                    r matches Err(Error::PatternRejected)
                } else {
                    r matches Ok(next) && next.bag(Method::Post) == self.bag(Method::Post).push(
                        next.bag(Method::Post).last(),
                    ) && next.bag(Method::Post).last().pattern() == p
                        && next.bag(Method::Post).last().names() == ns
                        && next.bag(Method::Post).last().handler_spec() == handler
                        && next.bag(Method::Get) == self.bag(Method::Get)
                },
            },
    {
        let ghost old_self = self;
        let r = self.register(Method::Post, t, handler);
        proof {
            if r is Ok {
                let next = r->Ok_0;
                assert(next.bag(Method::Post) =~= old_self.bag(Method::Post).push(next.bag(Method::Post).last()));
            }
        }
        r
    }
}


/// Whether `after` is what binding the state makes of `before`: a handler
/// that needs no state is kept as it is; a stateful one is kept together with
/// a copy of the state.
pub open spec fn binds<H, G, S>(before: BoxedHandler<H, G>, after: StatelessHandlerImpl<H, G, S>) -> bool {
    match before {
        BoxedHandler::Stateless(x) => after == StatelessHandlerImpl::<H, G, S>::Plain(x),
        BoxedHandler::Stateful(g) => after matches StatelessHandlerImpl::Bound(g2, _) && g2 == g,
    }
}

/// Whether route list `after` is `before` with each handler bound.
pub open spec fn bound_routes<H, G, S>(
    before: Seq<Route<BoxedHandler<H, G>>>,
    after: Seq<Route<StatelessHandlerImpl<H, G, S>>>,
) -> bool {
    &&& after.len() == before.len()
    &&& forall|k: int|
        0 <= k < before.len() ==> {
            &&& #[trigger] after[k].pattern() == before[k].pattern()
            &&& after[k].names() == before[k].names()
            &&& binds(before[k].handler_spec(), after[k].handler_spec())
        }
}

impl<H, G> Route<BoxedHandler<H, G>> {
    /// The route with its handler bound to `state`.
    pub fn with_state<S>(self, state: S) -> (r: Route<StatelessHandlerImpl<H, G, S>>)
        ensures
            r.pattern() == self.pattern(),
            r.names() == self.names(),
            r.handler_spec() == bind_spec(self.handler_spec(), state),
    {
        Route {
            matcher: self.matcher,
            params: self.params,
            handler: self.handler.into_stateless_handler(state),
        }
    }
}

/// Binds `state` to every route of `v`, keeping their order.
fn bind_all<H, G, S: Clone>(v: Vec<Route<BoxedHandler<H, G>>>, state: &S) -> (r: Vec<
    Route<StatelessHandlerImpl<H, G, S>>,
>)
    ensures
        bound_routes(v@, r@),
{
    let ghost orig = v@;
    let mut rest = v;
    let mut out: Vec<Route<StatelessHandlerImpl<H, G, S>>> = Vec::new();
    while rest.len() > 0
        invariant
            out@.len() + rest@.len() == orig.len(),
            rest@ == orig.subrange(out@.len() as int, orig.len() as int),
            forall|k: int|
                0 <= k < out@.len() ==> {
                    &&& #[trigger] out@[k].pattern() == orig[k].pattern()
                    &&& out@[k].names() == orig[k].names()
                    &&& binds(orig[k].handler_spec(), out@[k].handler_spec())
                },
        decreases rest@.len(),
    {
        let ghost k = out@.len() as int;
        let route = rest.remove(0);
        assert(route == orig[k]);
        let bound = route.with_state(state.clone());
        out.push(bound);
        assert(rest@ =~= orig.subrange(out@.len() as int, orig.len() as int));
    }
    out
}

impl<H, G> Router<BoxedHandler<H, G>> {
    /// Ends registration: binds `state` to every stateful route, and keeps
    /// every other route as it is, in the same order.
    pub fn with_state<S: Clone>(self, state: S) -> (r: Router<StatelessHandlerImpl<H, G, S>>)
        ensures
            self.wf() ==> r.wf(),
            bound_routes(self.bag(Method::Get), r.bag(Method::Get)),
            bound_routes(self.bag(Method::Post), r.bag(Method::Post)),
    {
        let r = Router {
            get_routes: bind_all(self.get_routes, &state),
            post_routes: bind_all(self.post_routes, &state),
        };
        proof {
            if self.wf() {
                assert forall|m: Method, k: int| 0 <= k < r.bag(m).len() implies distinct(
                    #[trigger] r.bag(m)[k].names(),
                ) by {
                    assert(r.bag(m)[k].pattern() == self.bag(m)[k].pattern());
                    assert(self.bag(m)[k].names() == r.bag(m)[k].names());
                    assert(distinct(self.bag(m)[k].names()));
                }
            }
        }
        r
    }
}

/// The parameters that `names` and `groups` give, built in order.
fn bind_groups(params: &Vec<String>, groups: &Vec<Option<String>>) -> (r: Vec<(String, String)>)
    ensures
        pairs_text(r@) == bind_params(texts(params@), crate::matcher::group_texts(groups@)),
{
    let ghost ns = texts(params@);
    let ghost gs = crate::matcher::group_texts(groups@);
    let mut out: Vec<(String, String)> = Vec::new();
    let mut k: usize = 0;
    assert(ns.subrange(0, 0) =~= Seq::<Seq<char>>::empty());
    assert(pairs_text(out@) =~= Seq::<(Seq<char>, Seq<char>)>::empty());
    while k < params.len()
        invariant
            k <= params@.len(),
            ns == texts(params@),
            gs == crate::matcher::group_texts(groups@),
            pairs_text(out@) == bind_params(ns.subrange(0, k as int), gs),
        decreases params@.len() - k,
    {
        let ghost upto = ns.subrange(0, k + 1);
        assert(upto.drop_last() =~= ns.subrange(0, k as int));
        assert(upto[k as int] == params@[k as int]@);
        if k + 1 < groups.len() {
            match &groups[k + 1] {
                Some(v) => {
                    let ghost before = out@;
                    out.push((params[k].clone(), v.clone()));
                    assert(pairs_text(out@) =~= pairs_text(before).push((params@[k as int]@, v@)));
                },
                None => {},
            }
        }
        k = k + 1;
    }
    assert(ns.subrange(0, k as int) =~= ns);
    out
}

/// First match wins: the route that a path is dispatched to matches it, and
/// no route registered before it does.
pub proof fn lemma_first_match_wins(ps: Seq<Seq<char>>, path: Seq<char>)
    ensures
        match first_match(ps, path) {
            Some(i) => {
                &&& 0 <= i < ps.len()
                &&& regex_captures(ps[i], path) is Some
                &&& forall|j: int| 0 <= j < i ==> regex_captures(#[trigger] ps[j], path) is None
            },
            None => forall|j: int| 0 <= j < ps.len() ==> regex_captures(#[trigger] ps[j], path) is None,
        },
    decreases ps.len(),
{
    if ps.len() > 0 {
        lemma_first_match_wins(ps.drop_last(), path);
        assert forall|j: int| 0 <= j < ps.len() - 1 implies ps[j] == ps.drop_last()[j] by {}
    }
}

/// A match found among the first patterns is the first match of all.
proof fn lemma_first_match_prefix(ps: Seq<Seq<char>>, n: int, path: Seq<char>)
    requires
        0 <= n <= ps.len(),
        first_match(ps.subrange(0, n), path) is Some,
    ensures
        first_match(ps, path) == first_match(ps.subrange(0, n), path),
    decreases ps.len(),
{
    if n < ps.len() {
        assert(ps.drop_last().subrange(0, n) =~= ps.subrange(0, n));
        lemma_first_match_prefix(ps.drop_last(), n, path);
    } else {
        assert(ps.subrange(0, n) =~= ps);
    }
}

/// Whether `after` is `before` with `params` written into its parameters
/// (after the ones it held, so that on a name they share the new value wins
/// under `lookup`) and nothing else changed.
pub open spec fn with_params(before: Request, after: Request, params: Seq<(Seq<char>, Seq<char>)>) -> bool {
    &&& after.path == before.path
    &&& after.method == before.method
    &&& after.headers == before.headers
    &&& after.body == before.body
    &&& pairs_text(after.params@) == pairs_text(before.params@) + params
}

impl<T> Router<T> {
    /// The parameters that route `i` for method `m` sets for `path`.
    pub open spec fn params_for(&self, m: Method, i: int, path: Seq<char>) -> Seq<(Seq<char>, Seq<char>)> {
        bind_params(self.bag(m)[i].names(), regex_captures(self.bag(m)[i].pattern(), path)->0)
    }

    /// Finds the first route registered for the request's method whose
    /// pattern matches its path, and sets the request's parameters from it.
    pub fn get_route(&self, request: &mut Request) -> (r: Option<usize>)
        ensures
            match first_match(patterns(self.bag(old(request).method)), old(request).path@) {
                None => r is None && *final(request) == *old(request),
                Some(i) => r matches Some(j) && j == i && with_params(
                    *old(request),
                    *final(request),
                    self.params_for(old(request).method, i, old(request).path@),
                ),
            },
    {
        let bag = match request.method {
            Method::Get => &self.get_routes,
            Method::Post => &self.post_routes,
        };
        let ghost ps = patterns(bag@);
        assert(ps.subrange(0, 0) =~= Seq::<Seq<char>>::empty());
        let mut i: usize = 0;
        while i < bag.len()
            invariant
                i <= bag@.len(),
                ps == patterns(bag@),
                bag@ == self.bag(request.method),
                *request == *old(request),
                first_match(ps.subrange(0, i as int), request.path@) is None,
            decreases bag@.len() - i,
        {
            let ghost upto = ps.subrange(0, i + 1);
            assert(upto.drop_last() =~= ps.subrange(0, i as int));
            match bag[i].matcher.captures(request.path.as_str()) {
                Some(groups) => {
                    let mut params = bind_groups(&bag[i].params, &groups);
                    proof {
                        lemma_first_match_prefix(ps, i + 1, request.path@);
                        assert(ps[i as int] == bag@[i as int].pattern());
                        assert(first_match(ps, request.path@) == Some(i as int));
                    }
                    let ghost held = request.params@;
                    let ghost added = params@;
                    request.params.append(&mut params);
                    assert(pairs_text(request.params@) =~= pairs_text(held) + pairs_text(added));
                    return Some(i);
                },
                None => {},
            }
            i = i + 1;
        }
        assert(ps.subrange(0, i as int) =~= ps);
        None
    }
}

/// The response for a request that no route answers.
pub fn not_found() -> (r: Response)
    ensures
        r.status_code == 404,
        r.content_type@ == "text/plain"@,
        r.body@ == vstd::utf8::encode_utf8("Not Found"@),
{
    Response {
        status_code: 404,
        body: vstd::slice::slice_to_vec("Not Found".as_bytes()),
        content_type: String::from_str("text/plain"),
    }
}

/// The response for a request that cannot be read.
pub fn bad_request() -> (r: Response)
    ensures
        r.status_code == 400,
        r.content_type@ == "text/plain"@,
        r.body@ == vstd::utf8::encode_utf8("Bad Request"@),
{
    Response {
        status_code: 400,
        body: vstd::slice::slice_to_vec("Bad Request".as_bytes()),
        content_type: String::from_str("text/plain"),
    }
}

/// Whether `r` is a text/plain response with status `code` and body `text`.
pub open spec fn is_plain(r: Response, code: u16, text: Seq<char>) -> bool {
    r.status_code == code && r.content_type@ == "text/plain"@ && r.body@ == vstd::utf8::encode_utf8(text)
}

impl<T> Router<T> {
    /// Whether `req` is the request that wire form `q` hands to route `i`
    /// of its method: decoded, with that route's parameters bound.
    pub open spec fn routed(&self, q: RawRequest, i: int, req: Request) -> bool {
        let m = crate::http::method_of(lossy_text(q.method))->0;
        let path = lossy_text(q.path);
        &&& req.method == m
        &&& req.path@ == path
        &&& pairs_text(req.params@) == self.params_for(m, i, path)
        &&& pairs_text(req.headers@) == text_headers(q.headers)
        &&& req.body@ == q.body
    }

    /// Decides what a request given as bytes gets: 400 "Bad Request" when it
    /// cannot be read, 404 "Not Found" when no route for its method matches
    /// its path, and otherwise the index of the first route that matches,
    /// with the decoded request carrying that route's parameters.
    pub fn route(&self, raw: &[u8]) -> (r: Result<(usize, Request), Response>)
        ensures
            match decode_raw(raw@) {
                Err(_) => r matches Err(resp) && is_plain(resp, 400, "Bad Request"@),
                Ok(q) => {
                    let m = crate::http::method_of(lossy_text(q.method))->0;
                    let path = lossy_text(q.path);
                    match first_match(patterns(self.bag(m)), path) {
                        None => r matches Err(resp) && is_plain(resp, 404, "Not Found"@),
                        Some(i) => r matches Ok((j, req)) && j == i && self.routed(q, i, req),
                    }
                },
            },
    {
        let mut request = match decode(raw) {
            Err(_) => return Err(bad_request()),
            Ok(req) => req,
        };
        match self.get_route(&mut request) {
            None => Err(not_found()),
            Some(i) => Ok((i, request)),
        }
    }
}

/// The wire form of a response with status `code`, type text/plain, and
/// body `text`.
pub open spec fn plain_wire(code: u16, text: Seq<char>) -> Seq<u8> {
    crate::http::encode_spec(code, "text/plain"@, vstd::utf8::encode_utf8(text))
}

impl<H: StatelessHandler, G: StatefulHandler<S>, S: Clone> Router<StatelessHandlerImpl<H, G, S>> {
    /// Answers one request given as bytes: a request that cannot be read gets
    /// 400, one that no route matches gets 404 "Not Found", and a matched one
    /// gets what its route's handler returns, encoded.
    pub fn execute(&self, raw: &[u8]) -> (r: Vec<u8>)
        ensures
            match decode_raw(raw@) {
                Err(_) => r@ == plain_wire(400, "Bad Request"@),
                Ok(q) => match first_match(
                    patterns(self.bag(crate::http::method_of(lossy_text(q.method))->0)),
                    lossy_text(q.path),
                ) {
                    None => r@ == plain_wire(404, "Not Found"@),
                    Some(i) => exists|req: Request, resp: Response|
                        #![trigger self.bag(crate::http::method_of(lossy_text(q.method))->0)[i].handler_spec().answers(req, resp)]
                        self.routed(q, i, req) && self.bag(
                            crate::http::method_of(lossy_text(q.method))->0,
                        )[i].handler_spec().answers(req, resp) && r@ == resp.wire(),
                },
            },
    {
        match self.route(raw) {
            Err(resp) => resp.encode(),
            Ok((i, request)) => {
                let bag = match request.method {
                    Method::Get => &self.get_routes,
                    Method::Post => &self.post_routes,
                };
                proof {
                    lemma_first_match_wins(patterns(bag@), lossy_text(decode_raw(raw@)->Ok_0.path));
                }
                let ghost req = request;
                let response = bag[i].handler.call(request);
                let out = response.encode();
                assert(out@ == response.wire());
                assert(bag@[i as int].handler_spec().answers(req, response));
                out
            },
        }
    }
}


/// Parameters are bound by position: when the route's names are distinct
/// and the capture group after the `k`-th name took part in the match, the
/// `k`-th name maps to that group's text, whatever the other names are.
pub proof fn lemma_params_in_template_order(
    names: Seq<Seq<char>>,
    groups: Seq<Option<Seq<char>>>,
    k: int,
)
    requires
        distinct(names),
        0 <= k < names.len(),
        k + 1 < groups.len(),
        groups[k + 1] is Some,
    ensures
        lookup(bind_params(names, groups), names[k]) == groups[k + 1],
    decreases names.len(),
{
    let last = names.len() - 1;
    let rest = bind_params(names.drop_last(), groups);
    if k < last {
        assert(distinct(names.drop_last()));
        lemma_params_in_template_order(names.drop_last(), groups, k);
        assert(names[last] != names[k]);
        assert(names.drop_last()[k] == names[k]);
        if last + 1 < groups.len() && groups[last + 1] is Some {
            let full = rest.push((names[last], groups[last + 1]->0));
            assert(full.drop_last() =~= rest);
        }
    } else {
        let full = rest.push((names[last], groups[last + 1]->0));
        assert(full.last() == (names[k], groups[k + 1]->0));
    }
}

/// The parameters a dispatched request gets are its route's names, each
/// with the text of the capture group in the same position.
pub proof fn lemma_route_params_by_name<T>(
    router: Router<T>,
    m: Method,
    path: Seq<char>,
    i: int,
    k: int,
)
    requires
        router.wf(),
        first_match(patterns(router.bag(m)), path) == Some(i),
        0 <= k < router.bag(m)[i].names().len(),
        k + 1 < regex_captures(router.bag(m)[i].pattern(), path)->0.len(),
        regex_captures(router.bag(m)[i].pattern(), path)->0[k + 1] is Some,
    ensures
        lookup(router.params_for(m, i, path), router.bag(m)[i].names()[k])
            == regex_captures(router.bag(m)[i].pattern(), path)->0[k + 1],
{
    lemma_first_match_wins(patterns(router.bag(m)), path);
    assert(distinct(router.bag(m)[i].names()));
    lemma_params_in_template_order(
        router.bag(m)[i].names(),
        regex_captures(router.bag(m)[i].pattern(), path)->0,
        k,
    );
}

proof fn lemma_lookup_concat<K, V>(a: Seq<(K, V)>, b: Seq<(K, V)>, k: K)
    ensures
        lookup(b, k) is Some ==> lookup(a + b, k) == lookup(b, k),
        (forall|j: int| 0 <= j < b.len() ==> (#[trigger] b[j]).0 != k) ==> lookup(a + b, k) == lookup(a, k),
    decreases b.len(),
{
    if b.len() == 0 {
        assert(a + b =~= a);
    } else {
        assert((a + b).drop_last() =~= a + b.drop_last());
        lemma_lookup_concat(a, b.drop_last(), k);
        if b.last().0 != k {
            if forall|j: int| 0 <= j < b.len() ==> (#[trigger] b[j]).0 != k {
                assert forall|j: int| 0 <= j < b.drop_last().len() implies (#[trigger] b.drop_last()[j]).0 != k by {
                    assert(b.drop_last()[j] == b[j]);
                }
            }
        }
    }
}

proof fn lemma_bind_keys(names: Seq<Seq<char>>, groups: Seq<Option<Seq<char>>>, n: Seq<char>)
    requires
        !names.contains(n),
    ensures
        forall|j: int| 0 <= j < bind_params(names, groups).len() ==> (#[trigger] bind_params(names, groups)[j]).0 != n,
    decreases names.len(),
{
    if names.len() > 0 {
        let rest = names.drop_last();
        assert(!rest.contains(n)) by {
            if rest.contains(n) {
                let j = choose|j: int| 0 <= j < rest.len() && rest[j] == n;
                assert(names[j] == n);
            }
        }
        lemma_bind_keys(rest, groups, n);
        let k = names.len() - 1;
        assert(names[k] != n);
        let prev = bind_params(rest, groups);
        let full = bind_params(names, groups);
        assert forall|j: int| 0 <= j < full.len() implies (#[trigger] full[j]).0 != n by {
            if j < prev.len() {
                assert(full[j] == prev[j]);
            }
        }
    }
}

/// Writing a route's parameters into a request keeps every parameter it
/// held under a name the route does not have, and gives each of the route's
/// (distinct) names whose capture group took part the text of that group.
pub proof fn lemma_written_params(
    before: Request,
    after: Request,
    names: Seq<Seq<char>>,
    groups: Seq<Option<Seq<char>>>,
)
    requires
        with_params(before, after, bind_params(names, groups)),
    ensures
        forall|n: Seq<char>| !names.contains(n) ==> #[trigger] after.param_spec(n) == before.param_spec(n),
        distinct(names) ==> forall|k: int|
            0 <= k < names.len() && k + 1 < groups.len() && groups[k + 1] is Some
                ==> #[trigger] after.param_spec(names[k]) == groups[k + 1],
{
    let held = pairs_text(before.params@);
    let added = bind_params(names, groups);
    assert forall|n: Seq<char>| !names.contains(n) implies #[trigger] after.param_spec(n) == before.param_spec(n) by {
        lemma_bind_keys(names, groups, n);
        lemma_lookup_concat(held, added, n);
    }
    if distinct(names) {
        assert forall|k: int|
            0 <= k < names.len() && k + 1 < groups.len() && groups[k + 1] is Some
                implies #[trigger] after.param_spec(names[k]) == groups[k + 1] by {
            lemma_params_in_template_order(names, groups, k);
            lemma_lookup_concat(held, added, names[k]);
        }
    }
}

/// A method with no routes answers no path.
pub proof fn lemma_no_routes_no_match<T>(r: Router<T>, m: Method, path: Seq<char>)
    requires
        r.bag(m).len() == 0,
    ensures
        first_match(patterns(r.bag(m)), path) is None,
{
}

/// Binding state to a table whose routes all need none changes nothing in
/// dispatch: every path picks the same route, which sets the same
/// parameters and runs the same handler value.
pub proof fn lemma_bind_stateless_is_noop<H, G, S>(
    before: Router<BoxedHandler<H, G>>,
    after: Router<StatelessHandlerImpl<H, G, S>>,
    m: Method,
    path: Seq<char>,
)
    requires
        bound_routes(before.bag(m), after.bag(m)),
        forall|k: int|
            0 <= k < before.bag(m).len() ==> (#[trigger] before.bag(m)[k]).handler_spec() is Stateless,
    ensures
        first_match(patterns(after.bag(m)), path) == first_match(patterns(before.bag(m)), path),
        forall|k: int|
            0 <= k < before.bag(m).len() ==> {
                &&& #[trigger] after.params_for(m, k, path) == before.params_for(m, k, path)
                &&& after.bag(m)[k].handler_spec() == StatelessHandlerImpl::<H, G, S>::Plain(
                    before.bag(m)[k].handler_spec()->Stateless_0,
                )
            },
{
    assert(patterns(after.bag(m)) =~= patterns(before.bag(m)));
    assert forall|k: int| 0 <= k < before.bag(m).len() implies {
        &&& #[trigger] after.params_for(m, k, path) == before.params_for(m, k, path)
        &&& after.bag(m)[k].handler_spec() == StatelessHandlerImpl::<H, G, S>::Plain(
            before.bag(m)[k].handler_spec()->Stateless_0,
        )
    } by {
        assert(after.bag(m)[k].pattern() == before.bag(m)[k].pattern());
        assert(before.bag(m)[k].handler_spec() is Stateless);
    }
}

} // verus!
