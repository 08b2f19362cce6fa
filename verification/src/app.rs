//! The application: its routes, the choice of a handler for a request, and
//! what the server adds to every response.

use crate::http::{keeps_alive, Data, DataView, Method};
use crate::number::{decimal, decimal_chars};
use crate::status::StatusCode;
use crate::string_map::{inserted, lookup};
use crate::text::{chars_of, string_of};
use vstd::prelude::*;
use vstd::string::*;

verus! {

/// A binding of a handler to the paths that begin with `url`, for one method.
struct Route<H> {
    url: String,
    method: Method,
    func: H,
}

/// What a route is matched by: its prefix and its method.
pub type Pattern = (Seq<char>, Method);

/// Whether a route can serve a request: the methods are the same and the
/// route's prefix, which is not empty, begins the path.
pub open spec fn matches(pattern: Pattern, url: Seq<char>, method: Method) -> bool {
    pattern.1 == method && pattern.0.len() > 0 && pattern.0.is_prefix_of(url)
}

/// The route that serves a request: among the routes that match, the one
/// with the longest prefix, and of several such the one bound first.
pub open spec fn select(patterns: Seq<Pattern>, url: Seq<char>, method: Method) -> Option<int>
    decreases patterns.len(),
{
    if patterns.len() == 0 {
        None
    } else {
        let earlier = select(patterns.drop_last(), url, method);
        let better = match earlier {
            Some(i) => patterns[i].0.len() < patterns.last().0.len(),
            None => true,
        };
        if matches(patterns.last(), url, method) && better {
            Some(patterns.len() - 1)
        } else {
            earlier
        }
    }
}

/// Longest-prefix routing. The selected route matches the request; no route
/// that matches has a longer prefix; every route that matches and was bound
/// earlier has a shorter one. No route is selected only if none matches.
pub proof fn lemma_select_longest(patterns: Seq<Pattern>, url: Seq<char>, method: Method)
    ensures
        match select(patterns, url, method) {
            Some(best) => {
                &&& 0 <= best < patterns.len()
                &&& matches(patterns[best], url, method)
                &&& forall|j: int|
                    0 <= j < patterns.len() && matches(#[trigger] patterns[j], url, method)
                        ==> patterns[j].0.len() <= patterns[best].0.len()
                &&& forall|j: int|
                    0 <= j < best && matches(#[trigger] patterns[j], url, method) ==> patterns[j].0.len()
                        < patterns[best].0.len()
            },
            None => forall|j: int|
                0 <= j < patterns.len() ==> !matches(#[trigger] patterns[j], url, method),
        },
    decreases patterns.len(),
{
    if patterns.len() > 0 {
        let front = patterns.drop_last();
        lemma_select_longest(front, url, method);
        assert forall|j: int| 0 <= j < front.len() implies front[j] == patterns[j] by {}
        match select(patterns, url, method) {
            Some(best) => {
                assert forall|j: int|
                    0 <= j < patterns.len() && matches(
                        #[trigger] patterns[j],
                        url,
                        method,
                    ) implies patterns[j].0.len() <= patterns[best].0.len() by {
                    if j < front.len() {
                        assert(front[j] == patterns[j]);
                    }
                }
                assert forall|j: int|
                    0 <= j < best && matches(
                        #[trigger] patterns[j],
                        url,
                        method,
                    ) implies patterns[j].0.len() < patterns[best].0.len() by {
                    assert(front[j] == patterns[j]);
                }
            },
            None => {
                assert forall|j: int| 0 <= j < patterns.len() implies !matches(
                    #[trigger] patterns[j],
                    url,
                    method,
                ) by {
                    if j < front.len() {
                        assert(front[j] == patterns[j]);
                    }
                }
            },
        }
    }
}

/// Whether the server accepts requests of a method at all. A request of any
/// other method is answered with 405 before a route is looked for.
pub open spec fn is_supported(method: Method) -> bool {
    method == Method::GET || method == Method::POST
}

/// What is to answer a request.
#[derive(Debug, Copy, Clone, PartialEq, Eq, Structural)]
pub enum Target {
    /// The handler of the route with this index.
    Handler(usize),
    /// A response made by the server itself, with this status.
    Status(StatusCode),
}

/// The target of a request: 405 for a method that is not supported, else the
/// handler of the selected route, else 404.
pub open spec fn target_of(patterns: Seq<Pattern>, url: Seq<char>, method: Method) -> Target {
    if !is_supported(method) {
        Target::Status(StatusCode::MethodNotAllowed)
    } else {
        match select(patterns, url, method) {
            Some(i) => Target::Handler(i as usize),
            None => Target::Status(StatusCode::NotFound),
        }
    }
}

/// A token that names no method gives a request that is answered with 405,
/// whatever its path and whatever routes are bound.
pub proof fn lemma_unknown_method_is_rejected(
    patterns: Seq<Pattern>,
    url: Seq<char>,
    token: Seq<char>,
)
    requires
        token != "GET"@,
        token != "POST"@,
    ensures
        target_of(patterns, url, Method::from_text(token)) == Target::Status(
            StatusCode::MethodNotAllowed,
        ),
{
}

/// The value of the `host` header: the address and the port of the server.
pub open spec fn host_value(host: Seq<char>, port: u16) -> Seq<char> {
    host + ":"@ + decimal(port as nat)
}

/// A response as the server sends it: with the two headers that name the
/// server and, where the request asked to keep the connection, the header
/// that says so.
pub open spec fn finalized(response: DataView, host: Seq<char>, port: u16, keep_alive: bool) -> DataView {
    let named = response.with_header("host"@, host_value(host, port)).with_header(
        "server"@,
        "micro-http/0.1"@,
    );
    if keep_alive {
        named.with_header("connection"@, "keep-alive"@)
    } else {
        named
    }
}

/// What the server adds is found in every response that it sends, and what
/// the response held under other names stays; status and body are untouched.
pub proof fn lemma_finalized(response: DataView, host: Seq<char>, port: u16, keep_alive: bool)
    requires
        crate::string_map::distinct_keys(response.headers),
    ensures
        ({
            let sent = finalized(response, host, port, keep_alive);
            &&& crate::string_map::distinct_keys(sent.headers)
            &&& lookup(sent.headers, "host"@) == Some(host_value(host, port))
            &&& lookup(sent.headers, "server"@) == Some("micro-http/0.1"@)
            &&& keep_alive ==> lookup(sent.headers, "connection"@) == Some("keep-alive"@)
            &&& !keep_alive ==> lookup(sent.headers, "connection"@) == lookup(
                response.headers,
                "connection"@,
            )
            &&& forall|key: Seq<char>|
                key != "host"@ && key != "server"@ && key != "connection"@ ==> lookup(
                    sent.headers,
                    key,
                ) == lookup(response.headers, key)
            &&& sent.status_code == response.status_code
            &&& sent.content == response.content
        }),
{
    reveal_strlit("host");
    reveal_strlit("server");
    reveal_strlit("connection");
    crate::http::lemma_well_known_keys();
    assert("host"@ != "server"@) by {
        assert("host"@.len() != "server"@.len());
    }
    assert("host"@ != "connection"@) by {
        assert("host"@.len() != "connection"@.len());
    }
    assert("server"@ != "connection"@) by {
        assert("server"@.len() != "connection"@.len());
    }
    let h1 = inserted(response.headers, "host"@, host_value(host, port));
    let h2 = inserted(h1, "server"@, "micro-http/0.1"@);
    crate::string_map::lemma_inserted(response.headers, "host"@, host_value(host, port));
    crate::string_map::lemma_inserted(h1, "server"@, "micro-http/0.1"@);
    if keep_alive {
        crate::string_map::lemma_inserted(h2, "connection"@, "keep-alive"@);
    }
}

fn starts_with(text: &[char], prefix: &[char]) -> (yes: bool)
    ensures
        yes == prefix@.is_prefix_of(text@),
{
    if prefix.len() > text.len() {
        return false;
    }
    let mut i: usize = 0;
    while i < prefix.len()
        invariant
            i <= prefix@.len() <= text@.len(),
            prefix@.take(i as int) == text@.take(i as int),
        decreases prefix@.len() - i,
    {
        if prefix[i] != text[i] {
            assert(prefix@[i as int] != text@.subrange(0, prefix@.len() as int)[i as int]);
            return false;
        }
        proof {
            assert(prefix@.take(i + 1) == prefix@.take(i as int).push(prefix@[i as int]));
            assert(text@.take(i + 1) == text@.take(i as int).push(text@[i as int]));
        }
        i += 1;
    }
    proof {
        assert(prefix@.take(i as int) == prefix@);
        assert(text@.take(i as int) == text@.subrange(0, prefix@.len() as int));
    }
    true
}

/// An application: the address it serves at and its routes. The routes are
/// bound before the server runs and are only read after that.
pub struct App<H: Fn(Data) -> Data> {
    host: String,
    port: u16,
    routes: Vec<Route<H>>,
}

impl<H: Fn(Data) -> Data> App<H> {
    /// Every handler takes every request.
    #[verifier::type_invariant]
    spec fn handlers_total(&self) -> bool {
        forall|i: int, request: Data|
            0 <= i < self.routes@.len() ==> #[trigger] call_requires(
                self.routes@[i].func,
                (request,),
            )
    }

    /// The address that the application serves at.
    pub closed spec fn host(&self) -> Seq<char> {
        self.host@
    }

    /// The port that the application serves at.
    pub closed spec fn port(&self) -> u16 {
        self.port
    }

    /// The patterns of the routes, in the order in which they were bound.
    pub closed spec fn patterns(&self) -> Seq<Pattern> {
        self.routes@.map_values(|r: Route<H>| (r.url@, r.method))
    }

    /// The handlers of the routes, in the order in which they were bound.
    pub closed spec fn handlers(&self) -> Seq<H> {
        self.routes@.map_values(|r: Route<H>| r.func)
    }

    /// An application without routes.
    pub fn new(host: &str, port: u16) -> (app: App<H>)
        ensures
            app.host() == host@,
            app.port() == port,
            app.patterns() == Seq::<Pattern>::empty(),
            app.handlers() == Seq::<H>::empty(),
    {
        App { routes: Vec::new(), host: String::from_str(host), port }
    }

    /// Binds `func` to the requests of `method` whose path begins with `url`.
    pub fn bind(&mut self, url: &str, method: Method, func: H)
        requires
            forall|request: Data| call_requires(func, (request,)),
        ensures
            final(self).host() == old(self).host(),
            final(self).port() == old(self).port(),
            final(self).patterns() == old(self).patterns().push((url@, method)),
            final(self).handlers() == old(self).handlers().push(func),
    {
        proof {
            use_type_invariant(&*self);
        }
        let mut taken = App { routes: Vec::new(), host: String::new(), port: 0 };
        core::mem::swap(self, &mut taken);
        let App { host, port, routes } = taken;
        let mut routes = routes;
        routes.push(Route { url: String::from_str(url), method, func });
        assert(routes@.map_values(|r: Route<H>| (r.url@, r.method)) == old(self).patterns().push(
            (url@, method),
        ));
        assert(routes@.map_values(|r: Route<H>| r.func) == old(self).handlers().push(func));
        *self = App { host, port, routes };
    }

    /// The number of routes.
    pub fn len(&self) -> (n: usize)
        ensures
            n == self.patterns().len(),
            n == self.handlers().len(),
    {
        self.routes.len()
    }

    /// The index of the route that serves a request of `method` for `url`.
    pub fn route(&self, url: &str, method: Method) -> (found: Option<usize>)
        ensures
            match found {
                Some(i) => select(self.patterns(), url@, method) == Some(i as int),
                None => select(self.patterns(), url@, method) is None,
            },
    {
        let path = chars_of(url);
        let mut found: Option<usize> = None;
        let mut max_len: usize = 0;
        let mut i: usize = 0;
        while i < self.routes.len()
            invariant
                i <= self.routes@.len(),
                path@ == url@,
                match found {
                    Some(best) => select(self.patterns().take(i as int), url@, method) == Some(
                        best as int,
                    ) && best < i && max_len == self.patterns()[best as int].0.len(),
                    None => select(self.patterns().take(i as int), url@, method) is None
                        && max_len == 0,
                },
            decreases self.routes@.len() - i,
        {
            let route = &self.routes[i];
            proof {
                assert(self.patterns().take(i + 1).drop_last() == self.patterns().take(i as int));
                assert(self.patterns().take(i + 1).last() == (route.url@, route.method));
            }
            if route.method == method {
                let prefix = chars_of(route.url.as_str());
                if prefix.len() > max_len && starts_with(path.as_slice(), prefix.as_slice()) {
                    found = Some(i);
                    max_len = prefix.len();
                }
            }
            i += 1;
        }
        proof {
            assert(self.patterns().take(i as int) == self.patterns());
        }
        found
    }

    /// What is to answer `request`.
    pub fn decide(&self, request: &Data) -> (target: Target)
        ensures
            target == target_of(self.patterns(), request@.url, request@.method),
            target matches Target::Handler(i) ==> i < self.handlers().len(),
    {
        proof {
            lemma_select_longest(self.patterns(), request@.url, request@.method);
        }
        match request.method {
            Method::GET | Method::POST => match self.route(request.url.as_str(), request.method) {
                Some(i) => Target::Handler(i),
                None => Target::Status(StatusCode::NotFound),
            },
            _ => Target::Status(StatusCode::MethodNotAllowed),
        }
    }

    /// Adds to a response what the server adds to every response.
    pub fn finalize(&self, response: Data, keep_alive: bool) -> (sent: Data)
        ensures
            sent@ == finalized(response@, self.host(), self.port(), keep_alive),
    {
        let mut sent = response;
        let mut host = self.host.clone();
        host.append(":");
        host.append(string_of(decimal_chars(self.port as u64).as_slice()).as_str());
        sent.add_header("host", host.as_str());
        sent.add_header("server", "micro-http/0.1");
        if keep_alive {
            sent.add_header("connection", "keep-alive");
        }
        sent
    }

    /// Answers a request by the target that was chosen for it: with what the
    /// handler returns for the request, or with the bare status; in both
    /// cases with the server's own headers added.
    pub fn answer(&self, target: Target, request: Data) -> (response: Data)
        requires
            target matches Target::Handler(i) ==> i < self.handlers().len(),
        ensures
            self.answers(target, request, response),
    {
        let keep_alive = request.keep_alive();
        let answer = match target {
            Target::Handler(i) => {
                proof {
                    use_type_invariant(self);
                }
                (self.routes[i].func)(request)
            },
            Target::Status(status) => Data::from_status(status),
        };
        self.finalize(answer, keep_alive)
    }

    /// Whether `response` answers `request` by `target`: it is what the
    /// handler can return for the request, or the bare status, with the
    /// server's own headers added.
    pub open spec fn answers(&self, target: Target, request: Data, response: Data) -> bool {
        match target {
            Target::Handler(i) => exists|answer: Data|
                call_ensures(self.handlers()[i as int], (request,), answer) && response@
                    == finalized(answer@, self.host(), self.port(), keeps_alive(request@)),
            Target::Status(status) => response@ == finalized(
                DataView { status_code: status, ..DataView::fresh() },
                self.host(),
                self.port(),
                keeps_alive(request@),
            ),
        }
    }

    /// Answers a request: with 405 if its method is not supported, else with
    /// what the handler of the selected route returns for it, else with 404;
    /// in each case with the server's own headers added.
    pub fn respond(&self, request: Data) -> (response: Data)
        ensures
            self.answers(
                target_of(self.patterns(), request@.url, request@.method),
                request,
                response,
            ),
    {
        let target = self.decide(&request);
        self.answer(target, request)
    }
}

} // verus!
