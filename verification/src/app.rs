//! The route table, and what a connection is answered with.

use crate::error::Error;
use crate::request::head;
use crate::request::is_request_line;
use crate::request::lemma_method_token_is_plain;
use crate::request::lemma_request_line_spaces;
use crate::request::lemma_request_line_unique;
use crate::request::lemma_route_key_injective;
use crate::request::line_texts;
use crate::request::parse_request;
use crate::request::route_key;
use crate::request::route_key_text;
use crate::request::Method;
use crate::request::Request;
use crate::request::RequestView;
use crate::response::Response;
use crate::response::ResponseView;
use crate::status::Status;
use vstd::hash_map::StringHashMap;
use vstd::prelude::*;
use vstd::string::StrSliceExecFns;

verus! {

/// The route table: each route key with its handler.
pub type Routes<H> = StringHashMap<H>;

/// The version token of every registered route.
pub open spec fn http_version() -> Seq<char> {
    "HTTP/1.1"@
}

/// Whether `route` can be registered: it starts with a slash.
pub open spec fn is_route(route: Seq<char>) -> bool {
    route.len() > 0 && route[0] == '/'
}

/// The key under which the route of `method` and `route` is registered.
pub open spec fn registered_key(method: Method, route: Seq<char>) -> Seq<char> {
    route_key_text(method, route, http_version())
}

/// The handler that `routes` holds for `request`, if they hold one: the one
/// registered under the route key of the request.
pub open spec fn resolve<H>(routes: Map<Seq<char>, H>, request: RequestView) -> Option<H> {
    if routes.contains_key(request.route_key()) {
        Some(routes[request.route_key()])
    } else {
        None
    }
}

/// The response to a request that no route matches: status `404 Not Found`
/// and the content `Not found`.
pub open spec fn not_found() -> ResponseView {
    ResponseView::empty().with_status(Status::NotFound).with_content("Not found"@)
}

/// That `handler` can be called on every request. This holds of every
/// function and closure that is written without a `requires`.
pub open spec fn accepts_every_request<H: Fn(Request) -> Response>(handler: H) -> bool {
    forall|request: Request| call_requires(handler, (request,))
}

/// An application: the address it is to listen on and its route table. Every
/// handler in the table can be called on every request.
#[verifier::reject_recursive_types(H)]
pub struct App<T, H: Fn(Request) -> Response> {
    addr: T,
    routes: Routes<H>,
}

impl<T, H: Fn(Request) -> Response> App<T, H> {
    #[verifier::type_invariant]
    spec fn handlers_accept_every_request(self) -> bool {
        forall|key: Seq<char>| #[trigger]
            self.routes@.contains_key(key) ==> accepts_every_request(self.routes@[key])
    }

    /// The route table: each route key with its handler.
    pub closed spec fn routes(&self) -> Map<Seq<char>, H> {
        self.routes@
    }

    /// The address the application is to listen on.
    pub closed spec fn addr(&self) -> T {
        self.addr
    }

    /// An application for `addr` without routes.
    pub fn new(addr: T) -> (app: Self)
        ensures
            app.addr() == addr,
            app.routes() == Map::<Seq<char>, H>::empty(),
    {
        Self { addr, routes: StringHashMap::new() }
    }

    /// Registers `handle` for the requests of `method` for the path `route`.
    /// A route that does not start with `/` is refused and the table is left
    /// as it was. A handler registered before for the same method and path is
    /// replaced.
    pub fn add(&mut self, method: Method, route: &str, handle: H) -> (r: Result<(), Error>)
        requires
            accepts_every_request(handle),
        ensures
            final(self).addr() == old(self).addr(),
            match r {
                Ok(_) => is_route(route@) && final(self).routes() == old(self).routes().insert(
                    registered_key(method, route@),
                    handle,
                ),
                Err(e) => e == Error::InvalidRoute && !is_route(route@) && final(self).routes()
                    == old(self).routes(),
            },
    {
        proof {
            use_type_invariant(&*self);
        }
        if route.is_empty() || route.get_char(0) != '/' {
            return Err(Error::InvalidRoute);
        }
        let key = route_key(method, route, "HTTP/1.1");
        let mut routes: Routes<H> = StringHashMap::new();
        std::mem::swap(&mut self.routes, &mut routes);
        routes.insert(key, handle);
        self.routes = routes;
        Ok(())
    }

    /// The route table.
    pub fn get_routes(&self) -> (routes: &Routes<H>)
        ensures
            routes@ == self.routes(),
    {
        &self.routes
    }

    /// The address the application is to listen on.
    pub fn get_addr(&self) -> (addr: &T)
        ensures
            *addr == self.addr(),
    {
        &self.addr
    }

    /// Answers a request: with what its handler returns, where a route
    /// matches its route key exactly, and with `404 Not Found` where none
    /// does.
    pub fn dispatch(&self, request: Request) -> (response: Response)
        ensures
            match resolve(self.routes(), request@) {
                Some(handler) => call_ensures(handler, (request,), response),
                None => response@ == not_found(),
            },
    {
        proof {
            use_type_invariant(self);
        }
        match self.routes.get(request.get_route_key()) {
            Some(handler) => {
                assert(self.routes@.contains_key(request@.route_key()));
                handler(request)
            },
            None => {
                let mut response = Response::new();
                response.with_status(Status::NotFound).with_content("Not found".to_owned());
                response
            },
        }
    }

    /// Answers the lines that were read from a connection with the text to
    /// write back. Lines that carry no request are an error and get no
    /// answer. A request is answered by its handler, or with `404 Not Found`.
    pub fn handle_connection(&self, lines: &Vec<String>) -> (r: Result<String, Error>)
        ensures
            match parse_request(line_texts(lines@)) {
                Some(parsed) => r matches Ok(text) && match resolve(self.routes(), parsed) {
                    Some(handler) => exists|request: Request, response: Response|
                        request@ == parsed && call_ensures(handler, (request,), response) && text@
                            == response@.wire_text(),
                    None => text@ == not_found().wire_text(),
                },
                None => r == Err::<String, Error>(Error::MalformedRequest),
            },
    {
        match Request::new(lines) {
            Ok(request) => {
                let ghost asked = request;
                let mut response = self.dispatch(request);
                let ghost answered = response;
                let text = response.data();
                proof {
                    if let Some(handler) = resolve(self.routes(), asked@) {
                        assert(call_ensures(handler, (asked,), answered));
                    }
                }
                Ok(text)
            },
            Err(e) => Err(e),
        }
    }
}

/// A request of version `HTTP/1.1` for a registered method and path is
/// answered by the handler that was registered for them last.
pub proof fn lemma_registered_route_is_dispatched<H>(
    routes: Map<Seq<char>, H>,
    method: Method,
    route: Seq<char>,
    handler: H,
    request: RequestView,
)
    requires
        request.method == method,
        request.path == route,
        request.version == http_version(),
    ensures
        resolve(routes.insert(registered_key(method, route), handler), request) == Some(handler),
{
}

/// A request that was read from a connection has the key of the route of
/// `method` and `route` exactly if it is a request of that method for that
/// path in the version `HTTP/1.1`.
pub proof fn lemma_key_of_request_read(lines: Seq<Seq<char>>, method: Method, route: Seq<char>)
    requires
        parse_request(lines) is Some,
    ensures
        ({
            let request = parse_request(lines)->0;
            request.route_key() == registered_key(method, route) <==> (request.method == method
                && request.path == route && request.version == http_version())
        }),
{
    let request = parse_request(lines)->0;
    let line = head(lines)[0];
    if request.route_key() == registered_key(method, route) {
        assert(is_request_line(line, request.method, request.path, request.version));
        lemma_request_line_spaces(line, request.method, request.path, request.version);
        lemma_method_token_is_plain(method);
        reveal_strlit("HTTP/1.1");
        let a: int = method.token().len() as int;
        let b: int = a + 1 + route.len();
        assert(line[a] == ' ' && line[b] == ' ');
        assert(!route.contains(' ')) by {
            if route.contains(' ') {
                let k: int = choose|k: int| 0 <= k < route.len() && route[k] == ' ';
                assert(line[a + 1 + k] == ' ');
            }
        }
        assert(!http_version().contains(' ')) by {
            if http_version().contains(' ') {
                let k: int = choose|k: int|
                    0 <= k < http_version().len() && http_version()[k] == ' ';
                assert(line[b + 1 + k] == ' ');
            }
        }
        lemma_request_line_unique(
            line,
            request.method,
            request.path,
            request.version,
            method,
            route,
            http_version(),
        );
    }
}

/// Registering a route changes the answer to no request read from a
/// connection but those of its method for its path in the version `HTTP/1.1`:
/// a request reaches no handler but the one of its own route.
pub proof fn lemma_other_routes_are_untouched<H>(
    routes: Map<Seq<char>, H>,
    method: Method,
    route: Seq<char>,
    handler: H,
    lines: Seq<Seq<char>>,
)
    requires
        parse_request(lines) matches Some(request) && (request.method != method || request.path
            != route || request.version != http_version()),
    ensures
        resolve(routes.insert(registered_key(method, route), handler), parse_request(lines)->0)
            == resolve(routes, parse_request(lines)->0),
{
    lemma_key_of_request_read(lines, method, route);
}

/// A registration replaces the handler of its own method and path and of no
/// other route, whatever the paths hold.
pub proof fn lemma_registration_keeps_other_routes<H>(
    routes: Map<Seq<char>, H>,
    method: Method,
    route: Seq<char>,
    handler: H,
    other_method: Method,
    other_route: Seq<char>,
)
    requires
        other_method != method || other_route != route,
    ensures
        ({
            let after = routes.insert(registered_key(method, route), handler);
            let other = registered_key(other_method, other_route);
            &&& after.contains_key(other) == routes.contains_key(other)
            &&& routes.contains_key(other) ==> after[other] == routes[other]
        }),
{
    if registered_key(other_method, other_route) == registered_key(method, route) {
        lemma_route_key_injective(other_method, other_route, method, route, http_version());
    }
}

} // verus!
