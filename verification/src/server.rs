//! The router, which picks the handler for a request, and the steps by which a
//! connection's bytes become one request.

use crate::http::method::Method;
use crate::http::request::{Request, RequestView};
use crate::http::response::{Response, ResponseView};
use crate::http::status_code::StatusCode;
use crate::search::{find, lemma_first_occurrence, occurs_at};
use crate::static_handler::StaticHandler;
use crate::text::same_text;
use vstd::prelude::*;

verus! {

struct Route<H> {
    path: String,
    method: Method,
    handler: H,
}

/// The routing table: handlers of type `H`, each bound to one path and one
/// method, and at most one handler of static files for every other path. The
/// method and the handler of a path are one entry of the table, so a path is
/// never bound to the one without the other.
pub struct Router<H> {
    routes: Vec<Route<H>>,
    static_handler: Option<StaticHandler>,
}

/// A routing table, as a mapping: each bound path with its method and its
/// handler, and the root directory of the static handler.
pub struct RouterView<H> {
    pub routes: Map<Seq<char>, (Method, H)>,
    pub static_handler: Option<Seq<char>>,
}

/// Where a request goes: to a handler of the table, to the static handler, or
/// nowhere, and then the response is at hand.
pub enum Dispatch<'a, H> {
    Handler(&'a H),
    Static(&'a StaticHandler),
    Respond(Response),
}

/// A `Dispatch`, as what it holds.
pub enum DispatchView<H> {
    Handler(H),
    Static(Seq<char>),
    Respond(ResponseView),
}

impl<'a, H> View for Dispatch<'a, H> {
    type V = DispatchView<H>;

    open spec fn view(&self) -> DispatchView<H> {
        match self {
            Dispatch::Handler(handler) => DispatchView::Handler(**handler),
            Dispatch::Static(handler) => DispatchView::Static(handler@),
            Dispatch::Respond(response) => DispatchView::Respond(response@),
        }
    }
}

impl<H> RouterView<H> {
    /// Where a request for `path` with `method` goes. A bound path decides
    /// alone: with another method the request is refused, and the static
    /// handler is not asked. A path that is not bound goes to the static
    /// handler, and is not found where there is none.
    pub open spec fn dispatch(self, path: Seq<char>, method: Method) -> DispatchView<H> {
        if self.routes.contains_key(path) {
            if self.routes[path].0 == method {
                DispatchView::Handler(self.routes[path].1)
            } else {
                DispatchView::Respond(
                    ResponseView { status_code: StatusCode::MethodNotAllowed, body: None },
                )
            }
        } else {
            match self.static_handler {
                Some(root) => DispatchView::Static(root),
                None => DispatchView::Respond(
                    ResponseView { status_code: StatusCode::NotFound, body: None },
                ),
            }
        }
    }
}

spec fn distinct_paths<H>(routes: Seq<Route<H>>) -> bool {
    forall|i: int, j: int| 0 <= i < j < routes.len() ==> routes[i].path@ != routes[j].path@
}

spec fn has_path<H>(routes: Seq<Route<H>>, path: Seq<char>) -> bool {
    exists|i: int| 0 <= i < routes.len() && #[trigger] routes[i].path@ == path
}

spec fn route_of<H>(routes: Seq<Route<H>>, path: Seq<char>) -> Route<H> {
    routes[choose|i: int| 0 <= i < routes.len() && #[trigger] routes[i].path@ == path]
}

spec fn table<H>(routes: Seq<Route<H>>) -> Map<Seq<char>, (Method, H)> {
    Map::new(
        |path: Seq<char>| has_path(routes, path),
        |path: Seq<char>| (route_of(routes, path).method, route_of(routes, path).handler),
    )
}

impl<H> View for Router<H> {
    type V = RouterView<H>;

    closed spec fn view(&self) -> RouterView<H> {
        RouterView {
            routes: table(self.routes@),
            static_handler: match self.static_handler {
                Some(handler) => Some(handler@),
                None => None,
            },
        }
    }
}

/// The index of the route for `path`.
fn position<H>(routes: &Vec<Route<H>>, path: &str) -> (r: Option<usize>)
    ensures
        match r {
            Some(i) => i < routes@.len() && routes@[i as int].path@ == path@,
            None => !has_path(routes@, path@),
        },
{
    let mut i: usize = 0;
    while i < routes.len()
        invariant
            0 <= i <= routes@.len(),
            forall|j: int| 0 <= j < i ==> routes@[j].path@ != path@,
        decreases routes@.len() - i,
    {
        if same_text(routes[i].path.as_str(), path) {
            return Some(i);
        }
        i += 1;
    }
    None
}

proof fn lemma_route_at<H>(routes: Seq<Route<H>>, i: int)
    requires
        distinct_paths(routes),
        0 <= i < routes.len(),
    ensures
        has_path(routes, routes[i].path@),
        route_of(routes, routes[i].path@) == routes[i],
{
    let path = routes[i].path@;
    assert(has_path(routes, path));
    let j = choose|j: int| 0 <= j < routes.len() && #[trigger] routes[j].path@ == path;
    assert(j == i);
}

/// Takes the route for `path` out of the table, if there is one.
fn unbind<H>(routes: &mut Vec<Route<H>>, path: &str)
    requires
        distinct_paths(old(routes)@),
    ensures
        distinct_paths(final(routes)@),
        table(final(routes)@) == table(old(routes)@).remove(path@),
{
    let ghost before = routes@;
    match position(routes, path) {
        Some(i) => {
            let _ = routes.remove(i);
            proof {
                let after = routes@;
                assert forall|j: int| 0 <= j < after.len() implies #[trigger] after[j] == before[if j
                    < i {
                    j
                } else {
                    j + 1
                }] by {}
                assert forall|other: Seq<char>| has_path(after, other) <==> (other != path@
                    && has_path(before, other)) by {
                    if has_path(after, other) {
                        let j = choose|j: int|
                            0 <= j < after.len() && #[trigger] after[j].path@ == other;
                        let k = if j < i {
                            j
                        } else {
                            j + 1
                        };
                        assert(before[k].path@ == other);
                    }
                    if other != path@ && has_path(before, other) {
                        let k = choose|k: int|
                            0 <= k < before.len() && #[trigger] before[k].path@ == other;
                        let j = if k < i {
                            k
                        } else {
                            k - 1
                        };
                        assert(after[j].path@ == other);
                    }
                }
                assert forall|other: Seq<char>| has_path(after, other) implies route_of(
                    after,
                    other,
                ) == route_of(before, other) by {
                    let j = choose|j: int|
                        0 <= j < after.len() && #[trigger] after[j].path@ == other;
                    let k = if j < i {
                        j
                    } else {
                        j + 1
                    };
                    lemma_route_at(before, k);
                }
                assert(table(after) =~= table(before).remove(path@));
            }
        },
        None => {
            proof {
                assert(table(before) =~= table(before).remove(path@));
            }
        },
    }
}

/// Binds `path` to a method and a handler, in place of what it was bound to.
fn bind<H>(routes: &mut Vec<Route<H>>, path: &str, method: Method, handler: H)
    requires
        distinct_paths(old(routes)@),
    ensures
        distinct_paths(final(routes)@),
        table(final(routes)@) == table(old(routes)@).insert(path@, (method, handler)),
{
    let ghost start = routes@;
    unbind(routes, path);
    let ghost before = routes@;
    routes.push(Route { path: path.to_owned(), method, handler });
    proof {
        let after = routes@;
        let last = before.len() as int;
        assert(!has_path(before, path@)) by {
            assert(!table(before).contains_key(path@));
        }
        assert(distinct_paths(after)) by {
            assert forall|i: int, j: int| 0 <= i < j < after.len() implies after[i].path@
                != after[j].path@ by {
                if j == last {
                    assert(before[i].path@ == after[i].path@);
                }
            }
        }
        assert forall|other: Seq<char>| has_path(after, other) <==> (other == path@ || has_path(
            before,
            other,
        )) by {
            if has_path(after, other) {
                let j = choose|j: int| 0 <= j < after.len() && #[trigger] after[j].path@ == other;
                if j < last {
                    assert(before[j].path@ == other);
                }
            }
            if has_path(before, other) {
                let j = choose|j: int|
                    0 <= j < before.len() && #[trigger] before[j].path@ == other;
                assert(after[j].path@ == other);
            }
            if other == path@ {
                assert(after[last].path@ == other);
            }
        }
        assert forall|other: Seq<char>| has_path(after, other) implies (route_of(
            after,
            other,
        ).method, route_of(after, other).handler) == (if other == path@ {
            (method, handler)
        } else {
            (route_of(before, other).method, route_of(before, other).handler)
        }) by {
            if other == path@ {
                lemma_route_at(after, last);
            } else {
                let j = choose|j: int|
                    0 <= j < before.len() && #[trigger] before[j].path@ == other;
                lemma_route_at(before, j);
                lemma_route_at(after, j);
            }
        }
        assert(table(after) =~= table(before).insert(path@, (method, handler)));
        assert(table(before).insert(path@, (method, handler)) =~= table(start).insert(
            path@,
            (method, handler),
        ));
    }
}

impl<H> Router<H> {
    #[verifier::type_invariant]
    spec fn well_formed(self) -> bool {
        distinct_paths(self.routes@)
    }

    /// A table without routes and without a static handler.
    pub fn new() -> (router: Router<H>)
        ensures
            router@ == (RouterView::<H> { routes: Map::empty(), static_handler: None }),
    {
        let router = Router { routes: Vec::new(), static_handler: None };
        proof {
            assert(table(router.routes@) =~= Map::empty());
        }
        router
    }

    /// Sets the handler of static files, with `public_path` as its root.
    pub fn set_static_handler(&mut self, public_path: String)
        ensures
            final(self)@ == (RouterView {
                routes: old(self)@.routes,
                static_handler: Some(public_path@),
            }),
    {
        proof {
            use_type_invariant(&*self);
        }
        self.static_handler = Some(StaticHandler::new(public_path));
    }

    /// Binds `route` to `method` and `handler`. A path has one binding: what
    /// `route` was bound to before is dropped.
    pub fn add_route(&mut self, route: &str, method: Method, handler: H)
        ensures
            final(self)@ == (RouterView {
                routes: old(self)@.routes.insert(route@, (method, handler)),
                static_handler: old(self)@.static_handler,
            }),
    {
        proof {
            use_type_invariant(&*self);
        }
        let mut routes: Vec<Route<H>> = Vec::new();
        core::mem::swap(&mut self.routes, &mut routes);
        bind(&mut routes, route, method, handler);
        core::mem::swap(&mut self.routes, &mut routes);
    }

    /// Drops the binding of `route`, if it has one.
    pub fn remove_route(&mut self, route: &str)
        ensures
            final(self)@ == (RouterView {
                routes: old(self)@.routes.remove(route@),
                static_handler: old(self)@.static_handler,
            }),
    {
        proof {
            use_type_invariant(&*self);
        }
        let mut routes: Vec<Route<H>> = Vec::new();
        core::mem::swap(&mut self.routes, &mut routes);
        unbind(&mut routes, route);
        core::mem::swap(&mut self.routes, &mut routes);
    }

    /// Decides where a request goes, by its path and its method alone. The
    /// table is only read.
    pub fn handle_request<'a>(&'a self, request: &Request) -> (r: Dispatch<'a, H>)
        ensures
            r@ == self@.dispatch(request@.path, request@.method),
    {
        proof {
            use_type_invariant(self);
        }
        match position(&self.routes, request.path()) {
            Some(i) => {
                proof {
                    lemma_route_at(self.routes@, i as int);
                }
                let route = &self.routes[i];
                if route.method == *request.method() {
                    Dispatch::Handler(&route.handler)
                } else {
                    Dispatch::Respond(Response::new(StatusCode::MethodNotAllowed, None))
                }
            },
            None => match &self.static_handler {
                Some(handler) => Dispatch::Static(handler),
                None => Dispatch::Respond(Response::new(StatusCode::NotFound, None)),
            },
        }
    }
}

/// Two dispatches of one request against one table agree, whatever else the
/// two requests hold: the outcome is a function of the table, the path and the
/// method.
pub proof fn lemma_dispatch_idempotent<H>(
    table: RouterView<H>,
    request: RequestView,
    again: RequestView,
    first: DispatchView<H>,
    second: DispatchView<H>,
)
    requires
        again.path == request.path,
        again.method == request.method,
        first == table.dispatch(request.path, request.method),
        second == table.dispatch(again.path, again.method),
    ensures
        first == second,
{
}

/// A table with one binding sends a request for the bound path to its handler
/// where the method is the bound one, and refuses it where the method is
/// another; a request for any other path goes to the static handler, and is
/// not found where there is none.
pub proof fn lemma_one_binding<H>(
    table: RouterView<H>,
    path: Seq<char>,
    method: Method,
    handler: H,
    other_path: Seq<char>,
    other_method: Method,
)
    requires
        table.routes == Map::<Seq<char>, (Method, H)>::empty().insert(path, (method, handler)),
    ensures
        table.dispatch(path, method) == DispatchView::Handler(handler),
        other_method != method ==> table.dispatch(path, other_method) == DispatchView::<
            H,
        >::Respond(ResponseView { status_code: StatusCode::MethodNotAllowed, body: None }),
        other_path != path ==> table.dispatch(other_path, other_method) == match table.static_handler {
            Some(root) => DispatchView::<H>::Static(root),
            None => DispatchView::<H>::Respond(
                ResponseView { status_code: StatusCode::NotFound, body: None },
            ),
        },
{
}

/// The bytes that end the header block of a request: an empty line after a
/// line end.
pub open spec fn end_of_headers() -> Seq<u8> {
    seq![0x0du8, 0x0au8, 0x0du8, 0x0au8]
}

/// Whether `bytes` hold the end of a header block.
pub open spec fn is_complete(bytes: Seq<u8>) -> bool {
    exists|i: int| occurs_at(bytes, end_of_headers(), i)
}

/// Whether the bytes read so far hold a whole request, up to the end of its
/// header block.
pub fn is_end_of_request(buffer: &[u8]) -> (r: bool)
    ensures
        r == is_complete(buffer@),
{
    let mark: [u8; 4] = [0x0d, 0x0a, 0x0d, 0x0a];
    proof {
        assert(mark@ =~= end_of_headers());
        lemma_first_occurrence(buffer@, end_of_headers());
    }
    find(buffer, mark.as_slice()).is_some()
}

/// One step of reading a request: takes in what a read returned and says
/// whether to stop reading, which is after an empty read and once the end of
/// the header block is there.
pub fn receive(buffer: &mut Vec<u8>, chunk: &[u8]) -> (done: bool)
    ensures
        final(buffer)@ == old(buffer)@ + chunk@,
        done == (chunk@.len() == 0 || is_complete(final(buffer)@)),
{
    if chunk.len() == 0 {
        proof {
            assert(buffer@ + chunk@ =~= buffer@);
        }
        return true;
    }
    buffer.extend_from_slice(chunk);
    proof {
        assert(buffer@ =~= old(buffer)@ + chunk@);
    }
    is_end_of_request(buffer.as_slice())
}

} // verus!
