//! The routing table, the builder that fills it, and the server that is
//! built: the table frozen, with its fallback, and the size of the pool.

use vstd::prelude::*;
use crate::handler::{behaviour, total, Behaviour, Handler, HandlerTrait, Outcome};
use crate::request::{Identity, Request, RequestView};

verus! {

/// What pushing onto a sequence does, for element types whose sequences
/// the solver is not told about by itself.
proof fn lemma_push<A>(s: Seq<A>, a: A)
    ensures
        s.push(a).len() == s.len() + 1,
        s.push(a)[s.len() as int] == a,
        forall|i: int| 0 <= i < s.len() ==> s.push(a)[i] == s[i],
{
}

/// What replacing one element of a sequence does.
proof fn lemma_update<A>(s: Seq<A>, at: int, a: A)
    requires
        0 <= at < s.len(),
    ensures
        s.update(at, a).len() == s.len(),
        s.update(at, a)[at] == a,
        forall|i: int| 0 <= i < s.len() && i != at ==> s.update(at, a)[i] == s[i],
{
}

/// What taking one element out of a sequence does.
proof fn lemma_remove<A>(s: Seq<A>, at: int)
    requires
        0 <= at < s.len(),
    ensures
        s.remove(at).len() == s.len() - 1,
        forall|i: int| 0 <= i < at ==> s.remove(at)[i] == s[i],
        forall|i: int| at <= i < s.len() - 1 ==> s.remove(at)[i] == s[i + 1],
{
}

/// One entry of the routing table.
struct Route {
    key: Request,
    handler: Handler,
}

/// The routing table: at most one handler for each request identity.
///
/// Its value is a map from identities to the behaviour of the handler
/// registered for each.
pub struct HandlerMap {
    routes: Vec<Route>,
}

impl View for HandlerMap {
    type V = Map<Identity, Behaviour>;

    closed spec fn view(&self) -> Map<Identity, Behaviour> {
        Map::new(
            |id: Identity| exists|i: int| self.keyed(i, id),
            |id: Identity| behaviour(&*self.routes@[self.slot(id)].handler),
        )
    }
}

impl HandlerMap {
    /// No identity stands twice, and every handler takes every request.
    #[verifier::type_invariant]
    closed spec fn inv(&self) -> bool {
        &&& forall|i: int, j: int|
            0 <= i < j < self.routes@.len() ==> self.routes@[i].key@.identity()
                != self.routes@[j].key@.identity()
        &&& forall|i: int, request: Request|
            0 <= i < self.routes@.len() ==> #[trigger] self.routes@[i].handler.accepts(request)
    }

    /// Whether the entry at `i` is the one for `id`.
    spec fn keyed(&self, i: int, id: Identity) -> bool {
        0 <= i < self.routes@.len() && self.routes@[i].key@.identity() == id
    }

    /// Where the entry for `id` stands, where there is one.
    spec fn slot(&self, id: Identity) -> int {
        choose|i: int| self.keyed(i, id)
    }

    /// A table without handlers.
    pub fn new() -> (map: HandlerMap)
        ensures
            map@ == Map::<Identity, Behaviour>::empty(),
    {
        let map = HandlerMap { routes: Vec::new() };
        assert(map@ =~= Map::<Identity, Behaviour>::empty());
        map
    }

    /// Where the key with the identity of `request` stands, if there is one.
    fn position(&self, request: &Request) -> (at: Option<usize>)
        ensures
            match at {
                Some(i) => self.keyed(i as int, request@.identity()) && self.slot(
                    request@.identity(),
                ) == i,
                None => forall|k: int| !self.keyed(k, request@.identity()),
            },
    {
        let mut i: usize = 0;
        while i < self.routes.len()
            invariant
                i <= self.routes@.len(),
                forall|k: int| 0 <= k < i ==> !self.keyed(k, request@.identity()),
            decreases self.routes@.len() - i,
        {
            if self.routes[i].key == *request {
                proof {
                    use_type_invariant(self);
                    assert(self.keyed(i as int, request@.identity()));
                    assert(self.keyed(self.slot(request@.identity()), request@.identity()));
                }
                return Some(i);
            }
            i = i + 1;
        }
        None
    }

    /// The handler registered for the identity of `request`.
    pub fn get(&self, request: &Request) -> (found: Option<&Handler>)
        ensures
            match found {
                Some(handler) => self@.contains_key(request@.identity()) && behaviour(&**handler)
                    == self@[request@.identity()] && total(&**handler),
                None => !self@.contains_key(request@.identity()),
            },
    {
        proof {
            use_type_invariant(self);
        }
        match self.position(request) {
            Some(i) => Some(&self.routes[i].handler),
            None => None,
        }
    }

    /// Registers `handler` for the identity of `key`, in place of any handler
    /// registered for it before.
    pub fn insert(self, key: Request, handler: Handler) -> (map: HandlerMap)
        requires
            total(&*handler),
        ensures
            map@ == self@.insert(key@.identity(), behaviour(&*handler)),
    {
        proof {
            use_type_invariant(&self);
        }
        let at = self.position(&key);
        let ghost before = self;
        let ghost id = key@.identity();
        let ghost added = behaviour(&*handler);
        let HandlerMap { mut routes } = self;
        let route = Route { key, handler };
        assert(behaviour(&*route.handler) == added);
        match at {
            Some(i) => {
                proof {
                    lemma_update(routes@, i as int, route);
                }
                routes[i] = route;
            },
            None => {
                proof {
                    lemma_push(routes@, route);
                }
                routes.push(route);
            },
        }
        let ghost slot: int = match at {
            Some(i) => i as int,
            None => before.routes@.len() as int,
        };
        assert(routes@[slot] == route);
        assert(forall|k: int|
            0 <= k < before.routes@.len() && k != slot ==> routes@[k] == before.routes@[k]);
        assert forall|k: int, request: Request| 0 <= k < routes@.len() implies #[trigger] routes@[k].handler.accepts(
            request,
        ) by {
            if k != slot {
                assert(before.routes@[k].handler.accepts(request));
            }
        }
        assert forall|i: int, j: int| 0 <= i < j < routes@.len() implies routes@[i].key@.identity()
            != routes@[j].key@.identity() by {
            if i != slot {
                assert(before.keyed(i, routes@[i].key@.identity()));
            }
            if j != slot {
                assert(before.keyed(j, routes@[j].key@.identity()));
            }
        }
        let map = HandlerMap { routes };
        proof {
            assert(map.keyed(slot, id));
            assert forall|other: Identity| map@.contains_key(other) <==> other == id
                || before@.contains_key(other) by {
                if map@.contains_key(other) {
                    let k = choose|k: int| map.keyed(k, other);
                    if other != id {
                        assert(before.keyed(k, other));
                    }
                }
                if before@.contains_key(other) {
                    let k = choose|k: int| before.keyed(k, other);
                    assert(map.keyed(k, other));
                }
            }
            assert(map@[id] == added) by {
                assert(map.keyed(map.slot(id), id));
            }
            assert forall|other: Identity| other != id && before@.contains_key(other) implies map@[other]
                == before@[other] by {
                let k = before.slot(other);
                assert(before.keyed(k, other));
                assert(map.keyed(k, other));
                assert(map.keyed(map.slot(other), other));
            }
            assert(map@ =~= before@.insert(id, added));
        }
        map
    }

    /// Takes out the handler registered for the identity of `key`, if
    /// there is one.
    pub fn remove(self, key: &Request) -> (taken: (HandlerMap, Option<Handler>))
        ensures
            taken.0@ == self@.remove(key@.identity()),
            match taken.1 {
                Some(handler) => self@.contains_key(key@.identity()) && behaviour(&*handler)
                    == self@[key@.identity()] && total(&*handler),
                None => !self@.contains_key(key@.identity()),
            },
    {
        proof {
            use_type_invariant(&self);
        }
        let ghost before = self;
        let ghost id = key@.identity();
        match self.position(key) {
            None => {
                assert(self@ =~= self@.remove(id));
                (self, None)
            },
            Some(i) => {
                let HandlerMap { mut routes } = self;
                proof {
                    lemma_remove(routes@, i as int);
                }
                let route = routes.remove(i);
                let ghost shift = |k: int| if k < i { k } else { k + 1 };
                assert(forall|k: int| 0 <= k < routes@.len() ==> routes@[k] == before.routes@[shift(k)]);
                assert forall|k: int, request: Request| 0 <= k < routes@.len() implies #[trigger] routes@[k].handler.accepts(
                    request,
                ) by {
                    assert(before.routes@[shift(k)].handler.accepts(request));
                }
                assert forall|k: int, j: int| 0 <= k < j < routes@.len() implies routes@[k].key@.identity()
                    != routes@[j].key@.identity() by {
                    assert(before.keyed(shift(k), routes@[k].key@.identity()));
                    assert(before.keyed(shift(j), routes@[j].key@.identity()));
                }
                let rest = HandlerMap { routes };
                proof {
                    assert forall|other: Identity| rest@.contains_key(other) <==> other != id
                        && before@.contains_key(other) by {
                        if rest@.contains_key(other) {
                            let k = choose|k: int| rest.keyed(k, other);
                            assert(before.keyed(shift(k), other));
                            assert(before.keyed(i as int, id));
                        }
                        if other != id && before@.contains_key(other) {
                            let k = choose|k: int| before.keyed(k, other);
                            if k < i {
                                assert(rest.keyed(k, other));
                            } else {
                                assert(rest.keyed(k - 1, other));
                            }
                        }
                    }
                    assert forall|other: Identity| rest@.contains_key(other) implies rest@[other]
                        == before@[other] by {
                        let k = rest.slot(other);
                        assert(rest.keyed(k, other));
                        assert(before.keyed(shift(k), other));
                        assert(before.keyed(before.slot(other), other));
                    }
                    assert(rest@ =~= before@.remove(id));
                }
                (rest, Some(route.handler))
            },
        }
    }
}

/// The behaviour that answers the requests of identity `id`: that of the
/// handler registered for it, or else that of the fallback.
pub open spec fn route(table: Map<Identity, Behaviour>, id: Identity) -> Behaviour {
    if table.contains_key(id) {
        table[id]
    } else {
        table[Identity::Unidentified]
    }
}

/// Why a server could not be built.
#[derive(Debug, Clone, Copy, PartialEq, Eq, Structural)]
pub enum BuildError {
    /// No fallback handler was registered.
    MissingErrorHandler,
    /// A fallback handler was registered already.
    DuplicateErrorHandler,
    /// A pool needs at least one worker.
    InvalidPoolSize,
}

impl BuildError {
    /// The message of this error.
    pub open spec fn message(self) -> Seq<char> {
        match self {
            BuildError::MissingErrorHandler => "No handler for 404 errors"@,
            BuildError::DuplicateErrorHandler => "Error handler already registered"@,
            BuildError::InvalidPoolSize => "Pool size must be at least 1"@,
        }
    }

    /// This error in words.
    pub fn to_string(&self) -> (text: String)
        ensures
            text@ == self.message(),
    {
        match self {
            BuildError::MissingErrorHandler => "No handler for 404 errors".to_owned(),
            BuildError::DuplicateErrorHandler => "Error handler already registered".to_owned(),
            BuildError::InvalidPoolSize => "Pool size must be at least 1".to_owned(),
        }
    }
}

/// The routing table of a running server: frozen, and with a fallback.
///
/// Its value is that of a [`HandlerMap`] in which the fallback stands
/// under [`Identity::Unidentified`].
pub struct Handlers {
    valid_handlers: HandlerMap,
    error_handler: Handler,
}

impl View for Handlers {
    type V = Map<Identity, Behaviour>;

    closed spec fn view(&self) -> Map<Identity, Behaviour> {
        self.valid_handlers@.insert(Identity::Unidentified, behaviour(&*self.error_handler))
    }
}

impl Handlers {
    /// The fallback takes every request, and stands apart from the table.
    #[verifier::type_invariant]
    closed spec fn inv(&self) -> bool {
        &&& total(&*self.error_handler)
        &&& !self.valid_handlers@.contains_key(Identity::Unidentified)
    }

    /// A frozen table always has a fallback.
    pub proof fn lemma_has_fallback(&self)
        ensures
            self@.contains_key(Identity::Unidentified),
    {
    }

    /// Answers `request` with the fallback handler.
    pub fn handle_error(&self, request: Request) -> (outcome: Outcome)
        ensures
            self@[Identity::Unidentified](request, outcome),
    {
        proof {
            use_type_invariant(self);
        }
        self.error_handler.handle(request)
    }

    /// Answers `request` with the handler registered for its identity, or
    /// with the fallback where there is none.
    pub fn dispatch(&self, request: Request) -> (outcome: Outcome)
        ensures
            route(self@, request@.identity())(request, outcome),
    {
        proof {
            use_type_invariant(self);
        }
        match self.valid_handlers.get(&request) {
            Some(handler) => handler.handle(request),
            None => self.handle_error(request),
        }
    }
}

/// Collects the handlers of a server that is yet to be built.
pub struct ServerBuilder {
    handlers: HandlerMap,
}

impl View for ServerBuilder {
    type V = Map<Identity, Behaviour>;

    closed spec fn view(&self) -> Map<Identity, Behaviour> {
        self.handlers@
    }
}

/// A server ready to run: its frozen routing table and the size of its
/// worker pool. What it does with a connection is told where connections
/// are handled, by `serve`.
pub struct Server {
    handlers: Handlers,
    pool_size: usize,
}

impl ServerBuilder {
    /// Registers `handler` for the requests with the identity of `r`, in
    /// place of any handler registered for them before.
    pub fn register_handler(self, r: Request, handler: impl HandlerTrait + 'static) -> (builder:
        ServerBuilder)
        requires
            total(&handler),
        ensures
            builder@ == self@.insert(r@.identity(), behaviour(&handler)),
    {
        let boxed: Handler = Box::new(handler);
        let handlers = self.handlers.insert(r, boxed);
        assert(handlers@ =~~= self@.insert(r@.identity(), behaviour(&handler)));
        ServerBuilder { handlers }
    }

    /// Registers the fallback handler, which answers every request that no
    /// other handler is registered for. There can be only one.
    pub fn register_error_handler(self, handler: impl HandlerTrait + 'static) -> (result: Result<
        ServerBuilder,
        BuildError,
    >)
        requires
            total(&handler),
        ensures
            match result {
                Ok(builder) => !self@.contains_key(Identity::Unidentified) && builder@
                    == self@.insert(Identity::Unidentified, behaviour(&handler)),
                Err(error) => self@.contains_key(Identity::Unidentified) && error
                    == BuildError::DuplicateErrorHandler,
            },
    {
        if self.handlers.get(&Request::Unidentified).is_some() {
            return Err(BuildError::DuplicateErrorHandler);
        }
        Ok(self.register_handler(Request::Unidentified, handler))
    }

    /// Freezes the routing table for a server with `pool_size` workers.
    pub fn finalize(self, pool_size: usize) -> (result: Result<Server, BuildError>)
        ensures
            match result {
                Ok(server) => self@.contains_key(Identity::Unidentified) && pool_size >= 1
                    && server@ == self@ && server.workers() == pool_size,
                Err(error) => if self@.contains_key(Identity::Unidentified) {
                    pool_size == 0 && error == BuildError::InvalidPoolSize
                } else {
                    error == BuildError::MissingErrorHandler
                },
            },
    {
        let (valid_handlers, fallback) = self.handlers.remove(&Request::Unidentified);
        let error_handler = match fallback {
            Some(handler) => handler,
            None => {
                return Err(BuildError::MissingErrorHandler);
            },
        };
        if pool_size == 0 {
            return Err(BuildError::InvalidPoolSize);
        }
        let handlers = Handlers { valid_handlers, error_handler };
        assert(handlers@ =~~= self@);
        Ok(Server { handlers, pool_size })
    }
}

impl View for Server {
    type V = Map<Identity, Behaviour>;

    closed spec fn view(&self) -> Map<Identity, Behaviour> {
        self.handlers@
    }
}

impl Server {
    /// The pool has a worker.
    #[verifier::type_invariant]
    closed spec fn inv(&self) -> bool {
        self.pool_size >= 1
    }

    /// The number of workers that serve connections.
    pub closed spec fn workers(&self) -> usize {
        self.pool_size
    }

    /// Starts the description of a server: no handler is registered yet.
    pub fn build() -> (builder: ServerBuilder)
        ensures
            builder@ == Map::<Identity, Behaviour>::empty(),
    {
        ServerBuilder { handlers: HandlerMap::new() }
    }

    /// The number of workers that serve connections: at least one.
    pub fn pool_size(&self) -> (size: usize)
        ensures
            size == self.workers(),
            size >= 1,
    {
        proof {
            use_type_invariant(self);
        }
        self.pool_size
    }

    /// The frozen routing table.
    pub fn handlers(&self) -> (handlers: &Handlers)
        ensures
            handlers@ == self@,
    {
        &self.handlers
    }
}

/// Two `POST`s to one path are routed alike, whatever their bodies.
pub proof fn lemma_route_ignores_body(
    table: Map<Identity, Behaviour>,
    path: Seq<char>,
    one: Seq<char>,
    other: Seq<char>,
)
    ensures
        route(table, RequestView::Post(path, one).identity()) == route(
            table,
            RequestView::Post(path, other).identity(),
        ),
{
}

/// A request that no handler is registered for is routed to the fallback.
pub proof fn lemma_route_falls_back(table: Map<Identity, Behaviour>, request: RequestView)
    requires
        !table.contains_key(request.identity()),
    ensures
        route(table, request.identity()) == table[Identity::Unidentified],
{
}

} // verus!
