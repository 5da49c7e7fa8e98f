//! The server's side of an exchange: which handler answers which request, and
//! what the answer is.
//!
//! A server is built first and run afterwards. While it is built, routes are
//! added, each address once. [`OscServer::start`] ends the building: the
//! [`RunningServer`] that it returns has the same routes and no way to change
//! them. Receiving and sending stay with the caller, who hands every outcome of
//! a receive to [`RunningServer::on_receive`] and does what it answers.

use vstd::prelude::*;
use crate::errors::{Error, SocketError};
use crate::message::{args_view, Arg, MessageView, OscMessage};
use crate::wire::{decoding, encoded};

verus! {

/// An address and the handler registered for it.
struct Route<H> {
    address: String,
    handler: H,
}

/// The mapping that a list of routes stands for.
spec fn table_of<H>(routes: Seq<Route<H>>) -> Map<Seq<char>, H>
    decreases routes.len(),
{
    if routes.len() == 0 {
        Map::empty()
    } else {
        table_of(routes.drop_last()).insert(routes.last().address@, routes.last().handler)
    }
}

/// Whether no address occurs twice among `routes`.
spec fn distinct<H>(routes: Seq<Route<H>>) -> bool {
    forall|i: int, j: int|
        0 <= i < j < routes.len() ==> (#[trigger] routes[i]).address@ != (
        #[trigger] routes[j]).address@
}

/// With distinct addresses, the mapping holds for each address the handler of
/// its route, and nothing else.
proof fn lemma_table_of<H>(routes: Seq<Route<H>>)
    requires
        distinct(routes),
    ensures
        forall|i: int|
            0 <= i < routes.len() ==> table_of(routes).dom().contains(
                (#[trigger] routes[i]).address@,
            ) && table_of(routes)[routes[i].address@] == routes[i].handler,
        forall|a: Seq<char>| #[trigger]
            table_of(routes).dom().contains(a) ==> exists|i: int|
                0 <= i < routes.len() && (#[trigger] routes[i]).address@ == a,
    decreases routes.len(),
{
    if routes.len() > 0 {
        let front = routes.drop_last();
        lemma_table_of(front);
        assert forall|i: int| 0 <= i < routes.len() implies table_of(routes).dom().contains(
            (#[trigger] routes[i]).address@,
        ) && table_of(routes)[routes[i].address@] == routes[i].handler by {
            if i < routes.len() - 1 {
                assert(front[i] == routes[i]);
            }
        }
        assert forall|a: Seq<char>| #[trigger]
            table_of(routes).dom().contains(a) implies exists|i: int|
            0 <= i < routes.len() && (#[trigger] routes[i]).address@ == a by {
            if a != routes.last().address@ {
                assert(table_of(front).dom().contains(a));
            }
        }
    }
}

/// What the caller of a running server does next.
#[derive(Debug)]
pub enum ServerAction {
    /// Nothing to send: receive the next datagram.
    Listen,
    /// Send these bytes to the sender of the datagram, then receive the next;
    /// a failure to send is not one of the server.
    Reply(Vec<u8>),
    /// Stop serving with this error.
    Stop(Error),
}

/// A server that is being built: routes can still be added.
pub struct OscServer<H: Fn(&OscMessage) -> Option<Vec<Arg>>> {
    capacity: usize,
    routes: Vec<Route<H>>,
}

impl<H: Fn(&OscMessage) -> Option<Vec<Arg>>> OscServer<H> {
    #[verifier::type_invariant]
    spec fn inv(&self) -> bool {
        &&& distinct(self.routes@)
        &&& forall|i: int, request: &OscMessage|
            0 <= i < self.routes@.len() ==> #[trigger] call_requires(
                self.routes@[i].handler,
                (request,),
            )
    }

    /// The handler registered for each address.
    pub closed spec fn table(&self) -> Map<Seq<char>, H> {
        table_of(self.routes@)
    }

    /// The length of the buffer that datagrams are received into.
    pub closed spec fn capacity(&self) -> usize {
        self.capacity
    }

    /// A server without routes that accepts datagrams of up to `capacity`
    /// bytes.
    pub fn new(capacity: usize) -> (server: Self)
        ensures
            server.table() == Map::<Seq<char>, H>::empty(),
            server.capacity() == capacity,
    {
        OscServer { capacity, routes: Vec::new() }
    }

    /// The length of the buffer that datagrams are received into.
    pub fn buffer_size(&self) -> (n: usize)
        ensures
            n == self.capacity(),
    {
        self.capacity
    }

    /// Whether a handler is registered for `uri`.
    pub fn has_route(&self, uri: &str) -> (found: bool)
        ensures
            found == self.table().dom().contains(uri@),
    {
        self.find(uri).is_some()
    }

    /// The position of the route for `uri`, if there is one.
    fn find(&self, uri: &str) -> (found: Option<usize>)
        ensures
            match found {
                Some(i) => {
                    &&& i < self.routes@.len()
                    &&& self.routes@[i as int].address@ == uri@
                    &&& self.table().dom().contains(uri@)
                    &&& self.table()[uri@] == self.routes@[i as int].handler
                },
                None => !self.table().dom().contains(uri@),
            },
    {
        proof {
            use_type_invariant(self);
        }
        let target = uri.to_string();
        let count = self.routes.len();
        let mut i: usize = 0;
        while i < count
            invariant
                i <= count,
                count == self.routes@.len(),
                target@ == uri@,
                distinct(self.routes@),
                forall|j: int| 0 <= j < i ==> (#[trigger] self.routes@[j]).address@ != uri@,
            decreases count - i,
        {
            if self.routes[i].address == target {
                proof {
                    lemma_table_of(self.routes@);
                }
                return Some(i);
            }
            i += 1;
        }
        proof {
            lemma_table_of(self.routes@);
        }
        None
    }

    /// The server with one more route: requests addressed to `uri` go to
    /// `func`.
    ///
    /// An address is registered once. Registering it again is a mistake of
    /// the caller, who can ask [`OscServer::has_route`] first.
    pub fn add_route(self, uri: &str, func: H) -> (server: Self)
        requires
            !self.table().dom().contains(uri@),
            forall|request: &OscMessage| call_requires(func, (request,)),
        ensures
            server.table() == self.table().insert(uri@, func),
            server.capacity() == self.capacity(),
    {
        proof {
            use_type_invariant(&self);
            lemma_table_of(self.routes@);
        }
        let ghost before = self.routes@;
        let capacity = self.capacity;
        let mut routes = self.routes;
        let route = Route { address: uri.to_string(), handler: func };
        routes.push(route);
        proof {
            assert(routes@.drop_last() =~= before);
            assert forall|i: int, j: int| 0 <= i < j < routes@.len() implies (
            #[trigger] routes@[i]).address@ != (#[trigger] routes@[j]).address@ by {}
        }
        OscServer { capacity, routes }
    }

    /// What the handler for the request's address answers; no handler, no
    /// answer.
    pub fn handle_request(&self, request: &OscMessage) -> (reply: Option<Vec<Arg>>)
        ensures
            if self.table().dom().contains(request.address@) {
                call_ensures(self.table()[request.address@], (request,), reply)
            } else {
                reply is None
            },
    {
        proof {
            use_type_invariant(self);
        }
        match self.find(request.address.as_str()) {
            Some(i) => (self.routes[i].handler)(request),
            None => None,
        }
    }

    /// Ends the building. The running server has the routes of this one.
    pub fn start(self) -> (running: RunningServer<H>)
        ensures
            running.table() == self.table(),
            running.capacity() == self.capacity(),
    {
        RunningServer { server: self }
    }
}

/// What a server does with a handler's answer to `request`: without an
/// answer it sends nothing; with one it sends the request's address with the
/// answer as arguments, and stops if that cannot be encoded.
pub fn reply_to(request: OscMessage, reply: Option<Vec<Arg>>) -> (action: ServerAction)
    ensures
        replies(request.address@, reply, action),
{
    match reply {
        None => ServerAction::Listen,
        Some(args) => {
            let mut response = request;
            response.args = args;
            match response.build() {
                Ok(bytes) => ServerAction::Reply(bytes),
                Err(e) => ServerAction::Stop(e),
            }
        },
    }
}

/// Whether `action` is what follows from a handler's `reply` to a request
/// for `address`.
pub open spec fn replies(address: Seq<char>, reply: Option<Vec<Arg>>, action: ServerAction) -> bool {
    match reply {
        None => action is Listen,
        Some(args) => match encoded(MessageView { address, args: args_view(args@) }) {
            Ok(datagram) => action matches ServerAction::Reply(bytes) && bytes@ == datagram,
            Err(e) => action matches ServerAction::Stop(failure) && failure@ == e,
        },
    }
}

/// A server that is serving: its routes are fixed.
pub struct RunningServer<H: Fn(&OscMessage) -> Option<Vec<Arg>>> {
    server: OscServer<H>,
}

impl<H: Fn(&OscMessage) -> Option<Vec<Arg>>> RunningServer<H> {
    /// The handler registered for each address.
    pub closed spec fn table(&self) -> Map<Seq<char>, H> {
        self.server.table()
    }

    /// The length of the buffer that datagrams are received into.
    pub closed spec fn capacity(&self) -> usize {
        self.server.capacity()
    }

    /// The length of the buffer that datagrams are received into.
    pub fn buffer_size(&self) -> (n: usize)
        ensures
            n == self.capacity(),
    {
        self.server.buffer_size()
    }

    /// Takes in the outcome of one receive and says what to do next.
    ///
    /// That no datagram was ready changes nothing. Any other failure of the
    /// transport stops the server. A datagram that does not decode is
    /// skipped, and so is a request for which no handler is registered. A
    /// request with a handler is answered as [`replies`] says.
    pub fn on_receive(&self, received: Result<&[u8], SocketError>) -> (action: ServerAction)
        ensures
            match received {
                Err(SocketError::WouldBlock) => action is Listen,
                Err(failure) => action == ServerAction::Stop(Error::Socket(failure)),
                Ok(data) => match decoding(data@) {
                    Err(_) => action is Listen,
                    Ok(message) => if self.table().dom().contains(message.address) {
                        exists|request: OscMessage, reply: Option<Vec<Arg>>|
                            {
                                &&& request@ == message
                                &&& call_ensures(
                                    self.table()[message.address],
                                    (&request,),
                                    reply,
                                )
                                &&& #[trigger] replies(request.address@, reply, action)
                            }
                    } else {
                        action is Listen
                    },
                },
            },
    {
        match received {
            Err(SocketError::WouldBlock) => ServerAction::Listen,
            Err(failure) => ServerAction::Stop(Error::Socket(failure)),
            Ok(data) => match OscMessage::parse_bytes(data) {
                Err(_) => ServerAction::Listen,
                Ok(request) => {
                    let reply = self.server.handle_request(&request);
                    reply_to(request, reply)
                },
            },
        }
    }
}

} // verus!
