use vstd::prelude::*;
use std::collections::HashMap;
use crate::book::Book;

verus! {

broadcast use vstd::std_specs::hash::group_hash_axioms;

/// How long a client may stay silent before it is dropped, in nanoseconds.
pub const CLIENT_TIMEOUT_NANOS: u128 = 10_000_000_000;

/// What a connection does on a heartbeat tick.
#[derive(Clone, Copy, Debug, PartialEq, Eq, Structural)]
pub enum HeartbeatAction {
    /// The client has been silent too long: stop the connection.
    Disconnect,
    /// Send the client a ping.
    Ping,
}

/// The heartbeat decision, given how long ago the client was last heard from:
/// strictly more than `CLIENT_TIMEOUT_NANOS` disconnects, anything else pings.
pub fn heartbeat_action(elapsed_nanos: u128) -> (a: HeartbeatAction)
    ensures
        a == (if elapsed_nanos > CLIENT_TIMEOUT_NANOS {
            HeartbeatAction::Disconnect
        } else {
            HeartbeatAction::Ping
        }),
{
    if elapsed_nanos > CLIENT_TIMEOUT_NANOS {
        HeartbeatAction::Disconnect
    } else {
        HeartbeatAction::Ping
    }
}

/// A session id drawn from the thread-local generator of `rand`.
/// `rand::random::<usize>()` draws a uniformly random `usize` from the
/// thread-local generator; nothing is stated of the value it returns.
#[verifier::external_body]
fn random_session_id() -> usize {
    rand::random::<usize>()
}

/// The server behind the client connections: the order book and the
/// connected sessions, each under a randomly drawn id with the address `R`
/// that reaches it.
pub struct Server<R> {
    book: Book,
    sessions: HashMap<usize, R>,
}

impl<R> Server<R> {
    /// The sessions, by id.
    pub closed spec fn sessions(&self) -> Map<usize, R> {
        self.sessions@
    }

    /// The order book the server holds.
    pub closed spec fn book(&self) -> Book {
        self.book
    }

    /// A server with an empty book and no sessions.
    pub fn new() -> (s: Self)
        ensures
            s.sessions() == Map::<usize, R>::empty(),
            s.book().wf(),
            s.book()@.buys.len() == 0,
            s.book()@.sells.len() == 0,
            s.book()@.buffered_buys.len() == 0,
            s.book()@.buffered_sells.len() == 0,
    {
        Server { book: Book::new(), sessions: HashMap::new() }
    }

    /// Registers a client under a freshly drawn id, which it returns. Should
    /// the drawn id already be in use, the smallest id not in use is taken
    /// instead, so no connected client is ever displaced.
    pub fn connect(&mut self, addr: R) -> (id: usize)
        ensures
            !old(self).sessions().contains_key(id),
            final(self).sessions() == old(self).sessions().insert(id, addr),
            old(self).sessions().submap_of(final(self).sessions()),
            final(self).book() == old(self).book(),
    {
        let mut id = random_session_id();
        if self.sessions.contains_key(&id) {
            let count = self.sessions.len();
            let ghost dom = self.sessions@.dom();
            proof {
                assert(dom.finite());
                assert(dom.len() == count);
            }
            let mut k: usize = 0;
            let ghost mut seen: Set<usize> = Set::empty();
            while self.sessions.contains_key(&k)
                invariant
                    dom == self.sessions@.dom(),
                    dom.finite(),
                    dom.len() == count,
                    seen.finite(),
                    seen.len() == k,
                    forall|x: usize| #[trigger] seen.contains(x) <==> x < k,
                    seen.subset_of(dom),
                decreases count - k,
            {
                proof {
                    assert(!seen.contains(k));
                    seen = seen.insert(k);
                    vstd::set_lib::lemma_len_subset(seen, dom);
                }
                k = k + 1;
            }
            id = k;
        }
        self.sessions.insert(id, addr);
        id
    }

    /// Forgets the client registered under `id`, if any.
    pub fn disconnect(&mut self, id: usize)
        ensures
            final(self).sessions() == old(self).sessions().remove(id),
            final(self).book() == old(self).book(),
    {
        self.sessions.remove(&id);
    }
}

} // verus!
