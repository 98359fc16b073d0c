//! The server's table of connected clients, and the decisions its event loop
//! takes on each readiness event.
use vstd::prelude::*;

use crate::client::{datagram_queued, parsed_from, Client, ParseReport, PeerAddr};

verus! {

/// Readiness identifier of the listening TCP socket.
pub const LISTENER_TOKEN: usize = 0;

/// Readiness identifier of the UDP socket.
pub const UDP_TOKEN: usize = 1;

/// The first identifier handed to a client; those below are reserved.
pub const FIRST_CLIENT_ID: usize = 2;

/// Why a connection could not be registered.
#[derive(Debug, Clone, Copy, PartialEq, Eq, Hash, Structural)]
pub enum RegisterError {
    /// The peer's port is 0, so there is no port below it to expect
    /// datagrams from.
    NoRendezvousPort,
    /// Every identifier has been handed out.
    IdsExhausted,
}

/// Whether the clients' identifiers increase strictly along `cs`, all at
/// least the first client identifier and below `next`.
pub open spec fn ids_in_order(cs: Seq<Client>, next: nat) -> bool {
    &&& forall|i: int, j: int| 0 <= i < j < cs.len() ==> #[trigger] cs[i].id < #[trigger] cs[j].id
    &&& forall|i: int| 0 <= i < cs.len() ==> FIRST_CLIENT_ID <= #[trigger] cs[i].id < next
}

/// Where a readiness event comes from.
#[derive(Debug, Clone, Copy, PartialEq, Eq, Hash, Structural)]
pub enum Route {
    /// The listening socket: connections are waiting to be accepted.
    Listener,
    /// The UDP socket: datagrams are waiting.
    Datagram,
    /// The stream of the client with this identifier.
    Stream(usize),
}

/// The source of an event reported under readiness identifier `token`.
pub fn route(token: usize) -> (r: Route)
    ensures
        token == LISTENER_TOKEN ==> r == Route::Listener,
        token == UDP_TOKEN ==> r == Route::Datagram,
        token != LISTENER_TOKEN && token != UDP_TOKEN ==> r == Route::Stream(token),
{
    if token == LISTENER_TOKEN {
        Route::Listener
    } else if token == UDP_TOKEN {
        Route::Datagram
    } else {
        Route::Stream(token)
    }
}

/// Whether `after` is `before` with client `i` replaced by `c` and nothing
/// else changed.
pub open spec fn replaces(before: Registry, after: Registry, i: int, c: Client) -> bool {
    &&& 0 <= i < before.clients().len()
    &&& after.clients() == before.clients().update(i, c)
    &&& after.next_id() == before.next_id()
}

/// The connected clients, each under an identifier of its own.
pub struct Registry {
    clients: Vec<Client>,
    next_id: usize,
}

/// Whether `after` is `before` with one more client, for a connection from
/// `peer`, registered under `id`.
pub open spec fn registers(before: Registry, after: Registry, peer: PeerAddr, id: usize) -> bool {
    let c = after.clients().last();
    &&& after.wf()
    &&& id == before.next_id()
    &&& FIRST_CLIENT_ID <= id
    &&& after.next_id() == before.next_id() + 1
    &&& after.clients().len() == before.clients().len() + 1
    &&& after.clients().drop_last() == before.clients()
    &&& c.id == id
    &&& c.name@ == Seq::<char>::empty()
    &&& c.udp_addr == peer.spec_rendezvous()
    &&& c.udp_buf@ == Seq::<u8>::empty()
    &&& c.tcp_buf.queued() == Seq::<u8>::empty()
    &&& !c.joined
}

impl Registry {
    /// The clients, in the order they connected.
    pub closed spec fn clients(&self) -> Seq<Client> {
        self.clients@
    }

    /// The identifier that the next client will get.
    pub closed spec fn next_id(&self) -> nat {
        self.next_id as nat
    }

    /// Identifiers are unique, above the reserved ones and below the next.
    pub open spec fn wf(&self) -> bool {
        &&& FIRST_CLIENT_ID <= self.next_id() <= usize::MAX
        &&& ids_in_order(self.clients(), self.next_id())
    }

    /// Whether some client has identifier `id`.
    pub open spec fn has_id(&self, id: usize) -> bool {
        exists|i: int| 0 <= i < self.clients().len() && #[trigger] self.clients()[i].id == id
    }

    /// An empty registry; the first client will get the first identifier
    /// above the reserved ones.
    pub fn new() -> (r: Registry)
        ensures
            r.wf(),
            r.clients() == Seq::<Client>::empty(),
            r.next_id() == FIRST_CLIENT_ID,
    {
        Registry { clients: Vec::new(), next_id: FIRST_CLIENT_ID }
    }

    /// The number of connected clients.
    pub fn len(&self) -> (r: usize)
        ensures
            r == self.clients().len(),
    {
        self.clients.len()
    }

    /// Registers a client for a connection accepted from `tcp_peer`, under a
    /// fresh identifier, with an empty name.
    pub fn register(&mut self, tcp_peer: PeerAddr) -> (r: Result<usize, RegisterError>)
        requires
            old(self).wf(),
        ensures
            final(self).wf(),
            tcp_peer.port == 0 ==> r == Err::<usize, RegisterError>(
                RegisterError::NoRendezvousPort,
            ),
            tcp_peer.port != 0 && old(self).next_id() == usize::MAX ==> r == Err::<
                usize,
                RegisterError,
            >(RegisterError::IdsExhausted),
            tcp_peer.port != 0 && old(self).next_id() != usize::MAX ==> (r matches Ok(id) && registers(
                *old(self),
                *final(self),
                tcp_peer,
                id,
            )),
            r is Err ==> final(self).clients() == old(self).clients() && final(self).next_id()
                == old(self).next_id(),
    {
        if tcp_peer.port == 0 {
            return Err(RegisterError::NoRendezvousPort);
        }
        if self.next_id == usize::MAX {
            return Err(RegisterError::IdsExhausted);
        }
        let id = self.next_id;
        let c = Client::new(id, "", tcp_peer);
        proof {
            reveal_strlit("");
        }
        let ghost before = self.clients@;
        self.clients.push(c);
        self.next_id = id + 1;
        assert(self.clients@.drop_last() =~= before);
        assert(self.clients@.last().name@ =~= Seq::<char>::empty());
        assert(self.wf());
        Ok(id)
    }

    /// The position of the client with identifier `id`, if there is one.
    fn index_of(&self, id: usize) -> (r: Option<usize>)
        ensures
            r is None <==> !self.has_id(id),
            r matches Some(i) ==> i < self.clients().len() && self.clients()[i as int].id == id,
    {
        let mut i: usize = 0;
        while i < self.clients.len()
            invariant
                0 <= i <= self.clients@.len(),
                forall|j: int| 0 <= j < i ==> #[trigger] self.clients@[j].id != id,
            decreases self.clients@.len() - i,
        {
            if self.clients[i].id == id {
                return Some(i);
            }
            i = i + 1;
        }
        None
    }

    /// The client with identifier `id`, if it is connected.
    pub fn find_by_id(&self, id: usize) -> (r: Option<&Client>)
        ensures
            r is None <==> !self.has_id(id),
            r matches Some(c) ==> exists|i: int|
                0 <= i < self.clients().len() && #[trigger] self.clients()[i] == *c && c.id == id,
    {
        match self.index_of(id) {
            Some(i) => Some(&self.clients[i]),
            None => None,
        }
    }

    /// The position of the first client whose datagrams are expected from
    /// `addr`, if any.
    fn index_of_udp(&self, addr: PeerAddr) -> (r: Option<usize>)
        ensures
            r is None <==> forall|i: int|
                0 <= i < self.clients().len() ==> #[trigger] self.clients()[i].udp_addr != addr,
            r matches Some(i) ==> i < self.clients().len() && self.clients()[i as int].udp_addr
                == addr && forall|j: int|
                0 <= j < i ==> #[trigger] self.clients()[j].udp_addr != addr,
    {
        let mut i: usize = 0;
        while i < self.clients.len()
            invariant
                0 <= i <= self.clients@.len(),
                forall|j: int| 0 <= j < i ==> #[trigger] self.clients@[j].udp_addr != addr,
            decreases self.clients@.len() - i,
        {
            if self.clients[i].udp_addr == addr {
                return Some(i);
            }
            i = i + 1;
        }
        None
    }

    /// The identifier of the first client whose datagrams are expected from
    /// `addr`, if any.
    pub fn find_by_udp_addr(&self, addr: PeerAddr) -> (r: Option<usize>)
        ensures
            r is None <==> forall|i: int|
                0 <= i < self.clients().len() ==> #[trigger] self.clients()[i].udp_addr != addr,
            r matches Some(id) ==> exists|i: int|
                0 <= i < self.clients().len() && #[trigger] self.clients()[i].udp_addr == addr
                    && self.clients()[i].id == id && forall|j: int|
                    0 <= j < i ==> #[trigger] self.clients()[j].udp_addr != addr,
    {
        match self.index_of_udp(addr) {
            Some(i) => Some(self.clients[i].id),
            None => None,
        }
    }

    /// Removes the client with identifier `id`, when its connection closed
    /// or failed.
    pub fn remove(&mut self, id: usize) -> (r: Option<Client>)
        requires
            old(self).wf(),
        ensures
            final(self).wf(),
            r is None <==> !old(self).has_id(id),
            r is None ==> final(self).clients() == old(self).clients(),
            r matches Some(c) ==> exists|i: int|
                0 <= i < old(self).clients().len() && #[trigger] old(self).clients()[i] == c
                    && c.id == id && final(self).clients() == old(self).clients().remove(i),
            final(self).next_id() == old(self).next_id(),
    {
        match self.index_of(id) {
            Some(i) => {
                let ghost before = self.clients@;
                let c = self.clients.remove(i);
                assert forall|a: int, b: int| 0 <= a < b < self.clients@.len() implies
                    #[trigger] self.clients@[a].id < #[trigger] self.clients@[b].id by {
                    let a0 = if a < i { a } else { a + 1 };
                    let b0 = if b < i { b } else { b + 1 };
                    assert(self.clients@[a] == before[a0]);
                    assert(self.clients@[b] == before[b0]);
                }
                assert forall|a: int| 0 <= a < self.clients@.len() implies FIRST_CLIENT_ID
                    <= #[trigger] self.clients@[a].id < self.next_id by {
                    let a0 = if a < i { a } else { a + 1 };
                    assert(self.clients@[a] == before[a0]);
                }
                Some(c)
            },
            None => None,
        }
    }

    /// Reinserts at position `i` a client that was removed from there and
    /// kept its identifier.
    fn reinsert(&mut self, i: usize, c: Client, Ghost(before): Ghost<Seq<Client>>)
        requires
            i < before.len(),
            old(self).clients() == before.remove(i as int),
            c.id == before[i as int].id,
            FIRST_CLIENT_ID <= old(self).next_id(),
            ids_in_order(before, old(self).next_id()),
        ensures
            final(self).wf(),
            final(self).clients() == before.update(i as int, c),
            final(self).next_id() == old(self).next_id(),
    {
        self.clients.insert(i, c);
        assert(self.clients@ =~= before.update(i as int, c));
        assert forall|a: int| 0 <= a < self.clients@.len() implies #[trigger] self.clients@[a].id
            == before[a].id by {}
    }

    /// Handles bytes that arrived on the stream of client `id`: they are
    /// queued, and every frame that is complete is decoded and applied.
    /// Bytes for an identifier that is not connected change nothing.
    pub fn on_stream_bytes(&mut self, id: usize, bytes: &[u8]) -> (r: Option<ParseReport>)
        requires
            old(self).wf(),
        ensures
            final(self).wf(),
            r is None <==> !old(self).has_id(id),
            r is None ==> final(self).clients() == old(self).clients() && final(self).next_id()
                == old(self).next_id(),
            r matches Some(report) ==> exists|i: int, c: Client|
                #![trigger replaces(*old(self), *final(self), i, c)]
                replaces(*old(self), *final(self), i, c) && old(self).clients()[i].id == id
                    && parsed_from(
                    old(self).clients()[i],
                    old(self).clients()[i].tcp_buf.queued() + bytes@,
                    c,
                    report,
                ),
    {
        match self.index_of(id) {
            Some(i) => {
                let ghost before = self.clients@;
                let mut c = self.clients.remove(i);
                let report = c.receive_stream(bytes);
                self.reinsert(i, c, Ghost(before));
                assert(replaces(*old(self), *self, i as int, c));
                Some(report)
            },
            None => None,
        }
    }

    /// Handles a datagram that came from `from`: it is queued at the client
    /// whose datagrams are expected from there, whose identifier is
    /// returned. A datagram from any other address is dropped, and the
    /// registry stays as it was.
    pub fn on_datagram(&mut self, from: PeerAddr, bytes: &[u8]) -> (r: Option<usize>)
        requires
            old(self).wf(),
        ensures
            final(self).wf(),
            r is None <==> forall|i: int|
                0 <= i < old(self).clients().len() ==> #[trigger] old(self).clients()[i].udp_addr
                    != from,
            r is None ==> final(self).clients() == old(self).clients() && final(self).next_id()
                == old(self).next_id(),
            r matches Some(id) ==> exists|i: int, c: Client|
                #![trigger replaces(*old(self), *final(self), i, c)]
                replaces(*old(self), *final(self), i, c) && old(self).clients()[i].udp_addr == from
                    && (forall|j: int|
                    0 <= j < i ==> #[trigger] old(self).clients()[j].udp_addr != from)
                    && old(self).clients()[i].id == id && datagram_queued(
                    old(self).clients()[i],
                    c,
                    bytes@,
                ),
    {
        match self.index_of_udp(from) {
            Some(i) => {
                let ghost before = self.clients@;
                let mut c = self.clients.remove(i);
                c.receive_datagram(bytes);
                let id = c.id;
                self.reinsert(i, c, Ghost(before));
                assert(replaces(*old(self), *self, i as int, c));
                Some(id)
            },
            None => None,
        }
    }
}

/// Identifiers are handed out above the reserved readiness identifiers, and
/// each registration's identifier is greater than the one before it.
pub proof fn lemma_ids_increase(
    r0: Registry,
    r1: Registry,
    r2: Registry,
    peer1: PeerAddr,
    peer2: PeerAddr,
    id1: usize,
    id2: usize,
)
    requires
        registers(r0, r1, peer1, id1),
        registers(r1, r2, peer2, id2),
    ensures
        id1 != LISTENER_TOKEN,
        id1 != UDP_TOKEN,
        id2 != LISTENER_TOKEN,
        id2 != UDP_TOKEN,
        id1 < id2,
{
}

} // verus!
