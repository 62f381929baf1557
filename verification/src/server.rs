use vstd::prelude::*;

use crate::packet::{PeerAddr, RtcPacket};

verus! {

/// The map that a list of entries stands for: a later entry for an address
/// overrides an earlier one.
pub open spec fn entries_map<S>(entries: Seq<(PeerAddr, S)>) -> Map<PeerAddr, S>
    decreases entries.len(),
{
    if entries.len() == 0 {
        Map::empty()
    } else {
        let last = entries.last();
        entries_map(entries.drop_last()).insert(last.0, last.1)
    }
}

/// No address occurs twice among the entries.
pub open spec fn distinct_addrs<S>(entries: Seq<(PeerAddr, S)>) -> bool {
    forall|i: int, j: int|
        0 <= i < entries.len() && 0 <= j < entries.len() && i != j ==> #[trigger] entries[i].0
            != #[trigger] entries[j].0
}

proof fn lemma_entries_map_absent<S>(entries: Seq<(PeerAddr, S)>, addr: PeerAddr)
    requires
        forall|i: int| 0 <= i < entries.len() ==> (#[trigger] entries[i]).0 != addr,
    ensures
        !entries_map(entries).contains_key(addr),
    decreases entries.len(),
{
    if entries.len() > 0 {
        let shorter = entries.drop_last();
        assert forall|i: int| 0 <= i < shorter.len() implies (#[trigger] shorter[i]).0 != addr by {
            assert(shorter[i] == entries[i]);
        }
        lemma_entries_map_absent(shorter, addr);
    }
}

proof fn lemma_entries_map_at<S>(entries: Seq<(PeerAddr, S)>, k: int)
    requires
        distinct_addrs(entries),
        0 <= k < entries.len(),
    ensures
        entries_map(entries).contains_key(entries[k].0),
        entries_map(entries)[entries[k].0] == entries[k].1,
    decreases entries.len(),
{
    let shorter = entries.drop_last();
    if k < entries.len() - 1 {
        assert(shorter[k] == entries[k]);
        assert(distinct_addrs(shorter)) by {
            assert forall|i: int, j: int|
                0 <= i < shorter.len() && 0 <= j < shorter.len() && i != j implies #[trigger] shorter[i].0
                != #[trigger] shorter[j].0 by {
                assert(shorter[i] == entries[i]);
                assert(shorter[j] == entries[j]);
            }
        }
        lemma_entries_map_at(shorter, k);
        assert(entries[k].0 != entries.last().0);
    }
}

proof fn lemma_entries_map_push<S>(entries: Seq<(PeerAddr, S)>, addr: PeerAddr, s: S)
    ensures
        entries_map(entries.push((addr, s))) == entries_map(entries).insert(addr, s),
{
    assert(entries.push((addr, s)).drop_last() =~= entries);
}

proof fn lemma_entries_map_remove<S>(entries: Seq<(PeerAddr, S)>, k: int)
    requires
        distinct_addrs(entries),
        0 <= k < entries.len(),
    ensures
        entries_map(entries.remove(k)) == entries_map(entries).remove(entries[k].0),
        distinct_addrs(entries.remove(k)),
    decreases entries.len(),
{
    let rest = entries.remove(k);
    assert(distinct_addrs(rest)) by {
        assert forall|i: int, j: int|
            0 <= i < rest.len() && 0 <= j < rest.len() && i != j implies #[trigger] rest[i].0
            != #[trigger] rest[j].0 by {
            let a = if i < k { i } else { i + 1 };
            let b = if j < k { j } else { j + 1 };
            assert(rest[i] == entries[a]);
            assert(rest[j] == entries[b]);
        }
    }
    let shorter = entries.drop_last();
    if k == entries.len() - 1 {
        assert(rest =~= shorter);
        assert forall|i: int| 0 <= i < shorter.len() implies (#[trigger] shorter[i]).0
            != entries[k].0 by {
            assert(shorter[i] == entries[i]);
        }
        lemma_entries_map_absent(shorter, entries[k].0);
        assert(entries_map(entries).remove(entries[k].0) =~= entries_map(shorter));
    } else {
        assert(distinct_addrs(shorter)) by {
            assert forall|i: int, j: int|
                0 <= i < shorter.len() && 0 <= j < shorter.len() && i != j implies #[trigger] shorter[i].0
                != #[trigger] shorter[j].0 by {
                assert(shorter[i] == entries[i]);
                assert(shorter[j] == entries[j]);
            }
        }
        assert(shorter[k] == entries[k]);
        lemma_entries_map_remove(shorter, k);
        assert(rest.drop_last() =~= shorter.remove(k));
        assert(rest.last() == entries.last());
        assert(entries.last().0 != entries[k].0);
        assert(entries_map(rest) =~= entries_map(entries).remove(entries[k].0));
    }
}

/// The sessions of a server, one for each remote address: an established
/// peer, or the error that ended its establishment.
pub struct SessionTable<P, E> {
    entries: Vec<(PeerAddr, Result<P, E>)>,
}

impl<P, E> View for SessionTable<P, E> {
    type V = Map<PeerAddr, Result<P, E>>;

    closed spec fn view(&self) -> Map<PeerAddr, Result<P, E>> {
        entries_map(self.entries@)
    }
}

impl<P, E> SessionTable<P, E> {
    #[verifier::type_invariant]
    closed spec fn inv(self) -> bool {
        distinct_addrs(self.entries@)
    }

    /// A table without sessions.
    pub fn new() -> (table: Self)
        ensures
            table@ == Map::<PeerAddr, Result<P, E>>::empty(),
    {
        SessionTable { entries: Vec::new() }
    }

    fn find(&self, addr: PeerAddr) -> (index: Option<usize>)
        ensures
            match index {
                Some(k) => k < self.entries@.len() && self.entries@[k as int].0 == addr,
                None => forall|i: int|
                    0 <= i < self.entries@.len() ==> (#[trigger] self.entries@[i]).0 != addr,
            },
    {
        let mut i: usize = 0;
        while i < self.entries.len()
            invariant
                i <= self.entries@.len(),
                forall|j: int| 0 <= j < i ==> (#[trigger] self.entries@[j]).0 != addr,
            decreases self.entries@.len() - i,
        {
            if self.entries[i].0 == addr {
                return Some(i);
            }
            i = i + 1;
        }
        None
    }

    /// The session held for a remote address, if any.
    pub fn get(&self, addr: PeerAddr) -> (session: Option<&Result<P, E>>)
        ensures
            session is Some <==> self@.contains_key(addr),
            session is Some ==> *session->Some_0 == self@[addr],
    {
        proof {
            use_type_invariant(self);
        }
        match self.find(addr) {
            Some(k) => {
                proof {
                    lemma_entries_map_at(self.entries@, k as int);
                }
                Some(&self.entries[k].1)
            },
            None => {
                proof {
                    lemma_entries_map_absent(self.entries@, addr);
                }
                None
            },
        }
    }

    /// Records the session for a remote address, replacing the one held
    /// before, which it hands back.
    pub fn insert(&mut self, addr: PeerAddr, session: Result<P, E>) -> (previous: Option<
        Result<P, E>,
    >)
        ensures
            final(self)@ == old(self)@.insert(addr, session),
            previous is Some <==> old(self)@.contains_key(addr),
            previous is Some ==> previous->Some_0 == old(self)@[addr],
    {
        proof {
            use_type_invariant(&*self);
        }
        let ghost before = self.entries@;
        let found = self.find(addr);
        let mut entries: Vec<(PeerAddr, Result<P, E>)> = Vec::new();
        std::mem::swap(&mut entries, &mut self.entries);
        let previous = match found {
            Some(k) => {
                proof {
                    lemma_entries_map_at(before, k as int);
                    lemma_entries_map_remove(before, k as int);
                }
                let (_, old_session) = entries.remove(k);
                Some(old_session)
            },
            None => {
                proof {
                    lemma_entries_map_absent(before, addr);
                }
                None
            },
        };
        let ghost middle = entries@;
        proof {
            assert forall|i: int| 0 <= i < middle.len() implies (#[trigger] middle[i]).0 != addr by {
                if let Some(k) = found {
                    let source = if i < k { i } else { i + 1 };
                    assert(middle[i] == before[source]);
                    assert(before[k as int].0 == addr);
                } else {
                    assert(middle[i] == before[i]);
                }
            }
            lemma_entries_map_push(middle, addr, session);
            assert(entries_map(middle).insert(addr, session) =~= entries_map(before).insert(
                addr,
                session,
            ));
        }
        entries.push((addr, session));
        proof {
            let after = entries@;
            assert(after =~= middle.push((addr, session)));
            assert(distinct_addrs(after)) by {
                assert forall|i: int, j: int|
                    0 <= i < after.len() && 0 <= j < after.len() && i != j implies #[trigger] after[i].0
                    != #[trigger] after[j].0 by {
                    if i < middle.len() {
                        assert(after[i] == middle[i]);
                    }
                    if j < middle.len() {
                        assert(after[j] == middle[j]);
                    }
                }
            }
        }
        self.entries = entries;
        previous
    }
}


/// Where an outgoing packet goes, as the session table decides it.
pub enum SendRoute<'a, P, E> {
    /// No session is held for the address.
    Missing(PeerAddr),
    /// The session for the address failed with this error.
    Failed(&'a E),
    /// A binary packet goes out on this peer's data channel.
    Binary(&'a P),
    /// A text packet for this peer, which the server does not send.
    Text(&'a P),
}

/// What the server's event loop woke up for.
pub enum ServerEvent<O, P, E> {
    /// A remote offer arrived on the signaling channel.
    IncomingOffer(O),
    /// A session finished establishing, or failed to.
    NewlyEstablished(Result<P, E>),
    /// A packet is waiting in the incoming queue.
    IncomingPacket,
    /// The periodic timer fired.
    PeriodicTimer,
}

/// What the server's event loop does about an event.
#[derive(Debug)]
pub enum ServerAction<O, E> {
    /// Accept the offer and send the answer back on the signaling channel.
    AnswerOffer(O),
    /// The peer now holds the session for `addr`; `replaced` tells that an
    /// earlier session for the same address was dropped.
    Registered { addr: PeerAddr, replaced: bool },
    /// Establishing a session failed; the error is reported and dropped.
    EstablishFailed(E),
    /// Nothing to do: a waiting packet is left for the receiver, and the
    /// timer has no work.
    Idle,
}

impl<P, E> SessionTable<P, E> {
    /// Decides how a packet for `addr` is sent: to the peer that holds the
    /// session for it, as binary unless `is_string`; or not at all, where no
    /// session is held or the one held failed.
    pub fn route_send(&self, addr: PeerAddr, is_string: bool) -> (route: SendRoute<'_, P, E>)
        ensures
            !self@.contains_key(addr) <==> route == SendRoute::<P, E>::Missing(addr),
            self@.contains_key(addr) ==> match self@[addr] {
                Ok(peer) => if is_string {
                    route == SendRoute::<P, E>::Text(&peer)
                } else {
                    route == SendRoute::<P, E>::Binary(&peer)
                },
                Err(e) => route == SendRoute::<P, E>::Failed(&e),
            },
    {
        match self.get(addr) {
            None => SendRoute::Missing(addr),
            Some(Err(e)) => SendRoute::Failed(e),
            Some(Ok(peer)) => if is_string {
                SendRoute::Text(peer)
            } else {
                SendRoute::Binary(peer)
            },
        }
    }
}

/// An established peer: the address ICE nominated for it, its connection
/// and its data channel.
pub struct RtcPeer<C, D> {
    pub remote_addr: PeerAddr,
    pub connection: C,
    pub channel: D,
}

/// Every session held is an established peer, under its own remote address.
pub open spec fn peers_at_own_addr<C, D, E>(sessions: Map<PeerAddr, Result<RtcPeer<C, D>, E>>) -> bool {
    forall|addr: PeerAddr|
        #[trigger] sessions.contains_key(addr) ==> sessions[addr] is Ok && sessions[addr]->Ok_0.remote_addr
            == addr
}

impl<C, D, E> SessionTable<RtcPeer<C, D>, E> {
    /// Applies one event of the server's loop to the table of sessions and
    /// says what is left to do: an established peer takes the session for its
    /// remote address; everything else leaves the table as it was. Sessions
    /// are only added or replaced, never removed, and only established peers
    /// are stored, each under its own address.
    pub fn process_event<O>(&mut self, event: ServerEvent<O, RtcPeer<C, D>, E>) -> (action:
        ServerAction<O, E>)
        ensures
            match event {
                ServerEvent::IncomingOffer(offer) => final(self)@ == old(self)@ && action
                    == ServerAction::<O, E>::AnswerOffer(offer),
                ServerEvent::NewlyEstablished(Ok(peer)) => final(self)@ == old(self)@.insert(
                    peer.remote_addr,
                    Ok(peer),
                ) && action == ServerAction::<O, E>::Registered {
                    addr: peer.remote_addr,
                    replaced: old(self)@.contains_key(peer.remote_addr),
                },
                ServerEvent::NewlyEstablished(Err(e)) => final(self)@ == old(self)@ && action
                    == ServerAction::<O, E>::EstablishFailed(e),
                _ => final(self)@ == old(self)@ && action == ServerAction::<O, E>::Idle,
            },
            old(self)@.dom().subset_of(final(self)@.dom()),
            peers_at_own_addr(old(self)@) ==> peers_at_own_addr(final(self)@),
    {
        match event {
            ServerEvent::IncomingOffer(offer) => ServerAction::AnswerOffer(offer),
            ServerEvent::NewlyEstablished(Ok(peer)) => {
                let addr = peer.remote_addr;
                let previous = self.insert(addr, Ok(peer));
                ServerAction::Registered { addr, replaced: previous.is_some() }
            },
            ServerEvent::NewlyEstablished(Err(e)) => ServerAction::EstablishFailed(e),
            ServerEvent::IncomingPacket => ServerAction::Idle,
            ServerEvent::PeriodicTimer => ServerAction::Idle,
        }
    }
}

/// Once a peer is established for an address, the table routes every
/// binary packet for that address to that peer.
pub proof fn lemma_established_peer_routes<P, E>(
    sessions: Map<PeerAddr, Result<P, E>>,
    addr: PeerAddr,
    peer: P,
)
    ensures
        sessions.insert(addr, Ok(peer)).contains_key(addr),
        sessions.insert(addr, Ok(peer))[addr] == Ok::<P, E>(peer),
{
}

/// Establishing a peer for one address leaves the session of every other
/// address as it was, held or not.
pub proof fn lemma_established_peer_keeps_others<P, E>(
    sessions: Map<PeerAddr, Result<P, E>>,
    addr: PeerAddr,
    peer: P,
    other: PeerAddr,
)
    requires
        other != addr,
    ensures
        sessions.insert(addr, Ok(peer)).contains_key(other) == sessions.contains_key(other),
        sessions.contains_key(other) ==> sessions.insert(addr, Ok(peer))[other] == sessions[other],
{
}

/// The outcome of accepting an offer, from the two tasks run side by side:
/// joining the data channel and waiting for the answer. A failure to join
/// comes first; else a failure to answer; else the answer.
pub fn settle_answer<A, E>(joined: Result<(), E>, answer: Result<A, E>) -> (settled: Result<A, E>)
    ensures
        match (joined, answer) {
            (Err(e), _) => settled == Err::<A, E>(e),
            (Ok(_), Err(e)) => settled == Err::<A, E>(e),
            (Ok(_), Ok(a)) => settled == Ok::<A, E>(a),
        },
{
    match (joined, answer) {
        (Err(e), _) => Err(e),
        (Ok(_), Err(e)) => Err(e),
        (Ok(_), Ok(a)) => Ok(a),
    }
}

/// Why the server socket could not hand back a packet.
#[derive(Debug)]
pub enum ServerSocketError<E> {
    /// Receiving from the peers failed.
    Wrapped(E),
    /// A packet for this address could not be sent.
    SendError(PeerAddr),
}

/// What the socket's receive loop woke up for.
pub enum ReceiveEvent<E> {
    /// A packet from a client, or the error that receiving ended with.
    FromClient(Result<RtcPacket, E>),
    /// A payload that the application queued for a client.
    ToClient(PeerAddr, Vec<u8>),
}

/// What the socket's receive loop does about an event.
#[derive(Debug)]
pub enum ReceiveAction<E> {
    /// Return this client's address and payload to the caller.
    Deliver(PeerAddr, Vec<u8>),
    /// Return this error to the caller.
    Fail(ServerSocketError<E>),
    /// Send this packet, then go on receiving.
    Forward(RtcPacket),
}

/// One turn of the socket's receive loop: a client's packet goes to the
/// caller with its address and a copy of its payload, a receive error goes
/// to the caller wrapped, and a queued payload is sent to its client as a
/// binary packet.
pub fn receive_step<E>(event: ReceiveEvent<E>) -> (action: ReceiveAction<E>)
    ensures
        match event {
            ReceiveEvent::FromClient(Ok(packet)) => action matches ReceiveAction::Deliver(
                addr,
                payload,
            ) && addr == packet.remote_addr && payload@ == packet.data@,
            ReceiveEvent::FromClient(Err(e)) => action == ReceiveAction::<E>::Fail(
                ServerSocketError::Wrapped(e),
            ),
            ReceiveEvent::ToClient(addr, payload) => action matches ReceiveAction::Forward(
                packet,
            ) && !packet.is_string && packet.remote_addr == addr && packet.data@ == payload@,
        },
{
    match event {
        ReceiveEvent::FromClient(Ok(packet)) => {
            let payload = packet.copy_data();
            ReceiveAction::Deliver(packet.remote_addr, payload)
        },
        ReceiveEvent::FromClient(Err(e)) => ReceiveAction::Fail(ServerSocketError::Wrapped(e)),
        ReceiveEvent::ToClient(addr, payload) => ReceiveAction::Forward(
            RtcPacket { is_string: false, data: payload, remote_addr: addr },
        ),
    }
}

/// After a queued payload was sent to `addr`: a failed send ends the receive
/// loop with `SendError(addr)`; a successful one lets it go on (`None`).
pub fn after_forward<E, F>(addr: PeerAddr, sent: Result<(), F>) -> (outcome: Option<
    ServerSocketError<E>,
>)
    ensures
        sent is Ok <==> outcome is None,
        sent is Err ==> outcome == Some(ServerSocketError::<E>::SendError(addr)),
{
    match sent {
        Ok(()) => None,
        Err(_) => Some(ServerSocketError::SendError(addr)),
    }
}

} // verus!
