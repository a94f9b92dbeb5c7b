use vstd::prelude::*;
use std::collections::HashMap;
use crate::bimaps::{
    address_pairs, addresses_get_by_left, addresses_get_by_right, addresses_insert, addresses_list,
    addresses_new, addresses_remove_by_left, bimap_insert, handle_pairs, handles_get_by_left,
    handles_get_by_right, handles_insert, handles_list, handles_new, handles_remove_by_left,
    injective,
};
use crate::endpoint::{identity_from_endpoint, identity_of, Endpoint, PeerId};
use crate::state::ConnectionState;

verus! {

broadcast use vstd::std_specs::hash::group_hash_axioms;

/// The address pair under which an endpoint is stored.
pub open spec fn addr(e: Endpoint) -> (u128, u16) {
    (e.ip, e.port)
}

/// Mathematical model of a [`ConnectionTracker`].
pub struct TrackerView {
    /// identity -> transport handle
    pub handles: Map<PeerId, u32>,
    /// identity -> (ip, port)
    pub addresses: Map<PeerId, (u128, u16)>,
    /// identity -> first-seen time of an unverified peer
    pub first_seen: Map<PeerId, u64>,
    /// identity -> last recorded state
    pub states: Map<PeerId, ConnectionState>,
    /// how long an unverified peer may stay
    pub expiry: u64,
}

impl TrackerView {
    /// The state of `i`; `NeverSeen` when none was recorded.
    pub open spec fn state(self, i: PeerId) -> ConnectionState {
        if self.states.contains_key(i) {
            self.states[i]
        } else {
            ConnectionState::NeverSeen
        }
    }

    /// The invariant of the tracker: both relations are one-to-one, they
    /// share their identities, an identity is unverified exactly when it has
    /// a first-seen time, and it has a handle exactly when it is unverified or
    /// connected.
    pub open spec fn wf(self) -> bool {
        &&& injective(self.handles)
        &&& injective(self.addresses)
        &&& self.handles.dom() == self.addresses.dom()
        &&& forall|i: PeerId|
            #[trigger] self.first_seen.contains_key(i) <==> self.state(i)
                == ConnectionState::ConnectedUnverified
        &&& forall|i: PeerId|
            #[trigger] self.handles.contains_key(i) <==> (self.state(i)
                == ConnectionState::ConnectedUnverified || self.state(i)
                == ConnectionState::Connected)
    }

    /// Whether unverified `i` was first seen longer than the expiry before `now`.
    pub open spec fn expired(self, i: PeerId, now: u64) -> bool {
        self.first_seen.contains_key(i) && now as int - self.first_seen[i] as int > self.expiry as int
    }

    /// Whether `h` is the handle of an unverified peer that has expired at `now`.
    pub open spec fn expired_handle(self, h: u32, now: u64) -> bool {
        exists|i: PeerId|
            #![trigger self.handles[i]]
            self.expired(i, now) && self.handles.contains_key(i) && self.handles[i] == h
    }

    /// Whether `h` is the handle of an admitted peer.
    pub open spec fn connected_handle(self, h: u32) -> bool {
        exists|i: PeerId|
            #![trigger self.handles[i]]
            self.state(i) == ConnectionState::Connected && self.handles.contains_key(i)
                && self.handles[i] == h
    }

    /// `b` agrees with `self` on everything recorded for `i`.
    pub open spec fn same_at(self, b: TrackerView, i: PeerId) -> bool {
        &&& b.handles.contains_key(i) == self.handles.contains_key(i)
        &&& b.handles[i] == self.handles[i]
        &&& b.addresses.contains_key(i) == self.addresses.contains_key(i)
        &&& b.addresses[i] == self.addresses[i]
        &&& b.first_seen.contains_key(i) == self.first_seen.contains_key(i)
        &&& b.first_seen[i] == self.first_seen[i]
        &&& b.state(i) == self.state(i)
    }

    /// `i` has no handle, address or first-seen time and is `Disconnected`.
    pub open spec fn dropped(self, i: PeerId) -> bool {
        &&& !self.handles.contains_key(i)
        &&& !self.addresses.contains_key(i)
        &&& !self.first_seen.contains_key(i)
        &&& self.state(i) == ConnectionState::Disconnected
    }

    /// `i` forgotten: no handle, no address, no first-seen time, state `Disconnected`.
    pub open spec fn disconnect(self, i: PeerId) -> TrackerView {
        TrackerView {
            handles: self.handles.remove(i),
            addresses: self.addresses.remove(i),
            first_seen: self.first_seen.remove(i),
            states: self.states.insert(i, ConnectionState::Disconnected),
            expiry: self.expiry,
        }
    }

    /// The other identity, if any, that holds handle `h` or address `a`.
    pub open spec fn holds(self, j: PeerId, id: PeerId, h: u32, a: (u128, u16)) -> bool {
        j != id && ((self.handles.contains_key(j) && self.handles[j] == h) || (
        self.addresses.contains_key(j) && self.addresses[j] == a))
    }

    /// Every other identity that holds handle `h` or address `a` disconnected.
    /// A transport hands a handle to one live connection at a time, so a peer
    /// still holding it has gone.
    pub open spec fn evict(self, id: PeerId, h: u32, a: (u128, u16)) -> TrackerView {
        TrackerView {
            handles: self.handles.restrict(self.handles.dom().filter(|j: PeerId| !self.holds(j, id, h, a))),
            addresses: self.addresses.restrict(
                self.addresses.dom().filter(|j: PeerId| !self.holds(j, id, h, a)),
            ),
            first_seen: self.first_seen.restrict(
                self.first_seen.dom().filter(|j: PeerId| !self.holds(j, id, h, a)),
            ),
            states: Map::new(
                |j: PeerId| self.states.contains_key(j) || self.holds(j, id, h, a),
                |j: PeerId|
                    if self.holds(j, id, h, a) {
                        ConnectionState::Disconnected
                    } else {
                        self.states[j]
                    },
            ),
            expiry: self.expiry,
        }
    }

    /// `id` bound to `e` and `h`, unverified since `now`.
    pub open spec fn admit_unverified(self, id: PeerId, e: Endpoint, h: u32, now: u64) -> TrackerView {
        let v = self.evict(id, h, addr(e));
        TrackerView {
            handles: v.handles.insert(id, h),
            addresses: v.addresses.insert(id, addr(e)),
            first_seen: v.first_seen.insert(id, now),
            states: v.states.insert(id, ConnectionState::ConnectedUnverified),
            expiry: v.expiry,
        }
    }

    /// `id` bound to `e` and `h`, admitted.
    pub open spec fn admit_verified(self, id: PeerId, e: Endpoint, h: u32) -> TrackerView {
        let v = self.evict(id, h, addr(e));
        TrackerView {
            handles: v.handles.insert(id, h),
            addresses: v.addresses.insert(id, addr(e)),
            first_seen: v.first_seen.remove(id),
            states: v.states.insert(id, ConnectionState::Connected),
            expiry: v.expiry,
        }
    }
}

/// Registry of known peers: identity <-> transport handle, identity <->
/// endpoint, the last state of each identity, and the first-seen time of
/// peers that have not completed the admission handshake.
pub struct ConnectionTracker {
    connections: bimap::BiHashMap<u128, u32>,
    unverified_connections: HashMap<u128, u64>,
    endpoints: bimap::BiHashMap<u128, (u128, u16)>,
    states: HashMap<u128, ConnectionState>,
    unverified_connection_expire_period: u64,
}

impl View for ConnectionTracker {
    type V = TrackerView;

    closed spec fn view(&self) -> TrackerView {
        TrackerView {
            handles: handle_pairs(self.connections),
            addresses: address_pairs(self.endpoints),
            first_seen: self.unverified_connections@,
            states: self.states@,
            expiry: self.unverified_connection_expire_period,
        }
    }
}

/// The tracker's invariants, spelled out: each relation is one-to-one on its
/// domain; a peer is unverified exactly when it has a first-seen time and a
/// handle; a connected peer has a handle and no first-seen time; a peer that
/// is disconnected or was never seen has no handle.
pub proof fn lemma_tracker_invariants(t: TrackerView, i: PeerId)
    requires
        t.wf(),
    ensures
        injective(t.handles),
        injective(t.addresses),
        t.state(i) == ConnectionState::ConnectedUnverified <==> (t.first_seen.contains_key(i)
            && t.handles.contains_key(i)),
        t.state(i) == ConnectionState::Connected ==> t.handles.contains_key(i)
            && !t.first_seen.contains_key(i),
        t.state(i) == ConnectionState::Disconnected || t.state(i) == ConnectionState::NeverSeen
            ==> !t.handles.contains_key(i),
{
    assert(t.first_seen.contains_key(i) <==> t.state(i) == ConnectionState::ConnectedUnverified);
    assert(t.handles.contains_key(i) <==> (t.state(i) == ConnectionState::ConnectedUnverified
        || t.state(i) == ConnectionState::Connected));
}

impl ConnectionTracker {
    /// An empty tracker whose unverified peers expire after `unverified_connection_expire_period`.
    pub fn new(unverified_connection_expire_period: u64) -> (r: ConnectionTracker)
        ensures
            r@.wf(),
            r@.handles.is_empty(),
            r@.addresses.is_empty(),
            r@.first_seen.is_empty(),
            r@.states.is_empty(),
            r@.expiry == unverified_connection_expire_period,
    {
        let r = ConnectionTracker {
            connections: handles_new(),
            unverified_connections: HashMap::new(),
            endpoints: addresses_new(),
            states: HashMap::new(),
            unverified_connection_expire_period,
        };
        assert(r@.handles =~= Map::empty());
        assert(r@.addresses =~= Map::empty());
        r
    }

    /// The expiry period of unverified peers.
    pub fn expire_period(&self) -> (r: u64)
        ensures
            r == self@.expiry,
    {
        self.unverified_connection_expire_period
    }

    /// The handle of `client`, if it has one.
    pub fn client_connection(&self, client: &PeerId) -> (r: Option<u32>)
        ensures
            r == (if self@.handles.contains_key(*client) {
                Some(self@.handles[*client])
            } else {
                None
            }),
    {
        handles_get_by_left(&self.connections, *client)
    }

    /// The endpoint of `client`, if it has one.
    pub fn client_endpoint(&self, client: &PeerId) -> (r: Option<Endpoint>)
        ensures
            r == (if self@.addresses.contains_key(*client) {
                Some(
                    Endpoint {
                        ip: self@.addresses[*client].0,
                        port: self@.addresses[*client].1,
                    },
                )
            } else {
                None
            }),
    {
        match addresses_get_by_left(&self.endpoints, *client) {
            Some((ip, port)) => Some(Endpoint { ip, port }),
            None => None,
        }
    }

    /// The identity that holds handle `connection`, if any.
    pub fn client_by_connection(&self, connection: u32) -> (r: Option<PeerId>)
        requires
            self@.wf(),
        ensures
            r matches Some(i) ==> self@.handles.contains_key(i) && self@.handles[i] == connection,
            r is None ==> forall|i: PeerId|
                #![trigger self@.handles[i]]
                self@.handles.contains_key(i) ==> self@.handles[i] != connection,
    {
        handles_get_by_right(&self.connections, connection)
    }

    /// The state of `client`; `NeverSeen` when none was recorded.
    pub fn state(&self, client: &PeerId) -> (r: ConnectionState)
        ensures
            r == self@.state(*client),
    {
        match self.states.get(client) {
            Some(s) => *s,
            None => ConnectionState::NeverSeen,
        }
    }

    /// Forgets the handle, endpoint and first-seen time of `uuid` and records
    /// it as `Disconnected`.
    pub fn track_client_disconnected(&mut self, uuid: &PeerId)
        requires
            old(self)@.wf(),
        ensures
            final(self)@ == old(self)@.disconnect(*uuid),
            final(self)@.wf(),
    {
        handles_remove_by_left(&mut self.connections, *uuid);
        addresses_remove_by_left(&mut self.endpoints, *uuid);
        self.unverified_connections.remove(uuid);
        self.states.insert(*uuid, ConnectionState::Disconnected);
        proof {
            let o = old(self)@;
            let n = self@;
            assert(n.first_seen =~= o.first_seen.remove(*uuid));
            assert(n.states =~= o.states.insert(*uuid, ConnectionState::Disconnected));
            assert(n == o.disconnect(*uuid));
            assert(n.handles.dom() =~= n.addresses.dom());
        }
    }
}


impl ConnectionTracker {
    /// Disconnects every other identity that holds handle `h` or address `a`.
    fn evict_holders(&mut self, id: PeerId, h: u32, a: (u128, u16))
        requires
            old(self)@.wf(),
        ensures
            final(self)@ == old(self)@.evict(id, h, a),
            final(self)@.wf(),
    {
        let ghost o = self@;
        let first = handles_get_by_right(&self.connections, h);
        match first {
            Some(j) => {
                if j != id {
                    self.track_client_disconnected(&j);
                }
            },
            None => {},
        }
        let ghost m = self@;
        let second = addresses_get_by_right(&self.endpoints, a);
        match second {
            Some(j) => {
                if j != id {
                    self.track_client_disconnected(&j);
                }
            },
            None => {},
        }
        proof {
            let n = self@;
            let e = o.evict(id, h, a);
            // the holders of h and a before the call
            assert forall|j: PeerId| #[trigger] o.holds(j, id, h, a) implies (first == Some(j)
                || second == Some(j)) by {
                if o.handles.contains_key(j) && o.handles[j] == h {
                    assert(first == Some(j));
                } else {
                    assert(o.addresses.contains_key(j) && o.addresses[j] == a);
                    if first != Some(j) {
                        assert(m.addresses.contains_key(j));
                        assert(m.addresses[j] == a);
                    }
                }
            }
            assert(n.handles =~= e.handles);
            assert(n.addresses =~= e.addresses);
            assert(n.first_seen =~= e.first_seen);
            assert(n.states =~= e.states);
        }
    }

    /// Records `uuid` as unverified since `now`, bound to `endpoint` and
    /// `connection`. Another identity still holding that handle or endpoint is
    /// recorded as disconnected first.
    pub fn track_client_connected_unverified(
        &mut self,
        uuid: PeerId,
        endpoint: Endpoint,
        connection: u32,
        now: u64,
    )
        requires
            old(self)@.wf(),
        ensures
            final(self)@ == old(self)@.admit_unverified(uuid, endpoint, connection, now),
            final(self)@.wf(),
    {
        let a = (endpoint.ip, endpoint.port);
        self.evict_holders(uuid, connection, a);
        let ghost v = self@;
        handles_insert(&mut self.connections, uuid, connection);
        addresses_insert(&mut self.endpoints, uuid, a);
        self.unverified_connections.insert(uuid, now);
        self.states.insert(uuid, ConnectionState::ConnectedUnverified);
        proof {
            let n = self@;
            assert(n.handles =~= v.handles.insert(uuid, connection));
            assert(n.addresses =~= v.addresses.insert(uuid, a));
            assert(n == old(self)@.admit_unverified(uuid, endpoint, connection, now));
            assert(n.handles.dom() =~= n.addresses.dom());
        }
    }

    /// Records `uuid` as admitted, bound to `endpoint` and `connection`, and
    /// drops its first-seen time. Another identity still holding that handle or
    /// endpoint is recorded as disconnected first.
    pub fn track_client_connected(&mut self, uuid: PeerId, endpoint: Endpoint, connection: u32)
        requires
            old(self)@.wf(),
        ensures
            final(self)@ == old(self)@.admit_verified(uuid, endpoint, connection),
            final(self)@.wf(),
    {
        let a = (endpoint.ip, endpoint.port);
        self.evict_holders(uuid, connection, a);
        let ghost v = self@;
        handles_insert(&mut self.connections, uuid, connection);
        addresses_insert(&mut self.endpoints, uuid, a);
        self.unverified_connections.remove(&uuid);
        self.states.insert(uuid, ConnectionState::Connected);
        proof {
            let n = self@;
            assert(n.handles =~= v.handles.insert(uuid, connection));
            assert(n.addresses =~= v.addresses.insert(uuid, a));
            assert(n.first_seen =~= v.first_seen.remove(uuid));
            assert(n == old(self)@.admit_verified(uuid, endpoint, connection));
            assert(n.handles.dom() =~= n.addresses.dom());
        }
    }
}


impl ConnectionTracker {
    /// The handles of the unverified peers first seen longer than the expiry
    /// period before `now`: exactly those, each from a peer that holds it.
    pub fn expired_unverified_connections(&self, now: u64) -> (r: Vec<u32>)
        requires
            self@.wf(),
        ensures
            forall|k: int| 0 <= k < r@.len() ==> self@.expired_handle(#[trigger] r@[k], now),
            forall|i: PeerId| #[trigger] self@.expired(i, now) ==> r@.contains(self@.handles[i]),
    {
        let pairs = handles_list(&self.connections);
        let mut r: Vec<u32> = Vec::new();
        let mut idx: usize = 0;
        while idx < pairs.len()
            invariant
                self@.wf(),
                idx <= pairs@.len(),
                forall|q: int|
                    0 <= q < pairs@.len() ==> self@.handles.contains_key(#[trigger] pairs@[q].0)
                        && self@.handles[pairs@[q].0] == pairs@[q].1,
                forall|k: int| 0 <= k < r@.len() ==> self@.expired_handle(#[trigger] r@[k], now),
                forall|q: int|
                    0 <= q < idx && self@.expired(#[trigger] pairs@[q].0, now) ==> r@.contains(
                        pairs@[q].1,
                    ),
            decreases pairs@.len() - idx,
        {
            let (id, h) = pairs[idx];
            let ghost before = r@;
            match self.unverified_connections.get(&id) {
                Some(first_seen) => {
                    if now > *first_seen && now - *first_seen > self.unverified_connection_expire_period {
                        r.push(h);
                        proof {
                            assert(self@.expired(id, now));
                            assert(self@.handles[id] == h);
                            assert(r@[r@.len() - 1] == h);
                            assert forall|q: int|
                                0 <= q < idx + 1 && self@.expired(#[trigger] pairs@[q].0, now)
                                    implies r@.contains(pairs@[q].1) by {
                                if q < idx {
                                    let w = choose|w: int| 0 <= w < before.len() && before[w] == pairs@[q].1;
                                    assert(r@[w] == pairs@[q].1);
                                } else {
                                    assert(r@[r@.len() - 1] == pairs@[q].1);
                                }
                            }
                            assert(self@.expired_handle(h, now));
                            assert forall|k: int| 0 <= k < r@.len() implies self@.expired_handle(
                                #[trigger] r@[k],
                                now,
                            ) by {
                                if k < before.len() {
                                    assert(r@[k] == before[k]);
                                }
                            }
                        }
                    } else {
                        assert(!self@.expired(id, now));
                    }
                },
                None => {
                    assert(!self@.expired(id, now));
                },
            }
            idx = idx + 1;
        }
        proof {
            assert forall|i: PeerId| #[trigger] self@.expired(i, now) implies r@.contains(
                self@.handles[i],
            ) by {
                assert(self@.handles.contains_key(i));
                let q = choose|q: int| 0 <= q < pairs@.len() && #[trigger] pairs@[q].0 == i;
                assert(self@.expired(pairs@[q].0, now));
            }
        }
        r
    }

    /// The handles of the admitted peers: exactly those.
    pub fn active_connections(&self) -> (r: Vec<u32>)
        requires
            self@.wf(),
        ensures
            forall|k: int| 0 <= k < r@.len() ==> self@.connected_handle(#[trigger] r@[k]),
            forall|i: PeerId|
                #[trigger] self@.state(i) == ConnectionState::Connected ==> r@.contains(
                    self@.handles[i],
                ),
    {
        let pairs = handles_list(&self.connections);
        let mut r: Vec<u32> = Vec::new();
        let mut idx: usize = 0;
        while idx < pairs.len()
            invariant
                self@.wf(),
                idx <= pairs@.len(),
                forall|q: int|
                    0 <= q < pairs@.len() ==> self@.handles.contains_key(#[trigger] pairs@[q].0)
                        && self@.handles[pairs@[q].0] == pairs@[q].1,
                forall|k: int| 0 <= k < r@.len() ==> self@.connected_handle(#[trigger] r@[k]),
                forall|q: int|
                    0 <= q < idx && self@.state(#[trigger] pairs@[q].0)
                        == ConnectionState::Connected ==> r@.contains(pairs@[q].1),
            decreases pairs@.len() - idx,
        {
            let (id, h) = pairs[idx];
            let ghost before = r@;
            if self.state(&id).is_connected() {
                r.push(h);
                proof {
                    assert forall|q: int|
                        0 <= q < idx + 1 && self@.state(#[trigger] pairs@[q].0)
                            == ConnectionState::Connected implies r@.contains(pairs@[q].1) by {
                        if q < idx {
                            let w = choose|w: int| 0 <= w < before.len() && before[w] == pairs@[q].1;
                            assert(r@[w] == pairs@[q].1);
                        } else {
                            assert(r@[r@.len() - 1] == pairs@[q].1);
                        }
                    }
                    assert(self@.handles[id] == h);
                    assert(self@.connected_handle(h));
                    assert forall|k: int| 0 <= k < r@.len() implies self@.connected_handle(
                        #[trigger] r@[k],
                    ) by {
                        if k < before.len() {
                            assert(r@[k] == before[k]);
                        }
                    }
                }
            }
            idx = idx + 1;
        }
        proof {
            assert forall|i: PeerId| #[trigger]
                self@.state(i) == ConnectionState::Connected implies r@.contains(
                self@.handles[i],
            ) by {
                assert(self@.handles.contains_key(i));
                let q = choose|q: int| 0 <= q < pairs@.len() && #[trigger] pairs@[q].0 == i;
                assert(self@.state(pairs@[q].0) == ConnectionState::Connected);
            }
        }
        r
    }

    /// Forgets every unverified peer that has expired at `now`, recording it
    /// as `Disconnected`, and gives the handles to close: exactly those peers'.
    pub fn remove_expired_unverified(&mut self, now: u64) -> (r: Vec<u32>)
        requires
            old(self)@.wf(),
        ensures
            final(self)@.wf(),
            final(self)@.expiry == old(self)@.expiry,
            forall|k: int| 0 <= k < r@.len() ==> old(self)@.expired_handle(#[trigger] r@[k], now),
            forall|i: PeerId| #[trigger]
                old(self)@.expired(i, now) ==> r@.contains(old(self)@.handles[i]),
            forall|i: PeerId| #[trigger]
                old(self)@.expired(i, now) ==> final(self)@.dropped(i),
            forall|i: PeerId|
                !old(self)@.expired(i, now) ==> #[trigger] old(self)@.same_at(final(self)@, i),
    {
        let ghost o = self@;
        let pairs = handles_list(&self.connections);
        let mut r: Vec<u32> = Vec::new();
        let mut idx: usize = 0;
        while idx < pairs.len()
            invariant
                self@.wf(),
                self@.expiry == o.expiry,
                o.wf(),
                idx <= pairs@.len(),
                forall|q: int|
                    0 <= q < pairs@.len() ==> o.handles.contains_key(#[trigger] pairs@[q].0)
                        && o.handles[pairs@[q].0] == pairs@[q].1,
                forall|k: int| 0 <= k < r@.len() ==> o.expired_handle(#[trigger] r@[k], now),
                forall|q: int|
                    0 <= q < idx && o.expired(#[trigger] pairs@[q].0, now) ==> r@.contains(
                        pairs@[q].1,
                    ) && self@.dropped(pairs@[q].0),
                forall|i: PeerId|
                    !o.expired(i, now) ==> #[trigger] o.same_at(self@, i),
                forall|i: PeerId|
                    o.expired(i, now) && !self@.dropped(i) ==> #[trigger] o.same_at(self@, i),
                forall|i: PeerId|
                    o.expired(i, now) && #[trigger] self@.dropped(i) ==> r@.contains(o.handles[i]),
            decreases pairs@.len() - idx,
        {
            let (id, h) = pairs[idx];
            let ghost before = r@;
            let ghost cur = self@;
            let is_expired = match self.unverified_connections.get(&id) {
                Some(first_seen) => now > *first_seen && now - *first_seen
                    > self.unverified_connection_expire_period,
                None => false,
            };
            if is_expired {
                proof {
                    if !cur.dropped(id) {
                        assert(o.same_at(cur, id));
                    }
                    assert(o.expired(id, now)) by {
                        if cur.dropped(id) {
                            assert(!cur.first_seen.contains_key(id));
                        } else {
                            assert(o.same_at(cur, id));
                        }
                    }
                    assert(o.expired_handle(h, now));
                }
                r.push(h);
                self.track_client_disconnected(&id);
                proof {
                    let n = self@;
                    assert forall|k: int| 0 <= k < r@.len() implies o.expired_handle(
                        #[trigger] r@[k],
                        now,
                    ) by {
                        if k < before.len() {
                            assert(r@[k] == before[k]);
                        }
                    }
                    assert forall|q: int|
                        0 <= q < idx + 1 && o.expired(#[trigger] pairs@[q].0, now) implies r@.contains(
                            pairs@[q].1,
                        ) && n.dropped(pairs@[q].0) by {
                        if q < idx {
                            let w = choose|w: int| 0 <= w < before.len() && before[w] == pairs@[q].1;
                            assert(r@[w] == pairs@[q].1);
                            if pairs@[q].0 != id {
                                assert(cur.dropped(pairs@[q].0));
                            }
                        } else {
                            assert(r@[r@.len() - 1] == pairs@[q].1);
                        }
                    }
                    assert forall|i: PeerId| !o.expired(i, now) implies #[trigger] o.same_at(n, i) by {
                        assert(o.same_at(cur, i));
                        assert(i != id);
                    }
                    assert forall|i: PeerId|
                        o.expired(i, now) && !n.dropped(i) implies #[trigger] o.same_at(n, i) by {
                        assert(i != id);
                        if cur.dropped(i) {
                            assert(n.dropped(i));
                        }
                        assert(o.same_at(cur, i));
                    }
                    assert forall|i: PeerId|
                        o.expired(i, now) && #[trigger] n.dropped(i) implies r@.contains(o.handles[i]) by {
                        if i == id {
                            assert(r@[r@.len() - 1] == h);
                        } else {
                            assert(cur.dropped(i));
                            let w = choose|w: int| 0 <= w < before.len() && before[w] == o.handles[i];
                            assert(r@[w] == o.handles[i]);
                        }
                    }
                }
            } else {
                proof {
                    if o.expired(id, now) {
                        if !cur.dropped(id) {
                            assert(o.same_at(cur, id));
                            assert(cur.first_seen.contains_key(id));
                        }
                        assert(r@.contains(o.handles[id]));
                    }
                }
            }
            idx = idx + 1;
        }
        proof {
            assert forall|i: PeerId| #[trigger] o.expired(i, now) implies r@.contains(o.handles[i])
                && self@.dropped(i) by {
                assert(o.handles.contains_key(i));
                let q = choose|q: int| 0 <= q < pairs@.len() && #[trigger] pairs@[q].0 == i;
                assert(o.expired(pairs@[q].0, now));
            }
        }
        r
    }

    /// The admitted peers with their endpoints: exactly those.
    pub fn active_clients(&self) -> (r: Vec<(PeerId, Endpoint)>)
        requires
            self@.wf(),
        ensures
            forall|k: int|
                0 <= k < r@.len() ==> self@.state(#[trigger] r@[k].0) == ConnectionState::Connected
                    && self@.addresses.contains_key(r@[k].0) && self@.addresses[r@[k].0] == addr(
                    r@[k].1,
                ),
            forall|i: PeerId|
                #[trigger] self@.state(i) == ConnectionState::Connected ==> exists|k: int|
                    0 <= k < r@.len() && r@[k].0 == i,
    {
        let pairs = addresses_list(&self.endpoints);
        let mut r: Vec<(PeerId, Endpoint)> = Vec::new();
        let mut idx: usize = 0;
        while idx < pairs.len()
            invariant
                self@.wf(),
                idx <= pairs@.len(),
                forall|q: int|
                    0 <= q < pairs@.len() ==> self@.addresses.contains_key(#[trigger] pairs@[q].0)
                        && self@.addresses[pairs@[q].0] == pairs@[q].1,
                forall|k: int|
                    0 <= k < r@.len() ==> self@.state(#[trigger] r@[k].0)
                        == ConnectionState::Connected && self@.addresses.contains_key(r@[k].0)
                        && self@.addresses[r@[k].0] == addr(r@[k].1),
                forall|q: int|
                    0 <= q < idx && self@.state(#[trigger] pairs@[q].0)
                        == ConnectionState::Connected ==> exists|k: int|
                        0 <= k < r@.len() && r@[k].0 == pairs@[q].0,
            decreases pairs@.len() - idx,
        {
            let (id, (ip, port)) = pairs[idx];
            let ghost before = r@;
            if self.state(&id).is_connected() {
                r.push((id, Endpoint { ip, port }));
                proof {
                    assert forall|q: int|
                        0 <= q < idx + 1 && self@.state(#[trigger] pairs@[q].0)
                            == ConnectionState::Connected implies exists|k: int|
                        0 <= k < r@.len() && r@[k].0 == pairs@[q].0 by {
                        if q < idx {
                            let w = choose|w: int| 0 <= w < before.len() && before[w].0 == pairs@[q].0;
                            assert(r@[w].0 == pairs@[q].0);
                        } else {
                            assert(r@[r@.len() - 1].0 == pairs@[q].0);
                        }
                    }
                }
            }
            idx = idx + 1;
        }
        proof {
            assert forall|i: PeerId| #[trigger]
                self@.state(i) == ConnectionState::Connected implies exists|k: int|
                0 <= k < r@.len() && r@[k].0 == i by {
                assert(self@.handles.contains_key(i));
                assert(self@.addresses.contains_key(i));
                let q = choose|q: int| 0 <= q < pairs@.len() && #[trigger] pairs@[q].0 == i;
                assert(self@.state(pairs@[q].0) == ConnectionState::Connected);
            }
        }
        r
    }

    /// The identity of a peer at `endpoint`.
    pub fn generate_endpoint_uuid(endpoint: &Endpoint) -> (r: PeerId)
        ensures
            r == identity_of(*endpoint),
    {
        identity_from_endpoint(endpoint)
    }

    /// The identity of a peer at the normalised IPv6 address `ip` and `port`.
    pub fn generate_uuid(ip: u128, port: u16) -> (r: PeerId)
        ensures
            r == identity_of(Endpoint { ip, port }),
    {
        identity_from_endpoint(&Endpoint { ip, port })
    }
}

/// Admitting a peer right after recording it as unverified keeps its
/// identity, handle and endpoint bindings and drops its first-seen time.
pub proof fn lemma_verify_after_unverified(t: TrackerView, id: PeerId, e: Endpoint, h: u32, now: u64)
    requires
        t.wf(),
    ensures
        ({
            let u = t.admit_unverified(id, e, h, now);
            let v = u.admit_verified(id, e, h);
            &&& v.handles == u.handles
            &&& v.addresses == u.addresses
            &&& v.first_seen == u.first_seen.remove(id)
            &&& !v.first_seen.contains_key(id)
            &&& v.handles[id] == h
            &&& v.addresses[id] == addr(e)
            &&& v.state(id) == ConnectionState::Connected
        }),
{
    let u = t.admit_unverified(id, e, h, now);
    let w = u.evict(id, h, addr(e));
    let a = addr(e);
    assert(forall|j: PeerId| !u.holds(j, id, h, a)) by {
        assert forall|j: PeerId| !u.holds(j, id, h, a) by {
            if j != id && u.handles.contains_key(j) && u.handles[j] == h {
                assert(t.evict(id, h, a).handles.contains_key(j));
            }
            if j != id && u.addresses.contains_key(j) && u.addresses[j] == a {
                assert(t.evict(id, h, a).addresses.contains_key(j));
            }
        }
    }
    assert(w.handles =~= u.handles);
    assert(w.addresses =~= u.addresses);
    assert(w.first_seen =~= u.first_seen);
    let v = u.admit_verified(id, e, h);
    assert(v.handles =~= u.handles);
    assert(v.addresses =~= u.addresses);
    assert(v.first_seen =~= u.first_seen.remove(id));
}

} // verus!
