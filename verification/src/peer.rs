//! Peer identity, records, and the peer directory.
//!
//! A peer's identity is derived deterministically from its observed network
//! address, so repeated announcements from the same address collapse onto one
//! directory entry. The directory maps identities to records; it supports
//! insert-or-update, point lookup and removal, timeout sweeps, and snapshot
//! listings, and its view is the mathematical map from identity to record.
//! The records live in a vector with pairwise distinct identities, so every
//! operation scans linearly; a local network holds few peers, and the flat
//! layout keeps the map view and its laws directly provable.

use vstd::prelude::*;
use crate::codec::{append_chars, dec_u64_chars, spec_dec_digits};
use crate::text::push_char;

verus! {

/// An IPv4 address and TCP port, the reachable address of a peer.
#[derive(Debug, Clone, Copy, PartialEq, Eq, Hash, Structural)]
pub struct PeerAddr {
    /// The IPv4 address packed as four octets, highest first.
    pub ip: u32,
    /// The TCP port.
    pub port: u16,
}

/// The display form of an address: four dotted decimal octets, a colon, and
/// the port.
pub open spec fn spec_addr_string(a: PeerAddr) -> Seq<char> {
    spec_dec_digits((a.ip / 0x1000000) as nat) + seq!['.'] + spec_dec_digits(
        ((a.ip / 0x10000) % 256) as nat,
    ) + seq!['.'] + spec_dec_digits(((a.ip / 256) % 256) as nat) + seq!['.'] + spec_dec_digits(
        (a.ip % 256) as nat,
    ) + seq![':'] + spec_dec_digits(a.port as nat)
}

impl PeerAddr {
    /// Renders the address as text.
    pub fn to_text(&self) -> (r: String)
        ensures
            r@ == spec_addr_string(*self),
    {
        let mut out = String::new();
        let o1 = dec_u64_chars((self.ip / 0x1000000) as u64);
        append_chars(&mut out, &o1);
        push_char(&mut out, '.');
        let o2 = dec_u64_chars(((self.ip / 0x10000) % 256) as u64);
        append_chars(&mut out, &o2);
        push_char(&mut out, '.');
        let o3 = dec_u64_chars(((self.ip / 256) % 256) as u64);
        append_chars(&mut out, &o3);
        push_char(&mut out, '.');
        let o4 = dec_u64_chars((self.ip % 256) as u64);
        append_chars(&mut out, &o4);
        push_char(&mut out, ':');
        let p = dec_u64_chars(self.port as u64);
        append_chars(&mut out, &p);
        proof {
            assert(out@ =~= spec_addr_string(*self));
        }
        out
    }
}

/// The name-based UUID, with the DNS namespace, of a sequence of characters,
/// as a 128-bit value.
pub uninterp spec fn uuid_v5_dns(s: Seq<char>) -> u128;

/// Relies on `uuid::Uuid::new_v5` with `Uuid::NAMESPACE_DNS`: the result is
/// the RFC 9562 name-based (SHA-1) UUID of the given bytes, a function of
/// them alone.
#[verifier::external_body]
fn uuid_v5_of(s: &str) -> (r: u128)
    ensures
        r == uuid_v5_dns(s@),
{
    uuid::Uuid::new_v5(&uuid::Uuid::NAMESPACE_DNS, s.as_bytes()).as_u128()
}

/// The identity a peer at the given address carries.
pub open spec fn spec_peer_id(a: PeerAddr) -> u128 {
    uuid_v5_dns(spec_addr_string(a))
}

/// Unique identifier for a peer, derived from its network address.
#[derive(Debug, Clone, Copy, PartialEq, Eq, Hash, Structural)]
pub struct PeerId(pub u128);

impl PeerId {
    /// Derives the identity of a peer from its address. The same address
    /// always yields the same identity.
    pub fn from_addr(addr: &PeerAddr) -> (r: PeerId)
        ensures
            r.0 == spec_peer_id(*addr),
    {
        let s = addr.to_text();
        PeerId(uuid_v5_of(s.as_str()))
    }
}

/// A peer known to the directory.
#[derive(Debug, Clone)]
pub struct Peer {
    /// Identity derived from the address.
    pub id: PeerId,
    /// The nickname the peer announced.
    pub nickname: String,
    /// The peer's reachable address: its observed source address and the
    /// port it announced.
    pub addr: PeerAddr,
    /// When the peer was last heard from, in milliseconds of monotonic time.
    pub last_seen: u64,
}

/// The mathematical value of a peer record.
pub struct PeerView {
    pub id: u128,
    pub nickname: Seq<char>,
    pub addr: PeerAddr,
    pub last_seen: u64,
}

impl View for Peer {
    type V = PeerView;

    open spec fn view(&self) -> PeerView {
        PeerView {
            id: self.id.0,
            nickname: self.nickname@,
            addr: self.addr,
            last_seen: self.last_seen,
        }
    }
}

/// True when a record has gone unseen for longer than the timeout.
pub open spec fn spec_timed_out(p: PeerView, timeout: u64, now: u64) -> bool {
    p.last_seen + timeout < now
}

impl Peer {
    /// Creates a record for a peer observed now at the given address.
    pub fn new(nickname: String, addr: PeerAddr, now: u64) -> (p: Peer)
        ensures
            p@.id == spec_peer_id(addr),
            p@.nickname == nickname@,
            p@.addr == addr,
            p@.last_seen == now,
    {
        let id = PeerId::from_addr(&addr);
        Peer { id, nickname, addr, last_seen: now }
    }

    /// Marks the peer as seen now.
    pub fn refresh(&mut self, now: u64)
        ensures
            final(self)@.id == old(self)@.id,
            final(self)@.nickname == old(self)@.nickname,
            final(self)@.addr == old(self)@.addr,
            final(self)@.last_seen == now,
    {
        self.last_seen = now;
    }

    /// Decides whether the peer has gone unseen for longer than `timeout`,
    /// both times in milliseconds.
    pub fn is_timed_out(&self, timeout: u64, now: u64) -> (r: bool)
        ensures
            r == spec_timed_out(self@, timeout, now),
    {
        if now > self.last_seen {
            now - self.last_seen > timeout
        } else {
            false
        }
    }

    fn duplicate(&self) -> (r: Peer)
        ensures
            r == *self,
    {
        Peer {
            id: self.id,
            nickname: self.nickname.clone(),
            addr: self.addr,
            last_seen: self.last_seen,
        }
    }
}

/// The map a sequence of records stands for: each record under its identity,
/// later records overriding earlier ones.
pub open spec fn peers_map(s: Seq<Peer>) -> Map<u128, PeerView>
    decreases s.len(),
{
    if s.len() == 0 {
        Map::empty()
    } else {
        peers_map(s.drop_last()).insert(s.last()@.id, s.last()@)
    }
}

/// Identities are pairwise distinct in the sequence.
pub open spec fn distinct_ids(s: Seq<Peer>) -> bool {
    forall|i: int, j: int| 0 <= i < j < s.len() ==> s[i]@.id != s[j]@.id
}

proof fn lemma_peers_map_contains(s: Seq<Peer>, k: u128)
    ensures
        peers_map(s).contains_key(k) <==> (exists|i: int| 0 <= i < s.len() && s[i]@.id == k),
    decreases s.len(),
{
    if s.len() > 0 {
        lemma_peers_map_contains(s.drop_last(), k);
        if s.last()@.id == k {
            assert(s[s.len() - 1]@.id == k);
        } else if peers_map(s).contains_key(k) {
            let i = choose|i: int| 0 <= i < s.drop_last().len() && s.drop_last()[i]@.id == k;
            assert(s[i]@.id == k);
        } else {
            assert(forall|i: int| 0 <= i < s.len() - 1 ==> s.drop_last()[i] == s[i]);
        }
    }
}

proof fn lemma_peers_map_index(s: Seq<Peer>, i: int)
    requires
        distinct_ids(s),
        0 <= i < s.len(),
    ensures
        peers_map(s).contains_key(s[i]@.id),
        peers_map(s)[s[i]@.id] == s[i]@,
    decreases s.len(),
{
    if i == s.len() - 1 {
        assert(s.last() == s[i]);
    } else {
        assert(forall|j: int| 0 <= j < s.len() - 1 ==> s.drop_last()[j] == s[j]);
        lemma_peers_map_index(s.drop_last(), i);
        assert(s.last()@.id != s[i]@.id);
    }
}

proof fn lemma_peers_map_update(s: Seq<Peer>, i: int, p: Peer)
    requires
        distinct_ids(s),
        0 <= i < s.len(),
        s[i]@.id == p@.id,
    ensures
        peers_map(s.update(i, p)) == peers_map(s).insert(p@.id, p@),
    decreases s.len(),
{
    let t = s.update(i, p);
    if i == s.len() - 1 {
        assert(t.drop_last() =~= s.drop_last());
        assert(t.last() == p);
        assert(peers_map(t) == peers_map(s.drop_last()).insert(p@.id, p@));
        assert(peers_map(s.drop_last()).insert(p@.id, p@) =~= peers_map(s.drop_last()).insert(
            s.last()@.id,
            s.last()@,
        ).insert(p@.id, p@));
    } else {
        assert(t.drop_last() =~= s.drop_last().update(i, p));
        assert(t.last() == s.last());
        assert(forall|j: int| 0 <= j < s.len() - 1 ==> s.drop_last()[j] == s[j]);
        lemma_peers_map_update(s.drop_last(), i, p);
        assert(peers_map(t) == peers_map(s.drop_last()).insert(p@.id, p@).insert(
            s.last()@.id,
            s.last()@,
        ));
        assert(s.last()@.id != p@.id);
        assert(peers_map(s.drop_last()).insert(p@.id, p@).insert(s.last()@.id, s.last()@)
            =~= peers_map(s.drop_last()).insert(s.last()@.id, s.last()@).insert(p@.id, p@));
    }
}

proof fn lemma_peers_map_remove(s: Seq<Peer>, i: int)
    requires
        distinct_ids(s),
        0 <= i < s.len(),
    ensures
        peers_map(s.remove(i)) == peers_map(s).remove(s[i]@.id),
    decreases s.len(),
{
    let t = s.remove(i);
    if i == s.len() - 1 {
        assert(t =~= s.drop_last());
        lemma_peers_map_contains(s.drop_last(), s[i]@.id);
        assert(forall|j: int| 0 <= j < s.len() - 1 ==> s.drop_last()[j] == s[j]);
        assert(!peers_map(s.drop_last()).contains_key(s[i]@.id));
        assert(peers_map(s.drop_last()) =~= peers_map(s.drop_last()).insert(
            s.last()@.id,
            s.last()@,
        ).remove(s[i]@.id));
    } else {
        assert(t.drop_last() =~= s.drop_last().remove(i));
        assert(t.last() == s.last());
        assert(forall|j: int| 0 <= j < s.len() - 1 ==> s.drop_last()[j] == s[j]);
        lemma_peers_map_remove(s.drop_last(), i);
        assert(peers_map(t) == peers_map(s.drop_last()).remove(s[i]@.id).insert(
            s.last()@.id,
            s.last()@,
        ));
        assert(s.last()@.id != s[i]@.id);
        assert(peers_map(s.drop_last()).remove(s[i]@.id).insert(s.last()@.id, s.last()@)
            =~= peers_map(s.drop_last()).insert(s.last()@.id, s.last()@).remove(s[i]@.id));
    }
}

proof fn lemma_peers_map_len(s: Seq<Peer>)
    requires
        distinct_ids(s),
    ensures
        peers_map(s).dom().finite(),
        peers_map(s).dom().len() == s.len(),
    decreases s.len(),
{
    broadcast use vstd::set::group_set_axioms;

    if s.len() > 0 {
        assert(forall|j: int| 0 <= j < s.len() - 1 ==> s.drop_last()[j] == s[j]);
        lemma_peers_map_len(s.drop_last());
        lemma_peers_map_contains(s.drop_last(), s.last()@.id);
        assert(!peers_map(s.drop_last()).contains_key(s.last()@.id));
        assert(peers_map(s).dom() =~= peers_map(s.drop_last()).dom().insert(s.last()@.id));
    }
}

/// The directory of known peers, keyed by identity.
pub struct PeerRegistry {
    peers: Vec<Peer>,
}

impl View for PeerRegistry {
    type V = Map<u128, PeerView>;

    closed spec fn view(&self) -> Map<u128, PeerView> {
        peers_map(self.peers@)
    }
}

impl PeerRegistry {
    /// The directory's records carry pairwise distinct identities.
    pub closed spec fn wf(&self) -> bool {
        distinct_ids(self.peers@)
    }

    /// Creates an empty directory.
    pub fn new() -> (r: PeerRegistry)
        ensures
            r.wf(),
            r@ == Map::<u128, PeerView>::empty(),
    {
        PeerRegistry { peers: Vec::new() }
    }

    /// Adds a record, or replaces the record carrying the same identity.
    /// Reports whether the record was newly inserted, so a caller can log
    /// the discovery of a peer it had not seen before.
    pub fn upsert(&mut self, peer: Peer) -> (inserted: bool)
        requires
            old(self).wf(),
        ensures
            final(self).wf(),
            final(self)@ == old(self)@.insert(peer@.id, peer@),
            inserted == !old(self)@.contains_key(peer@.id),
    {
        let n = self.peers.len();
        let mut i: usize = 0;
        while i < n
            invariant
                i <= n,
                n == self.peers@.len(),
                distinct_ids(self.peers@),
                self.peers@ == old(self).peers@,
                forall|j: int| 0 <= j < i ==> self.peers@[j]@.id != peer@.id,
            decreases n - i,
        {
            if self.peers[i].id.0 == peer.id.0 {
                proof {
                    lemma_peers_map_contains(self.peers@, peer@.id);
                    assert(self.peers@[i as int]@.id == peer@.id);
                    lemma_peers_map_update(self.peers@, i as int, peer);
                }
                self.peers.set(i, peer);
                return false;
            }
            i = i + 1;
        }
        proof {
            lemma_peers_map_contains(self.peers@, peer@.id);
            assert(self.peers@.push(peer).drop_last() =~= self.peers@);
        }
        self.peers.push(peer);
        true
    }

    /// Removes the record carrying the given identity, if present.
    pub fn remove(&mut self, id: &PeerId)
        requires
            old(self).wf(),
        ensures
            final(self).wf(),
            final(self)@ == old(self)@.remove(id.0),
    {
        let n = self.peers.len();
        let mut i: usize = 0;
        while i < n
            invariant
                i <= n,
                n == self.peers@.len(),
                distinct_ids(self.peers@),
                self.peers@ == old(self).peers@,
                forall|j: int| 0 <= j < i ==> self.peers@[j]@.id != id.0,
            decreases n - i,
        {
            if self.peers[i].id.0 == id.0 {
                proof {
                    lemma_peers_map_remove(self.peers@, i as int);
                    assert(forall|a: int, b: int|
                        0 <= a < b < self.peers@.remove(i as int).len() ==> self.peers@.remove(
                            i as int,
                        )[a]@.id != self.peers@.remove(i as int)[b]@.id);
                }
                self.peers.remove(i);
                return ;
            }
            i = i + 1;
        }
        proof {
            lemma_peers_map_contains(self.peers@, id.0);
            assert(!self@.contains_key(id.0));
            assert(self@ =~= self@.remove(id.0));
        }
    }

    /// Removes every record unseen for longer than `timeout` and returns the
    /// removed records.
    pub fn remove_timed_out(&mut self, timeout: u64, now: u64) -> (removed: Vec<Peer>)
        requires
            old(self).wf(),
        ensures
            final(self).wf(),
            forall|k: u128|
                #[trigger] final(self)@.contains_key(k) <==> (old(self)@.contains_key(k)
                    && !spec_timed_out(old(self)@[k], timeout, now)),
            forall|k: u128| #[trigger]
                final(self)@.contains_key(k) ==> final(self)@[k] == old(self)@[k],
            forall|i: int|
                0 <= i < removed@.len() ==> old(self)@.contains_key(#[trigger] removed@[i]@.id)
                    && removed@[i]@ == old(self)@[removed@[i]@.id] && spec_timed_out(
                    removed@[i]@,
                    timeout,
                    now,
                ),
            forall|k: u128|
                old(self)@.contains_key(k) && spec_timed_out(#[trigger] old(self)@[k], timeout, now)
                    ==> (exists|i: int| 0 <= i < removed@.len() && removed@[i]@.id == k),
            distinct_ids(removed@),
    {
        let ghost s = self.peers@;
        let n = self.peers.len();
        let mut kept: Vec<Peer> = Vec::new();
        let mut removed: Vec<Peer> = Vec::new();
        let mut idx: usize = 0;
        while idx < n
            invariant
                idx <= n,
                n == s.len(),
                self.peers@ == s,
                distinct_ids(s),
                forall|i: int|
                    0 <= i < kept@.len() ==> came_from(
                        #[trigger] kept@[i],
                        s,
                        idx as int,
                        false,
                        timeout,
                        now,
                    ),
                forall|i: int|
                    0 <= i < removed@.len() ==> came_from(
                        #[trigger] removed@[i],
                        s,
                        idx as int,
                        true,
                        timeout,
                        now,
                    ),
                forall|j: int|
                    0 <= j < idx && !spec_timed_out(#[trigger] s[j]@, timeout, now)
                        ==> kept@.contains(s[j]),
                forall|j: int|
                    0 <= j < idx && spec_timed_out(#[trigger] s[j]@, timeout, now)
                        ==> removed@.contains(s[j]),
                distinct_ids(kept@),
                distinct_ids(removed@),
            decreases n - idx,
        {
            let ghost kept0 = kept@;
            let ghost removed0 = removed@;
            let p = self.peers[idx].duplicate();
            proof {
                assert(p == s[idx as int]);
            }
            if p.is_timed_out(timeout, now) {
                removed.push(p);
            } else {
                kept.push(p);
            }
            proof {
                lemma_sweep_step(s, kept0, removed0, kept@, removed@, idx as int, timeout, now);
            }
            idx = idx + 1;
        }
        proof {
            lemma_sweep_result(s, kept@, removed@, timeout, now);
        }
        self.peers = kept;
        removed
    }

    /// Returns a snapshot of all current records. The order carries no
    /// meaning.
    pub fn get_all(&self) -> (r: Vec<Peer>)
        requires
            self.wf(),
        ensures
            r@.len() == self@.dom().len(),
            forall|i: int|
                0 <= i < r@.len() ==> self@.contains_key(#[trigger] r@[i]@.id) && r@[i]@
                    == self@[r@[i]@.id],
            forall|k: u128|
                #[trigger] self@.contains_key(k) ==> (exists|i: int|
                    0 <= i < r@.len() && r@[i]@.id == k),
            distinct_ids(r@),
    {
        let n = self.peers.len();
        let mut out: Vec<Peer> = Vec::new();
        let mut i: usize = 0;
        while i < n
            invariant
                i <= n,
                n == self.peers@.len(),
                distinct_ids(self.peers@),
                out@.len() == i,
                forall|j: int| 0 <= j < i ==> #[trigger] out@[j]@ == self.peers@[j]@,
            decreases n - i,
        {
            let p = self.peers[i].duplicate();
            out.push(p);
            i = i + 1;
        }
        proof {
            lemma_peers_map_len(self.peers@);
            assert(forall|j: int|
                0 <= j < out@.len() ==> #[trigger] out@[j]@ == self.peers@[j]@);
            assert(forall|j: int| 0 <= j < out@.len() ==> self@.contains_key(
                #[trigger] out@[j]@.id,
            ) && out@[j]@ == self@[out@[j]@.id]) by {
                assert(forall|j: int|
                    0 <= j < out@.len() ==> out@[j]@.id == self.peers@[j]@.id);
                assert forall|j: int| 0 <= j < out@.len() implies self@.contains_key(
                    #[trigger] out@[j]@.id,
                ) && out@[j]@ == self@[out@[j]@.id] by {
                    lemma_peers_map_index(self.peers@, j);
                }
            }
            assert forall|k: u128| #[trigger] self@.contains_key(k) implies (exists|i2: int|
                0 <= i2 < out@.len() && out@[i2]@.id == k) by {
                lemma_peers_map_contains(self.peers@, k);
                let j = choose|j: int| 0 <= j < self.peers@.len() && self.peers@[j]@.id == k;
                assert(out@[j]@.id == k);
            }
        }
        out
    }

    /// Looks up the record carrying the given identity.
    pub fn get(&self, id: &PeerId) -> (r: Option<Peer>)
        requires
            self.wf(),
        ensures
            match r {
                Some(p) => self@.contains_key(id.0) && p@ == self@[id.0],
                None => !self@.contains_key(id.0),
            },
    {
        let n = self.peers.len();
        let mut i: usize = 0;
        while i < n
            invariant
                i <= n,
                n == self.peers@.len(),
                distinct_ids(self.peers@),
                forall|j: int| 0 <= j < i ==> self.peers@[j]@.id != id.0,
            decreases n - i,
        {
            if self.peers[i].id.0 == id.0 {
                proof {
                    lemma_peers_map_index(self.peers@, i as int);
                }
                return Some(self.peers[i].duplicate());
            }
            i = i + 1;
        }
        proof {
            lemma_peers_map_contains(self.peers@, id.0);
        }
        None
    }

    /// The number of records in the directory.
    pub fn count(&self) -> (r: usize)
        requires
            self.wf(),
        ensures
            r == self@.dom().len(),
    {
        proof {
            lemma_peers_map_len(self.peers@);
        }
        self.peers.len()
    }
}

/// The record `p` stands at an index below `upto` in `s`, and its
/// timed-out status is `timed`.
pub open spec fn came_from(
    p: Peer,
    s: Seq<Peer>,
    upto: int,
    timed: bool,
    timeout: u64,
    now: u64,
) -> bool {
    exists|j: int|
        0 <= j < upto && p == s[j] && spec_timed_out(#[trigger] s[j]@, timeout, now) == timed
}

proof fn lemma_sweep_step(
    s: Seq<Peer>,
    kept0: Seq<Peer>,
    removed0: Seq<Peer>,
    kept1: Seq<Peer>,
    removed1: Seq<Peer>,
    idx: int,
    timeout: u64,
    now: u64,
)
    requires
        distinct_ids(s),
        0 <= idx < s.len(),
        forall|i: int|
            0 <= i < kept0.len() ==> came_from(#[trigger] kept0[i], s, idx, false, timeout, now),
        forall|i: int|
            0 <= i < removed0.len() ==> came_from(
                #[trigger] removed0[i],
                s,
                idx,
                true,
                timeout,
                now,
            ),
        forall|j: int|
            0 <= j < idx && !spec_timed_out(#[trigger] s[j]@, timeout, now) ==> kept0.contains(
                s[j],
            ),
        forall|j: int|
            0 <= j < idx && spec_timed_out(#[trigger] s[j]@, timeout, now) ==> removed0.contains(
                s[j],
            ),
        distinct_ids(kept0),
        distinct_ids(removed0),
        if spec_timed_out(s[idx]@, timeout, now) {
            kept1 == kept0 && removed1 == removed0.push(s[idx])
        } else {
            kept1 == kept0.push(s[idx]) && removed1 == removed0
        },
    ensures
        forall|i: int|
            0 <= i < kept1.len() ==> came_from(#[trigger] kept1[i], s, idx + 1, false, timeout,
            now),
        forall|i: int|
            0 <= i < removed1.len() ==> came_from(
                #[trigger] removed1[i],
                s,
                idx + 1,
                true,
                timeout,
                now,
            ),
        forall|j: int|
            0 <= j < idx + 1 && !spec_timed_out(#[trigger] s[j]@, timeout, now) ==> kept1.contains(
                s[j],
            ),
        forall|j: int|
            0 <= j < idx + 1 && spec_timed_out(#[trigger] s[j]@, timeout, now)
                ==> removed1.contains(s[j]),
        distinct_ids(kept1),
        distinct_ids(removed1),
{
    assert forall|i: int| 0 <= i < kept1.len() implies came_from(
        #[trigger] kept1[i],
        s,
        idx + 1,
        false,
        timeout,
        now,
    ) by {
        if i < kept0.len() {
            assert(kept1[i] == kept0[i]);
            let j = choose|j: int|
                0 <= j < idx && kept0[i] == s[j] && spec_timed_out(#[trigger] s[j]@, timeout, now)
                    == false;
            assert(0 <= j < idx + 1 && kept1[i] == s[j] && spec_timed_out(s[j]@, timeout, now)
                == false);
        } else {
            assert(kept1[i] == s[idx]);
            assert(!spec_timed_out(s[idx]@, timeout, now));
        }
    }
    assert forall|i: int| 0 <= i < removed1.len() implies came_from(
        #[trigger] removed1[i],
        s,
        idx + 1,
        true,
        timeout,
        now,
    ) by {
        if i < removed0.len() {
            assert(removed1[i] == removed0[i]);
            let j = choose|j: int|
                0 <= j < idx && removed0[i] == s[j] && spec_timed_out(
                    #[trigger] s[j]@,
                    timeout,
                    now,
                ) == true;
            assert(0 <= j < idx + 1 && removed1[i] == s[j] && spec_timed_out(s[j]@, timeout, now)
                == true);
        } else {
            assert(removed1[i] == s[idx]);
            assert(spec_timed_out(s[idx]@, timeout, now));
        }
    }
    assert forall|j: int|
        0 <= j < idx + 1 && !spec_timed_out(#[trigger] s[j]@, timeout, now) implies kept1.contains(
        s[j],
    ) by {
        if j < idx {
            let w = choose|w: int| 0 <= w < kept0.len() && kept0[w] == s[j];
            assert(kept1[w] == s[j]);
        } else {
            assert(kept1[kept1.len() - 1] == s[idx]);
        }
    }
    assert forall|j: int|
        0 <= j < idx + 1 && spec_timed_out(#[trigger] s[j]@, timeout, now) implies
        removed1.contains(s[j]) by {
        if j < idx {
            let w = choose|w: int| 0 <= w < removed0.len() && removed0[w] == s[j];
            assert(removed1[w] == s[j]);
        } else {
            assert(removed1[removed1.len() - 1] == s[idx]);
        }
    }
    assert forall|a: int, b: int| 0 <= a < b < kept1.len() implies kept1[a]@.id != kept1[b]@.id by {
        if b < kept0.len() {
            assert(kept0[a]@.id != kept0[b]@.id);
        } else if kept1.len() > kept0.len() {
            assert(kept1[b] == s[idx]);
            let j = choose|j: int|
                0 <= j < idx && kept0[a] == s[j] && spec_timed_out(#[trigger] s[j]@, timeout, now)
                    == false;
            assert(s[j]@.id != s[idx]@.id);
        }
    }
    assert forall|a: int, b: int|
        0 <= a < b < removed1.len() implies removed1[a]@.id != removed1[b]@.id by {
        if b < removed0.len() {
            assert(removed0[a]@.id != removed0[b]@.id);
        } else if removed1.len() > removed0.len() {
            assert(removed1[b] == s[idx]);
            let j = choose|j: int|
                0 <= j < idx && removed0[a] == s[j] && spec_timed_out(
                    #[trigger] s[j]@,
                    timeout,
                    now,
                ) == true;
            assert(s[j]@.id != s[idx]@.id);
        }
    }
}

proof fn lemma_sweep_result(
    s: Seq<Peer>,
    kept: Seq<Peer>,
    removed: Seq<Peer>,
    timeout: u64,
    now: u64,
)
    requires
        distinct_ids(s),
        distinct_ids(kept),
        forall|i: int|
            0 <= i < kept.len() ==> came_from(
                #[trigger] kept[i],
                s,
                s.len() as int,
                false,
                timeout,
                now,
            ),
        forall|i: int|
            0 <= i < removed.len() ==> came_from(
                #[trigger] removed[i],
                s,
                s.len() as int,
                true,
                timeout,
                now,
            ),
        forall|j: int|
            0 <= j < s.len() && !spec_timed_out(#[trigger] s[j]@, timeout, now) ==> kept.contains(
                s[j],
            ),
        forall|j: int|
            0 <= j < s.len() && spec_timed_out(#[trigger] s[j]@, timeout, now) ==> removed.contains(
                s[j],
            ),
    ensures
        forall|k: u128|
            #[trigger] peers_map(kept).contains_key(k) <==> (peers_map(s).contains_key(k)
                && !spec_timed_out(peers_map(s)[k], timeout, now)),
        forall|k: u128| #[trigger]
            peers_map(kept).contains_key(k) ==> peers_map(kept)[k] == peers_map(s)[k],
        forall|i: int|
            0 <= i < removed.len() ==> peers_map(s).contains_key(#[trigger] removed[i]@.id)
                && removed[i]@ == peers_map(s)[removed[i]@.id] && spec_timed_out(
                removed[i]@,
                timeout,
                now,
            ),
        forall|k: u128|
            peers_map(s).contains_key(k) && spec_timed_out(#[trigger] peers_map(s)[k], timeout, now)
                ==> (exists|i: int| 0 <= i < removed.len() && removed[i]@.id == k),
{
    assert forall|k: u128| #[trigger] peers_map(kept).contains_key(k) implies (peers_map(
        s,
    ).contains_key(k) && !spec_timed_out(peers_map(s)[k], timeout, now) && peers_map(kept)[k]
        == peers_map(s)[k]) by {
        lemma_peers_map_contains(kept, k);
        let i = choose|i: int| 0 <= i < kept.len() && kept[i]@.id == k;
        lemma_peers_map_index(kept, i);
        let j = choose|j: int|
            0 <= j < s.len() && kept[i] == s[j] && spec_timed_out(#[trigger] s[j]@, timeout, now)
                == false;
        lemma_peers_map_index(s, j);
    }
    assert forall|k: u128|
        peers_map(s).contains_key(k) && !spec_timed_out(
            #[trigger] peers_map(s)[k],
            timeout,
            now,
        ) implies peers_map(kept).contains_key(k) by {
        lemma_peers_map_contains(s, k);
        let j = choose|j: int| 0 <= j < s.len() && s[j]@.id == k;
        lemma_peers_map_index(s, j);
        assert(kept.contains(s[j]));
        let i = choose|i: int| 0 <= i < kept.len() && kept[i] == s[j];
        lemma_peers_map_index(kept, i);
    }
    assert forall|i: int| 0 <= i < removed.len() implies (peers_map(s).contains_key(
        #[trigger] removed[i]@.id,
    ) && removed[i]@ == peers_map(s)[removed[i]@.id] && spec_timed_out(
        removed[i]@,
        timeout,
        now,
    )) by {
        let j = choose|j: int|
            0 <= j < s.len() && removed[i] == s[j] && spec_timed_out(#[trigger] s[j]@, timeout, now)
                == true;
        lemma_peers_map_index(s, j);
    }
    assert forall|k: u128|
        peers_map(s).contains_key(k) && spec_timed_out(
            #[trigger] peers_map(s)[k],
            timeout,
            now,
        ) implies (exists|i: int| 0 <= i < removed.len() && removed[i]@.id == k) by {
        lemma_peers_map_contains(s, k);
        let j = choose|j: int| 0 <= j < s.len() && s[j]@.id == k;
        lemma_peers_map_index(s, j);
        assert(removed.contains(s[j]));
        let i = choose|i: int| 0 <= i < removed.len() && removed[i] == s[j];
        assert(removed[i]@.id == k);
    }
}


/// Records derived from the same address carry the same identity, so
/// inserting both into an empty directory collapses to one entry holding
/// the later record; records whose derived identities differ, as those of
/// distinct addresses do, yield two entries.
pub proof fn lemma_upsert_identity_collapse(p1: PeerView, p2: PeerView, a1: PeerAddr, a2: PeerAddr)
    requires
        p1.id == spec_peer_id(a1),
        p2.id == spec_peer_id(a2),
    ensures
        a1 == a2 ==> Map::<u128, PeerView>::empty().insert(p1.id, p1).insert(
            p2.id,
            p2,
        ).dom().len() == 1,
        a1 == a2 ==> Map::<u128, PeerView>::empty().insert(p1.id, p1).insert(p2.id, p2)[p2.id]
            == p2,
        p1.id != p2.id ==> Map::<u128, PeerView>::empty().insert(p1.id, p1).insert(
            p2.id,
            p2,
        ).dom().len() == 2,
{
    broadcast use vstd::set::group_set_axioms;

    let m = Map::<u128, PeerView>::empty().insert(p1.id, p1).insert(p2.id, p2);
    if p1.id == p2.id {
        assert(m.dom() =~= Set::<u128>::empty().insert(p2.id));
        assert(Set::<u128>::empty().insert(p2.id).len() == 1);
    } else {
        assert(m.dom() =~= Set::<u128>::empty().insert(p1.id).insert(p2.id));
        assert(Set::<u128>::empty().insert(p1.id).insert(p2.id).len() == 2);
    }
}

} // verus!
