//! Peer identities and the table of connected peers.

use vstd::prelude::*;
use crate::bytes::{
    lemma_lex_antisymmetric, lemma_lex_reflexive, lemma_lex_total, lemma_lex_transitive, lex_le,
};
use crate::sequences::{lemma_filter_members, lemma_filter_step};

verus! {

/// Longest encoding of a peer identity: two prefix bytes and a 64-byte digest.
pub const PEER_ID_MAX_BYTES: usize = 66;

/// A transport identity, held as its multihash encoding padded with zeros.
///
/// Two identities are the same exactly when their encodings are.
#[derive(Clone, Copy, Debug)]
pub struct PeerId {
    pub len: usize,
    pub multihash: [u8; 66],
}

impl View for PeerId {
    type V = Seq<u8>;

    /// The encoding without its padding.
    open spec fn view(&self) -> Seq<u8> {
        self.multihash@.take(self.len as int)
    }
}

impl PeerId {
    pub open spec fn wf(self) -> bool {
        &&& self.len <= PEER_ID_MAX_BYTES
        &&& forall|i: int| self.len <= i < PEER_ID_MAX_BYTES ==> self.multihash[i] == 0
    }

    /// Read an identity from its multihash encoding; `None` if it is too long.
    pub fn from_bytes(bytes: &[u8]) -> (peer: Option<PeerId>)
        ensures
            peer is Some <==> bytes@.len() <= PEER_ID_MAX_BYTES,
            peer matches Some(p) ==> p.wf() && p@ == bytes@,
    {
        if bytes.len() > PEER_ID_MAX_BYTES {
            return None;
        }
        let mut multihash: [u8; 66] = [0u8; 66];
        let mut i: usize = 0;
        while i < bytes.len()
            invariant
                i <= bytes@.len() <= PEER_ID_MAX_BYTES,
                forall|j: int| 0 <= j < i ==> multihash[j] == bytes@[j],
                forall|j: int| i <= j < 66 ==> multihash[j] == 0,
            decreases bytes@.len() - i,
        {
            multihash[i] = bytes[i];
            i += 1;
        }
        let peer = PeerId { len: bytes.len(), multihash };
        assert(peer@ =~= bytes@);
        Some(peer)
    }

    /// The multihash encoding.
    pub fn to_bytes(&self) -> (bytes: Vec<u8>)
        requires
            self.wf(),
        ensures
            bytes@ == self@,
    {
        let mut bytes: Vec<u8> = Vec::new();
        let mut i: usize = 0;
        while i < self.len
            invariant
                self.wf(),
                i <= self.len,
                bytes@ == self.multihash@.take(i as int),
            decreases self.len - i,
        {
            bytes.push(self.multihash[i]);
            i += 1;
            assert(bytes@ =~= self.multihash@.take(i as int));
        }
        bytes
    }

    /// Whether two identities are the same.
    pub fn same(&self, other: &PeerId) -> (same: bool)
        ensures
            same == (*self == *other),
    {
        if self.len != other.len {
            return false;
        }
        let mut i: usize = 0;
        while i < 66
            invariant
                i <= 66,
                forall|j: int| 0 <= j < i ==> self.multihash[j] == other.multihash[j],
            decreases 66 - i,
        {
            if self.multihash[i] != other.multihash[i] {
                return false;
            }
            i += 1;
        }
        assert(self.multihash =~= other.multihash);
        true
    }

    /// Whether this identity comes no later than `other` in the order of encodings.
    pub fn precedes(&self, other: &PeerId) -> (before: bool)
        requires
            self.wf(),
            other.wf(),
        ensures
            before == lex_le(self@, other@),
    {
        let mut i: usize = 0;
        assert(self@.skip(0) =~= self@);
        assert(other@.skip(0) =~= other@);
        while i < self.len && i < other.len
            invariant
                self.wf(),
                other.wf(),
                i <= self.len,
                i <= other.len,
                lex_le(self@, other@) == lex_le(self@.skip(i as int), other@.skip(i as int)),
            decreases self.len - i,
        {
            assert(self@.skip(i as int)[0] == self.multihash[i as int]);
            assert(other@.skip(i as int)[0] == other.multihash[i as int]);
            if self.multihash[i] != other.multihash[i] {
                return self.multihash[i] < other.multihash[i];
            }
            assert(self@.skip(i as int).skip(1) =~= self@.skip(i + 1));
            assert(other@.skip(i as int).skip(1) =~= other@.skip(i + 1));
            i += 1;
        }
        i == self.len
    }
}

/// Well-formed identities are the same exactly when they encode alike.
pub proof fn lemma_peer_identity(a: PeerId, b: PeerId)
    requires
        a.wf(),
        b.wf(),
    ensures
        a == b <==> a@ == b@,
{
    if a@ == b@ {
        assert(a@.len() == a.len && b@.len() == b.len);
        assert forall|i: int| 0 <= i < 66 implies a.multihash[i] == b.multihash[i] by {
            if i < a.len {
                assert(a@[i] == b@[i]);
            }
        }
        assert(a.multihash =~= b.multihash);
    }
}

/// A set of transports that may fail together.
#[derive(Clone, Copy, Debug, PartialEq, Eq, Structural)]
pub struct FailureDomain(pub u64);

/// What the node knows of one connected peer.
#[derive(Clone, Copy, Debug, PartialEq, Eq, Structural)]
pub struct MobilePeer {
    pub failure_domain: FailureDomain,
    pub locally_selected: bool,
}

/// One row of the peer table.
#[derive(Clone, Copy, Debug)]
pub struct PeerEntry {
    pub peer: PeerId,
    pub info: MobilePeer,
}

/// The rows of a peer table, oldest connection first.
pub type PeerRows = Seq<PeerEntry>;

/// Whether the peer has a row.
pub open spec fn connected(rows: PeerRows, peer: PeerId) -> bool {
    exists|i: int| 0 <= i < rows.len() && #[trigger] rows[i].peer == peer
}

/// Every identity is well formed and has one row.
pub open spec fn rows_wf(rows: PeerRows) -> bool {
    &&& forall|i: int| 0 <= i < rows.len() ==> #[trigger] rows[i].peer.wf()
    &&& forall|i: int, j: int| 0 <= i < j < rows.len() ==> rows[i].peer != rows[j].peer
}

/// The row of a connected peer.
pub open spec fn row_of(rows: PeerRows, peer: PeerId) -> int {
    choose|i: int| 0 <= i < rows.len() && #[trigger] rows[i].peer == peer
}

/// The table as the mapping that it stands for.
pub open spec fn rows_map(rows: PeerRows) -> Map<PeerId, MobilePeer> {
    Map::new(|peer: PeerId| connected(rows, peer), |peer: PeerId| rows[row_of(rows, peer)].info)
}

/// The rows after `peer` connected: its row is overwritten, or added at the end.
pub open spec fn rows_insert(rows: PeerRows, peer: PeerId, info: MobilePeer) -> PeerRows {
    if connected(rows, peer) {
        rows.update(row_of(rows, peer), PeerEntry { peer, info })
    } else {
        rows.push(PeerEntry { peer, info })
    }
}

/// The rows after `peer` disconnected.
pub open spec fn rows_remove(rows: PeerRows, peer: PeerId) -> PeerRows {
    rows.filter(|entry: PeerEntry| entry.peer != peer)
}

/// The first connected peer other than `peer`.
pub open spec fn alternate_to(rows: PeerRows, peer: PeerId) -> Option<PeerId> {
    let others = rows_remove(rows, peer);
    if others.len() > 0 {
        Some(others[0].peer)
    } else {
        None
    }
}

/// The table of connected peers.
pub struct PeerTable {
    pub entries: Vec<PeerEntry>,
}

impl View for PeerTable {
    type V = PeerRows;

    open spec fn view(&self) -> PeerRows {
        self.entries@
    }
}

impl PeerTable {
    pub fn new() -> (table: PeerTable)
        ensures
            table@ == PeerRows::empty(),
    {
        PeerTable { entries: Vec::new() }
    }

    /// The number of connected peers.
    pub fn len(&self) -> (n: usize)
        ensures
            n == self@.len(),
    {
        self.entries.len()
    }

    /// The row of the peer, if it is connected.
    pub fn find(&self, peer: &PeerId) -> (row: Option<usize>)
        ensures
            row is Some <==> connected(self@, *peer),
            row matches Some(i) ==> i < self@.len() && self@[i as int].peer == *peer,
    {
        let mut i: usize = 0;
        while i < self.entries.len()
            invariant
                i <= self.entries@.len(),
                forall|j: int| 0 <= j < i ==> self.entries@[j].peer != *peer,
            decreases self.entries@.len() - i,
        {
            if self.entries[i].peer.same(peer) {
                assert(self@[i as int].peer == *peer);
                return Some(i);
            }
            i += 1;
        }
        None
    }

    /// What is known of the peer, if it is connected.
    pub fn get(&self, peer: &PeerId) -> (info: Option<MobilePeer>)
        requires
            rows_wf(self@),
        ensures
            info == (if rows_map(self@).contains_key(*peer) {
                Some(rows_map(self@)[*peer])
            } else {
                None
            }),
    {
        match self.find(peer) {
            Some(i) => {
                assert(row_of(self@, *peer) == i);
                Some(self.entries[i].info)
            },
            None => None,
        }
    }

    /// Record a connected peer.
    pub fn insert(&mut self, peer: PeerId, info: MobilePeer)
        requires
            rows_wf(old(self)@),
            peer.wf(),
        ensures
            final(self)@ == rows_insert(old(self)@, peer, info),
            rows_wf(final(self)@),
    {
        match self.find(&peer) {
            Some(i) => {
                assert(row_of(self@, peer) == i);
                self.entries.set(i, PeerEntry { peer, info });
            },
            None => {
                self.entries.push(PeerEntry { peer, info });
            },
        }
    }

    /// Forget a disconnected peer.
    pub fn remove(&mut self, peer: &PeerId)
        requires
            rows_wf(old(self)@),
        ensures
            final(self)@ == rows_remove(old(self)@, *peer),
            rows_wf(final(self)@),
    {
        let ghost keep = |entry: PeerEntry| entry.peer != *peer;
        let mut kept: Vec<PeerEntry> = Vec::new();
        let mut i: usize = 0;
        while i < self.entries.len()
            invariant
                i <= self.entries@.len(),
                keep == (|entry: PeerEntry| entry.peer != *peer),
                kept@ == self.entries@.take(i as int).filter(keep),
            decreases self.entries@.len() - i,
        {
            proof {
                lemma_filter_step(self.entries@, keep, i as int);
            }
            if !self.entries[i].peer.same(peer) {
                kept.push(self.entries[i]);
            }
            i += 1;
        }
        assert(self.entries@.take(i as int) =~= self.entries@);
        proof {
            lemma_rows_remove(self.entries@, *peer);
        }
        self.entries = kept;
    }

    /// The first connected peer other than `peer`.
    pub fn alternate(&self, peer: &PeerId) -> (other: Option<PeerId>)
        ensures
            other == alternate_to(self@, *peer),
    {
        let ghost keep = |entry: PeerEntry| entry.peer != *peer;
        let mut i: usize = 0;
        while i < self.entries.len()
            invariant
                i <= self.entries@.len(),
                keep == (|entry: PeerEntry| entry.peer != *peer),
                self.entries@.take(i as int).filter(keep) == PeerRows::empty(),
            decreases self.entries@.len() - i,
        {
            proof {
                lemma_filter_step(self.entries@, keep, i as int);
            }
            if !self.entries[i].peer.same(peer) {
                proof {
                    let n = i + 1;
                    assert(self.entries@ =~= self.entries@.take(n) + self.entries@.skip(n));
                    Seq::filter_distributes_over_add(
                        self.entries@.take(n),
                        self.entries@.skip(n),
                        keep,
                    );
                    assert(self.entries@.filter(keep)[0] == self.entries@[i as int]);
                }
                return Some(self.entries[i].peer);
            }
            i += 1;
        }
        assert(self.entries@.take(i as int) =~= self.entries@);
        None
    }
}

/// Removing a peer leaves a well-formed table that lacks exactly that peer.
pub proof fn lemma_rows_remove(rows: PeerRows, peer: PeerId)
    requires
        rows_wf(rows),
    ensures
        rows_wf(rows_remove(rows, peer)),
        forall|p: PeerId| #[trigger] connected(rows_remove(rows, peer), p) <==> connected(rows, p) && p != peer,
    decreases rows.len(),
{
    reveal(Seq::filter);
    let keep = |entry: PeerEntry| entry.peer != peer;
    let out = rows_remove(rows, peer);
    if rows.len() > 0 {
        let rest = rows.drop_last();
        let kept = rest.filter(keep);
        lemma_rows_remove(rest, peer);
        assert(out == (if keep(rows.last()) { kept.push(rows.last()) } else { kept }));
        assert forall|p: PeerId| #[trigger] connected(out, p) <==> connected(rows, p) && p != peer by {
            if connected(out, p) {
                let k = choose|k: int| 0 <= k < out.len() && #[trigger] out[k].peer == p;
                if k < kept.len() {
                    assert(kept[k].peer == p);
                    assert(connected(kept, p));
                    let j = choose|j: int| 0 <= j < rest.len() && #[trigger] rest[j].peer == p;
                    assert(rows[j].peer == p);
                } else {
                    assert(rows[rows.len() - 1].peer == p);
                }
            }
            if connected(rows, p) && p != peer {
                let j = choose|j: int| 0 <= j < rows.len() && #[trigger] rows[j].peer == p;
                if j == rows.len() - 1 {
                    assert(out[out.len() - 1].peer == p);
                } else {
                    assert(rest[j].peer == p);
                    assert(connected(rest, p));
                    assert(connected(kept, p));
                    let k = choose|k: int| 0 <= k < kept.len() && #[trigger] kept[k].peer == p;
                    assert(out[k].peer == p);
                }
            }
        }
        assert forall|i: int| 0 <= i < out.len() implies #[trigger] out[i].peer.wf() by {
            if i < kept.len() {
                assert(kept[i].peer.wf());
            } else {
                assert(rows[rows.len() - 1].peer.wf());
            }
        }
        assert forall|i: int, j: int| 0 <= i < j < out.len() implies out[i].peer != out[j].peer by {
            if j < kept.len() {
                assert(kept[i].peer != kept[j].peer);
            } else {
                assert(kept[i].peer == out[i].peer);
                assert(connected(kept, out[i].peer));
                assert(connected(rest, out[i].peer));
                let k = choose|k: int| 0 <= k < rest.len() && #[trigger] rest[k].peer == out[i].peer;
                assert(rows[k].peer != rows[rows.len() - 1].peer);
            }
        }
    }
}

/// Connecting a peer binds it in the table and leaves every other peer alone.
pub proof fn lemma_insert_is_map_insert(rows: PeerRows, peer: PeerId, info: MobilePeer)
    requires
        rows_wf(rows),
        peer.wf(),
    ensures
        rows_wf(rows_insert(rows, peer, info)),
        rows_map(rows_insert(rows, peer, info)) == rows_map(rows).insert(peer, info),
{
    let out = rows_insert(rows, peer, info);
    if connected(rows, peer) {
        let r = row_of(rows, peer);
        assert(rows[r].peer == peer);
    }
    assert forall|p: PeerId| connected(out, p) <==> connected(rows, p) || p == peer by {
        if connected(out, p) && p != peer {
            let k = choose|k: int| 0 <= k < out.len() && #[trigger] out[k].peer == p;
            assert(rows[k].peer == p);
        }
        if connected(rows, p) && p != peer {
            let k = choose|k: int| 0 <= k < rows.len() && #[trigger] rows[k].peer == p;
            assert(out[k].peer == p);
        }
        if p == peer {
            if connected(rows, peer) {
                assert(out[row_of(rows, peer)].peer == peer);
            } else {
                assert(out[rows.len() as int].peer == peer);
            }
        }
    }
    assert forall|p: PeerId| connected(out, p) implies rows_map(out)[p] == rows_map(rows).insert(
        peer,
        info,
    )[p] by {
        let k = row_of(out, p);
        assert(out[k].peer == p);
        if p != peer {
            let j = row_of(rows, p);
            assert(connected(rows, p));
            assert(rows[j].peer == p && rows[k].peer == p);
            assert(j == k);
        }
    }
    assert(rows_map(out) =~= rows_map(rows).insert(peer, info));
}

/// Disconnecting a peer unbinds it in the table and leaves every other peer alone.
pub proof fn lemma_remove_is_map_remove(rows: PeerRows, peer: PeerId)
    requires
        rows_wf(rows),
    ensures
        rows_wf(rows_remove(rows, peer)),
        rows_map(rows_remove(rows, peer)) == rows_map(rows).remove(peer),
{
    lemma_rows_remove(rows, peer);
    let keep = |entry: PeerEntry| entry.peer != peer;
    let out = rows_remove(rows, peer);
    lemma_filter_members(rows, keep);
    assert forall|p: PeerId| connected(out, p) implies rows_map(out)[p] == rows_map(rows)[p] by {
        let k = row_of(out, p);
        assert(out[k].peer == p);
        assert(out.contains(out[k]));
        let j = choose|j: int| 0 <= j < rows.len() && rows[j] == out[k];
        let r = row_of(rows, p);
        assert(rows[j].peer == p);
        assert(connected(rows, p));
        assert(rows[r].peer == p);
        assert(r == j);
    }
    assert(rows_map(out) =~= rows_map(rows).remove(peer));
}

/// Locally selected peers that are not in `requested`, in table order.
pub open spec fn eligible_peers(rows: PeerRows, requested: Seq<PeerId>) -> Seq<PeerId> {
    rows.filter(|entry: PeerEntry| entry.info.locally_selected && !requested.contains(entry.peer)).map_values(
        |entry: PeerEntry| entry.peer,
    )
}

/// Ascending by encoding.
pub open spec fn encoding_sorted(peers: Seq<PeerId>) -> bool {
    forall|i: int, j: int| 0 <= i <= j < peers.len() ==> lex_le(#[trigger] peers[i]@, #[trigger] peers[j]@)
}

/// `chosen` are the first `room` of `peers` in the order of their encodings.
pub open spec fn lowest_by_encoding(chosen: Seq<PeerId>, peers: Seq<PeerId>, room: int) -> bool {
    exists|all: Seq<PeerId>| #[trigger]
        encoding_sorted(all) && all.to_multiset() == peers.to_multiset() && chosen == all.take(
            if room < all.len() {
                room
            } else {
                all.len() as int
            },
        )
}

/// Two ascending lists of the same peers are the same list.
proof fn lemma_sorted_alike(a: Seq<PeerId>, b: Seq<PeerId>)
    requires
        encoding_sorted(a),
        encoding_sorted(b),
        a.to_multiset() == b.to_multiset(),
        forall|i: int| 0 <= i < a.len() ==> #[trigger] a[i].wf(),
    ensures
        a == b,
    decreases a.len(),
{
    a.to_multiset_ensures();
    b.to_multiset_ensures();
    assert(a.len() == b.len());
    if a.len() > 0 {
        assert(a.contains(a[0]) && a.to_multiset().count(a[0]) > 0);
        assert(b.contains(b[0]) && b.to_multiset().count(b[0]) > 0);
        assert(b.contains(a[0]) && a.contains(b[0]));
        let i = choose|i: int| 0 <= i < b.len() && b[i] == a[0];
        let j = choose|j: int| 0 <= j < a.len() && a[j] == b[0];
        assert(lex_le(b[0]@, b[i]@));
        assert(lex_le(a[0]@, a[j]@));
        lemma_lex_antisymmetric(a[0]@, b[0]@);
        lemma_peer_identity(a[0], b[0]);
        let a_rest = a.remove(0);
        let b_rest = b.remove(0);
        assert forall|i: int, j: int| 0 <= i <= j < a_rest.len() implies lex_le(
            #[trigger] a_rest[i]@,
            #[trigger] a_rest[j]@,
        ) by {
            assert(lex_le(a[i + 1]@, a[j + 1]@));
        }
        assert forall|i: int, j: int| 0 <= i <= j < b_rest.len() implies lex_le(
            #[trigger] b_rest[i]@,
            #[trigger] b_rest[j]@,
        ) by {
            assert(lex_le(b[i + 1]@, b[j + 1]@));
        }
        assert forall|i: int| 0 <= i < a_rest.len() implies #[trigger] a_rest[i].wf() by {
            assert(a[i + 1].wf());
        }
        lemma_sorted_alike(a_rest, b_rest);
        assert forall|i: int| 0 <= i < a.len() implies a[i] == b[i] by {
            if i > 0 {
                assert(a_rest[i - 1] == a[i] && b_rest[i - 1] == b[i]);
            }
        }
    }
    assert(a =~= b);
}

/// The order of encodings leaves no choice: there is one list of the lowest peers.
pub proof fn lemma_lowest_is_unique(first: Seq<PeerId>, second: Seq<PeerId>, peers: Seq<PeerId>, room: int)
    requires
        forall|i: int| 0 <= i < peers.len() ==> #[trigger] peers[i].wf(),
        lowest_by_encoding(first, peers, room),
        lowest_by_encoding(second, peers, room),
    ensures
        first == second,
{
    let cut = |all: Seq<PeerId>|
        all.take(
            if room < all.len() {
                room
            } else {
                all.len() as int
            },
        );
    let a = choose|all: Seq<PeerId>| #[trigger]
        encoding_sorted(all) && all.to_multiset() == peers.to_multiset() && first == cut(all);
    let b = choose|all: Seq<PeerId>| #[trigger]
        encoding_sorted(all) && all.to_multiset() == peers.to_multiset() && second == cut(all);
    assert(exists|all: Seq<PeerId>| #[trigger]
        encoding_sorted(all) && all.to_multiset() == peers.to_multiset() && first == cut(all));
    assert(exists|all: Seq<PeerId>| #[trigger]
        encoding_sorted(all) && all.to_multiset() == peers.to_multiset() && second == cut(all));
    a.to_multiset_ensures();
    peers.to_multiset_ensures();
    assert forall|i: int| 0 <= i < a.len() implies #[trigger] a[i].wf() by {
        assert(a.contains(a[i]) && a.to_multiset().count(a[i]) > 0);
        assert(peers.contains(a[i]));
        let k = choose|k: int| 0 <= k < peers.len() && peers[k] == a[i];
        assert(peers[k].wf());
    }
    lemma_sorted_alike(a, b);
}

/// Whether the list names the peer.
pub fn contains_peer(peers: &Vec<PeerId>, peer: &PeerId) -> (found: bool)
    ensures
        found == peers@.contains(*peer),
{
    let mut i: usize = 0;
    while i < peers.len()
        invariant
            i <= peers@.len(),
            forall|j: int| 0 <= j < i ==> peers@[j] != *peer,
        decreases peers@.len() - i,
    {
        if peers[i].same(peer) {
            return true;
        }
        i += 1;
    }
    false
}

/// Put one peer in its place in an ascending list.
fn insert_sorted(sorted: &mut Vec<PeerId>, peer: PeerId)
    requires
        encoding_sorted(old(sorted)@),
        forall|i: int| 0 <= i < old(sorted)@.len() ==> #[trigger] old(sorted)@[i].wf(),
        peer.wf(),
    ensures
        encoding_sorted(final(sorted)@),
        forall|i: int| 0 <= i < final(sorted)@.len() ==> #[trigger] final(sorted)@[i].wf(),
        final(sorted)@.to_multiset() == old(sorted)@.to_multiset().insert(peer),
{
    let ghost before = sorted@;
    let mut at: usize = 0;
    while at < sorted.len() && sorted[at].precedes(&peer)
        invariant
            at <= sorted@.len(),
            sorted@ == before,
            peer.wf(),
            forall|i: int| 0 <= i < before.len() ==> #[trigger] before[i].wf(),
            forall|i: int| 0 <= i < at ==> lex_le(#[trigger] before[i]@, peer@),
        decreases sorted@.len() - at,
    {
        at += 1;
    }
    proof {
        if at < before.len() {
            lemma_lex_total(peer@, before[at as int]@);
            assert forall|i: int| at <= i < before.len() implies lex_le(peer@, #[trigger] before[i]@) by {
                lemma_lex_transitive(peer@, before[at as int]@, before[i]@);
            }
        }
        lemma_lex_reflexive(peer@);
        before.to_multiset_ensures();
        vstd::seq_lib::to_multiset_insert(before, at as int, peer);
    }
    sorted.insert(at, peer);
}

impl PeerTable {
    /// The locally selected peers outside `requested`, in the order of their encodings, at most `room`.
    pub fn lowest_unrequested(&self, requested: &Vec<PeerId>, room: usize) -> (chosen: Vec<PeerId>)
        requires
            rows_wf(self@),
        ensures
            lowest_by_encoding(chosen@, eligible_peers(self@, requested@), room as int),
    {
        let ghost pass = |entry: PeerEntry| entry.info.locally_selected && !requested@.contains(entry.peer);
        let ghost id = |entry: PeerEntry| entry.peer;
        let mut sorted: Vec<PeerId> = Vec::new();
        let mut i: usize = 0;
        assert(self.entries@.take(0).filter(pass).map_values(id) =~= Seq::<PeerId>::empty()) by {
            reveal(Seq::filter);
        }
        while i < self.entries.len()
            invariant
                i <= self.entries@.len(),
                rows_wf(self@),
                pass == (|entry: PeerEntry| entry.info.locally_selected && !requested@.contains(entry.peer)),
                id == (|entry: PeerEntry| entry.peer),
                encoding_sorted(sorted@),
                forall|k: int| 0 <= k < sorted@.len() ==> #[trigger] sorted@[k].wf(),
                sorted@.to_multiset() == self.entries@.take(i as int).filter(pass).map_values(
                    id,
                ).to_multiset(),
            decreases self.entries@.len() - i,
        {
            let entry = self.entries[i];
            proof {
                lemma_filter_step(self.entries@, pass, i as int);
                let done = self.entries@.take(i as int).filter(pass);
                assert(self@[i as int].peer.wf());
                assert(done.push(entry).map_values(id) =~= done.map_values(id).push(entry.peer));
                vstd::seq_lib::to_multiset_build(done.map_values(id), entry.peer);
            }
            if entry.info.locally_selected && !contains_peer(requested, &entry.peer) {
                insert_sorted(&mut sorted, entry.peer);
            }
            i += 1;
        }
        assert(self.entries@.take(i as int) =~= self.entries@);
        let ghost all = sorted@;
        if room < sorted.len() {
            sorted.truncate(room);
        }
        assert(encoding_sorted(all));
        assert(sorted@ =~= all.take(
            if room < all.len() {
                room as int
            } else {
                all.len() as int
            },
        ));
        sorted
    }
}

} // verus!
