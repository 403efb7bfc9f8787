//! What holds of peer identities and of the table of connected peers.

use vstd::prelude::*;
use crate::bytes::lex_le;
use crate::peer::{
    connected, contains_peer, eligible_peers, encoding_sorted, lemma_peer_identity, lowest_by_encoding, row_of,
    rows_map, rows_remove, rows_wf, FailureDomain, MobilePeer, PeerEntry, PeerId, PeerTable,
};
use crate::p2p_runtime::MobileP2PRuntime;
use crate::sequences::lemma_filter_members;

verus! {

/// What is read as an identity is written as the same bytes; only an encoding
/// of more than sixty-six bytes is no identity.
pub proof fn lemma_identities_are_read_and_written_alike(
    bytes: &[u8],
    read: Option<PeerId>,
    written: Vec<u8>,
)
    requires
        call_ensures(PeerId::from_bytes, (bytes,), read),
        read is Some ==> call_ensures(PeerId::to_bytes, (&(read->0),), written),
    ensures
        read is Some <==> bytes@.len() <= 66,
        read is Some ==> written@ == bytes@,
{
}

/// Two identities are the same exactly if they are written as the same bytes.
pub proof fn lemma_identities_are_their_bytes(a: PeerId, b: PeerId, same: bool, a_bytes: Vec<u8>, b_bytes: Vec<u8>)
    requires
        a.wf(),
        b.wf(),
        call_ensures(PeerId::same, (&a, &b), same),
        call_ensures(PeerId::to_bytes, (&a,), a_bytes),
        call_ensures(PeerId::to_bytes, (&b,), b_bytes),
    ensures
        same <==> a_bytes@ == b_bytes@,
        same <==> a == b,
{
    lemma_peer_identity(a, b);
}

/// Byte strings are ordered by the first byte in which they differ.
pub proof fn lemma_the_first_different_byte_decides(a: Seq<u8>, b: Seq<u8>, k: int)
    requires
        0 <= k <= a.len(),
        k <= b.len(),
        forall|i: int| 0 <= i < k ==> a[i] == b[i],
        k < a.len() && k < b.len() ==> a[k] != b[k],
    ensures
        k < a.len() && k < b.len() ==> (lex_le(a, b) <==> a[k] < b[k]),
        k == a.len() ==> lex_le(a, b),
        k == b.len() && k < a.len() ==> !lex_le(a, b),
    decreases k,
{
    if k > 0 {
        assert(a[0] == b[0]);
        let a_rest = a.skip(1);
        let b_rest = b.skip(1);
        assert forall|i: int| 0 <= i < k - 1 implies a_rest[i] == b_rest[i] by {
            assert(a[i + 1] == b[i + 1]);
        }
        lemma_the_first_different_byte_decides(a_rest, b_rest, k - 1);
    }
}

/// Identities come in the order of their bytes.
pub proof fn lemma_identities_are_ordered_by_their_bytes(a: PeerId, b: PeerId, k: int, before: bool)
    requires
        a.wf(),
        b.wf(),
        call_ensures(PeerId::precedes, (&a, &b), before),
        0 <= k <= a@.len(),
        k <= b@.len(),
        forall|i: int| 0 <= i < k ==> a@[i] == b@[i],
        k < a@.len() && k < b@.len() ==> a@[k] != b@[k],
    ensures
        k < a@.len() && k < b@.len() ==> (before <==> a@[k] < b@[k]),
        k == a@.len() ==> before,
        k == b@.len() && k < a@.len() ==> !before,
{
    lemma_the_first_different_byte_decides(a@, b@, k);
}

/// A list names a peer if the peer is one of its members.
pub proof fn lemma_a_listed_peer_is_found(peers: Vec<PeerId>, peer: PeerId, found: bool)
    requires
        call_ensures(contains_peer, (&peers, &peer), found),
    ensures
        found <==> exists|i: int| 0 <= i < peers@.len() && #[trigger] peers@[i] == peer,
{
}

/// A peer that connects is in the table with what is known of it, at the end if
/// it is new and in its old place if it is not; no other row changes.
pub proof fn lemma_a_connected_peer_has_a_row(table: &mut PeerTable, peer: PeerId, info: MobilePeer)
    requires
        rows_wf(old(table)@),
        call_ensures(PeerTable::insert, (table, peer, info), ()),
    ensures
        forall|i: int|
            0 <= i < old(table)@.len() ==> i < final(table)@.len() && #[trigger] final(table)@[i] == (if old(table)@[i].peer == peer {
                PeerEntry { peer, info }
            } else {
                old(table)@[i]
            }),
        (exists|i: int| 0 <= i < old(table)@.len() && (#[trigger] old(table)@[i]).peer == peer) ==> final(table)@.len() == old(table)@.len(),
        (forall|i: int| 0 <= i < old(table)@.len() ==> (#[trigger] old(table)@[i]).peer != peer) ==> final(table)@.len() == old(table)@.len() + 1 && final(table)@.last() == (PeerEntry { peer, info }),
{
    let before = old(table)@;
    if connected(before, peer) {
        let row = row_of(before, peer);
        assert(0 <= row < before.len() && before[row].peer == peer);
        assert forall|i: int| 0 <= i < before.len() implies i < final(table)@.len() && #[trigger] final(table)@[i] == (
        if before[i].peer == peer {
            PeerEntry { peer, info }
        } else {
            before[i]
        }) by {
            if before[i].peer == peer {
                assert(i == row) by {
                    if i < row {
                        assert(before[i].peer != before[row].peer);
                    } else if row < i {
                        assert(before[row].peer != before[i].peer);
                    }
                }
            }
        }
    } else {
        assert forall|i: int| 0 <= i < before.len() implies before[i].peer != peer by {}
    }
}

/// A peer that disconnects loses its row; the other rows stay, in their order.
pub proof fn lemma_a_disconnected_peer_has_no_row(table: &mut PeerTable, peer: PeerId)
    requires
        rows_wf(old(table)@),
        call_ensures(PeerTable::remove, (table, &peer), ()),
    ensures
        final(table)@ == old(table)@.filter(|entry: PeerEntry| entry.peer != peer),
{
}

/// What is told of a peer is what its row says, and only connected peers have one.
pub proof fn lemma_the_table_tells_what_it_holds(
    table: PeerTable,
    peer: PeerId,
    i: int,
    n: usize,
    row: Option<usize>,
    info: Option<MobilePeer>,
)
    requires
        rows_wf(table@),
        call_ensures(PeerTable::len, (&table,), n),
        call_ensures(PeerTable::find, (&table, &peer), row),
        call_ensures(PeerTable::get, (&table, &peer), info),
    ensures
        n == table@.len(),
        0 <= i < table@.len() && table@[i].peer == peer ==> row == Some(i as usize) && info == Some(table@[i].info),
        (forall|j: int| 0 <= j < table@.len() ==> (#[trigger] table@[j]).peer != peer) ==> row is None && info is None,
{
    let rows = table@;
    if 0 <= i < rows.len() && rows[i].peer == peer {
        assert(connected(rows, peer));
        let j = row->0 as int;
        let r = row_of(rows, peer);
        assert(0 <= r < rows.len() && rows[r].peer == peer);
        assert(j == i) by {
            if j < i {
                assert(rows[j].peer != rows[i].peer);
            } else if i < j {
                assert(rows[i].peer != rows[j].peer);
            }
        }
        assert(r == i) by {
            if r < i {
                assert(rows[r].peer != rows[i].peer);
            } else if i < r {
                assert(rows[i].peer != rows[r].peer);
            }
        }
    }
    if forall|j: int| 0 <= j < rows.len() ==> (#[trigger] rows[j]).peer != peer {
        assert(!connected(rows, peer));
    }
}

/// The other peer is the first of the table that is not the named one.
pub proof fn lemma_the_other_peer_is_the_first_other(table: PeerTable, peer: PeerId, other: Option<PeerId>, k: int)
    requires
        call_ensures(PeerTable::alternate, (&table, &peer), other),
        0 <= k <= table@.len(),
        forall|i: int| 0 <= i < k ==> (#[trigger] table@[i]).peer == peer,
        k < table@.len() ==> table@[k].peer != peer,
    ensures
        k < table@.len() ==> other == Some(table@[k].peer),
        k == table@.len() ==> other is None,
{
    lemma_first_kept(table@, peer, k);
}

proof fn lemma_first_kept(rows: Seq<PeerEntry>, peer: PeerId, k: int)
    requires
        0 <= k <= rows.len(),
        forall|i: int| 0 <= i < k ==> (#[trigger] rows[i]).peer == peer,
        k < rows.len() ==> rows[k].peer != peer,
    ensures
        k < rows.len() ==> rows_remove(rows, peer).len() > 0 && rows_remove(rows, peer)[0] == rows[k],
        k == rows.len() ==> rows_remove(rows, peer).len() == 0,
    decreases rows.len(),
{
    reveal(Seq::filter);
    if rows.len() > 0 {
        let fewer = rows.drop_last();
        if k < rows.len() {
            lemma_first_kept(fewer, peer, k);
        } else {
            lemma_first_kept(fewer, peer, k - 1);
            assert(rows[rows.len() - 1].peer == peer);
        }
    }
}

/// A peer is connected, locally selected and not on the list.
pub open spec fn may_be_asked(rows: Seq<PeerEntry>, requested: Seq<PeerId>, peer: PeerId) -> bool {
    &&& !requested.contains(peer)
    &&& exists|r: int| 0 <= r < rows.len() && (#[trigger] rows[r]).peer == peer && rows[r].info.locally_selected
}

/// The mempool is pulled from locally selected peers that were not asked
/// before, as many as there is room for: those whose encodings come first, in
/// ascending order and each once.
pub proof fn lemma_the_first_unasked_peers_are_chosen(
    table: PeerTable,
    requested: Vec<PeerId>,
    room: usize,
    chosen: Vec<PeerId>,
)
    requires
        rows_wf(table@),
        call_ensures(PeerTable::lowest_unrequested, (&table, &requested, room), chosen),
    ensures
        ({
            let open = table@.filter(
                |entry: PeerEntry| entry.info.locally_selected && !requested@.contains(entry.peer),
            );
            &&& chosen@.len() == (if room < open.len() {
                room as int
            } else {
                open.len() as int
            })
            &&& forall|i: int| 0 <= i < chosen@.len() ==> may_be_asked(table@, requested@, #[trigger] chosen@[i])
            &&& forall|i: int, j: int|
                0 <= i <= j < chosen@.len() ==> lex_le(#[trigger] chosen@[i]@, #[trigger] chosen@[j]@)
            &&& forall|i: int, j: int|
                0 <= i < chosen@.len() && 0 <= j < open.len() && !chosen@.contains(open[j].peer) ==> lex_le(
                    #[trigger] chosen@[i]@,
                    (#[trigger] open[j]).peer@,
                )
        }),
        chosen@.no_duplicates(),
{
    lemma_lowest(table@, requested@, room as int, chosen@);
}

pub proof fn lemma_lowest(rows: Seq<PeerEntry>, requested: Seq<PeerId>, room: int, chosen: Seq<PeerId>)
    requires
        rows_wf(rows),
        room >= 0,
        lowest_by_encoding(chosen, eligible_peers(rows, requested), room),
    ensures
        ({
            let open = rows.filter(
                |entry: PeerEntry| entry.info.locally_selected && !requested.contains(entry.peer),
            );
            &&& chosen.len() == (if room < open.len() {
                room
            } else {
                open.len() as int
            })
            &&& forall|i: int| 0 <= i < chosen.len() ==> may_be_asked(rows, requested, #[trigger] chosen[i])
            &&& forall|i: int, j: int|
                0 <= i <= j < chosen.len() ==> lex_le(#[trigger] chosen[i]@, #[trigger] chosen[j]@)
            &&& forall|i: int, j: int|
                0 <= i < chosen.len() && 0 <= j < open.len() && !chosen.contains(open[j].peer) ==> lex_le(
                    #[trigger] chosen[i]@,
                    (#[trigger] open[j]).peer@,
                )
        }),
        chosen.no_duplicates(),
{
    let pass = |entry: PeerEntry| entry.info.locally_selected && !requested.contains(entry.peer);
    let open = rows.filter(pass);
    let ids = eligible_peers(rows, requested);
    assert(ids.len() == open.len());
    assert forall|j: int| 0 <= j < open.len() implies ids[j] == (#[trigger] open[j]).peer by {}
    let all = choose|all: Seq<PeerId>| #[trigger]
        encoding_sorted(all) && all.to_multiset() == ids.to_multiset() && chosen == all.take(
            if room < all.len() {
                room
            } else {
                all.len() as int
            },
        );
    all.to_multiset_ensures();
    ids.to_multiset_ensures();
    assert(all.len() == ids.len());
    lemma_filter_members(rows, pass);
    assert forall|i: int| 0 <= i < chosen.len() implies may_be_asked(rows, requested, #[trigger] chosen[i]) by {
        assert(all.contains(all[i]));
        assert(all.to_multiset().count(chosen[i]) > 0);
        assert(ids.contains(chosen[i]));
        let j = choose|j: int| 0 <= j < ids.len() && ids[j] == chosen[i];
        assert(open[j].peer == chosen[i]);
        assert(open.contains(open[j]));
        let r = choose|r: int| 0 <= r < rows.len() && rows[r] == open[j];
        assert(rows[r].peer == chosen[i]);
    }
    assert forall|i: int, j: int|
        0 <= i < chosen.len() && 0 <= j < open.len() && !chosen.contains(open[j].peer) implies lex_le(
        #[trigger] chosen[i]@,
        (#[trigger] open[j]).peer@,
    ) by {
        assert(ids.contains(ids[j]));
        assert(ids.to_multiset().count(open[j].peer) > 0);
        assert(all.contains(open[j].peer));
        let m = choose|m: int| 0 <= m < all.len() && all[m] == open[j].peer;
        if m < chosen.len() {
            assert(chosen[m] == open[j].peer);
        }
        assert(lex_le(all[i]@, all[m]@));
    }
    lemma_open_peers_differ(rows, pass);
    assert(ids.no_duplicates());
    ids.lemma_multiset_has_no_duplicates();
    all.lemma_multiset_has_no_duplicates_conv();
    assert(all.no_duplicates());
}

proof fn lemma_open_peers_differ(rows: Seq<PeerEntry>, pass: spec_fn(PeerEntry) -> bool)
    requires
        rows_wf(rows),
    ensures
        forall|i: int, j: int|
            0 <= i < j < rows.filter(pass).len() ==> (#[trigger] rows.filter(pass)[i]).peer != (
            #[trigger] rows.filter(pass)[j]).peer,
    decreases rows.len(),
{
    reveal(Seq::filter);
    if rows.len() > 0 {
        let rest = rows.drop_last();
        assert forall|i: int| 0 <= i < rest.len() implies #[trigger] rest[i].peer.wf() by {
            assert(rows[i].peer.wf());
        }
        lemma_open_peers_differ(rest, pass);
        lemma_filter_members(rest, pass);
        let kept = rest.filter(pass);
        let out = rows.filter(pass);
        assert forall|i: int, j: int| 0 <= i < j < out.len() implies (#[trigger] out[i]).peer != (
        #[trigger] out[j]).peer by {
            if j < kept.len() {
                assert(kept[i].peer != kept[j].peer);
            } else {
                assert(kept.contains(kept[i]));
                let m = choose|m: int| 0 <= m < rest.len() && rest[m] == kept[i];
                assert(rows[m].peer != rows[rows.len() - 1].peer);
            }
        }
    }
}

/// The objects of a connected peer count under its own failure domain, those of
/// any other under the one at hand.
pub proof fn lemma_a_peer_counts_under_its_own_domain(
    runtime: MobileP2PRuntime,
    peer: PeerId,
    fallback: FailureDomain,
    known: Option<FailureDomain>,
    domain: FailureDomain,
    n: usize,
    i: int,
)
    requires
        runtime@.wf(),
        call_ensures(MobileP2PRuntime::peer_failure_domain, (&runtime, &peer), known),
        call_ensures(MobileP2PRuntime::failure_domain_or, (&runtime, &peer, fallback), domain),
        call_ensures(MobileP2PRuntime::peer_count, (&runtime,), n),
    ensures
        n == runtime.peers@.len(),
        0 <= i < runtime.peers@.len() && runtime.peers@[i].peer == peer ==> known == Some(
            runtime.peers@[i].info.failure_domain,
        ) && domain == runtime.peers@[i].info.failure_domain,
        (forall|j: int| 0 <= j < runtime.peers@.len() ==> (#[trigger] runtime.peers@[j]).peer != peer) ==> known is None
            && domain == fallback,
{
    let rows = runtime.peers@;
    if 0 <= i < rows.len() && rows[i].peer == peer {
        assert(connected(rows, peer));
        let r = row_of(rows, peer);
        assert(0 <= r < rows.len() && rows[r].peer == peer);
        assert(r == i) by {
            if r < i {
                assert(rows[r].peer != rows[i].peer);
            } else if i < r {
                assert(rows[i].peer != rows[r].peer);
            }
        }
        assert(rows_map(rows).contains_key(peer));
    }
    if forall|j: int| 0 <= j < rows.len() ==> (#[trigger] rows[j]).peer != peer {
        assert(!connected(rows, peer));
    }
}

} // verus!
