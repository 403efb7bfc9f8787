//! What holds of the transport runtime as a whole.

use vstd::prelude::*;
use crate::arith::{sat_add, sat_sub};
use crate::bootstrap::{gap_beyond_serving, range_count, MobileBootstrapStage, TailSync, HEADER_BATCH_MAX};
use crate::p2p_runtime::{
    peers_without, other_than, probe_is, probe_retained, probed_recently, probes_fresh, probes_without, ProviderProbe,
    RuntimeView, TailStep, PROBE_REPEAT_MS,
};
use crate::peer::{connected, lemma_rows_remove, rows_insert, rows_remove, rows_wf, MobilePeer, PeerEntry, PeerId};
use crate::sequences::{lemma_filter_members, lemma_filter_step};

verus! {

/// The bootstrap completes only on proof that the tail is caught up: an empty
/// answer right above the durable tip, nothing higher seen, no suffix being
/// fetched and none being applied.
pub proof fn lemma_completion_needs_proof(
    view: RuntimeView,
    exact_active: bool,
    local_height: u64,
    now_ms: u64,
    serving_depth: u64,
)
    requires
        view.drive_tail(exact_active, local_height, now_ms, serving_depth).1 is Complete,
    ensures
        !exact_active,
        !view.apply_inflight,
        view.stage is TailSync,
        view.stage->TailSync_0.empty_probe_start == Some(sat_add(local_height, 1)),
        view.stage->TailSync_0.observed_frontier <= local_height,
{
}

/// The tail has at most one header request outstanding: another one is sent
/// only after an answer, a failure, a disconnect or the timeout of the last.
pub proof fn lemma_one_tail_request_at_a_time(
    view: RuntimeView,
    exact_active: bool,
    local_height: u64,
    now_ms: u64,
    serving_depth: u64,
)
    requires
        view.drive_tail(exact_active, local_height, now_ms, serving_depth).1 is Request,
    ensures
        view.stage is TailSync,
        !view.stage->TailSync_0.awaits_reply(now_ms),
        !view.stage->TailSync_0.holds_for_progress(local_height, now_ms),
        view.drive_tail(exact_active, local_height, now_ms, serving_depth).0.stage is TailSync,
        view.drive_tail(exact_active, local_height, now_ms, serving_depth).0.stage->TailSync_0.inflight_start is None,
{
}

/// What the tail asks for starts right above the durable tip and goes to a connected peer.
pub proof fn lemma_tail_requests_go_to_connected_peers(
    view: RuntimeView,
    exact_active: bool,
    local_height: u64,
    now_ms: u64,
    serving_depth: u64,
)
    ensures
        view.drive_tail(exact_active, local_height, now_ms, serving_depth).1 matches TailStep::Request {
            peer,
            start_height,
        } ==> connected(view.peers, peer) && start_height == sat_add(local_height, 1),
{
    if view.peers.len() > 0 {
        assert(connected(view.peers, view.peers[0].peer));
    }
}

/// After an expired wait the same headers are asked for again, and with another
/// peer connected they are asked for from another peer than before, which is
/// the tail's peer from there on.
pub proof fn lemma_expired_wait_asks_another_peer(
    view: RuntimeView,
    tail: TailSync,
    other: PeerId,
    local_height: u64,
    now_ms: u64,
    serving_depth: u64,
)
    requires
        view.wf(),
        view.stage == MobileBootstrapStage::TailSync(tail),
        !view.apply_inflight,
        !gap_beyond_serving(local_height, tail.observed_frontier, serving_depth),
        !tail.caught_up(local_height),
        tail.waiting_start is Some,
        local_height < tail.waiting_start->0,
        !tail.holds_for_progress(local_height, now_ms),
        !tail.awaits_reply(now_ms),
        connected(view.peers, other),
        other != tail.peer,
    ensures
        view.drive_tail(false, local_height, now_ms, serving_depth).1 matches TailStep::Request {
            peer,
            start_height,
        } && {
            &&& peer != tail.peer
            &&& connected(view.peers, peer)
            &&& start_height == sat_add(local_height, 1)
            &&& view.drive_tail(false, local_height, now_ms, serving_depth).0.stage->TailSync_0.peer == peer
        },
{
    lemma_rows_remove(view.peers, tail.peer);
    let rest = rows_remove(view.peers, tail.peer);
    assert(connected(rest, other));
    assert(rest.len() > 0);
    assert(connected(rest, rest[0].peer));
}

/// A chain that is too far behind for bodies to be served is never followed block by block.
pub proof fn lemma_wide_gap_takes_a_snapshot(
    view: RuntimeView,
    tail: TailSync,
    local_height: u64,
    now_ms: u64,
    serving_depth: u64,
)
    requires
        view.stage == MobileBootstrapStage::TailSync(tail),
        !view.apply_inflight,
        gap_beyond_serving(local_height, tail.observed_frontier, serving_depth),
    ensures
        view.drive_tail(false, local_height, now_ms, serving_depth).1 is Snapshot,
        view.drive_tail(false, local_height, now_ms, serving_depth).0.stage is WaitingManifest,
        !view.drive_tail(false, local_height, now_ms, serving_depth).0.complete,
{
}

/// A snapshot bootstrap under way is not replaced: only the generation advances.
pub proof fn lemma_snapshot_bootstrap_is_kept(view: RuntimeView, peer: PeerId, local_height: u64)
    requires
        view.stage.owns_snapshot(),
    ensures
        view.begin_snapshot(peer) == (RuntimeView { generation: sat_add(view.generation, 1), ..view }),
        view.begin_snapshot_command(peer, local_height) is None,
        local_height > 0 ==> view.begin_initial(peer, local_height) == view,
{
}

/// The answers to an older snapshot request no longer fit once a new one is sent.
pub proof fn lemma_generations_advance(view: RuntimeView, peer: PeerId)
    requires
        !view.stage.owns_snapshot(),
        view.generation < u64::MAX,
    ensures
        view.begin_snapshot(peer).stage == (MobileBootstrapStage::WaitingManifest {
            generation: (view.generation + 1) as u64,
            peer,
        }),
        view.begin_snapshot(peer).generation > view.generation,
{
}

/// An answer counts for the tail only if it comes from the tail's peer and
/// answers the request that is outstanding.
pub proof fn lemma_unsolicited_batches_do_not_count(tail: TailSync, from: PeerId, heights: Seq<u64>, now_ms: u64)
    requires
        from != tail.peer || tail.inflight_start is None || (heights.len() > 0 && Some(heights[0])
            != tail.inflight_start),
    ensures
        tail.after_batch(from, heights, now_ms) == tail,
{
}

/// The frontier that was observed never falls.
pub proof fn lemma_frontier_never_falls(
    tail: TailSync,
    peer: PeerId,
    heights: Seq<u64>,
    height: u64,
    queued: bool,
    now_ms: u64,
)
    ensures
        tail.after_batch(peer, heights, now_ms).observed_frontier >= tail.observed_frontier,
        tail.after_announcement(height).observed_frontier >= tail.observed_frontier,
        tail.after_announcement(height).observed_frontier >= height,
        tail.after_commit(height).observed_frontier >= tail.observed_frontier,
        tail.after_disconnect(peer).observed_frontier == tail.observed_frontier,
        tail.after_failure(peer, height).observed_frontier == tail.observed_frontier,
        tail.after_request(peer, height, queued, now_ms).observed_frontier == tail.observed_frontier,
{
}

/// One range is not probed twice within three seconds: a second probe sends
/// nothing.
pub proof fn lemma_probes_are_spaced(
    view: RuntimeView,
    base_height: u64,
    target_height: u64,
    first_ms: u64,
    second_ms: u64,
    skip: Seq<PeerId>,
    headers: usize,
)
    requires
        !probed_recently(probes_fresh(view.probes, first_ms), base_height, target_height, first_ms),
        first_ms <= second_ms < first_ms + PROBE_REPEAT_MS,
    ensures
        view.probe_range(base_height, target_height, first_ms).probe_range_commands(
            base_height,
            target_height,
            second_ms,
            skip,
            headers,
        ).len() == 0,
{
    let probe = ProviderProbe { base_height, target_height, sent_ms: first_ms };
    let after = view.probe_range(base_height, target_height, first_ms);
    let kept = probes_without(probes_fresh(view.probes, first_ms), base_height, target_height);
    assert(after.probes == kept.push(probe));
    let keep = |p: ProviderProbe| probe_retained(p, second_ms);
    let fresh = probes_fresh(after.probes, second_ms);
    assert(fresh == after.probes.filter(keep));
    let n = kept.len() as int;
    lemma_filter_step(after.probes, keep, n);
    assert(after.probes.take(n + 1) =~= after.probes);
    assert(after.probes[n] == probe);
    assert(keep(probe));
    assert(fresh == after.probes.take(n).filter(keep).push(probe));
    let last = fresh.len() - 1;
    assert(fresh[last] == probe);
    assert(probe_is(fresh[last], base_height, target_height));
    assert(sat_sub(second_ms, fresh[last].sent_ms) < PROBE_REPEAT_MS);
    assert(probed_recently(fresh, base_height, target_height, second_ms));
}

/// A peer that disconnected is neither in the table nor among those from which
/// the mempool was requested, and every other peer stays.
pub proof fn lemma_disconnect_forgets_the_peer(view: RuntimeView, peer: PeerId, other: PeerId)
    requires
        view.wf(),
        other != peer,
    ensures
        !connected(view.disconnect(peer).peers, peer),
        !view.disconnect(peer).requested.contains(peer),
        connected(view.disconnect(peer).peers, other) <==> connected(view.peers, other),
        view.disconnect(peer).requested.contains(other) <==> view.requested.contains(other),
{
    lemma_rows_remove(view.peers, peer);
    lemma_filter_members(view.requested, other_than(peer));
    assert(peers_without(view.requested, peer) == view.requested.filter(other_than(peer)));
}

/// A peer that connects and disconnects leaves the table as it was.
pub proof fn lemma_connect_then_disconnect(peers: Seq<PeerEntry>, peer: PeerId, info: MobilePeer)
    requires
        rows_wf(peers),
        !connected(peers, peer),
    ensures
        rows_remove(rows_insert(peers, peer, info), peer) == peers,
{
    let keep = |entry: PeerEntry| entry.peer != peer;
    let all = peers.push(PeerEntry { peer, info });
    assert(rows_insert(peers, peer, info) == all);
    let n = peers.len() as int;
    lemma_filter_step(all, keep, n);
    assert(all.take(n + 1) =~= all);
    assert(all.take(n) =~= peers);
    assert(rows_remove(all, peer) == all.filter(keep));
    lemma_filter_keeps_all(peers, keep);
}

proof fn lemma_filter_keeps_all(entries: Seq<PeerEntry>, keep: spec_fn(PeerEntry) -> bool)
    requires
        forall|i: int| 0 <= i < entries.len() ==> keep(#[trigger] entries[i]),
    ensures
        entries.filter(keep) == entries,
    decreases entries.len(),
{
    reveal(Seq::filter);
    if entries.len() > 0 {
        lemma_filter_keeps_all(entries.drop_last(), keep);
        assert(keep(entries[entries.len() - 1]));
        assert(entries.drop_last().push(entries.last()) =~= entries);
    } else {
        assert(entries.filter(keep) =~= entries);
    }
}

/// A request never asks for more headers than fit into one batch, and never for
/// more than the range holds.
pub proof fn lemma_requests_are_bounded(first: u64, last: u64)
    requires
        first <= last,
    ensures
        1 <= range_count(first, last) <= HEADER_BATCH_MAX,
        range_count(first, last) <= last - first + 1,
        last - first < HEADER_BATCH_MAX ==> range_count(first, last) == last - first + 1,
{
}

} // verus!
