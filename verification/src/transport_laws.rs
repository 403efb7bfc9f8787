//! What each step of the transport runtime comes to.

use vstd::prelude::*;
use crate::bootstrap::{
    gap_requires_snapshot_sync, header_range_count, MobileBootstrapStage, NetworkCommand, TailSync,
};
use crate::bytes::Digest;
use crate::p2p_runtime::{
    mobile_p2p_status, probe_is, probe_retained, probed_recently, probes_fresh, ActiveSuffix, ConnectActions,
    HeaderRequests, MobileP2PRuntime, MobileP2PStatusSnapshot, ProviderProbe, RecoveryReason, RuntimeView, TailStep,
};
use crate::peer::{connected, MobilePeer, PeerEntry, PeerId};
use crate::sequences::lemma_filter_members;

verus! {

/// Everything but the stage is as it was.
pub open spec fn only_stage_changed(before: RuntimeView, after: RuntimeView) -> bool {
    after == (RuntimeView { stage: after.stage, ..before })
}

/// Block bodies are not served across a gap that is wider than the serving depth.
pub proof fn lemma_a_wide_gap_needs_a_snapshot(local_height: u64, peer_height: u64, serving_depth: u64, needed: bool)
    requires
        call_ensures(gap_requires_snapshot_sync, (local_height, peer_height, serving_depth), needed),
    ensures
        needed <==> peer_height > local_height + serving_depth,
{
}

/// A request covers its whole range, up to five hundred and twelve headers.
pub proof fn lemma_a_request_covers_its_range(first: u64, last: u64, count: u16)
    requires
        call_ensures(header_range_count, (first, last), count),
    ensures
        first <= last && last - first < 512 ==> count == last - first + 1,
        last >= first + 512 ==> count == 512,
        last < first ==> count == 1,
{
}

/// What the user sees: the phase by its number, and before any phase whether
/// there are peers. Only a finished bootstrap, or one without peers that has
/// not begun, is not syncing.
pub proof fn lemma_the_status_shows_the_phase(peers: usize, phase: u8, status: MobileP2PStatusSnapshot)
    requires
        call_ensures(mobile_p2p_status, (peers, phase), status),
    ensures
        status.peers == peers,
        phase == 1 ==> status.phase@ == "MANIFEST"@ && status.syncing,
        phase == 2 ==> status.phase@ == "HEADERS"@ && status.syncing,
        phase == 3 ==> status.phase@ == "STATE"@ && status.syncing,
        phase == 4 ==> status.phase@ == "TAIL"@ && status.syncing,
        phase == 5 ==> status.phase@ == "SYNCED"@ && !status.syncing,
        phase == 0 || phase > 5 ==> (peers == 0 ==> status.phase@ == "WAITING"@ && !status.syncing) && (peers > 0
            ==> status.phase@ == "CONNECTING"@ && status.syncing),
{
}

/// A new tail waits for nothing and has seen nothing above the tip.
pub proof fn lemma_a_new_tail_waits_for_nothing(height: u64, peer: PeerId, tail: TailSync)
    requires
        call_ensures(TailSync::new, (height, peer), tail),
    ensures
        tail.boundary_height == height,
        tail.peer == peer,
        tail.inflight_start is None && tail.inflight_since is None,
        tail.waiting_start is None && tail.waiting_since is None,
        tail.observed_frontier == height,
        tail.empty_probe_start is None,
{
}

/// The answer to the outstanding request: an empty one is a probe that found
/// nothing, any other is given time to become canonical and shows how far the
/// network is.
pub proof fn lemma_the_answer_to_the_tail_request_counts(
    tail: &mut TailSync,
    from: PeerId,
    heights: Vec<u64>,
    now_ms: u64,
)
    requires
        call_ensures(TailSync::note_batch, (tail, &from, &heights, now_ms), ()),
    ensures
        final(tail).peer == old(tail).peer,
        final(tail).boundary_height == old(tail).boundary_height,
        ({
            let answered = from == old(tail).peer && old(tail).inflight_start is Some && (heights@.len() == 0
                || heights@[0] == old(tail).inflight_start->0);
            &&& !answered ==> *final(tail) == *old(tail)
            &&& answered ==> final(tail).inflight_start is None && final(tail).inflight_since is None
            &&& answered && heights@.len() == 0 ==> {
                &&& final(tail).empty_probe_start == old(tail).inflight_start
                &&& final(tail).waiting_start is None
                &&& final(tail).waiting_since is None
                &&& final(tail).observed_frontier == old(tail).observed_frontier
            }
            &&& answered && heights@.len() > 0 ==> {
                &&& final(tail).empty_probe_start is None
                &&& final(tail).waiting_start == old(tail).inflight_start
                &&& final(tail).waiting_since == Some(now_ms)
                &&& final(tail).observed_frontier >= old(tail).observed_frontier
                &&& final(tail).observed_frontier >= heights@.last()
                &&& final(tail).observed_frontier == old(tail).observed_frontier || final(tail).observed_frontier
                    == heights@.last()
            }
        }),
{
}

/// An announcement raises the frontier to its height and voids an empty probe.
pub proof fn lemma_an_announcement_raises_the_frontier(tail: &mut TailSync, height: u64)
    requires
        call_ensures(TailSync::note_announcement, (tail, height), ()),
    ensures
        final(tail).empty_probe_start is None,
        height > old(tail).observed_frontier ==> final(tail).observed_frontier == height,
        height <= old(tail).observed_frontier ==> final(tail).observed_frontier == old(tail).observed_frontier,
        final(tail).peer == old(tail).peer,
        final(tail).inflight_start == old(tail).inflight_start,
        final(tail).inflight_since == old(tail).inflight_since,
        final(tail).waiting_start == old(tail).waiting_start,
        final(tail).waiting_since == old(tail).waiting_since,
{
}

/// A commit that reaches the batch that was waited for ends the wait; one that
/// does not leaves it.
pub proof fn lemma_a_commit_ends_the_wait(tail: &mut TailSync, height: u64)
    requires
        call_ensures(TailSync::note_commit, (tail, height), ()),
    ensures
        final(tail).empty_probe_start is None,
        old(tail).waiting_start is Some && height >= old(tail).waiting_start->0 ==> final(tail).waiting_start is None
            && final(tail).waiting_since is None,
        old(tail).waiting_start is None || height < old(tail).waiting_start->0 ==> final(tail).waiting_start == old(tail).waiting_start && final(tail).waiting_since == old(tail).waiting_since,
        height > old(tail).observed_frontier ==> final(tail).observed_frontier == height,
        height <= old(tail).observed_frontier ==> final(tail).observed_frontier == old(tail).observed_frontier,
        final(tail).peer == old(tail).peer,
        final(tail).inflight_start == old(tail).inflight_start,
        final(tail).inflight_since == old(tail).inflight_since,
{
}

/// With its own peer the tail loses everything it waited for; the loss of any
/// other peer does not touch it.
pub proof fn lemma_the_tail_forgets_a_lost_peer(tail: &mut TailSync, peer: PeerId)
    requires
        call_ensures(TailSync::note_disconnect, (tail, &peer), ()),
    ensures
        peer != old(tail).peer ==> *final(tail) == *old(tail),
        peer == old(tail).peer ==> {
            &&& final(tail).inflight_start is None && final(tail).inflight_since is None
            &&& final(tail).waiting_start is None && final(tail).waiting_since is None
            &&& final(tail).empty_probe_start is None
            &&& final(tail).peer == old(tail).peer
            &&& final(tail).observed_frontier == old(tail).observed_frontier
        },
{
}

/// A failed request is not outstanding any more; the failure of another one does not matter.
pub proof fn lemma_a_failed_tail_request_is_over(tail: &mut TailSync, from: PeerId, start_height: u64)
    requires
        call_ensures(TailSync::note_failure, (tail, &from, start_height), ()),
    ensures
        from == old(tail).peer && old(tail).inflight_start == Some(start_height) ==> *final(tail) == (TailSync {
            inflight_start: None,
            inflight_since: None,
            ..*old(tail)
        }),
        from != old(tail).peer || old(tail).inflight_start != Some(start_height) ==> *final(tail) == *old(tail),
{
}

/// A request that was queued is outstanding from now on, with the peer that was asked.
pub proof fn lemma_a_queued_tail_request_is_outstanding(
    tail: &mut TailSync,
    peer: PeerId,
    start_height: u64,
    queued: bool,
    now_ms: u64,
)
    requires
        call_ensures(TailSync::note_request, (tail, peer, start_height, queued, now_ms), ()),
    ensures
        final(tail).peer == peer,
        final(tail).empty_probe_start is None,
        queued ==> final(tail).inflight_start == Some(start_height) && final(tail).inflight_since == Some(now_ms),
        !queued ==> final(tail).inflight_start is None && final(tail).inflight_since is None,
        final(tail).waiting_start == old(tail).waiting_start,
        final(tail).waiting_since == old(tail).waiting_since,
        final(tail).observed_frontier == old(tail).observed_frontier,
{
}

/// When the tail is caught up, when it gives a batch time, and when it still
/// expects an answer.
pub proof fn lemma_what_the_tail_waits_for(
    tail: TailSync,
    local_height: u64,
    now_ms: u64,
    done: bool,
    holding: bool,
    awaiting: bool,
)
    requires
        local_height < u64::MAX,
        call_ensures(TailSync::is_caught_up, (&tail, local_height), done),
        call_ensures(TailSync::is_holding, (&tail, local_height, now_ms), holding),
        call_ensures(TailSync::is_awaiting, (&tail, now_ms), awaiting),
    ensures
        done <==> tail.empty_probe_start is Some && tail.empty_probe_start->0 == local_height + 1
            && tail.observed_frontier <= local_height,
        holding <==> tail.waiting_start is Some && tail.waiting_since is Some && local_height < tail.waiting_start->0
            && now_ms < tail.waiting_since->0 + 15_000,
        awaiting <==> tail.inflight_start is Some && (tail.inflight_since is None || now_ms < tail.inflight_since->0
            + 10_000),
{
}

/// A snapshot bootstrap that begins asks its peer for a manifest under a new
/// generation, and forgets what was done before. One that is under way is not
/// replaced.
pub proof fn lemma_a_snapshot_bootstrap_begins_afresh(
    runtime: &mut MobileP2PRuntime,
    peer: PeerId,
    local_height: u64,
    command: Option<NetworkCommand>,
    active: bool,
    before: MobileP2PRuntime,
)
    requires
        before == *old(runtime),
        old(runtime)@.generation < u64::MAX,
        call_ensures(MobileP2PRuntime::snapshot_bootstrap_active, (&before,), active),
        call_ensures(MobileP2PRuntime::begin_snapshot_bootstrap, (runtime, peer, local_height), command),
    ensures
        active <==> match old(runtime).stage {
            MobileBootstrapStage::Idle => false,
            MobileBootstrapStage::TailSync(_) => false,
            MobileBootstrapStage::Complete => false,
            _ => true,
        },
        final(runtime)@.generation == old(runtime)@.generation + 1,
        active ==> command is None && final(runtime)@.stage == old(runtime)@.stage && final(runtime)@.probes == old(runtime)@.probes && final(runtime)@.phase == old(runtime)@.phase && final(runtime)@.complete == old(runtime)@.complete,
        !active ==> {
            &&& final(runtime)@.stage == (MobileBootstrapStage::WaitingManifest {
                generation: (old(runtime)@.generation + 1) as u64,
                peer,
            })
            &&& final(runtime)@.phase == 1
            &&& !final(runtime)@.complete
            &&& final(runtime)@.probes.len() == 0
            &&& match command {
                Some(
                    NetworkCommand::RequestStateManifest {
                        generation,
                        peer: asked,
                        requester_height,
                        requested_manifest_digest,
                    },
                ) => {
                    &&& generation == old(runtime)@.generation + 1
                    &&& asked == peer
                    &&& requester_height == local_height
                    &&& forall|i: int| 0 <= i < 32 ==> requested_manifest_digest[i] == 0
                },
                _ => false,
            }
        },
        final(runtime)@.peers == old(runtime)@.peers,
        final(runtime)@.requested == old(runtime)@.requested,
        final(runtime)@.slots == old(runtime)@.slots,
        final(runtime)@.apply_inflight == old(runtime)@.apply_inflight,
{
}

/// The bootstrap starts with a snapshot on an empty chain, otherwise with the
/// tail above the durable tip; it starts once.
pub proof fn lemma_the_bootstrap_starts_at_the_tip(
    runtime: &mut MobileP2PRuntime,
    peer: PeerId,
    local_height: u64,
    command: Option<NetworkCommand>,
)
    requires
        call_ensures(MobileP2PRuntime::begin_initial_bootstrap, (runtime, peer, local_height), command),
    ensures
        local_height > 0 && !(old(runtime)@.stage is Idle) ==> final(runtime)@ == old(runtime)@ && command is None,
        local_height > 0 && old(runtime)@.stage is Idle ==> {
            &&& command is None
            &&& final(runtime)@.phase == 4
            &&& !final(runtime)@.complete
            &&& match final(runtime)@.stage {
                MobileBootstrapStage::TailSync(tail) => {
                    &&& tail.peer == peer
                    &&& tail.boundary_height == local_height
                    &&& tail.observed_frontier == local_height
                    &&& tail.inflight_start is None
                    &&& tail.waiting_start is None
                    &&& tail.empty_probe_start is None
                },
                _ => false,
            }
            &&& final(runtime)@.peers == old(runtime)@.peers
            &&& final(runtime)@.generation == old(runtime)@.generation
        },
        local_height == 0 && (old(runtime)@.stage is Idle || old(runtime)@.stage is TailSync || old(runtime)@.stage is Complete) ==> command is Some && command->0 is RequestStateManifest && final(runtime)@.stage is WaitingManifest && final(runtime)@.stage->WaitingManifest_peer == peer,
{
}

/// The failure of the manifest request that is waited for ends the wait, no other failure does.
pub proof fn lemma_only_the_awaited_manifest_request_can_fail(
    runtime: &mut MobileP2PRuntime,
    generation: u64,
    from: PeerId,
)
    requires
        call_ensures(MobileP2PRuntime::manifest_request_failed, (runtime, generation, &from), ()),
    ensures
        match old(runtime)@.stage {
            MobileBootstrapStage::WaitingManifest { generation: expected, peer } => if expected == generation && peer
                == from {
                final(runtime)@.stage is Idle && only_stage_changed(old(runtime)@, final(runtime)@)
            } else {
                final(runtime)@ == old(runtime)@
            },
            _ => final(runtime)@ == old(runtime)@,
        },
{
}

/// A range is probed again after three seconds. The probe goes to up to four
/// peers that are not left out, in the order of the table, and asks each for
/// the same range: its base and as many headers as were named, up to one batch.
pub proof fn lemma_a_probe_asks_a_few_peers(
    runtime: &mut MobileP2PRuntime,
    base_height: u64,
    target_height: u64,
    now_ms: u64,
    skip: Vec<PeerId>,
    headers: usize,
    commands: Vec<NetworkCommand>,
)
    requires
        old(runtime)@.wf(),
        call_ensures(
            MobileP2PRuntime::probe_providers,
            (runtime, base_height, target_height, now_ms, &skip, headers),
            commands,
        ),
    ensures
        ({
            let recent = exists|i: int|
                {
                    &&& 0 <= i < old(runtime)@.probes.len()
                    &&& (#[trigger] old(runtime)@.probes[i]).base_height == base_height
                    &&& old(runtime)@.probes[i].target_height == target_height
                    &&& now_ms < old(runtime)@.probes[i].sent_ms + 3_000
                };
            let open = old(runtime)@.peers.filter(|entry: PeerEntry| !skip@.contains(entry.peer));
            &&& recent ==> commands@.len() == 0
            &&& !recent ==> {
                &&& commands@.len() == (if open.len() < 4 {
                    open.len() as int
                } else {
                    4
                })
                &&& forall|i: int|
                    0 <= i < commands@.len() ==> match #[trigger] commands@[i] {
                        NetworkCommand::FetchHeaders { peer, start_height, count } => {
                            &&& peer == open[i].peer
                            &&& start_height == base_height
                            &&& headers < 512 ==> count == headers + 1
                            &&& headers >= 512 ==> count == 512
                        },
                        _ => false,
                    }
                &&& final(runtime)@.probes.last() == (ProviderProbe { base_height, target_height, sent_ms: now_ms })
                &&& final(runtime)@.probes.len() > 0
            }
            &&& final(runtime)@ == (RuntimeView { probes: final(runtime)@.probes, ..old(runtime)@ })
        }),
{
    let probes = old(runtime)@.probes;
    let keep = |probe: ProviderProbe| probe_retained(probe, now_ms);
    let fresh = probes_fresh(probes, now_ms);
    lemma_filter_members(probes, keep);
    assert(fresh == probes.filter(keep));
    if probed_recently(fresh, base_height, target_height, now_ms) {
        let i = choose|i: int|
            0 <= i < fresh.len() && probe_is(#[trigger] fresh[i], base_height, target_height)
                && crate::arith::sat_sub(now_ms, fresh[i].sent_ms) < 3_000;
        assert(fresh.contains(fresh[i]));
        let j = choose|j: int| 0 <= j < probes.len() && probes[j] == fresh[i];
        assert(probes[j].base_height == base_height);
    }
    if exists|i: int|
        {
            &&& 0 <= i < probes.len()
            &&& (#[trigger] probes[i]).base_height == base_height
            &&& probes[i].target_height == target_height
            &&& now_ms < probes[i].sent_ms + 3_000
        } {
        let i = choose|i: int|
            {
                &&& 0 <= i < probes.len()
                &&& (#[trigger] probes[i]).base_height == base_height
                &&& probes[i].target_height == target_height
                &&& now_ms < probes[i].sent_ms + 3_000
            };
        assert(probes.contains(probes[i]));
        assert(keep(probes[i]));
        assert(fresh.contains(probes[i]));
        let j = choose|j: int| 0 <= j < fresh.len() && fresh[j] == probes[i];
        assert(probe_is(fresh[j], base_height, target_height));
    }
}

/// A probe of another range is remembered for twenty seconds and then forgotten.
pub proof fn lemma_probes_are_forgotten_after_a_while(
    runtime: &mut MobileP2PRuntime,
    base_height: u64,
    target_height: u64,
    now_ms: u64,
    skip: Vec<PeerId>,
    headers: usize,
    commands: Vec<NetworkCommand>,
    probe: ProviderProbe,
)
    requires
        old(runtime)@.wf(),
        call_ensures(
            MobileP2PRuntime::probe_providers,
            (runtime, base_height, target_height, now_ms, &skip, headers),
            commands,
        ),
        probe.base_height != base_height || probe.target_height != target_height,
    ensures
        final(runtime)@.probes.contains(probe) <==> old(runtime)@.probes.contains(probe) && now_ms < probe.sent_ms
            + 20_000,
{
    let probes = old(runtime)@.probes;
    let keep = |other: ProviderProbe| probe_retained(other, now_ms);
    let others = |other: ProviderProbe| !probe_is(other, base_height, target_height);
    let fresh = probes_fresh(probes, now_ms);
    lemma_filter_members(probes, keep);
    lemma_filter_members(fresh, others);
    assert(fresh == probes.filter(keep));
    assert(fresh.contains(probe) <==> probes.contains(probe) && keep(probe));
    if !probed_recently(fresh, base_height, target_height, now_ms) {
        let left = fresh.filter(others);
        assert(left.contains(probe) <==> fresh.contains(probe) && others(probe));
        let now = ProviderProbe { base_height, target_height, sent_ms: now_ms };
        assert(final(runtime)@.probes == left.push(now));
        if left.contains(probe) {
            let k = choose|k: int| 0 <= k < left.len() && left[k] == probe;
            assert(left.push(now)[k] == probe);
        }
        if left.push(now).contains(probe) {
            let k = choose|k: int| 0 <= k < left.push(now).len() && left.push(now)[k] == probe;
            assert(k < left.len());
            assert(left[k] == probe);
        }
    }
}

/// The active suffix is probed for in its own range: from the parent of its
/// first header to its target.
pub proof fn lemma_the_active_suffix_is_probed_in_its_range(
    runtime: &mut MobileP2PRuntime,
    active: Option<ActiveSuffix>,
    now_ms: u64,
    commands: Vec<NetworkCommand>,
)
    requires
        old(runtime)@.wf(),
        call_ensures(MobileP2PRuntime::probe_active_suffix_providers, (runtime, active, now_ms), commands),
    ensures
        active is None || active->0.first_height is None ==> commands@.len() == 0 && final(runtime)@ == old(runtime)@,
        final(runtime)@ == (RuntimeView { probes: final(runtime)@.probes, ..old(runtime)@ }),
        active is Some && active->0.first_height is Some && old(runtime)@.probes.len() == 0 ==> {
            let first = active->0.first_height->0;
            let base = if first > 0 {
                first - 1
            } else {
                0
            };
            &&& commands@.len() == (if old(runtime)@.peers.len() < 4 {
                old(runtime)@.peers.len() as int
            } else {
                4
            })
            &&& forall|i: int|
                0 <= i < commands@.len() ==> match #[trigger] commands@[i] {
                    NetworkCommand::FetchHeaders { peer, start_height, count } => {
                        &&& peer == old(runtime)@.peers[i].peer
                        &&& start_height == base
                        &&& active->0.header_count < 512 ==> count == active->0.header_count + 1
                        &&& active->0.header_count >= 512 ==> count == 512
                    },
                    _ => false,
                }
            &&& final(runtime)@.probes.len() == 1
            &&& final(runtime)@.probes[0].base_height == base
            &&& final(runtime)@.probes[0].target_height == active->0.target_height
            &&& final(runtime)@.probes[0].sent_ms == now_ms
        },
{
    reveal(Seq::filter);
    let all = old(runtime)@.peers;
    lemma_all_pass(all, |entry: PeerEntry| !Seq::<PeerId>::empty().contains(entry.peer));
}

proof fn lemma_all_pass(rows: Seq<PeerEntry>, pass: spec_fn(PeerEntry) -> bool)
    requires
        forall|entry: PeerEntry| #[trigger] pass(entry),
    ensures
        rows.filter(pass) == rows,
    decreases rows.len(),
{
    reveal(Seq::filter);
    if rows.len() > 0 {
        lemma_all_pass(rows.drop_last(), pass);
        assert(pass(rows.last()));
        assert(rows.drop_last().push(rows.last()) =~= rows);
    } else {
        assert(rows.filter(pass) =~= rows);
    }
}

/// A forgotten probe is gone, and no other is.
pub proof fn lemma_one_probe_is_forgotten(runtime: &mut MobileP2PRuntime, base_height: u64, target_height: u64)
    requires
        call_ensures(MobileP2PRuntime::forget_probe, (runtime, base_height, target_height), ()),
    ensures
        forall|probe: ProviderProbe|
            #[trigger] final(runtime)@.probes.contains(probe) <==> old(runtime)@.probes.contains(probe) && !(
            probe.base_height == base_height && probe.target_height == target_height),
        final(runtime)@ == (RuntimeView { probes: final(runtime)@.probes, ..old(runtime)@ }),
{
    lemma_filter_members(
        old(runtime)@.probes,
        |probe: ProviderProbe| !probe_is(probe, base_height, target_height),
    );
}

/// A peer that connects is counted and gets the bootstrap going. It is asked
/// for headers only if nobody else is at it: not while a suffix is being
/// fetched, and not while the tail runs. The mempool is pulled only after the
/// bootstrap, from locally selected peers, from four at most and never twice.
pub proof fn lemma_a_new_peer_is_put_to_use(
    runtime: &mut MobileP2PRuntime,
    peer: PeerId,
    info: MobilePeer,
    local_height: u64,
    active: Option<ActiveSuffix>,
    now_ms: u64,
    actions: ConnectActions,
)
    requires
        old(runtime)@.wf(),
        peer.wf(),
        call_ensures(
            MobileP2PRuntime::peer_connected,
            (runtime, peer, info, local_height, active, now_ms),
            actions,
        ),
    ensures
        connected(final(runtime)@.peers, peer),
        final(runtime)@.published_peers == final(runtime)@.peers.len(),
        final(runtime)@.requested == old(runtime)@.requested,
        actions.pull_mempool <==> info.locally_selected && final(runtime)@.stage is Complete && old(runtime)@.requested.len() < 4 && !old(runtime)@.requested.contains(peer),
        actions.manifest is Some <==> local_height == 0 && (old(runtime)@.stage is Idle || old(runtime)@.stage is TailSync || old(runtime)@.stage is Complete),
        local_height > 0 && old(runtime)@.stage is Idle ==> final(runtime)@.stage is TailSync && final(runtime)@.stage->TailSync_0.peer == peer,
        local_height > 0 && !(old(runtime)@.stage is Idle) ==> final(runtime)@.stage == old(runtime)@.stage,
        active is Some ==> actions.headers.fetch is None,
        active is None ==> actions.headers.probes@.len() == 0,
        active is None && final(runtime)@.stage is TailSync ==> actions.headers.fetch is None,
        active is None && !(final(runtime)@.stage is TailSync) && local_height < u64::MAX ==> match actions.headers.fetch {
            Some(NetworkCommand::FetchHeaders { peer: asked, start_height, count }) => asked == peer && start_height
                == local_height + 1 && count == 512,
            _ => false,
        },
{
    let rows = old(runtime)@.peers;
    let joined = crate::peer::rows_insert(rows, peer, info);
    if connected(rows, peer) {
        let r = crate::peer::row_of(rows, peer);
        assert(0 <= r < rows.len() && rows[r].peer == peer);
        assert(joined[r].peer == peer);
    } else {
        assert(joined[rows.len() as int].peer == peer);
    }
}

/// A peer whose mempool is pulled is noted once; nothing else changes.
pub proof fn lemma_a_mempool_pull_is_noted_once(runtime: &mut MobileP2PRuntime, peer: PeerId)
    requires
        call_ensures(MobileP2PRuntime::mempool_sync_queued, (runtime, peer), ()),
    ensures
        final(runtime)@.requested == (if old(runtime)@.requested.contains(peer) {
            old(runtime)@.requested
        } else {
            old(runtime)@.requested + seq![peer]
        }),
        final(runtime)@ == (RuntimeView { requested: final(runtime)@.requested, ..old(runtime)@ }),
{
    assert(old(runtime)@.requested.push(peer) =~= old(runtime)@.requested + seq![peer]);
}

/// A peer that disconnects leaves the table and the list of those whose mempool
/// was pulled. All other peers stay, and so does the stage, but for a tail that
/// waited for this peer.
pub proof fn lemma_a_lost_peer_is_forgotten(runtime: &mut MobileP2PRuntime, peer: PeerId)
    requires
        call_ensures(MobileP2PRuntime::peer_disconnected, (runtime, &peer), ()),
    ensures
        final(runtime)@.peers == old(runtime)@.peers.filter(|entry: PeerEntry| entry.peer != peer),
        forall|other: PeerId|
            #[trigger] final(runtime)@.requested.contains(other) <==> old(runtime)@.requested.contains(other) && other
                != peer,
        final(runtime)@.published_peers == final(runtime)@.peers.len() as usize,
        match old(runtime)@.stage {
            MobileBootstrapStage::TailSync(tail) => match final(runtime)@.stage {
                MobileBootstrapStage::TailSync(after) => {
                    &&& tail.peer != peer ==> after == tail
                    &&& tail.peer == peer ==> after == (TailSync {
                        inflight_start: None,
                        inflight_since: None,
                        waiting_start: None,
                        waiting_since: None,
                        empty_probe_start: None,
                        ..tail
                    })
                },
                _ => false,
            },
            stage => final(runtime)@.stage == stage,
        },
        final(runtime)@.generation == old(runtime)@.generation,
        final(runtime)@.probes == old(runtime)@.probes,
        final(runtime)@.slots == old(runtime)@.slots,
        final(runtime)@.complete == old(runtime)@.complete,
        final(runtime)@.apply_inflight == old(runtime)@.apply_inflight,
        final(runtime)@.phase == old(runtime)@.phase,
{
    lemma_filter_members(old(runtime)@.requested, crate::p2p_runtime::other_than(peer));
}

/// Header batches, failed requests and sent requests reach the tail and nothing else.
pub proof fn lemma_header_events_reach_only_the_tail(
    batch: &mut MobileP2PRuntime,
    failed: &mut MobileP2PRuntime,
    sent: &mut MobileP2PRuntime,
    peer: PeerId,
    heights: Vec<u64>,
    start_height: u64,
    queued: bool,
    now_ms: u64,
)
    requires
        call_ensures(MobileP2PRuntime::note_tail_header_batch, (batch, &peer, &heights, now_ms), ()),
        call_ensures(MobileP2PRuntime::headers_request_failed, (failed, &peer, start_height), ()),
        call_ensures(MobileP2PRuntime::tail_request_sent, (sent, peer, start_height, queued, now_ms), ()),
    ensures
        only_stage_changed(old(batch)@, final(batch)@),
        only_stage_changed(old(failed)@, final(failed)@),
        only_stage_changed(old(sent)@, final(sent)@),
        !(old(batch)@.stage is TailSync) ==> final(batch)@.stage == old(batch)@.stage,
        !(old(failed)@.stage is TailSync) ==> final(failed)@.stage == old(failed)@.stage,
        !(old(sent)@.stage is TailSync) ==> final(sent)@.stage == old(sent)@.stage,
        old(batch)@.stage is TailSync ==> final(batch)@.stage is TailSync && ({
            let before = old(batch)@.stage->TailSync_0;
            let after = final(batch)@.stage->TailSync_0;
            &&& before.peer != peer || before.inflight_start is None ==> after == before
            &&& before.peer == peer && before.inflight_start is Some && heights@.len() == 0 ==> after.empty_probe_start
                == before.inflight_start && after.inflight_start is None && after.waiting_start is None
            &&& before.peer == peer && before.inflight_start is Some && heights@.len() > 0 && heights@[0]
                == before.inflight_start->0 ==> after.waiting_start == before.inflight_start && after.waiting_since
                == Some(now_ms) && after.inflight_start is None && after.observed_frontier >= heights@.last()
        }),
        old(failed)@.stage is TailSync ==> final(failed)@.stage is TailSync && ({
            let before = old(failed)@.stage->TailSync_0;
            let after = final(failed)@.stage->TailSync_0;
            &&& before.peer == peer && before.inflight_start == Some(start_height) ==> after.inflight_start is None
            &&& before.peer != peer || before.inflight_start != Some(start_height) ==> after == before
        }),
        old(sent)@.stage is TailSync ==> final(sent)@.stage is TailSync && ({
            let after = final(sent)@.stage->TailSync_0;
            &&& after.peer == peer
            &&& queued ==> after.inflight_start == Some(start_height) && after.inflight_since == Some(now_ms)
            &&& !queued ==> after.inflight_start is None
        }),
{
}

/// A suffix that lost its transport is recovered only once the bootstrap is
/// complete; that it stalls is said before that its peers are gone.
pub proof fn lemma_a_lost_suffix_is_recovered(
    runtime: MobileP2PRuntime,
    exact_active: bool,
    stalled: bool,
    extinct: bool,
    reason: Option<RecoveryReason>,
    complete: bool,
)
    requires
        runtime@.wf(),
        call_ensures(MobileP2PRuntime::drive_live_suffix_recovery, (&runtime, exact_active, stalled, extinct), reason),
        call_ensures(MobileP2PRuntime::bootstrap_complete_flag, (&runtime,), complete),
    ensures
        complete <==> runtime.stage is Complete,
        reason is Some <==> complete && exact_active && (stalled || extinct),
        reason is Some && stalled ==> reason == Some(RecoveryReason::Stalled),
        reason is Some && !stalled ==> reason == Some(RecoveryReason::Extinct),
{
}

/// While a suffix is fetched or applied, and outside the tail, the driver of
/// the tail does nothing.
pub proof fn lemma_the_tail_waits_for_the_suffix(
    runtime: &mut MobileP2PRuntime,
    exact_active: bool,
    local_height: u64,
    now_ms: u64,
    serving_depth: u64,
    step: TailStep,
)
    requires
        call_ensures(
            MobileP2PRuntime::drive_bootstrap_tail,
            (runtime, exact_active, local_height, now_ms, serving_depth),
            step,
        ),
        exact_active || old(runtime)@.apply_inflight || !(old(runtime)@.stage is TailSync),
    ensures
        step is Nothing,
        final(runtime)@ == old(runtime)@,
{
}

/// A turn of the driver of the tail. A gap that is too wide starts a snapshot
/// bootstrap. The tail is complete if a probe right above the tip was empty and
/// nothing higher was seen. Otherwise a batch gets fifteen seconds to become
/// canonical and a request ten to be answered; then the headers right above the
/// tip are asked for.
pub proof fn lemma_a_turn_of_the_tail(
    runtime: &mut MobileP2PRuntime,
    tail: TailSync,
    local_height: u64,
    now_ms: u64,
    serving_depth: u64,
    step: TailStep,
)
    requires
        local_height < u64::MAX,
        old(runtime)@.generation < u64::MAX,
        old(runtime)@.stage == MobileBootstrapStage::TailSync(tail),
        !old(runtime)@.apply_inflight,
        call_ensures(
            MobileP2PRuntime::drive_bootstrap_tail,
            (runtime, false, local_height, now_ms, serving_depth),
            step,
        ),
    ensures
        ({
            let too_wide = tail.observed_frontier > local_height + serving_depth;
            let caught_up = tail.empty_probe_start is Some && tail.empty_probe_start->0 == local_height + 1
                && tail.observed_frontier <= local_height;
            let holding = tail.waiting_start is Some && tail.waiting_since is Some && local_height
                < tail.waiting_start->0 && now_ms < tail.waiting_since->0 + 15_000;
            let awaiting = tail.inflight_start is Some && (tail.inflight_since is None || now_ms
                < tail.inflight_since->0 + 10_000);
            &&& step is Snapshot <==> too_wide
            &&& step is Complete <==> !too_wide && caught_up
            &&& step is Request <==> !too_wide && !caught_up && !holding && !awaiting && old(runtime)@.peers.len() > 0
            &&& too_wide ==> {
                &&& final(runtime)@.stage == (MobileBootstrapStage::WaitingManifest {
                    generation: (old(runtime)@.generation + 1) as u64,
                    peer: tail.peer,
                })
                &&& !final(runtime)@.complete
                &&& match step {
                    TailStep::Snapshot(
                        NetworkCommand::RequestStateManifest { generation, peer, requester_height, .. },
                    ) => generation == old(runtime)@.generation + 1 && peer == tail.peer && requester_height
                        == local_height,
                    _ => false,
                }
            }
            &&& !too_wide && caught_up ==> final(runtime)@ == old(runtime)@
            &&& !too_wide && !caught_up ==> final(runtime)@.stage is TailSync && only_stage_changed(
                old(runtime)@,
                final(runtime)@,
            ) && ({
                let after = final(runtime)@.stage->TailSync_0;
                &&& after.empty_probe_start is None
                &&& after.observed_frontier == tail.observed_frontier
                &&& holding ==> after.waiting_start == tail.waiting_start && after.waiting_since == tail.waiting_since
                    && after.inflight_start == tail.inflight_start && after.peer == tail.peer
                &&& !holding ==> after.waiting_start is None
                &&& !holding && awaiting ==> after.inflight_start == tail.inflight_start
                &&& !holding && !awaiting ==> after.inflight_start is None
                &&& tail.waiting_start is None || local_height >= tail.waiting_start->0 ==> after.peer == tail.peer
            })
        }),
        step matches TailStep::Request { peer, start_height } ==> start_height == local_height + 1 && connected(
            old(runtime)@.peers,
            peer,
        ),
{
    if old(runtime)@.peers.len() > 0 {
        assert(connected(old(runtime)@.peers, old(runtime)@.peers[0].peer));
    }
}

/// Without an expired batch the tail goes on with its own peer while that is
/// connected, and with the first of the table if it is not. After an expired
/// batch it turns to the first peer of the table that is not its own, if there is one.
pub proof fn lemma_whom_the_tail_asks(
    runtime: &mut MobileP2PRuntime,
    tail: TailSync,
    local_height: u64,
    now_ms: u64,
    serving_depth: u64,
    asked: PeerId,
    start_height: u64,
    k: int,
)
    requires
        old(runtime)@.stage == MobileBootstrapStage::TailSync(tail),
        call_ensures(
            MobileP2PRuntime::drive_bootstrap_tail,
            (runtime, false, local_height, now_ms, serving_depth),
            TailStep::Request { peer: asked, start_height },
        ),
        0 <= k <= old(runtime)@.peers.len(),
        forall|i: int| 0 <= i < k ==> (#[trigger] old(runtime)@.peers[i]).peer == tail.peer,
        k < old(runtime)@.peers.len() ==> old(runtime)@.peers[k].peer != tail.peer,
    ensures
        ({
            let expired = tail.waiting_start is Some && local_height < tail.waiting_start->0;
            &&& expired && k < old(runtime)@.peers.len() ==> asked == old(runtime)@.peers[k].peer
            &&& !expired && connected(old(runtime)@.peers, tail.peer) ==> asked == tail.peer
            &&& !expired && !connected(old(runtime)@.peers, tail.peer) ==> asked == old(runtime)@.peers[0].peer
            &&& expired && k == old(runtime)@.peers.len() && connected(old(runtime)@.peers, tail.peer) ==> asked
                == tail.peer
        }),
{
    lemma_first_other(old(runtime)@.peers, tail.peer, k);
    if k < old(runtime)@.peers.len() {
        assert(connected(old(runtime)@.peers, old(runtime)@.peers[k].peer));
    }
}

proof fn lemma_first_other(rows: Seq<PeerEntry>, peer: PeerId, k: int)
    requires
        0 <= k <= rows.len(),
        forall|i: int| 0 <= i < k ==> (#[trigger] rows[i]).peer == peer,
        k < rows.len() ==> rows[k].peer != peer,
    ensures
        crate::peer::alternate_to(rows, peer) == (if k < rows.len() {
            Some(rows[k].peer)
        } else {
            None
        }),
    decreases rows.len(),
{
    reveal(Seq::filter);
    if rows.len() > 0 {
        let fewer = rows.drop_last();
        if k < rows.len() {
            lemma_first_other(fewer, peer, k);
        } else {
            lemma_first_other(fewer, peer, k - 1);
            assert(rows[rows.len() - 1].peer == peer);
        }
    }
}

/// A published bootstrap is complete. The mempool is then pulled from locally
/// selected peers that were not asked before, so that four are asked in all.
pub proof fn lemma_a_published_bootstrap_is_complete(runtime: &mut MobileP2PRuntime, pull_from: Vec<PeerId>)
    requires
        old(runtime)@.wf(),
        call_ensures(MobileP2PRuntime::bootstrap_published, (runtime,), pull_from),
    ensures
        final(runtime)@.stage is Complete,
        final(runtime)@.complete,
        final(runtime)@.phase == 5,
        final(runtime)@.peers == old(runtime)@.peers,
        final(runtime)@.requested == old(runtime)@.requested,
        final(runtime)@.probes == old(runtime)@.probes,
        final(runtime)@.generation == old(runtime)@.generation,
        final(runtime)@.apply_inflight == old(runtime)@.apply_inflight,
        pull_from@.len() + old(runtime)@.requested.len() <= 4,
        ({
            let open = old(runtime)@.peers.filter(
                |entry: PeerEntry| entry.info.locally_selected && !old(runtime)@.requested.contains(entry.peer),
            );
            pull_from@.len() == open.len() || pull_from@.len() + old(runtime)@.requested.len() == 4
        }),
        forall|i: int|
            0 <= i < pull_from@.len() ==> crate::peer_laws::may_be_asked(
                old(runtime)@.peers,
                old(runtime)@.requested,
                #[trigger] pull_from@[i],
            ),
{
    crate::peer_laws::lemma_lowest(
        old(runtime)@.peers,
        old(runtime)@.requested,
        4 - old(runtime)@.requested.len(),
        pull_from@,
    );
}

/// One suffix is applied at a time: a second may start only after the first is finished.
pub proof fn lemma_one_suffix_is_applied_at_a_time(
    starting: &mut MobileP2PRuntime,
    complete: bool,
    started: bool,
    finishing: &mut MobileP2PRuntime,
)
    requires
        call_ensures(MobileP2PRuntime::begin_apply, (starting, complete), started),
        call_ensures(MobileP2PRuntime::finish_apply, (finishing,), ()),
    ensures
        started <==> complete && !old(starting)@.apply_inflight,
        final(starting)@.apply_inflight <==> started || old(starting)@.apply_inflight,
        final(starting)@ == (RuntimeView { apply_inflight: final(starting)@.apply_inflight, ..old(starting)@ }),
        !final(finishing)@.apply_inflight,
        final(finishing)@ == (RuntimeView { apply_inflight: false, ..old(finishing)@ }),
{
}

/// A commit forgets every probe, and lets the tail go on if it reached the
/// batch that the tail waited for.
pub proof fn lemma_a_commit_moves_the_tail_on(runtime: &mut MobileP2PRuntime, height: u64)
    requires
        call_ensures(MobileP2PRuntime::suffix_committed, (runtime, height), ()),
    ensures
        final(runtime)@.probes.len() == 0,
        final(runtime)@ == (RuntimeView {
            probes: final(runtime)@.probes,
            stage: final(runtime)@.stage,
            ..old(runtime)@
        }),
        match old(runtime)@.stage {
            MobileBootstrapStage::TailSync(tail) => match final(runtime)@.stage {
                MobileBootstrapStage::TailSync(after) => {
                    &&& after.peer == tail.peer
                    &&& after.empty_probe_start is None
                    &&& after.inflight_start == tail.inflight_start
                    &&& after.observed_frontier >= height
                    &&& after.observed_frontier >= tail.observed_frontier
                    &&& after.observed_frontier == height || after.observed_frontier == tail.observed_frontier
                    &&& tail.waiting_start is Some && height >= tail.waiting_start->0 ==> after.waiting_start is None
                    &&& tail.waiting_start is Some && height < tail.waiting_start->0 ==> after.waiting_start
                        == tail.waiting_start && after.waiting_since == tail.waiting_since
                },
                _ => false,
            },
            stage => final(runtime)@.stage == stage,
        },
{
}

/// An announced block above the tip is a hint to the tail while that runs, a
/// reason to look for providers while a suffix is fetched, and otherwise asked
/// for from right above the tip. Our own tip is no news. Any other block at or
/// below the tip calls for the last five hundred and twelve headers.
pub proof fn lemma_an_announced_block_is_looked_into(
    runtime: &mut MobileP2PRuntime,
    from: PeerId,
    height: u64,
    hash: Digest,
    local_height: u64,
    local_hash: Digest,
    active: Option<ActiveSuffix>,
    now_ms: u64,
    requests: HeaderRequests,
)
    requires
        call_ensures(
            MobileP2PRuntime::header_announcement,
            (runtime, from, height, &hash, local_height, &local_hash, active, now_ms),
            requests,
        ),
    ensures
        height <= local_height ==> final(runtime)@ == old(runtime)@ && requests.probes@.len() == 0,
        height == local_height && hash == local_hash ==> requests.fetch is None,
        height < local_height || (height == local_height && hash != local_hash) ==> match requests.fetch {
            Some(NetworkCommand::FetchHeaders { peer, start_height, count }) => {
                &&& peer == from
                &&& local_height >= 511 ==> start_height == local_height - 511 && count == 512
                &&& local_height < 511 ==> start_height == 0 && count == local_height + 1
            },
            _ => false,
        },
        height > local_height && old(runtime)@.stage is TailSync ==> requests.fetch is None && requests.probes@.len()
            == 0 && final(runtime)@.stage is TailSync && only_stage_changed(old(runtime)@, final(runtime)@) && final(runtime)@.stage->TailSync_0.observed_frontier >= height && final(runtime)@.stage->TailSync_0.empty_probe_start is None && final(runtime)@.stage->TailSync_0.inflight_start
            == old(runtime)@.stage->TailSync_0.inflight_start,
        height > local_height && !(old(runtime)@.stage is TailSync) && active is Some ==> requests.fetch is None,
        height > local_height && !(old(runtime)@.stage is TailSync) && active is None ==> final(runtime)@ == old(runtime)@ && requests.probes@.len() == 0 && match requests.fetch {
            Some(NetworkCommand::FetchHeaders { peer, start_height, count }) => {
                &&& peer == from
                &&& start_height == local_height + 1
                &&& height - local_height <= 512 ==> count == height - local_height
                &&& height - local_height > 512 ==> count == 512
            },
            _ => false,
        },
{
}

} // verus!
