//! What each step of applying a fetched suffix comes to, and whom it blames.

use vstd::prelude::*;
use crate::bytes::Digest;
use crate::header_planner::ChainPoint;
use crate::peer::PeerId;
use crate::suffix_apply::{body_point, body_points, AnchorLookup, ApplyView, ReorgFailure, SuffixApply};
use crate::sync_apply::{
    anchor_source, body_error_is_peer_fault, body_problem, check_bodies, concatenated, confirmed_by, first_with_height,
    history_step_error_is_peer_fault, mempool_followup, payload_bytes, terminal_check, total_len, AnchorSource,
    AppliedCompactSuffix, AppliedExactSuffix, AppliedReorg, CommitPath, ContextError, ContextFailure, DecodedBody,
    ExactSuffixApplyError, MempoolFollowup, SyncPlanKind, WalletFollowup,
};
use crate::text::occurs_at;

verus! {

/// The error blames the body that this peer sent, in these words.
pub open spec fn blames_one_body(error: ExactSuffixApplyError, source: PeerId, words: Seq<char>) -> bool {
    match error {
        ExactSuffixApplyError::Body { sources, error } => sources@.len() == 1 && sources@[0] == source && error@ == words,
        _ => false,
    }
}

/// The error blames the terminal that this peer sent, in these words.
pub open spec fn blames_the_terminal(error: ExactSuffixApplyError, blamed: PeerId, words: Seq<char>) -> bool {
    match error {
        ExactSuffixApplyError::Terminal { source, error } => source == blamed && error@ == words,
        _ => false,
    }
}

/// The error blames nobody and has these words.
pub open spec fn blames_no_peer(error: ExactSuffixApplyError, words: Seq<char>) -> bool {
    match error {
        ExactSuffixApplyError::Other(error) => error@ == words,
        _ => false,
    }
}

/// The words of an error are those it was made with.
pub proof fn lemma_an_error_keeps_its_words(
    source: PeerId,
    error: String,
    text: &str,
    terminal: ExactSuffixApplyError,
    body: ExactSuffixApplyError,
    other: ExactSuffixApplyError,
    any: ExactSuffixApplyError,
    message: &str,
)
    requires
        call_ensures(ExactSuffixApplyError::terminal, (source, error), terminal),
        call_ensures(ExactSuffixApplyError::body, (source, error), body),
        call_ensures(ExactSuffixApplyError::other, (text,), other),
        call_ensures(ExactSuffixApplyError::message, (&any,), message),
    ensures
        blames_the_terminal(terminal, source, error@),
        blames_one_body(body, source, error@),
        blames_no_peer(other, text@),
        match any {
            ExactSuffixApplyError::Terminal { error, .. } => message@ == error@,
            ExactSuffixApplyError::Body { error, .. } => message@ == error@,
            ExactSuffixApplyError::Other(error) => message@ == error@,
        },
{
}

/// One text stands in another.
pub open spec fn stands_in(text: Seq<char>, part: Seq<char>) -> bool {
    exists|at: int| 0 <= at && at + part.len() <= text.len() && #[trigger] text.subrange(at, at + part.len()) == part
}

proof fn lemma_stands_in(text: Seq<char>, part: Seq<char>)
    ensures
        crate::text::text_contains(text, part) <==> stands_in(text, part),
{
    if crate::text::text_contains(text, part) {
        let at = choose|at: int| occurs_at(text, part, at);
        assert(text.subrange(at, at + part.len()) == part);
    }
    if stands_in(text, part) {
        let at = choose|at: int|
            0 <= at && at + part.len() <= text.len() && #[trigger] text.subrange(at, at + part.len()) == part;
        assert(occurs_at(text, part, at));
    }
}

/// The sender of a terminal is at fault exactly for the four ways in which the
/// terminal itself breaks a rule.
pub proof fn lemma_when_the_terminal_is_at_fault(kind: ContextError, fault: bool)
    requires
        call_ensures(history_step_error_is_peer_fault, (&kind,), fault),
    ensures
        match kind {
            ContextError::BadTerminal(message) => fault <==> stands_in(message@, "terminal exceeds the wire cap"@)
                || stands_in(message@, "terminal metadata is invalid"@) || stands_in(
                message@,
                "terminal does not bind"@,
            ) || stands_in(message@, "HistoryStep terminal rejected:"@),
            _ => !fault,
        },
{
    if let ContextError::BadTerminal(message) = kind {
        lemma_stands_in(message@, "terminal exceeds the wire cap"@);
        lemma_stands_in(message@, "terminal metadata is invalid"@);
        lemma_stands_in(message@, "terminal does not bind"@);
        lemma_stands_in(message@, "HistoryStep terminal rejected:"@);
    }
}

/// The sender of a body is at fault if a consensus rule is broken or the body is
/// malformed; a failing store or a full resource is never a peer's fault.
pub proof fn lemma_when_a_body_is_at_fault(kind: ContextError, fault: bool)
    requires
        call_ensures(body_error_is_peer_fault, (&kind,), fault),
    ensures
        match kind {
            ContextError::BadTerminal(_) => fault,
            ContextError::Consensus => fault,
            ContextError::Store => !fault,
            ContextError::ResourceLimit => !fault,
            ContextError::Corrupt(message) => fault <==> (message@ == "recursive suffix block body is malformed"@
                || message@ == "recursive suffix block has invalid logical transactions"@ || message@
                == "recursive reorg body is malformed"@ || message@ == "recursive reorg tip body is malformed"@),
        },
{
}

/// A terminal passes only with a verifier that does not reject it.
pub proof fn lemma_no_terminal_passes_unverified(
    verifier_present: bool,
    rejected: Option<String>,
    result: Result<(), String>,
)
    requires
        call_ensures(terminal_check, (verifier_present, rejected), result),
    ensures
        result is Ok <==> verifier_present && rejected is None,
        !verifier_present ==> result->Err_0@ == "embedded HistoryStep verifier unavailable"@,
        verifier_present && rejected is Some ==> result->Err_0@ == "HistoryStep terminal rejected: "@ + rejected->0@,
{
}

/// The bodies are bound to the plan only if there is one for each header, with
/// its sender, each with the validated header, and the last one is the target.
/// The first bad body is blamed on the peer that sent it.
pub proof fn lemma_bodies_are_bound_to_the_plan(
    headers: usize,
    target: ChainPoint,
    bodies: Vec<DecodedBody>,
    sources: Vec<PeerId>,
    result: Result<(), ExactSuffixApplyError>,
    k: int,
)
    requires
        call_ensures(check_bodies, (headers, &target, &bodies, &sources), result),
        0 <= k <= bodies@.len(),
        forall|i: int| 0 <= i < k ==> (#[trigger] bodies@[i]) is Block && bodies@[i]->header_matches,
        k < bodies@.len() ==> bodies@[k] is Malformed || !bodies@[k]->header_matches,
    ensures
        ({
            let counted = bodies@.len() == headers && sources@.len() == bodies@.len() && bodies@.len() > 0;
            &&& !counted ==> result is Err && blames_no_peer(
                result->Err_0,
                "exact suffix body/source count differs from its immutable plan"@,
            )
            &&& counted && k < bodies@.len() && bodies@[k] is Malformed ==> result is Err && blames_one_body(
                result->Err_0,
                sources@[k],
                "decode exact suffix body: "@ + bodies@[k]->Malformed_0@,
            )
            &&& counted && k < bodies@.len() && bodies@[k] is Block ==> result is Err && blames_one_body(
                result->Err_0,
                sources@[k],
                "exact suffix body header differs from its validated header"@,
            )
            &&& counted && k == bodies@.len() && bodies@.last()->hash != target.hash ==> result is Err
                && blames_one_body(
                result->Err_0,
                sources@.last(),
                "exact suffix bodies do not end at selected target"@,
            )
            &&& counted && k == bodies@.len() && bodies@.last()->hash == target.hash ==> result is Ok
        }),
{
    assert forall|i: int| 0 <= i < k implies body_problem(#[trigger] bodies@[i]) is None by {
        assert(bodies@[i] is Block && bodies@[i]->header_matches);
    }
    if k < bodies@.len() {
        assert(body_problem(bodies@[k]) is Some);
        if bodies@.len() == headers && sources@.len() == bodies@.len() {
            let first = choose|first: int|
                {
                    &&& 0 <= first < bodies@.len()
                    &&& body_problem(#[trigger] bodies@[first]) is Some
                    &&& forall|i: int| 0 <= i < first ==> body_problem(#[trigger] bodies@[i]) is None
                    &&& result is Err
                    &&& result->Err_0@ == crate::sync_apply::blames_body(
                        sources@[first],
                        body_problem(bodies@[first])->0,
                    )
                };
            assert(first == k) by {
                if first < k {
                    assert(body_problem(bodies@[first]) is None);
                } else if k < first {
                    assert(body_problem(bodies@[k]) is None);
                }
            }
        }
    } else {
        assert forall|i: int| 0 <= i < bodies@.len() implies body_problem(#[trigger] bodies@[i]) is None by {}
    }
}

/// The epoch anchor is looked for in the chain if it lies at or below the base,
/// and otherwise in the first body of its height.
pub proof fn lemma_where_the_anchor_stands(
    epoch_height: u64,
    base_height: u64,
    points: Vec<ChainPoint>,
    source: AnchorSource,
    k: int,
)
    requires
        call_ensures(anchor_source, (epoch_height, base_height, &points), source),
        points@.len() <= usize::MAX,
        0 <= k <= points@.len(),
        forall|i: int| 0 <= i < k ==> (#[trigger] points@[i]).height != epoch_height,
        k < points@.len() ==> points@[k].height == epoch_height,
    ensures
        epoch_height <= base_height <==> source is Canonical,
        epoch_height > base_height && k < points@.len() ==> source == AnchorSource::Body(k as usize),
        epoch_height > base_height && k == points@.len() ==> source is Missing,
{
    if epoch_height > base_height {
        if k < points@.len() {
            assert(first_with_height(points@, epoch_height, k));
            let i = choose|i: int| first_with_height(points@, epoch_height, i);
            assert(first_with_height(points@, epoch_height, i));
            assert(i == k) by {
                if i < k {
                    assert(points@[i].height != epoch_height);
                } else if k < i {
                    assert(points@[k].height != epoch_height);
                }
            }
        } else {
            assert forall|i: int| !first_with_height(points@, epoch_height, i) by {
                if 0 <= i < points@.len() {
                    assert(points@[i].height != epoch_height);
                }
            }
        }
    }
}

/// An application starts with nothing checked and nothing written.
pub proof fn lemma_an_application_starts_unchecked(
    kind: SyncPlanKind,
    base: ChainPoint,
    target: ChainPoint,
    planned: usize,
    sources: Vec<PeerId>,
    terminal_source: PeerId,
    apply: SuffixApply,
)
    requires
        call_ensures(SuffixApply::new, (kind, base, target, planned, sources, terminal_source), apply),
    ensures
        apply@.stage is Fetched,
        apply@.kind == kind && apply@.base == base && apply@.target == target && apply@.planned == planned,
        apply@.sources == sources@ && apply@.terminal_source == terminal_source,
        apply@.applied == 0 && apply@.confirmed.len() == 0 && apply@.trailing is None,
{
}

/// Bodies that pass their check are bound, each with its own height and hash;
/// any other end the application.
pub proof fn lemma_bound_bodies_are_remembered(
    apply: &mut SuffixApply,
    bodies: Vec<DecodedBody>,
    result: Result<(), ExactSuffixApplyError>,
)
    requires
        call_ensures(SuffixApply::bodies, (apply, &bodies), result),
    ensures
        result is Ok ==> {
            &&& final(apply)@.stage is Bound
            &&& bodies@.len() == old(apply)@.planned
            &&& bodies@.len() == old(apply)@.sources.len()
            &&& bodies@.last()->hash == old(apply)@.target.hash
            &&& final(apply)@.points.len() == bodies@.len()
            &&& forall|i: int|
                0 <= i < bodies@.len() ==> {
                    &&& (#[trigger] bodies@[i]) is Block
                    &&& bodies@[i]->header_matches
                    &&& final(apply)@.points[i].height == bodies@[i]->height
                    &&& final(apply)@.points[i].hash == bodies@[i]->hash
                }
        },
        result is Err ==> final(apply)@.stage is Refused,
        final(apply)@.kind == old(apply)@.kind,
        final(apply)@.base == old(apply)@.base,
        final(apply)@.target == old(apply)@.target,
        final(apply)@.sources == old(apply)@.sources,
        final(apply)@.applied == old(apply)@.applied,
        final(apply)@.confirmed == old(apply)@.confirmed,
{
    if result is Ok {
        assert forall|i: int| 0 <= i < bodies@.len() implies {
            &&& (#[trigger] bodies@[i]) is Block
            &&& bodies@[i]->header_matches
            &&& final(apply)@.points[i].height == bodies@[i]->height
            &&& final(apply)@.points[i].hash == bodies@[i]->hash
        } by {
            assert(body_problem(bodies@[i]) is None);
            assert(body_points(bodies@)[i] == body_point(bodies@[i]));
        }
    }
}

/// Everything but the stage is as it was.
pub open spec fn only_the_stage_changed(before: ApplyView, after: ApplyView) -> bool {
    after == (ApplyView { stage: after.stage, ..before })
}

/// The anchor is found where it stands, and a missing one ends the application
/// without blame.
pub proof fn lemma_the_anchor_must_be_found(
    apply: &mut SuffixApply,
    before: SuffixApply,
    epoch_height: u64,
    stored: AnchorLookup,
    source: AnchorSource,
    result: Result<AnchorSource, ExactSuffixApplyError>,
)
    requires
        before == *old(apply),
        call_ensures(SuffixApply::anchor_source, (&before, epoch_height), source),
        call_ensures(SuffixApply::anchor, (apply, epoch_height, stored), result),
    ensures
        only_the_stage_changed(old(apply)@, final(apply)@),
        source is Canonical <==> epoch_height <= old(apply)@.base.height,
        result is Ok ==> result->Ok_0 == source && final(apply)@.stage is Anchored,
        result is Err ==> final(apply)@.stage is Refused,
        result is Ok <==> source is Body || (source is Canonical && stored is Found),
        source is Missing ==> blames_no_peer(
            result->Err_0,
            "exact suffix epoch anchor missing from candidate bodies"@,
        ),
        source is Canonical && stored is Absent ==> blames_no_peer(
            result->Err_0,
            "exact suffix epoch anchor missing from canonical storage"@,
        ),
        source is Canonical && stored is Failed ==> blames_no_peer(
            result->Err_0,
            "load exact suffix epoch anchor: "@ + stored->Failed_0@,
        ),
{
}

/// A terminal that the chain does not verify ends the application, and its
/// sender is blamed only if the terminal itself is at fault.
pub proof fn lemma_an_unverified_terminal_ends_the_application(
    apply: &mut SuffixApply,
    outcome: Result<(), ContextFailure>,
    result: Result<(), ExactSuffixApplyError>,
    fault: bool,
)
    requires
        call_ensures(SuffixApply::terminal_verified, (apply, outcome), result),
        outcome is Err ==> call_ensures(history_step_error_is_peer_fault, (&(outcome->Err_0.kind),), fault),
    ensures
        only_the_stage_changed(old(apply)@, final(apply)@),
        result is Ok <==> outcome is Ok,
        result is Ok ==> final(apply)@.stage is Verified,
        result is Err ==> final(apply)@.stage is Refused,
        outcome is Err ==> ({
            let words = "verify exact suffix terminal: "@ + outcome->Err_0.text@;
            if fault {
                blames_the_terminal(result->Err_0, old(apply)@.terminal_source, words)
            } else {
                blames_no_peer(result->Err_0, words)
            }
        }),
{
}

/// A live suffix is committed only on the very tip that it was fetched for; a
/// replacement may be committed, and a snapshot plan never.
pub proof fn lemma_a_live_suffix_needs_its_base(
    apply: &mut SuffixApply,
    tip: ChainPoint,
    result: Result<CommitPath, ExactSuffixApplyError>,
)
    requires
        call_ensures(SuffixApply::commit_path, (apply, &tip), result),
    ensures
        only_the_stage_changed(old(apply)@, final(apply)@),
        old(apply)@.kind is LiveSuffix ==> (result is Ok <==> tip.height == old(apply)@.base.height && tip.hash == old(apply)@.base.hash),
        old(apply)@.kind is LiveSuffix && result is Ok ==> result->Ok_0 is Live && final(apply)@.stage is LiveAdmitted,
        old(apply)@.kind is LiveSuffix && result is Err ==> blames_no_peer(
            result->Err_0,
            "exact live suffix base changed before commit"@,
        ),
        old(apply)@.kind is Reorg ==> result is Ok && result->Ok_0 is Reorg && final(apply)@.stage is ReorgAdmitted,
        old(apply)@.kind is Snapshot ==> result is Err && blames_no_peer(
            result->Err_0,
            "snapshot plan reached live suffix committer"@,
        ),
        result is Err ==> final(apply)@.stage is Refused,
{
}

/// A commit that the chain does not authorize is not made.
pub proof fn lemma_an_unauthorized_commit_is_not_made(
    apply: &mut SuffixApply,
    outcome: Result<(), ContextFailure>,
    result: Result<(), ExactSuffixApplyError>,
    fault: bool,
)
    requires
        old(apply)@.stage is LiveAdmitted || old(apply)@.stage is ReorgAdmitted,
        call_ensures(SuffixApply::authorized, (apply, outcome), result),
        outcome is Err ==> call_ensures(history_step_error_is_peer_fault, (&(outcome->Err_0.kind),), fault),
    ensures
        only_the_stage_changed(old(apply)@, final(apply)@),
        result is Ok <==> outcome is Ok,
        result is Ok && old(apply)@.stage is LiveAdmitted ==> final(apply)@.stage is Live,
        result is Ok && old(apply)@.stage is ReorgAdmitted ==> final(apply)@.stage is Reorg,
        result is Err ==> final(apply)@.stage is Refused,
        outcome is Err ==> ({
            let words = (if old(apply)@.stage is LiveAdmitted {
                "authorize exact live suffix terminal: "@
            } else {
                "authorize exact reorg terminal: "@
            }) + outcome->Err_0.text@;
            if fault {
                blames_the_terminal(result->Err_0, old(apply)@.terminal_source, words)
            } else {
                blames_no_peer(result->Err_0, words)
            }
        }),
{
}

/// Blocks are committed one after the other: the next one is the first that is
/// not committed, until one fails or none is left.
pub proof fn lemma_blocks_are_committed_in_order(
    apply: SuffixApply,
    index: Option<usize>,
    applied: &mut SuffixApply,
    txids: Vec<Digest>,
)
    requires
        apply@.wf(),
        *old(applied) == apply,
        index is Some,
        call_ensures(SuffixApply::next_block, (&apply,), index),
        call_ensures(SuffixApply::block_applied, (applied, &txids), ()),
    ensures
        index->0 == apply@.applied,
        index->0 < apply@.planned,
        apply@.stage is Live,
        apply@.trailing is None,
        final(applied)@.applied == apply@.applied + 1,
        final(applied)@.confirmed == apply@.confirmed + txids@,
        final(applied)@.stage is Live,
        final(applied)@.trailing is None,
        final(applied)@.points == apply@.points,
        final(applied)@.planned == apply@.planned,
        final(applied)@.base == apply@.base,
{
}

/// There is a next block exactly while blocks are committed, none failed and some are left.
pub proof fn lemma_when_another_block_is_committed(apply: SuffixApply, index: Option<usize>)
    requires
        call_ensures(SuffixApply::next_block, (&apply,), index),
    ensures
        index is Some <==> apply.stage is Live && apply.trailing_error is None && apply.applied < apply.planned,
{
}

/// A block that fails ends the commit before it. Its sender is blamed for
/// transactions that cannot be read, and for a block that is itself at fault.
pub proof fn lemma_a_bad_block_ends_the_commit(
    unread: &mut SuffixApply,
    error: &str,
    refused: &mut SuffixApply,
    failure: ContextFailure,
    fault: bool,
    height: String,
)
    requires
        old(unread)@.wf() && old(unread)@.stage is Live,
        old(refused)@.wf() && old(refused)@.stage is Live,
        call_ensures(SuffixApply::bad_transactions, (unread, error), ()),
        call_ensures(SuffixApply::block_refused, (refused, &failure), ()),
        call_ensures(body_error_is_peer_fault, (&failure.kind,), fault),
        call_ensures(
            crate::text::decimal_text,
            (old(refused)@.points[old(refused)@.applied as int].height,),
            height,
        ),
    ensures
        final(unread)@.applied == old(unread)@.applied,
        final(unread)@.confirmed == old(unread)@.confirmed,
        final(unread).trailing_error is Some,
        blames_one_body(
            final(unread).trailing_error->0,
            old(unread)@.sources[old(unread)@.applied as int],
            "exact suffix logical transaction stream: "@ + error@,
        ),
        final(refused)@.applied == old(refused)@.applied,
        final(refused)@.confirmed == old(refused)@.confirmed,
        final(refused).trailing_error is Some,
        ({
            let words = "apply exact suffix block "@ + height@ + ": "@ + failure.text@;
            if fault {
                blames_one_body(
                    final(refused).trailing_error->0,
                    old(refused)@.sources[old(refused)@.applied as int],
                    words,
                )
            } else {
                blames_no_peer(final(refused).trailing_error->0, words)
            }
        }),
{
    assert(final(unread)@.trailing is Some);
    assert(final(refused)@.trailing is Some);
}

/// A commit that ends without an error applied every block and reached the
/// verified tip; an earlier error is kept.
pub proof fn lemma_a_commit_without_error_is_complete(apply: &mut SuffixApply, complete: bool)
    requires
        call_ensures(SuffixApply::finish, (apply, complete), ()),
    ensures
        final(apply)@.stage is Committed,
        final(apply)@.applied == old(apply)@.applied,
        final(apply)@.confirmed == old(apply)@.confirmed,
        old(apply)@.trailing is Some ==> final(apply)@.trailing == old(apply)@.trailing,
        old(apply)@.trailing is None ==> (final(apply).trailing_error is None <==> complete && old(apply)@.applied
            == old(apply)@.planned),
        old(apply)@.trailing is None && final(apply).trailing_error is Some ==> blames_no_peer(
            final(apply).trailing_error->0,
            "exact suffix ended before verified tip"@,
        ),
{
    assert(final(apply)@.trailing is Some <==> final(apply).trailing_error is Some);
}

proof fn lemma_len_is_folded(lengths: Seq<usize>)
    ensures
        total_len(lengths) == lengths.fold_left(0int, |total: int, len: usize| total + len),
    decreases lengths.len(),
{
    reveal_with_fuel(Seq::fold_left, 2);
    if lengths.len() > 0 {
        lemma_len_is_folded(lengths.drop_last());
    }
}

/// What a live commit reports: the tip of the chain, the transactions that it
/// confirmed, the blocks that it applied, the bytes of all bodies, and the
/// error with which it ended.
pub proof fn lemma_a_live_commit_reports_what_it_did<V>(
    apply: SuffixApply,
    tip: ChainPoint,
    view: V,
    lengths: Vec<usize>,
    elapsed: u64,
    outcome: AppliedCompactSuffix<V>,
    bytes: u64,
)
    requires
        apply@.wf(),
        apply@.stage is Committed,
        call_ensures(SuffixApply::live_applied::<V>, (apply, &tip, view, &lengths, elapsed), outcome),
        call_ensures(payload_bytes, (&lengths,), bytes),
    ensures
        outcome.height == tip.height,
        outcome.block_hash == tip.hash,
        outcome.confirmed_tx_hashes@ == apply.confirmed_tx_hashes@,
        outcome.applied_blocks == apply.applied,
        outcome.view == view,
        outcome.apply_elapsed_ms == elapsed,
        outcome.payload_bytes == bytes,
        ({
            let total = lengths@.fold_left(0int, |total: int, len: usize| total + len);
            &&& total <= u64::MAX ==> bytes == total
            &&& total > u64::MAX ==> bytes == u64::MAX
        }),
        outcome.trailing_error is Some <==> apply.trailing_error is Some,
        outcome.trailing_error is None ==> outcome.applied_blocks == apply.planned,
{
    lemma_len_is_folded(lengths@);
}

/// A replacement is committed as a whole or not at all. The sender of the body
/// at which it failed is blamed only if the body is at fault.
pub proof fn lemma_a_replacement_is_all_or_nothing(
    apply: &mut SuffixApply,
    outcome: Result<(), ReorgFailure>,
    result: Result<(), ExactSuffixApplyError>,
    fault: bool,
)
    requires
        call_ensures(SuffixApply::reorganized, (apply, outcome), result),
        outcome is Err ==> call_ensures(body_error_is_peer_fault, (&(outcome->Err_0.failure.kind),), fault),
    ensures
        only_the_stage_changed(old(apply)@, final(apply)@),
        result is Ok <==> outcome is Ok,
        result is Ok ==> final(apply)@.stage is Reorganized,
        result is Err ==> final(apply)@.stage is Refused,
        outcome matches Err(refused) ==> ({
            let words = "apply atomic exact reorg suffix: "@ + refused.failure.text@;
            if fault && refused.body_index is Some && refused.body_index->0 < old(apply)@.sources.len() {
                blames_one_body(result->Err_0, old(apply)@.sources[refused.body_index->0 as int], words)
            } else {
                blames_no_peer(result->Err_0, words)
            }
        }),
{
}

/// After a reorganization a wallet whose coins are not in place can spend nothing.
pub proof fn lemma_the_wallet_fails_closed(
    apply: SuffixApply,
    loaded: bool,
    owner_found: bool,
    installed: bool,
    followup: WalletFollowup,
)
    requires
        call_ensures(SuffixApply::wallet_after_reorg, (&apply, loaded, owner_found, installed), followup),
    ensures
        followup is Nothing <==> !loaded,
        followup is Installed <==> loaded && owner_found && installed,
        followup is Invalidate <==> loaded && !(owner_found && installed),
{
}

proof fn lemma_concatenated_is_flat(blocks: Seq<Vec<Digest>>)
    ensures
        concatenated(blocks) == blocks.fold_left(
            Seq::<Digest>::empty(),
            |all: Seq<Digest>, block: Vec<Digest>| all + block@,
        ),
    decreases blocks.len(),
{
    reveal_with_fuel(Seq::fold_left, 2);
    if blocks.len() > 0 {
        lemma_concatenated_is_flat(blocks.drop_last());
    }
}

/// A reorganization reports its tip, the payments that left the chain, and the
/// transactions of its blocks, one block after the other.
pub proof fn lemma_a_reorganization_reports_what_it_did<V>(
    apply: SuffixApply,
    tip: ChainPoint,
    reclaimed: Vec<Digest>,
    txids: Vec<Vec<Digest>>,
    view: V,
    outcome: AppliedReorg<V>,
    confirmed: Vec<Digest>,
)
    requires
        call_ensures(SuffixApply::reorg_applied::<V>, (apply, tip, reclaimed, &txids, view), outcome),
        call_ensures(confirmed_by, (&txids,), confirmed),
    ensures
        outcome.tip == tip,
        outcome.reclaimed_tx_hashes == reclaimed,
        outcome.view == view,
        outcome.confirmed_tx_hashes@ == confirmed@,
        confirmed@ == txids@.fold_left(
            Seq::<Digest>::empty(),
            |all: Seq<Digest>, block: Vec<Digest>| all + block@,
        ),
{
    lemma_concatenated_is_flat(txids@);
}

/// The mempool hears of a commit that applied a block, and after a
/// reorganization takes the reclaimed payments back.
pub proof fn lemma_the_mempool_follows_the_chain<V>(applied: AppliedExactSuffix<V>, followup: MempoolFollowup)
    requires
        call_ensures(mempool_followup::<V>, (&applied,), followup),
    ensures
        match applied {
            AppliedExactSuffix::Live(live) => (live.applied_blocks == 0 ==> followup is Nothing) && (live.applied_blocks
                > 0 ==> followup == (MempoolFollowup::NewBlock { height: live.height })),
            AppliedExactSuffix::Reorg(reorg) => followup == (MempoolFollowup::NewBlockThenReadmit {
                height: reorg.tip.height,
            }),
        },
{
}

} // verus!
