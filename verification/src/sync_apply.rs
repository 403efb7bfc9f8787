//! Applying a completely fetched suffix.
//!
//! The bodies are bound to their validated headers, the terminal is verified,
//! and then the suffix extends the chain block by block or replaces its end at
//! once. A peer is blamed only for what it sent.

use vstd::prelude::*;
use crate::bytes::{hash_eq, Digest};
use crate::header_planner::ChainPoint;
use crate::peer::PeerId;
use crate::text::{contains, occurs_at, text_contains};

verus! {

/// Why a suffix was not applied.
#[derive(Debug)]
pub enum ExactSuffixApplyError {
    /// The terminal that this peer sent is bad.
    Terminal { source: PeerId, error: String },
    /// A body that one of these peers sent is bad.
    Body { sources: Vec<PeerId>, error: String },
    /// Nobody is to blame.
    Other(String),
}

/// What an error blames on whom, and its words.
pub enum Blame {
    /// The terminal, on the peer that sent it.
    Terminal { source: PeerId, words: Seq<char> },
    /// A body, on the peers that may have sent it.
    Body { sources: Seq<PeerId>, words: Seq<char> },
    /// Nothing on anybody.
    Nobody { words: Seq<char> },
}

impl Blame {
    pub open spec fn words(self) -> Seq<char> {
        match self {
            Blame::Terminal { words, .. } => words,
            Blame::Body { words, .. } => words,
            Blame::Nobody { words } => words,
        }
    }
}

impl View for ExactSuffixApplyError {
    type V = Blame;

    open spec fn view(&self) -> Blame {
        match *self {
            ExactSuffixApplyError::Terminal { source, error } => Blame::Terminal { source, words: error@ },
            ExactSuffixApplyError::Body { sources, error } => Blame::Body { sources: sources@, words: error@ },
            ExactSuffixApplyError::Other(error) => Blame::Nobody { words: error@ },
        }
    }
}

pub open spec fn blames_terminal(source: PeerId, words: Seq<char>) -> Blame {
    Blame::Terminal { source, words }
}

pub open spec fn blames_body(source: PeerId, words: Seq<char>) -> Blame {
    Blame::Body { sources: seq![source], words }
}

pub open spec fn blames_nobody(words: Seq<char>) -> Blame {
    Blame::Nobody { words }
}

impl ExactSuffixApplyError {
    /// The terminal that `source` sent is bad.
    pub fn terminal(source: PeerId, error: String) -> (result: ExactSuffixApplyError)
        ensures
            result@ == blames_terminal(source, error@),
    {
        ExactSuffixApplyError::Terminal { source, error }
    }

    /// A body that `source` sent is bad.
    pub fn body(source: PeerId, error: String) -> (result: ExactSuffixApplyError)
        ensures
            result@ == blames_body(source, error@),
    {
        let mut sources: Vec<PeerId> = Vec::new();
        sources.push(source);
        assert(sources@ =~= seq![source]);
        ExactSuffixApplyError::Body { sources, error }
    }

    /// Nobody is to blame.
    pub fn other(error: &str) -> (result: ExactSuffixApplyError)
        ensures
            result@ == blames_nobody(error@),
    {
        ExactSuffixApplyError::Other(String::from_str(error))
    }

    /// The words in which the error is reported.
    pub fn message(&self) -> (text: &str)
        ensures
            text@ == self@.words(),
    {
        match self {
            ExactSuffixApplyError::Terminal { error, .. } => error.as_str(),
            ExactSuffixApplyError::Body { error, .. } => error.as_str(),
            ExactSuffixApplyError::Other(error) => error.as_str(),
        }
    }
}

/// What the chain reports of a failure.
#[derive(Debug)]
pub enum ContextError {
    /// The terminal breaks a rule.
    BadTerminal(String),
    /// Another consensus rule is broken.
    Consensus,
    /// What is stored, or was handed over, is malformed.
    Corrupt(String),
    Store,
    ResourceLimit,
}

/// A failure and its words.
#[derive(Debug)]
pub struct ContextFailure {
    pub kind: ContextError,
    pub text: String,
}

/// The terminal itself is at fault.
pub open spec fn terminal_fault(kind: ContextError) -> bool {
    match kind {
        ContextError::BadTerminal(message) => {
            ||| text_contains(message@, "terminal exceeds the wire cap"@)
            ||| text_contains(message@, "terminal metadata is invalid"@)
            ||| text_contains(message@, "terminal does not bind"@)
            ||| text_contains(message@, "HistoryStep terminal rejected:"@)
        },
        _ => false,
    }
}

/// Whether the peer that sent the terminal is to blame for a failure.
pub fn history_step_error_is_peer_fault(kind: &ContextError) -> (fault: bool)
    ensures
        fault == terminal_fault(*kind),
{
    match kind {
        ContextError::BadTerminal(message) => {
            let text: &str = message.as_str();
            contains(text, "terminal exceeds the wire cap") || contains(text, "terminal metadata is invalid")
                || contains(text, "terminal does not bind") || contains(text, "HistoryStep terminal rejected:")
        },
        _ => false,
    }
}

/// A body is at fault.
pub open spec fn body_fault(kind: ContextError) -> bool {
    match kind {
        ContextError::BadTerminal(_) => true,
        ContextError::Consensus => true,
        ContextError::Corrupt(message) => {
            ||| message@ == "recursive suffix block body is malformed"@
            ||| message@ == "recursive suffix block has invalid logical transactions"@
            ||| message@ == "recursive reorg body is malformed"@
            ||| message@ == "recursive reorg tip body is malformed"@
        },
        ContextError::Store => false,
        ContextError::ResourceLimit => false,
    }
}

/// Whether the peer that sent a body is to blame for a failure.
pub fn body_error_is_peer_fault(kind: &ContextError) -> (fault: bool)
    ensures
        fault == body_fault(*kind),
{
    match kind {
        ContextError::BadTerminal(_) => true,
        ContextError::Consensus => true,
        ContextError::Corrupt(message) => {
            let first = String::from_str("recursive suffix block body is malformed");
            let second = String::from_str("recursive suffix block has invalid logical transactions");
            let third = String::from_str("recursive reorg body is malformed");
            let fourth = String::from_str("recursive reorg tip body is malformed");
            *message == first || *message == second || *message == third || *message == fourth
        },
        ContextError::Store => false,
        ContextError::ResourceLimit => false,
    }
}

pub(crate) fn joined(prefix: &str, rest: &str) -> (text: String)
    ensures
        text@ == prefix@ + rest@,
{
    let mut text = String::from_str(prefix);
    text.append(rest);
    text
}

/// What checking the claim of a terminal comes to.
pub open spec fn claim_checked(verifier_present: bool, rejected: Option<Seq<char>>) -> Result<(), Seq<char>> {
    if !verifier_present {
        Err("embedded HistoryStep verifier unavailable"@)
    } else {
        match rejected {
            Some(error) => Err("HistoryStep terminal rejected: "@ + error),
            None => Ok(()),
        }
    }
}

/// Judge the claim of a terminal by what the verifier says of it.
///
/// Without a verifier no terminal passes, and that is nobody's fault.
pub fn terminal_check(verifier_present: bool, rejected: Option<String>) -> (result: Result<(), String>)
    ensures
        match claim_checked(
            verifier_present,
            match rejected {
                Some(error) => Some(error@),
                None => None,
            },
        ) {
            Ok(()) => result is Ok,
            Err(words) => result is Err && result->Err_0@ == words,
        },
{
    if !verifier_present {
        return Err(String::from_str("embedded HistoryStep verifier unavailable"));
    }
    match rejected {
        Some(error) => Err(joined("HistoryStep terminal rejected: ", error.as_str())),
        None => Ok(()),
    }
}

/// Of the two ways in which the claim of a terminal fails, only a rejection
/// by the verifier is the fault of the peer that sent it.
pub proof fn lemma_only_a_rejection_blames_the_peer(
    verifier_present: bool,
    rejected: Option<Seq<char>>,
    message: String,
)
    requires
        claim_checked(verifier_present, rejected) == Err::<(), Seq<char>>(message@),
    ensures
        terminal_fault(ContextError::BadTerminal(message)) <==> verifier_present,
{
    if verifier_present {
        let marker = "HistoryStep terminal rejected:"@;
        reveal_strlit("HistoryStep terminal rejected:");
        reveal_strlit("HistoryStep terminal rejected: ");
        assert(message@.subrange(0, marker.len() as int) =~= marker);
        assert(occurs_at(message@, marker, 0));
    } else {
        lemma_unavailable_names_no_fault();
    }
}

proof fn lemma_unavailable_names_no_fault()
    ensures
        ({
            let text = "embedded HistoryStep verifier unavailable"@;
            &&& !text_contains(text, "terminal exceeds the wire cap"@)
            &&& !text_contains(text, "terminal metadata is invalid"@)
            &&& !text_contains(text, "terminal does not bind"@)
            &&& !text_contains(text, "HistoryStep terminal rejected:"@)
        }),
{
    let text = "embedded HistoryStep verifier unavailable"@;
    let wire = "terminal exceeds the wire cap"@;
    let metadata = "terminal metadata is invalid"@;
    let binding = "terminal does not bind"@;
    let rejection = "HistoryStep terminal rejected:"@;
    reveal_strlit("embedded HistoryStep verifier unavailable");
    reveal_strlit("terminal exceeds the wire cap");
    reveal_strlit("terminal metadata is invalid");
    reveal_strlit("terminal does not bind");
    reveal_strlit("HistoryStep terminal rejected:");
    assert forall|at: int| 0 <= at < 20 implies {
        &&& !(#[trigger] text[at] == 't' && text[at + 1] == 'e' && text[at + 2] == 'r')
        &&& !(text[at] == 'H' && text[at + 12] == 't')
    } by {
        assert(at == 0 || at == 1 || at == 2 || at == 3 || at == 4 || at == 5 || at == 6 || at == 7 || at == 8 || at == 9
            || at == 10 || at == 11 || at == 12 || at == 13 || at == 14 || at == 15 || at == 16 || at == 17 || at == 18 || at == 19);
    }
    assert forall|at: int|
        !occurs_at(text, wire, at) && !occurs_at(text, metadata, at) && !occurs_at(text, binding, at)
            && !occurs_at(text, rejection, at) by {
        if occurs_at(text, wire, at) {
            lemma_stands_at(text, wire, at);
        }
        if occurs_at(text, metadata, at) {
            lemma_stands_at(text, metadata, at);
        }
        if occurs_at(text, binding, at) {
            lemma_stands_at(text, binding, at);
        }
        if occurs_at(text, rejection, at) {
            lemma_stands_at(text, rejection, at);
        }
    }
}

proof fn lemma_stands_at(text: Seq<char>, needle: Seq<char>, at: int)
    requires
        occurs_at(text, needle, at),
        needle.len() > 12,
    ensures
        text[at] == needle[0],
        text[at + 1] == needle[1],
        text[at + 2] == needle[2],
        text[at + 12] == needle[12],
{
    let part = text.subrange(at, at + needle.len());
    assert(part[0] == needle[0] && part[1] == needle[1] && part[2] == needle[2] && part[12] == needle[12]);
}

/// When the chain met the terminal.
#[derive(Clone, Copy, Debug, PartialEq, Eq, Structural)]
pub enum TerminalUse {
    Verify,
    AuthorizeLive,
    AuthorizeReorg,
}

pub open spec fn terminal_use_words(usage: TerminalUse) -> Seq<char> {
    match usage {
        TerminalUse::Verify => "verify exact suffix terminal: "@,
        TerminalUse::AuthorizeLive => "authorize exact live suffix terminal: "@,
        TerminalUse::AuthorizeReorg => "authorize exact reorg terminal: "@,
    }
}

/// The error for a terminal that the chain did not take.
pub fn terminal_failure(usage: TerminalUse, source: PeerId, failure: &ContextFailure) -> (error: ExactSuffixApplyError)
    ensures
        error@ == (if terminal_fault(failure.kind) {
            blames_terminal(source, terminal_use_words(usage) + failure.text@)
        } else {
            blames_nobody(terminal_use_words(usage) + failure.text@)
        }),
{
    let prefix: &str = match usage {
        TerminalUse::Verify => "verify exact suffix terminal: ",
        TerminalUse::AuthorizeLive => "authorize exact live suffix terminal: ",
        TerminalUse::AuthorizeReorg => "authorize exact reorg terminal: ",
    };
    let message = joined(prefix, failure.text.as_str());
    if history_step_error_is_peer_fault(&failure.kind) {
        ExactSuffixApplyError::terminal(source, message)
    } else {
        ExactSuffixApplyError::Other(message)
    }
}

/// What decoding a body gave.
#[derive(Debug)]
pub enum DecodedBody {
    Malformed(String),
    Block {
        /// Its header is the validated one.
        header_matches: bool,
        height: u64,
        hash: Digest,
    },
}

/// What is wrong with a body on its own.
pub open spec fn body_problem(body: DecodedBody) -> Option<Seq<char>> {
    match body {
        DecodedBody::Malformed(error) => Some("decode exact suffix body: "@ + error@),
        DecodedBody::Block { header_matches, .. } => if header_matches {
            None
        } else {
            Some("exact suffix body header differs from its validated header"@)
        },
    }
}

/// The bodies are as many as the plan has headers, each with a source.
pub open spec fn counts_fit(headers: nat, bodies: nat, sources: nat) -> bool {
    bodies == headers && sources == bodies && bodies != 0
}

/// How the check of the bodies of a suffix comes out.
pub open spec fn bodies_checked(
    headers: nat,
    target: ChainPoint,
    bodies: Seq<DecodedBody>,
    sources: Seq<PeerId>,
    result: Result<(), ExactSuffixApplyError>,
) -> bool {
    if !counts_fit(headers, bodies.len(), sources.len()) {
        result is Err && result->Err_0@ == blames_nobody(
            "exact suffix body/source count differs from its immutable plan"@,
        )
    } else if exists|i: int| 0 <= i < bodies.len() && body_problem(#[trigger] bodies[i]) is Some {
        exists|first: int|
            {
                &&& 0 <= first < bodies.len()
                &&& body_problem(#[trigger] bodies[first]) is Some
                &&& forall|i: int| 0 <= i < first ==> body_problem(#[trigger] bodies[i]) is None
                &&& result is Err
                &&& result->Err_0@ == blames_body(sources[first], body_problem(bodies[first])->0)
            }
    } else if bodies.last()->hash != target.hash {
        result is Err && result->Err_0@ == blames_body(
            sources.last(),
            "exact suffix bodies do not end at selected target"@,
        )
    } else {
        result is Ok
    }
}

/// Bind the bodies of a suffix to its headers and its target.
///
/// The first bad body is reported, and with it the peer that sent it.
pub fn check_bodies(
    header_count: usize,
    target: &ChainPoint,
    bodies: &Vec<DecodedBody>,
    sources: &Vec<PeerId>,
) -> (result: Result<(), ExactSuffixApplyError>)
    ensures
        bodies_checked(header_count as nat, *target, bodies@, sources@, result),
{
    if bodies.len() != header_count || sources.len() != bodies.len() || bodies.len() == 0 {
        return Err(
            ExactSuffixApplyError::other("exact suffix body/source count differs from its immutable plan"),
        );
    }
    let mut i: usize = 0;
    while i < bodies.len()
        invariant
            i <= bodies@.len(),
            bodies@.len() == header_count,
            bodies@.len() > 0,
            sources@.len() == bodies@.len(),
            forall|j: int| 0 <= j < i ==> body_problem(#[trigger] bodies@[j]) is None,
        decreases bodies@.len() - i,
    {
        match &bodies[i] {
            DecodedBody::Malformed(error) => {
                assert(body_problem(bodies@[i as int]) is Some);
                return Err(
                    ExactSuffixApplyError::body(sources[i], joined("decode exact suffix body: ", error.as_str())),
                );
            },
            DecodedBody::Block { header_matches, .. } => {
                if !*header_matches {
                    assert(body_problem(bodies@[i as int]) is Some);
                    return Err(
                        ExactSuffixApplyError::body(
                            sources[i],
                            String::from_str("exact suffix body header differs from its validated header"),
                        ),
                    );
                }
            },
        }
        i = i + 1;
    }
    let last: usize = bodies.len() - 1;
    assert(body_problem(bodies@[last as int]) is None);
    if let DecodedBody::Block { hash, .. } = &bodies[last] {
        if !hash_eq(hash, &target.hash) {
            return Err(
                ExactSuffixApplyError::body(
                    sources[last],
                    String::from_str("exact suffix bodies do not end at selected target"),
                ),
            );
        }
    }
    Ok(())
}

/// Where the header of the epoch anchor is found.
#[derive(Clone, Copy, Debug, PartialEq, Eq, Structural)]
pub enum AnchorSource {
    /// In canonical storage.
    Canonical,
    /// In the body of this index.
    Body(usize),
    /// Nowhere.
    Missing,
}

/// The first of some blocks that has this height.
pub open spec fn first_with_height(points: Seq<ChainPoint>, height: u64, index: int) -> bool {
    &&& 0 <= index < points.len()
    &&& points[index].height == height
    &&& forall|j: int| 0 <= j < index ==> (#[trigger] points[j]).height != height
}

/// Where the epoch anchor of a suffix stands: at or below its base the chain
/// holds it, above it the first block of that height.
pub open spec fn anchor_of(epoch_height: u64, base_height: u64, points: Seq<ChainPoint>) -> AnchorSource {
    if epoch_height <= base_height {
        AnchorSource::Canonical
    } else if exists|i: int| first_with_height(points, epoch_height, i) {
        AnchorSource::Body((choose|i: int| first_with_height(points, epoch_height, i)) as usize)
    } else {
        AnchorSource::Missing
    }
}

/// Find the epoch anchor of a suffix.
pub fn anchor_source(epoch_height: u64, base_height: u64, points: &Vec<ChainPoint>) -> (source: AnchorSource)
    ensures
        source == anchor_of(epoch_height, base_height, points@),
{
    if epoch_height <= base_height {
        return AnchorSource::Canonical;
    }
    let mut i: usize = 0;
    while i < points.len()
        invariant
            i <= points@.len(),
            epoch_height > base_height,
            forall|j: int| 0 <= j < i ==> (#[trigger] points@[j]).height != epoch_height,
        decreases points@.len() - i,
    {
        if points[i].height == epoch_height {
            proof {
                assert(first_with_height(points@, epoch_height, i as int));
                let other = choose|k: int| first_with_height(points@, epoch_height, k);
                assert(first_with_height(points@, epoch_height, other));
                assert(points@[other].height == epoch_height);
                assert(other == i);
            }
            return AnchorSource::Body(i);
        }
        i = i + 1;
    }
    AnchorSource::Missing
}

/// The error for an epoch anchor that is not where it must be.
pub fn anchor_missing(from_storage: bool) -> (error: ExactSuffixApplyError)
    ensures
        error@ == blames_nobody(
            if from_storage {
                "exact suffix epoch anchor missing from canonical storage"@
            } else {
                "exact suffix epoch anchor missing from candidate bodies"@
            },
        ),
{
    if from_storage {
        ExactSuffixApplyError::other("exact suffix epoch anchor missing from canonical storage")
    } else {
        ExactSuffixApplyError::other("exact suffix epoch anchor missing from candidate bodies")
    }
}

/// What a plan is for.
#[derive(Clone, Copy, Debug, PartialEq, Eq, Structural)]
pub enum SyncPlanKind {
    LiveSuffix,
    Reorg,
    Snapshot,
}

/// How a suffix is committed.
#[derive(Clone, Copy, Debug, PartialEq, Eq, Structural)]
pub enum CommitPath {
    Live,
    Reorg,
}

/// Append some hashes to others.
pub(crate) fn append_all(hashes: &mut Vec<Digest>, more: &Vec<Digest>)
    ensures
        final(hashes)@ == old(hashes)@ + more@,
{
    let ghost before = hashes@;
    let mut i: usize = 0;
    assert(hashes@ =~= before + more@.take(0));
    while i < more.len()
        invariant
            i <= more@.len(),
            hashes@ == before + more@.take(i as int),
        decreases more@.len() - i,
    {
        hashes.push(more[i]);
        i = i + 1;
        assert(hashes@ =~= before + more@.take(i as int));
    }
    assert(more@.take(i as int) =~= more@);
}

/// The lengths of some bodies together.
pub open spec fn total_len(lengths: Seq<usize>) -> nat
    decreases lengths.len(),
{
    if lengths.len() == 0 {
        0
    } else {
        total_len(lengths.drop_last()) + lengths.last() as nat
    }
}

/// How many bytes the bodies of a suffix have, at most the largest `u64`.
pub fn payload_bytes(lengths: &Vec<usize>) -> (bytes: u64)
    ensures
        bytes == (if total_len(lengths@) > u64::MAX {
            u64::MAX as nat
        } else {
            total_len(lengths@)
        }),
{
    let mut bytes: u64 = 0;
    let mut i: usize = 0;
    while i < lengths.len()
        invariant
            i <= lengths@.len(),
            bytes == (if total_len(lengths@.take(i as int)) > u64::MAX {
                u64::MAX as nat
            } else {
                total_len(lengths@.take(i as int))
            }),
        decreases lengths@.len() - i,
    {
        assert(lengths@.take(i + 1).drop_last() =~= lengths@.take(i as int));
        bytes = bytes.saturating_add(lengths[i] as u64);
        i = i + 1;
    }
    assert(lengths@.take(i as int) =~= lengths@);
    bytes
}

/// The error for a reorganization that was not applied.
///
/// `body_index` is the body at which it failed. Its sender is blamed only for
/// a fault of the body itself.
pub fn reorg_failure(failure: &ContextFailure, body_index: Option<usize>, sources: &Vec<PeerId>) -> (error:
    ExactSuffixApplyError)
    ensures
        ({
            let words = "apply atomic exact reorg suffix: "@ + failure.text@;
            error@ == (if body_index is Some && body_index->0 < sources@.len() && body_fault(failure.kind) {
                blames_body(sources@[body_index->0 as int], words)
            } else {
                blames_nobody(words)
            })
        }),
{
    let message = joined("apply atomic exact reorg suffix: ", failure.text.as_str());
    match body_index {
        Some(index) => if index < sources.len() && body_error_is_peer_fault(&failure.kind) {
            ExactSuffixApplyError::body(sources[index], message)
        } else {
            ExactSuffixApplyError::Other(message)
        },
        None => ExactSuffixApplyError::Other(message),
    }
}

/// The transactions of some blocks, one block after the other.
pub open spec fn concatenated(blocks: Seq<Vec<Digest>>) -> Seq<Digest>
    decreases blocks.len(),
{
    if blocks.len() == 0 {
        Seq::empty()
    } else {
        concatenated(blocks.drop_last()) + blocks.last()@
    }
}

/// The transactions that some blocks confirm.
pub fn confirmed_by(blocks: &Vec<Vec<Digest>>) -> (hashes: Vec<Digest>)
    ensures
        hashes@ == concatenated(blocks@),
{
    let mut hashes: Vec<Digest> = Vec::new();
    let mut i: usize = 0;
    while i < blocks.len()
        invariant
            i <= blocks@.len(),
            hashes@ == concatenated(blocks@.take(i as int)),
        decreases blocks@.len() - i,
    {
        assert(blocks@.take(i + 1).drop_last() =~= blocks@.take(i as int));
        append_all(&mut hashes, &blocks[i]);
        i = i + 1;
    }
    assert(blocks@.take(i as int) =~= blocks@);
    hashes
}

/// What the wallet does after a reorganization.
#[derive(Clone, Copy, Debug, PartialEq, Eq, Structural)]
pub enum WalletFollowup {
    /// No wallet is loaded.
    Nothing,
    /// Its snapshot is in place.
    Installed,
    /// Its cache is to be dropped until the next verified reload.
    Invalidate,
}

/// A live suffix after its commit, as far as that went.
pub struct AppliedCompactSuffix<V> {
    pub height: u64,
    pub block_hash: Digest,
    pub confirmed_tx_hashes: Vec<Digest>,
    /// The chain as the mempool sees it now.
    pub view: V,
    pub applied_blocks: u64,
    pub payload_bytes: u64,
    pub apply_elapsed_ms: u64,
    pub trailing_error: Option<ExactSuffixApplyError>,
}

/// A reorganization after its commit.
pub struct AppliedReorg<V> {
    pub tip: ChainPoint,
    /// Payments that left the chain.
    pub reclaimed_tx_hashes: Vec<Digest>,
    pub confirmed_tx_hashes: Vec<Digest>,
    pub view: V,
}

/// A suffix after its commit.
pub enum AppliedExactSuffix<V> {
    Live(AppliedCompactSuffix<V>),
    Reorg(AppliedReorg<V>),
}

/// What the mempool is told of a commit.
#[derive(Clone, Copy, Debug, PartialEq, Eq, Structural)]
pub enum MempoolFollowup {
    Nothing,
    NewBlock { height: u64 },
    NewBlockThenReadmit { height: u64 },
}

/// Decide what the mempool is told of a commit: nothing if no block was applied.
pub fn mempool_followup<V>(applied: &AppliedExactSuffix<V>) -> (followup: MempoolFollowup)
    ensures
        followup == (match *applied {
            AppliedExactSuffix::Live(live) => if live.applied_blocks != 0 {
                MempoolFollowup::NewBlock { height: live.height }
            } else {
                MempoolFollowup::Nothing
            },
            AppliedExactSuffix::Reorg(reorg) => MempoolFollowup::NewBlockThenReadmit { height: reorg.tip.height },
        }),
{
    match applied {
        AppliedExactSuffix::Live(live) => if live.applied_blocks != 0 {
            MempoolFollowup::NewBlock { height: live.height }
        } else {
            MempoolFollowup::Nothing
        },
        AppliedExactSuffix::Reorg(reorg) => MempoolFollowup::NewBlockThenReadmit { height: reorg.tip.height },
    }
}

} // verus!
