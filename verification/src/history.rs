//! The release-pinned verifier of the chain's history.

use vstd::prelude::*;
use crate::bytes::{zero_digest, Digest};
use crate::text::{digest_name, hex_text};

verus! {

/// The directory below the data directory that holds the verifier's caches.
pub const CACHE_DIRECTORY: &'static str = "history-step-cache";

/// The identifier of the verifier that is announced to peers.
///
/// `pack_digest` is the digest of the embedded pack. A development build has
/// none and announces zeros.
pub fn history_proof_bank_id(pack_digest: Option<Digest>) -> (id: Digest)
    ensures
        id == (match pack_digest {
            Some(digest) => digest,
            None => zero_digest(),
        }),
{
    match pack_digest {
        Some(digest) => digest,
        None => {
            let zeros: Digest = [0u8; 32];
            assert(zeros =~= zero_digest());
            zeros
        },
    }
}

/// The name of the cache of one pack: its digest in hexadecimal notation.
pub fn history_step_cache_name(metadata_digest: &Digest) -> (name: String)
    ensures
        name@ == hex_text(metadata_digest@),
{
    digest_name(metadata_digest)
}

/// What a build says if it needs the verifier and has none.
pub fn verifier_unavailable() -> (text: String)
    ensures
        text@ == "HistoryStep verifier unavailable: this is a pack-free development build"@,
{
    String::from_str("HistoryStep verifier unavailable: this is a pack-free development build")
}

} // verus!
