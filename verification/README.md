# noid_mobile

The core of a mobile full node, verified with Verus: how it follows the
network, what it fetches and from whom, when it installs a snapshot, how it
plans and sends a payment, and what it shows of all that.

- `src/` is the library. Its functions carry contracts, and the modules whose
  names end in `_laws`, together with the public `lemma_*` functions beside the
  code, state what holds across functions: that a bootstrap is complete only
  when a probe right above the tip came back empty, that a suffix which fails a
  check leaves the chain untouched, that a hint for an output slot names an
  empty and unreserved one, that sending all leaves nothing behind.
- `tests/` runs the library on concrete values.
- `app/` is ordinary Rust around it: tasks, files, name resolution and the
  bridge to the Android application. Chain storage, mempool, proofs and
  transport are reached through the traits in `app/ports.rs`.

Two functions of other crates are called from the library and trusted to do
what their contracts in `src/` say: `hex::encode` in `src/text.rs`, and the
parser and printer of `libp2p::Multiaddr` in `src/seeds.rs`.
