//! What holds of texts and numerals, and of the bootstrap addresses made of them.

use vstd::prelude::*;
use crate::bytes::Digest;
use crate::history::{history_proof_bank_id, history_step_cache_name};
use crate::p2p_startup::MobileP2PConfig;
use crate::seeds::{
    admit_seed, all_words, collected, host_words, mainnet_seed_multiaddr, mainnet_seeds, multiaddr_text, parsed_seed,
    texts, IpText, SeedError, SeedHost,
};
use crate::text::{
    contains, decimal, decimal_text, digest_name, digits_value, find_text, is_digit, is_white_space, leading_digits,
    lemma_decimal_reads_back, lemma_leading_digits, number_at, occurs_at, shown_digest, trim, trimmed,
    without_leading, without_trailing,
};

verus! {

/// A text is found where it stands first, and is missed only if it stands nowhere.
pub proof fn lemma_a_text_is_found_where_it_stands_first(
    hay: &str,
    needle: &str,
    found: Option<usize>,
    there: bool,
)
    requires
        call_ensures(find_text, (hay, needle), found),
        call_ensures(contains, (hay, needle), there),
    ensures
        there <==> found is Some,
        match found {
            Some(at) => {
                &&& at + needle@.len() <= hay@.len()
                &&& forall|i: int| 0 <= i < needle@.len() ==> hay@[at + i] == #[trigger] needle@[i]
                &&& forall|earlier: int|
                    0 <= earlier < at ==> #[trigger] hay@.subrange(earlier, earlier + needle@.len()) != needle@
            },
            None => forall|at: int|
                0 <= at && at + needle@.len() <= hay@.len() ==> #[trigger] hay@.subrange(at, at + needle@.len())
                    != needle@,
        },
{
    match found {
        Some(at) => {
            let part = hay@.subrange(at as int, at + needle@.len());
            assert(part == needle@);
            assert forall|i: int| 0 <= i < needle@.len() implies hay@[at + i] == #[trigger] needle@[i] by {
                assert(part[i] == needle@[i]);
            }
            assert forall|earlier: int| 0 <= earlier < at implies #[trigger] hay@.subrange(
                earlier,
                earlier + needle@.len(),
            ) != needle@ by {
                assert(!occurs_at(hay@, needle@, earlier));
            }
        },
        None => {
            assert forall|at: int| 0 <= at && at + needle@.len() <= hay@.len() implies #[trigger] hay@.subrange(
                at,
                at + needle@.len(),
            ) != needle@ by {
                assert(!occurs_at(hay@, needle@, at));
            }
        },
    }
}

/// The value of decimal digits, the last one counting once.
pub open spec fn is_numeral(text: Seq<char>, value: int) -> bool {
    &&& text.len() > 0
    &&& forall|i: int| 0 <= i < text.len() ==> '0' <= #[trigger] text[i] <= '9'
    &&& value == text.fold_left(0int, |v: int, c: char| v * 10 + (c as int - 48))
}

proof fn lemma_digits_are_folded(text: Seq<char>)
    requires
        forall|i: int| 0 <= i < text.len() ==> '0' <= #[trigger] text[i] <= '9',
    ensures
        digits_value(text) == text.fold_left(0int, |v: int, c: char| v * 10 + (c as int - 48)),
    decreases text.len(),
{
    reveal_with_fuel(Seq::fold_left, 2);
    if text.len() > 0 {
        let rest = text.drop_last();
        assert forall|i: int| 0 <= i < rest.len() implies '0' <= #[trigger] rest[i] <= '9' by {
            assert(rest[i] == text[i]);
        }
        lemma_digits_are_folded(rest);
        assert('0' <= text[text.len() - 1] <= '9');
    }
}

/// A number is written in decimal digits that stand for it, without a leading zero.
pub proof fn lemma_a_number_is_written_in_decimal(value: u64, text: String)
    requires
        call_ensures(decimal_text, (value,), text),
    ensures
        is_numeral(text@, value as int),
        text@[0] == '0' ==> value == 0 && text@.len() == 1,
{
    lemma_decimal_reads_back(value as nat);
    lemma_decimal_starts(value as nat);
    assert forall|i: int| 0 <= i < text@.len() implies '0' <= #[trigger] text@[i] <= '9' by {
        assert(is_digit(text@[i]));
    }
    lemma_digits_are_folded(text@);
}

proof fn lemma_decimal_starts(value: nat)
    ensures
        decimal(value).len() > 0,
        decimal(value)[0] == '0' ==> value == 0 && decimal(value).len() == 1,
    decreases value,
{
    if value >= 10 {
        lemma_decimal_starts(value / 10);
    }
}

/// A number that is written is read back, whatever follows it but a digit.
pub proof fn lemma_a_written_number_is_read_back(
    value: u64,
    text: String,
    chars: Vec<char>,
    start: usize,
    read: Option<u64>,
)
    requires
        call_ensures(decimal_text, (value,), text),
        call_ensures(number_at, (&chars, start), read),
        start + text@.len() <= chars@.len(),
        chars@.subrange(start as int, start + text@.len()) == text@,
        start + text@.len() < chars@.len() ==> !('0' <= chars@[start + text@.len()] <= '9'),
    ensures
        read == Some(value),
{
    lemma_decimal_reads_back(value as nat);
    let all = chars@.skip(start as int);
    let rest = chars@.skip(start + text@.len());
    assert(all =~= text@ + rest) by {
        assert forall|i: int| 0 <= i < text@.len() implies all[i] == text@[i] by {
            assert(chars@.subrange(start as int, start + text@.len())[i] == text@[i]);
        }
    }
    lemma_leading_digits(text@, rest);
}

/// Without a digit there is no number.
pub proof fn lemma_no_number_without_a_digit(chars: Vec<char>, start: usize, read: Option<u64>)
    requires
        call_ensures(number_at, (&chars, start), read),
        start <= chars@.len(),
        start < chars@.len() ==> !('0' <= chars@[start as int] <= '9'),
    ensures
        read is None,
{
    let all = chars@.skip(start as int);
    if all.len() > 0 {
        assert(all[0] == chars@[start as int]);
    }
    assert(leading_digits(all).len() == 0);
}

proof fn lemma_leading_cut(text: Seq<char>) -> (cut: int)
    ensures
        0 <= cut <= text.len(),
        without_leading(text) == text.skip(cut),
        forall|i: int| 0 <= i < cut ==> is_white_space(#[trigger] text[i]),
        cut < text.len() ==> !is_white_space(text[cut]),
    decreases text.len(),
{
    if text.len() > 0 && is_white_space(text[0]) {
        let rest = text.skip(1);
        let inner = lemma_leading_cut(rest);
        assert(rest.skip(inner) =~= text.skip(inner + 1));
        assert forall|i: int| 0 <= i < inner + 1 implies is_white_space(#[trigger] text[i]) by {
            if i > 0 {
                assert(rest[i - 1] == text[i]);
            }
        }
        inner + 1
    } else {
        assert(text.skip(0) =~= text);
        0
    }
}

proof fn lemma_trailing_cut(text: Seq<char>) -> (end: int)
    ensures
        0 <= end <= text.len(),
        without_trailing(text) == text.take(end),
        forall|i: int| end <= i < text.len() ==> is_white_space(#[trigger] text[i]),
        end > 0 ==> !is_white_space(text[end - 1]),
    decreases text.len(),
{
    if text.len() > 0 && is_white_space(text.last()) {
        let rest = text.drop_last();
        let end = lemma_trailing_cut(rest);
        assert(rest.take(end) =~= text.take(end));
        assert forall|i: int| end <= i < text.len() implies is_white_space(#[trigger] text[i]) by {
            if i < rest.len() {
                assert(rest[i] == text[i]);
            }
        }
        if end > 0 {
            assert(rest[end - 1] == text[end - 1]);
        }
        end
    } else {
        assert(text.take(text.len() as int) =~= text);
        text.len() as int
    }
}

/// The white space around a text is cut off, all of it and nothing else.
pub proof fn lemma_white_space_is_cut_off(text: &str, inner: String) -> (cut: (int, int))
    requires
        call_ensures(trim, (text,), inner),
    ensures
        0 <= cut.0 <= cut.1 <= text@.len(),
        inner@ == text@.subrange(cut.0, cut.1),
        forall|i: int| 0 <= i < cut.0 ==> is_white_space(#[trigger] text@[i]),
        forall|i: int| cut.1 <= i < text@.len() ==> is_white_space(#[trigger] text@[i]),
        inner@.len() > 0 ==> !is_white_space(inner@[0]) && !is_white_space(inner@.last()),
{
    let start = lemma_leading_cut(text@);
    let rest = text@.skip(start);
    let end = lemma_trailing_cut(rest);
    assert(rest.take(end) =~= text@.subrange(start, start + end));
    assert forall|i: int| start + end <= i < text@.len() implies is_white_space(#[trigger] text@[i]) by {
        assert(rest[i - start] == text@[i]);
    }
    if inner@.len() > 0 {
        assert(inner@[0] == text@[start]);
        assert(inner@.last() == rest[end - 1]);
    }
    (start, start + end)
}

/// Blanks, tabs and line ends are white space; letters, digits and the signs of an address are not.
pub proof fn lemma_what_white_space_is(c: char)
    ensures
        c == ' ' || c == '\t' || c == '\n' || c == '\r' ==> is_white_space(c),
        '!' <= c <= '~' ==> !is_white_space(c),
{
}

/// A digest is shown, and named, by two lower-case hexadecimal digits for each
/// byte, the upper half first.
pub proof fn lemma_a_digest_is_written_in_hexadecimal(
    digest: Digest,
    name: String,
    shown: String,
    cache: String,
    i: int,
)
    requires
        call_ensures(digest_name, (&digest,), name),
        call_ensures(shown_digest, (&digest,), shown),
        call_ensures(history_step_cache_name, (&digest,), cache),
        0 <= i < 32,
    ensures
        name@.len() == 64,
        shown@ == name@,
        cache@ == name@,
        ({
            let upper = digest[i] as int / 16;
            let lower = digest[i] as int % 16;
            &&& upper < 10 ==> name@[2 * i] as int == '0' as int + upper
            &&& upper >= 10 ==> name@[2 * i] as int == 'a' as int + upper - 10
            &&& lower < 10 ==> name@[2 * i + 1] as int == '0' as int + lower
            &&& lower >= 10 ==> name@[2 * i + 1] as int == 'a' as int + lower - 10
        }),
{
    assert((2 * i) / 2 == i && (2 * i + 1) / 2 == i);
    assert((2 * i) % 2 == 0 && (2 * i + 1) % 2 == 1);
}

/// A build with a pack announces the pack's digest, one without announces zeros.
pub proof fn lemma_the_announced_verifier(pack_digest: Option<Digest>, id: Digest)
    requires
        call_ensures(history_proof_bank_id, (pack_digest,), id),
    ensures
        pack_digest is Some ==> id == pack_digest->0,
        pack_digest is None ==> forall|i: int| 0 <= i < 32 ==> id[i] == 0,
{
}

/// An address that was parsed is taken in its canonical notation; a text that is none is named.
pub proof fn lemma_a_parsed_seed_is_taken(text: String, parsed: Option<String>, result: Result<String, SeedError>)
    requires
        call_ensures(parsed_seed, (text, parsed), result),
    ensures
        parsed is Some ==> result is Ok && result->Ok_0 == parsed->0,
        parsed is None ==> result is Err && result->Err_0 is Unparsable && result->Err_0->Unparsable_0 == text,
{
}

/// A configured seed is a whole address if it starts with a slash, otherwise an
/// IP address if it is one, otherwise a host name, at the default port. Nothing
/// but white space is no seed.
pub proof fn lemma_a_configured_seed_is_read(
    seed: &str,
    ip: Option<IpText>,
    default_port: u16,
    result: Result<String, SeedError>,
    inner: String,
    port: String,
)
    requires
        call_ensures(mainnet_seed_multiaddr, (seed, ip, default_port), result),
        call_ensures(trim, (seed,), inner),
        call_ensures(decimal_text, (default_port as u64,), port),
    ensures
        inner@.len() == 0 <==> result == Err::<String, SeedError>(SeedError::Empty),
        inner@.len() > 0 ==> ({
            let address = if inner@[0] == '/' {
                inner@
            } else if ip is None {
                "/"@ + "dns"@ + "/"@ + inner@ + "/tcp/"@ + port@
            } else if ip->0.v6 {
                "/"@ + "ip6"@ + "/"@ + ip->0.text@ + "/tcp/"@ + port@
            } else {
                "/"@ + "ip4"@ + "/"@ + ip->0.text@ + "/tcp/"@ + port@
            };
            match result {
                Ok(text) => multiaddr_text(address) == Some(text@),
                Err(SeedError::Unparsable(text)) => multiaddr_text(address) is None && text@ == address,
                Err(_) => false,
            }
        }),
{
}

/// A seed is added at the end unless it is there already; nothing else changes.
pub proof fn lemma_a_seed_is_admitted_once(seeds: &mut Vec<String>, address: String)
    requires
        call_ensures(admit_seed, (seeds, address), ()),
    ensures
        ({
            let there = exists|i: int| 0 <= i < old(seeds)@.len() && (#[trigger] old(seeds)@[i])@ == address@;
            &&& there ==> final(seeds)@.len() == old(seeds)@.len()
            &&& !there ==> final(seeds)@.len() == old(seeds)@.len() + 1 && final(seeds)@.last()@ == address@
            &&& forall|i: int| 0 <= i < old(seeds)@.len() ==> (#[trigger] final(seeds)@[i])@ == old(seeds)@[i]@
        }),
{
    let before = texts(old(seeds)@);
    let after = texts(final(seeds)@);
    if before.contains(address@) {
        let i = choose|i: int| 0 <= i < before.len() && before[i] == address@;
        assert(old(seeds)@[i]@ == address@);
    } else {
        assert forall|i: int| 0 <= i < old(seeds)@.len() implies (#[trigger] old(seeds)@[i])@ != address@ by {
            assert(before[i] == old(seeds)@[i]@);
            assert(before.contains(before[i]));
        }
        assert(after.last() == address@);
        assert(final(seeds)@.last()@ == after.last());
    }
    assert forall|i: int| 0 <= i < old(seeds)@.len() implies (#[trigger] final(seeds)@[i])@ == old(seeds)@[i]@ by {
        assert(after[i] == before[i]);
    }
}

/// The `j`-th address that a configured host stands for: one for each address
/// that it resolved to, or its name if it did not resolve.
pub open spec fn names_address(host: SeedHost, default_port: u16, j: int, address: Seq<char>) -> bool {
    let name = trimmed(host.name@);
    &&& name.len() > 0
    &&& if host.resolved@.len() == 0 {
        j == 0 && address == "/"@ + "dns4"@ + "/"@ + name + "/tcp/"@ + decimal(default_port as nat)
    } else {
        let found = host.resolved@[j];
        &&& 0 <= j < host.resolved@.len()
        &&& address == "/"@ + (if found.ip.v6 {
            "ip6"@
        } else {
            "ip4"@
        }) + "/"@ + found.ip.text@ + "/tcp/"@ + decimal(found.port as nat)
    }
}

/// Some configured host names this address.
pub open spec fn is_named(hosts: Seq<SeedHost>, default_port: u16, address: Seq<char>) -> bool {
    exists|h: int, j: int| 0 <= h < hosts.len() && #[trigger] names_address(hosts[h], default_port, j, address)
}

proof fn lemma_all_words_are_named(hosts: Seq<SeedHost>, default_port: u16, address: Seq<char>)
    ensures
        all_words(hosts, default_port).contains(address) <==> is_named(hosts, default_port, address),
    decreases hosts.len(),
{
    let all = all_words(hosts, default_port);
    if hosts.len() == 0 {
    } else {
        let fewer = hosts.drop_last();
        let last = hosts.len() - 1;
        let before = all_words(fewer, default_port);
        let fresh = host_words(hosts[last], default_port);
        lemma_all_words_are_named(fewer, default_port, address);
        assert(all == before + fresh);
        if all.contains(address) {
            let k = choose|k: int| 0 <= k < all.len() && all[k] == address;
            if k < before.len() {
                assert(before[k] == address);
                assert(before.contains(address));
                let (h, j) = choose|h: int, j: int|
                    0 <= h < fewer.len() && #[trigger] names_address(fewer[h], default_port, j, address);
                assert(names_address(hosts[h], default_port, j, address));
            } else {
                assert(fresh[k - before.len()] == address);
                assert(names_address(hosts[last], default_port, k - before.len(), address));
            }
        }
        if is_named(hosts, default_port, address) {
            let (h, j) = choose|h: int, j: int|
                0 <= h < hosts.len() && #[trigger] names_address(hosts[h], default_port, j, address);
            if h < last {
                assert(names_address(fewer[h], default_port, j, address));
                assert(before.contains(address));
                let k = choose|k: int| 0 <= k < before.len() && before[k] == address;
                assert(all[k] == address);
            } else {
                assert(fresh[j] == address);
                assert(all[before.len() + j] == address);
            }
        }
    }
}

/// Some of these address texts is written like this.
pub open spec fn some_is_written(words: Seq<Seq<char>>, seed: Seq<char>) -> bool {
    exists|k: int| 0 <= k < words.len() && multiaddr_text(#[trigger] words[k]) == Some(seed)
}

proof fn lemma_collected(words: Seq<Seq<char>>, seed: Seq<char>)
    ensures
        match collected(words) {
            Ok(seeds) => {
                &&& seeds.no_duplicates()
                &&& seeds.contains(seed) <==> some_is_written(words, seed)
                &&& forall|k: int| 0 <= k < words.len() ==> multiaddr_text(#[trigger] words[k]) is Some
            },
            Err(bad) => exists|k: int|
                {
                    &&& 0 <= k < words.len()
                    &&& #[trigger] words[k] == bad
                    &&& multiaddr_text(bad) is None
                },
        },
    decreases words.len(),
{
    if words.len() > 0 {
        let fewer = words.drop_last();
        let last = words.len() - 1;
        lemma_collected(fewer, seed);
        match collected(fewer) {
            Err(bad) => {
                let k = choose|k: int| 0 <= k < fewer.len() && #[trigger] fewer[k] == bad;
                assert(words[k] == bad);
            },
            Ok(seeds) => match multiaddr_text(words[last]) {
                None => {
                    assert(words[last] == words.last());
                },
                Some(address) => {
                    let after = collected(words)->Ok_0;
                    assert forall|k: int| 0 <= k < words.len() implies multiaddr_text(#[trigger] words[k]) is Some by {
                        if k < last {
                            assert(fewer[k] == words[k]);
                        }
                    }
                    if !seeds.contains(address) {
                        assert(after[seeds.len() as int] == address);
                        assert forall|a: int, b: int| 0 <= a < after.len() && 0 <= b < after.len() && a != b implies after[a]
                            != after[b] by {
                            if a < seeds.len() && b == seeds.len() {
                                assert(seeds.contains(seeds[a]));
                            } else if b < seeds.len() && a == seeds.len() {
                                assert(seeds.contains(seeds[b]));
                            }
                        }
                        if seeds.contains(seed) {
                            let k = choose|k: int| 0 <= k < seeds.len() && seeds[k] == seed;
                            assert(after[k] == seed);
                        }
                        if after.contains(seed) {
                            let k = choose|k: int| 0 <= k < after.len() && after[k] == seed;
                            if k < seeds.len() {
                                assert(seeds[k] == seed);
                                assert(seeds.contains(seed));
                            }
                        }
                    }
                    if some_is_written(fewer, seed) {
                        let k = choose|k: int| 0 <= k < fewer.len() && multiaddr_text(#[trigger] fewer[k]) == Some(seed);
                        assert(multiaddr_text(words[k]) == Some(seed));
                    }
                    if some_is_written(words, seed) {
                        let k = choose|k: int| 0 <= k < words.len() && multiaddr_text(#[trigger] words[k]) == Some(seed);
                        if k < last {
                            assert(multiaddr_text(fewer[k]) == Some(seed));
                            assert(some_is_written(fewer, seed));
                        } else {
                            assert(address == seed);
                        }
                    }
                    if seed == address {
                        assert(multiaddr_text(words[last]) == Some(seed));
                    }
                },
            },
        }
    }
}

/// The bootstrap addresses are those that the configured hosts name, in their
/// canonical notation and each once. If one of them is no address the reason
/// names it, and without any there is no bootstrap.
pub proof fn lemma_the_seeds_are_what_the_hosts_name(
    hosts: Vec<SeedHost>,
    default_port: u16,
    result: Result<Vec<String>, SeedError>,
    address: Seq<char>,
    seed: Seq<char>,
)
    requires
        call_ensures(mainnet_seeds, (&hosts, default_port), result),
    ensures
        match result {
            Ok(seeds) => {
                &&& seeds@.len() > 0
                &&& forall|a: int, b: int|
                    0 <= a < b < seeds@.len() ==> (#[trigger] seeds@[a])@ != (#[trigger] seeds@[b])@
                &&& is_named(hosts@, default_port, address) ==> multiaddr_text(address) is Some && exists|s: int|
                    0 <= s < seeds@.len() && multiaddr_text(address) == Some((#[trigger] seeds@[s])@)
                &&& (exists|s: int| 0 <= s < seeds@.len() && (#[trigger] seeds@[s])@ == seed) ==> exists|named: Seq<char>|
                    #[trigger] is_named(hosts@, default_port, named) && multiaddr_text(named) == Some(seed)
            },
            Err(SeedError::Unparsable(text)) => is_named(hosts@, default_port, text@) && multiaddr_text(text@) is None,
            Err(SeedError::NoSeeds) => !is_named(hosts@, default_port, address),
            Err(_) => false,
        },
{
    let words = all_words(hosts@, default_port);
    lemma_all_words_are_named(hosts@, default_port, address);
    match collected(words) {
        Err(bad) => {
            lemma_collected(words, seed);
            let k = choose|k: int| 0 <= k < words.len() && #[trigger] words[k] == bad && multiaddr_text(bad) is None;
            assert(words.contains(bad));
            lemma_all_words_are_named(hosts@, default_port, bad);
        },
        Ok(all) => {
            lemma_collected(words, seed);
            if words.contains(address) {
                let k = choose|k: int| 0 <= k < words.len() && words[k] == address;
                assert(multiaddr_text(words[k]) is Some);
                let written = multiaddr_text(address)->0;
                lemma_collected(words, written);
                assert(some_is_written(words, written));
                assert(all.contains(written));
                let s = choose|s: int| 0 <= s < all.len() && all[s] == written;
                if result is Ok {
                    assert(texts(result->Ok_0@)[s] == result->Ok_0@[s]@);
                }
            }
            if let Ok(seeds) = result {
                assert(texts(seeds@) == all);
                assert forall|a: int, b: int| 0 <= a < b < seeds@.len() implies (#[trigger] seeds@[a])@ != (
                #[trigger] seeds@[b])@ by {
                    assert(all[a] == seeds@[a]@ && all[b] == seeds@[b]@);
                }
                if exists|s: int| 0 <= s < seeds@.len() && (#[trigger] seeds@[s])@ == seed {
                    let s = choose|s: int| 0 <= s < seeds@.len() && (#[trigger] seeds@[s])@ == seed;
                    assert(all[s] == seed);
                    assert(all.contains(seed));
                    let k = choose|k: int| 0 <= k < words.len() && multiaddr_text(#[trigger] words[k]) == Some(seed);
                    assert(words.contains(words[k]));
                    lemma_all_words_are_named(hosts@, default_port, words[k]);
                    assert(is_named(hosts@, default_port, words[k]));
                }
            }
        },
    }
}

proof fn lemma_collected_grows(words: Seq<Seq<char>>, n: int)
    requires
        0 <= n <= words.len(),
        collected(words) is Ok,
    ensures
        collected(words.take(n)) is Ok,
        collected(words.take(n))->Ok_0.len() <= collected(words)->Ok_0.len(),
        collected(words)->Ok_0.take(collected(words.take(n))->Ok_0.len() as int) == collected(words.take(n))->Ok_0,
    decreases words.len(),
{
    if n == words.len() {
        assert(words.take(n) =~= words);
        let all = collected(words)->Ok_0;
        assert(all.take(all.len() as int) =~= all);
    } else {
        let fewer = words.drop_last();
        lemma_collected_grows(fewer, n);
        assert(fewer.take(n) =~= words.take(n));
        let some = collected(words.take(n))->Ok_0;
        let rest = collected(fewer)->Ok_0;
        let all = collected(words)->Ok_0;
        assert(all.take(some.len() as int) =~= rest.take(some.len() as int));
    }
}

/// Earlier hosts, and the earlier of the addresses that one host resolved to,
/// come earlier: what follows does not change where they stand.
pub proof fn lemma_seeds_keep_the_order_of_the_hosts(
    hosts: Vec<SeedHost>,
    more: Vec<SeedHost>,
    default_port: u16,
    seeds: Vec<String>,
    all: Vec<String>,
)
    requires
        call_ensures(mainnet_seeds, (&hosts, default_port), Ok::<Vec<String>, SeedError>(seeds)),
        call_ensures(mainnet_seeds, (&more, default_port), Ok::<Vec<String>, SeedError>(all)),
        0 < hosts@.len() <= more@.len(),
        forall|h: int| 0 <= h < hosts@.len() - 1 ==> #[trigger] more@[h] == hosts@[h],
        ({
            let last = hosts@[hosts@.len() - 1];
            let longer = more@[hosts@.len() - 1];
            &&& longer.name == last.name
            &&& 0 < last.resolved@.len() <= longer.resolved@.len()
            &&& longer.resolved@.take(last.resolved@.len() as int) == last.resolved@
        }),
    ensures
        seeds@.len() <= all@.len(),
        forall|s: int| 0 <= s < seeds@.len() ==> (#[trigger] all@[s])@ == seeds@[s]@,
{
    let n = hosts@.len() as int;
    let some = all_words(hosts@, default_port);
    let whole = all_words(more@, default_port);
    let last = hosts@[n - 1];
    let longer = more@[n - 1];
    assert(more@.take(n - 1) =~= hosts@.drop_last());
    assert(more@.take(n).drop_last() =~= more@.take(n - 1));
    let a = host_words(last, default_port);
    let b = host_words(longer, default_port);
    assert(a.len() <= b.len() && b.take(a.len() as int) =~= a) by {
        assert forall|i: int| 0 <= i < a.len() implies a[i] == b[i] by {
            assert(longer.resolved@.take(last.resolved@.len() as int)[i] == last.resolved@[i]);
        }
    }
    lemma_words_grow(more@, default_port, n);
    let middle = all_words(more@.take(n), default_port);
    assert(middle == all_words(hosts@.drop_last(), default_port) + b);
    assert(some == all_words(hosts@.drop_last(), default_port) + a);
    assert(middle.take(some.len() as int) =~= some);
    assert(whole.take(some.len() as int) =~= whole.take(middle.len() as int).take(some.len() as int));
    lemma_collected_grows(whole, some.len() as int);
    let first = collected(some)->Ok_0;
    let every = collected(whole)->Ok_0;
    assert(texts(seeds@) == first);
    assert(texts(all@) == every);
    assert forall|s: int| 0 <= s < seeds@.len() implies (#[trigger] all@[s])@ == seeds@[s]@ by {
        assert(every.take(first.len() as int)[s] == first[s]);
        assert(texts(all@)[s] == all@[s]@);
        assert(texts(seeds@)[s] == seeds@[s]@);
    }
}

proof fn lemma_words_grow(hosts: Seq<SeedHost>, default_port: u16, n: int)
    requires
        0 <= n <= hosts.len(),
    ensures
        all_words(hosts.take(n), default_port).len() <= all_words(hosts, default_port).len(),
        all_words(hosts, default_port).take(all_words(hosts.take(n), default_port).len() as int) == all_words(
            hosts.take(n),
            default_port,
        ),
    decreases hosts.len(),
{
    let all = all_words(hosts, default_port);
    let some = all_words(hosts.take(n), default_port);
    if n == hosts.len() {
        assert(hosts.take(n) =~= hosts);
        assert(all.take(all.len() as int) =~= all);
    } else {
        let fewer = hosts.drop_last();
        lemma_words_grow(fewer, default_port, n);
        assert(fewer.take(n) =~= hosts.take(n));
        let rest = all_words(fewer, default_port);
        assert(all.take(some.len() as int) =~= rest.take(some.len() as int));
    }
}

/// What is configured is kept, and seeds and public addresses are added at the end.
pub proof fn lemma_a_configuration_keeps_what_it_is_given<T>(
    listen_addr: String,
    topics: T,
    fresh: MobileP2PConfig<T>,
    config: MobileP2PConfig<T>,
    seed: String,
    with_one: MobileP2PConfig<T>,
    seeds: Vec<String>,
    with_many: MobileP2PConfig<T>,
    address: String,
    with_address: MobileP2PConfig<T>,
)
    requires
        call_ensures(MobileP2PConfig::<T>::new, (listen_addr, topics), fresh),
        call_ensures(MobileP2PConfig::<T>::with_seed, (config, seed), with_one),
        call_ensures(MobileP2PConfig::<T>::with_seeds, (config, seeds), with_many),
        call_ensures(MobileP2PConfig::<T>::with_public_address, (config, address), with_address),
    ensures
        fresh.listen_addr == listen_addr && fresh.topics == topics,
        fresh.seeds@.len() == 0 && fresh.public_addresses@.len() == 0,
        with_one.seeds@ == config.seeds@ + seq![seed],
        with_one.public_addresses == config.public_addresses && with_one.listen_addr == config.listen_addr,
        with_one.topics == config.topics,
        with_many.seeds@ == config.seeds@ + seeds@,
        with_many.public_addresses == config.public_addresses && with_many.listen_addr == config.listen_addr,
        with_many.topics == config.topics,
        with_address.public_addresses@ == config.public_addresses@ + seq![address],
        with_address.seeds == config.seeds && with_address.listen_addr == config.listen_addr,
        with_address.topics == config.topics,
{
    assert(config.seeds@.push(seed) =~= config.seeds@ + seq![seed]);
    assert(config.public_addresses@.push(address) =~= config.public_addresses@ + seq![address]);
}

} // verus!
