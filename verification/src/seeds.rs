//! Bootstrap addresses.

use vstd::prelude::*;
use crate::text::{decimal, decimal_text, trim, trimmed};

verus! {

/// The canonical notation of a network address, if the text is one.
pub uninterp spec fn multiaddr_text(text: Seq<char>) -> Option<Seq<char>>;

/// `libp2p::Multiaddr`: parsing a text with `FromStr`, and what `Display`
/// writes of the address. It is a function of the text alone; which texts are
/// addresses, and how an address is written, is left to that crate.
#[verifier::external_body]
fn parse_multiaddr(text: &str) -> (parsed: Option<String>)
    ensures
        match parsed {
            Some(address) => multiaddr_text(text@) == Some(address@),
            None => multiaddr_text(text@) is None,
        },
{
    match text.parse::<libp2p::Multiaddr>() {
        Ok(address) => Some(address.to_string()),
        Err(_) => None,
    }
}

/// An IP address in its usual notation.
#[derive(Debug)]
pub struct IpText {
    pub v6: bool,
    pub text: String,
}

/// Why a seed is refused.
#[derive(Debug)]
pub enum SeedError {
    Empty,
    /// This text is no network address.
    Unparsable(String),
    /// No seed is left.
    NoSeeds,
}

/// The address of a host of some kind at a port.
pub open spec fn address_words(protocol: Seq<char>, host: Seq<char>, port: u16) -> Seq<char> {
    "/"@ + protocol + "/"@ + host + "/tcp/"@ + decimal(port as nat)
}

fn address_text(protocol: &str, host: &str, port: u16) -> (text: String)
    ensures
        text@ == address_words(protocol@, host@, port),
{
    let mut text = String::from_str("/");
    text.append(protocol);
    text.append("/");
    text.append(host);
    text.append("/tcp/");
    text.append(decimal_text(port as u64).as_str());
    text
}

pub open spec fn ip_protocol(ip: IpText) -> Seq<char> {
    if ip.v6 {
        "ip6"@
    } else {
        "ip4"@
    }
}

fn ip_address(ip: &IpText, port: u16) -> (text: String)
    ensures
        text@ == address_words(ip_protocol(*ip), ip.text@, port),
{
    if ip.v6 {
        address_text("ip6", ip.text.as_str(), port)
    } else {
        address_text("ip4", ip.text.as_str(), port)
    }
}

/// The address that a configured seed stands for.
pub open spec fn seed_words(seed: Seq<char>, ip: Option<IpText>, default_port: u16) -> Seq<char> {
    if seed.len() > 0 && seed[0] == '/' {
        seed
    } else {
        match ip {
            Some(ip) => address_words(ip_protocol(ip), ip.text@, default_port),
            None => address_words("dns"@, seed, default_port),
        }
    }
}

/// The outcome for a seed whose address was parsed.
pub open spec fn seed_outcome(words: Seq<char>, parsed: Option<Seq<char>>, result: Result<String, SeedError>) -> bool {
    match (parsed, result) {
        (Some(address), Ok(text)) => text@ == address,
        (None, Err(SeedError::Unparsable(text))) => text@ == words,
        _ => false,
    }
}

/// The outcome for an address text, given what parsing it gave.
pub fn parsed_seed(text: String, parsed: Option<String>) -> (result: Result<String, SeedError>)
    ensures
        match parsed {
            Some(address) => result == Ok::<String, SeedError>(address),
            None => result == Err::<String, SeedError>(SeedError::Unparsable(text)),
        },
{
    match parsed {
        Some(address) => Ok(address),
        None => Err(SeedError::Unparsable(text)),
    }
}

/// The address of a configured seed: a whole address, an IP address or a host name.
///
/// `ip` is the seed without the white space around it, read as an IP address.
pub fn mainnet_seed_multiaddr(seed: &str, ip: Option<IpText>, default_port: u16) -> (result: Result<String, SeedError>)
    ensures
        ({
            let inner = trimmed(seed@);
            let words = seed_words(inner, ip, default_port);
            if inner.len() == 0 {
                result == Err::<String, SeedError>(SeedError::Empty)
            } else {
                seed_outcome(words, multiaddr_text(words), result)
            }
        }),
{
    let inner = trim(seed);
    let text: &str = inner.as_str();
    if text.unicode_len() == 0 {
        return Err(SeedError::Empty);
    }
    let words: String = if text.get_char(0) == '/' {
        inner
    } else {
        match &ip {
            Some(ip) => ip_address(ip, default_port),
            None => address_text("dns", text, default_port),
        }
    };
    let parsed = parse_multiaddr(words.as_str());
    parsed_seed(words, parsed)
}

/// An address to which a host name resolved.
#[derive(Debug)]
pub struct ResolvedAddress {
    pub ip: IpText,
    pub port: u16,
}

/// A configured host name and what it resolved to.
#[derive(Debug)]
pub struct SeedHost {
    pub name: String,
    /// Empty if it did not resolve.
    pub resolved: Vec<ResolvedAddress>,
}

/// The addresses that one host name stands for.
///
/// A name that does not resolve here is left to the resolver of the network
/// stack, so that one failing resolver does not lose a seed.
pub open spec fn host_words(host: SeedHost, default_port: u16) -> Seq<Seq<char>> {
    let name = trimmed(host.name@);
    if name.len() == 0 {
        Seq::empty()
    } else if host.resolved@.len() == 0 {
        seq![address_words("dns4"@, name, default_port)]
    } else {
        Seq::new(
            host.resolved@.len(),
            |i: int|
                address_words(ip_protocol(host.resolved@[i].ip), host.resolved@[i].ip.text@, host.resolved@[i].port),
        )
    }
}

/// The addresses of all host names, one host after the other.
pub open spec fn all_words(hosts: Seq<SeedHost>, default_port: u16) -> Seq<Seq<char>>
    decreases hosts.len(),
{
    if hosts.len() == 0 {
        Seq::empty()
    } else {
        all_words(hosts.drop_last(), default_port) + host_words(hosts.last(), default_port)
    }
}

/// The texts of some strings.
pub open spec fn texts(strings: Seq<String>) -> Seq<Seq<char>> {
    Seq::new(strings.len(), |i: int| strings[i]@)
}

/// A seed is added unless it is there.
pub open spec fn with_seed(seeds: Seq<Seq<char>>, address: Seq<char>) -> Seq<Seq<char>> {
    if seeds.contains(address) {
        seeds
    } else {
        seeds.push(address)
    }
}

/// The seeds of some address texts, or the first text that is no address.
pub open spec fn collected(words: Seq<Seq<char>>) -> Result<Seq<Seq<char>>, Seq<char>>
    decreases words.len(),
{
    if words.len() == 0 {
        Ok(Seq::empty())
    } else {
        match collected(words.drop_last()) {
            Err(bad) => Err(bad),
            Ok(seeds) => match multiaddr_text(words.last()) {
                None => Err(words.last()),
                Some(address) => Ok(with_seed(seeds, address)),
            },
        }
    }
}

/// Add a parsed address unless it is there.
pub fn admit_seed(seeds: &mut Vec<String>, address: String)
    ensures
        texts(final(seeds)@) == with_seed(texts(old(seeds)@), address@),
{
    let ghost before = texts(seeds@);
    let mut i: usize = 0;
    while i < seeds.len()
        invariant
            i <= seeds@.len(),
            *seeds == *old(seeds),
            before == texts(seeds@),
            forall|j: int| 0 <= j < i ==> before[j] != address@,
        decreases seeds@.len() - i,
    {
        if seeds[i] == address {
            assert(before[i as int] == address@);
            return;
        }
        i = i + 1;
    }
    seeds.push(address);
    assert(texts(seeds@) =~= before.push(address@));
}

/// Add the seeds of one address text; says whether it is an address.
fn collect_one(seeds: &mut Vec<String>, words: &String) -> (ok: bool)
    ensures
        match multiaddr_text(words@) {
            Some(address) => ok && texts(final(seeds)@) == with_seed(texts(old(seeds)@), address),
            None => !ok && *final(seeds) == *old(seeds),
        },
{
    match parse_multiaddr(words.as_str()) {
        None => false,
        Some(address) => {
            admit_seed(seeds, address);
            true
        },
    }
}

fn words_of_host(host: &SeedHost, default_port: u16) -> (words: Vec<String>)
    ensures
        texts(words@) == host_words(*host, default_port),
{
    let mut words: Vec<String> = Vec::new();
    let name = trim(host.name.as_str());
    if name.as_str().unicode_len() == 0 {
        assert(texts(words@) =~= host_words(*host, default_port));
        return words;
    }
    if host.resolved.len() == 0 {
        words.push(address_text("dns4", name.as_str(), default_port));
        assert(texts(words@) =~= host_words(*host, default_port));
        return words;
    }
    let mut i: usize = 0;
    assert(texts(words@) =~= host_words(*host, default_port).take(0));
    while i < host.resolved.len()
        invariant
            i <= host.resolved@.len(),
            host.resolved@.len() > 0,
            trimmed(host.name@).len() > 0,
            texts(words@) == host_words(*host, default_port).take(i as int),
        decreases host.resolved@.len() - i,
    {
        let address = &host.resolved[i];
        let ghost before = texts(words@);
        words.push(ip_address(&address.ip, address.port));
        i = i + 1;
        assert(texts(words@) =~= before.push(host_words(*host, default_port)[i - 1]));
        assert(texts(words@) =~= host_words(*host, default_port).take(i as int));
    }
    assert(host_words(*host, default_port).take(i as int) =~= host_words(*host, default_port));
    words
}

/// The bootstrap addresses of the configured host names, each once, in their order.
pub fn mainnet_seeds(hosts: &Vec<SeedHost>, default_port: u16) -> (result: Result<Vec<String>, SeedError>)
    ensures
        match collected(all_words(hosts@, default_port)) {
            Err(bad) => result is Err && result->Err_0 is Unparsable && result->Err_0->Unparsable_0@ == bad,
            Ok(seeds) => if seeds.len() == 0 {
                result == Err::<Vec<String>, SeedError>(SeedError::NoSeeds)
            } else {
                result is Ok && texts(result->Ok_0@) == seeds
            },
        },
{
    let mut seeds: Vec<String> = Vec::new();
    let mut h: usize = 0;
    assert(texts(seeds@) =~= Seq::empty());
    while h < hosts.len()
        invariant
            h <= hosts@.len(),
            collected(all_words(hosts@.take(h as int), default_port)) == Ok::<Seq<Seq<char>>, Seq<char>>(
                texts(seeds@),
            ),
        decreases hosts@.len() - h,
    {
        let words = words_of_host(&hosts[h], default_port);
        let ghost done = all_words(hosts@.take(h as int), default_port);
        let ghost fresh = texts(words@);
        assert(hosts@.take(h + 1).drop_last() =~= hosts@.take(h as int));
        assert(all_words(hosts@.take(h + 1), default_port) == done + fresh);
        let mut i: usize = 0;
        assert(done + fresh.take(0) =~= done);
        while i < words.len()
            invariant
                h < hosts@.len(),
                i <= words@.len(),
                fresh == texts(words@),
                all_words(hosts@.take(h + 1), default_port) == done + fresh,
                collected(done + fresh.take(i as int)) == Ok::<Seq<Seq<char>>, Seq<char>>(texts(seeds@)),
            decreases words@.len() - i,
        {
            let ghost next = done + fresh.take(i + 1);
            assert(next.drop_last() =~= done + fresh.take(i as int));
            assert(next.last() == words@[i as int]@);
            if !collect_one(&mut seeds, &words[i]) {
                proof {
                    assert(collected(next) == Err::<Seq<Seq<char>>, Seq<char>>(words@[i as int]@));
                    assert((done + fresh).take((done.len() + i + 1) as int) =~= next);
                    lemma_failure_stays(done + fresh, (done.len() + i + 1) as int);
                    lemma_all_words_grow(hosts@, default_port, h + 1);
                    let all = all_words(hosts@, default_port);
                    assert(all.take((done + fresh).len() as int) == done + fresh);
                    lemma_failure_stays(all, (done + fresh).len() as int);
                }
                return Err(SeedError::Unparsable(words[i].clone()));
            }
            i = i + 1;
        }
        assert(fresh.take(i as int) =~= fresh);
        h = h + 1;
    }
    assert(hosts@.take(h as int) =~= hosts@);
    if seeds.len() == 0 {
        return Err(SeedError::NoSeeds);
    }
    Ok(seeds)
}

/// A bad text among the first ones is the outcome for all of them.
proof fn lemma_failure_stays(words: Seq<Seq<char>>, n: int)
    requires
        0 <= n <= words.len(),
        collected(words.take(n)) is Err,
    ensures
        collected(words) == collected(words.take(n)),
    decreases words.len() - n,
{
    if n == words.len() {
        assert(words.take(n) =~= words);
    } else {
        assert(words.take(n + 1).drop_last() =~= words.take(n));
        lemma_failure_stays(words, n + 1);
    }
}

/// The addresses of the first hosts are the first addresses.
proof fn lemma_all_words_grow(hosts: Seq<SeedHost>, default_port: u16, n: int)
    requires
        0 <= n <= hosts.len(),
    ensures
        ({
            let some = all_words(hosts.take(n), default_port);
            let all = all_words(hosts, default_port);
            some.len() <= all.len() && all.take(some.len() as int) == some
        }),
    decreases hosts.len() - n,
{
    let some = all_words(hosts.take(n), default_port);
    let all = all_words(hosts, default_port);
    if n == hosts.len() {
        assert(hosts.take(n) =~= hosts);
        assert(all.take(some.len() as int) =~= some);
    } else {
        lemma_all_words_grow(hosts, default_port, n + 1);
        let more = all_words(hosts.take(n + 1), default_port);
        assert(hosts.take(n + 1).drop_last() =~= hosts.take(n));
        assert(more.take(some.len() as int) =~= some);
        assert(all.take(some.len() as int) =~= all.take(more.len() as int).take(some.len() as int));
    }
}

/// No seed is named twice.
pub proof fn lemma_seeds_are_distinct(words: Seq<Seq<char>>)
    ensures
        match collected(words) {
            Ok(seeds) => seeds.no_duplicates(),
            Err(_) => true,
        },
    decreases words.len(),
{
    if words.len() > 0 {
        lemma_seeds_are_distinct(words.drop_last());
    }
}

} // verus!
