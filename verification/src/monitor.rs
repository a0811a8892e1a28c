//! The resolved runtime model and its all-or-nothing construction from a
//! configuration.

use vstd::prelude::*;
use crate::addr::Address_;
use crate::config::{Config, ConfigAddress, ConfigNetwork};

verus! {

/// Why a configuration was rejected.
#[derive(Debug)]
pub enum ConfigError {
    /// Some network's token map uses the reserved native-asset name as a key.
    ReservedTokenName,
    /// A network URL that could not be parsed at all.
    InvalidUrl { url: String },
    /// A network URL with a scheme other than the two supported ones.
    UnsupportedScheme { scheme: String },
    /// A watched address references a token symbol absent from its network's
    /// token map.
    UnknownToken { symbol: String, address_label: String },
}

/// A token to watch: its symbol and its contract address.
#[derive(Debug)]
pub struct Token {
    pub name: String,
    pub address: Address_,
}

/// A watched address with its token references resolved.
#[derive(Debug)]
pub struct AddressToMonitor {
    pub name: String,
    pub address: Address_,
    pub monitor_ether: bool,
    pub tokens: Vec<Token>,
    pub tag: String,
}

/// One network binding: the validated node URL and the addresses to monitor
/// on it. The connected transport itself is created from the URL by the
/// caller that performs queries.
#[derive(Debug)]
pub struct Network {
    pub name: String,
    pub url: String,
    pub addresses: Vec<AddressToMonitor>,
}

/// The whole resolved model: networks in configuration order.
#[derive(Debug)]
pub struct BalanceMonitor {
    pub networks: Vec<Network>,
}

/// The scheme of a URL string, lower-cased, as `url::Url::parse` reads it;
/// `None` when the string is not a parseable absolute URL.
pub uninterp spec fn url_scheme_of(s: Seq<char>) -> Option<Seq<char>>;

/// Relies on `url::Url::parse` and `url::Url::scheme`: parsing is a pure
/// function of the input string, and `scheme()` returns the lower-cased
/// scheme of the parsed URL without the `:` delimiter.
#[verifier::external_body]
fn parse_url_scheme(s: &str) -> (r: Option<String>)
    ensures
        match r {
            Some(scheme) => url_scheme_of(s@) == Some(scheme@),
            None => url_scheme_of(s@) is None,
        },
{
    match url::Url::parse(s) {
        Ok(u) => Some(u.scheme().to_string()),
        Err(_) => None,
    }
}

/// The token symbol reserved for the native balance in reports.
pub open spec fn reserved_token_name() -> Seq<char> {
    "ether"@
}

fn is_reserved_name(name: &String) -> (r: bool)
    ensures
        r == (name@ == reserved_token_name()),
{
    let reserved: String = "ether".to_owned();
    *name == reserved
}

/// The two conventional web-transport schemes are the supported ones.
pub open spec fn spec_scheme_supported(s: Seq<char>) -> bool {
    s == "http"@ || s == "https"@
}

fn scheme_supported(s: &String) -> (r: bool)
    ensures
        r == spec_scheme_supported(s@),
{
    let http: String = "http".to_owned();
    let https: String = "https".to_owned();
    *s == http || *s == https
}

/// A token map, reduced to the views of its symbols and addresses.
pub open spec fn token_views(tokens: Seq<(String, Address_)>) -> Seq<(Seq<char>, Seq<u8>)> {
    Seq::new(tokens.len(), |i: int| (tokens[i].0@, tokens[i].1@))
}

/// The same reduction for an already-built token list.
pub open spec fn token_list_views(tokens: Seq<Token>) -> Seq<(Seq<char>, Seq<u8>)> {
    Seq::new(tokens.len(), |i: int| (tokens[i].name@, tokens[i].address@))
}

/// First-match lookup of a symbol in a token map.
pub open spec fn find_tv(tvs: Seq<(Seq<char>, Seq<u8>)>, sym: Seq<char>) -> Option<Seq<u8>>
    decreases tvs.len(),
{
    if tvs.len() == 0 {
        None
    } else if tvs[0].0 == sym {
        Some(tvs[0].1)
    } else {
        find_tv(tvs.drop_first(), sym)
    }
}

proof fn lemma_find_tv_at(tvs: Seq<(Seq<char>, Seq<u8>)>, sym: Seq<char>, i: int)
    requires
        0 <= i < tvs.len(),
        tvs[i].0 == sym,
        forall|j: int| 0 <= j < i ==> (#[trigger] tvs[j]).0 != sym,
    ensures
        find_tv(tvs, sym) == Some(tvs[i].1),
    decreases i,
{
    if i > 0 {
        lemma_find_tv_at(tvs.drop_first(), sym, i - 1);
    }
}

proof fn lemma_find_tv_none(tvs: Seq<(Seq<char>, Seq<u8>)>, sym: Seq<char>)
    requires
        forall|j: int| 0 <= j < tvs.len() ==> (#[trigger] tvs[j]).0 != sym,
    ensures
        find_tv(tvs, sym) is None,
    decreases tvs.len(),
{
    if tvs.len() > 0 {
        lemma_find_tv_none(tvs.drop_first(), sym);
    }
}

/// A tag defaults to the empty string when unspecified.
pub open spec fn spec_tag(t: Option<String>) -> Seq<char> {
    match t {
        Some(s) => s@,
        None => Seq::empty(),
    }
}

/// Some network's token map uses the reserved name as a key.
pub open spec fn has_reserved_token(c: Config) -> bool {
    exists|i: int, j: int|
        #![auto]
        0 <= i < c.networks@.len() && 0 <= j < c.networks@[i].tokens@.len()
            && c.networks@[i].tokens@[j].0@ == reserved_token_name()
}

/// Every symbol this watched address references exists in the token map.
pub open spec fn addr_resolvable(ca: ConfigAddress, tvs: Seq<(Seq<char>, Seq<u8>)>) -> bool {
    forall|k: int|
        0 <= k < ca.tokens@.len() ==> find_tv(tvs, (#[trigger] ca.tokens@[k])@) is Some
}

/// A resolved watched address agrees with its configuration entry.
pub open spec fn addr_resolved(
    ra: AddressToMonitor,
    label: Seq<char>,
    ca: ConfigAddress,
    tvs: Seq<(Seq<char>, Seq<u8>)>,
) -> bool {
    &&& ra.name@ == label
    &&& ra.address@ == ca.address@
    &&& ra.monitor_ether == ca.ether
    &&& ra.tag@ == spec_tag(ca.tag)
    &&& ra.tokens@.len() == ca.tokens@.len()
    &&& forall|k: int|
        #![trigger ra.tokens@[k]]
        #![trigger ca.tokens@[k]]
        0 <= k < ca.tokens@.len() ==> (ra.tokens@[k].name@ == ca.tokens@[k]@
            && find_tv(tvs, ca.tokens@[k]@) == Some(ra.tokens@[k].address@))
}

pub open spec fn network_addrs_resolvable(cn: ConfigNetwork) -> bool {
    forall|a: int|
        0 <= a < cn.addresses@.len() ==> addr_resolvable(
            (#[trigger] cn.addresses@[a]).1,
            token_views(cn.tokens@),
        )
}

/// The network's URL parses and uses a supported scheme.
pub open spec fn network_url_ok(cn: ConfigNetwork) -> bool {
    &&& url_scheme_of(cn.url@) is Some
    &&& spec_scheme_supported(url_scheme_of(cn.url@).unwrap())
}

pub open spec fn network_ok(cn: ConfigNetwork) -> bool {
    network_url_ok(cn) && network_addrs_resolvable(cn)
}

/// The whole configuration passes construction.
pub open spec fn config_valid(c: Config) -> bool {
    &&& !has_reserved_token(c)
    &&& forall|i: int| 0 <= i < c.networks@.len() ==> network_ok(#[trigger] c.networks@[i])
}

/// A resolved network binding agrees with its configuration entry.
pub open spec fn network_resolved(rn: Network, cn: ConfigNetwork) -> bool {
    &&& rn.name@ == cn.name@
    &&& rn.url@ == cn.url@
    &&& rn.addresses@.len() == cn.addresses@.len()
    &&& forall|a: int|
        0 <= a < cn.addresses@.len() ==> addr_resolved(
            #[trigger] rn.addresses@[a],
            cn.addresses@[a].0@,
            cn.addresses@[a].1,
            token_views(cn.tokens@),
        )
}

/// All networks before position `i` are fully valid.
pub open spec fn networks_ok_before(c: Config, i: int) -> bool {
    &&& 0 <= i < c.networks@.len()
    &&& forall|j: int| 0 <= j < i ==> network_ok(#[trigger] c.networks@[j])
}

/// Symbol `sym` is the first of this address's token list that the token map
/// does not contain.
pub open spec fn first_missing_sym(
    ca: ConfigAddress,
    tvs: Seq<(Seq<char>, Seq<u8>)>,
    sym: Seq<char>,
) -> bool {
    exists|k: int|
        #![auto]
        0 <= k < ca.tokens@.len() && (forall|k2: int|
            0 <= k2 < k ==> find_tv(tvs, (#[trigger] ca.tokens@[k2])@) is Some) && find_tv(
            tvs,
            ca.tokens@[k]@,
        ) is None && sym == ca.tokens@[k]@
}

/// Position `a` holds the first watched address whose token list does not
/// resolve, and `sym` names its first missing symbol.
pub open spec fn unknown_at(
    addrs: Seq<(String, ConfigAddress)>,
    tvs: Seq<(Seq<char>, Seq<u8>)>,
    a: int,
    sym: Seq<char>,
    label: Seq<char>,
) -> bool {
    &&& 0 <= a < addrs.len()
    &&& forall|a2: int| 0 <= a2 < a ==> addr_resolvable((#[trigger] addrs[a2]).1, tvs)
    &&& label == addrs[a].0@
    &&& first_missing_sym(addrs[a].1, tvs, sym)
}

/// The named symbol is the first missing one of the first unresolvable
/// watched address, and some watched address is indeed unresolvable.
pub open spec fn unknown_token_witnessed(
    addrs: Seq<(String, ConfigAddress)>,
    tvs: Seq<(Seq<char>, Seq<u8>)>,
    sym: Seq<char>,
    label: Seq<char>,
) -> bool {
    &&& exists|a: int| unknown_at(addrs, tvs, a, sym, label)
    &&& exists|a: int|
        #![trigger addrs[a]]
        0 <= a < addrs.len() && !addr_resolvable(addrs[a].1, tvs)
}

/// The error names the first missing symbol of the first unresolvable
/// watched address.
pub open spec fn unknown_token_error(
    e: ConfigError,
    addrs: Seq<(String, ConfigAddress)>,
    tvs: Seq<(Seq<char>, Seq<u8>)>,
) -> bool {
    match e {
        ConfigError::UnknownToken { symbol, address_label } => unknown_token_witnessed(
            addrs,
            tvs,
            symbol@,
            address_label@,
        ),
        _ => false,
    }
}

/// Bind each configured (symbol, contract address) pair as a token.
fn create_tokens(tokens: &Vec<(String, Address_)>) -> (r: Vec<Token>)
    ensures
        r@.len() == tokens@.len(),
        forall|i: int|
            #![trigger r@[i]]
            #![trigger tokens@[i]]
            0 <= i < tokens@.len() ==> (r@[i].name@ == tokens@[i].0@ && r@[i].address@
                == tokens@[i].1@),
{
    let mut out: Vec<Token> = Vec::new();
    let mut i: usize = 0;
    while i < tokens.len()
        invariant
            i <= tokens@.len(),
            out@.len() == i,
            forall|j: int|
                #![trigger out@[j]]
                #![trigger tokens@[j]]
                0 <= j < i ==> (out@[j].name@ == tokens@[j].0@ && out@[j].address@
                    == tokens@[j].1@),
        decreases tokens@.len() - i,
    {
        let pair = &tokens[i];
        out.push(Token { name: pair.0.clone(), address: pair.1.clone() });
        i = i + 1;
    }
    out
}

/// First-match search for a symbol among the bound tokens.
fn find_token(tokens: &Vec<Token>, sym: &String) -> (r: Option<usize>)
    ensures
        match r {
            Some(idx) => idx < tokens@.len() && tokens@[idx as int].name@ == sym@ && find_tv(
                token_list_views(tokens@),
                sym@,
            ) == Some(tokens@[idx as int].address@),
            None => find_tv(token_list_views(tokens@), sym@) is None,
        },
{
    let mut i: usize = 0;
    while i < tokens.len()
        invariant
            i <= tokens@.len(),
            forall|j: int| 0 <= j < i ==> (#[trigger] tokens@[j]).name@ != sym@,
        decreases tokens@.len() - i,
    {
        if tokens[i].name == *sym {
            proof {
                lemma_find_tv_at(token_list_views(tokens@), sym@, i as int);
            }
            return Some(i);
        }
        i = i + 1;
    }
    proof {
        lemma_find_tv_none(token_list_views(tokens@), sym@);
    }
    None
}

/// Resolve a token-symbol list against the bound tokens; `Err` carries the
/// position of the first missing symbol.
fn resolve_tokens(syms: &Vec<String>, tokens: &Vec<Token>) -> (r: Result<Vec<Token>, usize>)
    ensures
        match r {
            Ok(ts) => ts@.len() == syms@.len() && forall|k: int|
                #![trigger ts@[k]]
                #![trigger syms@[k]]
                0 <= k < syms@.len() ==> (ts@[k].name@ == syms@[k]@ && find_tv(
                    token_list_views(tokens@),
                    syms@[k]@,
                ) == Some(ts@[k].address@)),
            Err(k) => k < syms@.len() && (forall|k2: int|
                0 <= k2 < k ==> find_tv(token_list_views(tokens@), (#[trigger] syms@[k2])@)
                    is Some) && find_tv(token_list_views(tokens@), syms@[k as int]@) is None,
        },
{
    let mut out: Vec<Token> = Vec::new();
    let mut k: usize = 0;
    while k < syms.len()
        invariant
            k <= syms@.len(),
            out@.len() == k,
            forall|k2: int|
                #![trigger out@[k2]]
                #![trigger syms@[k2]]
                0 <= k2 < k ==> (out@[k2].name@ == syms@[k2]@ && find_tv(
                    token_list_views(tokens@),
                    syms@[k2]@,
                ) == Some(out@[k2].address@)),
        decreases syms@.len() - k,
    {
        let sym = &syms[k];
        match find_token(tokens, sym) {
            Some(idx) => {
                out.push(Token { name: sym.clone(), address: tokens[idx].address.clone() });
            },
            None => {
                return Err(k);
            },
        }
        k = k + 1;
    }
    Ok(out)
}

/// Resolve every watched address of one network, in configuration order;
/// construction of the whole list fails on the first unresolvable reference.
#[verifier::rlimit(50)]
fn create_addresses_to_monitor(
    addresses: &Vec<(String, ConfigAddress)>,
    tokens: &Vec<Token>,
) -> (r: Result<Vec<AddressToMonitor>, ConfigError>)
    ensures
        match r {
            Ok(out) => out@.len() == addresses@.len() && forall|a: int|
                #![trigger out@[a]]
                #![trigger addresses@[a]]
                0 <= a < addresses@.len() ==> addr_resolved(
                    out@[a],
                    addresses@[a].0@,
                    addresses@[a].1,
                    token_list_views(tokens@),
                ),
            Err(e) => unknown_token_error(e, addresses@, token_list_views(tokens@)),
        },
{
    let mut out: Vec<AddressToMonitor> = Vec::new();
    let mut a: usize = 0;
    while a < addresses.len()
        invariant
            a <= addresses@.len(),
            out@.len() == a,
            forall|a2: int|
                #![trigger out@[a2]]
                #![trigger addresses@[a2]]
                0 <= a2 < a ==> addr_resolved(
                    out@[a2],
                    addresses@[a2].0@,
                    addresses@[a2].1,
                    token_list_views(tokens@),
                ),
        decreases addresses@.len() - a,
    {
        let pair = &addresses[a];
        let label = &pair.0;
        let ca = &pair.1;
        match resolve_tokens(&ca.tokens, tokens) {
            Ok(ts) => {
                let tag: String = match &ca.tag {
                    Some(t) => t.clone(),
                    None => String::new(),
                };
                out.push(
                    AddressToMonitor {
                        name: label.clone(),
                        address: ca.address.clone(),
                        monitor_ether: ca.ether,
                        tokens: ts,
                        tag,
                    },
                );
            },
            Err(k) => {
                let symbol: String = ca.tokens[k].clone();
                let address_label: String = label.clone();
                proof {
                    assert(address_label@ == label@);
                    assert forall|a2: int| 0 <= a2 < a implies addr_resolvable(
                        (#[trigger] addresses@[a2]).1,
                        token_list_views(tokens@),
                    ) by {
                        assert(addr_resolved(
                            out@[a2],
                            addresses@[a2].0@,
                            addresses@[a2].1,
                            token_list_views(tokens@),
                        ));
                    }
                    assert(first_missing_sym(
                        addresses@[a as int].1,
                        token_list_views(tokens@),
                        symbol@,
                    ));
                    assert(unknown_at(
                        addresses@,
                        token_list_views(tokens@),
                        a as int,
                        symbol@,
                        address_label@,
                    ));
                    assert(!addr_resolvable(
                        addresses@[a as int].1,
                        token_list_views(tokens@),
                    )) by {
                        assert(find_tv(
                            token_list_views(tokens@),
                            addresses@[a as int].1.tokens@[k as int]@,
                        ) is None);
                    }
                    assert(unknown_token_witnessed(
                        addresses@,
                        token_list_views(tokens@),
                        symbol@,
                        address_label@,
                    ));
                }
                let err = ConfigError::UnknownToken { symbol, address_label };
                proof {
                    assert(unknown_token_error(err, addresses@, token_list_views(tokens@)));
                }
                return Err(err);
            },
        }
        a = a + 1;
    }
    Ok(out)
}

impl BalanceMonitor {
    /// Build the resolved model from a configuration, all-or-nothing.
    ///
    /// Exactly the valid configurations are accepted: no network's token map
    /// may use the reserved native-asset name (checked globally first), every
    /// network URL must carry a supported scheme, and every referenced token
    /// symbol must exist in its network's token map. Each error names what
    /// was wrong with the first offender in configuration order.
    pub fn new(config: Config) -> (r: Result<BalanceMonitor, ConfigError>)
        ensures
            r is Ok <==> config_valid(config),
            match r {
                Ok(m) => m.networks@.len() == config.networks@.len() && forall|i: int|
                    #![trigger m.networks@[i]]
                    #![trigger config.networks@[i]]
                    0 <= i < config.networks@.len() ==> network_resolved(
                        m.networks@[i],
                        config.networks@[i],
                    ),
                Err(ConfigError::ReservedTokenName) => has_reserved_token(config),
                Err(ConfigError::InvalidUrl { url }) => !has_reserved_token(config) && exists|
                    i: int,
                |
                    #![auto]
                    networks_ok_before(config, i) && url@ == config.networks@[i].url@
                        && url_scheme_of(config.networks@[i].url@) is None,
                Err(ConfigError::UnsupportedScheme { scheme }) => !has_reserved_token(config)
                    && exists|i: int|
                    #![auto]
                    networks_ok_before(config, i) && url_scheme_of(config.networks@[i].url@)
                        == Some(scheme@) && !spec_scheme_supported(scheme@),
                Err(ConfigError::UnknownToken { symbol, address_label }) => !has_reserved_token(
                    config,
                ) && exists|i: int|
                    #![auto]
                    networks_ok_before(config, i) && network_url_ok(config.networks@[i]) && exists|
                        a: int,
                    |
                        unknown_at(
                            config.networks@[i].addresses@,
                            token_views(config.networks@[i].tokens@),
                            a,
                            symbol@,
                            address_label@,
                        ),
            },
    {
        // The reserved-name check is global: it runs over every network
        // before any network is resolved.
        let mut i: usize = 0;
        while i < config.networks.len()
            invariant
                i <= config.networks@.len(),
                forall|i2: int, j2: int|
                    #![auto]
                    0 <= i2 < i && 0 <= j2 < config.networks@[i2].tokens@.len()
                        ==> config.networks@[i2].tokens@[j2].0@ != reserved_token_name(),
            decreases config.networks@.len() - i,
        {
            let net = &config.networks[i];
            let mut j: usize = 0;
            while j < net.tokens.len()
                invariant
                    j <= net.tokens@.len(),
                    i < config.networks@.len(),
                    net == config.networks@[i as int],
                    forall|j2: int|
                        #![auto]
                        0 <= j2 < j ==> net.tokens@[j2].0@ != reserved_token_name(),
                decreases net.tokens@.len() - j,
            {
                if is_reserved_name(&net.tokens[j].0) {
                    proof {
                        assert(config.networks@[i as int].tokens@[j as int].0@
                            == reserved_token_name());
                        assert(has_reserved_token(config));
                    }
                    return Err(ConfigError::ReservedTokenName);
                }
                j = j + 1;
            }
            i = i + 1;
        }
        proof {
            assert(!has_reserved_token(config));
        }
        let mut networks: Vec<Network> = Vec::new();
        let mut i: usize = 0;
        while i < config.networks.len()
            invariant
                i <= config.networks@.len(),
                networks@.len() == i,
                !has_reserved_token(config),
                forall|j: int| 0 <= j < i ==> network_ok(#[trigger] config.networks@[j]),
                forall|j: int|
                    #![trigger networks@[j]]
                    #![trigger config.networks@[j]]
                    0 <= j < i ==> network_resolved(
                        networks@[j],
                        config.networks@[j],
                    ),
            decreases config.networks@.len() - i,
        {
            let net = &config.networks[i];
            match parse_url_scheme(net.url.as_str()) {
                None => {
                    proof {
                        assert(networks_ok_before(config, i as int));
                        assert(!network_ok(config.networks@[i as int]));
                    }
                    return Err(ConfigError::InvalidUrl { url: net.url.clone() });
                },
                Some(scheme) => {
                    if !scheme_supported(&scheme) {
                        proof {
                            assert(networks_ok_before(config, i as int));
                            assert(!network_url_ok(config.networks@[i as int]));
                            assert(!network_ok(config.networks@[i as int]));
                        }
                        return Err(ConfigError::UnsupportedScheme { scheme });
                    }
                },
            }
            let tokens = create_tokens(&net.tokens);
            proof {
                assert(token_list_views(tokens@) =~~= token_views(net.tokens@));
            }
            match create_addresses_to_monitor(&net.addresses, &tokens) {
                Ok(addresses) => {
                    proof {
                        assert forall|a2: int|
                            0 <= a2 < net.addresses@.len() implies addr_resolvable(
                            (#[trigger] net.addresses@[a2]).1,
                            token_views(net.tokens@),
                        ) by {
                            assert(addr_resolved(
                                addresses@[a2],
                                net.addresses@[a2].0@,
                                net.addresses@[a2].1,
                                token_views(net.tokens@),
                            ));
                        }
                        assert(network_ok(config.networks@[i as int]));
                    }
                    networks.push(
                        Network { name: net.name.clone(), url: net.url.clone(), addresses },
                    );
                },
                Err(e) => {
                    proof {
                        assert(networks_ok_before(config, i as int));
                        let aw = choose|a: int|
                            #![auto]
                            0 <= a < net.addresses@.len() && !addr_resolvable(
                                net.addresses@[a].1,
                                token_list_views(tokens@),
                            );
                        assert(!addr_resolvable(
                            config.networks@[i as int].addresses@[aw].1,
                            token_views(config.networks@[i as int].tokens@),
                        ));
                        assert(!network_addrs_resolvable(config.networks@[i as int]));
                        assert(!network_ok(config.networks@[i as int]));
                        assert(!config_valid(config));
                    }
                    return Err(e);
                },
            }
            i = i + 1;
        }
        Ok(BalanceMonitor { networks })
    }
}

} // verus!
