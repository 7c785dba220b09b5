//! Ready-made endpoint lists for common EVM chains.
//!
//! Each preset returns a list of public, no-key RPC endpoints in a sensible
//! priority order. They are a starting point: pair them with your own keyed
//! endpoints (Alchemy/Infura/etc.) at a lower `priority` so paid capacity is
//! preferred and the public URLs act as failover. Nothing here is
//! chain-specific beyond the URL list - `base()` is there but the crate is
//! not Base-specific.
//!
//! Public endpoints come and go; treat these as defaults to be overridden by a
//! config file, not as a guarantee.

use vstd::prelude::*;

use crate::config::{
    endpoints_view, law_valid_configuration, ConfigView, EndpointView, RpcEndpoint, RpcPoolConfig,
};
use crate::text::{
    ascii_lowered, is_blank, is_white_space, spells, trimmed, trimmed_end, trimmed_lower,
    trimmed_start,
};

verus! {

/// A labelled URL at rank `i` of a preset.
pub open spec fn labelled(i: int, labelled_url: (Seq<char>, Seq<char>)) -> EndpointView {
    EndpointView {
        label: Some(labelled_url.0),
        ..EndpointView::ranked(i, labelled_url.1)
    }
}

/// The endpoints of a preset, in ranked failover order.
pub open spec fn listed(labelled_urls: Seq<(Seq<char>, Seq<char>)>) -> Seq<EndpointView> {
    labelled_urls.map(|i: int, p: (Seq<char>, Seq<char>)| labelled(i, p))
}

/// Labels and URLs, as texts.
pub open spec fn texts(labelled_urls: Seq<(&str, &str)>) -> Seq<(Seq<char>, Seq<char>)> {
    labelled_urls.map_values(|p: (&str, &str)| (p.0@, p.1@))
}

/// Build a preset endpoint list in ranked failover order (`priority = index`).
/// Public endpoints are heterogeneous - some are reliably faster than others -
/// and riding the best one as a primary and failing over beats blindly
/// spreading load across all of them. Set two endpoints to the same `priority`
/// if you want them treated as peers (the pool then spreads load across that
/// tier by least in-flight), and add your own keyed provider at a lower
/// `priority` to prefer it.
fn list(labelled_urls: &[(&str, &str)]) -> (r: Vec<RpcEndpoint>)
    ensures
        endpoints_view(r@) == listed(texts(labelled_urls@)),
{
    let mut endpoints: Vec<RpcEndpoint> = Vec::new();
    let mut i: usize = 0;
    let ghost wanted = listed(texts(labelled_urls@));
    while i < labelled_urls.len()
        invariant
            i <= labelled_urls@.len(),
            wanted == listed(texts(labelled_urls@)),
            endpoints_view(endpoints@) == wanted.take(i as int),
        decreases labelled_urls.len() - i,
    {
        let (label, url) = labelled_urls[i];
        let mut endpoint = RpcEndpoint::new(url);
        endpoint.label = Some(label.to_owned());
        endpoint.priority =
        #[verifier::truncate]
        (i as u32);
        let ghost before = endpoints@;
        endpoints.push(endpoint);
        assert(endpoint@ =~= wanted[i as int]);
        assert(endpoints_view(endpoints@) =~= endpoints_view(before).push(endpoint@));
        assert(endpoints_view(endpoints@) =~= wanted.take(i + 1));
        i += 1;
    }
    assert(wanted.take(i as int) =~= wanted);
    endpoints
}

/// Labels and URLs for Base.
pub open spec fn base_urls() -> Seq<(Seq<char>, Seq<char>)> {
    seq![
        ("base-official"@, "https://mainnet.base.org"@),
        ("base-publicnode"@, "https://base-rpc.publicnode.com"@),
        ("base-1rpc"@, "https://1rpc.io/base"@),
        ("base-llamarpc"@, "https://base.llamarpc.com"@),
        ("base-blockpi"@, "https://base.blockpi.network/v1/rpc/public"@),
    ]
}

/// Base mainnet (chain id 8453).
pub fn base() -> (r: Vec<RpcEndpoint>)
    ensures
        endpoints_view(r@) == listed(base_urls()),
{
    let labelled_urls = [
        ("base-official", "https://mainnet.base.org"),
        ("base-publicnode", "https://base-rpc.publicnode.com"),
        ("base-1rpc", "https://1rpc.io/base"),
        ("base-llamarpc", "https://base.llamarpc.com"),
        ("base-blockpi", "https://base.blockpi.network/v1/rpc/public"),
    ];
    assert(texts(labelled_urls@) =~= base_urls());
    list(&labelled_urls)
}

/// Labels and URLs for Ethereum.
pub open spec fn ethereum_urls() -> Seq<(Seq<char>, Seq<char>)> {
    seq![
        ("eth-llamarpc"@, "https://eth.llamarpc.com"@),
        ("eth-publicnode"@, "https://ethereum-rpc.publicnode.com"@),
        ("eth-cloudflare"@, "https://cloudflare-eth.com"@),
        ("eth-blockpi"@, "https://ethereum.blockpi.network/v1/rpc/public"@),
        ("eth-1rpc"@, "https://1rpc.io/eth"@),
    ]
}

/// Ethereum mainnet (chain id 1).
pub fn ethereum() -> (r: Vec<RpcEndpoint>)
    ensures
        endpoints_view(r@) == listed(ethereum_urls()),
{
    let labelled_urls = [
        ("eth-llamarpc", "https://eth.llamarpc.com"),
        ("eth-publicnode", "https://ethereum-rpc.publicnode.com"),
        ("eth-cloudflare", "https://cloudflare-eth.com"),
        ("eth-blockpi", "https://ethereum.blockpi.network/v1/rpc/public"),
        ("eth-1rpc", "https://1rpc.io/eth"),
    ];
    assert(texts(labelled_urls@) =~= ethereum_urls());
    list(&labelled_urls)
}

/// Labels and URLs for Arbitrum One.
pub open spec fn arbitrum_urls() -> Seq<(Seq<char>, Seq<char>)> {
    seq![
        ("arb-official"@, "https://arb1.arbitrum.io/rpc"@),
        ("arb-llamarpc"@, "https://arbitrum.llamarpc.com"@),
        ("arb-publicnode"@, "https://arbitrum-one-rpc.publicnode.com"@),
        ("arb-1rpc"@, "https://1rpc.io/arb"@),
    ]
}

/// Arbitrum One (chain id 42161).
pub fn arbitrum() -> (r: Vec<RpcEndpoint>)
    ensures
        endpoints_view(r@) == listed(arbitrum_urls()),
{
    let labelled_urls = [
        ("arb-official", "https://arb1.arbitrum.io/rpc"),
        ("arb-llamarpc", "https://arbitrum.llamarpc.com"),
        ("arb-publicnode", "https://arbitrum-one-rpc.publicnode.com"),
        ("arb-1rpc", "https://1rpc.io/arb"),
    ];
    assert(texts(labelled_urls@) =~= arbitrum_urls());
    list(&labelled_urls)
}

/// Labels and URLs for OP Mainnet.
pub open spec fn optimism_urls() -> Seq<(Seq<char>, Seq<char>)> {
    seq![
        ("op-official"@, "https://mainnet.optimism.io"@),
        ("op-llamarpc"@, "https://optimism.llamarpc.com"@),
        ("op-publicnode"@, "https://optimism-rpc.publicnode.com"@),
        ("op-1rpc"@, "https://1rpc.io/op"@),
    ]
}

/// OP Mainnet (chain id 10).
pub fn optimism() -> (r: Vec<RpcEndpoint>)
    ensures
        endpoints_view(r@) == listed(optimism_urls()),
{
    let labelled_urls = [
        ("op-official", "https://mainnet.optimism.io"),
        ("op-llamarpc", "https://optimism.llamarpc.com"),
        ("op-publicnode", "https://optimism-rpc.publicnode.com"),
        ("op-1rpc", "https://1rpc.io/op"),
    ];
    assert(texts(labelled_urls@) =~= optimism_urls());
    list(&labelled_urls)
}

/// Labels and URLs for Polygon PoS.
pub open spec fn polygon_urls() -> Seq<(Seq<char>, Seq<char>)> {
    seq![
        ("polygon-official"@, "https://polygon-rpc.com"@),
        ("polygon-llamarpc"@, "https://polygon.llamarpc.com"@),
        ("polygon-publicnode"@, "https://polygon-bor-rpc.publicnode.com"@),
        ("polygon-1rpc"@, "https://1rpc.io/matic"@),
    ]
}

/// Polygon PoS (chain id 137).
pub fn polygon() -> (r: Vec<RpcEndpoint>)
    ensures
        endpoints_view(r@) == listed(polygon_urls()),
{
    let labelled_urls = [
        ("polygon-official", "https://polygon-rpc.com"),
        ("polygon-llamarpc", "https://polygon.llamarpc.com"),
        ("polygon-publicnode", "https://polygon-bor-rpc.publicnode.com"),
        ("polygon-1rpc", "https://1rpc.io/matic"),
    ];
    assert(texts(labelled_urls@) =~= polygon_urls());
    list(&labelled_urls)
}

/// Labels and URLs for BNB Smart Chain.
pub open spec fn bnb_urls() -> Seq<(Seq<char>, Seq<char>)> {
    seq![
        ("bnb-official"@, "https://bsc-dataseed.bnbchain.org"@),
        ("bnb-publicnode"@, "https://bsc-rpc.publicnode.com"@),
        ("bnb-llamarpc"@, "https://binance.llamarpc.com"@),
        ("bnb-1rpc"@, "https://1rpc.io/bnb"@),
    ]
}

/// BNB Smart Chain (chain id 56).
pub fn bnb() -> (r: Vec<RpcEndpoint>)
    ensures
        endpoints_view(r@) == listed(bnb_urls()),
{
    let labelled_urls = [
        ("bnb-official", "https://bsc-dataseed.bnbchain.org"),
        ("bnb-publicnode", "https://bsc-rpc.publicnode.com"),
        ("bnb-llamarpc", "https://binance.llamarpc.com"),
        ("bnb-1rpc", "https://1rpc.io/bnb"),
    ];
    assert(texts(labelled_urls@) =~= bnb_urls());
    list(&labelled_urls)
}

/// All preset names (canonical form) for help text and `init` listings.
pub fn names() -> (r: &'static [&'static str])
    ensures
        r@.map_values(|name: &'static str| name@) == preset_names(),
{
    let names: &'static [&'static str] = &[
        "base",
        "ethereum",
        "arbitrum",
        "optimism",
        "polygon",
        "bnb",
    ];
    assert(names@.map_values(|name: &'static str| name@) =~= preset_names());
    names
}

/// The canonical preset names.
pub open spec fn preset_names() -> Seq<Seq<char>> {
    seq!["base"@, "ethereum"@, "arbitrum"@, "optimism"@, "polygon"@, "bnb"@]
}

/// The labels and URLs of the preset that goes by `name`: in any case, and with
/// white space around it.
pub open spec fn preset_urls(name: Seq<char>) -> Option<Seq<(Seq<char>, Seq<char>)>> {
    let key = ascii_lowered(trimmed(name));
    if key == "base"@ {
        Some(base_urls())
    } else if key == "ethereum"@ || key == "eth"@ || key == "mainnet"@ {
        Some(ethereum_urls())
    } else if key == "arbitrum"@ || key == "arb"@ {
        Some(arbitrum_urls())
    } else if key == "optimism"@ || key == "op"@ {
        Some(optimism_urls())
    } else if key == "polygon"@ || key == "matic"@ {
        Some(polygon_urls())
    } else if key == "bnb"@ || key == "bsc"@ {
        Some(bnb_urls())
    } else {
        None
    }
}

/// Endpoint list for a preset name (see `config_for` for accepted aliases).
pub fn endpoints_for(name: &str) -> (r: Option<Vec<RpcEndpoint>>)
    ensures
        match preset_urls(name@) {
            Some(urls) => r matches Some(endpoints) && endpoints_view(endpoints@) == listed(urls),
            None => r is None,
        },
{
    let key = trimmed_lower(name);
    if spells(&key, "base") {
        Some(base())
    } else if spells(&key, "ethereum") || spells(&key, "eth") || spells(&key, "mainnet") {
        Some(ethereum())
    } else if spells(&key, "arbitrum") || spells(&key, "arb") {
        Some(arbitrum())
    } else if spells(&key, "optimism") || spells(&key, "op") {
        Some(optimism())
    } else if spells(&key, "polygon") || spells(&key, "matic") {
        Some(polygon())
    } else if spells(&key, "bnb") || spells(&key, "bsc") {
        Some(bnb())
    } else {
        None
    }
}

/// Build an `RpcPoolConfig` from a preset name, or `None` if unknown.
///
/// Recognized names (case-insensitive): `base`, `ethereum`/`eth`/`mainnet`,
/// `arbitrum`/`arb`, `optimism`/`op`, `polygon`/`matic`, `bnb`/`bsc`.
pub fn config_for(name: &str) -> (r: Option<RpcPoolConfig>)
    ensures
        match preset_urls(name@) {
            Some(urls) => r matches Some(config) && config@ == ConfigView::with_endpoints(
                listed(urls),
            ),
            None => r is None,
        },
{
    match endpoints_for(name) {
        Some(endpoints) => Some(RpcPoolConfig::with_endpoints(endpoints)),
        None => None,
    }
}

/// `endpoints`, all at one priority.
pub open spec fn leveled(endpoints: Seq<EndpointView>, priority: u32) -> Seq<EndpointView> {
    endpoints.map_values(|e: EndpointView| EndpointView { priority, ..e })
}

/// Put every endpoint at one priority, which makes them peers: the pool spreads
/// load across them by least in-flight.
pub fn level(endpoints: Vec<RpcEndpoint>, priority: u32) -> (r: Vec<RpcEndpoint>)
    ensures
        endpoints_view(r@) == leveled(endpoints_view(endpoints@), priority),
{
    let mut endpoints = endpoints;
    let ghost listed = endpoints_view(endpoints@);
    let ghost wanted = leveled(listed, priority);
    let mut i: usize = 0;
    assert(wanted.take(0) + listed.skip(0) =~= listed);
    while i < endpoints.len()
        invariant
            i <= endpoints@.len() == listed.len(),
            wanted == leveled(listed, priority),
            endpoints_view(endpoints@) == wanted.take(i as int) + listed.skip(i as int),
        decreases endpoints.len() - i,
    {
        let ghost before = endpoints@;
        assert(endpoints_view(before)[i as int] == listed[i as int]);
        endpoints[i].priority = priority;
        assert(endpoints@[i as int]@ =~= wanted[i as int]);
        assert(endpoints_view(endpoints@) =~= endpoints_view(before).update(
            i as int,
            wanted[i as int],
        ));
        assert(endpoints_view(endpoints@) =~= wanted.take(i + 1) + listed.skip(i + 1));
        i += 1;
    }
    assert(endpoints_view(endpoints@) =~= wanted);
    endpoints
}

/// The preset's endpoints as peers at equal priority, or `None` if unknown.
/// Takes the same names as `config_for`.
pub fn peers_for(name: &str) -> (r: Option<RpcPoolConfig>)
    ensures
        match preset_urls(name@) {
            Some(urls) => r matches Some(config) && config@ == ConfigView::with_endpoints(
                leveled(listed(urls), 0),
            ),
            None => r is None,
        },
{
    match endpoints_for(name) {
        Some(endpoints) => Some(RpcPoolConfig::with_endpoints(level(endpoints, 0))),
        None => None,
    }
}

/// The list has URLs, none of them blank and none of them twice.
pub open spec fn sound_urls(labelled_urls: Seq<(Seq<char>, Seq<char>)>) -> bool {
    &&& labelled_urls.len() > 0
    &&& forall|i: int|
        0 <= i < labelled_urls.len() ==> !is_blank((#[trigger] labelled_urls[i]).1)
    &&& forall|i: int, j: int|
        0 <= i < j < labelled_urls.len() ==> (#[trigger] labelled_urls[i]).1 != (
        #[trigger] labelled_urls[j]).1
}

proof fn lemma_not_blank(url: Seq<char>)
    requires
        url.len() > 0,
        url[0] == 'h',
    ensures
        !is_blank(url),
{
    assert(!is_white_space(url[0]));
}

proof fn lemma_base_urls_are_sound()
    ensures
        sound_urls(base_urls()),
{
    reveal_strlit("https://mainnet.base.org");
    reveal_strlit("https://base-rpc.publicnode.com");
    reveal_strlit("https://1rpc.io/base");
    reveal_strlit("https://base.llamarpc.com");
    reveal_strlit("https://base.blockpi.network/v1/rpc/public");
    assert("https://mainnet.base.org"@.len() == 24);
    assert("https://base-rpc.publicnode.com"@.len() == 31);
    assert("https://1rpc.io/base"@.len() == 20);
    assert("https://base.llamarpc.com"@.len() == 25);
    assert("https://base.blockpi.network/v1/rpc/public"@.len() == 42);
    assert forall|i: int| 0 <= i < base_urls().len() implies !is_blank(
        (#[trigger] base_urls()[i]).1,
    ) by {
        lemma_not_blank(base_urls()[i].1);
    }
}

proof fn lemma_ethereum_urls_are_sound()
    ensures
        sound_urls(ethereum_urls()),
{
    reveal_strlit("https://eth.llamarpc.com");
    reveal_strlit("https://ethereum-rpc.publicnode.com");
    reveal_strlit("https://cloudflare-eth.com");
    reveal_strlit("https://ethereum.blockpi.network/v1/rpc/public");
    reveal_strlit("https://1rpc.io/eth");
    assert("https://eth.llamarpc.com"@.len() == 24);
    assert("https://ethereum-rpc.publicnode.com"@.len() == 35);
    assert("https://cloudflare-eth.com"@.len() == 26);
    assert("https://ethereum.blockpi.network/v1/rpc/public"@.len() == 46);
    assert("https://1rpc.io/eth"@.len() == 19);
    assert forall|i: int| 0 <= i < ethereum_urls().len() implies !is_blank(
        (#[trigger] ethereum_urls()[i]).1,
    ) by {
        lemma_not_blank(ethereum_urls()[i].1);
    }
}

proof fn lemma_arbitrum_urls_are_sound()
    ensures
        sound_urls(arbitrum_urls()),
{
    reveal_strlit("https://arb1.arbitrum.io/rpc");
    reveal_strlit("https://arbitrum.llamarpc.com");
    reveal_strlit("https://arbitrum-one-rpc.publicnode.com");
    reveal_strlit("https://1rpc.io/arb");
    assert("https://arb1.arbitrum.io/rpc"@.len() == 28);
    assert("https://arbitrum.llamarpc.com"@.len() == 29);
    assert("https://arbitrum-one-rpc.publicnode.com"@.len() == 39);
    assert("https://1rpc.io/arb"@.len() == 19);
    assert forall|i: int| 0 <= i < arbitrum_urls().len() implies !is_blank(
        (#[trigger] arbitrum_urls()[i]).1,
    ) by {
        lemma_not_blank(arbitrum_urls()[i].1);
    }
}

proof fn lemma_optimism_urls_are_sound()
    ensures
        sound_urls(optimism_urls()),
{
    reveal_strlit("https://mainnet.optimism.io");
    reveal_strlit("https://optimism.llamarpc.com");
    reveal_strlit("https://optimism-rpc.publicnode.com");
    reveal_strlit("https://1rpc.io/op");
    assert("https://mainnet.optimism.io"@.len() == 27);
    assert("https://optimism.llamarpc.com"@.len() == 29);
    assert("https://optimism-rpc.publicnode.com"@.len() == 35);
    assert("https://1rpc.io/op"@.len() == 18);
    assert forall|i: int| 0 <= i < optimism_urls().len() implies !is_blank(
        (#[trigger] optimism_urls()[i]).1,
    ) by {
        lemma_not_blank(optimism_urls()[i].1);
    }
}

proof fn lemma_polygon_urls_are_sound()
    ensures
        sound_urls(polygon_urls()),
{
    reveal_strlit("https://polygon-rpc.com");
    reveal_strlit("https://polygon.llamarpc.com");
    reveal_strlit("https://polygon-bor-rpc.publicnode.com");
    reveal_strlit("https://1rpc.io/matic");
    assert("https://polygon-rpc.com"@.len() == 23);
    assert("https://polygon.llamarpc.com"@.len() == 28);
    assert("https://polygon-bor-rpc.publicnode.com"@.len() == 38);
    assert("https://1rpc.io/matic"@.len() == 21);
    assert forall|i: int| 0 <= i < polygon_urls().len() implies !is_blank(
        (#[trigger] polygon_urls()[i]).1,
    ) by {
        lemma_not_blank(polygon_urls()[i].1);
    }
}

proof fn lemma_bnb_urls_are_sound()
    ensures
        sound_urls(bnb_urls()),
{
    reveal_strlit("https://bsc-dataseed.bnbchain.org");
    reveal_strlit("https://bsc-rpc.publicnode.com");
    reveal_strlit("https://binance.llamarpc.com");
    reveal_strlit("https://1rpc.io/bnb");
    assert("https://bsc-dataseed.bnbchain.org"@.len() == 33);
    assert("https://bsc-rpc.publicnode.com"@.len() == 30);
    assert("https://binance.llamarpc.com"@.len() == 28);
    assert("https://1rpc.io/bnb"@.len() == 19);
    assert forall|i: int| 0 <= i < bnb_urls().len() implies !is_blank(
        (#[trigger] bnb_urls()[i]).1,
    ) by {
        lemma_not_blank(bnb_urls()[i].1);
    }
}

proof fn lemma_listed_is_valid(labelled_urls: Seq<(Seq<char>, Seq<char>)>)
    requires
        sound_urls(labelled_urls),
    ensures
        ConfigView::with_endpoints(listed(labelled_urls)).fault() is None,
        ConfigView::with_endpoints(leveled(listed(labelled_urls), 0)).fault() is None,
{
    let ranked = listed(labelled_urls);
    let peers = leveled(ranked, 0);
    assert forall|k: int| 0 <= k < ranked.len() implies (#[trigger] ranked[k]).url
        == labelled_urls[k].1 by {}
    assert forall|k: int| 0 <= k < peers.len() implies (#[trigger] peers[k]).url
        == labelled_urls[k].1 by {}
    law_valid_configuration(ConfigView::with_endpoints(ranked));
    law_valid_configuration(ConfigView::with_endpoints(peers));
}

/// Every preset, by whatever name it is asked for, is a valid configuration: it
/// has endpoints, and their URLs are neither blank nor repeated.
pub proof fn law_every_preset_is_valid(name: Seq<char>)
    ensures
        preset_urls(name) matches Some(urls) ==> {
            &&& ConfigView::with_endpoints(listed(urls)).fault() is None
            &&& ConfigView::with_endpoints(leveled(listed(urls), 0)).fault() is None
        },
{
    if let Some(urls) = preset_urls(name) {
        lemma_base_urls_are_sound();
        lemma_ethereum_urls_are_sound();
        lemma_arbitrum_urls_are_sound();
        lemma_optimism_urls_are_sound();
        lemma_polygon_urls_are_sound();
        lemma_bnb_urls_are_sound();
        lemma_listed_is_valid(urls);
    }
}

/// Every canonical name is a preset.
pub proof fn law_every_listed_name_is_a_preset(i: int)
    requires
        0 <= i < preset_names().len(),
    ensures
        preset_urls(preset_names()[i]) is Some,
{
    reveal_strlit("base");
    reveal_strlit("ethereum");
    reveal_strlit("arbitrum");
    reveal_strlit("optimism");
    reveal_strlit("polygon");
    reveal_strlit("bnb");
    let name = preset_names()[i];
    assert(name.len() > 0);
    assert(!is_white_space(name[0]) && !is_white_space(name.last()));
    assert(trimmed_start(name) == name);
    assert(trimmed_end(name) == name);
    assert(ascii_lowered(name) =~= name);
}

/// The tag that a chain's endpoints are labelled with, for each name that the
/// chain goes by.
pub open spec fn chain_tag(key: Seq<char>) -> Option<Seq<char>> {
    if key == "base"@ {
        Some("base-"@)
    } else if key == "eth"@ || key == "ethereum"@ || key == "mainnet"@ {
        Some("eth-"@)
    } else if key == "arb"@ || key == "arbitrum"@ {
        Some("arb-"@)
    } else if key == "op"@ || key == "optimism"@ {
        Some("op-"@)
    } else if key == "matic"@ || key == "polygon"@ {
        Some("polygon-"@)
    } else if key == "bnb"@ || key == "bsc"@ {
        Some("bnb-"@)
    } else {
        None
    }
}

/// One of the endpoints is labelled with `tag` and `provider`, and its URL lies
/// at `host`.
pub open spec fn offers(
    labelled_urls: Seq<(Seq<char>, Seq<char>)>,
    tag: Seq<char>,
    provider: Seq<char>,
    host: Seq<char>,
) -> bool {
    exists|i: int|
        0 <= i < labelled_urls.len() && (#[trigger] labelled_urls[i]).0 == tag + provider && (
        host.is_prefix_of(labelled_urls[i].1) || host.is_suffix_of(labelled_urls[i].1))
}

/// Every endpoint carries the chain's tag and a secure URL, and the public
/// providers that serve every chain are among them.
pub open spec fn serves_chain(
    labelled_urls: Seq<(Seq<char>, Seq<char>)>,
    tag: Seq<char>,
) -> bool {
    &&& labelled_urls.len() >= 4
    &&& forall|i: int|
        0 <= i < labelled_urls.len() ==> tag.is_prefix_of((#[trigger] labelled_urls[i]).0)
            && "https://"@.is_prefix_of(labelled_urls[i].1)
    &&& offers(labelled_urls, tag, "publicnode"@, "publicnode.com"@)
    &&& offers(labelled_urls, tag, "llamarpc"@, "llamarpc.com"@)
    &&& offers(labelled_urls, tag, "1rpc"@, "https://1rpc.io/"@)
}

proof fn lemma_base_urls_serve_their_chain()
    ensures
        serves_chain(base_urls(), "base-"@),
{
    let urls = base_urls();
    let tag = "base-"@;
    reveal_strlit("base-");
    reveal_strlit("https://");
    reveal_strlit("publicnode");
    reveal_strlit("publicnode.com");
    reveal_strlit("llamarpc");
    reveal_strlit("llamarpc.com");
    reveal_strlit("1rpc");
    reveal_strlit("https://1rpc.io/");
    reveal_strlit("base-official");
    reveal_strlit("https://mainnet.base.org");
    reveal_strlit("base-publicnode");
    reveal_strlit("https://base-rpc.publicnode.com");
    reveal_strlit("base-1rpc");
    reveal_strlit("https://1rpc.io/base");
    reveal_strlit("base-llamarpc");
    reveal_strlit("https://base.llamarpc.com");
    reveal_strlit("base-blockpi");
    reveal_strlit("https://base.blockpi.network/v1/rpc/public");
    assert(tag.is_prefix_of(urls[0].0) && "https://"@.is_prefix_of(urls[0].1));
    assert(tag.is_prefix_of(urls[1].0) && "https://"@.is_prefix_of(urls[1].1));
    assert(tag.is_prefix_of(urls[2].0) && "https://"@.is_prefix_of(urls[2].1));
    assert(tag.is_prefix_of(urls[3].0) && "https://"@.is_prefix_of(urls[3].1));
    assert(tag.is_prefix_of(urls[4].0) && "https://"@.is_prefix_of(urls[4].1));
    assert(urls[1].0 =~= tag + "publicnode"@);
    assert("publicnode.com"@.is_suffix_of(urls[1].1));
    assert(urls[2].0 =~= tag + "1rpc"@);
    assert("https://1rpc.io/"@.is_prefix_of(urls[2].1));
    assert(urls[3].0 =~= tag + "llamarpc"@);
    assert("llamarpc.com"@.is_suffix_of(urls[3].1));
}

proof fn lemma_ethereum_urls_serve_their_chain()
    ensures
        serves_chain(ethereum_urls(), "eth-"@),
{
    let urls = ethereum_urls();
    let tag = "eth-"@;
    reveal_strlit("eth-");
    reveal_strlit("https://");
    reveal_strlit("publicnode");
    reveal_strlit("publicnode.com");
    reveal_strlit("llamarpc");
    reveal_strlit("llamarpc.com");
    reveal_strlit("1rpc");
    reveal_strlit("https://1rpc.io/");
    reveal_strlit("eth-llamarpc");
    reveal_strlit("https://eth.llamarpc.com");
    reveal_strlit("eth-publicnode");
    reveal_strlit("https://ethereum-rpc.publicnode.com");
    reveal_strlit("eth-cloudflare");
    reveal_strlit("https://cloudflare-eth.com");
    reveal_strlit("eth-blockpi");
    reveal_strlit("https://ethereum.blockpi.network/v1/rpc/public");
    reveal_strlit("eth-1rpc");
    reveal_strlit("https://1rpc.io/eth");
    assert(tag.is_prefix_of(urls[0].0) && "https://"@.is_prefix_of(urls[0].1));
    assert(tag.is_prefix_of(urls[1].0) && "https://"@.is_prefix_of(urls[1].1));
    assert(tag.is_prefix_of(urls[2].0) && "https://"@.is_prefix_of(urls[2].1));
    assert(tag.is_prefix_of(urls[3].0) && "https://"@.is_prefix_of(urls[3].1));
    assert(tag.is_prefix_of(urls[4].0) && "https://"@.is_prefix_of(urls[4].1));
    assert(urls[0].0 =~= tag + "llamarpc"@);
    assert("llamarpc.com"@.is_suffix_of(urls[0].1));
    assert(urls[1].0 =~= tag + "publicnode"@);
    assert("publicnode.com"@.is_suffix_of(urls[1].1));
    assert(urls[4].0 =~= tag + "1rpc"@);
    assert("https://1rpc.io/"@.is_prefix_of(urls[4].1));
}

proof fn lemma_arbitrum_urls_serve_their_chain()
    ensures
        serves_chain(arbitrum_urls(), "arb-"@),
{
    let urls = arbitrum_urls();
    let tag = "arb-"@;
    reveal_strlit("arb-");
    reveal_strlit("https://");
    reveal_strlit("publicnode");
    reveal_strlit("publicnode.com");
    reveal_strlit("llamarpc");
    reveal_strlit("llamarpc.com");
    reveal_strlit("1rpc");
    reveal_strlit("https://1rpc.io/");
    reveal_strlit("arb-official");
    reveal_strlit("https://arb1.arbitrum.io/rpc");
    reveal_strlit("arb-llamarpc");
    reveal_strlit("https://arbitrum.llamarpc.com");
    reveal_strlit("arb-publicnode");
    reveal_strlit("https://arbitrum-one-rpc.publicnode.com");
    reveal_strlit("arb-1rpc");
    reveal_strlit("https://1rpc.io/arb");
    assert(tag.is_prefix_of(urls[0].0) && "https://"@.is_prefix_of(urls[0].1));
    assert(tag.is_prefix_of(urls[1].0) && "https://"@.is_prefix_of(urls[1].1));
    assert(tag.is_prefix_of(urls[2].0) && "https://"@.is_prefix_of(urls[2].1));
    assert(tag.is_prefix_of(urls[3].0) && "https://"@.is_prefix_of(urls[3].1));
    assert(urls[1].0 =~= tag + "llamarpc"@);
    assert("llamarpc.com"@.is_suffix_of(urls[1].1));
    assert(urls[2].0 =~= tag + "publicnode"@);
    assert("publicnode.com"@.is_suffix_of(urls[2].1));
    assert(urls[3].0 =~= tag + "1rpc"@);
    assert("https://1rpc.io/"@.is_prefix_of(urls[3].1));
}

proof fn lemma_optimism_urls_serve_their_chain()
    ensures
        serves_chain(optimism_urls(), "op-"@),
{
    let urls = optimism_urls();
    let tag = "op-"@;
    reveal_strlit("op-");
    reveal_strlit("https://");
    reveal_strlit("publicnode");
    reveal_strlit("publicnode.com");
    reveal_strlit("llamarpc");
    reveal_strlit("llamarpc.com");
    reveal_strlit("1rpc");
    reveal_strlit("https://1rpc.io/");
    reveal_strlit("op-official");
    reveal_strlit("https://mainnet.optimism.io");
    reveal_strlit("op-llamarpc");
    reveal_strlit("https://optimism.llamarpc.com");
    reveal_strlit("op-publicnode");
    reveal_strlit("https://optimism-rpc.publicnode.com");
    reveal_strlit("op-1rpc");
    reveal_strlit("https://1rpc.io/op");
    assert(tag.is_prefix_of(urls[0].0) && "https://"@.is_prefix_of(urls[0].1));
    assert(tag.is_prefix_of(urls[1].0) && "https://"@.is_prefix_of(urls[1].1));
    assert(tag.is_prefix_of(urls[2].0) && "https://"@.is_prefix_of(urls[2].1));
    assert(tag.is_prefix_of(urls[3].0) && "https://"@.is_prefix_of(urls[3].1));
    assert(urls[1].0 =~= tag + "llamarpc"@);
    assert("llamarpc.com"@.is_suffix_of(urls[1].1));
    assert(urls[2].0 =~= tag + "publicnode"@);
    assert("publicnode.com"@.is_suffix_of(urls[2].1));
    assert(urls[3].0 =~= tag + "1rpc"@);
    assert("https://1rpc.io/"@.is_prefix_of(urls[3].1));
}

proof fn lemma_polygon_urls_serve_their_chain()
    ensures
        serves_chain(polygon_urls(), "polygon-"@),
{
    let urls = polygon_urls();
    let tag = "polygon-"@;
    reveal_strlit("polygon-");
    reveal_strlit("https://");
    reveal_strlit("publicnode");
    reveal_strlit("publicnode.com");
    reveal_strlit("llamarpc");
    reveal_strlit("llamarpc.com");
    reveal_strlit("1rpc");
    reveal_strlit("https://1rpc.io/");
    reveal_strlit("polygon-official");
    reveal_strlit("https://polygon-rpc.com");
    reveal_strlit("polygon-llamarpc");
    reveal_strlit("https://polygon.llamarpc.com");
    reveal_strlit("polygon-publicnode");
    reveal_strlit("https://polygon-bor-rpc.publicnode.com");
    reveal_strlit("polygon-1rpc");
    reveal_strlit("https://1rpc.io/matic");
    assert(tag.is_prefix_of(urls[0].0) && "https://"@.is_prefix_of(urls[0].1));
    assert(tag.is_prefix_of(urls[1].0) && "https://"@.is_prefix_of(urls[1].1));
    assert(tag.is_prefix_of(urls[2].0) && "https://"@.is_prefix_of(urls[2].1));
    assert(tag.is_prefix_of(urls[3].0) && "https://"@.is_prefix_of(urls[3].1));
    assert(urls[1].0 =~= tag + "llamarpc"@);
    assert("llamarpc.com"@.is_suffix_of(urls[1].1));
    assert(urls[2].0 =~= tag + "publicnode"@);
    assert("publicnode.com"@.is_suffix_of(urls[2].1));
    assert(urls[3].0 =~= tag + "1rpc"@);
    assert("https://1rpc.io/"@.is_prefix_of(urls[3].1));
}

proof fn lemma_bnb_urls_serve_their_chain()
    ensures
        serves_chain(bnb_urls(), "bnb-"@),
{
    let urls = bnb_urls();
    let tag = "bnb-"@;
    reveal_strlit("bnb-");
    reveal_strlit("https://");
    reveal_strlit("publicnode");
    reveal_strlit("publicnode.com");
    reveal_strlit("llamarpc");
    reveal_strlit("llamarpc.com");
    reveal_strlit("1rpc");
    reveal_strlit("https://1rpc.io/");
    reveal_strlit("bnb-official");
    reveal_strlit("https://bsc-dataseed.bnbchain.org");
    reveal_strlit("bnb-publicnode");
    reveal_strlit("https://bsc-rpc.publicnode.com");
    reveal_strlit("bnb-llamarpc");
    reveal_strlit("https://binance.llamarpc.com");
    reveal_strlit("bnb-1rpc");
    reveal_strlit("https://1rpc.io/bnb");
    assert(tag.is_prefix_of(urls[0].0) && "https://"@.is_prefix_of(urls[0].1));
    assert(tag.is_prefix_of(urls[1].0) && "https://"@.is_prefix_of(urls[1].1));
    assert(tag.is_prefix_of(urls[2].0) && "https://"@.is_prefix_of(urls[2].1));
    assert(tag.is_prefix_of(urls[3].0) && "https://"@.is_prefix_of(urls[3].1));
    assert(urls[1].0 =~= tag + "publicnode"@);
    assert("publicnode.com"@.is_suffix_of(urls[1].1));
    assert(urls[2].0 =~= tag + "llamarpc"@);
    assert("llamarpc.com"@.is_suffix_of(urls[2].1));
    assert(urls[3].0 =~= tag + "1rpc"@);
    assert("https://1rpc.io/"@.is_prefix_of(urls[3].1));
}

/// What a name stands for, with white space around it and in any case: each of
/// the names of a chain gives that chain's own endpoints, over secure transport
/// and with the providers that serve every chain among them, and no other name
/// gives any.
pub proof fn law_names_of_a_chain_give_its_endpoints(name: Seq<char>)
    ensures
        match chain_tag(ascii_lowered(trimmed(name))) {
            Some(tag) => preset_urls(name) matches Some(urls) && serves_chain(urls, tag),
            None => preset_urls(name) is None,
        },
{
    lemma_base_urls_serve_their_chain();
    lemma_ethereum_urls_serve_their_chain();
    lemma_arbitrum_urls_serve_their_chain();
    lemma_optimism_urls_serve_their_chain();
    lemma_polygon_urls_serve_their_chain();
    lemma_bnb_urls_serve_their_chain();
}

/// A preset is a ranking: the endpoint at `i` has the label and URL at `i` and
/// priority `i`, and is otherwise unrestricted.
pub proof fn law_preset_is_a_ranking(labelled_urls: Seq<(Seq<char>, Seq<char>)>, i: int)
    requires
        0 <= i < labelled_urls.len() <= u32::MAX,
    ensures
        listed(labelled_urls).len() == labelled_urls.len(),
        ({
            let endpoint = listed(labelled_urls)[i];
            &&& endpoint.label == Some(labelled_urls[i].0)
            &&& endpoint.tag() == labelled_urls[i].0
            &&& endpoint.url == labelled_urls[i].1
            &&& endpoint.priority == i
            &&& endpoint.capabilities.len() == 0
            &&& endpoint.max_rps is None
            &&& endpoint.max_in_flight is None
            &&& endpoint.auth.headers().len() == 0
        }),
{
}

/// Peers differ from the list they come from in nothing but their priority,
/// which is the same for all.
pub proof fn law_peers_differ_in_priority_alone(
    endpoints: Seq<EndpointView>,
    priority: u32,
    i: int,
)
    requires
        0 <= i < endpoints.len(),
    ensures
        leveled(endpoints, priority).len() == endpoints.len(),
        ({
            let peer = leveled(endpoints, priority)[i];
            let own = endpoints[i];
            &&& peer.priority == priority
            &&& peer.url == own.url
            &&& peer.label == own.label
            &&& peer.capabilities == own.capabilities
            &&& peer.max_rps == own.max_rps
            &&& peer.max_in_flight == own.max_in_flight
            &&& peer.auth == own.auth
        }),
{
}

/// Each label and URL given as a literal is listed as its text.
pub proof fn law_literals_are_listed_as_texts(labelled_urls: Seq<(&str, &str)>, i: int)
    requires
        0 <= i < labelled_urls.len(),
    ensures
        texts(labelled_urls).len() == labelled_urls.len(),
        texts(labelled_urls)[i].0 == labelled_urls[i].0@,
        texts(labelled_urls)[i].1 == labelled_urls[i].1@,
{
}

} // verus!
