//! The starter configuration that `init` writes.

use vstd::prelude::*;

use crate::config::{ConfigView, RpcPoolConfig};
use crate::env::{quote_literal, quoted_literal};
use crate::presets::{level, leveled, listed, names, peers_for, preset_names, preset_urls};

verus! {

/// Texts with a separator between them.
pub open spec fn joined(texts: Seq<Seq<char>>, separator: Seq<char>) -> Seq<char>
    decreases texts.len(),
{
    if texts.len() == 0 {
        seq![]
    } else if texts.len() == 1 {
        texts[0]
    } else {
        joined(texts.drop_last(), separator) + separator + texts.last()
    }
}

/// The complaint about a chain that there is no preset for.
pub open spec fn unknown_chain(chain: Seq<char>) -> Seq<char> {
    "unknown chain "@ + quoted_literal(chain) + ". known presets: "@ + joined(
        preset_names(),
        ", "@,
    )
}

/// The starter configuration for `chain`. Public endpoints are peers at
/// priority 1; priority 0 is left free for a preferred keyed provider the user
/// may add.
pub fn starter_config(chain: &str) -> (r: Result<RpcPoolConfig, String>)
    ensures
        match preset_urls(chain@) {
            Some(urls) => r matches Ok(config) && config@ == ConfigView::with_endpoints(
                leveled(listed(urls), 1),
            ),
            None => r matches Err(m) && m@ == unknown_chain(chain@),
        },
{
    match peers_for(chain) {
        Some(config) => {
            let mut config = config;
            let mut endpoints = Vec::new();
            std::mem::swap(&mut endpoints, &mut config.endpoints);
            config.endpoints = level(endpoints, 1);
            proof {
                let urls = preset_urls(chain@)->0;
                assert(leveled(leveled(listed(urls), 0), 1) =~= leveled(listed(urls), 1));
            }
            Ok(config)
        },
        None => {
            let mut message = "unknown chain ".to_owned();
            message.append(quote_literal(chain).as_str());
            message.append(". known presets: ");
            let known = names();
            let ghost shown = message@;
            let ghost texts = preset_names();
            let mut i: usize = 0;
            assert(texts.take(0) =~= seq![]);
            assert(shown + joined(texts.take(0), ", "@) =~= shown);
            while i < known.len()
                invariant
                    i <= known@.len(),
                    texts == known@.map_values(|name: &'static str| name@),
                    message@ == shown + joined(texts.take(i as int), ", "@),
                decreases known.len() - i,
            {
                assert(texts.take(i + 1).drop_last() =~= texts.take(i as int));
                if i > 0 {
                    message.append(", ");
                }
                message.append(known[i]);
                assert(message@ =~= shown + joined(texts.take(i + 1), ", "@));
                i += 1;
            }
            assert(texts.take(i as int) =~= texts);
            Err(message)
        },
    }
}

/// The explanation at the top of a starter configuration.
pub open spec fn header_text(chain: Seq<char>) -> Seq<char> {
    "# drm3-rpc-pool starter config for `"@ + chain
        + "`.\n# The endpoints below are free public RPCs at equal `priority` (peers):\n# the pool spreads load across them and fails over between them. Runs\n# as-is, no key required.\n#\n# To prefer your own keyed provider, add it at `priority = 0` (above the\n# peers) with an optional `max_in_flight` cap, so bursts spill onto the\n# free peers instead of your bill. Keep secrets in the environment via\n# ${ENV_VAR} templating:\n#\n#   [[endpoints]]\n#   url = \"https://"@
        + chain
        + "-mainnet.g.alchemy.com/v2/${ALCHEMY_KEY}\"\n#   priority = 0\n#   max_in_flight = 50\n#   auth = { type = \"url_key\" }\n#\n"@
}

/// The whole document: the explanation, an empty line, and the configuration
/// `body` in TOML.
pub fn starter_document(chain: &str, body: &str) -> (r: String)
    ensures
        r@ == header_text(chain@) + "\n"@ + body@,
{
    let mut out = "# drm3-rpc-pool starter config for `".to_owned();
    out.append(chain);
    out.append("`.\n# The endpoints below are free public RPCs at equal `priority` (peers):\n# the pool spreads load across them and fails over between them. Runs\n# as-is, no key required.\n#\n# To prefer your own keyed provider, add it at `priority = 0` (above the\n# peers) with an optional `max_in_flight` cap, so bursts spill onto the\n# free peers instead of your bill. Keep secrets in the environment via\n# ${ENV_VAR} templating:\n#\n#   [[endpoints]]\n#   url = \"https://");
    out.append(chain);
    out.append("-mainnet.g.alchemy.com/v2/${ALCHEMY_KEY}\"\n#   priority = 0\n#   max_in_flight = 50\n#   auth = { type = \"url_key\" }\n#\n");
    out.append("\n");
    out.append(body);
    out
}

/// A text stands between each two of a list that are joined, and the texts
/// themselves stand there in full.
pub proof fn law_joining_separates(texts: Seq<Seq<char>>, next: Seq<char>, separator: Seq<char>)
    ensures
        joined(seq![], separator) == Seq::<char>::empty(),
        joined(seq![next], separator) == next,
        texts.len() > 0 ==> joined(texts.push(next), separator) == joined(texts, separator)
            + separator + next,
{
    assert(texts.push(next).drop_last() =~= texts);
}

/// The complaint about an unknown chain quotes it and lists every preset.
pub proof fn law_unknown_chain_is_told_the_presets(chain: Seq<char>)
    ensures
        unknown_chain(chain) == "unknown chain "@ + quoted_literal(chain)
            + ". known presets: base, ethereum, arbitrum, optimism, polygon, bnb"@,
{
    let names = preset_names();
    reveal_strlit(", ");
    reveal_strlit("base");
    reveal_strlit("ethereum");
    reveal_strlit("arbitrum");
    reveal_strlit("optimism");
    reveal_strlit("polygon");
    reveal_strlit("bnb");
    reveal_strlit(". known presets: ");
    reveal_strlit(". known presets: base, ethereum, arbitrum, optimism, polygon, bnb");
    assert(names.drop_last() =~= seq!["base"@, "ethereum"@, "arbitrum"@, "optimism"@, "polygon"@]);
    assert(names.drop_last().drop_last() =~= seq![
        "base"@,
        "ethereum"@,
        "arbitrum"@,
        "optimism"@,
    ]);
    let three = names.drop_last().drop_last().drop_last();
    assert(three =~= seq!["base"@, "ethereum"@, "arbitrum"@]);
    assert(three.drop_last() =~= seq!["base"@, "ethereum"@]);
    assert(three.drop_last().drop_last() =~= seq!["base"@]);
    reveal_with_fuel(joined, 7);
    let list = "base"@ + ", "@ + "ethereum"@ + ", "@ + "arbitrum"@ + ", "@ + "optimism"@ + ", "@
        + "polygon"@ + ", "@ + "bnb"@;
    assert(joined(names, ", "@) == list);
    assert(". known presets: "@ + list
        =~= ". known presets: base, ethereum, arbitrum, optimism, polygon, bnb"@);
    let start = "unknown chain "@ + quoted_literal(chain);
    assert(start + ". known presets: "@ + list =~= start + (". known presets: "@ + list));
}

/// The starter configuration of a known chain is its preset with every endpoint
/// at priority 1, which leaves priority 0 free: the labels and URLs are those of
/// the preset, in its order, and nothing else is set. No other chain has one.
pub proof fn law_starter_endpoints_are_peers(
    chain: &str,
    made: Result<RpcPoolConfig, String>,
    i: int,
)
    requires
        call_ensures(starter_config, (chain,), made),
    ensures
        made is Ok <==> preset_urls(chain@) is Some,
        made matches Err(words) ==> words@ == unknown_chain(chain@),
        made matches Ok(config) ==> {
            let urls = preset_urls(chain@)->0;
            let endpoint = config@.endpoints[i];
            &&& config@.endpoints.len() == urls.len()
            &&& config@.max_retries == 0
            &&& config@.request_timeout_ms is None
            &&& config@.listen == "127.0.0.1:8545"@
            &&& 0 <= i < urls.len() ==> {
                &&& endpoint.priority == 1
                &&& endpoint.label == Some(urls[i].0)
                &&& endpoint.url == urls[i].1
                &&& endpoint.capabilities.len() == 0
                &&& endpoint.max_rps is None
                &&& endpoint.max_in_flight is None
                &&& endpoint.auth.headers().len() == 0
            }
        },
{
}

/// The document names its chain in its first line, and
/// ends with the configuration as it was written.
pub proof fn law_document_names_its_chain(chain: &str, body: &str, document: String)
    requires
        call_ensures(starter_document, (chain, body), document),
    ensures
        ("# drm3-rpc-pool starter config for `"@ + chain@).is_prefix_of(document@),
        ("\n"@ + body@).is_suffix_of(document@),
{
    let start = "# drm3-rpc-pool starter config for `"@ + chain@;
    let end = "\n"@ + body@;
    assert(start =~= document@.subrange(0, start.len() as int));
    assert(end =~= document@.subrange(document@.len() - end.len(), document@.len() as int));
}

} // verus!
