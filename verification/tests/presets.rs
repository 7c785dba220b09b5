use drm3_rpc_pool::presets::{
    arbitrum, base, bnb, config_for, endpoints_for, ethereum, names, optimism, peers_for, polygon,
};
use drm3_rpc_pool::starter::{starter_config, starter_document};

#[test]
fn all_presets_nonempty_and_valid() {
    for name in names() {
        let cfg = config_for(name).unwrap_or_else(|| panic!("preset {name} missing"));
        assert!(!cfg.endpoints.is_empty(), "{name} has no endpoints");
        cfg.validate()
            .unwrap_or_else(|e| panic!("preset {name} invalid: {}", e.to_string()));
    }
}

#[test]
fn aliases_resolve() {
    assert!(config_for("eth").is_some());
    assert!(config_for("ARB").is_some());
    assert!(config_for("matic").is_some());
    assert!(config_for("bsc").is_some());
    assert!(config_for("nope").is_none());
}

#[test]
fn priorities_are_ordered_and_labeled() {
    let eps = base();
    for (i, ep) in eps.iter().enumerate() {
        assert_eq!(ep.priority, i as u32);
        assert!(ep.label.is_some());
    }
}

#[test]
fn every_name_finds_its_list() {
    let first = |name: &str| endpoints_for(name).unwrap()[0].url.clone();
    assert_eq!(first(" Base\n"), "https://mainnet.base.org");
    assert_eq!(first("mainnet"), "https://eth.llamarpc.com");
    assert_eq!(first("Ethereum"), "https://eth.llamarpc.com");
    assert_eq!(first("arbitrum"), "https://arb1.arbitrum.io/rpc");
    assert_eq!(first("OP"), "https://mainnet.optimism.io");
    assert_eq!(first("optimism"), "https://mainnet.optimism.io");
    assert_eq!(first("polygon"), "https://polygon-rpc.com");
    assert_eq!(first("bnb"), "https://bsc-dataseed.bnbchain.org");
    assert!(endpoints_for("").is_none());
    assert!(endpoints_for("ba se").is_none());
}

#[test]
fn lists_have_their_sizes() {
    let sizes = [
        base().len(),
        ethereum().len(),
        arbitrum().len(),
        optimism().len(),
        polygon().len(),
        bnb().len(),
    ];
    assert_eq!(sizes, [5, 5, 4, 4, 4, 4]);
    assert_eq!(base()[4].label.as_deref(), Some("base-blockpi"));
    assert_eq!(bnb()[3].url, "https://1rpc.io/bnb");
}

#[test]
fn peers_share_one_priority() {
    let cfg = peers_for("base").unwrap();
    assert_eq!(cfg.endpoints.len(), 5);
    assert!(cfg.endpoints.iter().all(|e| e.priority == 0));
    assert!(cfg.validate().is_ok());
    assert!(peers_for("nope").is_none());
}

#[test]
fn starter_leaves_the_first_priority_free() {
    let cfg = starter_config("op").unwrap();
    assert_eq!(cfg.endpoints.len(), 4);
    assert!(cfg.endpoints.iter().all(|e| e.priority == 1));
    assert_eq!(
        starter_config("no\"pe").unwrap_err(),
        "unknown chain \"no\\\"pe\". known presets: base, ethereum, arbitrum, optimism, polygon, bnb"
    );
}

#[test]
fn starter_document_is_commented_toml() {
    let document = starter_document("base", "listen = \"127.0.0.1:8545\"\n");
    assert!(document.starts_with("# drm3-rpc-pool starter config for `base`.\n"));
    assert!(document.contains(
        "#   url = \"https://base-mainnet.g.alchemy.com/v2/${ALCHEMY_KEY}\"\n"
    ));
    assert!(document.ends_with("#\n\nlisten = \"127.0.0.1:8545\"\n"));
    let table: toml::Table = toml::from_str(&document).unwrap();
    assert_eq!(table.len(), 1);
}
