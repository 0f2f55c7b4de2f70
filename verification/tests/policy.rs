use paygate::amount::Amount;
use paygate::asset::{check_address, resolve, AssetDeployment, Network, RegistryError};
use paygate::tag::{
    MaxEntry, PolicyDecision, PriceTag, PriceTagSet, PriceTagSetBuilder, TagSetError,
};

const EVM_PAYEE: &str = "0xf2757Fe8Ba90ad98dAed8e6254bA9A677069826a";
const SOL_PAYEE: &str = "11111111111111111111111111111112";

fn usdc(n: Network) -> AssetDeployment {
    resolve(&n, &b"USDC".to_vec()).unwrap()
}

fn tag(n: Network, units: u128, payee: &str) -> PriceTag {
    PriceTag::new(usdc(n), Amount::from_units(units).unwrap(), payee.as_bytes().to_vec())
        .unwrap()
}

#[test]
fn registry_knows_usdc_only() {
    let a = usdc(Network::Solana);
    assert_eq!(a.decimals, 6);
    assert_eq!(a.symbol, b"USDC".to_vec());
    let b = usdc(Network::BaseSepolia);
    assert_eq!(b.address, b"0x036CbD53842c5426634e7929541eC2318f3dCF7e".to_vec());
    assert!(matches!(
        resolve(&Network::Solana, &b"DAI".to_vec()),
        Err(RegistryError::UnknownAsset)
    ));
}

#[test]
fn address_formats_are_checked_per_network() {
    assert!(check_address(&Network::BaseSepolia, &EVM_PAYEE.as_bytes().to_vec()));
    assert!(check_address(&Network::Solana, &SOL_PAYEE.as_bytes().to_vec()));
    // wrong family, bad characters, bad lengths
    assert!(!check_address(&Network::BaseSepolia, &SOL_PAYEE.as_bytes().to_vec()));
    assert!(!check_address(&Network::Solana, &EVM_PAYEE.as_bytes().to_vec()));
    assert!(!check_address(&Network::BaseSepolia, &b"0x1234".to_vec()));
    assert!(!check_address(&Network::Solana, &b"l0O1".to_vec()));
}

#[test]
fn builder_requires_a_tag() {
    let b = PriceTagSetBuilder::new();
    assert!(matches!(b.build(), Err(TagSetError::EmptyPriceTagSet)));
}

#[test]
fn builder_rejects_ambiguous_sets() {
    let mut b = PriceTagSetBuilder::new();
    b.or_tag(tag(Network::Solana, 1_000, SOL_PAYEE));
    b.or_tag(tag(Network::Solana, 2_000, SOL_PAYEE));
    assert!(matches!(b.build(), Err(TagSetError::AmbiguousPriceTagSet)));
}

#[test]
fn prefer_puts_a_tag_first() {
    let mut b = PriceTagSetBuilder::new();
    b.or_tag(tag(Network::BaseSepolia, 1_000, EVM_PAYEE));
    b.prefer(tag(Network::Solana, 1_000, SOL_PAYEE));
    let s = b.build().unwrap();
    assert!(matches!(s.tags[0].asset.network, Network::Solana));
    assert!(matches!(s.tags[1].asset.network, Network::BaseSepolia));
}

fn banded_set() -> PriceTagSet {
    let mut b = PriceTagSetBuilder::new();
    b.or_tag(tag(Network::Solana, 1_000, SOL_PAYEE));
    b.with_max(MaxEntry {
        network: Network::Solana,
        address: usdc(Network::Solana).address,
        max: Amount::from_units(5_000).unwrap(),
    });
    b.build().unwrap()
}

#[test]
fn policy_accepts_the_exact_listed_amount() {
    let s = banded_set();
    assert_eq!(s.resolve_policy(&tag(Network::Solana, 1_000, SOL_PAYEE)), PolicyDecision::Accept);
}

#[test]
fn policy_rejects_one_unit_below_as_insufficient() {
    let s = banded_set();
    assert_eq!(
        s.resolve_policy(&tag(Network::Solana, 999, SOL_PAYEE)),
        PolicyDecision::RejectInsufficient
    );
}

#[test]
fn policy_rejects_one_unit_above_the_ceiling() {
    let s = banded_set();
    assert_eq!(
        s.resolve_policy(&tag(Network::Solana, 5_001, SOL_PAYEE)),
        PolicyDecision::RejectExceedsMax
    );
}

#[test]
fn policy_accepts_strictly_between_listed_and_ceiling() {
    let s = banded_set();
    assert_eq!(s.resolve_policy(&tag(Network::Solana, 3_000, SOL_PAYEE)), PolicyDecision::Accept);
    assert_eq!(s.resolve_policy(&tag(Network::Solana, 5_000, SOL_PAYEE)), PolicyDecision::Accept);
}

#[test]
fn policy_rejects_unlisted_instruments() {
    let s = banded_set();
    assert_eq!(
        s.resolve_policy(&tag(Network::BaseSepolia, 1_000, EVM_PAYEE)),
        PolicyDecision::RejectUnlisted
    );
}

#[test]
fn catalogue_entries_carry_their_fields() {
    let e = paygate::catalog::McpEntry::new(
        "files".to_string(),
        "https://files.example/mcp".to_string(),
        "1.2.0".to_string(),
        vec!["read".to_string(), "write".to_string()],
        "A file server".to_string(),
    );
    assert_eq!(e.name, "files");
    assert_eq!(e.capabilities.len(), 2);
    let q = paygate::catalog::DiscoverRequest {
        query: "I need to build a cool frontend".to_string(),
        filters: None,
        client_type: Some("native".to_string()),
    };
    assert_eq!(q.query.len(), 31);
}
