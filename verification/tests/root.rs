use caip::{ChainId, ChainIdError};
use std::str::FromStr;

#[test]
fn lib_valid_chain_id() {
    let id = ChainId::from_str("cosmos:stargaze-3");
    let id = id.unwrap();
    assert_eq!((id.namespace(), id.reference()), ("cosmos", "stargaze-3"))
}

#[test]
fn invalid_chain_id() {
    let id = ChainId::from_str("cosmos:stargaze-3:invalid");
    assert_eq!(id.unwrap_err(), ChainIdError::InvalidChainId)
}

#[test]
fn root_parsers_agree_with_from_str() {
    assert_eq!(caip::parse_chain_id("eip155:1"), ChainId::from_str("eip155:1"));
    assert_eq!(caip::parse_chain_id("eip155"), ChainId::from_str("eip155"));
    assert_eq!("eip155:1".parse::<ChainId>(), caip::parse_chain_id("eip155:1"));
}
