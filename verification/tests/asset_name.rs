use caip::asset_name::{parse_asset_name, AssetName, AssetNameError};
use std::str::FromStr;

#[test]
fn valid_asset_name() {
    let name = AssetName::from_str("slip44:563");
    let name = name.unwrap();
    assert_eq!((name.namespace(), name.reference()), ("slip44", "563"))
}

#[test]
fn invalid_asset_name_shape() {
    assert_eq!(parse_asset_name("s:1").unwrap_err(), AssetNameError::InvalidName);
    assert_eq!(parse_asset_name("slip44563").unwrap_err(), AssetNameError::InvalidName);
    assert_eq!(parse_asset_name("slip44:563:1").unwrap_err(), AssetNameError::InvalidName);
    assert_eq!(parse_asset_name("slip44:5_63").unwrap_err(), AssetNameError::InvalidName);
}

#[test]
fn invalid_asset_name_namespace() {
    assert_eq!(parse_asset_name("sl:563").unwrap_err(), AssetNameError::InvalidNamespace);
    assert_eq!(parse_asset_name("Slip44:563").unwrap_err(), AssetNameError::InvalidNamespace);
    assert_eq!(parse_asset_name("slip44444:563").unwrap_err(), AssetNameError::InvalidNamespace);
}

#[test]
fn invalid_asset_name_reference() {
    assert_eq!(parse_asset_name("slip44:").unwrap_err(), AssetNameError::InvalidReference);
    let text = format!("erc:{}", "f".repeat(65));
    assert_eq!(text.len(), 69);
    assert_eq!(parse_asset_name(&text).unwrap_err(), AssetNameError::InvalidReference);
}

#[test]
fn asset_name_length_bounds() {
    let reference = "F".repeat(64);
    let longest = parse_asset_name(&format!("abcdefgh:{}", reference)).unwrap();
    assert_eq!((longest.namespace(), longest.reference()), ("abcdefgh", reference.as_str()));
    let too_long = format!("abcdefgh:{}", "F".repeat(65));
    assert_eq!(too_long.len(), 74);
    assert_eq!(parse_asset_name(&too_long).unwrap_err(), AssetNameError::InvalidName);
    let shortest = parse_asset_name("erc:0").unwrap();
    assert_eq!((shortest.namespace(), shortest.reference()), ("erc", "0"));
}

#[test]
fn asset_name_round_trip() {
    let text = "erc721:0x06012c8cf97BEaD5deAe237070F9587f8E7A266d";
    let name = parse_asset_name(text).unwrap();
    assert_eq!(format!("{}:{}", name.namespace(), name.reference()), text);
    assert_eq!(AssetName::from_str(text).unwrap(), name);
}
