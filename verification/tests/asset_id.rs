use caip::asset_id::{parse_asset_id, AssetId, AssetIdError};
use caip::asset_name::AssetNameError;
use caip::asset_type::{AssetType, AssetTypeError};
use caip::chain::ChainIdError;
use std::str::FromStr;

#[test]
fn valid_asset_id_eth() {
    let asset_id =
        AssetId::from_str("eip155:1/erc721:0x06012c8cf97BEaD5deAe237070F9587f8E7A266d/771769");
    let asset_id = asset_id.unwrap();
    assert_eq!(
        (asset_id.asset_type(), asset_id.token_id()),
        (
            &AssetType::from_str("eip155:1/erc721:0x06012c8cf97BEaD5deAe237070F9587f8E7A266d")
                .unwrap(),
            "771769"
        )
    )
}

#[test]
fn valid_asset_id_stargaze() {
    let asset_id = AssetId::from_str(
        "cosmos:stargaze-1/sg721:stars14x8psqx3xzhmqtdv4qw6v43uf5305sfe0nt4u4/771769",
    );
    let asset_id = asset_id.unwrap();
    assert_eq!(
        (asset_id.asset_type(), asset_id.token_id()),
        (
            &AssetType::from_str(
                "cosmos:stargaze-1/sg721:stars14x8psqx3xzhmqtdv4qw6v43uf5305sfe0nt4u4"
            )
            .unwrap(),
            "771769"
        )
    )
}

#[test]
fn asset_id_is_cut_at_the_last_slash() {
    let asset_id = parse_asset_id(
        "cosmos:stargaze-1/sg721:stars14x8psqx3xzhmqtdv4qw6v43uf5305sfe0nt4u4/771769",
    )
    .unwrap();
    assert_eq!(asset_id.token_id(), "771769");
    let asset_type = asset_id.asset_type();
    assert_eq!(asset_type.chain_id().namespace(), "cosmos");
    assert_eq!(asset_type.chain_id().reference(), "stargaze-1");
    assert_eq!(asset_type.asset_name().namespace(), "sg721");
    assert_eq!(
        asset_type.asset_name().reference(),
        "stars14x8psqx3xzhmqtdv4qw6v43uf5305sfe0nt4u4"
    );
}

#[test]
fn asset_id_shape() {
    assert_eq!(parse_asset_id("").unwrap_err(), AssetIdError::InvalidAssetId);
    assert_eq!(parse_asset_id("abc").unwrap_err(), AssetIdError::InvalidAssetId);
    assert_eq!(parse_asset_id("abc:1/erc:0/").unwrap_err(), AssetIdError::InvalidAssetId);
    assert_eq!(
        parse_asset_id("cosmos:stargaze-1/slip44:563/7 7").unwrap_err(),
        AssetIdError::InvalidAssetId
    );
    let too_long =
        format!("abcdefgh:{}/abcdefgh:{}/{}", "r".repeat(32), "F".repeat(64), "7".repeat(33));
    assert_eq!(too_long.len(), 149);
    assert_eq!(parse_asset_id(&too_long).unwrap_err(), AssetIdError::InvalidAssetId);
}

#[test]
fn asset_id_without_slash() {
    assert_eq!(
        parse_asset_id("cosmos:stargaze-1").unwrap_err(),
        AssetIdError::InvalidAssetIdNumComponents
    );
    assert_eq!(
        parse_asset_id("0123456789abc").unwrap_err(),
        AssetIdError::InvalidAssetIdNumComponents
    );
}

#[test]
fn asset_id_reports_the_asset_type() {
    // One `/` only: what precedes it has none, so it is no asset type.
    assert_eq!(
        parse_asset_id("cosmos:stargaze-1/771769").unwrap_err(),
        AssetIdError::InvalidAssetType(AssetTypeError::InvalidType)
    );
    assert_eq!(
        parse_asset_id("cosmos:stargaze-1/slip44:563/1/2").unwrap_err(),
        AssetIdError::InvalidAssetType(AssetTypeError::InvalidType)
    );
    assert_eq!(
        parse_asset_id("Cosmos:stargaze-1/slip44:563/771769").unwrap_err(),
        AssetIdError::InvalidAssetType(AssetTypeError::InvalidChainId(
            ChainIdError::InvalidNamespace
        ))
    );
    assert_eq!(
        parse_asset_id("cosmos:stargaze-1/slip44:/771769").unwrap_err(),
        AssetIdError::InvalidAssetType(AssetTypeError::InvalidAssetName(
            AssetNameError::InvalidReference
        ))
    );
}

#[test]
fn asset_id_reports_the_token_id() {
    assert_eq!(
        parse_asset_id("cosmos:stargaze-1/slip44:563/").unwrap_err(),
        AssetIdError::InvalidTokenId
    );
    assert_eq!(
        parse_asset_id("cosmos:stargaze-1/slip44:563/77:17").unwrap_err(),
        AssetIdError::InvalidTokenId
    );
    let text = format!("cosmos:stargaze-1/slip44:563/{}", "7".repeat(33));
    assert_eq!(parse_asset_id(&text).unwrap_err(), AssetIdError::InvalidTokenId);
}

#[test]
fn asset_id_judges_the_asset_type_first() {
    assert_eq!(
        parse_asset_id("cosmos:stargaze-1/Slip44:563/").unwrap_err(),
        AssetIdError::InvalidAssetType(AssetTypeError::InvalidAssetName(
            AssetNameError::InvalidNamespace
        ))
    );
}

#[test]
fn asset_id_length_bounds() {
    let shortest = parse_asset_id("abc:1/erc:0/7").unwrap();
    assert_eq!(shortest.token_id(), "7");
    let token_id = "7".repeat(32);
    let longest =
        format!("abcdefgh:{}/abcdefgh:{}/{}", "r".repeat(32), "F".repeat(64), token_id);
    assert_eq!(longest.len(), 148);
    assert_eq!(parse_asset_id(&longest).unwrap().token_id(), token_id);
}

#[test]
fn asset_id_round_trip() {
    let text = "eip155:1/erc721:0x06012c8cf97BEaD5deAe237070F9587f8E7A266d/771769";
    let asset_id = parse_asset_id(text).unwrap();
    let asset_type = asset_id.asset_type();
    let again = format!(
        "{}:{}/{}:{}/{}",
        asset_type.chain_id().namespace(),
        asset_type.chain_id().reference(),
        asset_type.asset_name().namespace(),
        asset_type.asset_name().reference(),
        asset_id.token_id()
    );
    assert_eq!(again, text);
    assert_eq!(parse_asset_id(&again).unwrap(), asset_id);
}
