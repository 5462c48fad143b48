//! Parsing and validation of chain-agnostic identifiers: chain ids
//! (`namespace:reference`), asset names (`namespace:reference`), asset types
//! (`chain_id/asset_name`) and asset ids (`asset_type/token_id`).
//!
//! Every parser is a pure function from text to either a typed value or an
//! error that names the rule the text broke. The grammar is stated once, as
//! specification functions over sequences of characters, and each parser is
//! proved to return exactly what the grammar says.

pub mod asset_id;
pub mod asset_name;
pub mod asset_type;
pub mod chain;
pub mod pattern;
pub mod split;

pub use asset_id::{parse_asset_id, AssetId, AssetIdError};
pub use asset_name::{parse_asset_name, AssetName, AssetNameError};
pub use asset_type::{parse_asset_type, AssetType, AssetTypeError};
pub use chain::{parse_chain_id, ChainId, ChainIdError};
