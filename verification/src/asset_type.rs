//! Asset types: `chain_id/asset_name`, as in `cosmos:stargaze-1/slip44:563`.

use crate::asset_name::{
    asset_name_of, lemma_asset_name_round_trip, lemma_asset_name_sound, parse_asset_name,
    AssetName, AssetNameError, AssetNameView,
};
use crate::chain::{
    chain_id_of, lemma_chain_id_round_trip, lemma_chain_id_sound, parse_chain_id, ChainId,
    ChainIdError, ChainIdView,
};
use crate::pattern::{is_match, is_run, CharClass};
use crate::split::{
    count_byte, count_of, first_at, lemma_count_concat, lemma_count_zero, lemma_split_at,
    lemma_split_parts, split_first, split_once, SLASH,
};
use vstd::prelude::*;

verus! {

/// Shortest and longest asset type.
pub const ASSET_TYPE_MIN_LEN: usize = 11;

pub const ASSET_TYPE_MAX_LEN: usize = 115;

/// Why a text is no asset type.
#[derive(Debug, Clone, Copy, PartialEq, Eq)]
pub enum AssetTypeError {
    /// The text as a whole has the wrong length or a character that neither
    /// `[-:a-zA-Z0-9]` nor the `/` accounts for, or it does not hold exactly
    /// one `/`.
    InvalidType,
    /// What stands before the `/` is no chain id, for the reason given.
    InvalidChainId(ChainIdError),
    /// What stands after the `/` is no asset name, for the reason given.
    InvalidAssetName(AssetNameError),
}

/// What the whole of an asset type looks like: 11 to 115 characters of
/// `[-:a-zA-Z0-9]`, the `/` between the two halves being let through.
pub open spec fn is_asset_type_shape(text: Seq<char>) -> bool {
    is_run(
        text,
        CharClass::AlnumColonSlash,
        ASSET_TYPE_MIN_LEN as nat,
        ASSET_TYPE_MAX_LEN as nat,
    )
}

/// An asset type as a pair of views.
pub struct AssetTypeView {
    pub chain_id: ChainIdView,
    pub asset_name: AssetNameView,
}

impl AssetTypeView {
    /// Both halves are valid.
    pub open spec fn valid(self) -> bool {
        self.chain_id.valid() && self.asset_name.valid()
    }

    /// The two halves around their delimiter.
    pub open spec fn text(self) -> Seq<char> {
        self.chain_id.text() + seq!['/'] + self.asset_name.text()
    }
}

/// What a text means as an asset type. The shape of the whole is tested
/// first, then the number of `/`, then the chain id, then the asset name; an
/// error of one of the halves is handed on inside the variant that says which
/// half it was.
pub open spec fn asset_type_of(text: Seq<char>) -> Result<AssetTypeView, AssetTypeError> {
    if !is_asset_type_shape(text) || count_of(text, '/') != 1 {
        Err(AssetTypeError::InvalidType)
    } else {
        let (head, tail) = split_first(text, '/')->0;
        match chain_id_of(head) {
            Err(e) => Err(AssetTypeError::InvalidChainId(e)),
            Ok(chain_id) => match asset_name_of(tail) {
                Err(e) => Err(AssetTypeError::InvalidAssetName(e)),
                Ok(asset_name) => Ok(AssetTypeView { chain_id, asset_name }),
            },
        }
    }
}

/// An asset type: a chain id and the name of an asset on that chain.
#[derive(Debug, PartialEq, Eq)]
pub struct AssetType {
    chain_id: ChainId,
    asset_name: AssetName,
}

impl View for AssetType {
    type V = AssetTypeView;

    closed spec fn view(&self) -> AssetTypeView {
        AssetTypeView { chain_id: self.chain_id@, asset_name: self.asset_name@ }
    }
}

impl AssetType {
    #[verifier::type_invariant]
    spec fn well_formed(self) -> bool {
        self@.valid()
    }

    /// The part before the `/`.
    pub fn chain_id(&self) -> (r: &ChainId)
        ensures
            r@ == self@.chain_id,
            self@.valid(),
    {
        proof {
            use_type_invariant(self);
        }
        &self.chain_id
    }

    /// The part after the `/`.
    pub fn asset_name(&self) -> (r: &AssetName)
        ensures
            r@ == self@.asset_name,
            self@.valid(),
    {
        proof {
            use_type_invariant(self);
        }
        &self.asset_name
    }
}

/// Parses an asset type. The result is the one that [`asset_type_of`] gives
/// for the text: the value on success, else the error of the first broken
/// rule.
pub fn parse_asset_type(text: &str) -> (r: Result<AssetType, AssetTypeError>)
    ensures
        match r {
            Ok(asset_type) => asset_type_of(text@) == Ok::<AssetTypeView, AssetTypeError>(
                asset_type@,
            ),
            Err(e) => asset_type_of(text@) == Err::<AssetTypeView, AssetTypeError>(e),
        },
{
    if !is_match(text, CharClass::AlnumColonSlash, ASSET_TYPE_MIN_LEN, ASSET_TYPE_MAX_LEN) {
        return Err(AssetTypeError::InvalidType);
    }
    proof {
        lemma_split_parts(text@, '/');
    }
    match split_once(text, SLASH) {
        None => Err(AssetTypeError::InvalidType),
        Some((head, tail)) => {
            if count_byte(tail, SLASH) != 0 {
                return Err(AssetTypeError::InvalidType);
            }
            let chain_id = match parse_chain_id(head) {
                Ok(chain_id) => chain_id,
                Err(e) => {
                    return Err(AssetTypeError::InvalidChainId(e));
                },
            };
            let asset_name = match parse_asset_name(tail) {
                Ok(asset_name) => asset_name,
                Err(e) => {
                    return Err(AssetTypeError::InvalidAssetName(e));
                },
            };
            proof {
                lemma_chain_id_sound(head@);
                lemma_asset_name_sound(tail@);
            }
            Ok(AssetType { chain_id, asset_name })
        },
    }
}

impl core::str::FromStr for AssetType {
    type Err = AssetTypeError;

    /// The same as [`parse_asset_type`].
    fn from_str(s: &str) -> (r: Result<AssetType, AssetTypeError>)
        ensures
            match r {
                Ok(asset_type) => asset_type_of(s@) == Ok::<AssetTypeView, AssetTypeError>(
                    asset_type@,
                ),
                Err(e) => asset_type_of(s@) == Err::<AssetTypeView, AssetTypeError>(e),
            },
    {
        parse_asset_type(s)
    }
}

/// The text of a valid asset type has the shape of one, and a single `/`,
/// which stands between the chain id and the asset name.
pub proof fn lemma_asset_type_text(asset_type: AssetTypeView)
    requires
        asset_type.valid(),
    ensures
        is_asset_type_shape(asset_type.text()),
        count_of(asset_type.text(), '/') == 1,
        split_first(asset_type.text(), '/') == Some(
            (asset_type.chain_id.text(), asset_type.asset_name.text()),
        ),
{
    let head = asset_type.chain_id.text();
    let tail = asset_type.asset_name.text();
    let text = asset_type.text();
    let at = head.len() as int;
    assert forall|i: int| 0 <= i < head.len() implies CharClass::AlnumColon.contains(
        #[trigger] head[i],
    ) by {
        lemma_chain_id_round_trip(asset_type.chain_id);
    }
    assert forall|i: int| 0 <= i < tail.len() implies CharClass::AlnumColon.contains(
        #[trigger] tail[i],
    ) by {
        lemma_asset_name_round_trip(asset_type.asset_name);
    }
    assert(is_asset_type_shape(text));
    assert(!head.contains('/'));
    assert(!tail.contains('/'));
    lemma_count_zero(head, '/');
    lemma_count_zero(tail, '/');
    lemma_count_concat(head, seq!['/'], '/');
    lemma_count_concat(head + seq!['/'], tail, '/');
    assert(count_of(seq!['/'], '/') == 1) by {
        assert(seq!['/'].drop_last() =~= Seq::<char>::empty());
        reveal_with_fuel(count_of, 2);
    }
    assert(first_at(text, '/', at));
    lemma_split_at(text, '/', at);
    assert(text.take(at) =~= head);
    assert(text.skip(at + 1) =~= tail);
}

/// Round trip: a valid chain id and a valid asset name, written around a
/// `/`, parse back to the same two halves.
pub proof fn lemma_asset_type_round_trip(asset_type: AssetTypeView)
    requires
        asset_type.valid(),
    ensures
        asset_type_of(asset_type.text()) == Ok::<AssetTypeView, AssetTypeError>(asset_type),
{
    lemma_asset_type_text(asset_type);
    lemma_chain_id_round_trip(asset_type.chain_id);
    lemma_asset_name_round_trip(asset_type.asset_name);
}

/// Whatever parses is valid, and is the text it was parsed from.
pub proof fn lemma_asset_type_sound(text: Seq<char>)
    ensures
        asset_type_of(text) matches Ok(asset_type) ==> asset_type.valid() && asset_type.text()
            == text,
{
    lemma_split_parts(text, '/');
    if asset_type_of(text) is Ok {
        let (head, tail) = split_first(text, '/')->0;
        lemma_chain_id_sound(head);
        lemma_asset_name_sound(tail);
    }
}

/// A text with no `/`, or with two or more, is refused as a whole, whatever
/// its halves would have been.
pub proof fn lemma_asset_type_slash_count(text: Seq<char>)
    requires
        count_of(text, '/') != 1,
    ensures
        asset_type_of(text) == Err::<AssetTypeView, AssetTypeError>(AssetTypeError::InvalidType),
{
}

} // verus!
