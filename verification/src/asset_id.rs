//! Asset ids: `asset_type/token_id`, as in
//! `cosmos:stargaze-1/sg721:stars14x8psqx3xzhmqtdv4qw6v43uf5305sfe0nt4u4/771769`.

use crate::asset_type::{
    asset_type_of, lemma_asset_type_round_trip, lemma_asset_type_sound, lemma_asset_type_text,
    parse_asset_type, AssetType, AssetTypeError, AssetTypeView,
};
use crate::pattern::{is_match, is_run, CharClass};
use crate::split::{
    count_of, last_at, lemma_count_zero, lemma_split_at, lemma_split_parts, rsplit_once,
    split_last, SLASH,
};
use vstd::prelude::*;

verus! {

/// Shortest and longest asset id.
pub const ASSET_ID_MIN_LEN: usize = 13;

pub const ASSET_ID_MAX_LEN: usize = 148;

/// Shortest and longest token id.
pub const TOKEN_ID_MIN_LEN: usize = 1;

pub const TOKEN_ID_MAX_LEN: usize = 32;

/// Why a text is no asset id.
#[derive(Debug, Clone, Copy, PartialEq, Eq)]
pub enum AssetIdError {
    /// The text as a whole has the wrong length or a character that neither
    /// `[-:a-zA-Z0-9]` nor the `/` accounts for.
    InvalidAssetId,
    /// The text holds no `/` to part the asset type from the token id.
    InvalidAssetIdNumComponents,
    /// What stands before the last `/` is no asset type, for the reason given.
    InvalidAssetType(AssetTypeError),
    /// What stands after the last `/` is not `[-a-zA-Z0-9]{1,32}`.
    InvalidTokenId,
}

/// What the whole of an asset id looks like: 13 to 148 characters of
/// `[-:a-zA-Z0-9]`, the `/` between the parts being let through.
pub open spec fn is_asset_id_shape(text: Seq<char>) -> bool {
    is_run(text, CharClass::AlnumColonSlash, ASSET_ID_MIN_LEN as nat, ASSET_ID_MAX_LEN as nat)
}

/// `[-a-zA-Z0-9]{1,32}`: a token id.
pub open spec fn is_token_id(text: Seq<char>) -> bool {
    is_run(text, CharClass::Alnum, TOKEN_ID_MIN_LEN as nat, TOKEN_ID_MAX_LEN as nat)
}

/// An asset id as the view of its asset type and the characters of its token
/// id.
pub struct AssetIdView {
    pub asset_type: AssetTypeView,
    pub token_id: Seq<char>,
}

impl AssetIdView {
    /// The asset type is valid and the token id obeys its rule.
    pub open spec fn valid(self) -> bool {
        self.asset_type.valid() && is_token_id(self.token_id)
    }

    /// The asset type and the token id around their delimiter.
    pub open spec fn text(self) -> Seq<char> {
        self.asset_type.text() + seq!['/'] + self.token_id
    }
}

/// What a text means as an asset id. The shape of the whole is tested first.
/// The text is then cut at its last `/`: the token id is what follows it, and
/// all that precedes it, the `/` of the asset type included, is the asset
/// type. The asset type is judged before the token id, and its error is
/// handed on as it is.
pub open spec fn asset_id_of(text: Seq<char>) -> Result<AssetIdView, AssetIdError> {
    if !is_asset_id_shape(text) {
        Err(AssetIdError::InvalidAssetId)
    } else {
        match split_last(text, '/') {
            None => Err(AssetIdError::InvalidAssetIdNumComponents),
            Some((head, tail)) => match asset_type_of(head) {
                Err(e) => Err(AssetIdError::InvalidAssetType(e)),
                Ok(asset_type) => if !is_token_id(tail) {
                    Err(AssetIdError::InvalidTokenId)
                } else {
                    Ok(AssetIdView { asset_type, token_id: tail })
                },
            },
        }
    }
}

/// An asset id: an asset type and the id of one token of that type.
#[derive(Debug, PartialEq, Eq)]
pub struct AssetId {
    asset_type: AssetType,
    token_id: String,
}

impl View for AssetId {
    type V = AssetIdView;

    closed spec fn view(&self) -> AssetIdView {
        AssetIdView { asset_type: self.asset_type@, token_id: self.token_id@ }
    }
}

impl AssetId {
    #[verifier::type_invariant]
    spec fn well_formed(self) -> bool {
        self@.valid()
    }

    /// The part before the last `/`.
    pub fn asset_type(&self) -> (r: &AssetType)
        ensures
            r@ == self@.asset_type,
            self@.valid(),
    {
        proof {
            use_type_invariant(self);
        }
        &self.asset_type
    }

    /// The part after the last `/`.
    pub fn token_id(&self) -> (r: &str)
        ensures
            r@ == self@.token_id,
            self@.valid(),
    {
        proof {
            use_type_invariant(self);
        }
        self.token_id.as_str()
    }
}

/// Parses an asset id. The result is the one that [`asset_id_of`] gives for
/// the text: the value on success, else the error of the first broken rule.
pub fn parse_asset_id(text: &str) -> (r: Result<AssetId, AssetIdError>)
    ensures
        match r {
            Ok(asset_id) => asset_id_of(text@) == Ok::<AssetIdView, AssetIdError>(asset_id@),
            Err(e) => asset_id_of(text@) == Err::<AssetIdView, AssetIdError>(e),
        },
{
    if !is_match(text, CharClass::AlnumColonSlash, ASSET_ID_MIN_LEN, ASSET_ID_MAX_LEN) {
        return Err(AssetIdError::InvalidAssetId);
    }
    match rsplit_once(text, SLASH) {
        None => Err(AssetIdError::InvalidAssetIdNumComponents),
        Some((head, tail)) => {
            let asset_type = match parse_asset_type(head) {
                Ok(asset_type) => asset_type,
                Err(e) => {
                    return Err(AssetIdError::InvalidAssetType(e));
                },
            };
            if !is_match(tail, CharClass::Alnum, TOKEN_ID_MIN_LEN, TOKEN_ID_MAX_LEN) {
                return Err(AssetIdError::InvalidTokenId);
            }
            proof {
                lemma_asset_type_sound(head@);
            }
            Ok(AssetId { asset_type, token_id: tail.to_owned() })
        },
    }
}

impl core::str::FromStr for AssetId {
    type Err = AssetIdError;

    /// The same as [`parse_asset_id`].
    fn from_str(s: &str) -> (r: Result<AssetId, AssetIdError>)
        ensures
            match r {
                Ok(asset_id) => asset_id_of(s@) == Ok::<AssetIdView, AssetIdError>(asset_id@),
                Err(e) => asset_id_of(s@) == Err::<AssetIdView, AssetIdError>(e),
            },
    {
        parse_asset_id(s)
    }
}

/// Round trip, and the cut at the last `/`: a valid asset type and a valid
/// token id, written around a `/`, parse back to the same two parts. The `/`
/// inside the asset type is never taken for the one before the token id.
pub proof fn lemma_asset_id_round_trip(asset_id: AssetIdView)
    requires
        asset_id.valid(),
    ensures
        split_last(asset_id.text(), '/') == Some((asset_id.asset_type.text(), asset_id.token_id)),
        asset_id_of(asset_id.text()) == Ok::<AssetIdView, AssetIdError>(asset_id),
{
    let head = asset_id.asset_type.text();
    let tail = asset_id.token_id;
    let text = asset_id.text();
    let at = head.len() as int;
    lemma_asset_type_text(asset_id.asset_type);
    lemma_asset_type_round_trip(asset_id.asset_type);
    assert(is_asset_id_shape(text));
    assert(last_at(text, '/', at));
    lemma_split_at(text, '/', at);
    assert(text.take(at) =~= head);
    assert(text.skip(at + 1) =~= tail);
}

/// Whatever parses is valid, and is the text it was parsed from; the token
/// id holds no `/`.
pub proof fn lemma_asset_id_sound(text: Seq<char>)
    ensures
        asset_id_of(text) matches Ok(asset_id) ==> {
            &&& asset_id.valid()
            &&& asset_id.text() == text
            &&& !asset_id.token_id.contains('/')
        },
{
    lemma_split_parts(text, '/');
    if asset_id_of(text) is Ok {
        let (head, tail) = split_last(text, '/')->0;
        lemma_asset_type_sound(head);
    }
}

/// The text is cut at its last `/` and nowhere else: with the last `/` at
/// `at`, the asset type is read from all that precedes it and the token id
/// from all that follows.
pub proof fn lemma_asset_id_cut(text: Seq<char>, at: int)
    requires
        is_asset_id_shape(text),
        last_at(text, '/', at),
    ensures
        asset_id_of(text) == match asset_type_of(text.take(at)) {
            Err(e) => Err::<AssetIdView, AssetIdError>(AssetIdError::InvalidAssetType(e)),
            Ok(asset_type) => if is_token_id(text.skip(at + 1)) {
                Ok(AssetIdView { asset_type, token_id: text.skip(at + 1) })
            } else {
                Err(AssetIdError::InvalidTokenId)
            },
        },
{
    lemma_split_at(text, '/', at);
}

/// A text that has the shape of an asset id and no `/` is refused for the
/// number of its parts.
pub proof fn lemma_asset_id_no_slash(text: Seq<char>)
    requires
        is_asset_id_shape(text),
        count_of(text, '/') == 0,
    ensures
        asset_id_of(text) == Err::<AssetIdView, AssetIdError>(
            AssetIdError::InvalidAssetIdNumComponents,
        ),
{
    lemma_count_zero(text, '/');
}

} // verus!
