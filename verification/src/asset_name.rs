//! Asset names: `namespace:reference`, as in `slip44:563`.

use crate::pattern::{is_match, is_run, CharClass};
use crate::split::{
    count_byte, count_of, first_at, lemma_count_concat, lemma_count_zero, lemma_single_is_first,
    lemma_split_at, lemma_split_parts, split_first, split_once, COLON,
};
use vstd::prelude::*;

verus! {

/// Shortest and longest asset name.
pub const ASSET_NAME_MIN_LEN: usize = 5;

pub const ASSET_NAME_MAX_LEN: usize = 73;

/// Shortest and longest namespace.
pub const NAMESPACE_MIN_LEN: usize = 3;

pub const NAMESPACE_MAX_LEN: usize = 8;

/// Shortest and longest reference.
pub const REFERENCE_MIN_LEN: usize = 1;

pub const REFERENCE_MAX_LEN: usize = 64;

/// Why a text is no asset name.
#[derive(Debug, Clone, Copy, PartialEq, Eq)]
pub enum AssetNameError {
    /// The text as a whole has the wrong length or a character outside
    /// `[-:a-zA-Z0-9]`, or it does not hold exactly one `:`.
    InvalidName,
    /// What stands before the `:` is not `[-a-z0-9]{3,8}`.
    InvalidNamespace,
    /// What stands after the `:` is not `[-a-zA-Z0-9]{1,64}`.
    InvalidReference,
}

/// `[-:a-zA-Z0-9]{5,73}`: what the whole of an asset name looks like.
pub open spec fn is_asset_name_shape(text: Seq<char>) -> bool {
    is_run(text, CharClass::AlnumColon, ASSET_NAME_MIN_LEN as nat, ASSET_NAME_MAX_LEN as nat)
}

/// `[-a-z0-9]{3,8}`: a namespace. Upper-case letters are not admitted.
pub open spec fn is_namespace(text: Seq<char>) -> bool {
    is_run(text, CharClass::LowerAlnum, NAMESPACE_MIN_LEN as nat, NAMESPACE_MAX_LEN as nat)
}

/// `[-a-zA-Z0-9]{1,64}`: a reference, in either case.
pub open spec fn is_reference(text: Seq<char>) -> bool {
    is_run(text, CharClass::Alnum, REFERENCE_MIN_LEN as nat, REFERENCE_MAX_LEN as nat)
}

/// An asset name as a pair of character sequences.
pub struct AssetNameView {
    pub namespace: Seq<char>,
    pub reference: Seq<char>,
}

impl AssetNameView {
    /// Both components obey their rule.
    pub open spec fn valid(self) -> bool {
        is_namespace(self.namespace) && is_reference(self.reference)
    }

    /// The components around their delimiter.
    pub open spec fn text(self) -> Seq<char> {
        self.namespace + seq![':'] + self.reference
    }
}

/// What a text means as an asset name. The shape of the whole is tested first,
/// then the number of `:`, then the namespace, then the reference; the first
/// rule that is broken names the error.
pub open spec fn asset_name_of(text: Seq<char>) -> Result<AssetNameView, AssetNameError> {
    if !is_asset_name_shape(text) || count_of(text, ':') != 1 {
        Err(AssetNameError::InvalidName)
    } else {
        let (namespace, reference) = split_first(text, ':')->0;
        if !is_namespace(namespace) {
            Err(AssetNameError::InvalidNamespace)
        } else if !is_reference(reference) {
            Err(AssetNameError::InvalidReference)
        } else {
            Ok(AssetNameView { namespace, reference })
        }
    }
}

/// An asset name: a namespace and a reference, both valid, kept as written.
#[derive(Debug, PartialEq, Eq)]
pub struct AssetName {
    namespace: String,
    reference: String,
}

impl View for AssetName {
    type V = AssetNameView;

    closed spec fn view(&self) -> AssetNameView {
        AssetNameView { namespace: self.namespace@, reference: self.reference@ }
    }
}

impl AssetName {
    #[verifier::type_invariant]
    spec fn well_formed(self) -> bool {
        self@.valid()
    }

    /// The part before the `:`.
    pub fn namespace(&self) -> (r: &str)
        ensures
            r@ == self@.namespace,
            self@.valid(),
    {
        proof {
            use_type_invariant(self);
        }
        self.namespace.as_str()
    }

    /// The part after the `:`.
    pub fn reference(&self) -> (r: &str)
        ensures
            r@ == self@.reference,
            self@.valid(),
    {
        proof {
            use_type_invariant(self);
        }
        self.reference.as_str()
    }
}

/// Parses an asset name. The result is the one that [`asset_name_of`] gives for
/// the text: the value on success, else the error of the first broken rule.
pub fn parse_asset_name(text: &str) -> (r: Result<AssetName, AssetNameError>)
    ensures
        match r {
            Ok(name) => asset_name_of(text@) == Ok::<AssetNameView, AssetNameError>(name@),
            Err(e) => asset_name_of(text@) == Err::<AssetNameView, AssetNameError>(e),
        },
{
    if !is_match(text, CharClass::AlnumColon, ASSET_NAME_MIN_LEN, ASSET_NAME_MAX_LEN) {
        return Err(AssetNameError::InvalidName);
    }
    proof {
        lemma_split_parts(text@, ':');
    }
    match split_once(text, COLON) {
        None => Err(AssetNameError::InvalidName),
        Some((namespace, reference)) => {
            if count_byte(reference, COLON) != 0 {
                return Err(AssetNameError::InvalidName);
            }
            if !is_match(namespace, CharClass::LowerAlnum, NAMESPACE_MIN_LEN, NAMESPACE_MAX_LEN) {
                return Err(AssetNameError::InvalidNamespace);
            }
            if !is_match(reference, CharClass::Alnum, REFERENCE_MIN_LEN, REFERENCE_MAX_LEN) {
                return Err(AssetNameError::InvalidReference);
            }
            Ok(AssetName { namespace: namespace.to_owned(), reference: reference.to_owned() })
        },
    }
}

impl core::str::FromStr for AssetName {
    type Err = AssetNameError;

    /// The same as [`parse_asset_name`].
    fn from_str(s: &str) -> (r: Result<AssetName, AssetNameError>)
        ensures
            match r {
                Ok(name) => asset_name_of(s@) == Ok::<AssetNameView, AssetNameError>(name@),
                Err(e) => asset_name_of(s@) == Err::<AssetNameView, AssetNameError>(e),
            },
    {
        parse_asset_name(s)
    }
}

/// Round trip: a valid namespace and a valid reference, written around a
/// `:`, parse back to the same two components.
pub proof fn lemma_asset_name_round_trip(name: AssetNameView)
    requires
        name.valid(),
    ensures
        asset_name_of(name.text()) == Ok::<AssetNameView, AssetNameError>(name),
{
    let text = name.text();
    let at = name.namespace.len() as int;
    assert(is_asset_name_shape(text));
    assert(!name.namespace.contains(':'));
    assert(!name.reference.contains(':'));
    lemma_count_zero(name.namespace, ':');
    lemma_count_zero(name.reference, ':');
    lemma_count_concat(name.namespace, seq![':'], ':');
    lemma_count_concat(name.namespace + seq![':'], name.reference, ':');
    assert(count_of(seq![':'], ':') == 1) by {
        assert(seq![':'].drop_last() =~= Seq::<char>::empty());
        reveal_with_fuel(count_of, 2);
    }
    assert(first_at(text, ':', at));
    lemma_split_at(text, ':', at);
    assert(text.take(at) =~= name.namespace);
    assert(text.skip(at + 1) =~= name.reference);
}

/// Whatever parses is valid, and is the text it was parsed from: nothing is
/// dropped, added or changed in case.
pub proof fn lemma_asset_name_sound(text: Seq<char>)
    ensures
        asset_name_of(text) matches Ok(name) ==> name.valid() && name.text() == text,
{
    lemma_split_parts(text, ':');
}

/// A text with no `:`, or with two or more, is refused for its shape, never
/// for its namespace or its reference.
pub proof fn lemma_asset_name_colon_count(text: Seq<char>)
    requires
        count_of(text, ':') != 1,
    ensures
        asset_name_of(text) == Err::<AssetNameView, AssetNameError>(AssetNameError::InvalidName),
{
}

/// Namespaces are lower-case only: where the text has the shape of an asset
/// name and a single `:`, an upper-case letter before the `:` makes the
/// namespace invalid, whatever the reference is.
pub proof fn lemma_asset_name_namespace_case(text: Seq<char>, colon: int, upper: int)
    requires
        is_asset_name_shape(text),
        count_of(text, ':') == 1,
        0 <= upper < colon < text.len(),
        text[colon] == ':',
        'A' <= text[upper] <= 'Z',
    ensures
        asset_name_of(text) == Err::<AssetNameView, AssetNameError>(AssetNameError::InvalidNamespace),
{
    lemma_single_is_first(text, ':', colon);
    lemma_split_at(text, ':', colon);
    let namespace = text.take(colon);
    assert(namespace[upper] == text[upper]);
}

} // verus!
