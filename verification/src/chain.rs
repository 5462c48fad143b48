//! Chain ids: `namespace:reference`, as in `cosmos:stargaze-1`.

use crate::pattern::{is_match, is_run, CharClass};
use crate::split::{
    count_byte, count_of, first_at, lemma_count_concat, lemma_count_zero, lemma_single_is_first,
    lemma_split_at, lemma_split_parts, split_first, split_once, COLON,
};
use vstd::prelude::*;

verus! {

/// Shortest and longest chain id.
pub const CHAIN_ID_MIN_LEN: usize = 5;

pub const CHAIN_ID_MAX_LEN: usize = 41;

/// Shortest and longest namespace.
pub const NAMESPACE_MIN_LEN: usize = 3;

pub const NAMESPACE_MAX_LEN: usize = 8;

/// Shortest and longest reference.
pub const REFERENCE_MIN_LEN: usize = 1;

pub const REFERENCE_MAX_LEN: usize = 32;

/// Why a text is no chain id.
#[derive(Debug, Clone, Copy, PartialEq, Eq)]
pub enum ChainIdError {
    /// The text as a whole has the wrong length or a character outside
    /// `[-:a-zA-Z0-9]`, or it does not hold exactly one `:`.
    InvalidChainId,
    /// What stands before the `:` is not `[-a-z0-9]{3,8}`.
    InvalidNamespace,
    /// What stands after the `:` is not `[-a-zA-Z0-9]{1,32}`.
    InvalidReference,
}

impl ChainIdError {
    /// The message of each error, as a sequence of characters.
    pub open spec fn message(self) -> Seq<char> {
        match self {
            ChainIdError::InvalidChainId => "invalid chain id"@,
            ChainIdError::InvalidNamespace => "invalid chain id namespace"@,
            ChainIdError::InvalidReference => "invalid chain id reference"@,
        }
    }

    /// A short description of the error, fit for display.
    pub fn as_str(&self) -> (r: &'static str)
        ensures
            r@ == self.message(),
    {
        match self {
            ChainIdError::InvalidChainId => "invalid chain id",
            ChainIdError::InvalidNamespace => "invalid chain id namespace",
            ChainIdError::InvalidReference => "invalid chain id reference",
        }
    }
}

/// `[-:a-zA-Z0-9]{5,41}`: what the whole of a chain id looks like.
pub open spec fn is_chain_id_shape(text: Seq<char>) -> bool {
    is_run(text, CharClass::AlnumColon, CHAIN_ID_MIN_LEN as nat, CHAIN_ID_MAX_LEN as nat)
}

/// `[-a-z0-9]{3,8}`: a namespace. Upper-case letters are not admitted.
pub open spec fn is_namespace(text: Seq<char>) -> bool {
    is_run(text, CharClass::LowerAlnum, NAMESPACE_MIN_LEN as nat, NAMESPACE_MAX_LEN as nat)
}

/// `[-a-zA-Z0-9]{1,32}`: a reference, in either case.
pub open spec fn is_reference(text: Seq<char>) -> bool {
    is_run(text, CharClass::Alnum, REFERENCE_MIN_LEN as nat, REFERENCE_MAX_LEN as nat)
}

/// A chain id as a pair of character sequences.
pub struct ChainIdView {
    pub namespace: Seq<char>,
    pub reference: Seq<char>,
}

impl ChainIdView {
    /// Both components obey their rule.
    pub open spec fn valid(self) -> bool {
        is_namespace(self.namespace) && is_reference(self.reference)
    }

    /// The components around their delimiter.
    pub open spec fn text(self) -> Seq<char> {
        self.namespace + seq![':'] + self.reference
    }
}

/// What a text means as a chain id. The shape of the whole is tested first,
/// then the number of `:`, then the namespace, then the reference; the first
/// rule that is broken names the error.
pub open spec fn chain_id_of(text: Seq<char>) -> Result<ChainIdView, ChainIdError> {
    if !is_chain_id_shape(text) || count_of(text, ':') != 1 {
        Err(ChainIdError::InvalidChainId)
    } else {
        let (namespace, reference) = split_first(text, ':')->0;
        if !is_namespace(namespace) {
            Err(ChainIdError::InvalidNamespace)
        } else if !is_reference(reference) {
            Err(ChainIdError::InvalidReference)
        } else {
            Ok(ChainIdView { namespace, reference })
        }
    }
}

/// A chain id: a namespace and a reference, both valid, kept as written.
#[derive(Debug, PartialEq, Eq)]
pub struct ChainId {
    namespace: String,
    reference: String,
}

impl View for ChainId {
    type V = ChainIdView;

    closed spec fn view(&self) -> ChainIdView {
        ChainIdView { namespace: self.namespace@, reference: self.reference@ }
    }
}

impl ChainId {
    #[verifier::type_invariant]
    spec fn well_formed(self) -> bool {
        self@.valid()
    }

    /// The part before the `:`.
    pub fn namespace(&self) -> (r: &str)
        ensures
            r@ == self@.namespace,
            self@.valid(),
    {
        proof {
            use_type_invariant(self);
        }
        self.namespace.as_str()
    }

    /// The part after the `:`.
    pub fn reference(&self) -> (r: &str)
        ensures
            r@ == self@.reference,
            self@.valid(),
    {
        proof {
            use_type_invariant(self);
        }
        self.reference.as_str()
    }
}

/// Parses a chain id. The result is the one that [`chain_id_of`] gives for
/// the text: the value on success, else the error of the first broken rule.
pub fn parse_chain_id(text: &str) -> (r: Result<ChainId, ChainIdError>)
    ensures
        match r {
            Ok(id) => chain_id_of(text@) == Ok::<ChainIdView, ChainIdError>(id@),
            Err(e) => chain_id_of(text@) == Err::<ChainIdView, ChainIdError>(e),
        },
{
    if !is_match(text, CharClass::AlnumColon, CHAIN_ID_MIN_LEN, CHAIN_ID_MAX_LEN) {
        return Err(ChainIdError::InvalidChainId);
    }
    proof {
        lemma_split_parts(text@, ':');
    }
    match split_once(text, COLON) {
        None => Err(ChainIdError::InvalidChainId),
        Some((namespace, reference)) => {
            if count_byte(reference, COLON) != 0 {
                return Err(ChainIdError::InvalidChainId);
            }
            if !is_match(namespace, CharClass::LowerAlnum, NAMESPACE_MIN_LEN, NAMESPACE_MAX_LEN) {
                return Err(ChainIdError::InvalidNamespace);
            }
            if !is_match(reference, CharClass::Alnum, REFERENCE_MIN_LEN, REFERENCE_MAX_LEN) {
                return Err(ChainIdError::InvalidReference);
            }
            Ok(ChainId { namespace: namespace.to_owned(), reference: reference.to_owned() })
        },
    }
}

impl core::str::FromStr for ChainId {
    type Err = ChainIdError;

    /// The same as [`parse_chain_id`].
    fn from_str(s: &str) -> (r: Result<ChainId, ChainIdError>)
        ensures
            match r {
                Ok(id) => chain_id_of(s@) == Ok::<ChainIdView, ChainIdError>(id@),
                Err(e) => chain_id_of(s@) == Err::<ChainIdView, ChainIdError>(e),
            },
    {
        parse_chain_id(s)
    }
}

/// Round trip: a valid namespace and a valid reference, written around a
/// `:`, parse back to the same two components.
pub proof fn lemma_chain_id_round_trip(id: ChainIdView)
    requires
        id.valid(),
    ensures
        chain_id_of(id.text()) == Ok::<ChainIdView, ChainIdError>(id),
{
    let text = id.text();
    let at = id.namespace.len() as int;
    assert(is_chain_id_shape(text));
    assert(!id.namespace.contains(':'));
    assert(!id.reference.contains(':'));
    lemma_count_zero(id.namespace, ':');
    lemma_count_zero(id.reference, ':');
    lemma_count_concat(id.namespace, seq![':'], ':');
    lemma_count_concat(id.namespace + seq![':'], id.reference, ':');
    assert(count_of(seq![':'], ':') == 1) by {
        assert(seq![':'].drop_last() =~= Seq::<char>::empty());
        reveal_with_fuel(count_of, 2);
    }
    assert(first_at(text, ':', at));
    lemma_split_at(text, ':', at);
    assert(text.take(at) =~= id.namespace);
    assert(text.skip(at + 1) =~= id.reference);
}

/// Whatever parses is valid, and is the text it was parsed from: nothing is
/// dropped, added or changed in case.
pub proof fn lemma_chain_id_sound(text: Seq<char>)
    ensures
        chain_id_of(text) matches Ok(id) ==> id.valid() && id.text() == text,
{
    lemma_split_parts(text, ':');
}

/// A text with no `:`, or with two or more, is refused for its shape, never
/// for its namespace or its reference.
pub proof fn lemma_chain_id_colon_count(text: Seq<char>)
    requires
        count_of(text, ':') != 1,
    ensures
        chain_id_of(text) == Err::<ChainIdView, ChainIdError>(ChainIdError::InvalidChainId),
{
}

/// Namespaces are lower-case only: where the text has the shape of a chain
/// id and a single `:`, an upper-case letter before the `:` makes the
/// namespace invalid, whatever the reference is.
pub proof fn lemma_chain_id_namespace_case(text: Seq<char>, colon: int, upper: int)
    requires
        is_chain_id_shape(text),
        count_of(text, ':') == 1,
        0 <= upper < colon < text.len(),
        text[colon] == ':',
        'A' <= text[upper] <= 'Z',
    ensures
        chain_id_of(text) == Err::<ChainIdView, ChainIdError>(ChainIdError::InvalidNamespace),
{
    lemma_single_is_first(text, ':', colon);
    lemma_split_at(text, ':', colon);
    let namespace = text.take(colon);
    assert(namespace[upper] == text[upper]);
}

} // verus!
