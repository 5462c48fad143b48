//! Character classes and bounded runs: the building block `[class]{min,max}`
//! that every level of the identifier grammar is written in.

use vstd::prelude::*;
use vstd::string::*;

verus! {

/// A set of ASCII characters that a segment may be drawn from.
#[derive(Debug, Clone, Copy, PartialEq, Eq)]
pub enum CharClass {
    /// `[-a-z0-9]`
    LowerAlnum,
    /// `[-a-zA-Z0-9]`
    Alnum,
    /// `[-:a-zA-Z0-9]`
    AlnumColon,
    /// `[-:/a-zA-Z0-9]`
    AlnumColonSlash,
}

impl CharClass {
    /// Whether upper-case letters belong to the class.
    pub open spec fn has_upper(self) -> bool {
        !(self is LowerAlnum)
    }

    /// Whether `:` belongs to the class.
    pub open spec fn has_colon(self) -> bool {
        self is AlnumColon || self is AlnumColonSlash
    }

    /// Whether `/` belongs to the class.
    pub open spec fn has_slash(self) -> bool {
        self is AlnumColonSlash
    }

    /// Membership of a character in the class.
    pub open spec fn contains(self, c: char) -> bool {
        ||| '0' <= c <= '9'
        ||| 'a' <= c <= 'z'
        ||| c == '-'
        ||| (self.has_upper() && 'A' <= c <= 'Z')
        ||| (self.has_colon() && c == ':')
        ||| (self.has_slash() && c == '/')
    }

    /// Membership test on the byte of an ASCII character.
    pub fn contains_byte(self, b: u8) -> (r: bool)
        ensures
            r == self.contains(b as char),
    {
        let upper = !matches!(self, CharClass::LowerAlnum);
        let colon = matches!(self, CharClass::AlnumColon | CharClass::AlnumColonSlash);
        let slash = matches!(self, CharClass::AlnumColonSlash);
        (48 <= b && b <= 57) || (97 <= b && b <= 122) || b == 45 || (upper && 65 <= b && b <= 90)
            || (colon && b == 58) || (slash && b == 47)
    }
}

/// A text is a run `[class]{min,max}` when its length lies within the bounds
/// and every one of its characters belongs to the class. The match is of the
/// whole text, never of a part of it.
pub open spec fn is_run(text: Seq<char>, class: CharClass, min_len: nat, max_len: nat) -> bool {
    &&& min_len <= text.len() <= max_len
    &&& forall|i: int| 0 <= i < text.len() ==> class.contains(#[trigger] text[i])
}

/// Decides whether the whole of `text` matches `[class]{min_len,max_len}`.
pub fn is_match(text: &str, class: CharClass, min_len: usize, max_len: usize) -> (r: bool)
    ensures
        r == is_run(text@, class, min_len as nat, max_len as nat),
        r ==> is_ascii(text),
{
    if !text.is_ascii() {
        return false;
    }
    let bytes = text.as_bytes();
    let n: usize = bytes.len();
    proof {
        is_ascii_spec_bytes(text);
    }
    if n < min_len || n > max_len {
        return false;
    }
    let mut i: usize = 0;
    while i < n
        invariant
            is_ascii(text),
            bytes@ == text.spec_bytes(),
            n == text@.len(),
            i <= n,
            forall|j: int| 0 <= j < i ==> class.contains(#[trigger] text@[j]),
        decreases n - i,
    {
        let b: u8 = bytes[i];
        if !class.contains_byte(b) {
            return false;
        }
        i += 1;
    }
    true
}

} // verus!
