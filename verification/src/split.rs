//! Counting a delimiter and cutting a text in two at its first or last
//! occurrence.

use vstd::prelude::*;
use vstd::string::*;

verus! {

/// The byte of `:`, which parts a namespace from its reference.
pub const COLON: u8 = 58;

/// The byte of `/`, which parts a chain id from an asset name and an asset
/// type from a token id.
pub const SLASH: u8 = 47;

/// How many times `delimiter` occurs in `text`.
pub open spec fn count_of(text: Seq<char>, delimiter: char) -> nat
    decreases text.len(),
{
    if text.len() == 0 {
        0
    } else {
        count_of(text.drop_last(), delimiter) + if text.last() == delimiter {
            1nat
        } else {
            0nat
        }
    }
}

/// `at` is the position of the first `delimiter` in `text`.
pub open spec fn first_at(text: Seq<char>, delimiter: char, at: int) -> bool {
    &&& 0 <= at < text.len()
    &&& text[at] == delimiter
    &&& forall|j: int| 0 <= j < at ==> #[trigger] text[j] != delimiter
}

/// `at` is the position of the last `delimiter` in `text`.
pub open spec fn last_at(text: Seq<char>, delimiter: char, at: int) -> bool {
    &&& 0 <= at < text.len()
    &&& text[at] == delimiter
    &&& forall|j: int| at < j < text.len() ==> #[trigger] text[j] != delimiter
}

/// What stands before and after the first `delimiter`, or `None` where the
/// text holds no delimiter. The delimiter itself belongs to neither part.
pub open spec fn split_first(text: Seq<char>, delimiter: char) -> Option<(Seq<char>, Seq<char>)> {
    if text.contains(delimiter) {
        let at = choose|at: int| first_at(text, delimiter, at);
        Some((text.take(at), text.skip(at + 1)))
    } else {
        None
    }
}

/// What stands before and after the last `delimiter`, or `None` where the
/// text holds no delimiter. The delimiter itself belongs to neither part.
pub open spec fn split_last(text: Seq<char>, delimiter: char) -> Option<(Seq<char>, Seq<char>)> {
    if text.contains(delimiter) {
        let at = choose|at: int| last_at(text, delimiter, at);
        Some((text.take(at), text.skip(at + 1)))
    } else {
        None
    }
}

/// Counting distributes over concatenation.
pub proof fn lemma_count_concat(a: Seq<char>, b: Seq<char>, delimiter: char)
    ensures
        count_of(a + b, delimiter) == count_of(a, delimiter) + count_of(b, delimiter),
    decreases b.len(),
{
    if b.len() == 0 {
        assert(a + b =~= a);
    } else {
        lemma_count_concat(a, b.drop_last(), delimiter);
        assert((a + b).drop_last() =~= a + b.drop_last());
    }
}

/// The count is zero exactly when the delimiter does not occur.
pub proof fn lemma_count_zero(text: Seq<char>, delimiter: char)
    ensures
        count_of(text, delimiter) == 0 <==> !text.contains(delimiter),
    decreases text.len(),
{
    if text.len() > 0 {
        let init = text.drop_last();
        lemma_count_zero(init, delimiter);
        if text.last() == delimiter {
            assert(text[text.len() - 1] == delimiter);
        } else if init.contains(delimiter) {
            let i = choose|i: int| 0 <= i < init.len() && init[i] == delimiter;
            assert(text[i] == delimiter);
        } else if text.contains(delimiter) {
            let i = choose|i: int| 0 <= i < text.len() && text[i] == delimiter;
            assert(init[i] == delimiter);
        }
    }
}

/// Cutting at any occurrence of the delimiter leaves one occurrence fewer,
/// shared between the two parts.
pub proof fn lemma_count_cut(text: Seq<char>, delimiter: char, at: int)
    requires
        0 <= at < text.len(),
        text[at] == delimiter,
    ensures
        count_of(text, delimiter) == count_of(text.take(at), delimiter) + 1 + count_of(
            text.skip(at + 1),
            delimiter,
        ),
{
    let mid = seq![delimiter];
    assert(text =~= (text.take(at) + mid) + text.skip(at + 1));
    lemma_count_concat(text.take(at) + mid, text.skip(at + 1), delimiter);
    lemma_count_concat(text.take(at), mid, delimiter);
    assert(mid.drop_last() =~= Seq::<char>::empty());
    assert(count_of(mid, delimiter) == 1) by {
        reveal_with_fuel(count_of, 2);
    }
}

/// The first occurrence is unique, and so is the last.
pub proof fn lemma_split_at(text: Seq<char>, delimiter: char, at: int)
    requires
        0 <= at < text.len(),
        text[at] == delimiter,
    ensures
        text.contains(delimiter),
        first_at(text, delimiter, at) ==> split_first(text, delimiter) == Some(
            (text.take(at), text.skip(at + 1)),
        ),
        last_at(text, delimiter, at) ==> split_last(text, delimiter) == Some(
            (text.take(at), text.skip(at + 1)),
        ),
{
    if first_at(text, delimiter, at) {
        let chosen = choose|k: int| first_at(text, delimiter, k);
        assert(chosen == at) by {
            if chosen < at {
                assert(text[chosen] != delimiter);
            } else if at < chosen {
                assert(text[at] != delimiter);
            }
        }
    }
    if last_at(text, delimiter, at) {
        let chosen = choose|k: int| last_at(text, delimiter, k);
        assert(chosen == at) by {
            if chosen < at {
                assert(text[at] != delimiter);
            } else if at < chosen {
                assert(text[chosen] != delimiter);
            }
        }
    }
}

/// The two parts of a split, put back around the delimiter, give the text;
/// the part on the near side of the cut holds no delimiter, and the count of
/// the whole is one more than that of the far side.
pub proof fn lemma_split_parts(text: Seq<char>, delimiter: char)
    ensures
        match split_first(text, delimiter) {
            Some((head, tail)) => {
                &&& text == head + seq![delimiter] + tail
                &&& !head.contains(delimiter)
                &&& count_of(text, delimiter) == 1 + count_of(tail, delimiter)
            },
            None => count_of(text, delimiter) == 0,
        },
        match split_last(text, delimiter) {
            Some((head, tail)) => {
                &&& text == head + seq![delimiter] + tail
                &&& !tail.contains(delimiter)
                &&& count_of(text, delimiter) == count_of(head, delimiter) + 1
            },
            None => count_of(text, delimiter) == 0,
        },
{
    lemma_count_zero(text, delimiter);
    if text.contains(delimiter) {
        let found = choose|i: int| 0 <= i < text.len() && text[i] == delimiter;
        lemma_first_exists(text, delimiter, found);
        let first = choose|at: int| first_at(text, delimiter, at);
        let head = text.take(first);
        lemma_count_cut(text, delimiter, first);
        lemma_count_zero(head, delimiter);
        assert(!head.contains(delimiter)) by {
            if head.contains(delimiter) {
                let i = choose|i: int| 0 <= i < head.len() && head[i] == delimiter;
                assert(text[i] == delimiter);
            }
        }
        assert(text =~= head + seq![delimiter] + text.skip(first + 1));

        lemma_last_exists(text, delimiter, found);
        let last = choose|at: int| last_at(text, delimiter, at);
        let tail = text.skip(last + 1);
        lemma_count_cut(text, delimiter, last);
        lemma_count_zero(tail, delimiter);
        assert(!tail.contains(delimiter)) by {
            if tail.contains(delimiter) {
                let i = choose|i: int| 0 <= i < tail.len() && tail[i] == delimiter;
                assert(text[last + 1 + i] == delimiter);
            }
        }
        assert(text =~= text.take(last) + seq![delimiter] + tail);
    }
}

/// A delimiter that occurs once is both the first and the last.
pub proof fn lemma_single_is_first(text: Seq<char>, delimiter: char, at: int)
    requires
        count_of(text, delimiter) == 1,
        0 <= at < text.len(),
        text[at] == delimiter,
    ensures
        first_at(text, delimiter, at),
        last_at(text, delimiter, at),
{
    let head = text.take(at);
    let tail = text.skip(at + 1);
    lemma_count_cut(text, delimiter, at);
    lemma_count_zero(head, delimiter);
    lemma_count_zero(tail, delimiter);
    assert forall|j: int| 0 <= j < at implies #[trigger] text[j] != delimiter by {
        if text[j] == delimiter {
            assert(head[j] == delimiter);
        }
    }
    assert forall|j: int| at < j < text.len() implies #[trigger] text[j] != delimiter by {
        if text[j] == delimiter {
            assert(tail[j - at - 1] == delimiter);
        }
    }
}

/// Where the delimiter occurs at all, it has a first occurrence.
proof fn lemma_first_exists(text: Seq<char>, delimiter: char, found: int)
    requires
        0 <= found < text.len(),
        text[found] == delimiter,
    ensures
        exists|at: int| first_at(text, delimiter, at),
    decreases found,
{
    if forall|j: int| 0 <= j < found ==> #[trigger] text[j] != delimiter {
        assert(first_at(text, delimiter, found));
    } else {
        let j = choose|j: int| 0 <= j < found && #[trigger] text[j] == delimiter;
        lemma_first_exists(text, delimiter, j);
    }
}

/// Where the delimiter occurs at all, it has a last occurrence.
proof fn lemma_last_exists(text: Seq<char>, delimiter: char, found: int)
    requires
        0 <= found < text.len(),
        text[found] == delimiter,
    ensures
        exists|at: int| last_at(text, delimiter, at),
    decreases text.len() - found,
{
    if forall|j: int| found < j < text.len() ==> #[trigger] text[j] != delimiter {
        assert(last_at(text, delimiter, found));
    } else {
        let j = choose|j: int| found < j < text.len() && #[trigger] text[j] == delimiter;
        lemma_last_exists(text, delimiter, j);
    }
}

/// Counts the occurrences of an ASCII delimiter in an ASCII text.
pub(crate) fn count_byte(text: &str, delimiter: u8) -> (n: usize)
    requires
        is_ascii(text),
        delimiter < 128,
    ensures
        n == count_of(text@, delimiter as char),
{
    let bytes = text.as_bytes();
    let len: usize = bytes.len();
    proof {
        is_ascii_spec_bytes(text);
    }
    let mut n: usize = 0;
    let mut i: usize = 0;
    while i < len
        invariant
            is_ascii(text),
            delimiter < 128,
            bytes@ == text.spec_bytes(),
            len == text@.len(),
            i <= len,
            n <= i,
            n == count_of(text@.take(i as int), delimiter as char),
        decreases len - i,
    {
        assert(text@.take(i + 1).drop_last() =~= text@.take(i as int));
        if bytes[i] == delimiter {
            n += 1;
        }
        i += 1;
    }
    assert(text@.take(len as int) =~= text@);
    n
}

/// Cuts an ASCII text at the first occurrence of an ASCII delimiter.
pub(crate) fn split_once<'a>(text: &'a str, delimiter: u8) -> (r: Option<(&'a str, &'a str)>)
    requires
        is_ascii(text),
        delimiter < 128,
    ensures
        match r {
            Some((head, tail)) => {
                &&& split_first(text@, delimiter as char) == Some((head@, tail@))
                &&& is_ascii(head)
                &&& is_ascii(tail)
            },
            None => split_first(text@, delimiter as char) is None,
        },
{
    let bytes = text.as_bytes();
    let len: usize = bytes.len();
    proof {
        is_ascii_spec_bytes(text);
    }
    let mut i: usize = 0;
    while i < len
        invariant
            is_ascii(text),
            delimiter < 128,
            bytes@ == text.spec_bytes(),
            len == text@.len(),
            i <= len,
            forall|j: int| 0 <= j < i ==> #[trigger] text@[j] != delimiter as char,
        decreases len - i,
    {
        if bytes[i] == delimiter {
            proof {
                lemma_split_at(text@, delimiter as char, i as int);
            }
            let head = text.substring_ascii(0, i);
            let tail = text.substring_ascii(i + 1, len);
            return Some((head, tail));
        }
        i += 1;
    }
    None
}

/// Cuts an ASCII text at the last occurrence of an ASCII delimiter.
pub(crate) fn rsplit_once<'a>(text: &'a str, delimiter: u8) -> (r: Option<(&'a str, &'a str)>)
    requires
        is_ascii(text),
        delimiter < 128,
    ensures
        match r {
            Some((head, tail)) => {
                &&& split_last(text@, delimiter as char) == Some((head@, tail@))
                &&& is_ascii(head)
                &&& is_ascii(tail)
            },
            None => split_last(text@, delimiter as char) is None,
        },
{
    let bytes = text.as_bytes();
    let len: usize = bytes.len();
    proof {
        is_ascii_spec_bytes(text);
    }
    let mut i: usize = len;
    while i > 0
        invariant
            is_ascii(text),
            delimiter < 128,
            bytes@ == text.spec_bytes(),
            len == text@.len(),
            i <= len,
            forall|j: int| i <= j < len ==> #[trigger] text@[j] != delimiter as char,
        decreases i,
    {
        i -= 1;
        if bytes[i] == delimiter {
            proof {
                lemma_split_at(text@, delimiter as char, i as int);
            }
            let head = text.substring_ascii(0, i);
            let tail = text.substring_ascii(i + 1, len);
            return Some((head, tail));
        }
    }
    None
}

} // verus!
