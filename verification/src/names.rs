//! Type names as they are shown in diagnostics.

use vstd::prelude::*;
use vstd::string::*;

verus! {

/// How many more `>` than `<` a text holds.
pub open spec fn nesting(text: Seq<char>) -> int
    decreases text.len(),
{
    if text.len() == 0 {
        0
    } else {
        nesting(text.drop_first()) + if text[0] == '>' {
            1int
        } else if text[0] == '<' {
            -1int
        } else {
            0int
        }
    }
}

/// Whether a path separator ends just before position `i`, outside any
/// generic argument list that closes to the right of it.
pub open spec fn splits_at(name: Seq<char>, i: int) -> bool {
    &&& 0 < i <= name.len()
    &&& name[i - 1] == ':'
    &&& nesting(name.skip(i)) == 0
}

/// The greatest position up to `limit` at which the name splits, or 0.
pub open spec fn split_point(name: Seq<char>, limit: int) -> int
    decreases limit,
{
    if limit <= 0 {
        0
    } else if splits_at(name, limit) {
        limit
    } else {
        split_point(name, limit - 1)
    }
}

/// A name without its module path: what follows the last `:` that stands
/// outside the generic arguments to its right.
pub open spec fn short_name(name: Seq<char>) -> Seq<char> {
    name.skip(split_point(name, name.len() as int))
}

/// A name as a report shows it.
pub open spec fn shown(name: Seq<char>, short_types: bool) -> Seq<char> {
    if short_types {
        short_name(name)
    } else {
        name
    }
}

/// The texts of `parts` with `separator` between each two of them.
pub open spec fn joined(parts: Seq<Seq<char>>, separator: Seq<char>) -> Seq<char>
    decreases parts.len(),
{
    if parts.len() == 0 {
        Seq::empty()
    } else if parts.len() == 1 {
        parts[0]
    } else {
        joined(parts.drop_last(), separator) + separator + parts.last()
    }
}

/// The texts that a sequence of strings holds.
pub open spec fn texts(parts: Seq<String>) -> Seq<Seq<char>> {
    Seq::new(parts.len(), |i: int| parts[i]@)
}

/// Whether `char::is_whitespace` holds of a character.
pub uninterp spec fn is_whitespace(c: char) -> bool;

/// A text without the white space at its start.
pub open spec fn trimmed_start(text: Seq<char>) -> Seq<char>
    decreases text.len(),
{
    if text.len() > 0 && is_whitespace(text[0]) {
        trimmed_start(text.drop_first())
    } else {
        text
    }
}

/// A text without the white space at its end.
pub open spec fn trimmed_end(text: Seq<char>) -> Seq<char>
    decreases text.len(),
{
    if text.len() > 0 && is_whitespace(text.last()) {
        trimmed_end(text.drop_last())
    } else {
        text
    }
}

/// A text without the white space at both ends.
pub open spec fn trimmed(text: Seq<char>) -> Seq<char> {
    trimmed_end(trimmed_start(text))
}

/// Calls `char::is_whitespace`, which tells whether a character has the
/// Unicode property `White_Space`.
#[verifier::external_body]
pub(crate) fn whitespace(c: char) -> (white: bool)
    ensures
        white == is_whitespace(c),
{
    c.is_whitespace()
}

/// The part of `text` between its leading and its trailing white space.
pub fn trim(text: &str) -> (inner: &str)
    ensures
        inner@ == trimmed(text@),
{
    let len = text.unicode_len();
    let mut start: usize = 0;
    assert(text@.skip(0) =~= text@);
    while start < len && whitespace(text.get_char(start))
        invariant
            start <= len,
            len == text@.len(),
            trimmed_start(text@) == trimmed_start(text@.skip(start as int)),
        decreases len - start,
    {
        assert(text@.skip(start as int).drop_first() =~= text@.skip(start + 1));
        start += 1;
    }
    assert(trimmed_start(text@) == text@.skip(start as int));
    let mut end: usize = len;
    assert(text@.subrange(start as int, len as int) =~= text@.skip(start as int));
    while end > start && whitespace(text.get_char(end - 1))
        invariant
            start <= end <= len,
            len == text@.len(),
            trimmed(text@) == trimmed_end(text@.subrange(start as int, end as int)),
        decreases end - start,
    {
        assert(text@.subrange(start as int, end as int).drop_last() =~= text@.subrange(
            start as int,
            end - 1,
        ));
        end -= 1;
    }
    text.substring_char(start, end)
}

/// Shortens a type name to what follows its module path, if asked to.
pub fn make_name_shorter(name: &str, short_types: bool) -> (short: &str)
    ensures
        short@ == shown(name@, short_types),
{
    if !short_types {
        return name;
    }
    let len = name.unicode_len();
    let mut i: usize = len;
    let mut depth: i128 = 0;
    assert(name@.skip(len as int) =~= Seq::<char>::empty());
    while i > 0
        invariant
            short_types,
            i <= len,
            len == name@.len(),
            depth == nesting(name@.skip(i as int)),
            -(len - i) <= depth <= len - i,
            split_point(name@, len as int) == split_point(name@, i as int),
        decreases i,
    {
        let c = name.get_char(i - 1);
        proof {
            assert(name@.skip(i - 1).drop_first() =~= name@.skip(i as int));
            assert(name@.skip(i - 1)[0] == c);
        }
        if c == ':' && depth == 0 {
            assert(splits_at(name@, i as int));
            assert(split_point(name@, i as int) == i);
            let short = name.substring_char(i, len);
            assert(short@ =~= name@.skip(i as int));
            return short;
        }
        if c == '>' {
            depth = depth + 1;
        } else if c == '<' {
            depth = depth - 1;
        }
        i = i - 1;
    }
    assert(name@.skip(0) =~= name@);
    name
}

/// Joins the strings of `parts`, with `separator` between each two of them.
pub fn join(parts: &Vec<String>, separator: &str) -> (text: String)
    ensures
        text@ == joined(texts(parts@), separator@),
{
    let mut text = String::new();
    let mut i: usize = 0;
    while i < parts.len()
        invariant
            i <= parts.len(),
            text@ == joined(texts(parts@).take(i as int), separator@),
        decreases parts.len() - i,
    {
        proof {
            let all = texts(parts@);
            assert(all.take(i + 1).drop_last() =~= all.take(i as int));
            assert(all.take(i + 1).last() == parts@[i as int]@);
            if i == 0 {
                assert(text@ + parts@[i as int]@ =~= parts@[i as int]@);
            }
        }
        if i > 0 {
            text.append(separator);
        }
        text.append(parts[i].as_str());
        i += 1;
    }
    assert(texts(parts@).take(parts.len() as int) =~= texts(parts@));
    text
}

} // verus!
