//! Lists of strings: copying a range of them, joining it, counting its
//! characters, and finding the string that holds a character of the joined
//! text.

use super::model::{chars_before, covers_offset, lemma_chars_before_grows, lemma_text_split};
use vstd::prelude::*;
use vstd::string::{StrSliceExecFns, StringExecFns};

verus! {

/// Copies the strings from `from` up to `to` into a list of their own.
pub(crate) fn copy_range(strings: &Vec<String>, from: usize, to: usize) -> (copies: Vec<String>)
    requires
        from <= to <= strings@.len(),
    ensures
        copies@ == strings@.subrange(from as int, to as int),
{
    let mut copies: Vec<String> = Vec::new();
    for i in from..to
        invariant
            from <= to <= strings@.len(),
            copies@ =~= strings@.subrange(from as int, i as int),
    {
        copies.push(strings[i].clone());
    }
    copies
}

/// Calls `ToString::to_string` on a character.
///
/// Believed: the string holds that character and nothing else.
#[verifier::external_body]
pub(crate) fn char_to_string(c: char) -> (string: String)
    ensures
        string@ == seq![c],
{
    c.to_string()
}

/// Appends to `text` the strings from `from` up to `to`, in order.
pub(crate) fn append_range(text: &mut String, strings: &Vec<String>, from: usize, to: usize)
    requires
        from <= to <= strings@.len(),
    ensures
        final(text)@ == old(text)@ + strings.deep_view().subrange(from as int, to as int).flatten(),
{
    let ghost pieces = strings.deep_view();
    assert(pieces.subrange(from as int, from as int) =~= Seq::<Seq<char>>::empty());
    assert(text@ =~= old(text)@ + Seq::<Seq<char>>::empty().flatten());
    for i in from..to
        invariant
            from <= to <= strings@.len(),
            pieces == strings.deep_view(),
            text@ == old(text)@ + pieces.subrange(from as int, i as int).flatten(),
    {
        proof {
            let done = pieces.subrange(from as int, i as int);
            assert(pieces.subrange(from as int, i + 1) =~= done.push(pieces[i as int]));
            done.lemma_flatten_push(pieces[i as int]);
            assert(old(text)@ + (done.flatten() + pieces[i as int]) =~= old(text)@
                + done.flatten() + pieces[i as int]);
        }
        text.append(strings[i].as_str());
    }
}

/// Counts the characters of the first `count` strings together.
pub(crate) fn joined_len(strings: &Vec<String>, count: usize) -> (chars: usize)
    requires
        count <= strings@.len(),
        strings.deep_view().flatten().len() <= usize::MAX,
    ensures
        chars == strings.deep_view().take(count as int).flatten().len(),
{
    let ghost pieces = strings.deep_view();
    let mut chars: usize = 0;
    assert(pieces.take(0) =~= Seq::<Seq<char>>::empty());
    for i in 0..count
        invariant
            count <= strings@.len(),
            pieces == strings.deep_view(),
            pieces.flatten().len() <= usize::MAX,
            chars == pieces.take(i as int).flatten().len(),
    {
        proof {
            assert(pieces.take(i + 1) =~= pieces.take(i as int).push(pieces[i as int]));
            pieces.take(i as int).lemma_flatten_push(pieces[i as int]);
            lemma_text_split(pieces, i + 1);
        }
        chars = chars + strings[i].as_str().unicode_len();
    }
    chars
}

/// Finds the first place among the first `limit` that has the first `offset`
/// characters of the joined text in front of it.
pub(crate) fn covering_place(strings: &Vec<String>, limit: usize, offset: usize) -> (place: usize)
    requires
        limit <= strings@.len(),
        chars_before(strings.deep_view(), limit as int) <= usize::MAX,
        offset <= chars_before(strings.deep_view(), limit as int),
    ensures
        place <= limit,
        covers_offset(strings.deep_view(), offset as int, place as int),
{
    let ghost pieces = strings.deep_view();
    let mut place: usize = 0;
    let mut chars: usize = 0;
    assert(pieces.take(0) =~= Seq::<Seq<char>>::empty());
    while chars < offset
        invariant
            limit <= strings@.len(),
            pieces == strings.deep_view(),
            chars_before(pieces, limit as int) <= usize::MAX,
            offset <= chars_before(pieces, limit as int),
            place <= limit,
            chars == chars_before(pieces, place as int),
            place > 0 ==> chars_before(pieces, place - 1) < offset,
        decreases limit - place,
    {
        proof {
            assert(place < limit);
            assert(pieces.take(place + 1) =~= pieces.take(place as int).push(pieces[place as int]));
            pieces.take(place as int).lemma_flatten_push(pieces[place as int]);
            lemma_chars_before_grows(pieces, place + 1, limit as int);
        }
        chars = chars + strings[place].as_str().unicode_len();
        place = place + 1;
    }
    place
}

} // verus!
