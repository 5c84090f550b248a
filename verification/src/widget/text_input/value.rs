//! The value of a text input: text held as its grapheme clusters, so that
//! what a user perceives as one character is edited as one unit.

use super::model::{
    clamped, covers_offset, holds_offset, insert_many_of, insert_of,
    lemma_chars_before_grows, lemma_covers_offset_unique, lemma_empty_is_valid,
    lemma_holds_from_covers, lemma_holds_offset_unique, lemma_secure_masks,
    lemma_segmented_is_whole, lemma_splits_bound, lemma_text_covers_clusters, lemma_text_split,
    lemma_valid_range, mask, next_word_end, previous_word_start, remove_many_of, secure_of,
    segmented, select_of, valid,
};
use super::segmentation::{grapheme_clusters, graphemes, split_word_bounds};
use super::strings::{append_range, char_to_string, copy_range, covering_place, joined_len};
use super::words::{
    first_word, is_first_word, is_last_word, last_word, lemma_first_word_unique,
    lemma_last_word_unique,
};
use vstd::prelude::*;
use vstd::string::{StrSliceExecFns, StringExecFns};

verus! {

/// The value of a text input.
///
/// Its view is the sequence of its clusters, each the sequence of its
/// characters. No cluster is ever empty, and no grapheme cluster ever lies
/// across two entries: a new value holds the grapheme clusters of its text,
/// and so does a value after every insertion and removal, each of which
/// segments the text anew; a selection holds a range of those clusters, and
/// a secured value holds masks.
#[derive(Debug, PartialEq)]
pub struct Value {
    graphemes: Vec<String>,
}

impl View for Value {
    type V = Seq<Seq<char>>;

    closed spec fn view(&self) -> Seq<Seq<char>> {
        self.graphemes.deep_view()
    }
}

impl ToString for Value {
    /// Returns the text of the value: its clusters joined in order.
    fn to_string(&self) -> (text: String)
        ensures
            text@ == self.text(),
    {
        let mut text = String::new();
        append_range(&mut text, &self.graphemes, 0, self.graphemes.len());
        assert(self@.subrange(0, self@.len() as int) =~= self@);
        text
    }
}

impl Default for Value {
    /// The empty value.
    fn default() -> (value: Self)
        ensures
            value@ == Seq::<Seq<char>>::empty(),
            valid(value@),
    {
        let graphemes: Vec<String> = Vec::new();
        proof {
            lemma_empty_is_valid();
            assert(graphemes.deep_view() =~= Seq::<Seq<char>>::empty());
        }
        Value { graphemes }
    }
}

impl Clone for Value {
    /// A value with the same clusters.
    fn clone(&self) -> (copy: Self)
        ensures
            copy@ == self@,
            valid(copy@),
    {
        proof {
            use_type_invariant(self);
        }
        let graphemes = copy_range(&self.graphemes, 0, self.graphemes.len());
        assert(self.graphemes@.subrange(0, self.graphemes@.len() as int) =~= self.graphemes@);
        Value { graphemes }
    }
}

/// The mask as a string.
fn mask_string() -> (string: String)
    ensures
        string@ == mask(),
{
    proof {
        reveal_strlit("\u{2022}");
    }
    let string = String::from_str("\u{2022}");
    assert(string@ =~= mask());
    string
}

impl Value {
    #[verifier::type_invariant]
    spec fn holds_whole_clusters(&self) -> bool {
        valid(self.graphemes.deep_view())
    }

    /// The text of the value: its clusters joined in order.
    pub open spec fn text(&self) -> Seq<char> {
        self@.flatten()
    }

    /// Creates a value from a string slice: its clusters are the grapheme
    /// clusters of the string, and its text is the string.
    pub fn new(string: &str) -> (value: Self)
        ensures
            value@ == grapheme_clusters(string@),
            value@.len() == grapheme_clusters(string@).len(),
            value@.len() <= string@.len(),
            value.text() == string@,
            segmented(value@),
            valid(value@),
    {
        let graphemes = graphemes(string);
        proof {
            lemma_splits_bound(graphemes.deep_view(), string@);
            lemma_segmented_is_whole(graphemes.deep_view());
        }
        Value { graphemes }
    }

    /// Returns whether the value is empty: it holds no cluster, which is to
    /// say that its text is empty.
    #[must_use]
    #[inline]
    pub fn is_empty(&self) -> (empty: bool)
        ensures
            empty == (self@.len() == 0),
            empty == (self.text().len() == 0),
    {
        proof {
            use_type_invariant(self);
            lemma_text_covers_clusters(self@);
        }
        self.len() == 0
    }

    /// Returns the number of clusters of the value.
    #[must_use]
    #[inline]
    pub fn len(&self) -> (len: usize)
        ensures
            len == self@.len(),
    {
        self.graphemes.len()
    }

    /// Returns the position of the previous start of a word from the
    /// cluster position `index`: the place of the cluster in which the last
    /// word before `index` starts, and 0 where no word precedes.
    ///
    /// The position lies before `index`, but for `index` 0. For an index
    /// past the end it is counted on by as much as the index lies past the
    /// end.
    #[must_use]
    pub fn previous_start_of_word(&self, index: usize) -> (position: usize)
        ensures
            position == previous_word_start(self@, index as int),
            position <= index,
            index > 0 ==> position < index,
            index <= self@.len() ==> position <= self@.len(),
    {
        let len = self.graphemes.len();
        let upto = if index < len { index } else { len };
        if upto == 0 {
            return 0;
        }
        let mut previous = String::new();
        append_range(&mut previous, &self.graphemes, 0, upto);
        assert(self@.subrange(0, upto as int) =~= self@.take(upto as int));
        let previous_len = previous.as_str().unicode_len();
        let pieces = split_word_bounds(previous.as_str());
        let ghost cut = pieces.deep_view();
        match last_word(&pieces) {
            None => 0,
            Some(k) => {
                assert(k < pieces.len());
                let offset = joined_len(&pieces, k);
                proof {
                    let chosen = choose|j: int| is_last_word(cut, j);
                    lemma_last_word_unique(cut, k as int, chosen);
                    lemma_text_split(cut, k + 1);
                    assert(cut.take(k + 1) =~= cut.take(k as int).push(cut[k as int]));
                    cut.take(k as int).lemma_flatten_push(cut[k as int]);
                    assert(cut[k as int].len() > 0);
                    assert(offset < previous_len);
                }
                let behind = covering_place(&self.graphemes, upto, offset + 1);
                proof {
                    lemma_holds_from_covers(self@, offset as int, behind as int);
                    let held = choose|place: int| holds_offset(self@, offset as int, place);
                    lemma_holds_offset_unique(self@, offset as int, behind - 1, held);
                }
                behind - 1 + (index - upto)
            },
        }
    }

    /// Returns the position of the next end of a word from the cluster
    /// position `index`: the first place that has the first word from
    /// `index` on in front of it; the length of the value where no word
    /// follows, and where `index` is at or past the end.
    ///
    /// The position lies between `index` and the length.
    #[must_use]
    pub fn next_end_of_word(&self, index: usize) -> (position: usize)
        ensures
            position == next_word_end(self@, index as int),
            position <= self@.len(),
            index <= self@.len() ==> index <= position,
            index >= self@.len() ==> position == self@.len(),
    {
        let len = self.graphemes.len();
        if index >= len {
            return len;
        }
        let text = self.to_string();
        let text_len = text.as_str().unicode_len();
        assert(self@.take(len as int) =~= self@);
        let before = joined_len(&self.graphemes, index);
        proof {
            lemma_text_split(self@, index as int);
        }
        let next = text.as_str().substring_char(before, text_len);
        assert(text@.subrange(before as int, text_len as int) =~= text@.skip(before as int));
        let pieces = split_word_bounds(next);
        let ghost cut = pieces.deep_view();
        match first_word(&pieces) {
            None => len,
            Some(k) => {
                assert(k < pieces.len());
                let end = joined_len(&pieces, k + 1);
                proof {
                    let chosen = choose|j: int| is_first_word(cut, j);
                    lemma_first_word_unique(cut, k as int, chosen);
                    lemma_text_split(cut, k + 1);
                    assert(cut.take(k + 1) =~= cut.take(k as int).push(cut[k as int]));
                    cut.take(k as int).lemma_flatten_push(cut[k as int]);
                    assert(cut[k as int].len() > 0);
                    assert(end >= 1);
                }
                let position = covering_place(&self.graphemes, len, before + end);
                proof {
                    let offset: int = before + end;
                    let covering = choose|place: int| covers_offset(self@, offset, place);
                    lemma_covers_offset_unique(self@, offset, position as int, covering);
                    if position <= index {
                        lemma_chars_before_grows(self@, position as int, index as int);
                    }
                }
                position
            },
        }
    }

    /// Returns a new value that holds the clusters from `start` until `end`.
    ///
    /// Each bound is held to the length on its own. Where the bounds then
    /// cross, the new value is empty.
    #[must_use]
    #[inline]
    pub fn select(&self, start: usize, end: usize) -> (selected: Self)
        ensures
            selected@ == select_of(self@, start as int, end as int),
            valid(selected@),
    {
        proof {
            use_type_invariant(self);
        }
        let len = self.graphemes.len();
        let from = if start < len { start } else { len };
        let to = if end < len { end } else { len };
        if from <= to {
            let graphemes = copy_range(&self.graphemes, from, to);
            proof {
                assert(graphemes.deep_view() =~= self@.subrange(from as int, to as int));
                lemma_valid_range(self@, from as int, to as int);
            }
            Value { graphemes }
        } else {
            let graphemes: Vec<String> = Vec::new();
            proof {
                lemma_empty_is_valid();
                assert(graphemes.deep_view() =~= Seq::<Seq<char>>::empty());
            }
            Value { graphemes }
        }
    }

    /// Returns a new value that holds the clusters until `index`, all of
    /// them if `index` is past the end.
    #[must_use]
    #[inline]
    pub fn until(&self, index: usize) -> (selected: Self)
        ensures
            selected@ == select_of(self@, 0, index as int),
            selected@ == self@.take(clamped(index as int, self@.len() as int)),
            valid(selected@),
    {
        self.select(0, index)
    }

    /// Inserts a character at the cluster position `index` and segments
    /// the text anew: the character may join its neighbours in one cluster.
    #[inline]
    pub fn insert(&mut self, index: usize, c: char)
        requires
            index <= old(self)@.len(),
        ensures
            final(self)@ == insert_of(old(self)@, index as int, c),
            final(self).text() == old(self)@.take(index as int).flatten() + seq![c] + old(
                self,
            )@.skip(index as int).flatten(),
            segmented(final(self)@),
            valid(final(self)@),
    {
        let mut text = String::new();
        append_range(&mut text, &self.graphemes, 0, index);
        text.append(char_to_string(c).as_str());
        append_range(&mut text, &self.graphemes, index, self.graphemes.len());
        proof {
            assert(self@.subrange(0, index as int) =~= self@.take(index as int));
            assert(self@.subrange(index as int, self@.len() as int) =~= self@.skip(index as int));
        }
        let graphemes = graphemes(text.as_str());
        proof {
            lemma_splits_bound(graphemes.deep_view(), text@);
            lemma_segmented_is_whole(graphemes.deep_view());
        }
        self.graphemes = graphemes;
    }

    /// Inserts the text of `value` at the cluster position `index` and
    /// segments the text anew: the clusters at the seams may join. An empty
    /// `value` leaves the value as it is. `value` is used up.
    #[inline]
    pub fn insert_many(&mut self, index: usize, value: Value)
        requires
            index <= old(self)@.len(),
        ensures
            final(self)@ == insert_many_of(old(self)@, index as int, value@),
            value@.len() == 0 ==> final(self)@ == old(self)@,
            final(self).text() == old(self)@.take(index as int).flatten() + value.text() + old(
                self,
            )@.skip(index as int).flatten(),
            value@.len() > 0 || segmented(old(self)@) ==> segmented(final(self)@),
            valid(final(self)@),
    {
        if value.graphemes.len() == 0 {
            proof {
                use_type_invariant(&*self);
                lemma_text_split(self@, index as int);
                assert(value@ =~= Seq::<Seq<char>>::empty());
                assert(self@.take(index as int).flatten() + value.text() =~= self@.take(
                    index as int,
                ).flatten());
            }
            return ;
        }
        let mut text = String::new();
        append_range(&mut text, &self.graphemes, 0, index);
        append_range(&mut text, &value.graphemes, 0, value.graphemes.len());
        append_range(&mut text, &self.graphemes, index, self.graphemes.len());
        proof {
            assert(self@.subrange(0, index as int) =~= self@.take(index as int));
            assert(self@.subrange(index as int, self@.len() as int) =~= self@.skip(index as int));
            assert(value@.subrange(0, value@.len() as int) =~= value@);
        }
        let graphemes = graphemes(text.as_str());
        proof {
            lemma_splits_bound(graphemes.deep_view(), text@);
            lemma_segmented_is_whole(graphemes.deep_view());
        }
        self.graphemes = graphemes;
    }

    /// Removes the cluster at position `index` and segments the text anew:
    /// the clusters on its two sides may join.
    #[inline]
    pub fn remove(&mut self, index: usize)
        requires
            index < old(self)@.len(),
        ensures
            final(self)@ == remove_many_of(old(self)@, index as int, index + 1),
            final(self).text() == old(self)@.take(index as int).flatten() + old(self)@.skip(
                index + 1,
            ).flatten(),
            segmented(final(self)@),
            valid(final(self)@),
    {
        let len = self.graphemes.len();
        assert(index < len);
        self.remove_many(index, index + 1);
    }

    /// Removes the clusters from `start` until `end` and segments the text
    /// anew: the clusters on the two sides of the range may join. An empty
    /// range leaves the value as it is.
    #[inline]
    pub fn remove_many(&mut self, start: usize, end: usize)
        requires
            start <= end <= old(self)@.len(),
        ensures
            final(self)@ == remove_many_of(old(self)@, start as int, end as int),
            start == end ==> final(self)@ == old(self)@,
            final(self).text() == old(self)@.take(start as int).flatten() + old(self)@.skip(
                end as int,
            ).flatten(),
            start < end || segmented(old(self)@) ==> segmented(final(self)@),
            valid(final(self)@),
    {
        if start == end {
            proof {
                use_type_invariant(&*self);
                lemma_text_split(self@, start as int);
            }
            return ;
        }
        let mut text = String::new();
        append_range(&mut text, &self.graphemes, 0, start);
        append_range(&mut text, &self.graphemes, end, self.graphemes.len());
        proof {
            assert(self@.subrange(0, start as int) =~= self@.take(start as int));
            assert(self@.subrange(end as int, self@.len() as int) =~= self@.skip(end as int));
        }
        let graphemes = graphemes(text.as_str());
        proof {
            lemma_splits_bound(graphemes.deep_view(), text@);
            lemma_segmented_is_whole(graphemes.deep_view());
        }
        self.graphemes = graphemes;
    }

    /// Returns a new value of the same length in which the mask stands for
    /// every cluster.
    #[must_use]
    pub fn secure(&self) -> (secured: Self)
        ensures
            secured@ == secure_of(self@),
            secured@.len() == self@.len(),
            forall|i: int| 0 <= i < secured@.len() ==> #[trigger] secured@[i] == mask(),
            valid(secured@),
    {
        let len = self.graphemes.len();
        let mut graphemes: Vec<String> = Vec::new();
        for i in 0..len
            invariant
                len == self.graphemes@.len(),
                graphemes@.len() == i,
                forall|j: int| 0 <= j < i ==> (#[trigger] graphemes@[j])@ == mask(),
        {
            graphemes.push(mask_string());
        }
        proof {
            assert(graphemes.deep_view() =~= secure_of(self@));
            lemma_secure_masks(self@);
        }
        Value { graphemes }
    }
}

} // verus!
