//! The mathematical model of a text value: a sequence of grapheme clusters,
//! each a sequence of characters.
//!
//! Every operation of the value is stated here as a function on that
//! sequence, and the laws that relate the operations are proved of those
//! functions. The mutations segment the text anew, so that no grapheme
//! cluster of the text lies across two entries afterwards.

use super::segmentation::{grapheme_clusters, splits, word_bounds};
use super::words::{all_blank, is_first_word, is_last_word};
use vstd::prelude::*;
use vstd::seq_lib::lemma_flatten_concat;

verus! {

/// The glyph that a secured value shows in place of each cluster: a bullet.
pub open spec fn mask() -> Seq<char> {
    seq!['\u{2022}']
}

/// No cluster is empty.
pub open spec fn well_formed(clusters: Seq<Seq<char>>) -> bool {
    forall|i: int| 0 <= i < clusters.len() ==> (#[trigger] clusters[i]).len() > 0
}

/// The clusters are those into which their own text segments: no grapheme
/// cluster of the text lies across two entries.
pub open spec fn segmented(clusters: Seq<Seq<char>>) -> bool {
    clusters == grapheme_clusters(clusters.flatten())
}

/// `clusters` are the clusters of the text `source` from place `from` up to
/// place `to`.
pub open spec fn is_range_of(
    clusters: Seq<Seq<char>>,
    source: Seq<char>,
    from: int,
    to: int,
) -> bool {
    &&& 0 <= from <= to <= grapheme_clusters(source).len()
    &&& clusters == grapheme_clusters(source).subrange(from, to)
}

/// Each entry is a whole grapheme cluster of one text, and the entries follow
/// one another as the clusters of that text do: no grapheme cluster of the
/// text lies across two entries.
pub open spec fn whole_clusters(clusters: Seq<Seq<char>>) -> bool {
    exists|source: Seq<char>, from: int, to: int| is_range_of(clusters, source, from, to)
}

/// Every entry is the mask.
pub open spec fn all_masks(clusters: Seq<Seq<char>>) -> bool {
    forall|i: int| 0 <= i < clusters.len() ==> #[trigger] clusters[i] == mask()
}

/// What holds of every value: no entry is empty, and the entries are whole
/// clusters of one text, or masks.
pub open spec fn valid(clusters: Seq<Seq<char>>) -> bool {
    &&& well_formed(clusters)
    &&& whole_clusters(clusters) || all_masks(clusters)
}

/// `index`, held to at most `len`.
pub open spec fn clamped(index: int, len: int) -> int {
    if index < len {
        index
    } else {
        len
    }
}

/// The clusters from `start` up to `end`, each bound held to the length on
/// its own; nothing where the bounds then cross.
pub open spec fn select_of(clusters: Seq<Seq<char>>, start: int, end: int) -> Seq<Seq<char>>
    recommends
        0 <= start,
        0 <= end,
{
    let from = clamped(start, clusters.len() as int);
    let to = clamped(end, clusters.len() as int);
    if from <= to {
        clusters.subrange(from, to)
    } else {
        Seq::empty()
    }
}

/// The clusters with `other` put in before position `index`, entry by
/// entry and without a look at the text.
pub open spec fn spliced(
    clusters: Seq<Seq<char>>,
    index: int,
    other: Seq<Seq<char>>,
) -> Seq<Seq<char>>
    recommends
        0 <= index <= clusters.len(),
{
    clusters.take(index) + other + clusters.skip(index)
}

/// The clusters without the entries from `start` up to `end`, without a look
/// at the text.
pub open spec fn cut(clusters: Seq<Seq<char>>, start: int, end: int) -> Seq<Seq<char>>
    recommends
        0 <= start <= end <= clusters.len(),
{
    clusters.take(start) + clusters.skip(end)
}

/// The clusters after the text of `other` went in before position `index`
/// and the text was segmented anew. Where `other` holds nothing, the
/// clusters as they are.
pub open spec fn insert_many_of(
    clusters: Seq<Seq<char>>,
    index: int,
    other: Seq<Seq<char>>,
) -> Seq<Seq<char>>
    recommends
        0 <= index <= clusters.len(),
{
    if other.len() == 0 {
        clusters
    } else {
        grapheme_clusters(
            clusters.take(index).flatten() + other.flatten() + clusters.skip(index).flatten(),
        )
    }
}

/// The clusters after the text of the entries from `start` up to `end` was
/// taken out and the text was segmented anew. Where the range holds nothing,
/// the clusters as they are.
pub open spec fn remove_many_of(clusters: Seq<Seq<char>>, start: int, end: int) -> Seq<Seq<char>>
    recommends
        0 <= start <= end <= clusters.len(),
{
    if start == end {
        clusters
    } else {
        grapheme_clusters(clusters.take(start).flatten() + clusters.skip(end).flatten())
    }
}

/// As many masks as there are clusters.
pub open spec fn secure_of(clusters: Seq<Seq<char>>) -> Seq<Seq<char>> {
    Seq::new(clusters.len(), |i: int| mask())
}

/// The clusters after one character went in before position `index` and
/// the text was segmented anew.
pub open spec fn insert_of(clusters: Seq<Seq<char>>, index: int, c: char) -> Seq<Seq<char>>
    recommends
        0 <= index <= clusters.len(),
{
    grapheme_clusters(clusters.take(index).flatten() + seq![c] + clusters.skip(index).flatten())
}

/// The number of characters of the text in front of place `place`.
pub open spec fn chars_before(clusters: Seq<Seq<char>>, place: int) -> int
    recommends
        0 <= place <= clusters.len(),
{
    clusters.take(place).flatten().len() as int
}

/// `place` is the place of the cluster that holds the character at `offset`
/// of the text.
pub open spec fn holds_offset(clusters: Seq<Seq<char>>, offset: int, place: int) -> bool {
    &&& 0 <= place < clusters.len()
    &&& chars_before(clusters, place) <= offset < chars_before(clusters, place + 1)
}

/// `place` is the first place that has the first `offset` characters of the
/// text in front of it.
pub open spec fn covers_offset(clusters: Seq<Seq<char>>, offset: int, place: int) -> bool {
    &&& 0 <= place <= clusters.len()
    &&& offset <= chars_before(clusters, place)
    &&& place > 0 ==> chars_before(clusters, place - 1) < offset
}

/// Where the word before position `index` starts.
///
/// The text of the clusters before `index` (of all of them, if `index` is
/// past the end) is cut at its word boundaries. The word is the last piece
/// that is not blank, and it starts at the place of the cluster that holds
/// its first character. An index past the end moves the answer on by as much
/// as it lies past the end. Without a word, and at the very start, the answer
/// is 0.
pub open spec fn previous_word_start(clusters: Seq<Seq<char>>, index: int) -> int
    recommends
        0 <= index,
{
    let upto = clamped(index, clusters.len() as int);
    let pieces = word_bounds(clusters.take(upto).flatten());
    if upto <= 0 || all_blank(pieces) {
        0
    } else {
        let k = choose|k: int| is_last_word(pieces, k);
        let offset = pieces.take(k).flatten().len() as int;
        (choose|place: int| holds_offset(clusters, offset, place)) + (index - upto)
    }
}

/// Where the word after position `index` ends.
///
/// The text of the clusters from `index` on is cut at its word boundaries.
/// The word is the first piece that is not blank, and it ends at the first
/// place that has all its characters in front of it. Without a word, and at
/// or past the end, the answer is the length.
pub open spec fn next_word_end(clusters: Seq<Seq<char>>, index: int) -> int
    recommends
        0 <= index,
{
    let pieces = word_bounds(clusters.skip(index).flatten());
    if index >= clusters.len() || all_blank(pieces) {
        clusters.len() as int
    } else {
        let k = choose|k: int| is_first_word(pieces, k);
        let offset = chars_before(clusters, index) + pieces.take(k + 1).flatten().len();
        choose|place: int| covers_offset(clusters, offset, place)
    }
}

/// A later place has no fewer characters in front of it.
pub proof fn lemma_chars_before_grows(clusters: Seq<Seq<char>>, near: int, far: int)
    requires
        0 <= near <= far <= clusters.len(),
    ensures
        chars_before(clusters, near) <= chars_before(clusters, far),
{
    assert(clusters.take(far).take(near) =~= clusters.take(near));
    lemma_text_split(clusters.take(far), near);
}

/// At most one cluster holds the character at an offset.
pub proof fn lemma_holds_offset_unique(clusters: Seq<Seq<char>>, offset: int, p: int, q: int)
    requires
        holds_offset(clusters, offset, p),
        holds_offset(clusters, offset, q),
    ensures
        p == q,
{
    if p < q {
        lemma_chars_before_grows(clusters, p + 1, q);
    } else if q < p {
        lemma_chars_before_grows(clusters, q + 1, p);
    }
}

/// At most one place is the first to have an offset in front of it.
pub proof fn lemma_covers_offset_unique(clusters: Seq<Seq<char>>, offset: int, p: int, q: int)
    requires
        covers_offset(clusters, offset, p),
        covers_offset(clusters, offset, q),
    ensures
        p == q,
{
    if p < q {
        lemma_chars_before_grows(clusters, p, q - 1);
    } else if q < p {
        lemma_chars_before_grows(clusters, q, p - 1);
    }
}

/// The first place that has one character more than `offset` in front of it
/// lies just behind the cluster that holds the character at `offset`.
pub proof fn lemma_holds_from_covers(clusters: Seq<Seq<char>>, offset: int, place: int)
    requires
        0 <= offset,
        covers_offset(clusters, offset + 1, place),
    ensures
        place > 0,
        holds_offset(clusters, offset, place - 1),
{
    assert(clusters.take(0).flatten() =~= Seq::<char>::empty());
}

/// A bound past the end selects as the end itself does, and a start behind
/// the end selects nothing.
pub proof fn lemma_select_clamps(clusters: Seq<Seq<char>>, start: int, end: int)
    requires
        0 <= start,
        0 <= end,
    ensures
        end > clusters.len() ==> select_of(clusters, start, end) == select_of(
            clusters,
            start,
            clusters.len() as int,
        ),
        start > clusters.len() ==> select_of(clusters, start, end) == select_of(
            clusters,
            clusters.len() as int,
            end,
        ),
        start > end ==> select_of(clusters, start, end) == Seq::<Seq<char>>::empty(),
        select_of(clusters, start, end).len() <= clusters.len(),
{
    let from = clamped(start, clusters.len() as int);
    let to = clamped(end, clusters.len() as int);
    if start > end && from <= to {
        assert(clusters.subrange(from, to) =~= Seq::<Seq<char>>::empty());
    }
}

/// Selecting from the start is taking a prefix.
pub proof fn lemma_select_from_start(clusters: Seq<Seq<char>>, index: int)
    requires
        0 <= index,
    ensures
        select_of(clusters, 0, index) == clusters.take(clamped(index, clusters.len() as int)),
{
}

/// Where the clusters around the seams stay the clusters they were, putting
/// clusters in is a plain splice: the value grows by as many clusters as went
/// in.
pub proof fn lemma_insert_many_plain(clusters: Seq<Seq<char>>, index: int, other: Seq<Seq<char>>)
    requires
        0 <= index <= clusters.len(),
        segmented(spliced(clusters, index, other)),
    ensures
        insert_many_of(clusters, index, other) == spliced(clusters, index, other),
        insert_many_of(clusters, index, other).len() == clusters.len() + other.len(),
{
    lemma_spliced_text(clusters, index, other);
    if other.len() == 0 {
        assert(spliced(clusters, index, other) =~= clusters);
    }
}

/// Where the clusters around the gap stay the clusters they were, removing a
/// range is a plain cut: the value shrinks by as many clusters as the range
/// held.
pub proof fn lemma_remove_many_plain(clusters: Seq<Seq<char>>, start: int, end: int)
    requires
        0 <= start <= end <= clusters.len(),
        segmented(cut(clusters, start, end)),
    ensures
        remove_many_of(clusters, start, end) == cut(clusters, start, end),
        remove_many_of(clusters, start, end).len() == clusters.len() - (end - start),
{
    lemma_cut_text(clusters, start, end);
    if start == end {
        assert(cut(clusters, start, end) =~= clusters);
    }
}

/// Removing a range and putting what it held back in at the place where it
/// began gives the clusters as they were, where the removal leaves the
/// clusters around the gap as they were.
pub proof fn lemma_remove_then_insert_restores(clusters: Seq<Seq<char>>, start: int, end: int)
    requires
        0 <= start <= end <= clusters.len(),
        segmented(clusters),
        segmented(cut(clusters, start, end)),
    ensures
        insert_many_of(
            remove_many_of(clusters, start, end),
            start,
            select_of(clusters, start, end),
        ) == clusters,
{
    let removed = select_of(clusters, start, end);
    let rest = cut(clusters, start, end);
    lemma_remove_many_plain(clusters, start, end);
    assert(rest.take(start) =~= clusters.take(start));
    assert(rest.skip(start) =~= clusters.skip(end));
    assert(clusters.take(start) + removed + clusters.skip(end) =~= clusters);
    lemma_spliced_text(rest, start, removed);
    assert(spliced(rest, start, removed) =~= clusters);
}

/// Putting clusters in and removing the range that they then fill gives the
/// clusters as they were, where the clusters around the seams stay the
/// clusters they were.
pub proof fn lemma_insert_then_remove_restores(
    clusters: Seq<Seq<char>>,
    index: int,
    other: Seq<Seq<char>>,
)
    requires
        0 <= index <= clusters.len(),
        segmented(clusters),
        segmented(spliced(clusters, index, other)),
    ensures
        remove_many_of(insert_many_of(clusters, index, other), index, index + other.len())
            == clusters,
        select_of(insert_many_of(clusters, index, other), index, index + other.len()) == other,
{
    let joined = spliced(clusters, index, other);
    lemma_insert_many_plain(clusters, index, other);
    assert(joined.take(index) =~= clusters.take(index));
    assert(joined.skip(index + other.len()) =~= clusters.skip(index));
    assert(joined.subrange(index, index + other.len()) =~= other);
    lemma_text_split(clusters, index);
}

/// Putting nothing in and removing nothing leave the clusters as they are,
/// whatever they are.
pub proof fn lemma_nothing_changes_nothing(clusters: Seq<Seq<char>>, index: int)
    ensures
        insert_many_of(clusters, index, Seq::empty()) == clusters,
        remove_many_of(clusters, index, index) == clusters,
{
}

/// Putting one character in is putting in the one cluster that holds it
/// alone.
pub proof fn lemma_insert_is_insert_many(clusters: Seq<Seq<char>>, index: int, c: char)
    requires
        0 <= index <= clusters.len(),
    ensures
        insert_of(clusters, index, c) == insert_many_of(clusters, index, seq![seq![c]]),
{
    seq![seq![c]].lemma_flatten_one_element();
}

/// A secured value is as long as the value, and each of its clusters is the
/// mask, whatever the value held.
pub proof fn lemma_secure_masks(clusters: Seq<Seq<char>>)
    ensures
        secure_of(clusters).len() == clusters.len(),
        forall|i: int| 0 <= i < clusters.len() ==> #[trigger] secure_of(clusters)[i] == mask(),
        all_masks(secure_of(clusters)),
        valid(secure_of(clusters)),
{
}

/// The text of the clusters is the text before a position followed by the
/// text from it on.
pub proof fn lemma_text_split(clusters: Seq<Seq<char>>, index: int)
    requires
        0 <= index <= clusters.len(),
    ensures
        clusters.flatten() == clusters.take(index).flatten() + clusters.skip(index).flatten(),
        clusters.take(index).flatten() == clusters.flatten().take(
            clusters.take(index).flatten().len() as int,
        ),
        clusters.skip(index).flatten() == clusters.flatten().skip(
            clusters.take(index).flatten().len() as int,
        ),
{
    assert(clusters.take(index) + clusters.skip(index) =~= clusters);
    lemma_flatten_concat(clusters.take(index), clusters.skip(index));
    let front = clusters.take(index).flatten();
    let back = clusters.skip(index).flatten();
    assert((front + back).take(front.len() as int) =~= front);
    assert((front + back).skip(front.len() as int) =~= back);
}

/// The text of a plain splice is the text before the position, the text that
/// went in, and the text from the position on.
pub proof fn lemma_spliced_text(clusters: Seq<Seq<char>>, index: int, other: Seq<Seq<char>>)
    requires
        0 <= index <= clusters.len(),
    ensures
        spliced(clusters, index, other).flatten() == clusters.take(index).flatten()
            + other.flatten() + clusters.skip(index).flatten(),
{
    lemma_flatten_concat(clusters.take(index) + other, clusters.skip(index));
    lemma_flatten_concat(clusters.take(index), other);
}

/// The text of a plain cut is the text before the range and the text behind
/// it.
pub proof fn lemma_cut_text(clusters: Seq<Seq<char>>, start: int, end: int)
    requires
        0 <= start <= end <= clusters.len(),
    ensures
        cut(clusters, start, end).flatten() == clusters.take(start).flatten() + clusters.skip(
            end,
        ).flatten(),
{
    lemma_flatten_concat(clusters.take(start), clusters.skip(end));
}

/// Where no cluster is empty, the text has at least as many characters as
/// there are clusters.
pub proof fn lemma_text_covers_clusters(clusters: Seq<Seq<char>>)
    requires
        well_formed(clusters),
    ensures
        clusters.len() <= clusters.flatten().len(),
    decreases clusters.len(),
{
    if clusters.len() > 0 {
        let rest = clusters.drop_last();
        assert(well_formed(rest)) by {
            assert forall|i: int| 0 <= i < rest.len() implies (#[trigger] rest[i]).len() > 0 by {
                assert(rest[i] == clusters[i]);
            }
        }
        lemma_text_covers_clusters(rest);
        assert(rest.push(clusters.last()) =~= clusters);
        rest.lemma_flatten_push(clusters.last());
        assert(clusters.last() == clusters[clusters.len() - 1]);
    }
}

/// Pieces that cut a text are no more than the text has characters, and an
/// empty text has none.
pub proof fn lemma_splits_bound(parts: Seq<Seq<char>>, text: Seq<char>)
    requires
        splits(parts, text),
    ensures
        parts.len() <= text.len(),
        well_formed(parts),
{
    lemma_text_covers_clusters(parts);
}

/// Clusters that are those of their own text are whole clusters of one text.
pub proof fn lemma_segmented_is_whole(clusters: Seq<Seq<char>>)
    requires
        segmented(clusters),
    ensures
        whole_clusters(clusters),
{
    let source = clusters.flatten();
    assert(grapheme_clusters(source).subrange(0, clusters.len() as int) =~= clusters);
    assert(is_range_of(clusters, source, 0, clusters.len() as int));
}

/// No clusters at all are whole clusters of any text, and masks.
pub proof fn lemma_empty_is_valid()
    ensures
        valid(Seq::<Seq<char>>::empty()),
{
    let none = Seq::<Seq<char>>::empty();
    let source = Seq::<char>::empty();
    assert(grapheme_clusters(source).subrange(0, 0) =~= none);
    assert(is_range_of(none, source, 0, 0));
}

/// A range of a valid value is valid: it holds whole clusters of the same
/// text, or masks.
pub proof fn lemma_valid_range(clusters: Seq<Seq<char>>, start: int, end: int)
    requires
        valid(clusters),
        0 <= start <= end <= clusters.len(),
    ensures
        valid(clusters.subrange(start, end)),
{
    let part = clusters.subrange(start, end);
    lemma_well_formed_range(clusters, start, end);
    if whole_clusters(clusters) {
        let (source, from, to) = choose|source: Seq<char>, from: int, to: int|
            is_range_of(clusters, source, from, to);
        assert(grapheme_clusters(source).subrange(from + start, from + end) =~= part);
        assert(is_range_of(part, source, from + start, from + end));
    } else {
        assert forall|i: int| 0 <= i < part.len() implies #[trigger] part[i] == mask() by {
            assert(part[i] == clusters[i + start]);
        }
    }
}

/// A range of clusters of which none is empty holds no empty cluster.
pub proof fn lemma_well_formed_range(clusters: Seq<Seq<char>>, start: int, end: int)
    requires
        well_formed(clusters),
        0 <= start <= end <= clusters.len(),
    ensures
        well_formed(clusters.subrange(start, end)),
{
    let part = clusters.subrange(start, end);
    assert forall|i: int| 0 <= i < part.len() implies (#[trigger] part[i]).len() > 0 by {
        assert(part[i] == clusters[i + start]);
    }
}

} // verus!
