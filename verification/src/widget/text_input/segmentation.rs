//! Unicode text segmentation.
//!
//! Grapheme clusters and word boundaries are computed by the
//! `unicode-segmentation` crate. What this module states of them is believed,
//! not proved: the segments of a text are a function of the text alone, none
//! of them is empty, and joined in order they give the text back.

use unicode_segmentation::UnicodeSegmentation;
use vstd::prelude::*;

verus! {

/// The extended grapheme clusters of `text`, in order.
pub uninterp spec fn grapheme_clusters(text: Seq<char>) -> Seq<Seq<char>>;

/// The pieces into which the word boundaries of `text` cut it, in order.
pub uninterp spec fn word_bounds(text: Seq<char>) -> Seq<Seq<char>>;

/// `parts` cuts `text` into pieces: none is empty, and joined in order they
/// are `text`.
pub open spec fn splits(parts: Seq<Seq<char>>, text: Seq<char>) -> bool {
    &&& parts.flatten() == text
    &&& forall|i: int| 0 <= i < parts.len() ==> (#[trigger] parts[i]).len() > 0
}

/// Calls `UnicodeSegmentation::graphemes` with extended clusters switched on,
/// and copies each cluster into a `String`.
///
/// Believed: the clusters are `grapheme_clusters` of the text, and they cut
/// the text into non-empty pieces.
#[verifier::external_body]
pub(crate) fn graphemes(text: &str) -> (clusters: Vec<String>)
    ensures
        clusters.deep_view() == grapheme_clusters(text@),
        splits(clusters.deep_view(), text@),
{
    UnicodeSegmentation::graphemes(text, true).map(String::from).collect()
}

/// Calls `UnicodeSegmentation::split_word_bound_indices` and copies each
/// piece into a `String`, in the order of the text.
///
/// Believed: the pieces are `word_bounds` of the text, and they cut the text
/// into non-empty pieces.
#[verifier::external_body]
pub(crate) fn split_word_bounds(text: &str) -> (pieces: Vec<String>)
    ensures
        pieces.deep_view() == word_bounds(text@),
        splits(pieces.deep_view(), text@),
{
    UnicodeSegmentation::split_word_bound_indices(text)
        .map(|(_, piece)| piece)
        .map(String::from)
        .collect()
}

} // verus!
