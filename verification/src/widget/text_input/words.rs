//! Words among the pieces of a text: which pieces are blank, and where the
//! first and the last piece lie that are not.

use vstd::prelude::*;

verus! {

/// Whether `c` has the Unicode property White_Space.
pub open spec fn is_white_space(c: char) -> bool {
    let code = c as u32;
    ||| 0x09 <= code <= 0x0D
    ||| code == 0x20
    ||| code == 0x85
    ||| code == 0xA0
    ||| code == 0x1680
    ||| 0x2000 <= code <= 0x200A
    ||| code == 0x2028
    ||| code == 0x2029
    ||| code == 0x202F
    ||| code == 0x205F
    ||| code == 0x3000
}

/// Whether `piece` holds nothing but white space. The empty text is blank.
pub open spec fn is_blank(piece: Seq<char>) -> bool {
    forall|i: int| 0 <= i < piece.len() ==> is_white_space(#[trigger] piece[i])
}

/// A text with one more character is blank exactly if the text is and the
/// character is white space.
pub proof fn lemma_blank_push(piece: Seq<char>, c: char)
    ensures
        is_blank(piece.push(c)) == (is_blank(piece) && is_white_space(c)),
{
    let longer = piece.push(c);
    if is_blank(longer) {
        assert(longer[piece.len() as int] == c);
        assert forall|i: int| 0 <= i < piece.len() implies is_white_space(
            #[trigger] piece[i],
        ) by {
            assert(longer[i] == piece[i]);
        }
    }
}

/// Tests a character for the property White_Space.
pub fn white_space(c: char) -> (yes: bool)
    ensures
        yes == is_white_space(c),
{
    let code: u32 = c as u32;
    (0x09 <= code && code <= 0x0D) || code == 0x20 || code == 0x85 || code == 0xA0
        || code == 0x1680 || (0x2000 <= code && code <= 0x200A) || code == 0x2028
        || code == 0x2029 || code == 0x202F || code == 0x205F || code == 0x3000
}

/// Tests whether a piece of text holds nothing but white space.
pub fn blank(piece: &str) -> (yes: bool)
    ensures
        yes == is_blank(piece@),
{
    let mut yes = true;
    for c in iter: piece.chars()
        invariant
            iter.seq() == piece@,
            yes == is_blank(piece@.take(iter.index())),
    {
        proof {
            assert(piece@.take(iter.index() + 1) == piece@.take(iter.index()).push(c));
            lemma_blank_push(piece@.take(iter.index()), c);
        }
        yes = yes && white_space(c);
    }
    assert(piece@.take(piece@.len() as int) == piece@);
    yes
}

/// `k` is the place of the last piece that is not blank.
pub open spec fn is_last_word(pieces: Seq<Seq<char>>, k: int) -> bool {
    &&& 0 <= k < pieces.len()
    &&& !is_blank(pieces[k])
    &&& forall|j: int| k < j < pieces.len() ==> is_blank(#[trigger] pieces[j])
}

/// `k` is the place of the first piece that is not blank.
pub open spec fn is_first_word(pieces: Seq<Seq<char>>, k: int) -> bool {
    &&& 0 <= k < pieces.len()
    &&& !is_blank(pieces[k])
    &&& forall|j: int| 0 <= j < k ==> is_blank(#[trigger] pieces[j])
}

/// Every piece is blank.
pub open spec fn all_blank(pieces: Seq<Seq<char>>) -> bool {
    forall|j: int| 0 <= j < pieces.len() ==> is_blank(#[trigger] pieces[j])
}

/// At most one place is that of the last piece that is not blank.
pub proof fn lemma_last_word_unique(pieces: Seq<Seq<char>>, k: int, l: int)
    requires
        is_last_word(pieces, k),
        is_last_word(pieces, l),
    ensures
        k == l,
{
    if k < l {
        assert(is_blank(pieces[l]));
    } else if l < k {
        assert(is_blank(pieces[k]));
    }
}

/// At most one place is that of the first piece that is not blank.
pub proof fn lemma_first_word_unique(pieces: Seq<Seq<char>>, k: int, l: int)
    requires
        is_first_word(pieces, k),
        is_first_word(pieces, l),
    ensures
        k == l,
{
    if k < l {
        assert(is_blank(pieces[k]));
    } else if l < k {
        assert(is_blank(pieces[l]));
    }
}

/// Finds the last piece that is not blank: its place, or `None` where every
/// piece is blank.
pub fn last_word(pieces: &Vec<String>) -> (found: Option<usize>)
    ensures
        found is None <==> all_blank(pieces.deep_view()),
        found matches Some(k) ==> is_last_word(pieces.deep_view(), k as int),
{
    let mut k = pieces.len();
    while k > 0
        invariant
            k <= pieces@.len(),
            forall|j: int| k <= j < pieces@.len() ==> is_blank(#[trigger] pieces.deep_view()[j]),
        decreases k,
    {
        k -= 1;
        if !blank(pieces[k].as_str()) {
            assert(!is_blank(pieces.deep_view()[k as int]));
            return Some(k);
        }
    }
    None
}

/// Finds the first piece that is not blank: its place, or `None` where every
/// piece is blank.
pub fn first_word(pieces: &Vec<String>) -> (found: Option<usize>)
    ensures
        found is None <==> all_blank(pieces.deep_view()),
        found matches Some(k) ==> is_first_word(pieces.deep_view(), k as int),
{
    let len = pieces.len();
    for k in 0..len
        invariant
            len == pieces@.len(),
            forall|j: int| 0 <= j < k ==> is_blank(#[trigger] pieces.deep_view()[j]),
    {
        if !blank(pieces[k].as_str()) {
            assert(!is_blank(pieces.deep_view()[k as int]));
            return Some(k);
        }
    }
    None
}

} // verus!
