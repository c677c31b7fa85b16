//! Grapheme segmentation: the boundary between this library and the
//! `unicode-segmentation` crate, the arithmetic of cluster offsets, and the
//! comparison of texts.

use unicode_segmentation::UnicodeSegmentation;
use vstd::prelude::*;
use vstd::seq_lib::lemma_flatten_concat;
use vstd::string::*;
use vstd::utf8::encode_utf8_decode_utf8;

verus! {

/// The extended grapheme clusters of `text`, in order, as
/// `unicode_segmentation::UnicodeSegmentation::graphemes(text, true)` yields them.
pub uninterp spec fn grapheme_clusters(text: Seq<char>) -> Seq<Seq<char>>;

/// `pieces` cut `text` into consecutive, non-empty parts.
pub open spec fn tiles(pieces: Seq<Seq<char>>, text: Seq<char>) -> bool {
    &&& pieces.flatten() == text
    &&& forall|i: int| 0 <= i < pieces.len() ==> (#[trigger] pieces[i]).len() > 0
}

/// The character sequences of a list of string slices.
pub open spec fn views(parts: Seq<&str>) -> Seq<Seq<char>> {
    parts.map_values(|p: &str| p@)
}

/// The number of characters in the first `n` pieces.
pub open spec fn offset_of(pieces: Seq<Seq<char>>, n: int) -> nat {
    pieces.take(n).flatten().len()
}

/// Calls `UnicodeSegmentation::graphemes(text, true)` and collects what the
/// iterator yields. Trusted: the slices are the extended grapheme clusters of
/// `text`; the iterator hands out consecutive non-empty slices of `text` from
/// its start to its end, so they tile it.
#[verifier::external_body]
pub(crate) fn split_graphemes<'a>(text: &'a str) -> (parts: Vec<&'a str>)
    ensures
        views(parts@) == grapheme_clusters(text@),
        tiles(views(parts@), text@),
{
    UnicodeSegmentation::graphemes(text, true).collect()
}

/// Whether two string slices hold the same characters.
pub fn same_text(a: &str, b: &str) -> (same: bool)
    ensures
        same == (a@ == b@),
{
    let left = a.as_bytes();
    let right = b.as_bytes();
    proof {
        // Texts with the same bytes are the same text: decoding gives each back.
        encode_utf8_decode_utf8(a@);
        encode_utf8_decode_utf8(b@);
    }
    if left.len() != right.len() {
        return false;
    }
    let mut i: usize = 0;
    while i < left.len()
        invariant
            i <= left.len(),
            left.len() == right.len(),
            left@ == a.spec_bytes(),
            right@ == b.spec_bytes(),
            forall|j: int| 0 <= j < i ==> left@[j] == right@[j],
        decreases left.len() - i,
    {
        if left[i] != right[i] {
            return false;
        }
        i += 1;
    }
    assert(left@ =~= right@);
    true
}

/// Taking one more piece moves the offset by that piece's length.
pub proof fn lemma_offset_step(pieces: Seq<Seq<char>>, n: int)
    requires
        0 <= n < pieces.len(),
    ensures
        offset_of(pieces, n + 1) == offset_of(pieces, n) + pieces[n].len(),
{
    assert(pieces.take(n + 1) =~= pieces.take(n).push(pieces[n]));
    pieces.take(n).lemma_flatten_push(pieces[n]);
}

/// The characters between two piece boundaries are the pieces between them.
pub proof fn lemma_flatten_subrange(pieces: Seq<Seq<char>>, from: int, to: int)
    requires
        0 <= from <= to <= pieces.len(),
    ensures
        offset_of(pieces, from) <= offset_of(pieces, to) <= pieces.flatten().len(),
        pieces.flatten().subrange(offset_of(pieces, from) as int, offset_of(pieces, to) as int)
            == pieces.subrange(from, to).flatten(),
{
    let head = pieces.take(from);
    let mid = pieces.subrange(from, to);
    let tail = pieces.skip(to);
    assert(pieces.take(to) =~= head + mid);
    assert(pieces =~= pieces.take(to) + tail);
    lemma_flatten_concat(head, mid);
    lemma_flatten_concat(pieces.take(to), tail);
    assert(pieces.flatten() =~= head.flatten() + mid.flatten() + tail.flatten());
    assert(pieces.flatten().subrange(head.flatten().len() as int, (head + mid).flatten().len() as int)
        =~= mid.flatten());
}

} // verus!
