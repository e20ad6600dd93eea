//! The Unicode Bidirectional Algorithm and mirroring, as provided by the
//! `unicode-bidi` and `unicode-bidi-mirroring` crates.
use vstd::prelude::*;
use unicode_bidi::{BidiInfo, Level};

verus! {

/// Whether `unicode_bidi::BidiInfo::new(text, base)` resolves any RTL level
/// (`BidiInfo::has_rtl`). `base` is the paragraph level number, if forced.
pub uninterp spec fn spec_bidi_has_rtl(text: Seq<char>, base: Option<u8>) -> bool;

/// The level numbers that `BidiInfo::reordered_levels_per_char` gives for the
/// first paragraph of `BidiInfo::new(text, base)` over the whole text (rules up
/// to L1), one per character.
pub uninterp spec fn spec_bidi_levels(text: Seq<char>, base: Option<u8>) -> Seq<u8>;

/// `BidiInfo::reorder_visual` (rule L2): `result[visual] == logical`.
pub uninterp spec fn spec_reorder_visual(levels: Seq<u8>) -> Seq<usize>;

/// `unicode_bidi_mirroring::get_mirrored`: the mirrored counterpart of a
/// character, if it has one.
pub uninterp spec fn spec_mirrored(c: char) -> Option<char>;

/// Resolves the bidi levels of one text field.
///
/// Calls `BidiInfo::new`, then `has_rtl` and `reordered_levels_per_char` on its
/// first paragraph. Claims: the results are the named functions of the text and
/// base level; there is one level per character (the method maps each character
/// index to its level); and every level is at most 126, the crate's
/// `MAX_IMPLICIT_DEPTH`, above which `Level` values cannot be constructed.
#[verifier::external_body]
pub fn resolve_levels(text: &Vec<char>, base: Option<u8>) -> (r: (bool, Vec<u8>))
    requires
        text@.len() > 0,
        base matches Some(b) ==> b <= 1,
    ensures
        r.0 == spec_bidi_has_rtl(text@, base),
        r.1@ == spec_bidi_levels(text@, base),
        r.1@.len() == text@.len(),
        forall|i: int| 0 <= i < r.1@.len() ==> r.1@[i] <= 126,
{
    let s: String = text.iter().collect();
    let info = BidiInfo::new(&s, base.map(Level::from));
    let levels = info.reordered_levels_per_char(&info.paragraphs[0], 0..s.len());
    (info.has_rtl(), levels.into_iter().map(u8::from).collect())
}

/// Some position of `order` holds `i`.
pub open spec fn covers(order: Seq<usize>, i: int) -> bool {
    exists|j: int| 0 <= j < order.len() && #[trigger] order[j] == i
}

/// `BidiInfo::reorder_visual`. Claims: the result is the named function of the
/// levels, and a permutation of `0..levels.len()` (the source starts from the
/// identity map and only reverses sub-ranges of it): in range, no index twice,
/// every index present. Levels above 126 would make
/// the conversion to `Level` panic, so they are excluded.
#[verifier::external_body]
pub fn reorder_visual(levels: &Vec<u8>) -> (order: Vec<usize>)
    requires
        forall|i: int| 0 <= i < levels@.len() ==> levels@[i] <= 126,
    ensures
        order@ == spec_reorder_visual(levels@),
        order@.len() == levels@.len(),
        forall|i: int| 0 <= i < order@.len() ==> order@[i] < levels@.len(),
        forall|i: int, j: int| 0 <= i < j < order@.len() ==> order@[i] != order@[j],
        forall|i: int| 0 <= i < levels@.len() ==> #[trigger] covers(order@, i),
{
    let levels: Vec<Level> = levels.iter().copied().map(Level::from).collect();
    BidiInfo::reorder_visual(&levels)
}

/// `unicode_bidi_mirroring::get_mirrored`. Claims that the result is the
/// named function of the character, and that a mirror is never below `(`:
/// the crate answers from its sorted table of pairs, whose smallest entry is
/// the pair `(` and `)`.
#[verifier::external_body]
pub fn mirrored(c: char) -> (r: Option<char>)
    ensures
        r == spec_mirrored(c),
        r matches Some(m) ==> '(' <= m,
{
    unicode_bidi_mirroring::get_mirrored(c)
}

} // verus!
