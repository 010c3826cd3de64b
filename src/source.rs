use vstd::prelude::*;

use crate::differ::{changes_of, Change, Segment};

verus! {

/// The changeset that `text_diff::diff` computes for an original, an edited
/// text and a split string.
pub uninterp spec fn changeset_of(orig: Seq<char>, edit: Seq<char>, split: Seq<char>) -> Seq<Change>;

/// Relies on `text_diff::diff`: the changeset depends on the three strings
/// alone, and the edit distance is never negative and is zero exactly when
/// the two texts are equal (the search ends at distance zero only when every
/// piece of both texts split by `split` matches). The length bound keeps the
/// crate's `i32` arithmetic from overflowing: there are at most `len + 2`
/// pieces in a text, and its search indexes up to twice their total.
#[verifier::external_body]
pub(crate) fn compare(orig: &str, edit: &str, split: &str) -> (r: (i32, Vec<Segment>))
    requires
        orig@.len() + edit@.len() + 4 <= 0x4000_0000,
    ensures
        r.0 >= 0,
        (r.0 == 0) == (orig@ == edit@),
        changes_of(r.1@) == changeset_of(orig@, edit@, split@),
{
    let (dist, changeset) = text_diff::diff(orig, edit, split);
    let mut segments = Vec::new();
    for d in changeset {
        segments.push(match d {
            text_diff::Difference::Same(t) => Segment::Same(t),
            text_diff::Difference::Add(t) => Segment::Added(t),
            text_diff::Difference::Rem(t) => Segment::Removed(t),
        });
    }
    (dist, segments)
}

} // verus!
