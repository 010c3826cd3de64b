use vstd::prelude::*;

use crate::differ::{
    annotated, generated, marker, prompted, report, wrapped, Annot, Change, DiffMode,
};
use crate::source::changeset_of;

verus! {

/// The kinds of the boundary markers written for `cs`, in order: `true` for a
/// marker that opens a block (`a`), `false` for one that closes it (`b`).
pub open spec fn marker_kinds(cs: Seq<Change>, sep: Seq<char>) -> Seq<bool>
    decreases cs.len(),
{
    if cs.len() == 0 {
        Seq::empty()
    } else {
        let before = marker_kinds(cs.drop_last(), sep);
        if cs.last().is_change() {
            before.push(!annotated(cs.drop_last(), sep).in_diff)
        } else {
            before
        }
    }
}

/// What a segment renders to before the separator: its text, between sigils
/// for a change.
pub open spec fn body(c: Change) -> Seq<char> {
    match c {
        Change::Same(t) => t,
        Change::Added(t) => wrapped('+', t),
        Change::Removed(t) => wrapped('-', t),
    }
}

proof fn lemma_block_parity(cs: Seq<Change>, sep: Seq<char>)
    ensures
        annotated(cs, sep).in_diff == (marker_kinds(cs, sep).len() % 2 == 1),
        forall|k: int|
            0 <= k < marker_kinds(cs, sep).len() ==> #[trigger] marker_kinds(cs, sep)[k] == (k % 2
                == 0),
    decreases cs.len(),
{
    if cs.len() > 0 {
        lemma_block_parity(cs.drop_last(), sep);
    }
}

/// The boundary markers of a report alternate strictly: the first opens a
/// block, the second closes it, and so on, whether each change segment is an
/// addition or a removal.
pub proof fn lemma_markers_alternate(cs: Seq<Change>, mode: DiffMode)
    ensures
        forall|k: int|
            0 <= k < marker_kinds(cs, mode.separator()).len() ==> #[trigger] marker_kinds(
                cs,
                mode.separator(),
            )[k] == (k % 2 == 0),
{
    lemma_block_parity(cs, mode.separator());
}

proof fn lemma_kinds_prefix(cs: Seq<Change>, sep: Seq<char>, j: int)
    requires
        0 <= j <= cs.len(),
    ensures
        marker_kinds(cs.take(j), sep).is_prefix_of(marker_kinds(cs, sep)),
    decreases cs.len(),
{
    if j < cs.len() {
        let d = cs.drop_last();
        assert(d.take(j) =~= cs.take(j));
        lemma_kinds_prefix(d, sep, j);
    } else {
        assert(cs.take(j) =~= cs);
    }
}

/// The marker written before change segment `i` is the last of the kinds
/// counted up to that segment, and those kinds start the kinds of the whole
/// report: the text of the report carries the alternating kinds.
pub proof fn lemma_change_marker_kind(cs: Seq<Change>, mode: DiffMode, i: int)
    requires
        0 <= i < cs.len(),
        cs[i].is_change(),
    ensures
        ({
            let sep = mode.separator();
            let kinds = marker_kinds(cs.take(i + 1), sep);
            &&& kinds.len() > 0
            &&& kinds.is_prefix_of(marker_kinds(cs, sep))
            &&& exists|n: nat|
                annotated(cs.take(i + 1), sep).output == annotated(cs.take(i), sep).output + marker(
                    kinds.last(),
                    n,
                ) + body(cs[i]) + sep
        }),
{
    let sep = mode.separator();
    lemma_kinds_prefix(cs, sep, i + 1);
    let s = cs.take(i + 1);
    assert(s.drop_last() =~= cs.take(i));
    let st = annotated(cs.take(i), sep);
    let p = prompted(st);
    let n = if st.in_diff { st.line_count } else { st.line_count + 1 };
    assert(s.last() == cs[i]);
    assert(marker_kinds(s, sep).last() == !st.in_diff);
    assert(p.output == st.output + marker(!st.in_diff, n));
    assert(annotated(s, sep).output == p.output + body(cs[i]) + sep);
    assert(annotated(s, sep).output =~= st.output + marker(!st.in_diff, n) + body(cs[i]) + sep);
}

proof fn lemma_prefix_grows(cs: Seq<Change>, sep: Seq<char>, j: int)
    requires
        0 <= j <= cs.len(),
    ensures
        annotated(cs.take(j), sep).output.is_prefix_of(annotated(cs, sep).output),
    decreases cs.len(),
{
    if j < cs.len() {
        let d = cs.drop_last();
        assert(d.take(j) =~= cs.take(j));
        lemma_prefix_grows(d, sep, j);
    } else {
        assert(cs.take(j) =~= cs);
    }
}

/// In a report every segment is followed by the mode's separator: a newline
/// for lines, a space for words, nothing for characters. The report written up
/// to and including segment `i` is a start of the whole report and ends with
/// that segment's text (between sigils for a change), then the separator.
pub proof fn lemma_segment_then_separator(cs: Seq<Change>, mode: DiffMode, i: int)
    requires
        0 <= i < cs.len(),
    ensures
        ({
            let upto = annotated(cs.take(i + 1), mode.separator()).output;
            &&& upto.is_prefix_of(report(cs, mode))
            &&& exists|pre: Seq<char>| upto == pre + body(cs[i]) + mode.separator()
        }),
{
    let sep = mode.separator();
    lemma_prefix_grows(cs, sep, i + 1);
    let s = cs.take(i + 1);
    assert(s.drop_last() =~= cs.take(i));
    let st: Annot = annotated(cs.take(i), sep);
    let upto = annotated(s, sep).output;
    match cs[i] {
        Change::Same(t) => {
            assert(upto == st.output + body(cs[i]) + sep);
        },
        Change::Added(t) => {
            assert(upto == prompted(st).output + body(cs[i]) + sep);
        },
        Change::Removed(t) => {
            assert(upto == prompted(st).output + body(cs[i]) + sep);
        },
    }
}

/// Wherever the segments hold a change, the report is not empty and holds a
/// marker that opens a block.
pub proof fn lemma_change_is_marked(cs: Seq<Change>, mode: DiffMode, i: int)
    requires
        0 <= i < cs.len(),
        cs[i].is_change(),
    ensures
        report(cs, mode).len() > 0,
        exists|pre: Seq<char>, n: nat, post: Seq<char>|
            report(cs, mode) == pre + marker(true, n) + post,
{
    let sep = mode.separator();
    lemma_block_parity(cs.take(i + 1), sep);
    lemma_prefix_grows(cs, sep, i + 1);
    let s = cs.take(i + 1);
    assert(s.drop_last() =~= cs.take(i));
    let st = annotated(cs.take(i), sep);
    let full = report(cs, mode);
    let upto = annotated(s, sep).output;
    assert(upto.is_prefix_of(full));
    if !st.in_diff {
        let n = st.line_count + 1;
        let post = full.subrange((st.output.len() + marker(true, n).len()) as int, full.len() as int);
        assert(upto.subrange(0, (st.output.len() + marker(true, n).len()) as int) =~= st.output + marker(
            true,
            n,
        ));
        assert(full =~= st.output + marker(true, n) + post);
    } else {
        lemma_open_marker_written(cs.take(i), sep);
        let (pre, n, post) = choose|pre: Seq<char>, n: nat, post: Seq<char>|
            st.output == pre + marker(true, n) + post;
        let rest = full.subrange(st.output.len() as int, full.len() as int);
        lemma_prefix_grows(cs, sep, i);
        assert(full =~= st.output + rest);
        assert(full =~= pre + marker(true, n) + (post + rest));
    }
}

proof fn lemma_open_marker_written(cs: Seq<Change>, sep: Seq<char>)
    requires
        annotated(cs, sep).in_diff,
    ensures
        exists|pre: Seq<char>, n: nat, post: Seq<char>|
            annotated(cs, sep).output == pre + marker(true, n) + post,
    decreases cs.len(),
{
    let d = cs.drop_last();
    let st = annotated(d, sep);
    let out = annotated(cs, sep).output;
    if st.in_diff {
        lemma_open_marker_written(d, sep);
        let (pre, n, post) = choose|pre: Seq<char>, n: nat, post: Seq<char>|
            st.output == pre + marker(true, n) + post;
        assert(st.output.is_prefix_of(out));
        let rest = out.subrange(st.output.len() as int, out.len() as int);
        assert(out =~= pre + marker(true, n) + (post + rest));
    } else {
        let n = st.line_count + 1;
        let m = marker(true, n);
        let rest = out.subrange((st.output.len() + m.len()) as int, out.len() as int);
        assert(out =~= st.output + m + rest);
    }
}

/// Documents that are equal do not differ, and their report is empty.
pub proof fn lemma_equal_documents_do_not_differ(a: Seq<char>, b: Seq<char>, mode: DiffMode)
    requires
        a == b,
    ensures
        generated(a, b, mode) == (false, Seq::<char>::empty()),
{
}

/// Documents that differ are reported as differing; wherever their changeset
/// holds an addition or a removal, the report is not empty and holds a marker
/// that opens a block.
pub proof fn lemma_different_documents_differ(a: Seq<char>, b: Seq<char>, mode: DiffMode, i: int)
    requires
        a != b,
    ensures
        generated(a, b, mode).0,
        0 <= i < changeset_of(a, b, mode.separator()).len() && changeset_of(
            a,
            b,
            mode.separator(),
        )[i].is_change() ==> {
            &&& generated(a, b, mode).1.len() > 0
            &&& exists|pre: Seq<char>, n: nat, post: Seq<char>|
                generated(a, b, mode).1 == pre + marker(true, n) + post
        },
{
    let cs = changeset_of(a, b, mode.separator());
    if 0 <= i < cs.len() && cs[i].is_change() {
        lemma_change_is_marked(cs, mode, i);
    }
}

/// The same documents in the same mode always give the same result.
pub proof fn lemma_same_inputs_same_result(
    a1: Seq<char>,
    b1: Seq<char>,
    a2: Seq<char>,
    b2: Seq<char>,
    mode: DiffMode,
)
    requires
        a1 == a2,
        b1 == b2,
    ensures
        generated(a1, b1, mode) == generated(a2, b2, mode),
{
}

/// In the report of two differing documents, the boundary markers alternate
/// strictly, starting with one that opens a block.
pub proof fn lemma_generated_markers_alternate(a: Seq<char>, b: Seq<char>, mode: DiffMode)
    requires
        a != b,
    ensures
        ({
            let cs = changeset_of(a, b, mode.separator());
            &&& generated(a, b, mode).1 == report(cs, mode)
            &&& forall|k: int|
                0 <= k < marker_kinds(cs, mode.separator()).len() ==> #[trigger] marker_kinds(
                    cs,
                    mode.separator(),
                )[k] == (k % 2 == 0)
        }),
{
    lemma_markers_alternate(changeset_of(a, b, mode.separator()), mode);
}

/// In the report of two differing documents, segment `i` of their changeset
/// is followed by the mode's separator.
pub proof fn lemma_generated_separators(a: Seq<char>, b: Seq<char>, mode: DiffMode, i: int)
    requires
        a != b,
        0 <= i < changeset_of(a, b, mode.separator()).len(),
    ensures
        ({
            let cs = changeset_of(a, b, mode.separator());
            let upto = annotated(cs.take(i + 1), mode.separator()).output;
            &&& upto.is_prefix_of(generated(a, b, mode).1)
            &&& exists|pre: Seq<char>| upto == pre + body(cs[i]) + mode.separator()
        }),
{
    lemma_segment_then_separator(changeset_of(a, b, mode.separator()), mode, i);
}

} // verus!
