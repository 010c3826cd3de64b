use vstd::prelude::*;
use vstd::string::StringExecFns;

use crate::decimal::{decimal, push_decimal};
use crate::source::{changeset_of, compare};

verus! {

/// The granularity at which two documents are compared and re-joined.
#[derive(Clone, Copy, Debug, PartialEq, Eq, Structural)]
pub enum DiffMode {
    Line,
    Word,
    Char,
}

impl DiffMode {
    /// The separator put back after every rendered segment.
    pub open spec fn separator(self) -> Seq<char> {
        match self {
            DiffMode::Line => seq!['\n'],
            DiffMode::Word => seq![' '],
            DiffMode::Char => Seq::empty(),
        }
    }

    /// The mode that a selector names: `line`, `word` or `char`.
    pub open spec fn named(name: Seq<char>) -> Option<DiffMode> {
        if name == "line"@ {
            Some(DiffMode::Line)
        } else if name == "word"@ {
            Some(DiffMode::Word)
        } else if name == "char"@ {
            Some(DiffMode::Char)
        } else {
            None
        }
    }

    /// Reads a mode selector; `None` for a name that is not one of the three.
    pub fn from_name(name: &String) -> (r: Option<DiffMode>)
        ensures
            r == DiffMode::named(name@),
    {
        if *name == String::from_str("line") {
            Some(DiffMode::Line)
        } else if *name == String::from_str("word") {
            Some(DiffMode::Word)
        } else if *name == String::from_str("char") {
            Some(DiffMode::Char)
        } else {
            None
        }
    }

    /// The separator of this mode, as a string.
    pub fn to_string(&self) -> (r: String)
        ensures
            r@ == self.separator(),
    {
        proof {
            reveal_strlit("\n");
            reveal_strlit(" ");
            reveal_strlit("");
        }
        match self {
            DiffMode::Line => String::from_str("\n"),
            DiffMode::Word => String::from_str(" "),
            DiffMode::Char => String::from_str(""),
        }
    }
}

/// A run of units that the comparison classified alike, as a value.
pub ghost enum Change {
    Same(Seq<char>),
    Added(Seq<char>),
    Removed(Seq<char>),
}

impl Change {
    /// An addition or a removal.
    pub open spec fn is_change(self) -> bool {
        !(self is Same)
    }
}

/// A run of units that the comparison classified alike.
pub enum Segment {
    Same(String),
    Added(String),
    Removed(String),
}

impl View for Segment {
    type V = Change;

    open spec fn view(&self) -> Change {
        match self {
            Segment::Same(t) => Change::Same(t@),
            Segment::Added(t) => Change::Added(t@),
            Segment::Removed(t) => Change::Removed(t@),
        }
    }
}

/// The views of a sequence of segments.
pub open spec fn changes_of(segs: Seq<Segment>) -> Seq<Change> {
    segs.map_values(|s: Segment| s@)
}

/// The state of the annotator: whether a change block is open, the line
/// counter, and the report written so far.
pub ghost struct Annot {
    pub in_diff: bool,
    pub line_count: nat,
    pub output: Seq<char>,
}

/// The text of a boundary marker: kind `a` opens a block, kind `b` closes it.
pub open spec fn marker(opens: bool, n: nat) -> Seq<char> {
    (if opens {
        ">>> a (line: "@
    } else {
        ">>> b (line: "@
    }) + decimal(n) + "): "@
}

/// The state before any segment.
pub open spec fn fresh() -> Annot {
    Annot { in_diff: false, line_count: 0, output: Seq::empty() }
}

/// The block-boundary step: opening a block advances the counter, closing it
/// does not; either way a marker with the counter's new value is written.
pub open spec fn prompted(st: Annot) -> Annot {
    if !st.in_diff {
        Annot {
            in_diff: true,
            line_count: st.line_count + 1,
            output: st.output + marker(true, st.line_count + 1),
        }
    } else {
        Annot { in_diff: false, line_count: st.line_count, output: st.output + marker(false, st.line_count) }
    }
}

/// A change segment's text between its sigils.
pub open spec fn wrapped(sigil: char, t: Seq<char>) -> Seq<char> {
    seq![sigil] + t + seq![sigil]
}

/// The state after one more segment.
pub open spec fn step(st: Annot, c: Change, sep: Seq<char>) -> Annot {
    match c {
        Change::Same(t) => Annot {
            in_diff: st.in_diff,
            line_count: st.line_count + 1,
            output: st.output + t + sep,
        },
        Change::Added(t) => {
            let p = prompted(st);
            Annot { output: p.output + wrapped('+', t) + sep, ..p }
        },
        Change::Removed(t) => {
            let p = prompted(st);
            Annot { output: p.output + wrapped('-', t) + sep, ..p }
        },
    }
}

/// The state after all of `cs`, taken left to right from a fresh state.
pub open spec fn annotated(cs: Seq<Change>, sep: Seq<char>) -> Annot
    decreases cs.len(),
{
    if cs.len() == 0 {
        fresh()
    } else {
        step(annotated(cs.drop_last(), sep), cs.last(), sep)
    }
}

/// The report for a comparison whose segments are `cs`.
pub open spec fn report(cs: Seq<Change>, mode: DiffMode) -> Seq<char> {
    annotated(cs, mode.separator()).output
}

/// The result of comparing `a` with `b` in `mode`: whether they differ, and
/// the report of their changeset when they do.
pub open spec fn generated(a: Seq<char>, b: Seq<char>, mode: DiffMode) -> (bool, Seq<char>) {
    if a != b {
        (true, report(changeset_of(a, b, mode.separator()), mode))
    } else {
        (false, Seq::empty())
    }
}

/// Renders the segments of a comparison into an annotated report.
pub struct Differ {
    pub diff_mode: DiffMode,
    pub in_diff: bool,
    pub output: String,
    pub line_count: usize,
}

impl View for Differ {
    type V = Annot;

    open spec fn view(&self) -> Annot {
        Annot { in_diff: self.in_diff, line_count: self.line_count as nat, output: self.output@ }
    }
}

impl Differ {
    /// A differ for `diff_mode` in the fresh state.
    pub fn new(diff_mode: DiffMode) -> (r: Self)
        ensures
            r.diff_mode == diff_mode,
            r@ == fresh(),
    {
        Differ { diff_mode, in_diff: false, output: String::new(), line_count: 0 }
    }

    /// Writes the boundary marker before a change segment and toggles the
    /// block state.
    pub fn diff_prompt(&mut self)
        requires
            !old(self).in_diff ==> old(self).line_count < usize::MAX,
        ensures
            final(self).diff_mode == old(self).diff_mode,
            final(self)@ == prompted(old(self)@),
    {
        let ghost before = self.output@;
        if !self.in_diff {
            self.line_count = self.line_count + 1;
            self.output.append(">>> a (line: ");
            push_decimal(&mut self.output, self.line_count);
            self.output.append("): ");
            self.in_diff = true;
            assert(self.output@ =~= before + marker(true, self.line_count as nat));
        } else {
            self.output.append(">>> b (line: ");
            push_decimal(&mut self.output, self.line_count);
            self.output.append("): ");
            self.in_diff = false;
            assert(self.output@ =~= before + marker(false, self.line_count as nat));
        }
    }

    /// Renders a comparison's result: nothing when the distance is zero,
    /// else the annotated report of the segments, from a fresh state.
    pub fn annotate(&self, dist: i32, segments: &Vec<Segment>) -> (r: (bool, String))
        ensures
            r.0 == (dist != 0),
            r.1@ == (if dist != 0 {
                report(changes_of(segments@), self.diff_mode)
            } else {
                Seq::empty()
            }),
    {
        if dist == 0 {
            return (false, String::new());
        }
        let sep = self.diff_mode.to_string();
        let mut work = Differ::new(self.diff_mode);
        let ghost cs = changes_of(segments@);
        let mut i: usize = 0;
        while i < segments.len()
            invariant
                i <= segments.len(),
                cs == changes_of(segments@),
                sep@ == self.diff_mode.separator(),
                work.line_count <= i,
                work@ == annotated(cs.take(i as int), sep@),
            decreases segments.len() - i,
        {
            let ghost st = work@;
            proof {
                assert(cs.take(i + 1).drop_last() =~= cs.take(i as int));
                assert(cs[i as int] == segments@[i as int]@);
            }
            match &segments[i] {
                Segment::Same(t) => {
                    work.line_count = work.line_count + 1;
                    work.output.append(t.as_str());
                    work.output.append(sep.as_str());
                    assert(work.output@ =~= st.output + t@ + sep@);
                },
                Segment::Added(t) => {
                    work.diff_prompt();
                    let ghost p = work.output@;
                    work.output.append("+");
                    work.output.append(t.as_str());
                    work.output.append("+");
                    work.output.append(sep.as_str());
                    proof {
                        reveal_strlit("+");
                        assert(work.output@ =~= p + wrapped('+', t@) + sep@);
                    }
                },
                Segment::Removed(t) => {
                    work.diff_prompt();
                    let ghost p = work.output@;
                    work.output.append("-");
                    work.output.append(t.as_str());
                    work.output.append("-");
                    work.output.append(sep.as_str());
                    proof {
                        reveal_strlit("-");
                        assert(work.output@ =~= p + wrapped('-', t@) + sep@);
                    }
                },
            }
            i = i + 1;
        }
        proof {
            assert(cs.take(i as int) =~= cs);
        }
        (true, work.output)
    }

    /// Compares `a` with `b` at this differ's granularity and renders the
    /// result: whether they differ, and the annotated report when they do.
    pub fn generate(&self, a: String, b: String) -> (r: (bool, String))
        requires
            a@.len() + b@.len() + 4 <= 0x4000_0000,
        ensures
            (r.0, r.1@) == generated(a@, b@, self.diff_mode),
    {
        let sep = self.diff_mode.to_string();
        let (dist, segments) = compare(a.as_str(), b.as_str(), sep.as_str());
        self.annotate(dist, &segments)
    }
}

} // verus!
