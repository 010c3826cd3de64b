use text_differ::push_decimal;
use text_differ::{DiffMode, Differ, Segment};

fn same(s: &str) -> Segment {
    Segment::Same(s.to_string())
}

fn added(s: &str) -> Segment {
    Segment::Added(s.to_string())
}

fn removed(s: &str) -> Segment {
    Segment::Removed(s.to_string())
}

#[test]
fn identical_lines_do_not_differ() {
    let d = Differ::new(DiffMode::Line);
    let (differs, report) = d.generate("hello\nworld".to_string(), "hello\nworld".to_string());
    assert!(!differs);
    assert_eq!(report, "");
}

#[test]
fn identical_documents_in_every_mode() {
    for mode in [DiffMode::Line, DiffMode::Word, DiffMode::Char] {
        let d = Differ::new(mode);
        let (differs, report) = d.generate("a b\nc".to_string(), "a b\nc".to_string());
        assert!(!differs);
        assert_eq!(report, "");
    }
}

#[test]
fn empty_documents_do_not_differ() {
    let d = Differ::new(DiffMode::Word);
    let (differs, _) = d.generate(String::new(), String::new());
    assert!(!differs);
}

#[test]
fn changed_line_is_removed_then_added() {
    let d = Differ::new(DiffMode::Line);
    let (differs, report) = d.generate("hello\nworld".to_string(), "hello\nmars".to_string());
    assert!(differs);
    assert_eq!(
        report,
        "hello\n>>> a (line: 2): -world-\n>>> b (line: 2): +mars+\n"
    );
}

#[test]
fn changed_word_is_space_separated() {
    let d = Differ::new(DiffMode::Word);
    let (differs, report) = d.generate("foo bar".to_string(), "foo baz".to_string());
    assert!(differs);
    assert_eq!(report, "foo >>> a (line: 2): -bar- >>> b (line: 2): +baz+ ");
}

#[test]
fn changed_char_has_no_separator() {
    let d = Differ::new(DiffMode::Char);
    let (differs, report) = d.generate("ab".to_string(), "ac".to_string());
    assert!(differs);
    assert!(report.contains("-b-"));
    assert!(report.contains("+c+"));
    assert_eq!(report, "a>>> a (line: 2): -b->>> b (line: 2): +c+");
}

#[test]
fn char_segments_joined_without_separator() {
    let d = Differ::new(DiffMode::Char);
    let segs = vec![same("a"), removed("b"), added("c")];
    let (differs, report) = d.annotate(1, &segs);
    assert!(differs);
    assert_eq!(report, "a>>> a (line: 2): -b->>> b (line: 2): +c+");
}

#[test]
fn generate_twice_gives_same_output() {
    let d = Differ::new(DiffMode::Line);
    let first = d.generate("x\ny\nz".to_string(), "x\nq\nz\nw".to_string());
    let second = d.generate("x\ny\nz".to_string(), "x\nq\nz\nw".to_string());
    assert_eq!(first, second);
    assert!(first.0);
}

#[test]
fn zero_distance_renders_nothing() {
    let d = Differ::new(DiffMode::Line);
    let segs = vec![same("a"), added("b")];
    assert_eq!(d.annotate(0, &segs), (false, String::new()));
}

#[test]
fn markers_alternate_across_changes() {
    let d = Differ::new(DiffMode::Word);
    let segs = vec![added("x"), added("y"), added("z"), same("s"), removed("r")];
    let (_, report) = d.annotate(3, &segs);
    assert_eq!(
        report,
        ">>> a (line: 1): +x+ >>> b (line: 1): +y+ >>> a (line: 2): +z+ s >>> b (line: 3): -r- "
    );
    let kinds: Vec<&str> = report
        .match_indices(">>> ")
        .map(|(i, _)| &report[i + 4..i + 5])
        .collect();
    assert_eq!(kinds, vec!["a", "b", "a", "b"]);
}

#[test]
fn line_counter_counts_same_segments_and_opened_blocks() {
    let d = Differ::new(DiffMode::Line);
    let segs = vec![same("one\ntwo"), same("three"), removed("four"), same("five"), added("six")];
    let (_, report) = d.annotate(2, &segs);
    assert_eq!(
        report,
        "one\ntwo\nthree\n>>> a (line: 3): -four-\nfive\n>>> b (line: 4): +six+\n"
    );
}

#[test]
fn every_segment_followed_by_newline_in_line_mode() {
    let d = Differ::new(DiffMode::Line);
    let segs = vec![same(""), removed("a"), same("b")];
    let (_, report) = d.annotate(1, &segs);
    assert_eq!(report, "\n>>> a (line: 2): -a-\nb\n");
}

#[test]
fn no_segments_with_distance_gives_empty_report() {
    let d = Differ::new(DiffMode::Line);
    let (differs, report) = d.annotate(4, &Vec::new());
    assert!(differs);
    assert_eq!(report, "");
}

#[test]
fn separators_of_modes() {
    assert_eq!(DiffMode::Line.to_string(), "\n");
    assert_eq!(DiffMode::Word.to_string(), " ");
    assert_eq!(DiffMode::Char.to_string(), "");
}

#[test]
fn prompt_opens_then_closes_block() {
    let mut d = Differ::new(DiffMode::Line);
    d.diff_prompt();
    assert!(d.in_diff);
    assert_eq!(d.line_count, 1);
    assert_eq!(d.output, ">>> a (line: 1): ");
    d.diff_prompt();
    assert!(!d.in_diff);
    assert_eq!(d.line_count, 1);
    assert_eq!(d.output, ">>> a (line: 1): >>> b (line: 1): ");
}

#[test]
fn new_differ_is_fresh() {
    let d = Differ::new(DiffMode::Word);
    assert_eq!(d.diff_mode, DiffMode::Word);
    assert!(!d.in_diff);
    assert_eq!(d.line_count, 0);
    assert_eq!(d.output, "");
}

#[test]
fn decimal_notation() {
    let mut s = String::from("n=");
    push_decimal(&mut s, 0);
    push_decimal(&mut s, 7);
    s.push(',');
    push_decimal(&mut s, 1203);
    s.push(',');
    push_decimal(&mut s, usize::MAX);
    assert_eq!(s, format!("n=07,1203,{}", usize::MAX));
}

#[test]
fn mode_selectors() {
    assert_eq!(DiffMode::from_name(&"line".to_string()), Some(DiffMode::Line));
    assert_eq!(DiffMode::from_name(&"word".to_string()), Some(DiffMode::Word));
    assert_eq!(DiffMode::from_name(&"char".to_string()), Some(DiffMode::Char));
    assert_eq!(DiffMode::from_name(&"Line".to_string()), None);
    assert_eq!(DiffMode::from_name(&String::new()), None);
}

#[test]
fn trailing_empty_line_differs_without_change_segment() {
    let d = Differ::new(DiffMode::Line);
    let (differs, report) = d.generate("a".to_string(), "a\n".to_string());
    assert!(differs);
    assert_eq!(report, "a\n\n");
}

#[test]
fn closing_prompt_at_largest_counter() {
    let mut d = Differ::new(DiffMode::Char);
    d.in_diff = true;
    d.line_count = usize::MAX;
    d.diff_prompt();
    assert!(!d.in_diff);
    assert_eq!(d.line_count, usize::MAX);
    assert_eq!(d.output, format!(">>> b (line: {}): ", usize::MAX));
}
