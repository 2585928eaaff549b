use make_your_choice::section::{find_section, render_block, replace_section, section_marker};
use make_your_choice::text::{find_from, matches_at, same_text, to_chars};

const MARKER: &str = "# --+ Make Your Choice +--";

fn count_markers(doc: &str) -> usize {
    doc.matches(MARKER).count()
}

#[test]
fn marker_text_is_fixed() {
    assert_eq!(section_marker(), MARKER);
    assert_eq!(section_marker().chars().count(), 26);
}

#[test]
fn to_chars_keeps_every_character() {
    assert_eq!(to_chars("a\u{e9}z"), vec!['a', '\u{e9}', 'z']);
    assert_eq!(to_chars(""), Vec::<char>::new());
}

#[test]
fn matches_at_checks_one_offset() {
    let doc = to_chars("xabcx");
    let pat = to_chars("abc");
    assert!(matches_at(&doc, &pat, 1));
    assert!(!matches_at(&doc, &pat, 0));
    assert!(!matches_at(&doc, &pat, 3));
    assert!(!matches_at(&doc, &pat, 9));
}

#[test]
fn find_from_gives_least_offset() {
    let doc = to_chars("abcabcab");
    let pat = to_chars("abc");
    assert_eq!(find_from(&doc, &pat, 0), Some(0));
    assert_eq!(find_from(&doc, &pat, 1), Some(3));
    assert_eq!(find_from(&doc, &pat, 4), None);
    assert_eq!(find_from(&doc, &pat, 100), None);
    assert_eq!(find_from(&to_chars("ab"), &pat, 0), None);
}

#[test]
fn same_text_compares_characters() {
    assert!(same_text("eu-west", "eu-west"));
    assert!(!same_text("eu-west", "eu-wesT"));
    assert!(!same_text("eu", "eu-west"));
    assert!(same_text("", ""));
}

#[test]
fn render_block_wraps_content() {
    assert_eq!(render_block("x\n"), format!("{}\nx\n{}\n", MARKER, MARKER));
}

#[test]
fn render_block_adds_missing_line_break() {
    assert_eq!(render_block("x"), format!("{}\nx\n{}\n", MARKER, MARKER));
    assert_eq!(render_block("a\nb"), format!("{}\na\nb\n{}\n", MARKER, MARKER));
}

#[test]
fn render_block_of_nothing_is_empty() {
    assert_eq!(render_block(""), "");
}

#[test]
fn find_section_without_marker() {
    assert_eq!(find_section("127.0.0.1 localhost\n"), None);
    assert_eq!(find_section(""), None);
}

#[test]
fn find_section_with_single_marker() {
    let doc = format!("a\n{}\nb\n", MARKER);
    assert_eq!(find_section(&doc), None);
}

#[test]
fn find_section_spans_both_markers() {
    let doc = format!("ab\n{}\nxyz\n{}\ntail", MARKER, MARKER);
    assert_eq!(find_section(&doc), Some((3, 3 + 26 + 5 + 26)));
}

#[test]
fn find_section_takes_first_pair() {
    let doc = format!("{}1{}2{}", MARKER, MARKER, MARKER);
    assert_eq!(find_section(&doc), Some((0, 53)));
}

#[test]
fn find_section_counts_characters() {
    let doc = format!("\u{e9}\u{e9}{}{}", MARKER, MARKER);
    assert_eq!(find_section(&doc), Some((2, 54)));
}

#[test]
fn replace_between_two_markers() {
    let doc = format!("head\n{}\nold\n{}\ntail\n", MARKER, MARKER);
    let out = replace_section(&doc, "new\n");
    assert_eq!(out, format!("head\n{}\nnew\n{}\n\ntail\n", MARKER, MARKER));
}

#[test]
fn replace_keeps_text_outside_verbatim() {
    let doc = format!("  odd \u{e9} text\t{}junk{} after \u{4e2d}", MARKER, MARKER);
    let out = replace_section(&doc, "c");
    assert_eq!(
        out,
        format!("  odd \u{e9} text\t{}\nc\n{}\n after \u{4e2d}", MARKER, MARKER)
    );
}

#[test]
fn replace_repairs_single_marker() {
    let doc = format!("keep me\n{}\nhalf written", MARKER);
    let out = replace_section(&doc, "fresh\n");
    assert_eq!(out, format!("keep me\n{}\nfresh\n{}\n", MARKER, MARKER));
    assert_eq!(count_markers(&out), 2);
    assert!(out.starts_with("keep me\n"));
}

#[test]
fn replace_appends_after_line_break() {
    let out = replace_section("127.0.0.1 localhost\n", "x\n");
    assert_eq!(out, format!("127.0.0.1 localhost\n\n{}\nx\n{}\n", MARKER, MARKER));
}

#[test]
fn replace_appends_after_unfinished_line() {
    let out = replace_section("127.0.0.1 localhost", "x\n");
    assert_eq!(out, format!("127.0.0.1 localhost\n\n{}\nx\n{}\n", MARKER, MARKER));
}

#[test]
fn replace_appends_to_empty_document() {
    let out = replace_section("", "x");
    assert_eq!(out, format!("\n\n{}\nx\n{}\n", MARKER, MARKER));
}

#[test]
fn empty_content_removes_section() {
    let doc = format!("head\n{}\nold\n{}\ntail\n", MARKER, MARKER);
    let out = replace_section(&doc, "");
    assert_eq!(out, "head\n\ntail\n");
    assert_eq!(count_markers(&out), 0);
}

#[test]
fn empty_content_cuts_at_single_marker() {
    let doc = format!("head\n{}\nrest", MARKER);
    assert_eq!(replace_section(&doc, ""), "head\n");
}

#[test]
fn empty_content_without_marker_appends_separator() {
    assert_eq!(replace_section("a\n", ""), "a\n\n");
    assert_eq!(replace_section("a", ""), "a\n\n");
}

#[test]
fn round_trip_finds_written_block() {
    for doc in [
        String::new(),
        String::from("plain\n"),
        format!("x{}half", MARKER),
        format!("x{}in{}y", MARKER, MARKER),
    ] {
        let out = replace_section(&doc, "line one\nline two");
        let (start, end) = find_section(&out).unwrap();
        let chars: Vec<char> = out.chars().collect();
        let inner: String = chars[start + 26..end - 26].iter().collect();
        assert_eq!(inner, "\nline one\nline two\n");
        let span: String = chars[start..end].iter().collect();
        assert_eq!(format!("{}\n", span), render_block("line one\nline two"));
    }
}

#[test]
fn second_application_keeps_section() {
    let doc = format!("head\n{}\nold\n{}\ntail\n", MARKER, MARKER);
    let once = replace_section(&doc, "new\n");
    let twice = replace_section(&once, "new\n");
    let (start, end) = find_section(&once).unwrap();
    assert_eq!(find_section(&twice), Some((start, end)));
    let a: Vec<char> = once.chars().collect();
    let b: Vec<char> = twice.chars().collect();
    assert_eq!(a[..end], b[..end]);
    assert_eq!(b[end], '\n');
    assert_eq!(a[end..], b[end + 1..]);
}

#[test]
fn second_application_on_fresh_document() {
    let once = replace_section("", "x");
    let twice = replace_section(&once, "x");
    assert_eq!(once, format!("\n\n{}\nx\n{}\n", MARKER, MARKER));
    assert_eq!(twice, format!("\n\n{}\nx\n{}\n\n", MARKER, MARKER));
}

#[test]
fn repair_yields_exactly_two_markers() {
    for doc in [format!("{}", MARKER), format!("a\nb\n{}tail with text\n", MARKER)] {
        let before: String = doc.chars().take(doc.find(MARKER).unwrap()).collect();
        let out = replace_section(&doc, "c");
        assert_eq!(count_markers(&out), 2);
        assert!(out.starts_with(&before));
        assert_eq!(out, format!("{}{}\nc\n{}\n", before, MARKER, MARKER));
    }
}

#[test]
fn removal_leaves_rest_identical() {
    let doc = format!("\u{e9}head{}one\ntwo{}tail\u{e9}", MARKER, MARKER);
    assert_eq!(replace_section(&doc, ""), "\u{e9}headtail\u{e9}");
}

#[test]
fn removal_after_replacement_takes_block_out() {
    let doc = format!("head\n{}\nold\n{}\ntail\n", MARKER, MARKER);
    let once = replace_section(&doc, "new");
    assert_eq!(replace_section(&once, ""), "head\n\n\ntail\n");
    let fresh = replace_section("a\n", "new");
    assert_eq!(replace_section(&fresh, ""), "a\n\n\n");
}
