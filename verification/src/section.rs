//! The owned section of a document: the span between the first two
//! occurrences of the section marker, and the splice that replaces it.
use vstd::prelude::*;
use vstd::string::*;
use crate::text::{find_from, first_from, to_chars};

verus! {

/// The marker line that opens and closes the owned section.
pub open spec fn marker() -> Seq<char> {
    "# --+ Make Your Choice +--"@
}

/// A single line break.
pub open spec fn newline() -> Seq<char> {
    seq!['\n']
}

/// `inner`, ended by a line break if it does not end in one already.
pub open spec fn with_trailing_newline(inner: Seq<char>) -> Seq<char> {
    if inner.len() > 0 && inner.last() == '\n' {
        inner
    } else {
        inner + newline()
    }
}

/// The text between the two markers of a block rendered from `inner`.
pub open spec fn rendered_inner(inner: Seq<char>) -> Seq<char> {
    newline() + with_trailing_newline(inner)
}

/// The block that stands for `inner` in a document: nothing for an empty
/// `inner`; otherwise marker, line break, content, marker, line break.
pub open spec fn rendered_block(inner: Seq<char>) -> Seq<char> {
    if inner.len() == 0 {
        Seq::empty()
    } else {
        marker() + rendered_inner(inner) + marker() + newline()
    }
}

/// What separates a document without a section from a block appended to it:
/// enough line breaks to leave one blank line.
pub open spec fn separator(doc: Seq<char>) -> Seq<char> {
    if doc.len() > 0 && doc.last() == '\n' {
        newline()
    } else {
        newline() + newline()
    }
}

/// Offset of the first marker in `doc`.
pub open spec fn first_marker(doc: Seq<char>) -> Option<int> {
    first_from(doc, marker(), 0)
}

/// Offset of the first marker that starts after the end of the marker at `f`.
pub open spec fn second_marker(doc: Seq<char>, f: int) -> Option<int> {
    first_from(doc, marker(), f + marker().len())
}

/// The owned span of `doc`: from the start of the first marker to the end of
/// the second. A document with fewer than two markers has none.
pub open spec fn section_span(doc: Seq<char>) -> Option<(int, int)> {
    match first_marker(doc) {
        None => None,
        Some(f) => match second_marker(doc, f) {
            None => None,
            Some(l) => Some((f, l + marker().len())),
        },
    }
}

/// The text of `doc` between the two markers of `span`.
pub open spec fn inner_text(doc: Seq<char>, span: (int, int)) -> Seq<char> {
    doc.subrange(span.0 + marker().len(), span.1 - marker().len())
}

/// What a replacement keeps of `doc` in front of the block: the text before
/// the first marker or, without a marker, all of `doc` and a separator.
pub open spec fn lead(doc: Seq<char>) -> Seq<char> {
    match first_marker(doc) {
        None => doc + separator(doc),
        Some(f) => doc.subrange(0, f),
    }
}

/// What a replacement keeps of `doc` behind the block: the text after the end
/// of the second marker. A single marker is taken for the start of an
/// unfinished section, so that nothing behind it is kept.
pub open spec fn trail(doc: Seq<char>) -> Seq<char> {
    match section_span(doc) {
        None => Seq::empty(),
        Some(span) => doc.subrange(span.1, doc.len() as int),
    }
}

/// `doc` with its owned section replaced by the block for `inner`.
pub open spec fn replaced(doc: Seq<char>, inner: Seq<char>) -> Seq<char> {
    lead(doc) + rendered_block(inner) + trail(doc)
}

/// The section marker.
pub fn section_marker() -> (m: &'static str)
    ensures
        m@ == marker(),
{
    "# --+ Make Your Choice +--"
}

/// Renders the block that stands for `inner`.
pub fn render_block(inner: &str) -> (block: String)
    ensures
        block@ == rendered_block(inner@),
{
    if inner.is_empty() {
        return String::new();
    }
    proof {
        reveal_strlit("\n");
        assert("\n"@ =~= newline());
    }
    let n: usize = inner.unicode_len();
    let mut block: String = String::from_str(section_marker());
    block.append("\n");
    block.append(inner);
    if inner.get_char(n - 1) != '\n' {
        block.append("\n");
    }
    block.append(section_marker());
    block.append("\n");
    assert(block@ =~= rendered_block(inner@));
    block
}

/// Locates the owned section of `document`, as character offsets.
pub fn find_section(document: &str) -> (span: Option<(usize, usize)>)
    ensures
        span is None <==> section_span(document@) is None,
        span matches Some((start, end)) ==> section_span(document@) == Some(
            (start as int, end as int),
        ),
{
    let doc: Vec<char> = to_chars(document);
    let pat: Vec<char> = to_chars(section_marker());
    let m: usize = pat.len();
    proof {
        assert(doc@.len() == doc.len());
    }
    match find_from(&doc, &pat, 0) {
        None => None,
        Some(f) => match find_from(&doc, &pat, f + m) {
            None => None,
            Some(l) => Some((f, l + m)),
        },
    }
}

/// Replaces the owned section of `document` by the block for `inner_content`;
/// an empty `inner_content` removes the section.
pub fn replace_section(document: &str, inner_content: &str) -> (result: String)
    ensures
        result@ == replaced(document@, inner_content@),
{
    let doc: Vec<char> = to_chars(document);
    let pat: Vec<char> = to_chars(section_marker());
    let n: usize = doc.len();
    let m: usize = pat.len();
    let block: String = render_block(inner_content);
    proof {
        reveal_strlit("\n");
        reveal_strlit("\n\n");
        assert("\n"@ =~= newline());
        assert("\n\n"@ =~= newline() + newline());
    }
    match find_from(&doc, &pat, 0) {
        None => {
            let mut out: String = String::from_str(document);
            if n > 0 && doc[n - 1] == '\n' {
                out.append("\n");
            } else {
                out.append("\n\n");
            }
            out.append(block.as_str());
            assert(out@ =~= replaced(document@, inner_content@));
            out
        },
        Some(f) => {
            let mut out: String = String::from_str(document.substring_char(0, f));
            out.append(block.as_str());
            match find_from(&doc, &pat, f + m) {
                None => {},
                Some(l) => {
                    out.append(document.substring_char(l + m, n));
                },
            }
            assert(out@ =~= replaced(document@, inner_content@));
            out
        },
    }
}

} // verus!
