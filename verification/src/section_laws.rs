//! Laws of section replacement: where the block lands, what a second
//! application changes, what a removal leaves, and how a dangling marker is
//! repaired.
use vstd::prelude::*;
use crate::text::{
    free_of, is_first_from, lemma_first_from_exact, lemma_first_from_some,
    lemma_occurrence_chars, lemma_occurrence_local, occurs_at,
};
use crate::section::{
    first_marker, inner_text, lead, marker, newline, rendered_block, rendered_inner, replaced,
    second_marker, section_span, trail, with_trailing_newline,
};

verus! {

/// The marker is 26 characters long, holds no line break, and holds `#` at
/// its start only, so that two occurrences never overlap.
pub proof fn lemma_marker_shape()
    ensures
        marker().len() == 26,
        marker()[0] == '#',
        marker()[2] == '-',
        forall|k: int| 1 <= k < 26 ==> marker()[k] != '#',
        forall|k: int| 0 <= k < 26 ==> marker()[k] != '\n',
{
    reveal_strlit("# --+ Make Your Choice +--");
}

/// In front of the block no marker starts: none within the lead, and none
/// that would run from the lead into the block's opening marker.
proof fn lemma_lead_clean(doc: Seq<char>)
    ensures
        forall|j: int| 0 <= j < lead(doc).len() ==> !occurs_at(lead(doc) + marker(), marker(), j),
{
    lemma_marker_shape();
    lemma_first_from_exact(doc, marker(), 0);
    let m = marker();
    let x = lead(doc) + m;
    assert forall|j: int| 0 <= j < lead(doc).len() implies !occurs_at(x, m, j) by {
        if occurs_at(x, m, j) {
            lemma_occurrence_chars(x, m, j);
            match first_marker(doc) {
                None => {
                    let n = doc.len() as int;
                    if j + 26 <= n {
                        lemma_occurrence_local(x, doc, m, j, j);
                        assert(occurs_at(doc, m, j));
                    } else if j <= n {
                        assert(x[j + (n - j)] == m[n - j]);
                        assert(x[n] == '\n');
                    } else {
                        assert(x[j + 0] == m[0]);
                        assert(x[j] == '\n');
                    }
                },
                Some(f) => {
                    lemma_occurrence_chars(doc, m, f);
                    assert forall|k: int| 0 <= k < 26 implies #[trigger] x[j + k] == doc[j + k] by {
                        if j + k >= f {
                            assert(doc[f + (j + k - f)] == m[j + k - f]);
                        }
                    }
                    lemma_occurrence_local(x, doc, m, j, j);
                    assert(occurs_at(doc, m, j));
                },
            }
        }
    }
}

/// Where the block for a non-empty, marker-free `inner` stands behind a clean
/// prefix `p`, its two markers are the only ones that start before the end of
/// the block's closing marker.
proof fn lemma_block_located(p: Seq<char>, inner: Seq<char>, a: Seq<char>)
    requires
        inner.len() > 0,
        free_of(inner, marker()),
        forall|j: int| 0 <= j < p.len() ==> !occurs_at(p + marker(), marker(), j),
    ensures
        ({
            let d = p + rendered_block(inner) + a;
            let s = p.len() as int;
            let q = s + 26 + rendered_inner(inner).len();
            &&& occurs_at(d, marker(), s)
            &&& occurs_at(d, marker(), q)
            &&& forall|j: int| j < q && j != s ==> !occurs_at(d, marker(), j)
            &&& d[q + 26] == '\n'
            &&& d.subrange(s + 26, q) == rendered_inner(inner)
        }),
{
    lemma_marker_shape();
    let m = marker();
    let body = rendered_inner(inner);
    let cn = with_trailing_newline(inner);
    let d = p + rendered_block(inner) + a;
    let s = p.len() as int;
    let q = s + 26 + body.len();
    assert(d.subrange(s, s + 26) =~= m);
    assert(d.subrange(q, q + 26) =~= m);
    assert(d.subrange(s + 26, q) =~= body);
    assert forall|j: int| j < q && j != s implies !occurs_at(d, m, j) by {
        if occurs_at(d, m, j) {
            lemma_occurrence_chars(d, m, j);
            assert(d[j + 0] == m[0]);
            if j < s {
                lemma_occurrence_local(d, p + m, m, j, j);
                assert(occurs_at(p + m, m, j));
            } else if j < s + 26 {
                assert(d[j] == m[j - s]);
            } else if j == s + 26 {
                assert(d[j] == '\n');
            } else if j + 26 > q {
                assert(d[j + (q - j)] == m[q - j]);
                assert(d[q] == m[0]);
            } else {
                let r = j - (s + 27);
                if r + 26 <= inner.len() {
                    assert forall|k: int| 0 <= k < 26 implies #[trigger] d[j + k] == inner[r + k] by {
                        assert(d[j + k] == cn[r + k]);
                    }
                    lemma_occurrence_local(d, inner, m, j, r);
                    assert(occurs_at(inner, m, r));
                } else {
                    assert(d[j + 25] == m[25]);
                    assert(d[j + 25] == cn[r + 25]);
                    assert(cn[r + 25] == '\n');
                }
            }
        }
    }
}

/// A replacement by a non-empty, marker-free `inner` puts the block directly
/// behind the lead of `doc`, and no other marker starts before the block's
/// end.
proof fn lemma_replaced_located(doc: Seq<char>, inner: Seq<char>)
    requires
        inner.len() > 0,
        free_of(inner, marker()),
    ensures
        ({
            let d = replaced(doc, inner);
            let s = lead(doc).len() as int;
            let q = s + 26 + rendered_inner(inner).len();
            &&& first_marker(d) == Some(s)
            &&& second_marker(d, s) == Some(q)
            &&& section_span(d) == Some((s, q + 26))
            &&& forall|j: int| j < q && j != s ==> !occurs_at(d, marker(), j)
            &&& inner_text(d, (s, q + 26)) == rendered_inner(inner)
            &&& d.subrange(0, s) == lead(doc)
            &&& d.subrange(q + 26, d.len() as int) == newline() + trail(doc)
        }),
{
    lemma_marker_shape();
    lemma_lead_clean(doc);
    lemma_block_located(lead(doc), inner, trail(doc));
    let d = replaced(doc, inner);
    let s = lead(doc).len() as int;
    let q = s + 26 + rendered_inner(inner).len();
    assert(is_first_from(d, marker(), 0, s));
    lemma_first_from_some(d, marker(), 0, s);
    assert(is_first_from(d, marker(), s + 26, q));
    lemma_first_from_some(d, marker(), s + 26, q);
    assert(d.subrange(0, s) =~= lead(doc));
    assert(d.subrange(q + 26, d.len() as int) =~= newline() + trail(doc));
}

/// Round trip: after a replacement by a non-empty `inner` that holds no
/// marker, the owned span of the document is the block just written, and the
/// text between its markers is `inner` as rendered.
pub proof fn law_round_trip(doc: Seq<char>, inner: Seq<char>)
    requires
        inner.len() > 0,
        free_of(inner, marker()),
    ensures
        section_span(replaced(doc, inner)) matches Some(span) && span.0 == lead(doc).len()
            && inner_text(replaced(doc, inner), span) == rendered_inner(inner)
            && replaced(doc, inner).subrange(span.0, span.1) + newline() == rendered_block(inner),
{
    lemma_marker_shape();
    lemma_replaced_located(doc, inner);
    let d = replaced(doc, inner);
    let s = lead(doc).len() as int;
    let q = s + 26 + rendered_inner(inner).len();
    assert(d.subrange(s, q + 26) + newline() =~= rendered_block(inner));
}

/// Applying the same non-empty, marker-free `inner` a second time keeps the
/// owned span, its text and everything in front of it; behind the span it
/// inserts one line break and keeps the rest.
pub proof fn law_reapply_keeps_section(doc: Seq<char>, inner: Seq<char>)
    requires
        inner.len() > 0,
        free_of(inner, marker()),
    ensures
        ({
            let once = replaced(doc, inner);
            let twice = replaced(once, inner);
            &&& section_span(twice) == section_span(once)
            &&& section_span(once) matches Some(span) && {
                &&& inner_text(twice, span) == inner_text(once, span)
                &&& twice == once.subrange(0, span.1) + newline() + once.subrange(
                    span.1,
                    once.len() as int,
                )
            }
        }),
{
    lemma_marker_shape();
    lemma_replaced_located(doc, inner);
    let once = replaced(doc, inner);
    lemma_replaced_located(once, inner);
    let twice = replaced(once, inner);
    let s = lead(doc).len() as int;
    let q = s + 26 + rendered_inner(inner).len();
    assert(lead(once) == lead(doc));
    assert(trail(once) == newline() + trail(doc));
    assert(twice =~= once.subrange(0, q + 26) + newline() + once.subrange(
        q + 26,
        once.len() as int,
    ));
}

/// Removal: replacing the owned section by the empty content leaves the text
/// before the span directly followed by the text after it.
pub proof fn law_revert_removes_section(doc: Seq<char>, span: (int, int))
    requires
        section_span(doc) == Some(span),
    ensures
        replaced(doc, Seq::empty()) == doc.subrange(0, span.0) + doc.subrange(
            span.1,
            doc.len() as int,
        ),
{
    assert(replaced(doc, Seq::empty()) =~= doc.subrange(0, span.0) + doc.subrange(
        span.1,
        doc.len() as int,
    ));
}

/// Write, then remove: after a replacement by a non-empty, marker-free
/// `inner`, a removal takes the whole block out again. What is left is the
/// lead of `doc`, the line break that ended the block, and the trail of `doc`.
pub proof fn law_removal_after_replacement(doc: Seq<char>, inner: Seq<char>)
    requires
        inner.len() > 0,
        free_of(inner, marker()),
    ensures
        replaced(replaced(doc, inner), Seq::empty()) == lead(doc) + newline() + trail(doc),
{
    lemma_marker_shape();
    lemma_replaced_located(doc, inner);
    let once = replaced(doc, inner);
    assert(lead(once) == lead(doc));
    assert(trail(once) == newline() + trail(doc));
    assert(replaced(once, Seq::empty()) =~= lead(doc) + newline() + trail(doc));
}

/// Repair: in a document with a single marker, at `f`, a replacement by a
/// non-empty, marker-free `inner` keeps the text before `f` and yields a
/// document in which a marker starts at exactly two offsets.
pub proof fn law_repair_single_marker(doc: Seq<char>, inner: Seq<char>, f: int)
    requires
        first_marker(doc) == Some(f),
        second_marker(doc, f) is None,
        inner.len() > 0,
        free_of(inner, marker()),
    ensures
        ({
            let d = replaced(doc, inner);
            let q = f + 26 + rendered_inner(inner).len();
            &&& d.subrange(0, f) == doc.subrange(0, f)
            &&& d == doc.subrange(0, f) + rendered_block(inner)
            &&& forall|j: int| occurs_at(d, marker(), j) <==> (j == f || j == q)
        }),
{
    lemma_marker_shape();
    lemma_first_from_exact(doc, marker(), 0);
    lemma_replaced_located(doc, inner);
    let d = replaced(doc, inner);
    let q = f + 26 + rendered_inner(inner).len();
    assert(lead(doc).len() == f);
    assert(d =~= doc.subrange(0, f) + rendered_block(inner));
    assert(d.len() == q + 27);
    assert forall|j: int| occurs_at(d, marker(), j) implies (j == f || j == q) by {
        if j > q {
            lemma_occurrence_chars(d, marker(), j);
            assert(d[j + 25] == marker()[25]);
            assert(j == q + 1);
            assert(d[q + 26] == '\n');
        }
    }
}

} // verus!
