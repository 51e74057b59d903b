//! The whole transform: split into lines, format blocks, renumber lists,
//! join, hand the text to the table-formatting collaborator once, and
//! terminate with exactly one newline.
use vstd::prelude::*;
use crate::blocks::format_lines_chars;
use crate::blocks::format_lines_spec;
use crate::blocks::lemma_format_lines_len;
use crate::lists::format_lists_chars;
use crate::lists::renumber_spec;
use crate::state::LineState;
use crate::text::chars_to_string;
use crate::text::join_lines;
use crate::text::join_lines_spec;
use crate::text::split_document_spec;
use crate::text::split_into_lines;
use crate::text::str_to_chars;
use crate::text::strip_trailing_nl_spec;
use crate::text::terminate_with_newline;
use crate::text::trim_spec;
use crate::text::views_of;

verus! {

/// What the table-formatting collaborator returns for a given document: a
/// function of the text alone, left uninterpreted here.
pub uninterp spec fn tables_formatted(s: Seq<char>) -> Seq<char>;

/// Relies on markdown_table_formatter::format_tables: it aligns the columns
/// of pipe-delimited table blocks, copies all text outside table ranges
/// verbatim, computes from the document text alone, and returns an empty
/// string for an empty document.
#[verifier::external_body]
fn format_tables_call(text: &str) -> (r: String)
    ensures
        r@ == tables_formatted(text@),
        text@.len() == 0 ==> r@.len() == 0,
{
    markdown_table_formatter::format_tables(text)
}

/// The document after the splitting, block-formatting, renumbering and
/// joining passes: everything before the table collaborator runs.
pub open spec fn structured_spec(text: Seq<char>) -> Seq<char> {
    join_lines_spec(
        renumber_spec(
            format_lines_spec(split_document_spec(text), LineState::Empty),
            Seq::empty(),
        ),
    )
}

/// The whole transform.
pub open spec fn format_markdown_spec(text: Seq<char>) -> Seq<char> {
    strip_trailing_nl_spec(tables_formatted(structured_spec(text))) + seq!['\n']
}

/// Runs every pass up to, but not including, the table collaborator, and
/// joins the lines with single newlines.  The length bound keeps the
/// renumberer's indentation arithmetic inside machine integers.
pub fn format_structure(text: &str) -> (r: String)
    requires
        text@.len() < usize::MAX / 8,
    ensures
        r@ == structured_spec(text@),
{
    let v = str_to_chars(text);
    let lines = split_into_lines(&v);
    let formatted = format_lines_chars(&lines);
    proof {
        lemma_format_lines_len(views_of(lines@), LineState::Empty);
    }
    let renumbered = format_lists_chars(&formatted);
    let joined = join_lines(&renumbered);
    chars_to_string(&joined)
}

/// Formats a Markdown document: strips leading/trailing blank lines and
/// per-line trailing whitespace, canonicalizes blank-line placement around
/// block elements and list markers and numbering, applies the inline
/// spacer, aligns tables through the collaborator, and ends the result with
/// exactly one newline.  An empty or all-whitespace document becomes a
/// single newline.
pub fn format_markdown(text: &str) -> (r: String)
    requires
        text@.len() < usize::MAX / 8,
    ensures
        r@ == format_markdown_spec(text@),
        r@.len() > 0,
        r@[r@.len() - 1] == '\n',
        r@.len() >= 2 ==> r@[r@.len() - 2] != '\n',
        trim_spec(text@).len() == 0 ==> r@ == seq!['\n'],
{
    let structured = format_structure(text);
    let tabled = format_tables_call(structured.as_str());
    let tv = str_to_chars(tabled.as_str());
    let out = terminate_with_newline(&tv);
    proof {
        if trim_spec(text@).len() == 0 {
            assert(split_document_spec(text@) =~= Seq::<Seq<char>>::empty());
            assert(structured@.len() == 0);
            assert(tabled@.len() == 0);
            assert(strip_trailing_nl_spec(tabled@) == tabled@);
            assert(out@ =~= seq!['\n']);
        }
    }
    chars_to_string(&out)
}

} // verus!
