//! Document-level laws of the formatter, stated over the line sequence the
//! block formatter and list renumberer produce (the text handed to the
//! table collaborator, one line per entry).
use vstd::prelude::*;
use crate::blocks::blank_before;
use crate::blocks::emission;
use crate::blocks::format_lines_spec;
use crate::blocks::next_state;
use crate::lists::renumber_spec;
use crate::lists::update_levels;
use crate::lists::Level;
use crate::listitem::is_list_line;
use crate::listitem::list_content;
use crate::listitem::list_indent;
use crate::listitem::list_kind;
use crate::spacing::format_text_spec;
use crate::spacing::lemma_format_text_first;
use crate::state::line_state_spec;
use crate::state::starts_with_fence;
use crate::state::LineState;
use crate::text::split_document_spec;

verus! {

/// No two adjacent lines are both blank.
pub open spec fn no_adjacent_blanks(lines: Seq<Seq<char>>) -> bool {
    forall|i: int|
        0 <= i && i + 1 < lines.len() ==> !((#[trigger] lines[i]).len() == 0 && lines[i
            + 1].len() == 0)
}

/// No line opens a fenced code block; inside fences lines pass verbatim,
/// so blank runs are collapsed only outside them.
pub open spec fn fence_free(lines: Seq<Seq<char>>) -> bool {
    forall|i: int| 0 <= i < lines.len() ==> !starts_with_fence(#[trigger] lines[i])
}

proof fn lemma_concat_no_adjacent_blanks(a: Seq<Seq<char>>, b: Seq<Seq<char>>)
    requires
        no_adjacent_blanks(a),
        no_adjacent_blanks(b),
        a.len() > 0 && b.len() > 0 ==> !(a.last().len() == 0 && b[0].len() == 0),
    ensures
        no_adjacent_blanks(a + b),
{
    assert forall|i: int| 0 <= i && i + 1 < (a + b).len() implies !((#[trigger] (a + b)[i]).len()
        == 0 && (a + b)[i + 1].len() == 0) by {
        if i + 1 < a.len() {
            assert((a + b)[i] == a[i]);
            assert((a + b)[i + 1] == a[i + 1]);
        } else if i + 1 == a.len() {
            assert((a + b)[i] == a[i]);
            assert((a + b)[i + 1] == b[0]);
            assert(a[i] == a.last());
        } else {
            assert((a + b)[i] == b[i - a.len()]);
            assert((a + b)[i + 1] == b[i + 1 - a.len()]);
        }
    }
}

/// The block formatter never emits two adjacent blank lines, and after an
/// effective `Empty` state it opens with content, not with a blank.
proof fn lemma_format_lines_blanks(lines: Seq<Seq<char>>, prev: LineState)
    requires
        fence_free(lines),
        prev != LineState::CodeStart,
        prev != LineState::Code,
    ensures
        no_adjacent_blanks(format_lines_spec(lines, prev)),
        ({
            let out = format_lines_spec(lines, prev);
            prev == LineState::Empty && out.len() > 0 ==> out[0].len() > 0
        }),
    decreases lines.len(),
{
    if lines.len() > 0 {
        let l0 = lines[0];
        let st = line_state_spec(l0, prev);
        let prev2 = next_state(prev, l0);
        let em = emission(prev, l0);
        let rest = lines.drop_first();
        let rest_out = format_lines_spec(rest, prev2);
        assert(!starts_with_fence(l0));
        assert forall|i: int| 0 <= i < rest.len() implies !starts_with_fence(
            #[trigger] rest[i],
        ) by {
            assert(rest[i] == lines[i + 1]);
        }
        assert(st != LineState::CodeStart);
        assert(st != LineState::Code && st != LineState::CodeEnd);
        assert(prev2 != LineState::CodeStart && prev2 != LineState::Code);
        lemma_format_lines_blanks(rest, prev2);
        let out = format_lines_spec(lines, prev);
        assert(out == em + rest_out);
        if st == LineState::Empty {
            if prev == LineState::Empty {
                assert(em =~= Seq::<Seq<char>>::empty());
                assert(out =~= rest_out);
            } else {
                assert(em =~= seq![Seq::<char>::empty()]);
                assert(prev2 == LineState::Empty);
                lemma_concat_no_adjacent_blanks(em, rest_out);
            }
        } else {
            assert(l0.len() > 0);
            let ft = format_text_spec(l0);
            lemma_format_text_first(l0);
            if st == LineState::Title {
                if blank_before(prev, st) {
                    assert(em =~= seq![Seq::<char>::empty(), ft, Seq::<char>::empty()]);
                } else {
                    assert(em =~= seq![ft, Seq::<char>::empty()]);
                }
                assert(prev2 == LineState::Empty);
                lemma_concat_no_adjacent_blanks(em, rest_out);
            } else {
                let content: Seq<char> = if st == LineState::CodeStart {
                    l0
                } else {
                    ft
                };
                if blank_before(prev, st) {
                    assert(em =~= seq![Seq::<char>::empty(), content]);
                } else {
                    assert(em =~= seq![content]);
                }
                assert(em.last().len() > 0);
                lemma_concat_no_adjacent_blanks(em, rest_out);
            }
        }
        if prev == LineState::Empty && out.len() > 0 {
            assert(!blank_before(prev, st));
            if em.len() > 0 {
                assert(out[0] == em[0]);
            } else {
                assert(out[0] == rest_out[0]);
            }
        }
    }
}

/// A line that opens with the given character.
pub open spec fn starts_with_char(l: Seq<char>, c: char) -> bool {
    l.len() > 0 && l[0] == c
}

/// A heading line, by its shape.
pub open spec fn starts_hash(l: Seq<char>) -> bool {
    starts_with_char(l, '#')
}

/// Renumbering rewrites lines one for one; it never turns a line blank or
/// a blank line into content, and for any lead character that cannot open
/// a list item it never makes or unmakes a line led by that character.
proof fn lemma_renumber_line_map(lines: Seq<Seq<char>>, stack: Seq<Level>, c: char)
    requires
        !crate::chars::is_space_spec(c),
        !crate::chars::is_marker_spec(c),
        !crate::chars::is_digit_spec(c),
    ensures
        renumber_spec(lines, stack).len() == lines.len(),
        forall|i: int|
            0 <= i < lines.len() ==> ((#[trigger] renumber_spec(lines, stack)[i]).len() == 0
                <==> lines[i].len() == 0),
        forall|i: int|
            0 <= i < lines.len() ==> (starts_with_char(
                #[trigger] renumber_spec(lines, stack)[i],
                c,
            ) <==> starts_with_char(lines[i], c)),
    decreases lines.len(),
{
    if lines.len() > 0 {
        let l0 = lines[0];
        let rest = lines.drop_first();
        let out = renumber_spec(lines, stack);
        if !is_list_line(l0) {
            lemma_renumber_line_map(rest, Seq::empty(), c);
            assert forall|i: int| 0 <= i < lines.len() implies ((#[trigger] out[i]).len() == 0
                <==> lines[i].len() == 0) && (starts_with_char(out[i], c) <==> starts_with_char(
                lines[i],
                c,
            )) by {
                if i > 0 {
                    assert(out[i] == renumber_spec(rest, Seq::empty())[i - 1]);
                    assert(lines[i] == rest[i - 1]);
                }
            }
        } else {
            let st = update_levels(stack, list_indent(l0), list_kind(l0));
            lemma_renumber_line_map(rest, st, c);
            assert(l0.len() > 0) by {
                if l0.len() == 0 {
                    assert(l0.skip(0) =~= l0);
                }
            }
            assert(!starts_with_char(l0, c)) by {
                if l0[0] == c {
                    assert(crate::listitem::ws_run(l0) == 0);
                    assert(l0.skip(0) =~= l0);
                }
            }
            let r0 = crate::lists::rendered_line(st, list_content(l0));
            crate::lists::lemma_rendered_first(st, list_content(l0));
            assert(!starts_with_char(r0, c));
            assert forall|i: int| 0 <= i < lines.len() implies ((#[trigger] out[i]).len() == 0
                <==> lines[i].len() == 0) && (starts_with_char(out[i], c) <==> starts_with_char(
                lines[i],
                c,
            )) by {
                if i == 0 {
                    assert(out[0] == r0);
                } else {
                    assert(out[i] == renumber_spec(rest, st)[i - 1]);
                    assert(lines[i] == rest[i - 1]);
                }
            }
        }
    }
}

/// Every heading line is immediately followed by a blank line.
pub open spec fn titles_followed(lines: Seq<Seq<char>>) -> bool {
    forall|i: int|
        0 <= i < lines.len() && starts_hash(#[trigger] lines[i]) ==> i + 1 < lines.len()
            && lines[i + 1].len() == 0
}

/// Every heading line but the first line is immediately preceded by a
/// blank line.
pub open spec fn titles_preceded(lines: Seq<Seq<char>>) -> bool {
    forall|i: int|
        0 < i < lines.len() && starts_hash(#[trigger] lines[i]) ==> lines[i - 1].len() == 0
}

/// No heading directly follows a paragraph line in the classifier's walk:
/// the one adjacency for which the block formatter inserts no blank line
/// before a heading.
pub open spec fn no_title_after_normal(lines: Seq<Seq<char>>, prev: LineState) -> bool
    decreases lines.len(),
{
    if lines.len() == 0 {
        true
    } else {
        !(prev == LineState::Normal && line_state_spec(lines[0], prev) == LineState::Title)
            && no_title_after_normal(lines.drop_first(), next_state(prev, lines[0]))
    }
}

proof fn lemma_concat_titles(a: Seq<Seq<char>>, b: Seq<Seq<char>>)
    requires
        titles_followed(a),
        titles_followed(b),
        titles_preceded(a),
        titles_preceded(b),
        a.len() > 0 && b.len() > 0 && starts_hash(b[0]) ==> a.last().len() == 0,
    ensures
        titles_followed(a + b),
        titles_preceded(a + b),
{
    assert forall|i: int| 0 <= i < (a + b).len() && starts_hash(#[trigger] (a + b)[i]) implies i
        + 1 < (a + b).len() && (a + b)[i + 1].len() == 0 by {
        if i < a.len() {
            assert((a + b)[i] == a[i]);
            assert(i + 1 < a.len());
            assert((a + b)[i + 1] == a[i + 1]);
        } else {
            assert((a + b)[i] == b[i - a.len()]);
            assert((a + b)[i + 1] == b[i + 1 - a.len()]);
        }
    }
    assert forall|i: int| 0 < i < (a + b).len() && starts_hash(#[trigger] (a + b)[i]) implies (a
        + b)[i - 1].len() == 0 by {
        if i < a.len() {
            assert((a + b)[i] == a[i]);
            assert((a + b)[i - 1] == a[i - 1]);
        } else if i == a.len() {
            assert((a + b)[i] == b[0]);
            assert((a + b)[i - 1] == a.last());
        } else {
            assert((a + b)[i] == b[i - a.len()]);
            assert((a + b)[i - 1] == b[i - 1 - a.len()]);
        }
    }
}

/// The block formatter isolates every heading: its emitted line is
/// followed by a blank, and preceded by one wherever the walk promises a
/// blank (every adjacency but a heading straight after a paragraph line).
proof fn lemma_format_lines_titles(lines: Seq<Seq<char>>, prev: LineState)
    requires
        fence_free(lines),
        no_title_after_normal(lines, prev),
        prev != LineState::CodeStart,
        prev != LineState::Code,
        prev != LineState::Title,
    ensures
        titles_followed(format_lines_spec(lines, prev)),
        titles_preceded(format_lines_spec(lines, prev)),
        ({
            let out = format_lines_spec(lines, prev);
            out.len() > 0 && starts_hash(out[0]) ==> prev == LineState::Empty
        }),
    decreases lines.len(),
{
    if lines.len() > 0 {
        let l0 = lines[0];
        let st = line_state_spec(l0, prev);
        let prev2 = next_state(prev, l0);
        let em = emission(prev, l0);
        let rest = lines.drop_first();
        let rest_out = format_lines_spec(rest, prev2);
        assert(!starts_with_fence(l0));
        assert forall|i: int| 0 <= i < rest.len() implies !starts_with_fence(
            #[trigger] rest[i],
        ) by {
            assert(rest[i] == lines[i + 1]);
        }
        assert(st != LineState::CodeStart);
        assert(st != LineState::Code && st != LineState::CodeEnd);
        assert(prev2 != LineState::CodeStart && prev2 != LineState::Code && prev2 != LineState::Title);
        lemma_format_lines_titles(rest, prev2);
        let out = format_lines_spec(lines, prev);
        assert(out == em + rest_out);
        if st == LineState::Empty {
            if prev == LineState::Empty {
                assert(em =~= Seq::<Seq<char>>::empty());
                assert(out =~= rest_out);
            } else {
                assert(em =~= seq![Seq::<char>::empty()]);
                assert(prev2 == LineState::Empty);
                lemma_concat_titles(em, rest_out);
            }
        } else {
            assert(l0.len() > 0);
            let ft = format_text_spec(l0);
            lemma_format_text_first(l0);
            if st == LineState::Title {
                assert(starts_hash(ft));
                if blank_before(prev, st) {
                    assert(em =~= seq![Seq::<char>::empty(), ft, Seq::<char>::empty()]);
                } else {
                    assert(em =~= seq![ft, Seq::<char>::empty()]);
                    assert(prev == LineState::Empty);
                }
                assert(prev2 == LineState::Empty);
                lemma_concat_titles(em, rest_out);
            } else {
                assert(l0[0] != '#');
                assert(!starts_hash(ft));
                let content: Seq<char> = ft;
                if blank_before(prev, st) {
                    assert(em =~= seq![Seq::<char>::empty(), content]);
                } else {
                    assert(em =~= seq![content]);
                }
                assert(prev2 == st && prev2 != LineState::Empty);
                assert(rest_out.len() > 0 && starts_hash(rest_out[0]) ==> false);
                lemma_concat_titles(em, rest_out);
            }
        }
        if out.len() > 0 && starts_hash(out[0]) {
            if em.len() > 0 {
                assert(out[0] == em[0]);
            } else {
                assert(out[0] == rest_out[0]);
            }
        }
    }
}

/// Heading isolation: in a document whose lines open no fenced code block
/// and where no heading directly follows a paragraph line, every heading
/// in the line sequence produced by the splitting, block-formatting and
/// renumbering passes is immediately followed by a blank line, and
/// immediately preceded by one except at the document's start.
pub proof fn lemma_title_isolation(text: Seq<char>)
    requires
        fence_free(split_document_spec(text)),
        no_title_after_normal(split_document_spec(text), LineState::Empty),
    ensures
        titles_followed(
            renumber_spec(
                format_lines_spec(split_document_spec(text), LineState::Empty),
                Seq::empty(),
            ),
        ),
        titles_preceded(
            renumber_spec(
                format_lines_spec(split_document_spec(text), LineState::Empty),
                Seq::empty(),
            ),
        ),
{
    let lines = split_document_spec(text);
    let formatted = format_lines_spec(lines, LineState::Empty);
    let renumbered = renumber_spec(formatted, Seq::empty());
    lemma_format_lines_titles(lines, LineState::Empty);
    lemma_renumber_line_map(formatted, Seq::empty(), '#');
    assert forall|i: int| 0 <= i < renumbered.len() && starts_hash(
        #[trigger] renumbered[i],
    ) implies i + 1 < renumbered.len() && renumbered[i + 1].len() == 0 by {
        assert(starts_hash(formatted[i]));
        assert(formatted[i + 1].len() == 0);
    }
    assert forall|i: int| 0 < i < renumbered.len() && starts_hash(
        #[trigger] renumbered[i],
    ) implies renumbered[i - 1].len() == 0 by {
        assert(starts_hash(formatted[i]));
        assert(formatted[i - 1].len() == 0);
    }
}

/// Blank-line collapse: in a document whose lines open no fenced code
/// block, the line sequence produced by the splitting, block-formatting
/// and renumbering passes never holds two adjacent blank lines — every run
/// of blank or whitespace-only input lines has collapsed to at most one
/// blank line.
pub proof fn lemma_blank_line_collapse(text: Seq<char>)
    requires
        fence_free(split_document_spec(text)),
    ensures
        no_adjacent_blanks(
            renumber_spec(
                format_lines_spec(split_document_spec(text), LineState::Empty),
                Seq::empty(),
            ),
        ),
{
    let lines = split_document_spec(text);
    let formatted = format_lines_spec(lines, LineState::Empty);
    let renumbered = renumber_spec(formatted, Seq::empty());
    lemma_format_lines_blanks(lines, LineState::Empty);
    lemma_renumber_line_map(formatted, Seq::empty(), '#');
    assert forall|i: int| 0 <= i && i + 1 < renumbered.len() implies !((
    #[trigger] renumbered[i]).len() == 0 && renumbered[i + 1].len() == 0) by {
        assert(renumbered[i].len() == 0 <==> formatted[i].len() == 0);
        assert(renumbered[i + 1].len() == 0 <==> formatted[i + 1].len() == 0);
    }
}

/// A table or blockquote line and a different, non-blank line are never
/// adjacent: block kinds led by the given character are separated from
/// neighbouring content by a blank line.
pub open spec fn blocks_isolated(lines: Seq<Seq<char>>, c: char) -> bool {
    forall|i: int|
        0 <= i && i + 1 < lines.len() && (starts_with_char(#[trigger] lines[i], c)
            != starts_with_char(lines[i + 1], c)) ==> lines[i].len() == 0 || lines[i
            + 1].len() == 0
}

/// The classification a line led by the given block character receives.
pub open spec fn marker_state(c: char) -> LineState {
    if c == '|' {
        LineState::Table
    } else {
        LineState::Blockquote
    }
}

proof fn lemma_concat_blocks(a: Seq<Seq<char>>, b: Seq<Seq<char>>, c: char)
    requires
        blocks_isolated(a, c),
        blocks_isolated(b, c),
        a.len() > 0 && b.len() > 0 && (starts_with_char(a.last(), c) != starts_with_char(
            b[0],
            c,
        )) ==> a.last().len() == 0 || b[0].len() == 0,
    ensures
        blocks_isolated(a + b, c),
{
    assert forall|i: int| 0 <= i && i + 1 < (a + b).len() && (starts_with_char(
        #[trigger] (a + b)[i],
        c,
    ) != starts_with_char((a + b)[i + 1], c)) implies (a + b)[i].len() == 0 || (a + b)[i
        + 1].len() == 0 by {
        if i + 1 < a.len() {
            assert((a + b)[i] == a[i]);
            assert((a + b)[i + 1] == a[i + 1]);
        } else if i + 1 == a.len() {
            assert((a + b)[i] == a[i]);
            assert((a + b)[i + 1] == b[0]);
            assert(a[i] == a.last());
        } else {
            assert((a + b)[i] == b[i - a.len()]);
            assert((a + b)[i + 1] == b[i + 1 - a.len()]);
        }
    }
}

/// The block formatter isolates tables and blockquotes: a line of such a
/// block and any different non-blank line always have a blank line between
/// them.
proof fn lemma_format_lines_blocks(lines: Seq<Seq<char>>, prev: LineState, c: char)
    requires
        fence_free(lines),
        c == '|' || c == '>',
        prev != LineState::CodeStart,
        prev != LineState::Code,
        prev != LineState::Title,
    ensures
        blocks_isolated(format_lines_spec(lines, prev), c),
        ({
            let out = format_lines_spec(lines, prev);
            out.len() > 0 && starts_with_char(out[0], c) ==> prev == LineState::Empty || prev
                == marker_state(c)
        }),
        ({
            let out = format_lines_spec(lines, prev);
            prev == marker_state(c) && out.len() > 0 ==> out[0].len() == 0 || starts_with_char(
                out[0],
                c,
            )
        }),
    decreases lines.len(),
{
    if lines.len() > 0 {
        let l0 = lines[0];
        let st = line_state_spec(l0, prev);
        let prev2 = next_state(prev, l0);
        let em = emission(prev, l0);
        let rest = lines.drop_first();
        let rest_out = format_lines_spec(rest, prev2);
        assert(!starts_with_fence(l0));
        assert forall|i: int| 0 <= i < rest.len() implies !starts_with_fence(
            #[trigger] rest[i],
        ) by {
            assert(rest[i] == lines[i + 1]);
        }
        assert(st != LineState::CodeStart);
        assert(st != LineState::Code && st != LineState::CodeEnd);
        assert(prev2 != LineState::CodeStart && prev2 != LineState::Code && prev2 != LineState::Title);
        lemma_format_lines_blocks(rest, prev2, c);
        let out = format_lines_spec(lines, prev);
        assert(out == em + rest_out);
        if st == LineState::Empty {
            if prev == LineState::Empty {
                assert(em =~= Seq::<Seq<char>>::empty());
                assert(out =~= rest_out);
            } else {
                assert(em =~= seq![Seq::<char>::empty()]);
                assert(prev2 == LineState::Empty);
                lemma_concat_blocks(em, rest_out, c);
            }
        } else {
            assert(l0.len() > 0);
            let ft = format_text_spec(l0);
            lemma_format_text_first(l0);
            if st == LineState::Title {
                assert(l0[0] == '#' && l0[0] != c);
                assert(!starts_with_char(ft, c));
                if blank_before(prev, st) {
                    assert(em =~= seq![Seq::<char>::empty(), ft, Seq::<char>::empty()]);
                } else {
                    assert(em =~= seq![ft, Seq::<char>::empty()]);
                }
                assert(prev2 == LineState::Empty);
                lemma_concat_blocks(em, rest_out, c);
            } else if st == marker_state(c) {
                assert(l0[0] == c);
                assert(starts_with_char(ft, c));
                if blank_before(prev, st) {
                    assert(em =~= seq![Seq::<char>::empty(), ft]);
                } else {
                    assert(em =~= seq![ft]);
                }
                assert(prev2 == marker_state(c));
                lemma_concat_blocks(em, rest_out, c);
            } else {
                assert(l0[0] != c);
                assert(!starts_with_char(ft, c));
                if blank_before(prev, st) {
                    assert(em =~= seq![Seq::<char>::empty(), ft]);
                } else {
                    assert(em =~= seq![ft]);
                }
                assert(prev2 == st && prev2 != LineState::Empty && prev2 != marker_state(c));
                assert(rest_out.len() > 0 ==> !starts_with_char(rest_out[0], c));
                lemma_concat_blocks(em, rest_out, c);
            }
        }
        if out.len() > 0 && starts_with_char(out[0], c) {
            if em.len() > 0 {
                assert(out[0] == em[0]);
            } else {
                assert(out[0] == rest_out[0]);
            }
        }
        if prev == marker_state(c) && out.len() > 0 {
            assert(em.len() > 0);
            assert(out[0] == em[0]);
        }
    }
}

/// Table and blockquote isolation: in a document whose lines open no
/// fenced code block, the line sequence produced by the splitting,
/// block-formatting and renumbering passes never puts a table line or a
/// blockquote line directly against a different non-blank line — a blank
/// line always stands between the block and its neighbours.
pub proof fn lemma_block_isolation(text: Seq<char>)
    requires
        fence_free(split_document_spec(text)),
    ensures
        blocks_isolated(
            renumber_spec(
                format_lines_spec(split_document_spec(text), LineState::Empty),
                Seq::empty(),
            ),
            '|',
        ),
        blocks_isolated(
            renumber_spec(
                format_lines_spec(split_document_spec(text), LineState::Empty),
                Seq::empty(),
            ),
            '>',
        ),
{
    let lines = split_document_spec(text);
    let formatted = format_lines_spec(lines, LineState::Empty);
    let renumbered = renumber_spec(formatted, Seq::empty());
    lemma_format_lines_blocks(lines, LineState::Empty, '|');
    lemma_format_lines_blocks(lines, LineState::Empty, '>');
    lemma_renumber_line_map(formatted, Seq::empty(), '|');
    lemma_renumber_line_map(formatted, Seq::empty(), '>');
    assert forall|i: int| 0 <= i && i + 1 < renumbered.len() && (starts_with_char(
        #[trigger] renumbered[i],
        '|',
    ) != starts_with_char(renumbered[i + 1], '|')) implies renumbered[i].len() == 0
        || renumbered[i + 1].len() == 0 by {
        assert(starts_with_char(renumbered[i], '|') == starts_with_char(formatted[i], '|'));
        assert(starts_with_char(renumbered[i + 1], '|') == starts_with_char(
            formatted[i + 1],
            '|',
        ));
    }
    assert forall|i: int| 0 <= i && i + 1 < renumbered.len() && (starts_with_char(
        #[trigger] renumbered[i],
        '>',
    ) != starts_with_char(renumbered[i + 1], '>')) implies renumbered[i].len() == 0
        || renumbered[i + 1].len() == 0 by {
        assert(starts_with_char(renumbered[i], '>') == starts_with_char(formatted[i], '>'));
        assert(starts_with_char(renumbered[i + 1], '>') == starts_with_char(
            formatted[i + 1],
            '>',
        ));
    }
}

/// List interruption resets numbering: any non-list line clears the open
/// levels, so the list line that follows it is always rendered as a fresh
/// single-level list whose counter starts at 1, whatever stack was open
/// before.
pub proof fn lemma_interruption_resets(lines: Seq<Seq<char>>, stack: Seq<Level>, i: int)
    requires
        0 <= i,
        i + 1 < lines.len(),
        !is_list_line(lines[i]),
        is_list_line(lines[i + 1]),
    ensures
        renumber_spec(lines, stack)[i + 1] == crate::lists::rendered_line(
            seq![Level { list_type: list_kind(lines[i + 1]), indent: 0, counter: 1 }],
            list_content(lines[i + 1]),
        ),
    decreases i,
{
    let rest = lines.drop_first();
    if i == 0 {
        assert(rest[0] == lines[1]);
        crate::lists::lemma_renumber_len(rest, Seq::empty());
        assert(renumber_spec(lines, stack) == seq![lines[0]] + renumber_spec(
            rest,
            Seq::empty(),
        ));
        assert(renumber_spec(lines, stack)[1] == renumber_spec(rest, Seq::empty())[0]);
        assert(update_levels(Seq::empty(), list_indent(lines[1]), list_kind(lines[1])) =~= seq![
            Level { list_type: list_kind(lines[1]), indent: 0, counter: 1 },
        ]);
    } else {
        assert(rest[i - 1] == lines[i]);
        assert(rest[i] == lines[i + 1]);
        if !is_list_line(lines[0]) {
            lemma_interruption_resets(rest, Seq::empty(), i - 1);
            crate::lists::lemma_renumber_len(rest, Seq::empty());
            assert(renumber_spec(lines, stack) == seq![lines[0]] + renumber_spec(
                rest,
                Seq::empty(),
            ));
            assert(renumber_spec(lines, stack)[i + 1] == renumber_spec(rest, Seq::empty())[i]);
        } else {
            let st = update_levels(stack, list_indent(lines[0]), list_kind(lines[0]));
            lemma_interruption_resets(rest, st, i - 1);
            crate::lists::lemma_renumber_len(rest, st);
            assert(renumber_spec(lines, stack) == seq![
                crate::lists::rendered_line(st, list_content(lines[0])),
            ] + renumber_spec(rest, st));
            assert(renumber_spec(lines, stack)[i + 1] == renumber_spec(rest, st)[i]);
        }
    }
}

} // verus!
