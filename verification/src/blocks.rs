//! The block formatter: walks the lines in order, classifies each against
//! the previous state, inserts or suppresses blank lines by the
//! block-adjacency rules, and applies the inline spacer to non-verbatim
//! lines.
use vstd::prelude::*;
use crate::spacing::format_text_chars;
use crate::spacing::format_text_spec;
use crate::state::line_state_chars;
use crate::state::line_state_spec;
use crate::state::LineState;
use crate::text::views_of;

verus! {

/// Whether a blank line is inserted before the current line's content,
/// given the previous state and the current state.
pub open spec fn blank_before(prev: LineState, st: LineState) -> bool {
    match st {
        LineState::Normal => prev == LineState::Table || prev == LineState::CodeEnd || prev
            == LineState::Blockquote,
        LineState::CodeStart => prev != LineState::Empty,
        LineState::Blockquote => prev != LineState::Empty && prev != LineState::Blockquote,
        LineState::Table => prev != LineState::Table && prev != LineState::Empty,
        LineState::Title => prev == LineState::Table || prev == LineState::CodeEnd || prev
            == LineState::List || prev == LineState::Blockquote,
        LineState::List => prev != LineState::List && prev != LineState::Empty,
        _ => false,
    }
}

/// The lines emitted for one input line: an optional blank line, then the
/// content (formatted, verbatim, or nothing for an empty line), then an
/// unconditional blank line after a title.
pub open spec fn emission(prev: LineState, line: Seq<char>) -> Seq<Seq<char>> {
    let st = line_state_spec(line, prev);
    let pre: Seq<Seq<char>> = if blank_before(prev, st) {
        seq![Seq::<char>::empty()]
    } else {
        Seq::empty()
    };
    match st {
        LineState::Code | LineState::CodeEnd => seq![line],
        LineState::CodeStart => pre + seq![line],
        LineState::Empty => if prev != LineState::Empty {
            seq![Seq::<char>::empty()]
        } else {
            Seq::empty()
        },
        LineState::Title => pre + seq![format_text_spec(line)] + seq![Seq::<char>::empty()],
        _ => pre + seq![format_text_spec(line)],
    }
}

/// The state carried to the next line: a title counts as an empty line for
/// what follows it.
pub open spec fn next_state(prev: LineState, line: Seq<char>) -> LineState {
    let st = line_state_spec(line, prev);
    if st == LineState::Title {
        LineState::Empty
    } else {
        st
    }
}

/// The block formatter over a whole line sequence, threading the previous
/// state through the walk.
pub open spec fn format_lines_spec(lines: Seq<Seq<char>>, prev: LineState) -> Seq<Seq<char>>
    decreases lines.len(),
{
    if lines.len() == 0 {
        Seq::empty()
    } else {
        emission(prev, lines[0]) + format_lines_spec(lines.drop_first(), next_state(
            prev,
            lines[0],
        ))
    }
}

/// At most three lines come out for each line that goes in.
pub proof fn lemma_format_lines_len(lines: Seq<Seq<char>>, prev: LineState)
    ensures
        format_lines_spec(lines, prev).len() <= 3 * lines.len(),
    decreases lines.len(),
{
    if lines.len() > 0 {
        lemma_format_lines_len(lines.drop_first(), next_state(prev, lines[0]));
    }
}

/// Runs the block formatter, starting from an initial previous-state of
/// `Empty` so that the document's first line gets no spurious leading
/// blank.
pub fn format_lines_chars(lines: &Vec<Vec<char>>) -> (r: Vec<Vec<char>>)
    ensures
        views_of(r@) == format_lines_spec(views_of(lines@), LineState::Empty),
        r@.len() <= 3 * lines@.len(),
{
    let ghost all = views_of(lines@);
    let mut out: Vec<Vec<char>> = Vec::new();
    let mut prev = LineState::Empty;
    let mut i: usize = 0;
    proof {
        assert(all.skip(0) =~= all);
        assert(views_of(out@) =~= Seq::<Seq<char>>::empty());
        assert(format_lines_spec(all, LineState::Empty) =~= views_of(out@) + format_lines_spec(
            all,
            LineState::Empty,
        ));
    }
    while i < lines.len()
        invariant
            i <= lines@.len(),
            all == views_of(lines@),
            all.len() == lines@.len(),
            out@.len() <= 3 * i,
            format_lines_spec(all, LineState::Empty) =~= views_of(out@) + format_lines_spec(
                all.skip(i as int),
                prev,
            ),
        decreases lines@.len() - i,
    {
        let ghost old_views = views_of(out@);
        let ghost rest = all.skip(i as int);
        let line = &lines[i];
        proof {
            assert(rest[0] == all[i as int]);
            assert(rest.drop_first() =~= all.skip(i + 1));
        }
        let st = line_state_chars(line, prev);
        let mut cur = st;
        match st {
            LineState::Code | LineState::CodeEnd => {
                let copy = crate::text::copy_range(line, 0, line.len());
                proof {
                    assert(copy@ =~= line@);
                }
                out.push(copy);
                proof {
                    assert(views_of(out@) =~= old_views + emission(prev, rest[0]));
                }
            },
            LineState::CodeStart => {
                if !matches!(prev, LineState::Empty) {
                    out.push(Vec::new());
                }
                let copy = crate::text::copy_range(line, 0, line.len());
                proof {
                    assert(copy@ =~= line@);
                }
                out.push(copy);
                proof {
                    assert(views_of(out@) =~= old_views + emission(prev, rest[0]));
                }
            },
            LineState::Empty => {
                if !matches!(prev, LineState::Empty) {
                    out.push(Vec::new());
                }
                proof {
                    assert(views_of(out@) =~= old_views + emission(prev, rest[0]));
                }
            },
            LineState::Title => {
                if matches!(
                    prev,
                    LineState::Table | LineState::CodeEnd | LineState::List | LineState::Blockquote
                ) {
                    out.push(Vec::new());
                }
                out.push(format_text_chars(line));
                out.push(Vec::new());
                cur = LineState::Empty;
                proof {
                    assert(views_of(out@) =~= old_views + emission(prev, rest[0]));
                }
            },
            LineState::Normal => {
                if matches!(
                    prev,
                    LineState::Table | LineState::CodeEnd | LineState::Blockquote
                ) {
                    out.push(Vec::new());
                }
                out.push(format_text_chars(line));
                proof {
                    assert(views_of(out@) =~= old_views + emission(prev, rest[0]));
                }
            },
            LineState::Blockquote => {
                if !matches!(prev, LineState::Empty | LineState::Blockquote) {
                    out.push(Vec::new());
                }
                out.push(format_text_chars(line));
                proof {
                    assert(views_of(out@) =~= old_views + emission(prev, rest[0]));
                }
            },
            LineState::Table => {
                if !matches!(prev, LineState::Table | LineState::Empty) {
                    out.push(Vec::new());
                }
                out.push(format_text_chars(line));
                proof {
                    assert(views_of(out@) =~= old_views + emission(prev, rest[0]));
                }
            },
            LineState::List => {
                if !matches!(prev, LineState::List | LineState::Empty) {
                    out.push(Vec::new());
                }
                out.push(format_text_chars(line));
                proof {
                    assert(views_of(out@) =~= old_views + emission(prev, rest[0]));
                }
            },
        }
        proof {
            assert(cur == next_state(prev, rest[0]));
            assert(format_lines_spec(rest, prev) =~= emission(prev, rest[0]) + format_lines_spec(
                all.skip(i + 1),
                next_state(prev, rest[0]),
            ));
        }
        prev = cur;
        i += 1;
    }
    proof {
        assert(all.skip(all.len() as int) =~= Seq::<Seq<char>>::empty());
        assert(format_lines_spec(all.skip(all.len() as int), prev) =~= Seq::<Seq<char>>::empty());
        assert(views_of(out@) =~= format_lines_spec(all, LineState::Empty));
        assert(views_of(out@).len() == out@.len());
    }
    out
}

/// The views of a sequence of string slices.
pub open spec fn str_views(lines: Seq<&str>) -> Seq<Seq<char>> {
    lines.map_values(|l: &str| l@)
}

/// The views of a sequence of strings.
pub open spec fn string_views(lines: Seq<String>) -> Seq<Seq<char>> {
    lines.map_values(|l: String| l@)
}

/// Runs the block formatter over borrowed lines, yielding owned lines.
pub fn format_lines(lines: Vec<&str>) -> (r: Vec<String>)
    ensures
        string_views(r@) == format_lines_spec(str_views(lines@), LineState::Empty),
{
    let mut chars: Vec<Vec<char>> = Vec::new();
    let mut i: usize = 0;
    while i < lines.len()
        invariant
            i <= lines@.len(),
            views_of(chars@) =~= str_views(lines@).take(i as int),
        decreases lines@.len() - i,
    {
        let c = crate::text::str_to_chars(lines[i]);
        let ghost prev_views = views_of(chars@);
        chars.push(c);
        proof {
            assert(views_of(chars@) =~= prev_views.push(lines@[i as int]@));
            assert(str_views(lines@).take(i + 1) =~= str_views(lines@).take(i as int).push(
                lines@[i as int]@,
            ));
        }
        i += 1;
    }
    proof {
        assert(str_views(lines@).take(lines@.len() as int) =~= str_views(lines@));
    }
    let formatted = format_lines_chars(&chars);
    let mut r: Vec<String> = Vec::new();
    let mut j: usize = 0;
    while j < formatted.len()
        invariant
            j <= formatted@.len(),
            string_views(r@) =~= views_of(formatted@).take(j as int),
        decreases formatted@.len() - j,
    {
        let st = crate::text::chars_to_string(&formatted[j]);
        let ghost prev_views = string_views(r@);
        r.push(st);
        proof {
            assert(string_views(r@) =~= prev_views.push(formatted@[j as int]@));
            assert(views_of(formatted@).take(j + 1) =~= views_of(formatted@).take(j as int).push(
                formatted@[j as int]@,
            ));
        }
        j += 1;
    }
    proof {
        assert(views_of(formatted@).take(formatted@.len() as int) =~= views_of(formatted@));
    }
    r
}

} // verus!
