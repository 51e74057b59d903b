//! Line classification: each line's state is a pure function of the line's
//! leading characters and the previous line's state, with no lookahead.
use vstd::prelude::*;
use crate::listitem::is_list_line;
use crate::listitem::parse_list_item;

verus! {

/// The classification of one line.
#[derive(Debug, PartialEq, Eq, Structural, Clone, Copy)]
pub enum LineState {
    Normal,
    Table,
    CodeStart,
    CodeEnd,
    Code,
    Empty,
    Title,
    List,
    Blockquote,
}

/// Whether the line begins with a fenced-code delimiter.
pub open spec fn starts_with_fence(s: Seq<char>) -> bool {
    s.len() >= 3 && s[0] == '`' && s[1] == '`' && s[2] == '`'
}

/// The classification rule, first match wins: inside a code block only the
/// closing fence ends it; then empty, list, fence, title, blockquote and
/// table lines are recognized by their leading characters.
pub open spec fn line_state_spec(line: Seq<char>, prev: LineState) -> LineState {
    if prev == LineState::CodeStart || prev == LineState::Code {
        if starts_with_fence(line) {
            LineState::CodeEnd
        } else {
            LineState::Code
        }
    } else if line.len() == 0 {
        LineState::Empty
    } else if is_list_line(line) {
        LineState::List
    } else if starts_with_fence(line) {
        LineState::CodeStart
    } else if line[0] == '#' {
        LineState::Title
    } else if line[0] == '>' {
        LineState::Blockquote
    } else if line[0] == '|' {
        LineState::Table
    } else {
        LineState::Normal
    }
}

fn starts_with_fence_exec(v: &Vec<char>) -> (r: bool)
    ensures
        r == starts_with_fence(v@),
{
    v.len() >= 3 && v[0] == '`' && v[1] == '`' && v[2] == '`'
}

/// Classifies one line, given as a character vector.
pub fn line_state_chars(v: &Vec<char>, prev: LineState) -> (st: LineState)
    ensures
        st == line_state_spec(v@, prev),
{
    if prev == LineState::CodeStart || prev == LineState::Code {
        if starts_with_fence_exec(v) {
            LineState::CodeEnd
        } else {
            LineState::Code
        }
    } else if v.len() == 0 {
        LineState::Empty
    } else if parse_list_item(v).is_some() {
        LineState::List
    } else if starts_with_fence_exec(v) {
        LineState::CodeStart
    } else if v[0] == '#' {
        LineState::Title
    } else if v[0] == '>' {
        LineState::Blockquote
    } else if v[0] == '|' {
        LineState::Table
    } else {
        LineState::Normal
    }
}

/// Classifies one line of text given the previous line's state.
pub fn get_line_state(line: &str, prev_state: LineState) -> (st: LineState)
    ensures
        st == line_state_spec(line@, prev_state),
{
    let v = crate::text::str_to_chars(line);
    line_state_chars(&v, prev_state)
}

} // verus!
