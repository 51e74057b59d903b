//! Plain text plumbing: conversion between strings and character vectors,
//! whitespace trimming, splitting a document into lines, and joining lines
//! back into a document.
use vstd::prelude::*;
use crate::chars::is_space;
use crate::chars::is_space_spec;

verus! {

/// Relies on std's `str::chars`: yields exactly the characters of the
/// string, in order; collecting them changes nothing.
#[verifier::external_body]
pub fn str_to_chars(s: &str) -> (r: Vec<char>)
    ensures
        r@ == s@,
{
    s.chars().collect()
}

/// Relies on std's `FromIterator<char> for String`: builds the string made
/// of exactly the given characters, in order.
#[verifier::external_body]
pub fn chars_to_string(v: &Vec<char>) -> (r: String)
    ensures
        r@ == v@,
{
    v.iter().collect()
}

/// The views of a sequence of character vectors.
pub open spec fn views_of(lines: Seq<Vec<char>>) -> Seq<Seq<char>> {
    lines.map_values(|l: Vec<char>| l@)
}

/// Copies `v[from..to]` into a fresh vector.
pub fn copy_range(v: &Vec<char>, from: usize, to: usize) -> (r: Vec<char>)
    requires
        from <= to <= v@.len(),
    ensures
        r@ == v@.subrange(from as int, to as int),
{
    let mut r: Vec<char> = Vec::new();
    let mut i: usize = from;
    while i < to
        invariant
            from <= i <= to <= v@.len(),
            r@ == v@.subrange(from as int, i as int),
        decreases to - i,
    {
        r.push(v[i]);
        proof {
            assert(v@.subrange(from as int, i + 1 as int) =~= v@.subrange(
                from as int,
                i as int,
            ).push(v@[i as int]));
        }
        i += 1;
    }
    r
}

/// The line with its trailing whitespace removed.
pub open spec fn trim_end_spec(s: Seq<char>) -> Seq<char>
    decreases s.len(),
{
    if s.len() > 0 && is_space_spec(s[s.len() - 1]) {
        trim_end_spec(s.drop_last())
    } else {
        s
    }
}

/// The text with its leading whitespace removed.
pub open spec fn trim_start_spec(s: Seq<char>) -> Seq<char>
    decreases s.len(),
{
    if s.len() > 0 && is_space_spec(s[0]) {
        trim_start_spec(s.drop_first())
    } else {
        s
    }
}

/// The text with whitespace removed at both ends.
pub open spec fn trim_spec(s: Seq<char>) -> Seq<char> {
    trim_start_spec(trim_end_spec(s))
}

/// Scans for the end of `v` once trailing whitespace is dropped.
fn trimmed_end(v: &Vec<char>) -> (end: usize)
    ensures
        end <= v@.len(),
        trim_end_spec(v@) == v@.subrange(0, end as int),
        end > 0 ==> !is_space_spec(v@[end - 1]),
{
    let mut end: usize = v.len();
    proof {
        assert(v@.subrange(0, end as int) =~= v@);
    }
    while end > 0 && is_space(v[end - 1])
        invariant
            end <= v@.len(),
            trim_end_spec(v@) == trim_end_spec(v@.subrange(0, end as int)),
        decreases end,
    {
        proof {
            assert(v@.subrange(0, end as int).drop_last() =~= v@.subrange(0, end - 1));
        }
        end -= 1;
    }
    proof {
        assert(trim_end_spec(v@.subrange(0, end as int)) == v@.subrange(0, end as int));
    }
    end
}

/// The document trimmed at both ends, as the splitter first does.
pub fn trim_chars(v: &Vec<char>) -> (r: Vec<char>)
    ensures
        r@ == trim_spec(v@),
{
    let end = trimmed_end(v);
    let ghost t = v@.subrange(0, end as int);
    let mut start: usize = 0;
    proof {
        assert(t.skip(0) =~= t);
    }
    while start < end && is_space(v[start])
        invariant
            start <= end <= v@.len(),
            t == v@.subrange(0, end as int),
            trim_start_spec(t) == trim_start_spec(t.skip(start as int)),
        decreases end - start,
    {
        proof {
            assert(t.skip(start as int).drop_first() =~= t.skip(start + 1));
        }
        start += 1;
    }
    proof {
        if start == end {
            assert(t.skip(start as int) =~= Seq::<char>::empty());
        }
        assert(trim_start_spec(t.skip(start as int)) == t.skip(start as int));
        assert(t.skip(start as int) =~= v@.subrange(start as int, end as int));
    }
    copy_range(v, start, end)
}

/// Index of the first newline in `s`, or `s.len()` if there is none.
pub open spec fn first_nl(s: Seq<char>) -> int
    decreases s.len(),
{
    if s.len() == 0 {
        0
    } else if s[0] == '\n' {
        0
    } else {
        1 + first_nl(s.drop_first())
    }
}

pub proof fn lemma_first_nl(s: Seq<char>)
    ensures
        0 <= first_nl(s) <= s.len(),
        forall|j: int| 0 <= j < first_nl(s) ==> s[j] != '\n',
        first_nl(s) < s.len() ==> s[first_nl(s)] == '\n',
    decreases s.len(),
{
    if s.len() > 0 && s[0] != '\n' {
        lemma_first_nl(s.drop_first());
        assert forall|j: int| 0 <= j < first_nl(s) implies s[j] != '\n' by {
            if j > 0 {
                assert(s[j] == s.drop_first()[j - 1]);
            }
        }
    }
}

/// Scans for the first newline at or after `from`.
fn find_nl(v: &Vec<char>, from: usize) -> (k: usize)
    requires
        from <= v@.len(),
    ensures
        from <= k <= v@.len(),
        first_nl(v@.skip(from as int)) == k - from,
        k < v@.len() ==> v@[k as int] == '\n',
        forall|j: int| from <= j < k ==> v@[j] != '\n',
{
    let ghost s = v@.skip(from as int);
    let mut k: usize = from;
    while k < v.len() && v[k] != '\n'
        invariant
            from <= k <= v@.len(),
            s == v@.skip(from as int),
            first_nl(s) == (k - from) + first_nl(v@.skip(k as int)),
            forall|j: int| from <= j < k ==> v@[j] != '\n',
        decreases v@.len() - k,
    {
        proof {
            assert(v@.skip(k as int).drop_first() =~= v@.skip(k + 1));
        }
        k += 1;
    }
    proof {
        if k == v@.len() {
            assert(v@.skip(k as int) =~= Seq::<char>::empty());
        }
        assert(first_nl(v@.skip(k as int)) == 0);
    }
    k
}

/// The lines of `s`, split at each newline; a text without newlines is one
/// line.
pub open spec fn split_lines_spec(s: Seq<char>) -> Seq<Seq<char>>
    decreases s.len(),
    via split_lines_decreases
{
    let i = first_nl(s);
    if i == s.len() {
        seq![s]
    } else {
        seq![s.take(i)] + split_lines_spec(s.skip(i + 1))
    }
}

#[via_fn]
proof fn split_lines_decreases(s: Seq<char>) {
    lemma_first_nl(s);
}

/// What the splitter yields: the document trimmed at both ends, split at
/// newlines, every line stripped of trailing whitespace; an all-whitespace
/// document yields no lines.
pub open spec fn split_document_spec(s: Seq<char>) -> Seq<Seq<char>> {
    let t = trim_spec(s);
    if t.len() == 0 {
        Seq::empty()
    } else {
        split_lines_spec(t).map_values(|l: Seq<char>| trim_end_spec(l))
    }
}

pub proof fn lemma_split_lines_len(s: Seq<char>)
    ensures
        split_lines_spec(s).len() <= s.len() + 1,
    decreases s.len(),
{
    lemma_first_nl(s);
    let i = first_nl(s);
    if i != s.len() {
        lemma_split_lines_len(s.skip(i + 1));
    }
}

/// There are never more lines than characters, plus one.
pub proof fn lemma_split_document_len(s: Seq<char>)
    ensures
        split_document_spec(s).len() <= s.len() + 1,
{
    let t = trim_spec(s);
    lemma_trim_len(s);
    if t.len() != 0 {
        lemma_split_lines_len(t);
    }
}

pub proof fn lemma_trim_end_len(s: Seq<char>)
    ensures
        trim_end_spec(s).len() <= s.len(),
    decreases s.len(),
{
    if s.len() > 0 && is_space_spec(s[s.len() - 1]) {
        lemma_trim_end_len(s.drop_last());
    }
}

pub proof fn lemma_trim_start_len(s: Seq<char>)
    ensures
        trim_start_spec(s).len() <= s.len(),
    decreases s.len(),
{
    if s.len() > 0 && is_space_spec(s[0]) {
        lemma_trim_start_len(s.drop_first());
    }
}

pub proof fn lemma_trim_len(s: Seq<char>)
    ensures
        trim_spec(s).len() <= s.len(),
{
    lemma_trim_end_len(s);
    lemma_trim_start_len(trim_end_spec(s));
}

/// Splits the document into trimmed lines.
pub fn split_into_lines(text: &Vec<char>) -> (r: Vec<Vec<char>>)
    ensures
        views_of(r@) == split_document_spec(text@),
        r@.len() <= text@.len() + 1,
{
    let t = trim_chars(text);
    let mut out: Vec<Vec<char>> = Vec::new();
    if t.len() == 0 {
        proof {
            assert(views_of(out@) =~= split_document_spec(text@));
            lemma_split_document_len(text@);
        }
        return out;
    }
    let ghost whole = split_lines_spec(t@).map_values(|l: Seq<char>| trim_end_spec(l));
    let mut pos: usize = 0;
    proof {
        assert(t@.skip(0) =~= t@);
        assert(views_of(out@) =~= Seq::<Seq<char>>::empty());
        assert(whole =~= views_of(out@) + whole);
    }
    loop
        invariant_except_break
            whole =~= views_of(out@) + split_lines_spec(t@.skip(pos as int)).map_values(
                |l: Seq<char>| trim_end_spec(l),
            ),
        invariant
            pos <= t@.len(),
            t@ == trim_spec(text@),
            t@.len() > 0,
            whole == split_lines_spec(t@).map_values(|l: Seq<char>| trim_end_spec(l)),
        ensures
            views_of(out@) =~= whole,
        decreases t@.len() - pos,
    {
        let k = find_nl(&t, pos);
        let line = copy_range(&t, pos, k);
        let ghost rest = t@.skip(pos as int);
        proof {
            lemma_first_nl(rest);
            assert(rest.take(first_nl(rest)) =~= t@.subrange(pos as int, k as int));
        }
        let trimmed = {
            let e = trimmed_end(&line);
            copy_range(&line, 0, e)
        };
        let ghost old_views = views_of(out@);
        out.push(trimmed);
        proof {
            assert(views_of(out@) =~= old_views.push(trimmed@));
        }
        if k == t.len() {
            proof {
                assert(first_nl(rest) == rest.len());
                assert(split_lines_spec(rest) =~= seq![rest]);
                assert(rest =~= t@.subrange(pos as int, k as int));
                assert(split_lines_spec(rest).map_values(|l: Seq<char>| trim_end_spec(l))
                    =~= seq![trim_end_spec(rest)]);
            }
            break;
        }
        proof {
            assert(first_nl(rest) == k - pos < rest.len());
            assert(split_lines_spec(rest) =~= seq![rest.take(k - pos)] + split_lines_spec(
                rest.skip(k - pos + 1),
            ));
            assert(rest.skip(k - pos + 1) =~= t@.skip(k + 1 as int));
            assert(split_lines_spec(rest).map_values(|l: Seq<char>| trim_end_spec(l)) =~= seq![
                trim_end_spec(rest.take(k - pos)),
            ] + split_lines_spec(t@.skip(k + 1 as int)).map_values(
                |l: Seq<char>| trim_end_spec(l),
            ));
        }
        pos = k + 1;
    }
    proof {
        lemma_split_document_len(text@);
        assert(views_of(out@).len() == out@.len());
    }
    out
}

/// The lines joined with a newline between each pair, no newline at the end.
pub open spec fn join_lines_spec(lines: Seq<Seq<char>>) -> Seq<char>
    decreases lines.len(),
{
    if lines.len() == 0 {
        Seq::empty()
    } else if lines.len() == 1 {
        lines[0]
    } else {
        lines[0] + seq!['\n'] + join_lines_spec(lines.drop_first())
    }
}

/// Joins lines with single newlines.
pub fn join_lines(lines: &Vec<Vec<char>>) -> (r: Vec<char>)
    ensures
        r@ == join_lines_spec(views_of(lines@)),
{
    let mut r: Vec<char> = Vec::new();
    let ghost all = views_of(lines@);
    let mut i: usize = 0;
    proof {
        assert(all.skip(0) =~= all);
        assert(r@ =~= Seq::<char>::empty());
        assert(join_lines_spec(all) =~= r@ + join_lines_spec(all));
    }
    while i < lines.len()
        invariant
            i <= lines@.len(),
            all == views_of(lines@),
            all.len() == lines@.len(),
            join_lines_spec(all) =~= r@ + join_lines_spec(all.skip(i as int)),
        decreases lines@.len() - i,
    {
        let ghost prev = r@;
        let line = &lines[i];
        let mut j: usize = 0;
        while j < line.len()
            invariant
                j <= line@.len(),
                r@ == prev + line@.subrange(0, j as int),
            decreases line@.len() - j,
        {
            r.push(line[j]);
            proof {
                assert(prev + line@.subrange(0, j + 1 as int) =~= (prev + line@.subrange(
                    0,
                    j as int,
                )).push(line@[j as int]));
            }
            j += 1;
        }
        proof {
            assert(line@.subrange(0, line@.len() as int) =~= line@);
            assert(line@ == all[i as int]);
        }
        if i + 1 < lines.len() {
            r.push('\n');
        }
        proof {
            let rest = all.skip(i as int);
            assert(rest[0] == all[i as int]);
            if i + 1 < all.len() {
                assert(rest.drop_first() =~= all.skip(i + 1));
                assert(join_lines_spec(rest) =~= rest[0] + seq!['\n'] + join_lines_spec(
                    all.skip(i + 1),
                ));
                assert(r@ =~= prev + all[i as int] + seq!['\n']);
            } else {
                assert(rest.len() == 1);
                assert(join_lines_spec(rest) == rest[0]);
                assert(all.skip(i + 1) =~= Seq::<Seq<char>>::empty());
                assert(r@ =~= prev + all[i as int]);
            }
        }
        i += 1;
    }
    proof {
        assert(all.skip(all.len() as int) =~= Seq::<Seq<char>>::empty());
        assert(join_lines_spec(all.skip(all.len() as int)) =~= Seq::<char>::empty());
        assert(join_lines_spec(all) =~= r@);
    }
    r
}

/// The text with every trailing newline removed.
pub open spec fn strip_trailing_nl_spec(s: Seq<char>) -> Seq<char>
    decreases s.len(),
{
    if s.len() > 0 && s[s.len() - 1] == '\n' {
        strip_trailing_nl_spec(s.drop_last())
    } else {
        s
    }
}

/// Drops every trailing newline, then appends exactly one.
pub fn terminate_with_newline(text: &Vec<char>) -> (r: Vec<char>)
    ensures
        r@ == strip_trailing_nl_spec(text@) + seq!['\n'],
        r@.len() > 0,
        r@[r@.len() - 1] == '\n',
        r@.len() >= 2 ==> r@[r@.len() - 2] != '\n',
{
    let mut end: usize = text.len();
    proof {
        assert(text@.subrange(0, end as int) =~= text@);
    }
    while end > 0 && text[end - 1] == '\n'
        invariant
            end <= text@.len(),
            strip_trailing_nl_spec(text@) == strip_trailing_nl_spec(
                text@.subrange(0, end as int),
            ),
        decreases end,
    {
        proof {
            assert(text@.subrange(0, end as int).drop_last() =~= text@.subrange(0, end - 1));
        }
        end -= 1;
    }
    proof {
        assert(strip_trailing_nl_spec(text@.subrange(0, end as int)) == text@.subrange(
            0,
            end as int,
        ));
    }
    let mut r = copy_range(text, 0, end);
    r.push('\n');
    proof {
        assert(r@ =~= strip_trailing_nl_spec(text@) + seq!['\n']);
        let st = strip_trailing_nl_spec(text@);
        if st.len() > 0 {
            assert(st == text@.subrange(0, end as int));
            assert(r@[r@.len() - 2] == st[st.len() - 1]);
            assert(st[st.len() - 1] != '\n');
        }
    }
    r
}

} // verus!
