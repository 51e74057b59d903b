//! The list renumberer: a second pass over the block-formatted lines that
//! tracks a stack of open list levels, rewrites list items with canonical
//! markers and sequential numbers, maps nesting depth to a fixed two-space
//! step, and clears the stack on any non-list line.
use vstd::prelude::*;
use crate::listitem::is_list_line;
use crate::listitem::list_content;
use crate::listitem::list_indent;
use crate::listitem::list_kind;
use crate::listitem::parse_list_item;
use crate::listitem::ListType;
use crate::text::copy_range;
use crate::text::views_of;

verus! {

/// One open nesting level during renumbering.
#[derive(Debug, Clone, Copy)]
pub struct ListContext {
    pub list_type: ListType,
    pub indent: usize,
    pub counter: usize,
}

/// The mathematical model of one open level.
pub struct Level {
    pub list_type: ListType,
    pub indent: int,
    pub counter: int,
}

/// The models of the open levels of an executable stack.
pub open spec fn levels_of(stack: Seq<ListContext>) -> Seq<Level> {
    stack.map_values(
        |c: ListContext| Level {
            list_type: c.list_type,
            indent: c.indent as int,
            counter: c.counter as int,
        },
    )
}

/// Pops levels opened at a deeper indentation than the current line's.
pub open spec fn pop_levels(stack: Seq<Level>, indent: int) -> Seq<Level>
    decreases stack.len(),
{
    if stack.len() > 0 && indent < stack.last().indent {
        pop_levels(stack.drop_last(), indent)
    } else {
        stack
    }
}

/// The stack after one list line: pop deeper levels, then open a new level,
/// restart the top level on a marker-kind change, or advance the top
/// level's counter for an ordered item.
pub open spec fn update_levels(stack: Seq<Level>, indent: int, kind: ListType) -> Seq<Level> {
    let p = pop_levels(stack, indent);
    if p.len() == 0 {
        seq![Level { list_type: kind, indent: 0, counter: 1 }]
    } else if indent > p.last().indent {
        p.push(Level { list_type: kind, indent, counter: 1 })
    } else if p.last().list_type != kind {
        p.drop_last().push(Level { list_type: kind, indent, counter: 1 })
    } else if kind == ListType::Ordered {
        p.drop_last().push(
            Level {
                list_type: p.last().list_type,
                indent: p.last().indent,
                counter: p.last().counter + 1,
            },
        )
    } else {
        p
    }
}

/// `n` spaces.
pub open spec fn spaces(n: int) -> Seq<char>
    decreases n,
{
    if n <= 0 {
        Seq::empty()
    } else {
        spaces(n - 1).push(' ')
    }
}

/// The character for one decimal digit.
pub open spec fn digit_char(d: int) -> char {
    if d == 1 {
        '1'
    } else if d == 2 {
        '2'
    } else if d == 3 {
        '3'
    } else if d == 4 {
        '4'
    } else if d == 5 {
        '5'
    } else if d == 6 {
        '6'
    } else if d == 7 {
        '7'
    } else if d == 8 {
        '8'
    } else if d == 9 {
        '9'
    } else {
        '0'
    }
}

/// The decimal digits of `n`, most significant first.
pub open spec fn dec_digits(n: int) -> Seq<char>
    decreases n,
{
    if n < 10 {
        seq![digit_char(n)]
    } else {
        dec_digits(n / 10).push(digit_char(n % 10))
    }
}

/// The rewritten list line: two spaces per nesting level below the first,
/// a canonical marker, and the item's content.
pub open spec fn rendered_line(stack: Seq<Level>, content: Seq<char>) -> Seq<char> {
    let ctx = stack.last();
    spaces(2 * (stack.len() - 1)) + (if ctx.list_type == ListType::Unordered {
        seq!['-', ' ']
    } else {
        dec_digits(ctx.counter) + seq!['.', ' ']
    }) + content
}

pub proof fn lemma_spaces(n: int)
    ensures
        spaces(n).len() == if n <= 0 {
            0
        } else {
            n
        },
        forall|j: int| 0 <= j < spaces(n).len() ==> spaces(n)[j] == ' ',
    decreases n,
{
    if n > 0 {
        lemma_spaces(n - 1);
    }
}

pub proof fn lemma_dec_digits_first(n: int)
    ensures
        dec_digits(n).len() >= 1,
        crate::chars::is_digit_spec(dec_digits(n)[0]),
    decreases n,
{
    if n >= 10 {
        lemma_dec_digits_first(n / 10);
    }
}

/// A rewritten list line is never blank, and it opens with its
/// indentation, a bullet, or a digit.
pub proof fn lemma_rendered_first(stack: Seq<Level>, content: Seq<char>)
    requires
        stack.len() > 0,
    ensures
        rendered_line(stack, content).len() >= 2,
        crate::chars::is_space_spec(rendered_line(stack, content)[0]) || crate::chars::is_marker_spec(
            rendered_line(stack, content)[0],
        ) || crate::chars::is_digit_spec(rendered_line(stack, content)[0]),
{
    let r = rendered_line(stack, content);
    let ind = spaces(2 * (stack.len() - 1));
    lemma_spaces(2 * (stack.len() - 1));
    if ind.len() > 0 {
        assert(r[0] == ind[0]);
    } else {
        if stack.last().list_type == ListType::Unordered {
            assert(r[0] == '-');
        } else {
            lemma_dec_digits_first(stack.last().counter);
            assert(r[0] == dec_digits(stack.last().counter)[0]);
        }
    }
}

/// The renumbering pass over a whole line sequence: list lines are
/// rewritten against the running stack, any other line passes through
/// unchanged and clears the stack.
pub open spec fn renumber_spec(lines: Seq<Seq<char>>, stack: Seq<Level>) -> Seq<Seq<char>>
    decreases lines.len(),
{
    if lines.len() == 0 {
        Seq::empty()
    } else if !is_list_line(lines[0]) {
        seq![lines[0]] + renumber_spec(lines.drop_first(), Seq::empty())
    } else {
        let st = update_levels(stack, list_indent(lines[0]), list_kind(lines[0]));
        seq![rendered_line(st, list_content(lines[0]))] + renumber_spec(lines.drop_first(), st)
    }
}

/// Renumbering rewrites lines one for one.
pub proof fn lemma_renumber_len(lines: Seq<Seq<char>>, stack: Seq<Level>)
    ensures
        renumber_spec(lines, stack).len() == lines.len(),
    decreases lines.len(),
{
    if lines.len() > 0 {
        if !is_list_line(lines[0]) {
            lemma_renumber_len(lines.drop_first(), Seq::empty());
        } else {
            lemma_renumber_len(
                lines.drop_first(),
                update_levels(stack, list_indent(lines[0]), list_kind(lines[0])),
            );
        }
    }
}

fn digit_char_exec(d: usize) -> (c: char)
    ensures
        c == digit_char(d as int),
{
    if d == 1 {
        '1'
    } else if d == 2 {
        '2'
    } else if d == 3 {
        '3'
    } else if d == 4 {
        '4'
    } else if d == 5 {
        '5'
    } else if d == 6 {
        '6'
    } else if d == 7 {
        '7'
    } else if d == 8 {
        '8'
    } else if d == 9 {
        '9'
    } else {
        '0'
    }
}

/// Writes `n` in decimal.
fn dec_digits_exec(n: usize) -> (r: Vec<char>)
    ensures
        r@ == dec_digits(n as int),
    decreases n,
{
    if n < 10 {
        let mut r: Vec<char> = Vec::new();
        r.push(digit_char_exec(n));
        proof {
            assert(r@ =~= seq![digit_char(n as int)]);
        }
        r
    } else {
        let mut r = dec_digits_exec(n / 10);
        r.push(digit_char_exec(n % 10));
        r
    }
}

/// Builds the canonical indentation for a level at the given depth.
fn make_spaces(n: usize) -> (r: Vec<char>)
    ensures
        r@ == spaces(n as int),
{
    let mut r: Vec<char> = Vec::new();
    let mut i: usize = 0;
    while i < n
        invariant
            i <= n,
            r@ == spaces(i as int),
        decreases n - i,
    {
        r.push(' ');
        i += 1;
    }
    r
}

fn push_all(r: &mut Vec<char>, v: &Vec<char>)
    ensures
        final(r)@ == old(r)@ + v@,
{
    let mut i: usize = 0;
    proof {
        assert(r@ =~= r@ + v@.subrange(0, 0));
    }
    while i < v.len()
        invariant
            i <= v@.len(),
            r@ == old(r)@ + v@.subrange(0, i as int),
        decreases v@.len() - i,
    {
        r.push(v[i]);
        proof {
            assert(old(r)@ + v@.subrange(0, i + 1 as int) =~= (old(r)@ + v@.subrange(
                0,
                i as int,
            )).push(v@[i as int]));
        }
        i += 1;
    }
    proof {
        assert(v@.subrange(0, v@.len() as int) =~= v@);
    }
}

/// Runs the renumbering pass.  The length bound is what keeps the
/// two-spaces-per-level arithmetic inside machine integers.
#[verifier::rlimit(100)]
pub fn format_lists_chars(lines: &Vec<Vec<char>>) -> (r: Vec<Vec<char>>)
    requires
        lines@.len() <= usize::MAX / 2,
    ensures
        views_of(r@) == renumber_spec(views_of(lines@), Seq::empty()),
        r@.len() == lines@.len(),
{
    let ghost all = views_of(lines@);
    let mut out: Vec<Vec<char>> = Vec::new();
    let mut stack: Vec<ListContext> = Vec::new();
    let mut i: usize = 0;
    proof {
        assert(all.skip(0) =~= all);
        assert(levels_of(stack@) =~= Seq::<Level>::empty());
        assert(views_of(out@) =~= Seq::<Seq<char>>::empty());
        assert(renumber_spec(all, Seq::empty()) =~= views_of(out@) + renumber_spec(
            all,
            levels_of(stack@),
        ));
    }
    while i < lines.len()
        invariant
            i <= lines@.len(),
            lines@.len() <= usize::MAX / 2,
            all == views_of(lines@),
            all.len() == lines@.len(),
            out@.len() == i,
            stack@.len() <= i + 1,
            forall|k: int|
                0 <= k < stack@.len() ==> 1 <= (#[trigger] stack@[k]).counter <= i + 1,
            renumber_spec(all, Seq::empty()) =~= views_of(out@) + renumber_spec(
                all.skip(i as int),
                levels_of(stack@),
            ),
        decreases lines@.len() - i,
    {
        let ghost old_views = views_of(out@);
        let ghost rest = all.skip(i as int);
        let ghost cur_levels = levels_of(stack@);
        let line = &lines[i];
        proof {
            assert(rest[0] == all[i as int]);
            assert(rest.drop_first() =~= all.skip(i + 1));
        }
        match parse_list_item(line) {
            None => {
                stack.clear();
                let copy = copy_range(line, 0, line.len());
                proof {
                    assert(copy@ =~= line@);
                }
                out.push(copy);
                proof {
                    assert(levels_of(stack@) =~= Seq::<Level>::empty());
                    assert(views_of(out@) =~= old_views.push(rest[0]));
                    assert(renumber_spec(rest, cur_levels) =~= seq![rest[0]] + renumber_spec(
                        all.skip(i + 1),
                        levels_of(stack@),
                    ));
                }
            },
            Some((ind, kind, start)) => {
                let ghost ls0 = levels_of(stack@);
                while stack.len() > 0 && ind < stack[stack.len() - 1].indent
                    invariant
                        stack@.len() <= i + 1,
                        forall|k: int|
                            0 <= k < stack@.len() ==> 1 <= (#[trigger] stack@[k]).counter <= i
                                + 1,
                        pop_levels(ls0, ind as int) == pop_levels(
                            levels_of(stack@),
                            ind as int,
                        ),
                    decreases stack@.len(),
                {
                    let ghost before = levels_of(stack@);
                    stack.pop();
                    proof {
                        assert(levels_of(stack@) =~= before.drop_last());
                        assert(ind < before.last().indent);
                    }
                }
                proof {
                    assert(pop_levels(levels_of(stack@), ind as int) == levels_of(stack@));
                    assert(levels_of(stack@) == pop_levels(ls0, ind as int));
                }
                let ghost popped = levels_of(stack@);
                if stack.len() == 0 {
                    stack.push(ListContext { list_type: kind, indent: 0, counter: 1 });
                    proof {
                        assert(levels_of(stack@) =~= seq![
                            Level { list_type: kind, indent: 0, counter: 1 },
                        ]);
                    }
                } else {
                    let top = stack[stack.len() - 1];
                    if ind > top.indent {
                        stack.push(ListContext { list_type: kind, indent: ind, counter: 1 });
                        proof {
                            assert(levels_of(stack@) =~= popped.push(
                                Level { list_type: kind, indent: ind as int, counter: 1 },
                            ));
                        }
                    } else if top.list_type != kind {
                        stack.pop();
                        stack.push(ListContext { list_type: kind, indent: ind, counter: 1 });
                        proof {
                            assert(levels_of(stack@) =~= popped.drop_last().push(
                                Level { list_type: kind, indent: ind as int, counter: 1 },
                            ));
                        }
                    } else if matches!(kind, ListType::Ordered) {
                        stack.pop();
                        stack.push(
                            ListContext {
                                list_type: top.list_type,
                                indent: top.indent,
                                counter: top.counter + 1,
                            },
                        );
                        proof {
                            assert(levels_of(stack@) =~= popped.drop_last().push(
                                Level {
                                    list_type: popped.last().list_type,
                                    indent: popped.last().indent,
                                    counter: popped.last().counter + 1,
                                },
                            ));
                        }
                    }
                }
                proof {
                    assert(levels_of(stack@) == update_levels(cur_levels, ind as int, kind));
                }
                let depth = stack.len();
                let mut nl = make_spaces(if depth > 1 {
                    2 * (depth - 1)
                } else {
                    0
                });
                match kind {
                    ListType::Unordered => {
                        nl.push('-');
                        nl.push(' ');
                    },
                    ListType::Ordered => {
                        let top = stack[stack.len() - 1];
                        let digits = dec_digits_exec(top.counter);
                        push_all(&mut nl, &digits);
                        nl.push('.');
                        nl.push(' ');
                    },
                }
                push_all(&mut nl, &copy_range(line, start, line.len()));
                proof {
                    let st = levels_of(stack@);
                    assert(line@.subrange(start as int, line@.len() as int) =~= line@.skip(
                        start as int,
                    ));
                    assert(st.last().list_type == kind);
                    if kind == ListType::Unordered {
                        assert(nl@ =~= spaces(2 * (st.len() - 1)) + seq!['-', ' '] + list_content(
                            rest[0],
                        ));
                    } else {
                        assert(nl@ =~= spaces(2 * (st.len() - 1)) + (dec_digits(st.last().counter)
                            + seq!['.', ' ']) + list_content(rest[0]));
                    }
                    assert(nl@ == rendered_line(st, list_content(rest[0])));
                }
                out.push(nl);
                proof {
                    assert(views_of(out@) =~= old_views.push(
                        rendered_line(levels_of(stack@), list_content(rest[0])),
                    ));
                    assert(renumber_spec(rest, cur_levels) =~= seq![
                        rendered_line(levels_of(stack@), list_content(rest[0])),
                    ] + renumber_spec(all.skip(i + 1), levels_of(stack@)));
                }
            },
        }
        i += 1;
    }
    proof {
        assert(all.skip(all.len() as int) =~= Seq::<Seq<char>>::empty());
        assert(renumber_spec(all.skip(all.len() as int), levels_of(stack@)) =~= Seq::<
            Seq<char>,
        >::empty());
        assert(views_of(out@) =~= renumber_spec(all, Seq::empty()));
        assert(views_of(out@).len() == out@.len());
        lemma_renumber_len(all, Seq::empty());
    }
    out
}

/// Runs the renumbering pass over owned lines.
pub fn format_lists(lines: &Vec<String>) -> (r: Vec<String>)
    requires
        lines@.len() <= usize::MAX / 2,
    ensures
        crate::blocks::string_views(r@) == renumber_spec(
            crate::blocks::string_views(lines@),
            Seq::empty(),
        ),
{
    let mut chars: Vec<Vec<char>> = Vec::new();
    let mut i: usize = 0;
    while i < lines.len()
        invariant
            i <= lines@.len(),
            views_of(chars@) =~= crate::blocks::string_views(lines@).take(i as int),
        decreases lines@.len() - i,
    {
        let c = crate::text::str_to_chars(lines[i].as_str());
        let ghost prev_views = views_of(chars@);
        chars.push(c);
        proof {
            assert(views_of(chars@) =~= prev_views.push(lines@[i as int]@));
            assert(crate::blocks::string_views(lines@).take(i + 1) =~= crate::blocks::string_views(
                lines@,
            ).take(i as int).push(lines@[i as int]@));
        }
        i += 1;
    }
    proof {
        assert(crate::blocks::string_views(lines@).take(lines@.len() as int)
            =~= crate::blocks::string_views(lines@));
        assert(views_of(chars@).len() == chars@.len());
    }
    let formatted = format_lists_chars(&chars);
    let mut r: Vec<String> = Vec::new();
    let mut j: usize = 0;
    while j < formatted.len()
        invariant
            j <= formatted@.len(),
            crate::blocks::string_views(r@) =~= views_of(formatted@).take(j as int),
        decreases formatted@.len() - j,
    {
        let st = crate::text::chars_to_string(&formatted[j]);
        let ghost prev_views = crate::blocks::string_views(r@);
        r.push(st);
        proof {
            assert(crate::blocks::string_views(r@) =~= prev_views.push(formatted@[j as int]@));
            assert(views_of(formatted@).take(j + 1) =~= views_of(formatted@).take(j as int).push(
                formatted@[j as int]@,
            ));
        }
        j += 1;
    }
    proof {
        assert(views_of(formatted@).take(formatted@.len() as int) =~= views_of(formatted@));
    }
    r
}

} // verus!
