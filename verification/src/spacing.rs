//! The inline spacer: inserts a space at every boundary between a Han
//! character and an ASCII letter or digit, and on each side of an inline
//! code span whose neighbour is neither whitespace nor a backtick.
//!
//! Each transform is written as one scan that treats every boundary of the
//! original line, so its output is already the fixed point of repeated
//! application.
use vstd::prelude::*;
use crate::chars::cjk_boundary;
use crate::chars::is_ascii_alnum;
use crate::chars::is_han;
use crate::chars::is_space;
use crate::chars::is_space_spec;
use crate::text::str_to_chars;
use crate::text::chars_to_string;

verus! {

/// The line with a single space inserted into every CJK/ASCII boundary.
pub open spec fn cjk_space_spec(s: Seq<char>) -> Seq<char>
    decreases s.len(),
{
    if s.len() < 2 {
        s
    } else if cjk_boundary(s[0], s[1]) {
        seq![s[0], ' '] + cjk_space_spec(s.drop_first())
    } else {
        seq![s[0]] + cjk_space_spec(s.drop_first())
    }
}

/// No CJK/ASCII boundary is left: the CJK pass would change nothing.
pub open spec fn cjk_stable(s: Seq<char>) -> bool {
    forall|i: int| 0 <= i && i + 1 < s.len() ==> !cjk_boundary(#[trigger] s[i], s[i + 1])
}

pub proof fn lemma_cjk_space_first(s: Seq<char>)
    ensures
        cjk_space_spec(s).len() >= s.len(),
        s.len() > 0 ==> cjk_space_spec(s).len() > 0 && cjk_space_spec(s)[0] == s[0],
    decreases s.len(),
{
    if s.len() >= 2 {
        lemma_cjk_space_first(s.drop_first());
    }
}

/// The CJK pass leaves no boundary behind: its result is stable.
pub proof fn lemma_cjk_space_stable(s: Seq<char>)
    ensures
        cjk_stable(cjk_space_spec(s)),
    decreases s.len(),
{
    if s.len() < 2 {
        assert(cjk_stable(cjk_space_spec(s)));
    } else {
        let u = cjk_space_spec(s.drop_first());
        lemma_cjk_space_stable(s.drop_first());
        lemma_cjk_space_first(s.drop_first());
        let t = cjk_space_spec(s);
        let head: Seq<char> = if cjk_boundary(s[0], s[1]) {
            seq![s[0], ' ']
        } else {
            seq![s[0]]
        };
        assert(t == head + u);
        assert(u[0] == s[1]);
        assert forall|i: int| 0 <= i && i + 1 < t.len() implies !cjk_boundary(
            #[trigger] t[i],
            t[i + 1],
        ) by {
            if i + 1 < head.len() {
                assert(t[i] == s[0] && t[i + 1] == ' ');
            } else if i + 1 == head.len() {
                assert(t[i] == head[head.len() - 1]);
                assert(t[i + 1] == u[0]);
            } else {
                assert(t[i] == u[i - head.len()]);
                assert(t[i + 1] == u[i + 1 - head.len()]);
            }
        }
    }
}

/// On a stable line the CJK pass is the identity.
pub proof fn lemma_cjk_space_noop(s: Seq<char>)
    requires
        cjk_stable(s),
    ensures
        cjk_space_spec(s) == s,
    decreases s.len(),
{
    if s.len() >= 2 {
        assert(!cjk_boundary(s[0], s[1]));
        assert forall|i: int| 0 <= i && i + 1 < s.drop_first().len() implies !cjk_boundary(
            #[trigger] s.drop_first()[i],
            s.drop_first()[i + 1],
        ) by {
            assert(s.drop_first()[i] == s[i + 1]);
            assert(s.drop_first()[i + 1] == s[i + 2]);
        }
        lemma_cjk_space_noop(s.drop_first());
        assert(cjk_space_spec(s) =~= s);
    }
}

/// Inserting CJK/ASCII spaces twice is the same as inserting them once.
pub proof fn lemma_cjk_space_idempotent(s: Seq<char>)
    ensures
        cjk_space_spec(cjk_space_spec(s)) == cjk_space_spec(s),
{
    lemma_cjk_space_stable(s);
    lemma_cjk_space_noop(cjk_space_spec(s));
}

fn cjk_boundary_exec(a: char, b: char) -> (r: bool)
    ensures
        r == cjk_boundary(a, b),
{
    (is_han(a) && is_ascii_alnum(b)) || (is_ascii_alnum(a) && is_han(b))
}

/// Inserts a space wherever a Han character and an ASCII letter or digit
/// are adjacent, in either order.
pub fn add_spaces_between_cjk_ascii(v: &Vec<char>) -> (r: Vec<char>)
    ensures
        r@ == cjk_space_spec(v@),
{
    let mut r: Vec<char> = Vec::new();
    let mut i: usize = 0;
    proof {
        assert(v@.skip(0) =~= v@);
        assert(cjk_space_spec(v@) =~= r@ + cjk_space_spec(v@));
    }
    while i < v.len()
        invariant
            i <= v@.len(),
            cjk_space_spec(v@) =~= r@ + cjk_space_spec(v@.skip(i as int)),
        decreases v@.len() - i,
    {
        let ghost prev = r@;
        let ghost rest = v@.skip(i as int);
        r.push(v[i]);
        if i + 1 < v.len() && cjk_boundary_exec(v[i], v[i + 1]) {
            r.push(' ');
        }
        proof {
            assert(rest[0] == v@[i as int]);
            if i + 1 < v@.len() {
                assert(rest[1] == v@[i + 1]);
                assert(rest.drop_first() =~= v@.skip(i + 1));
                if cjk_boundary(v@[i as int], v@[i + 1]) {
                    assert(r@ =~= prev + seq![v@[i as int], ' ']);
                    assert(prev + cjk_space_spec(rest) =~= r@ + cjk_space_spec(v@.skip(i + 1)));
                } else {
                    assert(r@ =~= prev + seq![v@[i as int]]);
                    assert(prev + cjk_space_spec(rest) =~= r@ + cjk_space_spec(v@.skip(i + 1)));
                }
            } else {
                assert(rest.len() == 1);
                assert(cjk_space_spec(rest) == rest);
                assert(v@.skip(i + 1) =~= Seq::<char>::empty());
                assert(cjk_space_spec(v@.skip(i + 1)) == Seq::<char>::empty());
                assert(r@ =~= prev + rest);
            }
        }
        i += 1;
    }
    proof {
        assert(v@.skip(v@.len() as int) =~= Seq::<char>::empty());
        assert(cjk_space_spec(v@) =~= r@);
    }
    r
}

/// Index of the first backtick in `s`, or `s.len()` if there is none.
pub open spec fn first_tick(s: Seq<char>) -> int
    decreases s.len(),
{
    if s.len() == 0 {
        0
    } else if s[0] == '`' {
        0
    } else {
        1 + first_tick(s.drop_first())
    }
}

pub proof fn lemma_first_tick(s: Seq<char>)
    ensures
        0 <= first_tick(s) <= s.len(),
        forall|j: int| 0 <= j < first_tick(s) ==> s[j] != '`',
        first_tick(s) < s.len() ==> s[first_tick(s)] == '`',
    decreases s.len(),
{
    if s.len() > 0 && s[0] != '`' {
        lemma_first_tick(s.drop_first());
        assert forall|j: int| 0 <= j < first_tick(s) implies s[j] != '`' by {
            if j > 0 {
                assert(s[j] == s.drop_first()[j - 1]);
            }
        }
    }
}

/// Scans for the first backtick at or after `from`.
fn find_tick(v: &Vec<char>, from: usize) -> (k: usize)
    requires
        from <= v@.len(),
    ensures
        from <= k <= v@.len(),
        first_tick(v@.skip(from as int)) == k - from,
        k < v@.len() ==> v@[k as int] == '`',
        forall|j: int| from <= j < k ==> v@[j] != '`',
{
    let ghost s = v@.skip(from as int);
    let mut k: usize = from;
    while k < v.len() && v[k] != '`'
        invariant
            from <= k <= v@.len(),
            s == v@.skip(from as int),
            first_tick(s) == (k - from) + first_tick(v@.skip(k as int)),
            forall|j: int| from <= j < k ==> v@[j] != '`',
        decreases v@.len() - k,
    {
        proof {
            assert(v@.skip(k as int).drop_first() =~= v@.skip(k + 1));
        }
        k += 1;
    }
    proof {
        if k == v@.len() {
            assert(v@.skip(k as int) =~= Seq::<char>::empty());
        }
        assert(first_tick(v@.skip(k as int)) == 0);
    }
    k
}

/// The line with a single space inserted beside each inline code span whose
/// neighbour is neither whitespace nor a backtick.  Spans pair backticks
/// from the left; a lone trailing backtick opens no span.
pub open spec fn code_space_spec(s: Seq<char>) -> Seq<char>
    decreases s.len(),
    via code_space_decreases
{
    let b1 = first_tick(s);
    if b1 == s.len() {
        s
    } else {
        let d = first_tick(s.skip(b1 + 1));
        if d == s.skip(b1 + 1).len() {
            s
        } else {
            let b2 = b1 + 1 + d;
            s.take(b1) + (if b1 > 0 && !is_space_spec(s[b1 - 1]) {
                seq![' ']
            } else {
                Seq::empty()
            }) + s.subrange(b1, b2 + 1) + (if b2 + 1 < s.len() && s[b2 + 1] != '`'
                && !is_space_spec(s[b2 + 1]) {
                seq![' ']
            } else {
                Seq::empty()
            }) + code_space_spec(s.skip(b2 + 1))
        }
    }
}

#[via_fn]
proof fn code_space_decreases(s: Seq<char>) {
    lemma_first_tick(s);
    let b1 = first_tick(s);
    if b1 < s.len() {
        lemma_first_tick(s.skip(b1 + 1));
    }
}

fn push_range(r: &mut Vec<char>, v: &Vec<char>, from: usize, to: usize)
    requires
        from <= to <= v@.len(),
    ensures
        final(r)@ == old(r)@ + v@.subrange(from as int, to as int),
{
    let mut i: usize = from;
    proof {
        assert(r@ =~= r@ + v@.subrange(from as int, from as int));
    }
    while i < to
        invariant
            from <= i <= to <= v@.len(),
            r@ == old(r)@ + v@.subrange(from as int, i as int),
        decreases to - i,
    {
        r.push(v[i]);
        proof {
            assert(old(r)@ + v@.subrange(from as int, i + 1 as int) =~= (old(r)@ + v@.subrange(
                from as int,
                i as int,
            )).push(v@[i as int]));
        }
        i += 1;
    }
}

/// Inserts spaces around inline code spans.
#[verifier::rlimit(100)]
pub fn add_space_around_code_spans(v: &Vec<char>) -> (r: Vec<char>)
    ensures
        r@ == code_space_spec(v@),
{
    let mut r: Vec<char> = Vec::new();
    let mut pos: usize = 0;
    proof {
        assert(v@.skip(0) =~= v@);
        assert(code_space_spec(v@) =~= r@ + code_space_spec(v@));
    }
    loop
        invariant_except_break
            code_space_spec(v@) =~= r@ + code_space_spec(v@.skip(pos as int)),
        invariant
            pos <= v@.len(),
        ensures
            r@ =~= code_space_spec(v@),
        decreases v@.len() - pos,
    {
        let ghost prev = r@;
        let ghost rest = v@.skip(pos as int);
        let b1 = find_tick(v, pos);
        proof {
            assert(first_tick(rest) == b1 - pos);
            lemma_first_tick(rest);
        }
        if b1 == v.len() {
            push_range(&mut r, v, pos, v.len());
            proof {
                assert(first_tick(rest) == rest.len());
                assert(code_space_spec(rest) == rest);
                assert(rest =~= v@.subrange(pos as int, v@.len() as int));
            }
            break;
        }
        let b2 = find_tick(v, b1 + 1);
        proof {
            assert(rest.skip((b1 - pos) + 1) =~= v@.skip(b1 + 1));
            assert(first_tick(rest.skip((b1 - pos) + 1)) == b2 - (b1 + 1));
        }
        if b2 == v.len() {
            push_range(&mut r, v, pos, v.len());
            proof {
                assert(first_tick(rest.skip((b1 - pos) + 1)) == rest.skip((b1 - pos) + 1).len());
                assert(code_space_spec(rest) == rest);
                assert(rest =~= v@.subrange(pos as int, v@.len() as int));
            }
            break;
        }
        push_range(&mut r, v, pos, b1);
        let mut left_space: bool = false;
        if b1 > pos && !is_space(v[b1 - 1]) {
            r.push(' ');
            left_space = true;
        }
        push_range(&mut r, v, b1, b2 + 1);
        let mut right_space: bool = false;
        if b2 + 1 < v.len() && v[b2 + 1] != '`' && !is_space(v[b2 + 1]) {
            r.push(' ');
            right_space = true;
        }
        proof {
            let rb1 = b1 - pos;
            let rb2 = b2 - pos;
            assert(rest.take(rb1) =~= v@.subrange(pos as int, b1 as int));
            assert(rest.subrange(rb1, rb2 + 1) =~= v@.subrange(b1 as int, b2 + 1 as int));
            assert(rest.skip(rb2 + 1) =~= v@.skip(b2 + 1));
            assert(rb1 > 0 <==> b1 > pos);
            if rb1 > 0 {
                assert(rest[rb1 - 1] == v@[b1 - 1]);
            }
            if rb2 + 1 < rest.len() {
                assert(rest[rb2 + 1] == v@[b2 + 1]);
            }
            let lsp: Seq<char> = if left_space {
                seq![' ']
            } else {
                Seq::empty()
            };
            let rsp: Seq<char> = if right_space {
                seq![' ']
            } else {
                Seq::empty()
            };
            assert(code_space_spec(rest) == rest.take(rb1) + lsp + rest.subrange(rb1, rb2 + 1)
                + rsp + code_space_spec(rest.skip(rb2 + 1)));
            assert(r@ =~= prev + rest.take(rb1) + lsp + rest.subrange(rb1, rb2 + 1) + rsp);
            assert(prev + code_space_spec(rest) =~= r@ + code_space_spec(v@.skip(b2 + 1)));
        }
        pos = b2 + 1;
    }
    proof {
        assert(r@ =~= code_space_spec(v@));
    }
    r
}

/// The first backtick stands exactly where a scan finds it.
proof fn lemma_first_tick_at(s: Seq<char>, k: int)
    requires
        0 <= k <= s.len(),
        forall|j: int| 0 <= j < k ==> s[j] != '`',
        k < s.len() ==> s[k] == '`',
    ensures
        first_tick(s) == k,
    decreases k,
{
    if k == 0 {
    } else {
        assert(s[0] != '`');
        lemma_first_tick_at(s.drop_first(), k - 1);
    }
}

/// A leading space moves through the code-span pass unchanged: spans, and
/// the neighbours they are judged by, all sit one place further right.
proof fn lemma_code_space_after_space(c: char, u: Seq<char>)
    requires
        c != '`',
        is_space_spec(c),
    ensures
        code_space_spec(seq![c] + u) == seq![c] + code_space_spec(u),
{
    let s = seq![c] + u;
    assert(s.drop_first() =~= u);
    lemma_first_tick(u);
    let b1u = first_tick(u);
    let b1s = first_tick(s);
    assert(b1s == 1 + b1u);
    if b1u == u.len() {
        assert(code_space_spec(u) == u);
        assert(b1s == s.len());
        assert(code_space_spec(s) == s);
        assert(s =~= seq![c] + u);
    } else {
        assert(s.skip(b1s + 1) =~= u.skip(b1u + 1));
        let d = first_tick(u.skip(b1u + 1));
        lemma_first_tick(u.skip(b1u + 1));
        if d == u.skip(b1u + 1).len() {
            assert(code_space_spec(u) == u);
            assert(code_space_spec(s) == s);
        } else {
            let b2u = b1u + 1 + d;
            let b2s = b1s + 1 + d;
            assert(s.take(b1s) =~= seq![c] + u.take(b1u));
            assert(s.subrange(b1s, b2s + 1) =~= u.subrange(b1u, b2u + 1));
            assert(s.skip(b2s + 1) =~= u.skip(b2u + 1));
            let lsp_s: Seq<char> = if b1s > 0 && !is_space_spec(s[b1s - 1]) {
                seq![' ']
            } else {
                Seq::empty()
            };
            let lsp_u: Seq<char> = if b1u > 0 && !is_space_spec(u[b1u - 1]) {
                seq![' ']
            } else {
                Seq::empty()
            };
            assert(lsp_s == lsp_u) by {
                if b1u > 0 {
                    assert(s[b1s - 1] == u[b1u - 1]);
                } else {
                    assert(s[b1s - 1] == c);
                }
            }
            let rsp_s: Seq<char> = if b2s + 1 < s.len() && s[b2s + 1] != '`' && !is_space_spec(
                s[b2s + 1],
            ) {
                seq![' ']
            } else {
                Seq::empty()
            };
            let rsp_u: Seq<char> = if b2u + 1 < u.len() && u[b2u + 1] != '`' && !is_space_spec(
                u[b2u + 1],
            ) {
                seq![' ']
            } else {
                Seq::empty()
            };
            assert(rsp_s == rsp_u) by {
                if b2u + 1 < u.len() {
                    assert(s[b2s + 1] == u[b2u + 1]);
                }
            }
            assert(code_space_spec(s) =~= seq![c] + code_space_spec(u));
        }
    }
}

/// Code-span spacing only ever adds characters.
pub proof fn lemma_code_space_len(s: Seq<char>)
    ensures
        code_space_spec(s).len() >= s.len(),
    decreases s.len(),
{
    lemma_first_tick(s);
    let b1 = first_tick(s);
    if b1 < s.len() {
        lemma_first_tick(s.skip(b1 + 1));
        let d = first_tick(s.skip(b1 + 1));
        if d < s.skip(b1 + 1).len() {
            let b2 = b1 + 1 + d;
            lemma_code_space_len(s.skip(b2 + 1));
        }
    }
}

/// Code-span spacing never touches the first character.
pub proof fn lemma_code_space_first(s: Seq<char>)
    ensures
        s.len() > 0 ==> code_space_spec(s).len() > 0 && code_space_spec(s)[0] == s[0],
{
    lemma_first_tick(s);
    let b1 = first_tick(s);
    if b1 < s.len() {
        lemma_first_tick(s.skip(b1 + 1));
        let d = first_tick(s.skip(b1 + 1));
        if d < s.skip(b1 + 1).len() {
            let b2 = b1 + 1 + d;
            let t = code_space_spec(s);
            if b1 > 0 {
                assert(t[0] == s.take(b1)[0]);
            } else {
                assert(t[0] == s.subrange(b1, b2 + 1)[0]);
            }
        }
    }
}

/// Inserting code-span spaces twice is the same as inserting them once:
/// after one pass every span is already bounded by whitespace, a backtick,
/// or the line's edge.
#[verifier::rlimit(100)]
pub proof fn lemma_code_space_idempotent(s: Seq<char>)
    ensures
        code_space_spec(code_space_spec(s)) == code_space_spec(s),
    decreases s.len(),
{
    lemma_first_tick(s);
    let b1 = first_tick(s);
    if b1 < s.len() {
        let rest1 = s.skip(b1 + 1);
        lemma_first_tick(rest1);
        let d = first_tick(rest1);
        if d < rest1.len() {
            let b2 = b1 + 1 + d;
            let pre = s.take(b1);
            let lsp: Seq<char> = if b1 > 0 && !is_space_spec(s[b1 - 1]) {
                seq![' ']
            } else {
                Seq::empty()
            };
            let span = s.subrange(b1, b2 + 1);
            let r = s.skip(b2 + 1);
            let rsp: Seq<char> = if b2 + 1 < s.len() && s[b2 + 1] != '`' && !is_space_spec(
                s[b2 + 1],
            ) {
                seq![' ']
            } else {
                Seq::empty()
            };
            let t = code_space_spec(s);
            assert(t == pre + lsp + span + rsp + code_space_spec(r));
            let p = b1 + lsp.len();
            lemma_code_space_first(r);
            lemma_code_space_idempotent(r);
            assert forall|j: int| 0 <= j < p implies t[j] != '`' by {
                assert(t[j] == (pre + lsp)[j]);
                if j < b1 {
                    assert((pre + lsp)[j] == s[j]);
                } else {
                    assert((pre + lsp)[j] == ' ');
                }
            }
            assert(t[p] == span[0]);
            assert(span[0] == s[b1]);
            lemma_first_tick_at(t, p);
            let u2 = t.skip(p + 1);
            assert(u2 =~= s.subrange(b1 + 1, b2 + 1) + rsp + code_space_spec(r));
            assert forall|j: int| 0 <= j < d implies u2[j] != '`' by {
                assert(u2[j] == s.subrange(b1 + 1, b2 + 1)[j]);
                assert(s.subrange(b1 + 1, b2 + 1)[j] == rest1[j]);
            }
            assert(u2[d] == s.subrange(b1 + 1, b2 + 1)[d]);
            assert(s.subrange(b1 + 1, b2 + 1)[d] == rest1[d]);
            assert(rest1[d] == '`');
            lemma_first_tick_at(u2, d);
            let b2t = p + 1 + d;
            assert(first_tick(t) == p < t.len());
            assert(first_tick(t.skip(p + 1)) == d < t.skip(p + 1).len());
            assert(t.take(p) =~= pre + lsp);
            assert(t.subrange(p, b2t + 1) =~= span);
            assert(t.skip(b2t + 1) =~= rsp + code_space_spec(r));
            let lsp_t: Seq<char> = if p > 0 && !is_space_spec(t[p - 1]) {
                seq![' ']
            } else {
                Seq::empty()
            };
            assert(lsp_t =~= Seq::<char>::empty()) by {
                if p > 0 {
                    if lsp.len() > 0 {
                        assert(t[p - 1] == (pre + lsp)[p - 1]);
                        assert((pre + lsp)[p - 1] == ' ');
                    } else {
                        assert(t[p - 1] == (pre + lsp)[p - 1]);
                        assert((pre + lsp)[p - 1] == s[b1 - 1]);
                        assert(is_space_spec(s[b1 - 1]));
                    }
                }
            }
            let rsp_t: Seq<char> = if b2t + 1 < t.len() && t[b2t + 1] != '`' && !is_space_spec(
                t[b2t + 1],
            ) {
                seq![' ']
            } else {
                Seq::empty()
            };
            assert(rsp_t =~= Seq::<char>::empty()) by {
                if b2t + 1 < t.len() {
                    if rsp.len() > 0 {
                        assert(t[b2t + 1] == (rsp + code_space_spec(r))[0]);
                        assert((rsp + code_space_spec(r))[0] == ' ');
                    } else {
                        assert(code_space_spec(r).len() > 0);
                        if r.len() == 0 {
                            assert(code_space_spec(r) == r);
                        }
                        assert(r.len() > 0);
                        assert(t[b2t + 1] == code_space_spec(r)[0]);
                        assert(code_space_spec(r)[0] == r[0]);
                        assert(r[0] == s[b2 + 1]);
                        assert(s[b2 + 1] == '`' || is_space_spec(s[b2 + 1]));
                    }
                }
            }
            let tail = t.skip(b2t + 1);
            assert(code_space_spec(tail) == tail) by {
                if rsp.len() > 0 {
                    assert(tail =~= seq![' '] + code_space_spec(r));
                    lemma_code_space_after_space(' ', code_space_spec(r));
                } else {
                    assert(tail =~= code_space_spec(r));
                }
            }
            assert(code_space_spec(t) == t.take(p) + lsp_t + t.subrange(p, b2t + 1) + rsp_t
                + code_space_spec(tail));
            assert(code_space_spec(t) =~= t);
        }
    }
}

proof fn lemma_cjk_stable_concat(a: Seq<char>, b: Seq<char>)
    requires
        cjk_stable(a),
        cjk_stable(b),
        a.len() > 0 && b.len() > 0 ==> !cjk_boundary(a.last(), b[0]),
    ensures
        cjk_stable(a + b),
{
    assert forall|i: int| 0 <= i && i + 1 < (a + b).len() implies !cjk_boundary(
        #[trigger] (a + b)[i],
        (a + b)[i + 1],
    ) by {
        if i + 1 < a.len() {
            assert((a + b)[i] == a[i]);
            assert((a + b)[i + 1] == a[i + 1]);
        } else if i + 1 == a.len() {
            assert((a + b)[i] == a[i]);
            assert((a + b)[i + 1] == b[0]);
            assert(a[i] == a.last());
        } else {
            assert((a + b)[i] == b[i - a.len()]);
            assert((a + b)[i + 1] == b[i + 1 - a.len()]);
        }
    }
}

proof fn lemma_cjk_stable_sub(u: Seq<char>, a: int, b: int)
    requires
        cjk_stable(u),
        0 <= a <= b <= u.len(),
    ensures
        cjk_stable(u.subrange(a, b)),
{
    assert forall|i: int| 0 <= i && i + 1 < u.subrange(a, b).len() implies !cjk_boundary(
        #[trigger] u.subrange(a, b)[i],
        u.subrange(a, b)[i + 1],
    ) by {
        assert(u.subrange(a, b)[i] == u[a + i]);
        assert(u.subrange(a, b)[i + 1] == u[a + i + 1]);
    }
}

/// The code-span pass only inserts spaces, so it can never create a new
/// CJK/ASCII boundary.
#[verifier::rlimit(100)]
proof fn lemma_code_space_cjk_stable(u: Seq<char>)
    requires
        cjk_stable(u),
    ensures
        cjk_stable(code_space_spec(u)),
    decreases u.len(),
{
    lemma_first_tick(u);
    let b1 = first_tick(u);
    if b1 < u.len() {
        let rest1 = u.skip(b1 + 1);
        lemma_first_tick(rest1);
        let d = first_tick(rest1);
        if d < rest1.len() {
            let b2 = b1 + 1 + d;
            let pre = u.take(b1);
            let lsp: Seq<char> = if b1 > 0 && !is_space_spec(u[b1 - 1]) {
                seq![' ']
            } else {
                Seq::empty()
            };
            let span = u.subrange(b1, b2 + 1);
            let r = u.skip(b2 + 1);
            let rsp: Seq<char> = if b2 + 1 < u.len() && u[b2 + 1] != '`' && !is_space_spec(
                u[b2 + 1],
            ) {
                seq![' ']
            } else {
                Seq::empty()
            };
            assert(pre =~= u.subrange(0, b1));
            lemma_cjk_stable_sub(u, 0, b1);
            lemma_cjk_stable_sub(u, b1, b2 + 1);
            assert(r =~= u.subrange(b2 + 1, u.len() as int));
            lemma_cjk_stable_sub(u, b2 + 1, u.len() as int);
            lemma_code_space_cjk_stable(r);
            lemma_code_space_first(r);
            let s1 = pre + lsp;
            assert(cjk_stable(lsp));
            crate::chars::lemma_space_no_boundary(if pre.len() > 0 {
                pre.last()
            } else {
                ' '
            });
            lemma_cjk_stable_concat(pre, lsp);
            let s2 = s1 + span;
            assert(s1.len() > 0 && span.len() > 0 ==> !cjk_boundary(s1.last(), span[0])) by {
                if s1.len() > 0 {
                    if lsp.len() > 0 {
                        assert(s1.last() == ' ');
                        crate::chars::lemma_space_no_boundary(span[0]);
                    } else {
                        assert(s1.last() == pre.last());
                        assert(pre.last() == u[b1 - 1]);
                        assert(span[0] == u[b1]);
                    }
                }
            }
            lemma_cjk_stable_concat(s1, span);
            let s3 = s2 + rsp;
            assert(cjk_stable(rsp));
            crate::chars::lemma_space_no_boundary(s2.last());
            lemma_cjk_stable_concat(s2, rsp);
            let cr = code_space_spec(r);
            let s4 = s3 + cr;
            assert(s3.len() > 0 && cr.len() > 0 ==> !cjk_boundary(s3.last(), cr[0])) by {
                if cr.len() > 0 {
                    if r.len() == 0 {
                        assert(cr == r);
                    }
                    assert(cr[0] == r[0]);
                    assert(r[0] == u[b2 + 1]);
                    if rsp.len() > 0 {
                        assert(s3.last() == ' ');
                        crate::chars::lemma_space_no_boundary(cr[0]);
                    } else {
                        assert(s3.last() == span.last());
                        assert(span.last() == u[b2]);
                    }
                }
            }
            lemma_cjk_stable_concat(s3, cr);
            assert(code_space_spec(u) == s4);
        }
    }
}

/// The full inline transform: CJK/ASCII spacing, then code-span spacing.
pub open spec fn format_text_spec(s: Seq<char>) -> Seq<char> {
    code_space_spec(cjk_space_spec(s))
}

/// The inline spacer is idempotent: once both passes have run, running
/// them again changes nothing.
pub proof fn lemma_format_text_idempotent(s: Seq<char>)
    ensures
        format_text_spec(format_text_spec(s)) == format_text_spec(s),
{
    let cs = cjk_space_spec(s);
    let ft = code_space_spec(cs);
    lemma_cjk_space_stable(s);
    lemma_code_space_cjk_stable(cs);
    lemma_cjk_space_noop(ft);
    lemma_code_space_idempotent(cs);
}

/// The inline spacer only ever adds characters, and never touches the
/// first one.
pub proof fn lemma_format_text_first(s: Seq<char>)
    ensures
        format_text_spec(s).len() >= s.len(),
        s.len() > 0 ==> format_text_spec(s).len() > 0 && format_text_spec(s)[0] == s[0],
{
    lemma_cjk_space_first(s);
    lemma_code_space_len(cjk_space_spec(s));
    lemma_code_space_first(cjk_space_spec(s));
}

/// Applies the inline spacer to one line, given as a character vector.
pub fn format_text_chars(v: &Vec<char>) -> (r: Vec<char>)
    ensures
        r@ == format_text_spec(v@),
{
    let w = add_spaces_between_cjk_ascii(v);
    add_space_around_code_spans(&w)
}

/// Applies the inline spacer to one line of text.
pub fn format_text(text: &str) -> (r: String)
    ensures
        r@ == format_text_spec(text@),
{
    let v = str_to_chars(text);
    let w = format_text_chars(&v);
    chars_to_string(&w)
}

/// Formats one non-verbatim line; the work is the inline spacer's.
pub fn format_line(line: &str) -> (r: String)
    ensures
        r@ == format_text_spec(line@),
{
    format_text(line)
}

} // verus!
