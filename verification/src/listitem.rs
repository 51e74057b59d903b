//! The list-item line shape: optional leading whitespace, then an unordered
//! marker (`*`, `+`, `-`) or a digit run followed by `.`, then at least one
//! whitespace character, then the item content.
use vstd::prelude::*;
use crate::chars::is_digit;
use crate::chars::is_digit_spec;
use crate::chars::is_marker;
use crate::chars::is_marker_spec;
use crate::chars::is_space;
use crate::chars::is_space_spec;

verus! {

/// The kind of marker a list level carries.
#[derive(Debug, PartialEq, Eq, Structural, Clone, Copy)]
pub enum ListType {
    Unordered,
    Ordered,
}

/// Length of the run of whitespace at the start of `s`.
pub open spec fn ws_run(s: Seq<char>) -> int
    decreases s.len(),
{
    if s.len() > 0 && is_space_spec(s[0]) {
        1 + ws_run(s.drop_first())
    } else {
        0
    }
}

/// Length of the run of ASCII digits at the start of `s`.
pub open spec fn digit_run(s: Seq<char>) -> int
    decreases s.len(),
{
    if s.len() > 0 && is_digit_spec(s[0]) {
        1 + digit_run(s.drop_first())
    } else {
        0
    }
}

pub proof fn lemma_ws_run(s: Seq<char>)
    ensures
        0 <= ws_run(s) <= s.len(),
        forall|j: int| 0 <= j < ws_run(s) ==> is_space_spec(#[trigger] s[j]),
        ws_run(s) < s.len() ==> !is_space_spec(s[ws_run(s)]),
    decreases s.len(),
{
    if s.len() > 0 && is_space_spec(s[0]) {
        lemma_ws_run(s.drop_first());
        assert forall|j: int| 0 <= j < ws_run(s) implies is_space_spec(#[trigger] s[j]) by {
            if j > 0 {
                assert(s[j] == s.drop_first()[j - 1]);
            }
        }
    }
}

pub proof fn lemma_digit_run(s: Seq<char>)
    ensures
        0 <= digit_run(s) <= s.len(),
        forall|j: int| 0 <= j < digit_run(s) ==> is_digit_spec(#[trigger] s[j]),
        digit_run(s) < s.len() ==> !is_digit_spec(s[digit_run(s)]),
    decreases s.len(),
{
    if s.len() > 0 && is_digit_spec(s[0]) {
        lemma_digit_run(s.drop_first());
        assert forall|j: int| 0 <= j < digit_run(s) implies is_digit_spec(#[trigger] s[j]) by {
            if j > 0 {
                assert(s[j] == s.drop_first()[j - 1]);
            }
        }
    }
}

/// Whether the line has the list-item shape.
pub open spec fn is_list_line(s: Seq<char>) -> bool {
    let r = s.skip(ws_run(s));
    if r.len() > 0 && is_marker_spec(r[0]) {
        r.len() > 1 && is_space_spec(r[1])
    } else {
        let d = digit_run(r);
        d > 0 && d + 1 < r.len() && r[d] == '.' && is_space_spec(r[d + 1])
    }
}

/// The item's indentation width: the number of leading whitespace
/// characters.
pub open spec fn list_indent(s: Seq<char>) -> int {
    ws_run(s)
}

/// Whether the marker is a bullet or a number.
pub open spec fn list_kind(s: Seq<char>) -> ListType {
    let r = s.skip(ws_run(s));
    if r.len() > 0 && is_marker_spec(r[0]) {
        ListType::Unordered
    } else {
        ListType::Ordered
    }
}

/// The item's content: everything after the marker and the whitespace run
/// that follows it.
pub open spec fn list_content(s: Seq<char>) -> Seq<char> {
    let r = s.skip(ws_run(s));
    if r.len() > 0 && is_marker_spec(r[0]) {
        r.skip(1 + ws_run(r.skip(1)))
    } else {
        let d = digit_run(r);
        r.skip(d + 1 + ws_run(r.skip(d + 1)))
    }
}

/// Counts the whitespace run of `v` starting at `from`.
fn scan_ws(v: &Vec<char>, from: usize) -> (k: usize)
    requires
        from <= v@.len(),
    ensures
        from <= k <= v@.len(),
        ws_run(v@.skip(from as int)) == k - from,
{
    let mut k: usize = from;
    while k < v.len() && is_space(v[k])
        invariant
            from <= k <= v@.len(),
            ws_run(v@.skip(from as int)) == (k - from) + ws_run(v@.skip(k as int)),
        decreases v@.len() - k,
    {
        proof {
            assert(v@.skip(k as int).drop_first() =~= v@.skip(k + 1));
        }
        k += 1;
    }
    proof {
        if k == v@.len() {
            assert(v@.skip(k as int) =~= Seq::<char>::empty());
        }
        assert(ws_run(v@.skip(k as int)) == 0);
    }
    k
}

/// Counts the digit run of `v` starting at `from`.
fn scan_digits(v: &Vec<char>, from: usize) -> (k: usize)
    requires
        from <= v@.len(),
    ensures
        from <= k <= v@.len(),
        digit_run(v@.skip(from as int)) == k - from,
{
    let mut k: usize = from;
    while k < v.len() && is_digit(v[k])
        invariant
            from <= k <= v@.len(),
            digit_run(v@.skip(from as int)) == (k - from) + digit_run(v@.skip(k as int)),
        decreases v@.len() - k,
    {
        proof {
            assert(v@.skip(k as int).drop_first() =~= v@.skip(k + 1));
        }
        k += 1;
    }
    proof {
        if k == v@.len() {
            assert(v@.skip(k as int) =~= Seq::<char>::empty());
        }
        assert(digit_run(v@.skip(k as int)) == 0);
    }
    k
}

/// Parses the list-item shape: on success yields the indentation width, the
/// marker kind, and the index where the content starts.
pub fn parse_list_item(v: &Vec<char>) -> (r: Option<(usize, ListType, usize)>)
    ensures
        r is Some <==> is_list_line(v@),
        r matches Some((ind, kind, st)) ==> {
            &&& ind == list_indent(v@)
            &&& kind == list_kind(v@)
            &&& st <= v@.len()
            &&& v@.skip(st as int) == list_content(v@)
        },
{
    let i = scan_ws(v, 0);
    let ghost rr = v@.skip(i as int);
    proof {
        assert(v@.skip(0) =~= v@);
        assert(ws_run(v@) == i);
    }
    if i < v.len() && is_marker(v[i]) {
        proof {
            assert(rr[0] == v@[i as int]);
        }
        if i + 1 < v.len() && is_space(v[i + 1]) {
            proof {
                assert(rr[1] == v@[i + 1]);
            }
            let w = scan_ws(v, i + 1);
            proof {
                assert(rr.skip(1) =~= v@.skip(i + 1));
                assert(ws_run(rr.skip(1)) == w - (i + 1));
                assert(rr.skip(1 + (w - (i + 1))) =~= v@.skip(w as int));
            }
            Some((i, ListType::Unordered, w))
        } else {
            proof {
                if i + 1 < v@.len() {
                    assert(rr[1] == v@[i + 1]);
                } else {
                    assert(rr.len() == 1);
                }
            }
            None
        }
    } else {
        proof {
            if i < v@.len() {
                assert(rr[0] == v@[i as int]);
            } else {
                assert(rr.len() == 0);
            }
            assert(!(rr.len() > 0 && is_marker_spec(rr[0])));
        }
        let dend = scan_digits(v, i);
        proof {
            assert(rr =~= v@.skip(i as int));
            assert(digit_run(rr) == dend - i);
        }
        let ghost d = dend - i;
        if dend > i && dend < v.len() && v[dend] == '.' && dend + 1 < v.len() && is_space(
            v[dend + 1],
        ) {
            proof {
                assert(rr[d] == v@[dend as int]);
                assert(rr[d + 1] == v@[dend + 1]);
            }
            let w = scan_ws(v, dend + 1);
            proof {
                assert(rr.skip(d + 1) =~= v@.skip(dend + 1));
                assert(ws_run(rr.skip(d + 1)) == w - (dend + 1));
                assert(rr.skip(d + 1 + (w - (dend + 1))) =~= v@.skip(w as int));
            }
            Some((i, ListType::Ordered, w))
        } else {
            proof {
                if d > 0 && d + 1 < rr.len() {
                    assert(rr[d] == v@[dend as int]);
                    assert(rr[d + 1] == v@[dend + 1]);
                }
                assert(!is_list_line(v@));
            }
            None
        }
    }
}

} // verus!
