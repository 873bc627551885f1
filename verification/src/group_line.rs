//! Splitting one telegram line into its code and its bracketed groups.
//!
//! A line reads `CODE(g1)(g2)...`. The code is what stands before the first
//! `(`; every pair of parentheses encloses one group. Text between a `)` and
//! the next `(`, or after the last `)`, is skipped.

use vstd::prelude::*;
use vstd::string::StrSliceExecFns;
use crate::error::DecodeError;
use crate::text::{
    free_of, lemma_positions_append_free, lemma_positions_append_mark, lemma_positions_ascending,
    lemma_positions_prefix, lemma_positions_step, positions, texts,
};

verus! {

/// The two characters that open and close a group.
pub open spec fn parens() -> Set<char> {
    set!['(', ')']
}

/// The positions in `s` that hold a parenthesis, ascending.
pub open spec fn paren_positions(s: Seq<char>) -> Seq<int> {
    positions(s, parens())
}

/// The parenthesis that a well-grouped line holds as its `k`-th.
pub open spec fn expected_paren(k: int) -> char {
    if k % 2 == 0 {
        '('
    } else {
        ')'
    }
}

/// Whether the parentheses of `s`, read left to right, are `(` and `)` in
/// turn, starting with `(`, ending with `)`, with at least one pair.
pub open spec fn well_grouped(s: Seq<char>) -> bool {
    let p = paren_positions(s);
    &&& p.len() >= 2
    &&& p.len() % 2 == 0
    &&& forall|k: int| 0 <= k < p.len() ==> s[#[trigger] p[k]] == expected_paren(k)
}

/// The `k`-th part of a line whose parentheses stand at `p`: the code for
/// `k == 0`, else what the `k`-th pair of parentheses encloses.
pub open spec fn part_at(s: Seq<char>, p: Seq<int>, k: int) -> Seq<char> {
    if k == 0 {
        s.subrange(0, p[0])
    } else {
        s.subrange(p[2 * k - 2] + 1, p[2 * k - 1])
    }
}

/// The code of a well-grouped line followed by its groups, in source order.
pub open spec fn group_parts(s: Seq<char>) -> Seq<Seq<char>> {
    let p = paren_positions(s);
    Seq::new((1 + p.len() / 2) as nat, |k: int| part_at(s, p, k))
}

/// Where the scan of a line stands.
enum ScanState {
    /// In the code, before any parenthesis.
    Before,
    /// Inside a group.
    Inside,
    /// Behind a closed group.
    Outside,
}

/// Splits `p1line` into its code and its groups.
///
/// Succeeds exactly on the lines whose parentheses pair up one after the
/// other, and then returns the code followed by the groups in source order.
/// A line with no group, with a `(` inside a group, with a `)` outside one or
/// with an unclosed group is rejected, and the error carries the line.
pub fn split_p1_line(p1line: &str) -> (r: Result<Vec<&str>, DecodeError>)
    ensures
        r is Ok <==> well_grouped(p1line@),
        r matches Ok(v) ==> texts(v@) == group_parts(p1line@),
        r matches Err(e) ==> e.line@ == p1line@,
{
    let ghost s = p1line@;
    let n = p1line.unicode_len();
    let mut result: Vec<&str> = Vec::new();
    let mut state = ScanState::Before;
    let mut k: usize = 0;
    let mut i: usize = 0;
    proof {
        assert(s.take(0) =~= Seq::<char>::empty());
    }
    for c in it: p1line.chars()
        invariant
            s == p1line@,
            it.seq() == s,
            n == s.len(),
            i == it.index(),
            i <= n,
            state is Before <==> paren_positions(s.take(i as int)).len() == 0,
            state is Inside <==> paren_positions(s.take(i as int)).len() % 2 == 1,
            state is Inside ==> k == paren_positions(s.take(i as int)).last(),
            forall|j: int|
                0 <= j < paren_positions(s.take(i as int)).len() ==> s[#[trigger] paren_positions(
                    s.take(i as int),
                )[j]] == expected_paren(j),
            state is Before ==> result@.len() == 0,
            !(state is Before) ==> result@.len() == 1 + paren_positions(s.take(i as int)).len()
                / 2,
            forall|m: int|
                0 <= m < result@.len() ==> (#[trigger] result@[m])@ == part_at(
                    s,
                    paren_positions(s.take(i as int)),
                    m,
                ),
    {
        let ghost p = paren_positions(s.take(i as int));
        proof {
            lemma_positions_step(s, parens(), i as int);
            lemma_positions_ascending(s.take(i as int), parens());
            lemma_positions_prefix(s, parens(), i as int + 1);
            lemma_positions_ascending(s, parens());
        }
        if c == '(' {
            match state {
                ScanState::Before => {
                    result.push(p1line.substring_char(0, i));
                },
                ScanState::Inside => {
                    proof {
                        let q = paren_positions(s.take(i as int + 1));
                        assert(q[p.len() as int] == i);
                        assert(paren_positions(s)[p.len() as int] == i);
                        assert(s[i as int] != expected_paren(p.len() as int));
                    }
                    return Err(DecodeError::new(p1line));
                },
                ScanState::Outside => {},
            }
            state = ScanState::Inside;
            k = i;
        } else if c == ')' {
            match state {
                ScanState::Inside => {},
                _ => {
                    proof {
                        let q = paren_positions(s.take(i as int + 1));
                        assert(q[p.len() as int] == i);
                        assert(paren_positions(s)[p.len() as int] == i);
                        assert(s[i as int] != expected_paren(p.len() as int));
                    }
                    return Err(DecodeError::new(p1line));
                },
            }
            result.push(p1line.substring_char(k + 1, i));
            state = ScanState::Outside;
        }
        i = i + 1;
    }
    proof {
        assert(s.take(i as int) =~= s);
    }
    match state {
        ScanState::Outside => {
            proof {
                assert(texts(result@) =~= group_parts(s));
            }
            Ok(result)
        },
        _ => Err(DecodeError::new(p1line)),
    }
}

/// Whether `s` holds no parenthesis.
pub open spec fn paren_free(s: Seq<char>) -> bool {
    free_of(s, parens())
}

/// A line without parentheses has no group and does not split.
pub proof fn lemma_line_without_groups_fails(s: Seq<char>)
    requires
        paren_free(s),
    ensures
        !well_grouped(s),
{
    lemma_positions_append_free(Seq::empty(), s, parens());
    assert(Seq::<char>::empty() + s =~= s);
}

/// The line that writes `code` and then each of `groups` in parentheses.
pub open spec fn render_line(code: Seq<char>, groups: Seq<Seq<char>>) -> Seq<char>
    decreases groups.len(),
{
    if groups.len() == 0 {
        code
    } else {
        render_line(code, groups.drop_last()) + seq!['('] + groups.last() + seq![')']
    }
}

/// One more group adds its two parentheses to the positions.
proof fn lemma_positions_append_group(a: Seq<char>, g: Seq<char>)
    requires
        paren_free(g),
    ensures
        paren_positions(a + seq!['('] + g + seq![')']) == paren_positions(a).push(
            a.len() as int,
        ).push((a.len() + 1 + g.len()) as int),
{
    let open = a + seq!['('];
    lemma_positions_append_mark(a, '(', parens());
    lemma_positions_append_free(open, g, parens());
    lemma_positions_append_mark(open + g, ')', parens());
}

/// A code without parentheses, followed by one or more groups without
/// parentheses, each written in a pair of them, splits into the code and
/// those groups, in the order in which they were written.
pub proof fn lemma_rendered_line_splits(code: Seq<char>, groups: Seq<Seq<char>>)
    requires
        paren_free(code),
        forall|k: int| 0 <= k < groups.len() ==> paren_free(#[trigger] groups[k]),
        groups.len() >= 1,
    ensures
        well_grouped(render_line(code, groups)),
        group_parts(render_line(code, groups)) == seq![code] + groups,
{
    lemma_rendered_positions(code, groups);
    let line = render_line(code, groups);
    let p = paren_positions(line);
    assert(group_parts(line) =~= seq![code] + groups);
}

/// Where the parentheses of a rendered line stand and what they enclose.
proof fn lemma_rendered_positions(code: Seq<char>, groups: Seq<Seq<char>>)
    requires
        paren_free(code),
        forall|k: int| 0 <= k < groups.len() ==> paren_free(#[trigger] groups[k]),
    ensures
        paren_positions(render_line(code, groups)).len() == 2 * groups.len(),
        code.len() <= render_line(code, groups).len(),
        render_line(code, groups).subrange(0, code.len() as int) == code,
        forall|k: int|
            0 <= k < 2 * groups.len() ==> render_line(code, groups)[#[trigger] paren_positions(
                render_line(code, groups),
            )[k]] == expected_paren(k),
        groups.len() >= 1 ==> paren_positions(render_line(code, groups))[0] == code.len(),
        forall|m: int|
            1 <= m <= groups.len() ==> #[trigger] part_at(
                render_line(code, groups),
                paren_positions(render_line(code, groups)),
                m,
            ) == groups[m - 1],
    decreases groups.len(),
{
    let line = render_line(code, groups);
    if groups.len() == 0 {
        lemma_positions_append_free(Seq::empty(), code, parens());
        assert(Seq::<char>::empty() + code =~= code);
        assert(line.subrange(0, code.len() as int) =~= code);
    } else {
        let before = groups.drop_last();
        let a = render_line(code, before);
        let g = groups.last();
        lemma_rendered_positions(code, before);
        lemma_positions_append_group(a, g);
        lemma_positions_ascending(a, parens());
        let pa = paren_positions(a);
        let p = paren_positions(line);
        assert(line.subrange(0, code.len() as int) =~= a.subrange(0, code.len() as int));
        assert forall|k: int| 0 <= k < 2 * groups.len() implies line[#[trigger] p[k]]
            == expected_paren(k) by {
            if k < pa.len() {
                assert(p[k] == pa[k]);
                assert(line[pa[k]] == a[pa[k]]);
            }
        }
        assert forall|m: int| 1 <= m <= groups.len() implies #[trigger] part_at(line, p, m)
            == groups[m - 1] by {
            if m < groups.len() {
                assert(part_at(a, pa, m) == before[m - 1]);
                assert(p[2 * m - 2] == pa[2 * m - 2]);
                assert(p[2 * m - 1] == pa[2 * m - 1]);
                assert(part_at(line, p, m) =~= part_at(a, pa, m));
            } else {
                assert(part_at(line, p, m) =~= g);
            }
        }
    }
}

} // verus!
