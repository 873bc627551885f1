//! Cutting text at marker characters.
//!
//! Everything here speaks of a text as its sequence of characters. The places
//! where a marker stands are listed by [`positions`]; the pieces between them
//! are the [`segment`]s.

use vstd::prelude::*;
use vstd::string::StrSliceExecFns;

verus! {

/// The positions in `s` that hold a character of `marks`, ascending.
pub open spec fn positions(s: Seq<char>, marks: Set<char>) -> Seq<int>
    decreases s.len(),
{
    if s.len() == 0 {
        Seq::empty()
    } else if marks.contains(s.last()) {
        positions(s.drop_last(), marks).push(s.len() - 1)
    } else {
        positions(s.drop_last(), marks)
    }
}

/// Whether `s` holds no character of `marks`.
pub open spec fn free_of(s: Seq<char>, marks: Set<char>) -> bool {
    forall|i: int| 0 <= i < s.len() ==> !marks.contains(#[trigger] s[i])
}

/// Where the `k`-th segment starts when the markers stand at `p`.
pub open spec fn segment_start(p: Seq<int>, k: int) -> int {
    if k == 0 {
        0
    } else {
        p[k - 1] + 1
    }
}

/// Where the `k`-th segment of `s` ends when the markers stand at `p`.
pub open spec fn segment_end(s: Seq<char>, p: Seq<int>, k: int) -> int {
    if k < p.len() {
        p[k]
    } else {
        s.len() as int
    }
}

/// The `k`-th piece of `s` between the markers at `p`: what stands behind the
/// marker before it (or from the start) up to the next marker (or the end).
pub open spec fn segment(s: Seq<char>, p: Seq<int>, k: int) -> Seq<char> {
    s.subrange(segment_start(p, k), segment_end(s, p, k))
}

/// The pieces into which the occurrences of `sep` cut `s`: one more than
/// there are occurrences, empty pieces included.
pub open spec fn split_seq(s: Seq<char>, sep: char) -> Seq<Seq<char>> {
    let p = positions(s, set![sep]);
    Seq::new(p.len() + 1, |k: int| segment(s, p, k))
}

/// `piece` without the carriage return that may end it.
pub open spec fn strip_cr(piece: Seq<char>) -> Seq<char> {
    if piece.len() > 0 && piece.last() == '\r' {
        piece.drop_last()
    } else {
        piece
    }
}

/// The lines of `s`. A line ends at a line feed; the line feed, and a
/// carriage return right before it, do not belong to the line. What follows
/// the last line feed is a line of its own unless it is empty.
pub open spec fn lines_of(s: Seq<char>) -> Seq<Seq<char>> {
    let p = positions(s, set!['\n']);
    let ended = Seq::new(p.len(), |k: int| strip_cr(segment(s, p, k)));
    if segment_start(p, p.len() as int) < s.len() {
        ended.push(segment(s, p, p.len() as int))
    } else {
        ended
    }
}

/// The texts that a sequence of string slices holds.
pub open spec fn texts(v: Seq<&str>) -> Seq<Seq<char>> {
    Seq::new(v.len(), |k: int| v[k]@)
}

/// The marker positions are in range, strictly ascending, and hold a marker;
/// no other position does.
pub proof fn lemma_positions_ascending(s: Seq<char>, marks: Set<char>)
    ensures
        forall|k: int|
            0 <= k < positions(s, marks).len() ==> 0 <= #[trigger] positions(s, marks)[k]
                < s.len(),
        forall|j: int, k: int|
            0 <= j < k < positions(s, marks).len() ==> positions(s, marks)[j] < positions(
                s,
                marks,
            )[k],
        forall|k: int|
            0 <= k < positions(s, marks).len() ==> marks.contains(
                s[#[trigger] positions(s, marks)[k]],
            ),
        forall|i: int|
            0 <= i < s.len() && marks.contains(#[trigger] s[i]) ==> positions(s, marks).contains(
                i,
            ),
        positions(s, marks).len() <= s.len(),
        forall|k: int| 0 <= k < positions(s, marks).len() ==> k <= #[trigger] positions(s, marks)[k],
    decreases s.len(),
{
    if s.len() > 0 {
        let init = s.drop_last();
        lemma_positions_ascending(init, marks);
        let p = positions(s, marks);
        let q = positions(init, marks);
        assert forall|i: int| 0 <= i < s.len() && marks.contains(#[trigger] s[i]) implies p.contains(
            i,
        ) by {
            if i < s.len() - 1 {
                assert(marks.contains(init[i]));
                let k = choose|k: int| 0 <= k < q.len() && q[k] == i;
                assert(p[k] == i);
            } else {
                assert(p[p.len() - 1] == i);
            }
        }
    }
}

/// The markers of a prefix of `s` are the first markers of `s`.
pub proof fn lemma_positions_prefix(s: Seq<char>, marks: Set<char>, n: int)
    requires
        0 <= n <= s.len(),
    ensures
        positions(s.take(n), marks).len() <= positions(s, marks).len(),
        forall|k: int|
            0 <= k < positions(s.take(n), marks).len() ==> #[trigger] positions(
                s.take(n),
                marks,
            )[k] == positions(s, marks)[k],
    decreases s.len() - n,
{
    if n < s.len() {
        lemma_positions_prefix(s.drop_last(), marks, n);
        assert(s.drop_last().take(n) =~= s.take(n));
    } else {
        assert(s.take(n) =~= s);
    }
}

/// What one more character adds to the marker positions of a prefix.
pub proof fn lemma_positions_step(s: Seq<char>, marks: Set<char>, i: int)
    requires
        0 <= i < s.len(),
    ensures
        positions(s.take(i + 1), marks) == if marks.contains(s[i]) {
            positions(s.take(i), marks).push(i)
        } else {
            positions(s.take(i), marks)
        },
{
    assert(s.take(i + 1).drop_last() =~= s.take(i));
}

/// Text without markers adds no marker position.
pub proof fn lemma_positions_append_free(a: Seq<char>, g: Seq<char>, marks: Set<char>)
    requires
        free_of(g, marks),
    ensures
        positions(a + g, marks) == positions(a, marks),
    decreases g.len(),
{
    if g.len() == 0 {
        assert(a + g =~= a);
    } else {
        assert((a + g).drop_last() =~= a + g.drop_last());
        assert((a + g).last() == g[g.len() - 1]);
        lemma_positions_append_free(a, g.drop_last(), marks);
    }
}

/// A marker written behind `a` adds its position.
pub proof fn lemma_positions_append_mark(a: Seq<char>, c: char, marks: Set<char>)
    requires
        marks.contains(c),
    ensures
        positions(a + seq![c], marks) == positions(a, marks).push(a.len() as int),
{
    assert((a + seq![c]).drop_last() =~= a);
}

/// A text has no more lines than characters.
pub proof fn lemma_lines_len(s: Seq<char>)
    ensures
        lines_of(s).len() <= s.len(),
{
    let p = positions(s, set!['\n']);
    lemma_positions_ascending(s, set!['\n']);
    if p.len() > 0 {
        assert(p.len() - 1 <= p[p.len() - 1] < s.len());
    }
}

/// The parts into which the occurrences of `sep` cut `s`, in order.
pub fn split_on(s: &str, sep: char) -> (v: Vec<&str>)
    ensures
        texts(v@) == split_seq(s@, sep),
{
    let ghost t = s@;
    let ghost marks = set![sep];
    let n = s.unicode_len();
    let mut v: Vec<&str> = Vec::new();
    let mut start: usize = 0;
    let mut i: usize = 0;
    proof {
        assert(t.take(0) =~= Seq::<char>::empty());
    }
    for c in it: s.chars()
        invariant
            t == s@,
            marks == set![sep],
            it.seq() == t,
            n == t.len(),
            i == it.index(),
            i <= n,
            v@.len() == positions(t.take(i as int), marks).len(),
            start == segment_start(positions(t.take(i as int), marks), v@.len() as int),
            start <= i,
            forall|m: int|
                0 <= m < v@.len() ==> (#[trigger] v@[m])@ == segment(
                    t,
                    positions(t.take(i as int), marks),
                    m,
                ),
    {
        proof {
            lemma_positions_step(t, marks, i as int);
        }
        if c == sep {
            v.push(s.substring_char(start, i));
            start = i + 1;
        }
        i = i + 1;
    }
    proof {
        assert(t.take(i as int) =~= t);
    }
    v.push(s.substring_char(start, n));
    proof {
        assert(texts(v@) =~= split_seq(t, sep));
    }
    v
}

/// Whether `a` and `b` hold the same characters.
pub fn same_text(a: &str, b: &str) -> (r: bool)
    ensures
        r == (a@ == b@),
{
    let n = a.unicode_len();
    if n != b.unicode_len() {
        return false;
    }
    let mut i: usize = 0;
    for c in it: a.chars()
        invariant
            it.seq() == a@,
            n == a@.len(),
            n == b@.len(),
            i == it.index(),
            i <= n,
            forall|j: int| 0 <= j < i ==> a@[j] == b@[j],
    {
        if c != b.get_char(i) {
            return false;
        }
        i = i + 1;
    }
    proof {
        assert(a@ =~= b@);
    }
    true
}

/// `piece` without the carriage return that may end it.
fn strip_trailing_cr(piece: &str) -> (r: &str)
    ensures
        r@ == strip_cr(piece@),
{
    let n = piece.unicode_len();
    if n > 0 && piece.get_char(n - 1) == '\r' {
        let r = piece.substring_char(0, n - 1);
        proof {
            assert(piece@.subrange(0, n - 1) =~= piece@.drop_last());
        }
        r
    } else {
        piece
    }
}

/// The lines of `s`, without their line endings.
pub fn lines(s: &str) -> (v: Vec<&str>)
    ensures
        texts(v@) == lines_of(s@),
{
    let ghost t = s@;
    let ghost marks = set!['\n'];
    let n = s.unicode_len();
    let mut v: Vec<&str> = Vec::new();
    let mut start: usize = 0;
    let mut i: usize = 0;
    proof {
        assert(t.take(0) =~= Seq::<char>::empty());
    }
    for c in it: s.chars()
        invariant
            t == s@,
            marks == set!['\n'],
            it.seq() == t,
            n == t.len(),
            i == it.index(),
            i <= n,
            v@.len() == positions(t.take(i as int), marks).len(),
            start == segment_start(positions(t.take(i as int), marks), v@.len() as int),
            start <= i,
            forall|m: int|
                0 <= m < v@.len() ==> (#[trigger] v@[m])@ == strip_cr(
                    segment(t, positions(t.take(i as int), marks), m),
                ),
    {
        proof {
            lemma_positions_step(t, marks, i as int);
        }
        if c == '\n' {
            v.push(strip_trailing_cr(s.substring_char(start, i)));
            start = i + 1;
        }
        i = i + 1;
    }
    proof {
        assert(t.take(i as int) =~= t);
    }
    if start < n {
        v.push(s.substring_char(start, n));
    }
    proof {
        assert(texts(v@) =~= lines_of(t));
    }
    v
}

} // verus!
