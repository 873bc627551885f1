//! What holds over a whole session: any number of telegrams, one after the
//! other, against one table of codes and one counter of batches.

use vstd::prelude::*;
use crate::dispatcher::{
    after_lines, outcome_of, reading_of, start, step, telegram_progress, LineNoteModel,
    LineOutcome, Progress,
};
use crate::registry::ParamModel;
use crate::text::lines_of;

verus! {

/// How many items of `tagged` are listed under the code `c`.
pub open spec fn count_for<T>(tagged: Seq<(Seq<char>, T)>, c: Seq<char>) -> nat
    decreases tagged.len(),
{
    if tagged.len() == 0 {
        0
    } else {
        count_for(tagged.drop_last(), c) + if tagged.last().0 == c {
            1nat
        } else {
            0nat
        }
    }
}

/// 1 if the table holds `c` as defined, else 0.
pub open spec fn defined_flag(codes: Map<Seq<char>, ParamModel>, c: Seq<char>) -> nat {
    if codes.dom().contains(c) && codes[c].defined {
        1
    } else {
        0
    }
}

/// Whether `after` is `before` but for codes that became defined: the same
/// codes, and under each the same parameter, which may have turned defined.
pub open spec fn evolved(
    before: Map<Seq<char>, ParamModel>,
    after: Map<Seq<char>, ParamModel>,
) -> bool {
    &&& after.dom() == before.dom()
    &&& forall|c: Seq<char>| #[trigger]
        before.dom().contains(c) ==> after[c] == before[c] || (!before[c].defined && after[c]
            == before[c].once_defined())
}

/// Whether `line` is a reading of the code `c`.
pub open spec fn reads_code(codes: Map<Seq<char>, ParamModel>, line: Seq<char>, c: Seq<char>)
    -> bool {
    reading_of(codes, line) matches Some(r) && r.code == c
}

/// Whether some line of `lines` is a reading of the code `c`.
pub open spec fn reads(codes: Map<Seq<char>, ParamModel>, lines: Seq<Seq<char>>, c: Seq<char>)
    -> bool {
    exists|i: int| 0 <= i < lines.len() && #[trigger] reads_code(codes, lines[i], c)
}

/// The table after the telegrams `bodies`, taken in order.
pub open spec fn codes_after(codes: Map<Seq<char>, ParamModel>, bodies: Seq<Seq<char>>) -> Map<
    Seq<char>,
    ParamModel,
>
    decreases bodies.len(),
{
    if bodies.len() == 0 {
        codes
    } else {
        telegram_progress(codes_after(codes, bodies.drop_last()), bodies.last()).codes
    }
}

/// What the telegram at index `k` of `bodies` gives, after those before it.
pub open spec fn progress_at(codes: Map<Seq<char>, ParamModel>, bodies: Seq<Seq<char>>, k: int)
    -> Progress {
    telegram_progress(codes_after(codes, bodies.take(k)), bodies[k])
}

/// How many definitions the telegrams `bodies` send for the code `c`.
pub open spec fn definitions_sent(
    codes: Map<Seq<char>, ParamModel>,
    bodies: Seq<Seq<char>>,
    c: Seq<char>,
) -> nat
    decreases bodies.len(),
{
    if bodies.len() == 0 {
        0
    } else {
        definitions_sent(codes, bodies.drop_last(), c) + count_for(
            telegram_progress(codes_after(codes, bodies.drop_last()), bodies.last()).definitions,
            c,
        )
    }
}

/// How many batches of values the telegrams `bodies` send: one for each
/// telegram that gives at least one value.
pub open spec fn batches_sent(codes: Map<Seq<char>, ParamModel>, bodies: Seq<Seq<char>>) -> nat
    decreases bodies.len(),
{
    if bodies.len() == 0 {
        0
    } else {
        batches_sent(codes, bodies.drop_last()) + if telegram_progress(
            codes_after(codes, bodies.drop_last()),
            bodies.last(),
        ).values.len() > 0 {
            1nat
        } else {
            0nat
        }
    }
}

/// The sequence number that the telegram at index `k` of `bodies` finds:
/// the counter at the start, moved on once for every batch sent before.
pub open spec fn seq_num_at(
    seq_count: u32,
    codes: Map<Seq<char>, ParamModel>,
    bodies: Seq<Seq<char>>,
    k: int,
) -> int {
    seq_count + batches_sent(codes, bodies.take(k))
}

/// Whatever a line holds, it changes the table only by marking the code that
/// it reads as defined, and it queues a definition exactly when it does so.
pub proof fn lemma_step_defines_once(st: Progress, line: Seq<char>, c: Seq<char>)
    ensures
        evolved(st.codes, step(st, line).codes),
        count_for(step(st, line).definitions, c) + defined_flag(st.codes, c) == count_for(
            st.definitions,
            c,
        ) + defined_flag(step(st, line).codes, c),
        defined_flag(step(st, line).codes, c) == 1 <==> defined_flag(st.codes, c) == 1
            || reads_code(st.codes, line, c),
{
    let next = step(st, line);
    match reading_of(st.codes, line) {
        None => {},
        Some(r) => {
            assert(next.codes.dom() =~= st.codes.dom());
            if !r.param.defined {
                assert(next.definitions.drop_last() =~= st.definitions);
            }
        },
    }
}

/// What becomes of a line says what the line gives. A line that is empty,
/// malformed, of an unknown code or of an ignored code changes nothing. A
/// line of the telegram's time sets the time if it is read and clears it if
/// not. Any other line queues one value if it is read and none if not. A
/// note is taken exactly of the outcomes that are worth one.
pub proof fn lemma_outcome_tells_step(st: Progress, line: Seq<char>)
    ensures
        match outcome_of(st.codes, line) {
            LineOutcome::Blank | LineOutcome::Malformed | LineOutcome::UnknownCode
            | LineOutcome::Ignored => {
                &&& step(st, line).codes == st.codes
                &&& step(st, line).definitions == st.definitions
                &&& step(st, line).values == st.values
                &&& step(st, line).gentime == st.gentime
            },
            LineOutcome::TimestampRead => {
                &&& step(st, line).gentime is Some
                &&& step(st, line).values == st.values
            },
            LineOutcome::TimestampUnreadable => {
                &&& step(st, line).gentime is None
                &&& step(st, line).values == st.values
            },
            LineOutcome::ValueRead => {
                &&& step(st, line).values.len() == st.values.len() + 1
                &&& step(st, line).gentime == st.gentime
            },
            LineOutcome::ValueUnreadable => {
                &&& step(st, line).values == st.values
                &&& step(st, line).gentime == st.gentime
            },
        },
        step(st, line).notes == if outcome_of(st.codes, line).noteworthy() {
            st.notes.push(LineNoteModel { line, outcome: outcome_of(st.codes, line) })
        } else {
            st.notes
        },
{
}

/// A table that only gained defined codes gives the same readings.
pub proof fn lemma_reading_stable(
    before: Map<Seq<char>, ParamModel>,
    after: Map<Seq<char>, ParamModel>,
    line: Seq<char>,
)
    requires
        evolved(before, after),
    ensures
        reading_of(before, line) is Some <==> reading_of(after, line) is Some,
        reading_of(before, line) matches Some(r) ==> reading_of(after, line)->0.code == r.code,
{
    let parts = crate::group_line::group_parts(line);
    if before.dom().contains(parts[0]) {
        assert(after[parts[0]].name == before[parts[0]].name);
    }
}

/// Over any lines, from any progress: the table changes only by codes that
/// turn defined; a code is defined afterwards exactly if it was before or
/// one of the lines read it; and for every code as many definitions are
/// queued as the code turned defined, which is once or never.
pub proof fn lemma_lines_define_once(st: Progress, lines: Seq<Seq<char>>, c: Seq<char>)
    ensures
        evolved(st.codes, after_lines(st, lines).codes),
        count_for(after_lines(st, lines).definitions, c) + defined_flag(st.codes, c) == count_for(
            st.definitions,
            c,
        ) + defined_flag(after_lines(st, lines).codes, c),
        defined_flag(after_lines(st, lines).codes, c) == 1 <==> defined_flag(st.codes, c) == 1
            || reads(st.codes, lines, c),
    decreases lines.len(),
{
    if lines.len() > 0 {
        let init = lines.drop_last();
        let mid = after_lines(st, init);
        lemma_lines_define_once(st, init, c);
        lemma_step_defines_once(mid, lines.last(), c);
        lemma_reading_stable(st.codes, mid.codes, lines.last());
        let end = step(mid, lines.last());
        assert forall|d: Seq<char>| #[trigger] st.codes.dom().contains(d) implies end.codes[d]
            == st.codes[d] || (!st.codes[d].defined && end.codes[d]
            == st.codes[d].once_defined()) by {
            assert(mid.codes.dom().contains(d));
        }
        if reads(st.codes, init, c) {
            let i = choose|i: int| 0 <= i < init.len() && #[trigger] reads_code(st.codes, init[i], c);
            assert(reads_code(st.codes, lines[i], c));
        }
        if reads_code(st.codes, lines.last(), c) {
            assert(reads_code(st.codes, lines[lines.len() - 1], c));
        }
        if reads(st.codes, lines, c) {
            let i = choose|i: int|
                0 <= i < lines.len() && #[trigger] reads_code(st.codes, lines[i], c);
            if i < init.len() {
                assert(reads_code(st.codes, init[i], c));
            }
        }
    }
}

/// Over any telegrams the table changes only by codes that turn defined.
pub proof fn lemma_table_evolves(codes: Map<Seq<char>, ParamModel>, bodies: Seq<Seq<char>>)
    ensures
        evolved(codes, codes_after(codes, bodies)),
    decreases bodies.len(),
{
    if bodies.len() > 0 {
        let init = bodies.drop_last();
        lemma_table_evolves(codes, init);
        let mid = codes_after(codes, init);
        lemma_lines_define_once(start(mid), lines_of(bodies.last()), Seq::empty());
        let end = codes_after(codes, bodies);
        assert forall|d: Seq<char>| #[trigger] codes.dom().contains(d) implies end[d] == codes[d]
            || (!codes[d].defined && end[d] == codes[d].once_defined()) by {
            assert(mid.dom().contains(d));
        }
    }
}

/// Across any number of telegrams, the definition of a code is sent once if
/// the code turns from undefined to defined, and never otherwise: never
/// twice, and never for a code that was defined before the first telegram.
pub proof fn lemma_definition_sent_once(
    codes: Map<Seq<char>, ParamModel>,
    bodies: Seq<Seq<char>>,
    c: Seq<char>,
)
    ensures
        definitions_sent(codes, bodies, c) + defined_flag(codes, c) == defined_flag(
            codes_after(codes, bodies),
            c,
        ),
        definitions_sent(codes, bodies, c) <= 1,
        defined_flag(codes, c) == 1 ==> definitions_sent(codes, bodies, c) == 0,
    decreases bodies.len(),
{
    if bodies.len() > 0 {
        let init = bodies.drop_last();
        lemma_definition_sent_once(codes, init, c);
        let mid = codes_after(codes, init);
        lemma_lines_define_once(start(mid), lines_of(bodies.last()), c);
    }
}

/// A code that is not defined is defined after a telegram exactly if one of
/// the telegram's lines reads it, and then that telegram sends its
/// definition.
pub proof fn lemma_first_reading_defines(
    codes: Map<Seq<char>, ParamModel>,
    body: Seq<char>,
    c: Seq<char>,
)
    requires
        defined_flag(codes, c) == 0,
    ensures
        reads(codes, lines_of(body), c) <==> count_for(
            telegram_progress(codes, body).definitions,
            c,
        ) == 1,
        !reads(codes, lines_of(body), c) <==> count_for(
            telegram_progress(codes, body).definitions,
            c,
        ) == 0,
{
    lemma_lines_define_once(start(codes), lines_of(body), c);
}

/// The batches sent grow with the telegrams taken.
proof fn lemma_batches_monotone(
    codes: Map<Seq<char>, ParamModel>,
    bodies: Seq<Seq<char>>,
    j: int,
    k: int,
)
    requires
        0 <= j <= k <= bodies.len(),
    ensures
        batches_sent(codes, bodies.take(j)) <= batches_sent(codes, bodies.take(k)),
    decreases k - j,
{
    if j < k {
        lemma_batches_monotone(codes, bodies, j, k - 1);
        assert(bodies.take(k).drop_last() =~= bodies.take(k - 1));
    }
}

/// Of two telegrams that both give values, the later one is sent under a
/// larger sequence number. A telegram without values moves no counter.
pub proof fn lemma_sequence_numbers_increase(
    seq_count: u32,
    codes: Map<Seq<char>, ParamModel>,
    bodies: Seq<Seq<char>>,
    j: int,
    k: int,
)
    requires
        0 <= j < k < bodies.len(),
        progress_at(codes, bodies, j).values.len() > 0,
    ensures
        seq_num_at(seq_count, codes, bodies, j) < seq_num_at(seq_count, codes, bodies, k),
        seq_num_at(seq_count, codes, bodies, j + 1) == seq_num_at(seq_count, codes, bodies, j)
            + 1,
        progress_at(codes, bodies, k).values.len() == 0 ==> seq_num_at(
            seq_count,
            codes,
            bodies,
            k + 1,
        ) == seq_num_at(seq_count, codes, bodies, k),
{
    lemma_batches_monotone(codes, bodies, j + 1, k);
    assert(bodies.take(j + 1).drop_last() =~= bodies.take(j));
    assert(bodies.take(j + 1).last() == bodies[j]);
    assert(bodies.take(k + 1).drop_last() =~= bodies.take(k));
    assert(bodies.take(k + 1).last() == bodies[k]);
}

/// Whatever the lines hold, a code that the table marks `ignore` keeps its
/// entry and gets neither a definition nor a value.
pub proof fn lemma_ignored_code_is_silent(st: Progress, lines: Seq<Seq<char>>, c: Seq<char>)
    requires
        st.codes.dom().contains(c),
        st.codes[c].name == "ignore"@,
    ensures
        after_lines(st, lines).codes.dom().contains(c),
        after_lines(st, lines).codes[c] == st.codes[c],
        count_for(after_lines(st, lines).definitions, c) == count_for(st.definitions, c),
        count_for(after_lines(st, lines).values, c) == count_for(st.values, c),
    decreases lines.len(),
{
    if lines.len() > 0 {
        let init = lines.drop_last();
        lemma_ignored_code_is_silent(st, init, c);
        let mid = after_lines(st, init);
        let end = step(mid, lines.last());
        match reading_of(mid.codes, lines.last()) {
            None => {},
            Some(r) => {
                assert(r.code != c);
                if !r.param.defined {
                    assert(end.definitions.drop_last() =~= mid.definitions);
                }
                if r.record() is Some {
                    assert(end.values.drop_last() =~= mid.values);
                }
            },
        }
    }
}

/// Across any number of telegrams, a code that the table marks `ignore`
/// stays as it is, and no telegram gives a definition or a value for it.
pub proof fn lemma_ignored_code_never_sent(
    codes: Map<Seq<char>, ParamModel>,
    bodies: Seq<Seq<char>>,
    c: Seq<char>,
    k: int,
)
    requires
        codes.dom().contains(c),
        codes[c].name == "ignore"@,
        0 <= k < bodies.len(),
    ensures
        codes_after(codes, bodies).dom().contains(c),
        codes_after(codes, bodies)[c] == codes[c],
        count_for(progress_at(codes, bodies, k).definitions, c) == 0,
        count_for(progress_at(codes, bodies, k).values, c) == 0,
    decreases bodies.len(),
{
    lemma_ignored_table_stays(codes, bodies, c);
    lemma_ignored_table_stays(codes, bodies.take(k), c);
    lemma_ignored_code_is_silent(
        start(codes_after(codes, bodies.take(k))),
        lines_of(bodies[k]),
        c,
    );
}

/// Across any number of telegrams, a code that the table marks `ignore`
/// keeps its entry.
proof fn lemma_ignored_table_stays(
    codes: Map<Seq<char>, ParamModel>,
    bodies: Seq<Seq<char>>,
    c: Seq<char>,
)
    requires
        codes.dom().contains(c),
        codes[c].name == "ignore"@,
    ensures
        codes_after(codes, bodies).dom().contains(c),
        codes_after(codes, bodies)[c] == codes[c],
    decreases bodies.len(),
{
    if bodies.len() > 0 {
        lemma_ignored_table_stays(codes, bodies.drop_last(), c);
        lemma_ignored_code_is_silent(
            start(codes_after(codes, bodies.drop_last())),
            lines_of(bodies.last()),
            c,
        );
    }
}

} // verus!
