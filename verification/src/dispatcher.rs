//! Turning the lines of an accepted telegram into definitions and values.
//!
//! Every line is split into its code and groups. A line whose code the table
//! knows, and does not mark `ignore`, is a reading: the first time a code is
//! read its definition is queued, and its first group is read as the
//! telegram's time (for the parameter named `timestamp`) or as a value.
//! Lines that cannot be split, unknown codes and values that cannot be read
//! are passed over; they never stop the telegram. Each of them leaves a note
//! that says what was wrong with the line.

use vstd::prelude::*;
use crate::group_line::{group_parts, split_p1_line, well_grouped};
use crate::message::{
    definition_models, value_models, ParameterData, ParameterDataModel, ParameterDefinition,
    ParameterDefinitionModel, ParameterValue, ParameterValueModel,
};
use crate::registry::{DmsrParam, ObisCodes, ParamModel};
use crate::text::{lines, lines_of, same_text, texts};
use crate::timestamp::{get_timestamp, timestamp_of, DateTime};
use crate::value::{get_pvalue, split_group, unit_text, value_record, value_text};

verus! {

/// A line that gives a reading of a known code.
pub struct Reading {
    /// The code.
    pub code: Seq<char>,
    /// What the table holds for the code.
    pub param: ParamModel,
    /// The value part of the line's first group.
    pub value: Seq<char>,
    /// The unit part of the line's first group, if it has one.
    pub unit: Option<Seq<char>>,
}

impl Reading {
    /// Whether the reading is the telegram's own time.
    pub open spec fn is_timestamp(self) -> bool {
        self.param.name == "timestamp"@
    }

    /// The value that the reading gives: none for the telegram's time, nor
    /// where the text is no value of the parameter's type.
    pub open spec fn record(self) -> Option<ParameterValueModel> {
        if self.is_timestamp() {
            None
        } else {
            value_record(self.param, self.value)
        }
    }
}

/// The reading that `line` gives under the table `codes`: the line must
/// split into a code and groups, the table must hold the code, and the
/// parameter must not be named `ignore`.
pub open spec fn reading_of(codes: Map<Seq<char>, ParamModel>, line: Seq<char>) -> Option<
    Reading,
> {
    let parts = group_parts(line);
    if well_grouped(line) && codes.dom().contains(parts[0]) && codes[parts[0]].name != "ignore"@ {
        Some(
            Reading {
                code: parts[0],
                param: codes[parts[0]],
                value: value_text(parts[1]),
                unit: unit_text(parts[1]),
            },
        )
    } else {
        None
    }
}

/// The definition of `param` with the unit that its first reading carried.
pub open spec fn definition_of(param: ParamModel, unit: Option<Seq<char>>)
    -> ParameterDefinitionModel {
    ParameterDefinitionModel {
        relative_name: param.name,
        description: param.description,
        unit,
        ptype: param.ptype.label(),
        writable: false,
        id: param.pid,
    }
}

/// What became of one line of a telegram.
#[derive(Debug, Clone, Copy, PartialEq, Eq, Structural)]
pub enum LineOutcome {
    /// The line is empty.
    Blank,
    /// The line does not split into a code and groups.
    Malformed,
    /// The table does not hold the code of the line.
    UnknownCode,
    /// The table marks the code of the line `ignore`.
    Ignored,
    /// The line gave the telegram's time.
    TimestampRead,
    /// The line is for the telegram's time, but its text is no time.
    TimestampUnreadable,
    /// The line gave a value.
    ValueRead,
    /// The text of the line is no value of the parameter's type.
    ValueUnreadable,
}

impl LineOutcome {
    /// Whether the outcome is worth a note: the line was passed over
    /// because it was wrong or unknown, or what it carries could not be
    /// read. Empty lines and ignored codes are passed over in silence.
    pub open spec fn noteworthy(self) -> bool {
        self is Malformed || self is UnknownCode || self is TimestampUnreadable
            || self is ValueUnreadable
    }

    /// Whether the outcome is worth a note.
    pub fn is_noteworthy(&self) -> (r: bool)
        ensures
            r == self.noteworthy(),
    {
        match self {
            LineOutcome::Malformed => true,
            LineOutcome::UnknownCode => true,
            LineOutcome::TimestampUnreadable => true,
            LineOutcome::ValueUnreadable => true,
            _ => false,
        }
    }
}

/// What becomes of `line` under the table `codes`.
pub open spec fn outcome_of(codes: Map<Seq<char>, ParamModel>, line: Seq<char>) -> LineOutcome {
    if line.len() == 0 {
        LineOutcome::Blank
    } else {
        match reading_of(codes, line) {
            Some(r) => if r.is_timestamp() {
                if timestamp_of(r.value) is Some {
                    LineOutcome::TimestampRead
                } else {
                    LineOutcome::TimestampUnreadable
                }
            } else if r.record() is Some {
                LineOutcome::ValueRead
            } else {
                LineOutcome::ValueUnreadable
            },
            None => if !well_grouped(line) {
                LineOutcome::Malformed
            } else if !codes.dom().contains(group_parts(line)[0]) {
                LineOutcome::UnknownCode
            } else {
                LineOutcome::Ignored
            },
        }
    }
}

/// A line of a telegram that is worth a word in a log, with what became of
/// it.
#[derive(Debug, PartialEq, Eq)]
pub struct LineNote {
    /// The line.
    pub line: String,
    /// What became of it.
    pub outcome: LineOutcome,
}

/// A [`LineNote`] with its text as a character sequence.
pub struct LineNoteModel {
    /// The line.
    pub line: Seq<char>,
    /// What became of it.
    pub outcome: LineOutcome,
}

impl View for LineNote {
    type V = LineNoteModel;

    open spec fn view(&self) -> LineNoteModel {
        LineNoteModel { line: self.line@, outcome: self.outcome }
    }
}

/// The models of a sequence of notes.
pub open spec fn note_models(v: Seq<LineNote>) -> Seq<LineNoteModel> {
    Seq::new(v.len(), |k: int| v[k]@)
}

/// The notes after `line`: one more if what becomes of the line is worth a
/// note.
pub open spec fn notes_with(
    notes: Seq<LineNoteModel>,
    codes: Map<Seq<char>, ParamModel>,
    line: Seq<char>,
) -> Seq<LineNoteModel> {
    if outcome_of(codes, line).noteworthy() {
        notes.push(LineNoteModel { line, outcome: outcome_of(codes, line) })
    } else {
        notes
    }
}

/// What the lines of a telegram have given so far. Definitions and values
/// are listed with the code whose line gave them.
pub struct Progress {
    /// The table of codes.
    pub codes: Map<Seq<char>, ParamModel>,
    /// The definitions queued, in the order of the lines.
    pub definitions: Seq<(Seq<char>, ParameterDefinitionModel)>,
    /// The values queued, in the order of the lines.
    pub values: Seq<(Seq<char>, ParameterValueModel)>,
    /// The time that the telegram states, as last read.
    pub gentime: Option<DateTime>,
    /// The notes on the lines that were passed over or could not be read.
    pub notes: Seq<LineNoteModel>,
}

/// Where a telegram starts: nothing queued, no time read.
pub open spec fn start(codes: Map<Seq<char>, ParamModel>) -> Progress {
    Progress {
        codes,
        definitions: Seq::empty(),
        values: Seq::empty(),
        gentime: None,
        notes: Seq::empty(),
    }
}

/// What one more line gives. A line that is no reading changes nothing but
/// the notes. A reading marks its code as defined and queues the definition
/// if the code was not; a reading of the timestamp parameter replaces the
/// telegram's time by what it reads, readable or not; any other reading
/// queues its value if it is one. A note is added where what becomes of the
/// line is worth one.
pub open spec fn step(st: Progress, line: Seq<char>) -> Progress {
    match reading_of(st.codes, line) {
        None => Progress { notes: notes_with(st.notes, st.codes, line), ..st },
        Some(r) => Progress {
            codes: st.codes.insert(r.code, r.param.once_defined()),
            definitions: if r.param.defined {
                st.definitions
            } else {
                st.definitions.push((r.code, definition_of(r.param, r.unit)))
            },
            values: match r.record() {
                Some(v) => st.values.push((r.code, v)),
                None => st.values,
            },
            gentime: if r.is_timestamp() {
                timestamp_of(r.value)
            } else {
                st.gentime
            },
            notes: notes_with(st.notes, st.codes, line),
        },
    }
}

/// What `lines` give, one after the other, from `st` on.
pub open spec fn after_lines(st: Progress, lines: Seq<Seq<char>>) -> Progress
    decreases lines.len(),
{
    if lines.len() == 0 {
        st
    } else {
        step(after_lines(st, lines.drop_last()), lines.last())
    }
}

/// What the telegram body `body` gives under the table `codes`.
pub open spec fn telegram_progress(codes: Map<Seq<char>, ParamModel>, body: Seq<char>)
    -> Progress {
    after_lines(start(codes), lines_of(body))
}

/// The items of `tagged` without the codes that they are listed with.
pub open spec fn untagged<T>(tagged: Seq<(Seq<char>, T)>) -> Seq<T> {
    Seq::new(tagged.len(), |k: int| tagged[k].1)
}

/// The text that an optional string slice holds.
pub open spec fn optional_str(o: Option<&str>) -> Option<Seq<char>> {
    match o {
        Some(s) => Some(s@),
        None => None,
    }
}

/// The definition of `dmsr_param`, with `unit` as the unit of its values.
pub fn get_pdef(dmsr_param: &DmsrParam, unit: Option<&str>) -> (r: ParameterDefinition)
    ensures
        r@ == definition_of(dmsr_param@, optional_str(unit)),
{
    let unit = match unit {
        Some(u) => Some(u.to_owned()),
        None => None,
    };
    ParameterDefinition {
        relative_name: dmsr_param.name.clone(),
        description: dmsr_param.description.clone(),
        unit,
        ptype: dmsr_param.ptype.name().to_owned(),
        writable: false,
        id: dmsr_param.pid,
    }
}

/// The counter of the value batches sent.
#[derive(Debug, PartialEq, Eq)]
pub struct P1MonState {
    /// The number that the next batch of values gets.
    pub seq_count: u32,
}

/// What one telegram gave: the definitions of the parameters read for the
/// first time, the batch of values, if there is any value, and the notes on
/// the lines that gave nothing.
#[derive(Debug, PartialEq, Eq)]
pub struct TelegramOutput {
    /// The new definitions, in the order of the telegram's lines.
    pub definitions: Vec<ParameterDefinition>,
    /// The values, if the telegram gave at least one.
    pub data: Option<ParameterData>,
    /// The lines that were passed over or could not be read, in the order of
    /// the telegram's lines, each with what became of it.
    pub notes: Vec<LineNote>,
}

/// The batch of values for the progress `after` of a telegram, under the
/// number `seq_num`: none where no value is queued.
pub open spec fn batch_of(after: Progress, group: Seq<char>, seq_num: u32) -> Option<
    ParameterDataModel,
> {
    if after.values.len() > 0 {
        Some(
            ParameterDataModel {
                parameters: untagged(after.values),
                group,
                seq_num,
                generation_time: after.gentime,
            },
        )
    } else {
        None
    }
}

/// The model of an optional batch.
pub open spec fn optional_batch(o: Option<ParameterData>) -> Option<ParameterDataModel> {
    match o {
        Some(d) => Some(d@),
        None => None,
    }
}

/// The decoder of one meter: the table of its codes and the group under
/// which its values are sent.
#[derive(Debug)]
pub struct P1Mon {
    /// The group of the values.
    pub parameter_group: String,
    /// The known codes.
    pub obis_codes: ObisCodes,
}

impl P1Mon {
    /// Says what becomes of one line of a telegram under the table as it
    /// stands.
    pub fn line_outcome(&self, line: &str) -> (r: LineOutcome)
        ensures
            r == outcome_of(self.obis_codes@, line@),
    {
        if line.is_empty() {
            return LineOutcome::Blank;
        }
        match split_p1_line(line) {
            Err(_) => LineOutcome::Malformed,
            Ok(parts) => {
                proof {
                    assert(texts(parts@).len() == parts@.len());
                    assert(texts(parts@)[0] == parts@[0]@);
                    assert(texts(parts@)[1] == parts@[1]@);
                }
                let (value, _) = split_group(parts[1]);
                match self.obis_codes.get(parts[0]) {
                    None => LineOutcome::UnknownCode,
                    Some(param) => {
                        if same_text(param.name.as_str(), "ignore") {
                            LineOutcome::Ignored
                        } else if same_text(param.name.as_str(), "timestamp") {
                            match get_timestamp(value) {
                                Some(_) => LineOutcome::TimestampRead,
                                None => LineOutcome::TimestampUnreadable,
                            }
                        } else {
                            match get_pvalue(param, value) {
                                Some(_) => LineOutcome::ValueRead,
                                None => LineOutcome::ValueUnreadable,
                            }
                        }
                    },
                }
            },
        }
    }

    /// Turns the body of an accepted telegram into definitions and values.
    ///
    /// The lines are taken in order, as [`step`] says. The codes read are
    /// marked as defined in the table. If any value was read, it goes into
    /// one batch under the current sequence number, and the counter moves on
    /// by one; otherwise there is no batch and the counter stays. The lines
    /// that gave nothing for a reason worth a word are returned as notes.
    pub fn process_p1telegram(&mut self, p1mon_state: &mut P1MonState, p1t: &str) -> (out:
        TelegramOutput)
        requires
            old(p1mon_state).seq_count < u32::MAX,
        ensures
            final(self).obis_codes@ == telegram_progress(old(self).obis_codes@, p1t@).codes,
            final(self).parameter_group@ == old(self).parameter_group@,
            definition_models(out.definitions@) == untagged(
                telegram_progress(old(self).obis_codes@, p1t@).definitions,
            ),
            optional_batch(out.data) == batch_of(
                telegram_progress(old(self).obis_codes@, p1t@),
                old(self).parameter_group@,
                old(p1mon_state).seq_count,
            ),
            note_models(out.notes@) == telegram_progress(old(self).obis_codes@, p1t@).notes,
            final(p1mon_state).seq_count == old(p1mon_state).seq_count + (if out.data is Some {
                1int
            } else {
                0int
            }),
    {
        let all = lines(p1t);
        let ghost all_texts = texts(all@);
        let ghost first = start(self.obis_codes@);
        let ghost mut st = first;
        let mut pdefs: Vec<ParameterDefinition> = Vec::new();
        let mut pvalues: Vec<ParameterValue> = Vec::new();
        let mut gentime: Option<DateTime> = None;
        let mut notes: Vec<LineNote> = Vec::new();
        let mut i: usize = 0;
        proof {
            assert(all_texts.take(0) =~= Seq::<Seq<char>>::empty());
            assert(definition_models(pdefs@) =~= untagged(st.definitions));
            assert(value_models(pvalues@) =~= untagged(st.values));
            assert(note_models(notes@) =~= st.notes);
        }
        while i < all.len()
            invariant
                all_texts == texts(all@),
                i <= all@.len(),
                st == after_lines(first, all_texts.take(i as int)),
                self.obis_codes@ == st.codes,
                self.parameter_group@ == old(self).parameter_group@,
                definition_models(pdefs@) == untagged(st.definitions),
                value_models(pvalues@) == untagged(st.values),
                gentime == st.gentime,
                note_models(notes@) == st.notes,
            decreases all@.len() - i,
        {
            let line = all[i];
            proof {
                assert(all_texts[i as int] == line@);
                assert(all_texts.take(i as int + 1).drop_last() =~= all_texts.take(i as int));
            }
            let ghost next = step(st, line@);
            let outcome = self.line_outcome(line);
            if outcome.is_noteworthy() {
                let note = LineNote { line: line.to_owned(), outcome };
                let ghost before = notes@;
                notes.push(note);
                proof {
                    assert(note_models(notes@) =~= note_models(before).push(note@));
                }
            }
            match split_p1_line(line) {
                Ok(parts) => {
                    proof {
                        assert(texts(parts@).len() == parts@.len());
                        assert(texts(parts@)[0] == parts@[0]@);
                        assert(texts(parts@)[1] == parts@[1]@);
                    }
                    let code = parts[0];
                    let (value, unit) = split_group(parts[1]);
                    let mut read = false;
                    match self.obis_codes.get(code) {
                        Some(param) => {
                            if !same_text(param.name.as_str(), "ignore") {
                                read = true;
                                if !param.defined {
                                    let pdef = get_pdef(param, unit);
                                    let ghost before = pdefs@;
                                    pdefs.push(pdef);
                                    proof {
                                        assert(definition_models(pdefs@) =~= definition_models(
                                            before,
                                        ).push(pdef@));
                                        assert(untagged(next.definitions) =~= untagged(
                                            st.definitions,
                                        ).push(pdef@));
                                    }
                                }
                                if same_text(param.name.as_str(), "timestamp") {
                                    gentime = get_timestamp(value);
                                } else {
                                    match get_pvalue(param, value) {
                                        Some(pvalue) => {
                                            let ghost before = pvalues@;
                                            pvalues.push(pvalue);
                                            proof {
                                                assert(value_models(pvalues@) =~= value_models(
                                                    before,
                                                ).push(pvalue@));
                                                assert(untagged(next.values) =~= untagged(
                                                    st.values,
                                                ).push(pvalue@));
                                            }
                                        },
                                        None => {},
                                    }
                                }
                            }
                        },
                        None => {},
                    }
                    if read {
                        self.obis_codes.mark_defined(code);
                    }
                },
                Err(_) => {},
            }
            proof {
                st = next;
            }
            i = i + 1;
        }
        proof {
            assert(all_texts.take(i as int) =~= all_texts);
        }
        let data = if pvalues.len() > 0 {
            let batch = ParameterData {
                parameters: pvalues,
                group: self.parameter_group.clone(),
                seq_num: p1mon_state.seq_count,
                generation_time: gentime,
            };
            p1mon_state.seq_count = p1mon_state.seq_count + 1;
            Some(batch)
        } else {
            None
        };
        TelegramOutput { definitions: pdefs, data, notes }
    }
}

} // verus!
