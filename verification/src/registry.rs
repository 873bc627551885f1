//! The table of known OBIS codes.
//!
//! The table is read once from comma-separated text, one record per line:
//! code, name, value type, description. Each record gets the next number,
//! counted from 0, as its parameter id. A code that occurs twice keeps its
//! last record. Every parameter remembers whether its definition was sent.

use vstd::prelude::*;
use vstd::string::StrSliceExecFns;
use crate::error::{ConfigError, ConfigErrorModel};
use crate::text::{lines, lines_of, split_on, split_seq, texts};

verus! {

/// How the value of a parameter is read.
#[derive(Debug, Clone, Copy, PartialEq, Eq, Structural)]
pub enum DmsrParamType {
    /// A decimal number with a fraction.
    Float,
    /// A signed whole number.
    Integer,
    /// Text, taken as it stands.
    String,
}

/// The number of `c`, that of its lower-case form if `c` is an ASCII capital.
pub open spec fn ascii_fold(c: char) -> int {
    if 'A' as int <= c as int <= 'Z' as int {
        c as int + 32
    } else {
        c as int
    }
}

/// Whether `a` and `b` are equal but for the case of ASCII letters.
pub open spec fn eq_ignore_ascii_case(a: Seq<char>, b: Seq<char>) -> bool {
    &&& a.len() == b.len()
    &&& forall|i: int| 0 <= i < a.len() ==> ascii_fold(#[trigger] a[i]) == ascii_fold(b[i])
}

/// The value type that `token` names, in any mix of upper and lower case.
pub open spec fn type_named(token: Seq<char>) -> Option<DmsrParamType> {
    if eq_ignore_ascii_case(token, "float"@) {
        Some(DmsrParamType::Float)
    } else if eq_ignore_ascii_case(token, "integer"@) {
        Some(DmsrParamType::Integer)
    } else if eq_ignore_ascii_case(token, "string"@) {
        Some(DmsrParamType::String)
    } else {
        None
    }
}

fn fold_char(c: char) -> (r: u32)
    ensures
        r == ascii_fold(c),
{
    let u = c as u32;
    if 65 <= u && u <= 90 {
        u + 32
    } else {
        u
    }
}

/// Whether `a` and `b` are equal but for the case of ASCII letters.
pub fn same_ignoring_case(a: &str, b: &str) -> (r: bool)
    ensures
        r == eq_ignore_ascii_case(a@, b@),
{
    let n = a.unicode_len();
    if n != b.unicode_len() {
        return false;
    }
    let mut i: usize = 0;
    for c in it: a.chars()
        invariant
            it.seq() == a@,
            n == a@.len(),
            n == b@.len(),
            i == it.index(),
            i <= n,
            forall|j: int| 0 <= j < i ==> ascii_fold(#[trigger] a@[j]) == ascii_fold(b@[j]),
    {
        if fold_char(c) != fold_char(b.get_char(i)) {
            return false;
        }
        i = i + 1;
    }
    true
}

impl DmsrParamType {
    /// The value type that `s` names: `float`, `integer` or `string`, in any
    /// mix of upper and lower case. Any other text is an error that carries it.
    pub fn from_str(s: &str) -> (r: Result<DmsrParamType, ConfigError>)
        ensures
            match type_named(s@) {
                Some(t) => r == Ok::<DmsrParamType, ConfigError>(t),
                None => r matches Err(e) && e@ == (ConfigErrorModel::UnknownType { token: s@ }),
            },
    {
        if same_ignoring_case(s, "float") {
            Ok(DmsrParamType::Float)
        } else if same_ignoring_case(s, "integer") {
            Ok(DmsrParamType::Integer)
        } else if same_ignoring_case(s, "string") {
            Ok(DmsrParamType::String)
        } else {
            Err(ConfigError::UnknownType { token: s.to_owned() })
        }
    }

    /// The name of the type as a parameter definition carries it.
    pub open spec fn label(self) -> Seq<char> {
        match self {
            DmsrParamType::Float => "Float"@,
            DmsrParamType::Integer => "Integer"@,
            DmsrParamType::String => "String"@,
        }
    }

    /// The name of the type as a parameter definition carries it.
    pub fn name(&self) -> (r: &'static str)
        ensures
            r@ == self.label(),
    {
        match self {
            DmsrParamType::Float => "Float",
            DmsrParamType::Integer => "Integer",
            DmsrParamType::String => "String",
        }
    }
}

/// What is known of one OBIS code.
#[derive(Debug, PartialEq, Eq)]
pub struct DmsrParam {
    /// What the parameter measures, in words.
    pub description: String,
    /// The name of the parameter. `timestamp` marks the telegram's own time,
    /// `ignore` a code that is never passed on.
    pub name: String,
    /// How its value is read.
    pub ptype: DmsrParamType,
    /// Whether the definition of the parameter was sent.
    pub defined: bool,
    /// The id of the parameter: the number of its record in the table.
    pub pid: u32,
}

/// A [`DmsrParam`] with its texts as character sequences.
pub struct ParamModel {
    /// What the parameter measures, in words.
    pub description: Seq<char>,
    /// The name of the parameter.
    pub name: Seq<char>,
    /// How its value is read.
    pub ptype: DmsrParamType,
    /// Whether the definition of the parameter was sent.
    pub defined: bool,
    /// The id of the parameter.
    pub pid: u32,
}

impl View for DmsrParam {
    type V = ParamModel;

    open spec fn view(&self) -> ParamModel {
        ParamModel {
            description: self.description@,
            name: self.name@,
            ptype: self.ptype,
            defined: self.defined,
            pid: self.pid,
        }
    }
}

impl ParamModel {
    /// The same parameter once its definition was sent.
    pub open spec fn once_defined(self) -> ParamModel {
        ParamModel { defined: true, ..self }
    }
}

/// Whether a line of the table is a record: neither empty nor a comment,
/// which starts with `#`.
pub open spec fn is_record(line: Seq<char>) -> bool {
    line.len() > 0 && line[0] != '#'
}

/// The records among `lines`, in order.
pub open spec fn records_in(lines: Seq<Seq<char>>) -> Seq<Seq<char>> {
    lines.filter(|l: Seq<char>| is_record(l))
}

/// The code and the parameter that the record `line` defines when it is
/// given the id `pid`, or what is wrong with it: it must have four fields,
/// and the third must name a value type.
pub open spec fn record_of(line: Seq<char>, pid: u32) -> Result<
    (Seq<char>, ParamModel),
    ConfigErrorModel,
> {
    let fields = split_seq(line, ',');
    if fields.len() != 4 {
        Err(ConfigErrorModel::WrongFieldCount { line })
    } else {
        match type_named(fields[2]) {
            None => Err(ConfigErrorModel::UnknownType { token: fields[2] }),
            Some(ptype) => Ok(
                (
                    fields[0],
                    ParamModel {
                        description: fields[3],
                        name: fields[1],
                        ptype,
                        defined: false,
                        pid,
                    },
                ),
            ),
        }
    }
}

/// The table that `records` define. The record at index `k` gets the id `k`;
/// a later record of a code replaces an earlier one. The first record that
/// is wrong makes the whole table fail with its error.
pub open spec fn load_records(records: Seq<Seq<char>>) -> Result<
    Map<Seq<char>, ParamModel>,
    ConfigErrorModel,
>
    decreases records.len(),
{
    if records.len() == 0 {
        Ok(Map::empty())
    } else {
        match load_records(records.drop_last()) {
            Err(e) => Err(e),
            Ok(table) => match record_of(records.last(), (records.len() - 1) as u32) {
                Err(e) => Err(e),
                Ok((code, param)) => Ok(table.insert(code, param)),
            },
        }
    }
}

/// The table that the text of a code file defines.
pub open spec fn load_codes(text: Seq<char>) -> Result<
    Map<Seq<char>, ParamModel>,
    ConfigErrorModel,
> {
    load_records(records_in(lines_of(text)))
}

/// The code that the record `line` is for: its first field.
pub open spec fn record_code(line: Seq<char>) -> Seq<char> {
    split_seq(line, ',')[0]
}

/// Whether the record at index `k` is the last one for its code.
pub open spec fn is_last_for_code(records: Seq<Seq<char>>, k: int) -> bool {
    forall|j: int| k < j < records.len() ==> record_code(#[trigger] records[j]) != record_code(records[k])
}

/// A table loads exactly if every record is right. It then holds the codes
/// of the records and no others, and under each code the parameter of the
/// last record for that code, whose id is the index of that record and
/// which is not defined.
pub proof fn lemma_loaded_table(records: Seq<Seq<char>>, code: Seq<char>)
    requires
        records.len() <= u32::MAX,
    ensures
        load_records(records) is Ok <==> forall|k: int|
            0 <= k < records.len() ==> (#[trigger] record_of(records[k], k as u32)) is Ok,
        load_records(records) matches Ok(table) ==> {
            &&& table.dom().contains(code) <==> exists|k: int|
                0 <= k < records.len() && record_code(#[trigger] records[k]) == code
            &&& table.dom().contains(code) ==> {
                &&& table[code].pid < records.len()
                &&& !table[code].defined
                &&& is_last_for_code(records, table[code].pid as int)
                &&& record_of(records[table[code].pid as int], table[code].pid) == Ok::<
                    (Seq<char>, ParamModel),
                    ConfigErrorModel,
                >((code, table[code]))
            }
        },
    decreases records.len(),
{
    if records.len() > 0 {
        let init = records.drop_last();
        let n = records.len() - 1;
        lemma_loaded_table(init, code);
        assert forall|k: int| 0 <= k < init.len() implies init[k] == records[k] by {}
        if load_records(records) is Ok {
            assert forall|k: int| 0 <= k < records.len() implies (#[trigger] record_of(
                records[k],
                k as u32,
            )) is Ok by {
                if k < n {
                    assert(record_of(init[k], k as u32) is Ok);
                }
            }
        }
        if forall|k: int|
            0 <= k < records.len() ==> (#[trigger] record_of(records[k], k as u32)) is Ok {
            assert forall|k: int| 0 <= k < init.len() implies (#[trigger] record_of(
                init[k],
                k as u32,
            )) is Ok by {
                assert(record_of(records[k], k as u32) is Ok);
            }
            assert(record_of(records[n], n as u32) is Ok);
        }
        match load_records(records) {
            Err(_) => {},
            Ok(table) => {
                let before = load_records(init)->Ok_0;
                let last = record_of(records[n], n as u32)->Ok_0;
                assert(last.0 == record_code(records[n]));
                if table.dom().contains(code) {
                    if last.0 == code {
                        assert(table[code] == last.1);
                        assert(record_code(records[n]) == code);
                    } else {
                        assert(before.dom().contains(code));
                        let k = before[code].pid as int;
                        assert(records[k] == init[k]);
                        assert forall|j: int| k < j < records.len() implies record_code(
                            #[trigger] records[j],
                        ) != record_code(records[k]) by {
                            if j < n {
                                assert(init[j] == records[j]);
                            }
                        }
                        let w = choose|w: int|
                            0 <= w < init.len() && record_code(#[trigger] init[w]) == code;
                        assert(record_code(records[w]) == code);
                    }
                }
                if exists|k: int|
                    0 <= k < records.len() && record_code(#[trigger] records[k]) == code {
                    let k = choose|k: int|
                        0 <= k < records.len() && record_code(#[trigger] records[k]) == code;
                    if k < n {
                        assert(record_code(init[k]) == code);
                    }
                }
            },
        }
    }
}

/// A table that fails to load fails with the error of its first wrong
/// record.
pub proof fn lemma_first_wrong_record(records: Seq<Seq<char>>)
    requires
        load_records(records) is Err,
    ensures
        exists|k: int|
            0 <= k < records.len() && (#[trigger] record_of(records[k], k as u32)) == Err::<
                (Seq<char>, ParamModel),
                ConfigErrorModel,
            >(load_records(records)->Err_0) && load_records(records.take(k)) is Ok,
    decreases records.len(),
{
    let init = records.drop_last();
    let n = records.len() - 1;
    if load_records(init) is Err {
        lemma_first_wrong_record(init);
        let k = choose|k: int|
            0 <= k < init.len() && (#[trigger] record_of(init[k], k as u32)) == Err::<
                (Seq<char>, ParamModel),
                ConfigErrorModel,
            >(load_records(init)->Err_0) && load_records(init.take(k)) is Ok;
        assert(init[k] == records[k]);
        assert(init.take(k) =~= records.take(k));
        assert(record_of(records[k], k as u32) == Err::<
            (Seq<char>, ParamModel),
            ConfigErrorModel,
        >(load_records(records)->Err_0));
    } else {
        assert(records.take(n) =~= init);
        assert(record_of(records[n], n as u32) == Err::<
            (Seq<char>, ParamModel),
            ConfigErrorModel,
        >(load_records(records)->Err_0));
    }
}

/// What one more line adds to the records of a prefix of `lines`.
proof fn lemma_records_step(lines: Seq<Seq<char>>, i: int)
    requires
        0 <= i < lines.len(),
    ensures
        records_in(lines.take(i + 1)) == if is_record(lines[i]) {
            records_in(lines.take(i)).push(lines[i])
        } else {
            records_in(lines.take(i))
        },
        records_in(lines.take(i)).len() <= i,
{
    reveal(Seq::filter);
    assert(lines.take(i + 1).drop_last() =~= lines.take(i));
    lines.take(i).lemma_filter_len(|l: Seq<char>| is_record(l));
}

/// One code with what is known of it.
#[derive(Debug)]
struct CodeEntry {
    code: String,
    param: DmsrParam,
}

/// Whether some entry is for `code`.
spec fn has_code(entries: Seq<CodeEntry>, code: Seq<char>) -> bool {
    exists|i: int| 0 <= i < entries.len() && (#[trigger] entries[i]).code@ == code
}

/// The index of the entry for `code`.
spec fn slot_of(entries: Seq<CodeEntry>, code: Seq<char>) -> int {
    choose|i: int| 0 <= i < entries.len() && (#[trigger] entries[i]).code@ == code
}

/// Whether no two entries are for the same code.
spec fn distinct_codes(entries: Seq<CodeEntry>) -> bool {
    forall|i: int, j: int|
        0 <= i < j < entries.len() ==> (#[trigger] entries[i]).code@ != (#[trigger] entries[j]).code@
}

/// The map from each code to what its entry holds.
spec fn table_of(entries: Seq<CodeEntry>) -> Map<Seq<char>, ParamModel> {
    Map::new(|c: Seq<char>| has_code(entries, c), |c: Seq<char>| entries[slot_of(entries, c)].param@)
}

/// An entry for a new code adds it to the map.
proof fn lemma_table_push(entries: Seq<CodeEntry>, e: CodeEntry)
    requires
        distinct_codes(entries),
        !has_code(entries, e.code@),
    ensures
        distinct_codes(entries.push(e)),
        table_of(entries.push(e)) == table_of(entries).insert(e.code@, e.param@),
{
    let after = entries.push(e);
    assert forall|c: Seq<char>| has_code(after, c) <==> (has_code(entries, c) || c == e.code@) by {
        if has_code(after, c) {
            let i = slot_of(after, c);
            if i < entries.len() {
                assert(entries[i].code@ == c);
            }
        }
        if has_code(entries, c) {
            let i = slot_of(entries, c);
            assert(after[i].code@ == c);
        }
        if c == e.code@ {
            assert(after[entries.len() as int].code@ == c);
        }
    }
    assert forall|c: Seq<char>| has_code(after, c) implies #[trigger] table_of(after)[c]
        == table_of(entries).insert(e.code@, e.param@)[c] by {
        let i = slot_of(after, c);
        if c != e.code@ {
            let j = slot_of(entries, c);
            assert(after[j].code@ == c);
        }
    }
    assert(table_of(after) =~= table_of(entries).insert(e.code@, e.param@));
}

/// Another entry for the code at `i` replaces what the map holds for it.
proof fn lemma_table_update(entries: Seq<CodeEntry>, i: int, e: CodeEntry)
    requires
        distinct_codes(entries),
        0 <= i < entries.len(),
        entries[i].code@ == e.code@,
    ensures
        distinct_codes(entries.update(i, e)),
        table_of(entries.update(i, e)) == table_of(entries).insert(e.code@, e.param@),
{
    let after = entries.update(i, e);
    assert forall|c: Seq<char>| has_code(after, c) <==> has_code(entries, c) by {
        if has_code(after, c) {
            let j = slot_of(after, c);
            assert(entries[j].code@ == c);
        }
        if has_code(entries, c) {
            let j = slot_of(entries, c);
            assert(after[j].code@ == c);
        }
    }
    assert(has_code(entries, e.code@)) by {
        assert(entries[i].code@ == e.code@);
    }
    assert forall|c: Seq<char>| has_code(after, c) implies #[trigger] table_of(after)[c]
        == table_of(entries).insert(e.code@, e.param@)[c] by {
        let j = slot_of(after, c);
        let k = slot_of(entries, c);
        assert(after[k].code@ == c);
    }
    assert(table_of(after) =~= table_of(entries).insert(e.code@, e.param@));
}

/// The table of known OBIS codes: for each code what is known of it.
#[derive(Debug)]
pub struct ObisCodes {
    entries: Vec<CodeEntry>,
}

impl View for ObisCodes {
    type V = Map<Seq<char>, ParamModel>;

    closed spec fn view(&self) -> Map<Seq<char>, ParamModel> {
        table_of(self.entries@)
    }
}

impl ObisCodes {
    #[verifier::type_invariant]
    spec fn well_formed(self) -> bool {
        distinct_codes(self.entries@)
    }

    /// A table without codes.
    pub fn new() -> (r: ObisCodes)
        ensures
            r@ == Map::<Seq<char>, ParamModel>::empty(),
    {
        let r = ObisCodes { entries: Vec::new() };
        proof {
            assert(r@ =~= Map::<Seq<char>, ParamModel>::empty());
        }
        r
    }

    /// The index of the entry for `code`.
    fn find(&self, code: &str) -> (r: Option<usize>)
        ensures
            match r {
                Some(i) => i < self.entries@.len() && self.entries@[i as int].code@ == code@,
                None => !has_code(self.entries@, code@),
            },
    {
        let wanted = code.to_owned();
        let mut i: usize = 0;
        while i < self.entries.len()
            invariant
                i <= self.entries@.len(),
                wanted@ == code@,
                forall|j: int| 0 <= j < i ==> (#[trigger] self.entries@[j]).code@ != code@,
            decreases self.entries@.len() - i,
        {
            if self.entries[i].code == wanted {
                return Some(i);
            }
            i = i + 1;
        }
        None
    }

    /// What is known of `code`, if the table holds it.
    pub fn get(&self, code: &str) -> (r: Option<&DmsrParam>)
        ensures
            match r {
                Some(p) => self@.dom().contains(code@) && p@ == self@[code@],
                None => !self@.dom().contains(code@),
            },
    {
        proof {
            use_type_invariant(self);
        }
        match self.find(code) {
            Some(i) => {
                proof {
                    let j = slot_of(self.entries@, code@);
                    assert(self.entries@[i as int].code@ == code@);
                }
                Some(&self.entries[i].param)
            },
            None => None,
        }
    }

    /// Puts `param` under `code`, in place of what the table held for it.
    pub fn insert(&mut self, code: &str, param: DmsrParam)
        ensures
            final(self)@ == old(self)@.insert(code@, param@),
    {
        proof {
            use_type_invariant(&*self);
        }
        let entry = CodeEntry { code: code.to_owned(), param };
        match self.find(code) {
            Some(i) => {
                proof {
                    lemma_table_update(self.entries@, i as int, entry);
                }
                let mut entries: Vec<CodeEntry> = Vec::new();
                core::mem::swap(&mut self.entries, &mut entries);
                entries.set(i, entry);
                self.entries = entries;
            },
            None => {
                proof {
                    lemma_table_push(self.entries@, entry);
                }
                let mut entries: Vec<CodeEntry> = Vec::new();
                core::mem::swap(&mut self.entries, &mut entries);
                entries.push(entry);
                self.entries = entries;
            },
        }
    }

    /// Notes that the definition of the parameter of `code` was sent. A code
    /// that the table does not hold changes nothing.
    pub fn mark_defined(&mut self, code: &str)
        ensures
            final(self)@ == if old(self)@.dom().contains(code@) {
                old(self)@.insert(code@, old(self)@[code@].once_defined())
            } else {
                old(self)@
            },
    {
        proof {
            use_type_invariant(&*self);
        }
        match self.find(code) {
            Some(i) => {
                let known = &self.entries[i];
                let param = DmsrParam {
                    description: known.param.description.clone(),
                    name: known.param.name.clone(),
                    ptype: known.param.ptype,
                    defined: true,
                    pid: known.param.pid,
                };
                let entry = CodeEntry { code: known.code.clone(), param };
                proof {
                    let j = slot_of(self.entries@, code@);
                    assert(self.entries@[i as int].code@ == code@);
                    lemma_table_update(self.entries@, i as int, entry);
                }
                let mut entries: Vec<CodeEntry> = Vec::new();
                core::mem::swap(&mut self.entries, &mut entries);
                entries.set(i, entry);
                self.entries = entries;
            },
            None => {},
        }
    }

    /// Reads the table from the text of a code file. Empty lines and lines
    /// that start with `#` are skipped; every other line is a record of four
    /// comma-separated fields: code, name, value type, description.
    pub fn parse(text: &str) -> (r: Result<ObisCodes, ConfigError>)
        requires
            text@.len() <= u32::MAX,
        ensures
            match load_codes(text@) {
                Ok(table) => r matches Ok(codes) && codes@ == table,
                Err(e) => r matches Err(err) && err@ == e,
            },
    {
        let all = lines(text);
        let ghost all_texts = texts(all@);
        let mut codes = ObisCodes::new();
        let mut pid: u32 = 0;
        let mut i: usize = 0;
        proof {
            crate::text::lemma_lines_len(text@);
            assert(all_texts.take(0) =~= Seq::<Seq<char>>::empty());
            reveal(Seq::filter);
        }
        while i < all.len()
            invariant
                all_texts == texts(all@),
                all_texts == lines_of(text@),
                all_texts.len() <= u32::MAX,
                i <= all@.len(),
                pid == records_in(all_texts.take(i as int)).len(),
                pid <= i,
                load_records(records_in(all_texts.take(i as int))) == Ok::<
                    Map<Seq<char>, ParamModel>,
                    ConfigErrorModel,
                >(codes@),
            decreases all@.len() - i,
        {
            let line = all[i];
            proof {
                lemma_records_step(all_texts, i as int);
                assert(all_texts[i as int] == line@);
                assert(all_texts.take(i as int + 1) =~= all_texts.take(i as int).push(line@));
            }
            let ghost before = records_in(all_texts.take(i as int));
            if line.unicode_len() > 0 && line.get_char(0) != '#' {
                proof {
                    assert(before.push(line@).drop_last() =~= before);
                }
                let fields = split_on(line, ',');
                proof {
                    assert(texts(fields@).len() == fields@.len());
                }
                if fields.len() != 4 {
                    proof {
                        lemma_load_error_stays(all_texts, i as int + 1);
                        assert(all_texts.take(all_texts.len() as int) =~= all_texts);
                    }
                    return Err(ConfigError::WrongFieldCount { line: line.to_owned() });
                }
                proof {
                    assert(texts(fields@)[0] == fields@[0]@);
                    assert(texts(fields@)[1] == fields@[1]@);
                    assert(texts(fields@)[2] == fields@[2]@);
                    assert(texts(fields@)[3] == fields@[3]@);
                }
                let ptype = match DmsrParamType::from_str(fields[2]) {
                    Ok(t) => t,
                    Err(e) => {
                        proof {
                            lemma_load_error_stays(all_texts, i as int + 1);
                            assert(all_texts.take(all_texts.len() as int) =~= all_texts);
                        }
                        return Err(e);
                    },
                };
                let param = DmsrParam {
                    description: fields[3].to_owned(),
                    name: fields[1].to_owned(),
                    ptype,
                    defined: false,
                    pid,
                };
                codes.insert(fields[0], param);
                pid = pid + 1;
            }
            i = i + 1;
        }
        proof {
            assert(all_texts.take(i as int) =~= all_texts);
        }
        Ok(codes)
    }
}

/// Once the records of a prefix of `lines` fail, those of all lines fail
/// with the same error.
proof fn lemma_load_error_stays(lines: Seq<Seq<char>>, n: int)
    requires
        0 <= n <= lines.len(),
        load_records(records_in(lines.take(n))) is Err,
    ensures
        load_records(records_in(lines.take(lines.len() as int))) == load_records(
            records_in(lines.take(n)),
        ),
    decreases lines.len() - n,
{
    if n < lines.len() {
        lemma_records_step(lines, n);
        let before = records_in(lines.take(n));
        if is_record(lines[n]) {
            assert(before.push(lines[n]).drop_last() =~= before);
        }
        lemma_load_error_stays(lines, n + 1);
    }
}

} // verus!
