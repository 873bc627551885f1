use p1mon::dispatcher::get_pdef;
use p1mon::framer::{Framer, SerialRead};
use p1mon::message::{EngValue, ParameterData, ParameterDefinition, ParameterValue};
use p1mon::registry::{DmsrParam, DmsrParamType};
use p1mon::timestamp::DateTime;
use p1mon::framer::Refusal;
use p1mon::{
    ConfigError, LineNote, LineOutcome, P1Mon, P1MonState, SerialStep, StreamClosed,
    TelegramOutput,
};

const TABLE: &str = "# code,name,type,description\n\
0-0:1.0.0,timestamp,string,Telegram time\n\
1-3:0.2.8,ignore,string,Version\n\
1-0:1.8.1,energy_in_t1,float,Energy delivered tariff 1\n\
1-0:32.7.0,voltage,float,Voltage\n\
0-0:96.1.1,equipment_id,string,Equipment identifier\n\
1-0:31.7.0,current,integer,Current\n";

fn monitor() -> (P1Mon, P1MonState) {
    (P1Mon::new(TABLE, "p1mon").unwrap(), P1MonState { seq_count: 0 })
}

fn voltage_definition() -> ParameterDefinition {
    ParameterDefinition {
        relative_name: "voltage".to_string(),
        description: "Voltage".to_string(),
        unit: Some("V".to_string()),
        ptype: "Float".to_string(),
        writable: false,
        id: 3,
    }
}

fn note(line: &str, outcome: LineOutcome) -> LineNote {
    LineNote { line: line.to_string(), outcome }
}

fn float(id: u32, text: &str) -> ParameterValue {
    ParameterValue { id, eng_value: EngValue::Float(text.to_string()) }
}

#[test]
fn new_fails_on_a_wrong_table() {
    let e = P1Mon::new("a,b,c\n", "g").unwrap_err();
    assert_eq!(e, ConfigError::WrongFieldCount { line: "a,b,c".to_string() });
    let e = P1Mon::new("a,b,c,d\n", "g").unwrap_err();
    assert_eq!(e, ConfigError::UnknownType { token: "c".to_string() });
}

#[test]
fn new_keeps_group_and_table() {
    let (mon, _) = monitor();
    assert_eq!(mon.parameter_group, "p1mon");
    assert_eq!(mon.obis_codes.get("1-0:32.7.0").unwrap().pid, 3);
}

#[test]
fn definition_of_a_parameter() {
    let param = DmsrParam {
        description: "Voltage".to_string(),
        name: "voltage".to_string(),
        ptype: DmsrParamType::Float,
        defined: false,
        pid: 3,
    };
    assert_eq!(get_pdef(&param, Some("V")), voltage_definition());
    let without = get_pdef(&param, None);
    assert_eq!(without.unit, None);
    assert_eq!(without.ptype, "Float");
    assert!(!without.writable);
}

#[test]
fn first_telegram_defines_and_second_only_sends() {
    let mut mon = P1Mon::new("1-0:32.7.0,voltage,float,Voltage\n", "meter").unwrap();
    let mut state = P1MonState { seq_count: 0 };
    let out = mon.process_p1telegram(&mut state, "1-0:32.7.0(235.2*V)\r\n");
    assert_eq!(out.definitions.len(), 1);
    let def = &out.definitions[0];
    assert_eq!(def.relative_name, "voltage");
    assert_eq!(def.ptype, "Float");
    assert_eq!(def.unit.as_deref(), Some("V"));
    assert_eq!(def.description, "Voltage");
    assert_eq!(def.id, 0);
    let data = out.data.unwrap();
    assert_eq!(data.parameters.len(), 1);
    assert_eq!(data.parameters[0].id, 0);
    match &data.parameters[0].eng_value {
        EngValue::Float(text) => assert_eq!(text.parse::<f32>().unwrap(), 235.2f32),
        other => panic!("not a float: {:?}", other),
    }
    assert_eq!(data.seq_num, 0);
    assert_eq!(data.group, "meter");
    assert_eq!(data.generation_time, None);
    assert_eq!(state.seq_count, 1);

    let out = mon.process_p1telegram(&mut state, "1-0:32.7.0(235.2*V)\r\n");
    assert!(out.definitions.is_empty());
    let data = out.data.unwrap();
    assert_eq!(data.parameters, vec![float(0, "235.2")]);
    assert_eq!(data.seq_num, 1);
    assert_eq!(state.seq_count, 2);
}

#[test]
fn whole_telegram() {
    let (mut mon, mut state) = monitor();
    let body = "\r\n1-3:0.2.8(50)\r\n0-0:1.0.0(240506201011S)\r\n1-0:1.8.1(000123.456*kWh)\r\n\
1-0:32.7.0(235.2*V)\r\n0-0:96.1.1(4530303434303037)\r\n1-0:31.7.0(003*A)\r\n9-9:9.9.9(1)\r\n";
    let out = mon.process_p1telegram(&mut state, body);
    let names: Vec<&str> = out.definitions.iter().map(|d| d.relative_name.as_str()).collect();
    assert_eq!(names, vec!["timestamp", "energy_in_t1", "voltage", "equipment_id", "current"]);
    let ids: Vec<u32> = out.definitions.iter().map(|d| d.id).collect();
    assert_eq!(ids, vec![0, 2, 3, 4, 5]);
    assert_eq!(out.definitions[0].unit, None);
    assert_eq!(out.definitions[0].ptype, "String");
    assert_eq!(out.definitions[1].unit.as_deref(), Some("kWh"));
    assert_eq!(out.definitions[4].ptype, "Integer");
    assert_eq!(
        out.data,
        Some(ParameterData {
            parameters: vec![
                float(2, "000123.456"),
                float(3, "235.2"),
                ParameterValue { id: 4, eng_value: EngValue::Text("4530303434303037".to_string()) },
                ParameterValue { id: 5, eng_value: EngValue::Integer(3) },
            ],
            group: "p1mon".to_string(),
            seq_num: 0,
            generation_time: Some(DateTime { year: 2024, month: 5, day: 6, hour: 20, minute: 10, second: 11 }),
        })
    );
    assert_eq!(state.seq_count, 1);
    assert!(mon.obis_codes.get("1-0:32.7.0").unwrap().defined);
    assert!(mon.obis_codes.get("0-0:1.0.0").unwrap().defined);
    assert!(!mon.obis_codes.get("1-3:0.2.8").unwrap().defined);
}

#[test]
fn definition_is_sent_once_over_many_telegrams() {
    let (mut mon, mut state) = monitor();
    let mut sent = 0;
    for _ in 0..5 {
        let out = mon.process_p1telegram(&mut state, "1-0:32.7.0(235.2*V)\r\n1-0:32.7.0(236.0*V)\r\n");
        sent += out.definitions.iter().filter(|d| d.id == 3).count();
        assert_eq!(out.data.unwrap().parameters.len(), 2);
    }
    assert_eq!(sent, 1);
}

#[test]
fn definition_is_sent_once_within_one_telegram() {
    let (mut mon, mut state) = monitor();
    let out = mon.process_p1telegram(&mut state, "1-0:32.7.0(235.2*V)\n1-0:32.7.0(236.0*mV)\n");
    assert_eq!(out.definitions, vec![voltage_definition()]);
}

#[test]
fn sequence_numbers_grow_with_batches_only() {
    let (mut mon, mut state) = monitor();
    state.seq_count = 41;
    let out = mon.process_p1telegram(&mut state, "1-0:32.7.0(235.2*V)\r\n");
    assert_eq!(out.data.unwrap().seq_num, 41);
    assert_eq!(state.seq_count, 42);
    let out = mon.process_p1telegram(&mut state, "9-9:9.9.9(1)\r\nrubbish\r\n");
    assert_eq!(
        out,
        TelegramOutput {
            definitions: vec![],
            data: None,
            notes: vec![
                note("9-9:9.9.9(1)", LineOutcome::UnknownCode),
                note("rubbish", LineOutcome::Malformed),
            ],
        }
    );
    assert_eq!(state.seq_count, 42);
    let out = mon.process_p1telegram(&mut state, "");
    assert_eq!(out, TelegramOutput { definitions: vec![], data: None, notes: vec![] });
    assert_eq!(state.seq_count, 42);
    let out = mon.process_p1telegram(&mut state, "1-0:32.7.0(1*V)\r\n");
    assert_eq!(out.data.unwrap().seq_num, 42);
    assert_eq!(state.seq_count, 43);
}

#[test]
fn ignored_code_gives_nothing() {
    let (mut mon, mut state) = monitor();
    let out = mon.process_p1telegram(&mut state, "1-3:0.2.8(50)\r\n1-3:0.2.8(anything*at*all)(x)\r\n");
    assert_eq!(out, TelegramOutput { definitions: vec![], data: None, notes: vec![] });
    assert_eq!(state.seq_count, 0);
    assert!(!mon.obis_codes.get("1-3:0.2.8").unwrap().defined);
}

#[test]
fn value_that_cannot_be_read_is_dropped_but_defines() {
    let (mut mon, mut state) = monitor();
    let out = mon.process_p1telegram(&mut state, "1-0:32.7.0(high*V)\r\n1-0:31.7.0(3.5*A)\r\n");
    assert_eq!(out.definitions.len(), 2);
    assert_eq!(out.definitions[0], voltage_definition());
    assert_eq!(out.data, None);
    assert_eq!(state.seq_count, 0);
    let out = mon.process_p1telegram(&mut state, "1-0:32.7.0(high*V)\r\n1-0:31.7.0(4*A)\r\n");
    assert!(out.definitions.is_empty());
    assert_eq!(
        out.data.unwrap().parameters,
        vec![ParameterValue { id: 5, eng_value: EngValue::Integer(4) }]
    );
}

#[test]
fn bad_lines_do_not_stop_the_telegram() {
    let (mut mon, mut state) = monitor();
    let out = mon.process_p1telegram(
        &mut state,
        "1-0:32.7.0(235.2*V\r\n\r\n)(\r\n1-0:32.7.0\r\n1-0:31.7.0(7*A)\r\n",
    );
    assert_eq!(out.definitions.len(), 1);
    assert_eq!(out.definitions[0].relative_name, "current");
    assert_eq!(
        out.data.unwrap().parameters,
        vec![ParameterValue { id: 5, eng_value: EngValue::Integer(7) }]
    );
}

#[test]
fn timestamp_alone_gives_no_batch() {
    let (mut mon, mut state) = monitor();
    let out = mon.process_p1telegram(&mut state, "0-0:1.0.0(240506201011S)\r\n");
    assert_eq!(out.definitions.len(), 1);
    assert_eq!(out.definitions[0].relative_name, "timestamp");
    assert_eq!(out.data, None);
    assert_eq!(state.seq_count, 0);
}

#[test]
fn last_timestamp_line_wins() {
    let (mut mon, mut state) = monitor();
    let out = mon.process_p1telegram(
        &mut state,
        "0-0:1.0.0(240506201011S)\r\n1-0:32.7.0(235.2*V)\r\n0-0:1.0.0(240506201012S)\r\n",
    );
    assert_eq!(
        out.data.unwrap().generation_time,
        Some(DateTime { year: 2024, month: 5, day: 6, hour: 20, minute: 10, second: 12 })
    );
    let out = mon.process_p1telegram(
        &mut state,
        "0-0:1.0.0(240506201011S)\r\n1-0:32.7.0(235.2*V)\r\n0-0:1.0.0(never)\r\n",
    );
    assert_eq!(out.data.unwrap().generation_time, None);
}

#[test]
fn timestamp_does_not_carry_over() {
    let (mut mon, mut state) = monitor();
    mon.process_p1telegram(&mut state, "0-0:1.0.0(240506201011S)\r\n1-0:32.7.0(235.2*V)\r\n");
    let out = mon.process_p1telegram(&mut state, "1-0:32.7.0(235.2*V)\r\n");
    assert_eq!(out.data.unwrap().generation_time, None);
}

#[test]
fn only_the_first_group_is_read() {
    let (mut mon, mut state) = monitor();
    let out = mon.process_p1telegram(&mut state, "1-0:31.7.0(5*A)(6*B)\r\n");
    assert_eq!(out.definitions[0].unit.as_deref(), Some("A"));
    assert_eq!(
        out.data.unwrap().parameters,
        vec![ParameterValue { id: 5, eng_value: EngValue::Integer(5) }]
    );
}

fn feed(mon: &mut P1Mon, state: &mut P1MonState, framer: &mut Framer, text: &str)
    -> Result<SerialStep, StreamClosed> {
    mon.process_serial_data(state, framer, SerialRead::Line(text.to_string()))
}

#[test]
fn serial_lines_to_batches() {
    let (mut mon, mut state) = monitor();
    let mut framer = Framer::new();
    let frame = "/ISK5\\2M550T-1012\r\n\r\n1-0:32.7.0(235.2*V)\r\n";
    let crc = crc16::State::<crc16::ARC>::calculate(format!("{}!", frame).as_bytes());
    assert_eq!(feed(&mut mon, &mut state, &mut framer, "garbage\r\n"), Ok(SerialStep::Idle));
    assert_eq!(feed(&mut mon, &mut state, &mut framer, "/ISK5\\2M550T-1012\r\n"), Ok(SerialStep::Idle));
    assert_eq!(feed(&mut mon, &mut state, &mut framer, "\r\n"), Ok(SerialStep::Idle));
    assert_eq!(feed(&mut mon, &mut state, &mut framer, "1-0:32.7.0(235.2*V)\r\n"), Ok(SerialStep::Idle));
    let out = match feed(&mut mon, &mut state, &mut framer, &format!("!{:04X}\r\n", crc)) {
        Ok(SerialStep::Telegram(out)) => out,
        other => panic!("no telegram: {:?}", other),
    };
    assert_eq!(out.notes, vec![note("ISK5\\2M550T-1012", LineOutcome::Malformed)]);
    assert_eq!(out.definitions, vec![voltage_definition()]);
    assert_eq!(out.data.unwrap().parameters, vec![float(3, "235.2")]);
    assert_eq!(state.seq_count, 1);
    assert_eq!(framer, Framer::new());
}

#[test]
fn serial_telegram_with_wrong_checksum_changes_nothing() {
    let (mut mon, mut state) = monitor();
    let mut framer = Framer::new();
    let crc = crc16::State::<crc16::ARC>::calculate(b"/X\r\n1-0:32.7.0(235.2*V)\r\n!");
    feed(&mut mon, &mut state, &mut framer, "/X\r\n").unwrap();
    feed(&mut mon, &mut state, &mut framer, "1-0:32.7.0(235.3*V)\r\n").unwrap();
    assert_eq!(
        feed(&mut mon, &mut state, &mut framer, &format!("!{:04X}\r\n", crc)),
        Ok(SerialStep::Refused(Refusal::ChecksumMismatch))
    );
    assert_eq!(state.seq_count, 0);
    assert!(!mon.obis_codes.get("1-0:32.7.0").unwrap().defined);
}

#[test]
fn serial_stream_closed_is_an_error() {
    let (mut mon, mut state) = monitor();
    let mut framer = Framer::new();
    feed(&mut mon, &mut state, &mut framer, "/X\r\n").unwrap();
    let e = feed(&mut mon, &mut state, &mut framer, "").unwrap_err();
    assert_eq!(e, StreamClosed);
    assert_eq!(e.message(), "While reading from serial port");
    assert_eq!(
        mon.process_serial_data(&mut state, &mut framer, SerialRead::Failed),
        Ok(SerialStep::Idle)
    );
}

#[test]
fn start_line_is_part_of_the_body() {
    let mut mon = P1Mon::new("A,v,integer,d\n", "g").unwrap();
    let mut state = P1MonState { seq_count: 0 };
    let mut framer = Framer::new();
    assert_eq!(feed(&mut mon, &mut state, &mut framer, "/A(1)\n"), Ok(SerialStep::Idle));
    let out = match feed(&mut mon, &mut state, &mut framer, "!59A8\n") {
        Ok(SerialStep::Telegram(out)) => out,
        other => panic!("no telegram: {:?}", other),
    };
    assert_eq!(out.definitions.len(), 1);
    assert_eq!(
        out.data,
        Some(ParameterData {
            parameters: vec![ParameterValue { id: 0, eng_value: EngValue::Integer(1) }],
            group: "g".to_string(),
            seq_num: 0,
            generation_time: None,
        })
    );
    assert!(out.notes.is_empty());
    assert_eq!(state.seq_count, 1);
    assert_eq!(feed(&mut mon, &mut state, &mut framer, ""), Err(StreamClosed));
}

#[test]
fn end_line_without_checksum_is_refused() {
    let (mut mon, mut state) = monitor();
    let mut framer = Framer::new();
    feed(&mut mon, &mut state, &mut framer, "/X\r\n").unwrap();
    assert_eq!(
        feed(&mut mon, &mut state, &mut framer, "!12\r\n"),
        Ok(SerialStep::Refused(Refusal::NoChecksum))
    );
    assert_eq!(framer, Framer::new());
}

#[test]
fn outcome_of_each_kind_of_line() {
    let (mon, _) = monitor();
    assert_eq!(mon.line_outcome(""), LineOutcome::Blank);
    assert_eq!(mon.line_outcome("ISK5\\2M550T-1012"), LineOutcome::Malformed);
    assert_eq!(mon.line_outcome("1-0:32.7.0(235.2*V"), LineOutcome::Malformed);
    assert_eq!(mon.line_outcome("9-9:9.9.9(1)"), LineOutcome::UnknownCode);
    assert_eq!(mon.line_outcome("1-3:0.2.8(50)"), LineOutcome::Ignored);
    assert_eq!(mon.line_outcome("0-0:1.0.0(240506201011S)"), LineOutcome::TimestampRead);
    assert_eq!(mon.line_outcome("0-0:1.0.0(yesterday)"), LineOutcome::TimestampUnreadable);
    assert_eq!(mon.line_outcome("1-0:32.7.0(235.2*V)"), LineOutcome::ValueRead);
    assert_eq!(mon.line_outcome("1-0:32.7.0(high*V)"), LineOutcome::ValueUnreadable);
    assert_eq!(mon.line_outcome("1-0:31.7.0(3.5*A)"), LineOutcome::ValueUnreadable);
    assert_eq!(mon.line_outcome("0-0:96.1.1()"), LineOutcome::ValueRead);
    assert!(!mon.obis_codes.get("1-0:32.7.0").unwrap().defined);
}

#[test]
fn noteworthy_outcomes() {
    assert!(LineOutcome::Malformed.is_noteworthy());
    assert!(LineOutcome::UnknownCode.is_noteworthy());
    assert!(LineOutcome::TimestampUnreadable.is_noteworthy());
    assert!(LineOutcome::ValueUnreadable.is_noteworthy());
    assert!(!LineOutcome::Blank.is_noteworthy());
    assert!(!LineOutcome::Ignored.is_noteworthy());
    assert!(!LineOutcome::TimestampRead.is_noteworthy());
    assert!(!LineOutcome::ValueRead.is_noteworthy());
}

#[test]
fn notes_follow_the_lines() {
    let (mut mon, mut state) = monitor();
    let out = mon.process_p1telegram(
        &mut state,
        "KFM5\r\n\r\n1-3:0.2.8(50)\r\n0-0:1.0.0(soon)\r\n1-0:32.7.0(235.2*V)\r\n\
1-0:31.7.0(x*A)\r\n7-7:7.7.7(1)\r\n1-0:32.7.0(235.2*V\r\n",
    );
    assert_eq!(
        out.notes,
        vec![
            note("KFM5", LineOutcome::Malformed),
            note("0-0:1.0.0(soon)", LineOutcome::TimestampUnreadable),
            note("1-0:31.7.0(x*A)", LineOutcome::ValueUnreadable),
            note("7-7:7.7.7(1)", LineOutcome::UnknownCode),
            note("1-0:32.7.0(235.2*V", LineOutcome::Malformed),
        ]
    );
    assert_eq!(out.data.unwrap().parameters, vec![float(3, "235.2")]);
}
