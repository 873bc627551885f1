use p1mon::registry::{same_ignoring_case, DmsrParam, DmsrParamType, ObisCodes};
use p1mon::ConfigError;

const TABLE: &str = "# code,name,type,description\n\
0-0:1.0.0,timestamp,string,Telegram time\n\
\n\
1-3:0.2.8,ignore,string,Version\n\
1-0:1.8.1,energy_in_t1,float,Energy delivered tariff 1\n\
1-0:32.7.0,voltage,FLOAT,Voltage\n\
1-0:31.7.0,current,Integer,Current\n";

#[test]
fn type_names_in_any_case() {
    assert_eq!(DmsrParamType::from_str("float"), Ok(DmsrParamType::Float));
    assert_eq!(DmsrParamType::from_str("Float"), Ok(DmsrParamType::Float));
    assert_eq!(DmsrParamType::from_str("INTEGER"), Ok(DmsrParamType::Integer));
    assert_eq!(DmsrParamType::from_str("sTrInG"), Ok(DmsrParamType::String));
}

#[test]
fn unknown_type_name_is_an_error() {
    let e = DmsrParamType::from_str("double").unwrap_err();
    assert_eq!(e, ConfigError::UnknownType { token: "double".to_string() });
    assert_eq!(e.message(), "cannot parse double into a type");
    assert!(DmsrParamType::from_str("").is_err());
    assert!(DmsrParamType::from_str("float ").is_err());
    assert!(DmsrParamType::from_str("floa").is_err());
    assert!(DmsrParamType::from_str("ſtring").is_err());
}

#[test]
fn type_labels() {
    assert_eq!(DmsrParamType::Float.name(), "Float");
    assert_eq!(DmsrParamType::Integer.name(), "Integer");
    assert_eq!(DmsrParamType::String.name(), "String");
}

#[test]
fn case_is_ignored_for_ascii_letters_only() {
    assert!(same_ignoring_case("FlOaT", "float"));
    assert!(same_ignoring_case("float", "FLOAT"));
    assert!(!same_ignoring_case("float", "floa"));
    assert!(!same_ignoring_case("@", "`"));
    assert!(!same_ignoring_case("[", "{"));
    assert!(!same_ignoring_case("Ä", "ä"));
}

#[test]
fn ids_follow_the_order_of_the_records() {
    let codes = ObisCodes::parse(TABLE).unwrap();
    let stamp = codes.get("0-0:1.0.0").unwrap();
    assert_eq!(stamp.pid, 0);
    assert_eq!(stamp.name, "timestamp");
    assert_eq!(stamp.ptype, DmsrParamType::String);
    assert_eq!(stamp.description, "Telegram time");
    assert!(!stamp.defined);
    assert_eq!(codes.get("1-3:0.2.8").unwrap().pid, 1);
    assert_eq!(codes.get("1-0:1.8.1").unwrap().pid, 2);
    let voltage = codes.get("1-0:32.7.0").unwrap();
    assert_eq!(voltage.pid, 3);
    assert_eq!(voltage.ptype, DmsrParamType::Float);
    let current = codes.get("1-0:31.7.0").unwrap();
    assert_eq!(current.pid, 4);
    assert_eq!(current.ptype, DmsrParamType::Integer);
    assert!(codes.get("9-9:9.9.9").is_none());
    assert!(codes.get("# code").is_none());
}

#[test]
fn empty_table() {
    let codes = ObisCodes::parse("").unwrap();
    assert!(codes.get("1-0:32.7.0").is_none());
    let codes = ObisCodes::parse("\n# nothing here\n\n").unwrap();
    assert!(codes.get("").is_none());
}

#[test]
fn last_record_of_a_code_wins() {
    let codes = ObisCodes::parse("a,first,float,one\nb,other,string,two\na,second,integer,three\n").unwrap();
    let a = codes.get("a").unwrap();
    assert_eq!(a.name, "second");
    assert_eq!(a.ptype, DmsrParamType::Integer);
    assert_eq!(a.description, "three");
    assert_eq!(a.pid, 2);
    assert_eq!(codes.get("b").unwrap().pid, 1);
}

#[test]
fn wrong_field_count_is_an_error() {
    let e = ObisCodes::parse("a,b,float\n").unwrap_err();
    assert_eq!(e, ConfigError::WrongFieldCount { line: "a,b,float".to_string() });
    assert_eq!(e.message(), "wrong OBIS code definition 'a,b,float'");
    assert!(ObisCodes::parse("a,b,float,d,e\n").is_err());
    assert!(ObisCodes::parse("just text\n").is_err());
    assert!(ObisCodes::parse(" \n").is_err());
}

#[test]
fn first_wrong_record_gives_the_error() {
    let e = ObisCodes::parse("a,b,float,d\nc,d,double,e\nx,y\n").unwrap_err();
    assert_eq!(e, ConfigError::UnknownType { token: "double".to_string() });
    let e = ObisCodes::parse("x,y\nc,d,double,e\n").unwrap_err();
    assert_eq!(e, ConfigError::WrongFieldCount { line: "x,y".to_string() });
}

#[test]
fn windows_line_endings_in_the_table() {
    let codes = ObisCodes::parse("a,b,float,d\r\n#c\r\n\r\ne,f,string,g").unwrap();
    assert_eq!(codes.get("a").unwrap().description, "d");
    assert_eq!(codes.get("e").unwrap().pid, 1);
    assert_eq!(codes.get("e").unwrap().description, "g");
}

#[test]
fn mark_defined_turns_the_flag_once() {
    let mut codes = ObisCodes::parse(TABLE).unwrap();
    codes.mark_defined("1-0:32.7.0");
    assert!(codes.get("1-0:32.7.0").unwrap().defined);
    assert_eq!(codes.get("1-0:32.7.0").unwrap().pid, 3);
    assert!(!codes.get("1-0:1.8.1").unwrap().defined);
    codes.mark_defined("1-0:32.7.0");
    assert!(codes.get("1-0:32.7.0").unwrap().defined);
    codes.mark_defined("unknown");
    assert!(codes.get("unknown").is_none());
}

#[test]
fn insert_replaces_an_entry() {
    let mut codes = ObisCodes::new();
    let param = |name: &str, pid: u32| DmsrParam {
        description: String::new(),
        name: name.to_string(),
        ptype: DmsrParamType::Float,
        defined: false,
        pid,
    };
    codes.insert("a", param("one", 0));
    codes.insert("b", param("two", 1));
    codes.insert("a", param("three", 2));
    assert_eq!(codes.get("a").unwrap().name, "three");
    assert_eq!(codes.get("b").unwrap().name, "two");
}
