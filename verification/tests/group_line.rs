use p1mon::split_p1_line;

#[test]
fn test_extract_groups() {
    let input = "1-0:32.7.0(235.2*V)(40*A)(Test*T)";
    let expected = vec!["1-0:32.7.0", "235.2*V", "40*A", "Test*T"];
    let result = split_p1_line(input).unwrap();
    assert_eq!(result, expected);
}

#[test]
fn test_extract_groups_err() {
    let input = "1-0:32.7.0";
    let result = split_p1_line(input);
    assert!(result.is_err())
}

#[test]
fn single_group() {
    assert_eq!(split_p1_line("0-0:1.0.0(240506201011S)").unwrap(), vec!["0-0:1.0.0", "240506201011S"]);
}

#[test]
fn empty_code_and_empty_group() {
    assert_eq!(split_p1_line("()").unwrap(), vec!["", ""]);
    assert_eq!(split_p1_line("a()()").unwrap(), vec!["a", "", ""]);
}

#[test]
fn text_between_groups_is_skipped() {
    assert_eq!(split_p1_line("ABC(g1) x (g2)tail").unwrap(), vec!["ABC", "g1", "g2"]);
    assert_eq!(split_p1_line("1-0:1.8.1(000123.456*kWh)\r").unwrap(), vec!["1-0:1.8.1", "000123.456*kWh"]);
}

#[test]
fn open_inside_group_fails() {
    assert!(split_p1_line("a(b(c)").is_err());
    assert!(split_p1_line("a((b))").is_err());
}

#[test]
fn close_outside_group_fails() {
    assert!(split_p1_line("a)b(c)").is_err());
    assert!(split_p1_line("a(b))").is_err());
    assert!(split_p1_line(")").is_err());
}

#[test]
fn unclosed_group_fails() {
    assert!(split_p1_line("a(b").is_err());
    assert!(split_p1_line("a(b)(c").is_err());
    assert!(split_p1_line("(").is_err());
}

#[test]
fn empty_line_fails() {
    assert!(split_p1_line("").is_err());
}

#[test]
fn error_carries_the_line() {
    let e = split_p1_line("1-0:32.7.0").unwrap_err();
    assert_eq!(e.line, "1-0:32.7.0");
    assert_eq!(e.message(), "Invalid string '1-0:32.7.0'");
}

#[test]
fn groups_of_wide_characters() {
    assert_eq!(split_p1_line("tëmp(21°C)(ok)").unwrap(), vec!["tëmp", "21°C", "ok"]);
}

#[test]
fn rendered_line_splits_into_what_was_written() {
    let code = "0-1:24.2.1";
    let groups = ["101209112500W", "12785.123*m3", ""];
    let mut line = String::from(code);
    for g in groups.iter() {
        line.push('(');
        line.push_str(g);
        line.push(')');
    }
    let mut expected = vec![code];
    expected.extend(groups.iter());
    assert_eq!(split_p1_line(&line).unwrap(), expected);
}
