use p1mon::framer::{FrameStep, Framer, ParserState, Refusal, SerialRead};

fn end_line(frame: &str) -> String {
    format!("!{:04X}\r\n", crc16::State::<crc16::ARC>::calculate(frame.as_bytes()))
}

fn line(text: &str) -> SerialRead {
    SerialRead::Line(text.to_string())
}

#[test]
fn new_framer_waits_for_a_start() {
    let f = Framer::new();
    assert_eq!(f.state, ParserState::LookForStart);
    assert_eq!(f.head, "");
    assert_eq!(f.body, "");
}

#[test]
fn lines_before_a_start_are_dropped() {
    let mut f = Framer::new();
    assert_eq!(f.push(line("1-0:32.7.0(235.2*V)\r\n")), FrameStep::Idle);
    assert_eq!(f.state, ParserState::LookForStart);
    assert_eq!(f.body, "");
    assert_eq!(f.push(line("!1234\r\n")), FrameStep::Idle);
    assert_eq!(f.state, ParserState::LookForStart);
}

#[test]
fn body_runs_from_the_slash_to_the_bang() {
    let mut f = Framer::new();
    assert_eq!(f.push(line("/A(1)\n")), FrameStep::Idle);
    assert_eq!(f.push(line("!59A8\n")), FrameStep::Telegram("A(1)\n".to_string()));
    assert_eq!(f, Framer::new());
}

#[test]
fn telegram_with_good_checksum_is_handed_out() {
    let mut f = Framer::new();
    assert_eq!(f.push(line("/ISK5\\2M550T-1012\r\n")), FrameStep::Idle);
    assert_eq!(f.state, ParserState::LookForEnd);
    assert_eq!(f.head, "/ISK5\\2M550T-1012\r\n");
    assert_eq!(f.push(line("\r\n")), FrameStep::Idle);
    assert_eq!(f.push(line("1-0:32.7.0(235.2*V)\r\n")), FrameStep::Idle);
    assert_eq!(f.body, "\r\n1-0:32.7.0(235.2*V)\r\n");
    let end = end_line("/ISK5\\2M550T-1012\r\n\r\n1-0:32.7.0(235.2*V)\r\n!");
    assert_eq!(
        f.push(line(&end)),
        FrameStep::Telegram("ISK5\\2M550T-1012\r\n\r\n1-0:32.7.0(235.2*V)\r\n".to_string())
    );
    assert_eq!(f, Framer::new());
}

#[test]
fn telegram_with_lower_case_checksum() {
    let mut f = Framer::new();
    f.push(line("/X\r\n"));
    f.push(line("a(1)\r\n"));
    let end = end_line("/X\r\na(1)\r\n!").to_lowercase();
    assert_eq!(f.push(line(&end)), FrameStep::Telegram("X\r\na(1)\r\n".to_string()));
}

#[test]
fn telegram_with_wrong_checksum_is_dropped() {
    let mut f = Framer::new();
    f.push(line("/X\r\n"));
    f.push(line("a(1)\r\n"));
    let crc = crc16::State::<crc16::ARC>::calculate(b"/X\r\na(1)\r\n!");
    let end = format!("!{:04X}\r\n", crc ^ 0x0100);
    assert_eq!(f.push(line(&end)), FrameStep::Refused(Refusal::ChecksumMismatch));
    assert_eq!(f, Framer::new());
}

#[test]
fn flipped_bit_in_the_body_is_dropped() {
    let end = end_line("/X\r\na(1)\r\n!");
    let mut f = Framer::new();
    f.push(line("/X\r\n"));
    f.push(line("a(3)\r\n"));
    assert_eq!(f.push(line(&end)), FrameStep::Refused(Refusal::ChecksumMismatch));
    assert_eq!(f.state, ParserState::LookForStart);
}

#[test]
fn end_line_without_checksum_resets() {
    for end in ["!\r\n", "!12\r\n", "!12G4\r\n", "!+123\r\n", "!"] {
        let mut f = Framer::new();
        f.push(line("/X\r\n"));
        f.push(line("a(1)\r\n"));
        assert_eq!(f.refusal(end), Some(Refusal::NoChecksum));
        assert_eq!(f.push(line(end)), FrameStep::Refused(Refusal::NoChecksum));
        assert_eq!(f, Framer::new());
    }
}

#[test]
fn failed_read_drops_what_was_kept() {
    let mut f = Framer::new();
    f.push(line("/X\r\n"));
    f.push(line("a(1)\r\n"));
    assert_eq!(f.push(SerialRead::Failed), FrameStep::Idle);
    assert_eq!(f, Framer::new());
    let end = end_line("/X\r\na(1)\r\n!");
    assert_eq!(f.push(line(&end)), FrameStep::Idle);
}

#[test]
fn read_without_bytes_closes_the_session() {
    let mut f = Framer::new();
    assert_eq!(f.push(line("")), FrameStep::Closed);
    f.push(line("/X\r\n"));
    assert_eq!(f.push(line("")), FrameStep::Closed);
    assert_eq!(f, Framer::new());
}

#[test]
fn second_start_line_is_kept_as_body() {
    let mut f = Framer::new();
    f.push(line("/X\r\n"));
    f.push(line("/Y\r\n"));
    assert_eq!(f.head, "/X\r\n");
    assert_eq!(f.body, "/Y\r\n");
    let end = end_line("/X\r\n/Y\r\n!");
    assert_eq!(f.push(line(&end)), FrameStep::Telegram("X\r\n/Y\r\n".to_string()));
}

#[test]
fn two_telegrams_in_a_row() {
    let mut f = Framer::new();
    f.push(line("/X\r\n"));
    f.push(line("a(1)\r\n"));
    assert_eq!(f.push(line(&end_line("/X\r\na(1)\r\n!"))), FrameStep::Telegram("X\r\na(1)\r\n".to_string()));
    f.push(line("noise\r\n"));
    f.push(line("/X\r\n"));
    f.push(line("a(2)\r\n"));
    assert_eq!(f.push(line(&end_line("/X\r\na(2)\r\n!"))), FrameStep::Telegram("X\r\na(2)\r\n".to_string()));
}

#[test]
fn checksum_covers_the_bytes_of_wide_characters() {
    let mut f = Framer::new();
    f.push(line("/X\r\n"));
    f.push(line("a(21°C)\r\n"));
    let end = end_line("/X\r\na(21°C)\r\n!");
    assert_eq!(f.push(line(&end)), FrameStep::Telegram("X\r\na(21°C)\r\n".to_string()));
}

#[test]
fn start_line_of_one_character() {
    let mut f = Framer::new();
    f.push(line("/"));
    f.push(line("a(1)\n"));
    let end = end_line("/a(1)\n!");
    assert_eq!(f.refusal(&end), None);
    assert_eq!(f.push(line(&end)), FrameStep::Telegram("a(1)\n".to_string()));
}

#[test]
fn refusal_says_why() {
    let mut f = Framer::new();
    f.push(line("/X\r\n"));
    f.push(line("a(1)\r\n"));
    let good = end_line("/X\r\na(1)\r\n!");
    assert_eq!(f.refusal(&good), None);
    assert_eq!(f.refusal("!0000\r\n"), Some(Refusal::ChecksumMismatch));
    assert_eq!(f.refusal("!zzzz\r\n"), Some(Refusal::NoChecksum));
    assert_eq!(f.refusal("0000"), Some(Refusal::NoChecksum));
    assert_eq!(f.state, ParserState::LookForEnd);
}
