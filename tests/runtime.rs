use pts_bot::hci::{ConnectWait, ReadAction, ReadOutcome};
use pts_bot::log::{parse_log_message, EventKind};
use pts_bot::pts::LogType;
use pts_bot::logger::{event_line, kind_field, step_field, time_field};
use pts_bot::wine::{decimal, first_available_com_port, is_extract_dir_name, WineArch};

#[test]
fn hci_waits_for_first_connection_then_ends() {
    let mut policy = ConnectWait::new();
    assert_eq!(policy.on_read(ReadOutcome::NotConnected), ReadAction::WaitReadable);
    assert_eq!(policy.on_read(ReadOutcome::NotConnected), ReadAction::WaitReadable);
    assert_eq!(policy.on_read(ReadOutcome::Data(4)), ReadAction::Deliver(4));
    assert_eq!(policy.on_read(ReadOutcome::NotConnected), ReadAction::EndOfStream);
    assert_eq!(policy.on_read(ReadOutcome::Failed), ReadAction::Fail);
}

#[test]
fn whitespace_matches_std() {
    for c in (0..=0x10ffffu32).filter_map(char::from_u32) {
        assert_eq!(pts_bot::text::char_is_whitespace(c), c.is_whitespace(), "{:?}", c);
    }
    let ws: String = (0..=0x10ffffu32).filter_map(char::from_u32).filter(|c| c.is_whitespace()).collect();
    let parts = pts_bot::mmi::parse(&format!("{{1,{}T{},P}}", ws, ws)).unwrap();
    assert_eq!(parts.1, "T");
}

#[test]
fn com_ports_take_the_lowest_free_number() {
    let devices = vec!["c:".to_owned(), "com1".to_owned(), "com2".to_owned(), "com4".to_owned()];
    assert_eq!(first_available_com_port(&devices), Some("com3".to_owned()));
    assert_eq!(first_available_com_port(&vec![]), Some("com1".to_owned()));
    let all: Vec<String> = (1..=255).map(|n| format!("com{}", n)).collect();
    assert_eq!(first_available_com_port(&all), None);
    assert_eq!(decimal(0), "0");
    assert_eq!(decimal(255), "255");
    assert_eq!(decimal(4294967295), "4294967295");
}

#[test]
fn runtime_names() {
    assert_eq!(WineArch::Win32.as_str(), "win32");
    assert_eq!(WineArch::Win64.as_str(), "win64");
    assert!(is_extract_dir_name("0A1B2C3"));
    assert!(!is_extract_dir_name("0a1b2c3"));
    assert!(!is_extract_dir_name("0A1B2C"));
    assert!(!is_extract_dir_name("0A1B2C3D"));
}

#[test]
fn log_line_fields() {
    assert_eq!(time_field(Some(42)), "000042ms");
    assert_eq!(time_field(Some(12345678)), "12345678ms");
    assert_eq!(time_field(None), "        ");
    assert_eq!(step_field("SETUP"), format!("{:>20}", "SETUP"));
    assert_eq!(step_field("A_VERY_LONG_TEST_STEP_NAME"), "_LONG_TEST_STEP_NAME");
    assert_eq!(kind_field(&EventKind::Send, true), format!("{:^10}", "Send"));
    assert_eq!(kind_field(&EventKind::EnterStep, true), "Enter Step");
    assert_eq!(kind_field(&EventKind::ManMachineInterface, true), "   MMI    ");
    assert_eq!(kind_field(&EventKind::Log, false), "          ");
}

fn plain_style() -> pts_bot::logger::LineStyle {
    pts_bot::logger::LineStyle {
        faint: String::new(),
        bold: String::new(),
        reset: String::new(),
        step: String::new(),
        no_step: String::new(),
        kind: String::new(),
        prompt: String::new(),
        values: pts_bot::ttcn::Palette {
            identifier: String::new(),
            integer: String::new(),
            bitstring: String::new(),
            hexstring: String::new(),
            octetstring: String::new(),
            charstring: String::new(),
            bold: String::new(),
            reset: String::new(),
        },
    }
}

fn head(time: &str, step: &str, tag: &str) -> String {
    format!("{:8} {:>20}  {:^10}  ", time, step, tag)
}

#[test]
fn log_lines_of_events() {
    let st = plain_style();

    let e = parse_log_message(LogType::GeneralText, "hello\nworld".to_owned());
    assert_eq!(
        event_line(&e, "S", &st),
        format!("{}hello\n{}world\n", head("", "S", "Log"), head("", "", ""))
    );

    let mut e = parse_log_message(LogType::Assignment, "x:= 5".to_owned());
    e.time = Some(5);
    assert_eq!(event_line(&e, "", &st), format!("{}x := 5\n", head("000005ms", "", "Assign")));

    let e = parse_log_message(LogType::Attach, ": 1 Enter Test Step STEP ( 1, x )".to_owned());
    assert_eq!(event_line(&e, "STEP", &st), format!("{}STEP(1, x)\n", head("", "STEP", "Enter Step")));

    let e = parse_log_message(LogType::StartTimer, "T1".to_owned());
    assert_eq!(event_line(&e, "", &st), format!("{}Start T1\n", head("", "", "Timer")));

    let e = parse_log_message(LogType::FinalVerdict, "VERDICT/PASS".to_owned());
    assert_eq!(event_line(&e, "", &st), format!("{}PASS (final)\n", head("", "", "Verdict")));
}
