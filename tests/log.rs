use pts_bot::log::{
    final_verdict, kind_name, message_event, parse_log_message, parse_time, Event, EventKind,
    StepMismatch, StepStack, TimerEvent,
};
use pts_bot::pts::{LogType, MMIStyle, Message};
use pts_bot::ttcn::TTCNValue;

fn event(t: LogType, m: &str) -> Event {
    parse_log_message(t, m.to_owned())
}

#[test]
fn log_enter_step() {
    let e = event(LogType::Attach, "  : 12 Enter Test Step CONNECT  ");
    assert_eq!(e.kind, EventKind::EnterStep);
    assert_eq!(e.number.as_deref(), Some("12"));
    assert_eq!(e.name, "CONNECT");
    assert_eq!(e.values, Some(vec![]));
}

#[test]
fn log_enter_step_with_arguments() {
    let e = event(LogType::Attach, "A: 3 Enter Test Step SETUP ( 1, x )");
    assert_eq!(e.kind, EventKind::EnterStep);
    assert_eq!(e.number.as_deref(), Some("3"));
    assert_eq!(e.name, "SETUP");
    assert_eq!(
        e.values,
        Some(vec![
            TTCNValue::Integer("1".to_owned()),
            TTCNValue::Identifier("x".to_owned())
        ])
    );
}

#[test]
fn log_exit_step() {
    let e = event(LogType::Attach, ": 3 Exit  Test Step  SETUP");
    assert_eq!(e.kind, EventKind::ExitStep);
    assert_eq!(e.number.as_deref(), Some("3"));
    assert_eq!(e.name, "SETUP");
    assert_eq!(e.values, None);
}

#[test]
fn log_unreadable_step_is_error() {
    let e = event(LogType::Attach, ": 3 Leave Test Step SETUP");
    assert_eq!(e.kind, EventKind::Error);
    assert_eq!(e.name, ": 3 Leave Test Step SETUP");
}

#[test]
fn log_send_with_pdu() {
    let e = event(LogType::SendEvent, "L2CAP=PDU:{ psm:1 }");
    assert_eq!(e.kind, EventKind::Send);
    assert_eq!(e.name, "L2CAP");
    assert_eq!(
        e.values,
        Some(vec![TTCNValue::Record(vec![(
            "psm".to_owned(),
            TTCNValue::Integer("1".to_owned())
        )])])
    );
}

#[test]
fn log_receive_without_pdu_collapses_spaces() {
    let e = event(LogType::ReceiveEvent, "  got \t a\n  signal ");
    assert_eq!(e.kind, EventKind::Receive);
    assert_eq!(e.name, "got a signal");
    assert_eq!(e.values, None);
}

#[test]
fn log_assignment() {
    let e = event(LogType::Assignment, "count:= 5");
    assert_eq!(e.kind, EventKind::Assign);
    assert_eq!(e.name, "count");
    assert_eq!(e.values, Some(vec![TTCNValue::Integer("5".to_owned())]));
    let e = event(LogType::Assignment, "no assignment");
    assert_eq!((e.kind, e.name.as_str()), (EventKind::Ignored, "no assignment"));
    let e = event(LogType::SendEvent, "X=PDU:{a:1} trailing");
    assert_eq!((e.kind, e.name.as_str()), (EventKind::Ignored, "X=PDU:{a:1} trailing"));
}

#[test]
fn log_verdicts() {
    let e = event(LogType::FinalVerdict, "VERDICT/PASS");
    assert_eq!((e.kind, e.name.as_str()), (EventKind::FinalVerdict, "PASS"));
    let e = event(LogType::FinalVerdict, "OUTPUT/hello");
    assert_eq!((e.kind, e.name.as_str()), (EventKind::Log, "hello"));
    let e = event(LogType::FinalVerdict, "pass");
    assert_eq!((e.kind, e.name.as_str()), (EventKind::Verdict, "pass"));
    let e = event(LogType::PreliminaryVerdict, "inconc");
    assert_eq!((e.kind, e.name.as_str()), (EventKind::Verdict, "inconc"));
}

#[test]
fn log_simple_kinds() {
    assert_eq!(event(LogType::GeneralText, " hi ").name, "hi");
    assert_eq!(event(LogType::StartTestCase, "t").kind, EventKind::TestStart);
    assert_eq!(event(LogType::TestCaseEnded, "t").kind, EventKind::TestEnd);
    assert_eq!(event(LogType::MatchFailed, "t").kind, EventKind::MatchFailed);
    assert_eq!(event(LogType::StartTimer, "t").kind, EventKind::Timer(TimerEvent::Start));
    assert_eq!(event(LogType::StopTimer, "t").kind, EventKind::Timer(TimerEvent::Stop));
    assert_eq!(event(LogType::CancelTimer, "t").kind, EventKind::Timer(TimerEvent::Cancel));
    assert_eq!(event(LogType::ReadTimer, "t").kind, EventKind::Timer(TimerEvent::Read));
    assert_eq!(event(LogType::Timeout, "t").kind, EventKind::Timer(TimerEvent::Timeout));
    assert_eq!(event(LogType::TimedOutTimer, "t").kind, EventKind::Timer(TimerEvent::Timeout));
    assert_eq!(event(LogType::ImplicitSend, "t").kind, EventKind::ManMachineInterface);
}

#[test]
fn log_other_kinds_are_ignored() {
    let e = event(LogType::Goto, " label ");
    assert_eq!(e.kind, EventKind::Ignored);
    assert_eq!(e.name, "Goto label");
}

#[test]
fn log_time() {
    assert_eq!(parse_time(" +1234 ms "), Some(1234));
    assert_eq!(parse_time(""), None);
    assert_eq!(parse_time("1234 ms"), None);
    assert_eq!(parse_time("+99999999999 ms"), None);
}

#[test]
fn log_message_events() {
    let log = Message::Log {
        time: "+5 ms".to_owned(),
        description: String::new(),
        message: "VERDICT/FAIL".to_owned(),
        logtype: LogType::FinalVerdict,
    };
    let e = message_event(&log).unwrap();
    assert_eq!((e.kind, e.time, e.name.as_str()), (EventKind::FinalVerdict, Some(5), "FAIL"));
    let prompt = Message::ImplicitSend {
        description: "{1,T,P}Do".to_owned(),
        style: MMIStyle::OkCancel1,
    };
    let e = message_event(&prompt).unwrap();
    assert_eq!((e.kind, e.name.as_str()), (EventKind::ManMachineInterface, "{1,T,P}Do"));
    assert!(message_event(&Message::Raw("x".to_owned())).is_none());
}

#[test]
fn log_type_codes() {
    assert_eq!(LogType::from_code(0), Some(LogType::GeneralText));
    assert_eq!(LogType::from_code(29), Some(LogType::CoordinationMessage));
    assert_eq!(LogType::from_code(30), None);
    assert_eq!(LogType::Attach.name(), "Attach");
    assert_eq!(MMIStyle::from_code(0x11040), Some(MMIStyle::OkOnly));
    assert_eq!(MMIStyle::from_code(0x12140), Some(MMIStyle::Edit2));
    assert_eq!(MMIStyle::from_code(0), None);
    assert_eq!(kind_name(&EventKind::ManMachineInterface), "MMI");
    assert_eq!(kind_name(&EventKind::Timer(TimerEvent::Read)), "Timer");
}

#[test]
fn log_steps_balance() {
    let events = vec![
        event(LogType::Attach, ": 1 Enter Test Step A"),
        event(LogType::Attach, ": 2 Enter Test Step B"),
        event(LogType::GeneralText, "inside"),
        event(LogType::Attach, ": 2 Exit  Test Step  B"),
        event(LogType::Attach, ": 1 Exit  Test Step  A"),
    ];
    let mut stack = StepStack::new();
    let mut depths = vec![];
    for e in &events {
        assert_eq!(stack.apply(e), Ok(()));
        depths.push(stack.depth());
    }
    assert_eq!(depths, vec![1, 2, 2, 1, 0]);
    assert_eq!(stack.innermost(), None);
}

#[test]
fn log_step_mismatch() {
    let mut stack = StepStack::new();
    assert_eq!(stack.apply(&event(LogType::Attach, ": 1 Enter Test Step A")), Ok(()));
    assert_eq!(
        stack.apply(&event(LogType::Attach, ": 1 Exit  Test Step  B")),
        Err(StepMismatch)
    );
    assert_eq!(stack.innermost().map(|s| s.as_str()), Some("A"));
}

#[test]
fn log_final_verdict_is_the_last() {
    let events = vec![
        event(LogType::FinalVerdict, "VERDICT/FAIL"),
        event(LogType::GeneralText, "x"),
        event(LogType::FinalVerdict, "VERDICT/PASS"),
        event(LogType::GeneralText, "y"),
    ];
    assert_eq!(final_verdict(&events), Some("PASS".to_owned()));
    assert_eq!(final_verdict(&vec![]), None);
}
