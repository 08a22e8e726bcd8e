use pts_bot::bd_addr::BdAddr;
use pts_bot::pts::{LogType, MMIStyle, Message};
use pts_bot::session::{RunError, Session};

fn prompt(d: &str) -> Message {
    Message::ImplicitSend { description: d.to_owned(), style: MMIStyle::OkCancel1 }
}

fn log() -> Message {
    Message::Log {
        time: String::new(),
        description: String::new(),
        message: "x".to_owned(),
        logtype: LogType::GeneralText,
    }
}

#[test]
fn session_answers_each_prompt_once_in_order() {
    let addr = BdAddr::new([1, 2, 3, 4, 5, 6]);
    let mut s = Session::new("A2DP/SRC/1".to_owned(), "A2DP".to_owned());
    assert!(s.on_message(log()).is_none());
    assert!(s.next_interaction().is_none());
    assert!(s.on_message(Message::Addr { value: addr }).is_none());
    let first = s.next_interaction().unwrap();
    assert_eq!(first.description, "{test_started,A2DP/SRC/1,A2DP}");
    assert_eq!(first.pts_addr, addr);
    assert_eq!(first.style, MMIStyle::OkOnly);
    assert_eq!(s.on_answer("OK".to_owned()), None);
    let mut written = vec![];
    for k in 0..5 {
        assert!(s.on_message(prompt(&format!("{{{},T,P}}", k))).is_some());
        assert!(s.on_message(log()).is_some());
    }
    while let Some(i) = s.next_interaction() {
        assert_eq!(i.pts_addr, addr);
        assert_eq!(i.style, MMIStyle::OkCancel1);
        if let Some(line) = s.on_answer(format!("answer to {}", i.description)) {
            written.push(line);
        }
    }
    assert_eq!(
        written,
        (0..5).map(|k| format!("answer to {{{},T,P}}", k)).collect::<Vec<_>>()
    );
    assert!(s.on_end().is_ok());
}

#[test]
fn session_without_address_fails() {
    let mut s = Session::new("t".to_owned(), "p".to_owned());
    assert!(s.on_message(prompt("{1,t,p}")).is_none());
    assert!(matches!(s.on_end(), Err(RunError::NoAddress)));
    assert!(s.next_interaction().is_none());
}
