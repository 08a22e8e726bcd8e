//! What the test server writes on its standard output, one JSON object per
//! line, once decoded.
use vstd::prelude::*;
use crate::bd_addr::BdAddr;

verus! {

/// Kind of a log record of the test server.
#[derive(PartialEq, Eq, Structural, Debug, Clone, Copy)]
pub enum LogType {
    GeneralText,
    StartTestCase,
    TestCaseEnded,
    StartDefault,
    DefaultEnded,
    FinalVerdict,
    PreliminaryVerdict,
    Timeout,
    Assignment,
    StartTimer,
    StopTimer,
    CancelTimer,
    ReadTimer,
    Attach,
    ImplicitSend,
    Goto,
    TimedOutTimer,
    Error,
    Create,
    Done,
    Activate,
    Message,
    LineMatched,
    LineNotMatched,
    SendEvent,
    ReceiveEvent,
    OtherwiseEvent,
    ReceivedOnPco,
    MatchFailed,
    CoordinationMessage,
}

/// The number that stands for each kind on the wire.
pub open spec fn log_type_code(t: LogType) -> u8 {
    match t {
        LogType::GeneralText => 0,
        LogType::StartTestCase => 1,
        LogType::TestCaseEnded => 2,
        LogType::StartDefault => 3,
        LogType::DefaultEnded => 4,
        LogType::FinalVerdict => 5,
        LogType::PreliminaryVerdict => 6,
        LogType::Timeout => 7,
        LogType::Assignment => 8,
        LogType::StartTimer => 9,
        LogType::StopTimer => 10,
        LogType::CancelTimer => 11,
        LogType::ReadTimer => 12,
        LogType::Attach => 13,
        LogType::ImplicitSend => 14,
        LogType::Goto => 15,
        LogType::TimedOutTimer => 16,
        LogType::Error => 17,
        LogType::Create => 18,
        LogType::Done => 19,
        LogType::Activate => 20,
        LogType::Message => 21,
        LogType::LineMatched => 22,
        LogType::LineNotMatched => 23,
        LogType::SendEvent => 24,
        LogType::ReceiveEvent => 25,
        LogType::OtherwiseEvent => 26,
        LogType::ReceivedOnPco => 27,
        LogType::MatchFailed => 28,
        LogType::CoordinationMessage => 29,
    }
}

/// The name of each kind, as written in the logs.
pub open spec fn log_type_name(t: LogType) -> Seq<char> {
    match t {
        LogType::GeneralText => "GeneralText"@,
        LogType::StartTestCase => "StartTestCase"@,
        LogType::TestCaseEnded => "TestCaseEnded"@,
        LogType::StartDefault => "StartDefault"@,
        LogType::DefaultEnded => "DefaultEnded"@,
        LogType::FinalVerdict => "FinalVerdict"@,
        LogType::PreliminaryVerdict => "PreliminaryVerdict"@,
        LogType::Timeout => "Timeout"@,
        LogType::Assignment => "Assignment"@,
        LogType::StartTimer => "StartTimer"@,
        LogType::StopTimer => "StopTimer"@,
        LogType::CancelTimer => "CancelTimer"@,
        LogType::ReadTimer => "ReadTimer"@,
        LogType::Attach => "Attach"@,
        LogType::ImplicitSend => "ImplicitSend"@,
        LogType::Goto => "Goto"@,
        LogType::TimedOutTimer => "TimedOutTimer"@,
        LogType::Error => "Error"@,
        LogType::Create => "Create"@,
        LogType::Done => "Done"@,
        LogType::Activate => "Activate"@,
        LogType::Message => "Message"@,
        LogType::LineMatched => "LineMatched"@,
        LogType::LineNotMatched => "LineNotMatched"@,
        LogType::SendEvent => "SendEvent"@,
        LogType::ReceiveEvent => "ReceiveEvent"@,
        LogType::OtherwiseEvent => "OtherwiseEvent"@,
        LogType::ReceivedOnPco => "ReceivedOnPco"@,
        LogType::MatchFailed => "MatchFailed"@,
        LogType::CoordinationMessage => "CoordinationMessage"@,
    }
}

impl LogType {
    /// The kind that `code` stands for, if any.
    pub fn from_code(code: u8) -> (r: Option<LogType>)
        ensures
            match r {
                Some(t) => log_type_code(t) == code,
                None => code >= 30,
            },
    {
        match code {
            0 => Some(LogType::GeneralText),
            1 => Some(LogType::StartTestCase),
            2 => Some(LogType::TestCaseEnded),
            3 => Some(LogType::StartDefault),
            4 => Some(LogType::DefaultEnded),
            5 => Some(LogType::FinalVerdict),
            6 => Some(LogType::PreliminaryVerdict),
            7 => Some(LogType::Timeout),
            8 => Some(LogType::Assignment),
            9 => Some(LogType::StartTimer),
            10 => Some(LogType::StopTimer),
            11 => Some(LogType::CancelTimer),
            12 => Some(LogType::ReadTimer),
            13 => Some(LogType::Attach),
            14 => Some(LogType::ImplicitSend),
            15 => Some(LogType::Goto),
            16 => Some(LogType::TimedOutTimer),
            17 => Some(LogType::Error),
            18 => Some(LogType::Create),
            19 => Some(LogType::Done),
            20 => Some(LogType::Activate),
            21 => Some(LogType::Message),
            22 => Some(LogType::LineMatched),
            23 => Some(LogType::LineNotMatched),
            24 => Some(LogType::SendEvent),
            25 => Some(LogType::ReceiveEvent),
            26 => Some(LogType::OtherwiseEvent),
            27 => Some(LogType::ReceivedOnPco),
            28 => Some(LogType::MatchFailed),
            29 => Some(LogType::CoordinationMessage),
            _ => None,
        }
    }

    /// The name of the kind.
    pub fn name(&self) -> (r: &'static str)
        ensures
            r@ == log_type_name(*self),
    {
        match self {
            LogType::GeneralText => "GeneralText",
            LogType::StartTestCase => "StartTestCase",
            LogType::TestCaseEnded => "TestCaseEnded",
            LogType::StartDefault => "StartDefault",
            LogType::DefaultEnded => "DefaultEnded",
            LogType::FinalVerdict => "FinalVerdict",
            LogType::PreliminaryVerdict => "PreliminaryVerdict",
            LogType::Timeout => "Timeout",
            LogType::Assignment => "Assignment",
            LogType::StartTimer => "StartTimer",
            LogType::StopTimer => "StopTimer",
            LogType::CancelTimer => "CancelTimer",
            LogType::ReadTimer => "ReadTimer",
            LogType::Attach => "Attach",
            LogType::ImplicitSend => "ImplicitSend",
            LogType::Goto => "Goto",
            LogType::TimedOutTimer => "TimedOutTimer",
            LogType::Error => "Error",
            LogType::Create => "Create",
            LogType::Done => "Done",
            LogType::Activate => "Activate",
            LogType::Message => "Message",
            LogType::LineMatched => "LineMatched",
            LogType::LineNotMatched => "LineNotMatched",
            LogType::SendEvent => "SendEvent",
            LogType::ReceiveEvent => "ReceiveEvent",
            LogType::OtherwiseEvent => "OtherwiseEvent",
            LogType::ReceivedOnPco => "ReceivedOnPco",
            LogType::MatchFailed => "MatchFailed",
            LogType::CoordinationMessage => "CoordinationMessage",
        }
    }
}

/// Kind of dialog of a prompt, and so which answers it takes.
#[derive(PartialEq, Eq, Structural, Debug, Clone, Copy)]
pub enum MMIStyle {
    OkCancel1,
    OkCancel2,
    OkOnly,
    YesNo1,
    YesNoCancel1,
    AbortRetry1,
    Edit1,
    Edit2,
}

/// The number that stands for each dialog kind on the wire.
pub open spec fn style_code(s: MMIStyle) -> u32 {
    match s {
        MMIStyle::OkCancel1 => 0x11041,
        MMIStyle::OkCancel2 => 0x11141,
        MMIStyle::OkOnly => 0x11040,
        MMIStyle::YesNo1 => 0x11044,
        MMIStyle::YesNoCancel1 => 0x11043,
        MMIStyle::AbortRetry1 => 0x11042,
        MMIStyle::Edit1 => 0x12040,
        MMIStyle::Edit2 => 0x12140,
    }
}

impl MMIStyle {
    /// The dialog kind that `code` stands for, if any.
    pub fn from_code(code: u32) -> (r: Option<MMIStyle>)
        ensures
            match r {
                Some(s) => style_code(s) == code,
                None => forall|s: MMIStyle| style_code(s) != code,
            },
    {
        match code {
            0x11041 => Some(MMIStyle::OkCancel1),
            0x11141 => Some(MMIStyle::OkCancel2),
            0x11040 => Some(MMIStyle::OkOnly),
            0x11044 => Some(MMIStyle::YesNo1),
            0x11043 => Some(MMIStyle::YesNoCancel1),
            0x11042 => Some(MMIStyle::AbortRetry1),
            0x12040 => Some(MMIStyle::Edit1),
            0x12140 => Some(MMIStyle::Edit2),
            _ => None,
        }
    }
}

/// One line of the test server's output.
#[derive(Debug)]
pub enum Message {
    /// The address of the tester's Bluetooth device.
    Addr { value: BdAddr },
    /// A prompt that asks the implementation under test for an answer.
    ImplicitSend { description: String, style: MMIStyle },
    /// A log record.
    Log { time: String, description: String, message: String, logtype: LogType },
    /// A line that is none of the above, kept as it is.
    Raw(String),
}

} // verus!
