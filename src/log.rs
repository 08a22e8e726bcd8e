//! Events of a test run, decoded from the server's log records.
use vstd::prelude::*;
use crate::pts::{log_type_name, LogType, Message};
use crate::text::{
    after_spaces, chars_of, is_text, join_words, matches_at, normalize_whitespace,
    occurs_at, parse_u32, pieces_model, skip_spaces, slice, split_chars, split_from,
    split_once_chars, split_once_spec, to_string, trim, trim_spec, words_from, decimal_u32,
};
use crate::ttcn::{parse_list_spec, parse_spec, values_model, TTCNValue, Value};

verus! {

/// What happened to a timer.
#[derive(Debug, PartialEq, Eq, Structural, Clone, Copy)]
pub enum TimerEvent {
    Start,
    Stop,
    Cancel,
    Read,
    Timeout,
}

/// Kind of an event of a test run.
#[derive(Debug, PartialEq, Eq, Structural, Clone, Copy)]
pub enum EventKind {
    EnterStep,
    ExitStep,
    Send,
    Receive,
    Assign,
    Log,
    Verdict,
    FinalVerdict,
    TestStart,
    TestEnd,
    MatchFailed,
    Timer(TimerEvent),
    Error,
    ManMachineInterface,
    Ignored,
}

/// One event of a test run.
#[derive(Debug)]
pub struct Event {
    pub kind: EventKind,
    /// Milliseconds since the start of the test, where the record gives them.
    pub time: Option<u32>,
    /// The step number of an entered or left test step.
    pub number: Option<String>,
    pub name: String,
    /// The TTCN-3 values that the event carries, where it has structure.
    pub values: Option<Vec<TTCNValue>>,
}

/// Mathematical model of an `Event`.
pub struct EventModel {
    pub kind: EventKind,
    pub time: Option<u32>,
    pub number: Option<Seq<char>>,
    pub name: Seq<char>,
    pub values: Option<Seq<Value>>,
}

impl Event {
    pub open spec fn model(&self) -> EventModel {
        EventModel {
            kind: self.kind,
            time: self.time,
            number: match self.number {
                Some(n) => Some(n@),
                None => None,
            },
            name: self.name@,
            values: match self.values {
                Some(v) => Some(values_model(v@)),
                None => None,
            },
        }
    }
}

/// An event with a name alone.
pub open spec fn named(kind: EventKind, name: Seq<char>) -> EventModel {
    EventModel { kind, time: None, number: None, name, values: None }
}

/// A send or receive record: `NAME=PDU:VALUE`, or a bare name. A value
/// that cannot be read makes the record `Ignored`, with its text.
pub open spec fn pdu_event(kind: EventKind, m: Seq<char>) -> EventModel {
    match split_once_spec(m, "=PDU:"@) {
        Some((name, pdu)) => {
            let (e, v) = parse_spec(pdu, 0);
            if e == pdu.len() {
                EventModel { kind, time: None, number: None, name, values: Some(seq![v]) }
            } else {
                named(EventKind::Ignored, m)
            }
        },
        None => named(kind, join_words(words_from(m, 0))),
    }
}

/// An assignment record: `NAME:=VALUE`; one that cannot be read is
/// `Ignored`, with its text.
pub open spec fn assign_event(m: Seq<char>) -> EventModel {
    match split_once_spec(m, ":="@) {
        Some((name, val)) => {
            let (e, v) = parse_spec(val, 0);
            if e == val.len() {
                EventModel {
                    kind: EventKind::Assign,
                    time: None,
                    number: None,
                    name,
                    values: Some(seq![v]),
                }
            } else {
                named(EventKind::Ignored, m)
            }
        },
        None => named(EventKind::Ignored, m),
    }
}

pub open spec fn step_prefix(p: Seq<char>) -> bool {
    p == ":"@ || p == "A:"@
}

/// A step record: `: N Enter Test Step NAME`, `: N Enter Test Step NAME ( ARGS )`
/// or `: N Exit  Test Step  NAME` (the second form and the third may start with `A:`).
pub open spec fn attach_event(m: Seq<char>) -> EventModel {
    let p = split_from(m, 0, ' ');
    if p.len() == 6 && p[0] == ":"@ && p[2] == "Enter"@ && p[3] == "Test"@ && p[4] == "Step"@ {
        EventModel {
            kind: EventKind::EnterStep,
            time: None,
            number: Some(p[1]),
            name: p[5],
            values: Some(Seq::empty()),
        }
    } else if p.len() >= 8 && step_prefix(p[0]) && p[2] == "Enter"@ && p[3] == "Test"@ && p[4]
        == "Step"@ && p[6] == "("@ && p.last() == ")"@ {
        let a = after_spaces(m, 0, 7);
        if a < m.len() {
            let args = m.subrange(a, m.len() - 1);
            let (e, vs) = parse_list_spec(args);
            if e == args.len() {
                EventModel {
                    kind: EventKind::EnterStep,
                    time: None,
                    number: Some(p[1]),
                    name: p[5],
                    values: Some(vs),
                }
            } else {
                named(EventKind::Error, m)
            }
        } else {
            named(EventKind::Error, m)
        }
    } else if p.len() == 8 && step_prefix(p[0]) && p[2] == "Exit"@ && p[3] == ""@ && p[4]
        == "Test"@ && p[5] == "Step"@ && p[6] == ""@ {
        EventModel {
            kind: EventKind::ExitStep,
            time: None,
            number: Some(p[1]),
            name: p[7],
            values: None,
        }
    } else {
        named(EventKind::Error, m)
    }
}

/// The event that a log record of kind `t` with text `raw` stands for.
/// A step record that cannot be read is an `Error` event holding the text;
/// other records that cannot be read are `Ignored`, holding it.
pub open spec fn event_spec(t: LogType, raw: Seq<char>) -> EventModel {
    let m = trim_spec(raw);
    match t {
        LogType::Attach => attach_event(m),
        LogType::SendEvent => pdu_event(EventKind::Send, m),
        LogType::ReceiveEvent => pdu_event(EventKind::Receive, m),
        LogType::Assignment => assign_event(m),
        LogType::GeneralText => named(EventKind::Log, m),
        LogType::FinalVerdict => if occurs_at(m, 0, "OUTPUT/"@) {
            named(EventKind::Log, m.subrange(7, m.len() as int))
        } else if occurs_at(m, 0, "VERDICT/"@) {
            named(EventKind::FinalVerdict, m.subrange(8, m.len() as int))
        } else {
            named(EventKind::Verdict, m)
        },
        LogType::PreliminaryVerdict => named(EventKind::Verdict, m),
        LogType::StartTestCase => named(EventKind::TestStart, m),
        LogType::TestCaseEnded => named(EventKind::TestEnd, m),
        LogType::MatchFailed => named(EventKind::MatchFailed, m),
        LogType::StartTimer => named(EventKind::Timer(TimerEvent::Start), m),
        LogType::StopTimer => named(EventKind::Timer(TimerEvent::Stop), m),
        LogType::CancelTimer => named(EventKind::Timer(TimerEvent::Cancel), m),
        LogType::ReadTimer => named(EventKind::Timer(TimerEvent::Read), m),
        LogType::Timeout => named(EventKind::Timer(TimerEvent::Timeout), m),
        LogType::TimedOutTimer => named(EventKind::Timer(TimerEvent::Timeout), m),
        LogType::ImplicitSend => named(EventKind::ManMachineInterface, m),
        _ => named(EventKind::Ignored, log_type_name(t) + " "@ + m),
    }
}

/// The time of a record: empty, or `+N ms`.
pub open spec fn time_spec(raw: Seq<char>) -> Option<u32> {
    let t = trim_spec(raw);
    if t.len() >= 4 && t[0] == '+' && t.subrange(t.len() - 3, t.len() as int) == " ms"@ {
        decimal_u32(t.subrange(1, t.len() - 3))
    } else {
        None
    }
}

/// The event for a message of the server, if it yields one: log records
/// and prompts do.
pub open spec fn message_event_spec(msg: Message) -> Option<EventModel> {
    match msg {
        Message::Log { time, message, logtype, .. } => {
            let e = event_spec(logtype, message@);
            Some(
                EventModel {
                    kind: e.kind,
                    time: time_spec(time@),
                    number: e.number,
                    name: e.name,
                    values: e.values,
                },
            )
        },
        Message::ImplicitSend { description, .. } => Some(
            named(EventKind::ManMachineInterface, description@),
        ),
        _ => None,
    }
}

fn named_event(kind: EventKind, name: &Vec<char>) -> (r: Event)
    ensures
        r.model() == named(kind, name@),
{
    Event { kind, time: None, number: None, name: to_string(name), values: None }
}

fn one_value(v: TTCNValue) -> (r: Vec<TTCNValue>)
    ensures
        values_model(r@) == seq![v.model()],
{
    let ghost m = v.model();
    let r = vec![v];
    assert(values_model(r@) =~= seq![m]);
    r
}

fn pdu(kind: EventKind, m: &Vec<char>) -> (r: Event)
    ensures
        r.model() == pdu_event(kind, m@),
{
    let sep = chars_of("=PDU:");
    match split_once_chars(m, &sep) {
        Some((name, value)) => {
            let (rest, v) = crate::ttcn::parse(&to_string(&value));
            if rest.as_str().unicode_len() == 0 {
                Event {
                    kind,
                    time: None,
                    number: None,
                    name: to_string(&name),
                    values: Some(one_value(v)),
                }
            } else {
                named_event(EventKind::Ignored, m)
            }
        },
        None => Event {
            kind,
            time: None,
            number: None,
            name: normalize_whitespace(m),
            values: None,
        },
    }
}

fn assignment(m: &Vec<char>) -> (r: Event)
    ensures
        r.model() == assign_event(m@),
{
    let sep = chars_of(":=");
    match split_once_chars(m, &sep) {
        Some((name, value)) => {
            let (rest, v) = crate::ttcn::parse(&to_string(&value));
            if rest.as_str().unicode_len() == 0 {
                Event {
                    kind: EventKind::Assign,
                    time: None,
                    number: None,
                    name: to_string(&name),
                    values: Some(one_value(v)),
                }
            } else {
                named_event(EventKind::Ignored, m)
            }
        },
        None => named_event(EventKind::Ignored, m),
    }
}

fn is_step_prefix(p: &Vec<char>) -> (r: bool)
    ensures
        r == step_prefix(p@),
{
    is_text(p, ":") || is_text(p, "A:")
}

fn attach(m: &Vec<char>) -> (r: Event)
    ensures
        r.model() == attach_event(m@),
{
    let p = split_chars(m, ' ');
    let ghost pm = pieces_model(p@);
    assert(pm == split_from(m@, 0, ' '));
    assert forall|k: int| 0 <= k < p.len() implies p@[k]@ == #[trigger] pm[k] by {}
    if p.len() == 6 && is_text(&p[0], ":") && is_text(&p[2], "Enter") && is_text(&p[3], "Test")
        && is_text(&p[4], "Step") {
        let none: Vec<TTCNValue> = Vec::new();
        assert(values_model(none@) =~= Seq::empty());
        return Event {
            kind: EventKind::EnterStep,
            time: None,
            number: Some(to_string(&p[1])),
            name: to_string(&p[5]),
            values: Some(none),
        };
    }
    if p.len() >= 8 && is_step_prefix(&p[0]) && is_text(&p[2], "Enter") && is_text(&p[3], "Test")
        && is_text(&p[4], "Step") && is_text(&p[6], "(") && is_text(&p[p.len() - 1], ")") {
        let a = skip_spaces(m, 0, 7);
        if a < m.len() {
            let args = slice(m, a, m.len() - 1);
            let (rest, vs) = crate::ttcn::parse_list(&to_string(&args));
            if rest.as_str().unicode_len() == 0 {
                return Event {
                    kind: EventKind::EnterStep,
                    time: None,
                    number: Some(to_string(&p[1])),
                    name: to_string(&p[5]),
                    values: Some(vs),
                };
            }
        }
        return named_event(EventKind::Error, m);
    }
    if p.len() == 8 && is_step_prefix(&p[0]) && is_text(&p[2], "Exit") && is_text(&p[3], "")
        && is_text(&p[4], "Test") && is_text(&p[5], "Step") && is_text(&p[6], "") {
        return Event {
            kind: EventKind::ExitStep,
            time: None,
            number: Some(to_string(&p[1])),
            name: to_string(&p[7]),
            values: None,
        };
    }
    named_event(EventKind::Error, m)
}

fn verdict_record(m: &Vec<char>) -> (r: Event)
    ensures
        r.model() == (if occurs_at(m@, 0, "OUTPUT/"@) {
            named(EventKind::Log, m@.subrange(7, m@.len() as int))
        } else if occurs_at(m@, 0, "VERDICT/"@) {
            named(EventKind::FinalVerdict, m@.subrange(8, m@.len() as int))
        } else {
            named(EventKind::Verdict, m@)
        }),
{
    let output = chars_of("OUTPUT/");
    let verdict = chars_of("VERDICT/");
    proof {
        reveal_strlit("OUTPUT/");
        reveal_strlit("VERDICT/");
    }
    if matches_at(m, 0, &output) {
        named_event(EventKind::Log, &slice(m, 7, m.len()))
    } else if matches_at(m, 0, &verdict) {
        named_event(EventKind::FinalVerdict, &slice(m, 8, m.len()))
    } else {
        named_event(EventKind::Verdict, m)
    }
}

/// Decodes the text of a log record of kind `logtype` into an event.
pub fn parse_log_message(logtype: LogType, message: String) -> (r: Event)
    ensures
        r.model() == event_spec(logtype, message@),
{
    let raw = chars_of(message.as_str());
    let m = trim(&raw);
    match logtype {
        LogType::Attach => attach(&m),
        LogType::SendEvent => pdu(EventKind::Send, &m),
        LogType::ReceiveEvent => pdu(EventKind::Receive, &m),
        LogType::Assignment => assignment(&m),
        LogType::GeneralText => named_event(EventKind::Log, &m),
        LogType::FinalVerdict => verdict_record(&m),
        LogType::PreliminaryVerdict => named_event(EventKind::Verdict, &m),
        LogType::StartTestCase => named_event(EventKind::TestStart, &m),
        LogType::TestCaseEnded => named_event(EventKind::TestEnd, &m),
        LogType::MatchFailed => named_event(EventKind::MatchFailed, &m),
        LogType::StartTimer => named_event(EventKind::Timer(TimerEvent::Start), &m),
        LogType::StopTimer => named_event(EventKind::Timer(TimerEvent::Stop), &m),
        LogType::CancelTimer => named_event(EventKind::Timer(TimerEvent::Cancel), &m),
        LogType::ReadTimer => named_event(EventKind::Timer(TimerEvent::Read), &m),
        LogType::Timeout => named_event(EventKind::Timer(TimerEvent::Timeout), &m),
        LogType::TimedOutTimer => named_event(EventKind::Timer(TimerEvent::Timeout), &m),
        LogType::ImplicitSend => named_event(EventKind::ManMachineInterface, &m),
        _ => {
            let mut name = chars_of(logtype.name());
            name.push(' ');
            let mut k: usize = 0;
            let ghost head = name@;
            while k < m.len()
                invariant
                    k <= m.len(),
                    name@ == head + m@.subrange(0, k as int),
                decreases m.len() - k,
            {
                name.push(m[k]);
                assert(m@.subrange(0, k + 1) =~= m@.subrange(0, k as int).push(m@[k as int]));
                k = k + 1;
            }
            assert(m@.subrange(0, m@.len() as int) =~= m@);
            assert(name@ =~= log_type_name(logtype) + " "@ + m@) by {
                reveal_strlit(" ");
            }
            named_event(EventKind::Ignored, &name)
        },
    }
}

/// Reads the time of a record, `+N ms`; anything else gives none.
pub fn parse_time(time: &str) -> (r: Option<u32>)
    ensures
        r == time_spec(time@),
{
    let raw = chars_of(time);
    let t = trim(&raw);
    let n = t.len();
    let ms = chars_of(" ms");
    proof {
        reveal_strlit(" ms");
    }
    if n >= 4 && t[0] == '+' && matches_at(&t, n - 3, &ms) {
        parse_u32(&slice(&t, 1, n - 3))
    } else {
        None
    }
}

/// The event that a message of the server yields: log records and prompts
/// give one, the other messages none.
pub fn message_event(msg: &Message) -> (r: Option<Event>)
    ensures
        match r {
            Some(e) => message_event_spec(*msg) == Some(e.model()),
            None => message_event_spec(*msg) is None,
        },
{
    match msg {
        Message::Log { time, message, logtype, .. } => {
            let e = parse_log_message(*logtype, message.clone());
            Some(Event { time: parse_time(time.as_str()), ..e })
        },
        Message::ImplicitSend { description, .. } => Some(
            Event {
                kind: EventKind::ManMachineInterface,
                time: None,
                number: None,
                name: description.clone(),
                values: None,
            },
        ),
        _ => None,
    }
}


/// The stack of open test steps after one more event: `EnterStep` pushes
/// its name, `ExitStep` pops it and must match the innermost open step.
pub open spec fn step_spec(stack: Seq<Seq<char>>, e: EventModel) -> Option<Seq<Seq<char>>> {
    match e.kind {
        EventKind::EnterStep => Some(stack.push(e.name)),
        EventKind::ExitStep => if stack.len() > 0 && stack.last() == e.name {
            Some(stack.drop_last())
        } else {
            None
        },
        _ => Some(stack),
    }
}

/// The stack of open test steps after a sequence of events, if every
/// `ExitStep` matched.
pub open spec fn run_steps(stack: Seq<Seq<char>>, events: Seq<EventModel>) -> Option<
    Seq<Seq<char>>,
>
    decreases events.len(),
{
    if events.len() == 0 {
        Some(stack)
    } else {
        match step_spec(stack, events[0]) {
            Some(next) => run_steps(next, events.subrange(1, events.len() as int)),
            None => None,
        }
    }
}

/// An `ExitStep` that does not close the innermost open step.
#[derive(Debug, PartialEq, Eq, Structural, Clone, Copy)]
pub struct StepMismatch;

/// The names of the test steps that are open, innermost last.
pub struct StepStack {
    names: Vec<String>,
}

impl View for StepStack {
    type V = Seq<Seq<char>>;

    closed spec fn view(&self) -> Seq<Seq<char>> {
        Seq::new(self.names.len() as nat, |i: int| self.names[i]@)
    }
}

impl StepStack {
    pub fn new() -> (r: Self)
        ensures
            r@ == Seq::<Seq<char>>::empty(),
    {
        let r = StepStack { names: Vec::new() };
        assert(r@ =~= Seq::<Seq<char>>::empty());
        r
    }

    /// Number of open steps.
    pub fn depth(&self) -> (r: usize)
        ensures
            r == self@.len(),
    {
        self.names.len()
    }

    /// Name of the innermost open step, if any.
    pub fn innermost(&self) -> (r: Option<&String>)
        ensures
            match r {
                Some(n) => self@.len() > 0 && n@ == self@.last(),
                None => self@.len() == 0,
            },
    {
        if self.names.len() == 0 {
            None
        } else {
            Some(&self.names[self.names.len() - 1])
        }
    }

    /// Updates the stack with one event; fails, and leaves the stack as it
    /// was, where an `ExitStep` does not close the innermost open step.
    pub fn apply(&mut self, event: &Event) -> (r: Result<(), StepMismatch>)
        ensures
            match r {
                Ok(()) => step_spec(old(self)@, event.model()) == Some(final(self)@),
                Err(_) => step_spec(old(self)@, event.model()) is None && final(self)@ == old(
                    self,
                )@,
            },
    {
        match event.kind {
            EventKind::EnterStep => {
                let ghost before = self@;
                self.names.push(event.name.clone());
                assert(self@ =~= before.push(event.name@));
                Ok(())
            },
            EventKind::ExitStep => {
                let n = self.names.len();
                if n > 0 && self.names[n - 1] == event.name {
                    let ghost before = self@;
                    self.names.pop();
                    assert(self@ =~= before.drop_last());
                    Ok(())
                } else {
                    Err(StepMismatch)
                }
            },
            _ => Ok(()),
        }
    }
}

proof fn lemma_run_split(stack: Seq<Seq<char>>, events: Seq<EventModel>, i: int) -> (mid: Seq<
    Seq<char>,
>)
    requires
        0 <= i <= events.len(),
        run_steps(stack, events) is Some,
    ensures
        run_steps(stack, events.subrange(0, i)) == Some(mid),
        run_steps(mid, events.subrange(i, events.len() as int)) == run_steps(stack, events),
    decreases i,
{
    if i == 0 {
        assert(events.subrange(0, 0).len() == 0);
        assert(events.subrange(0, events.len() as int) =~= events);
        stack
    } else {
        let next = step_spec(stack, events[0])->0;
        let rest = events.subrange(1, events.len() as int);
        let mid = lemma_run_split(next, rest, i - 1);
        assert(events.subrange(0, i).subrange(1, i) =~= rest.subrange(0, i - 1));
        assert(events.subrange(0, i)[0] == events[0]);
        assert(rest.subrange(i - 1, rest.len() as int) =~= events.subrange(i, events.len() as int));
        mid
    }
}

/// A step pushed on top of `base`, with `above` opened after it, is closed
/// by some later `ExitStep` of its name when the run ends no deeper than `base`.
proof fn lemma_step_closed(
    base: Seq<Seq<char>>,
    name: Seq<char>,
    above: Seq<Seq<char>>,
    events: Seq<EventModel>,
)
    requires
        run_steps(base.push(name) + above, events) matches Some(f) && f.len() <= base.len(),
    ensures
        exists|j: int|
            0 <= j < events.len() && (#[trigger] events[j]).kind == EventKind::ExitStep
                && events[j].name == name,
    decreases events.len(),
{
    let stack = base.push(name) + above;
    if events.len() == 0 {
        assert(stack.len() > base.len());
    } else {
        let e = events[0];
        let rest = events.subrange(1, events.len() as int);
        let next = step_spec(stack, e)->0;
        if e.kind == EventKind::ExitStep && above.len() == 0 {
            assert(stack =~= base.push(name));
            assert(events[0].name == name);
        } else {
            let above2 = match e.kind {
                EventKind::EnterStep => above.push(e.name),
                EventKind::ExitStep => above.drop_last(),
                _ => above,
            };
            assert(next =~= base.push(name) + above2);
            lemma_step_closed(base, name, above2, rest);
            let j = choose|j: int|
                0 <= j < rest.len() && (#[trigger] rest[j]).kind == EventKind::ExitStep
                    && rest[j].name == name;
            assert(events[j + 1] == rest[j]);
        }
    }
}

/// Over a whole run that starts and ends with no open step and in which
/// every `ExitStep` matched, each `EnterStep` is closed by a later
/// `ExitStep` of the same name.
pub proof fn lemma_steps_balanced(events: Seq<EventModel>, i: int)
    requires
        run_steps(Seq::empty(), events) == Some(Seq::<Seq<char>>::empty()),
        0 <= i < events.len(),
        events[i].kind == EventKind::EnterStep,
    ensures
        exists|j: int|
            i < j < events.len() && (#[trigger] events[j]).kind == EventKind::ExitStep
                && events[j].name == events[i].name,
{
    let mid = lemma_run_split(Seq::empty(), events, i);
    let tail = events.subrange(i, events.len() as int);
    let rest = events.subrange(i + 1, events.len() as int);
    assert(tail[0] == events[i]);
    assert(tail.subrange(1, tail.len() as int) =~= rest);
    assert(mid.push(events[i].name) =~= mid.push(events[i].name) + Seq::<Seq<char>>::empty());
    lemma_step_closed(mid, events[i].name, Seq::empty(), rest);
    let j = choose|j: int|
        0 <= j < rest.len() && (#[trigger] rest[j]).kind == EventKind::ExitStep && rest[j].name
            == events[i].name;
    assert(events[i + 1 + j] == rest[j]);
}

/// The name of the last `FinalVerdict` among `events`, if any.
pub open spec fn last_verdict(events: Seq<EventModel>) -> Option<Seq<char>>
    decreases events.len(),
{
    if events.len() == 0 {
        None
    } else if events.last().kind == EventKind::FinalVerdict {
        Some(events.last().name)
    } else {
        last_verdict(events.drop_last())
    }
}

pub open spec fn events_model(v: Seq<Event>) -> Seq<EventModel> {
    Seq::new(v.len(), |i: int| v[i].model())
}

/// The verdict after one more event: a `FinalVerdict` replaces it.
pub fn update_verdict(current: Option<String>, event: &Event) -> (r: Option<String>)
    ensures
        event.kind == EventKind::FinalVerdict ==> (r matches Some(n) && n@ == event.name@),
        event.kind != EventKind::FinalVerdict ==> r == current,
{
    if event.kind == EventKind::FinalVerdict {
        Some(event.name.clone())
    } else {
        current
    }
}

/// The name of the last `FinalVerdict` event, if any.
pub fn final_verdict(events: &Vec<Event>) -> (r: Option<String>)
    ensures
        match r {
            Some(n) => last_verdict(events_model(events@)) == Some(n@),
            None => last_verdict(events_model(events@)) is None,
        },
{
    let mut verdict: Option<String> = None;
    let mut i: usize = 0;
    while i < events.len()
        invariant
            i <= events.len(),
            match verdict {
                Some(n) => last_verdict(events_model(events@.subrange(0, i as int))) == Some(n@),
                None => last_verdict(events_model(events@.subrange(0, i as int))) is None,
            },
        decreases events.len() - i,
    {
        let ghost prev = events_model(events@.subrange(0, i as int));
        assert(events_model(events@.subrange(0, i + 1)) =~= prev.push(events[i as int].model()));
        assert(events_model(events@.subrange(0, i + 1)).drop_last() =~= prev);
        verdict = update_verdict(verdict, &events[i]);
        i = i + 1;
    }
    assert(events@.subrange(0, i as int) =~= events@);
    verdict
}


/// The tag shown for each kind of event.
pub open spec fn kind_name_spec(kind: EventKind) -> Seq<char> {
    match kind {
        EventKind::EnterStep => "Enter Step"@,
        EventKind::ExitStep => "Exit Step"@,
        EventKind::Send => "Send"@,
        EventKind::Receive => "Receive"@,
        EventKind::Assign => "Assign"@,
        EventKind::Log => "Log"@,
        EventKind::Verdict => "Verdict"@,
        EventKind::FinalVerdict => "Verdict"@,
        EventKind::TestStart => "Test Start"@,
        EventKind::TestEnd => "Test End"@,
        EventKind::MatchFailed => "Match"@,
        EventKind::Timer(_) => "Timer"@,
        EventKind::Error => "Error"@,
        EventKind::ManMachineInterface => "MMI"@,
        EventKind::Ignored => "Ignored"@,
    }
}

/// The tag shown for an event of kind `kind`.
pub fn kind_name(kind: &EventKind) -> (r: &'static str)
    ensures
        r@ == kind_name_spec(*kind),
{
    match *kind {
        EventKind::EnterStep => "Enter Step",
        EventKind::ExitStep => "Exit Step",
        EventKind::Send => "Send",
        EventKind::Receive => "Receive",
        EventKind::Assign => "Assign",
        EventKind::Log => "Log",
        EventKind::Verdict => "Verdict",
        EventKind::FinalVerdict => "Verdict",
        EventKind::TestStart => "Test Start",
        EventKind::TestEnd => "Test End",
        EventKind::MatchFailed => "Match",
        EventKind::Timer(_) => "Timer",
        EventKind::Error => "Error",
        EventKind::ManMachineInterface => "MMI",
        EventKind::Ignored => "Ignored",
    }
}

} // verus!
