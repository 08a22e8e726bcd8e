//! The fixed-width fields at the head of each line of the live log.
use vstd::prelude::*;
use crate::log::{kind_name, kind_name_spec, Event, EventKind, TimerEvent};
use crate::text::{chars_of, pieces_model, push_char, split_chars, split_from, to_string};
use crate::ttcn::{render_spec, values_model, Palette, Value};
use crate::wine::{decimal, decimal_text};

verus! {

/// `n` spaces.
pub open spec fn blank(n: nat) -> Seq<char> {
    Seq::new(n, |i: int| ' ')
}

/// `n` zeros.
pub open spec fn zeros(n: nat) -> Seq<char> {
    Seq::new(n, |i: int| '0')
}

/// The time of an event: milliseconds on at least six digits, then `ms`;
/// eight spaces where the event has no time.
pub open spec fn time_field_spec(time: Option<u32>) -> Seq<char> {
    match time {
        Some(t) => {
            let d = decimal_text(t as nat);
            let pad = if d.len() < 6 { (6 - d.len()) as nat } else { 0 };
            zeros(pad) + d + "ms"@
        },
        None => blank(8),
    }
}

/// The innermost step: its last twenty characters, right-aligned on twenty.
pub open spec fn step_field_spec(step: Seq<char>) -> Seq<char> {
    let tail = if step.len() > 20 { step.subrange(step.len() - 20, step.len() as int) } else { step };
    blank((20 - tail.len()) as nat) + tail
}

/// `s` centred on `width`, the odd space on the right.
pub open spec fn centered(s: Seq<char>, width: nat) -> Seq<char> {
    if s.len() >= width {
        s
    } else {
        let pad = (width - s.len()) as nat;
        blank(pad / 2) + s + blank((pad - pad / 2) as nat)
    }
}

fn push_repeat(out: &mut String, c: char, n: usize)
    ensures
        final(out)@ == old(out)@ + Seq::new(n as nat, |i: int| c),
{
    let ghost start = out@;
    let mut k: usize = 0;
    while k < n
        invariant
            k <= n,
            out@ == start + Seq::new(k as nat, |i: int| c),
        decreases n - k,
    {
        push_char(out, c);
        assert(start + Seq::new((k + 1) as nat, |i: int| c) =~= start + Seq::new(k as nat, |i: int| c)
            + seq![c]);
        k = k + 1;
    }
}

/// The time field of a log line.
pub fn time_field(time: Option<u32>) -> (r: String)
    ensures
        r@ == time_field_spec(time),
{
    let mut out = String::new();
    match time {
        Some(t) => {
            let d = decimal(t);
            let n = d.as_str().unicode_len();
            let pad: usize = if n < 6 { 6 - n } else { 0 };
            push_repeat(&mut out, '0', pad);
            out.append(d.as_str());
            out.append("ms");
            assert(out@ =~= time_field_spec(time));
        },
        None => {
            push_repeat(&mut out, ' ', 8);
            assert(out@ =~= blank(8));
        },
    }
    out
}

/// The step field of a log line.
pub fn step_field(step: &str) -> (r: String)
    ensures
        r@ == step_field_spec(step@),
{
    let s = chars_of(step);
    let from: usize = if s.len() > 20 { s.len() - 20 } else { 0 };
    let mut out = String::new();
    push_repeat(&mut out, ' ', 20 - (s.len() - from));
    let mut i = from;
    let ghost head = out@;
    while i < s.len()
        invariant
            from <= i <= s.len(),
            out@ == head + s@.subrange(from as int, i as int),
        decreases s.len() - i,
    {
        push_char(&mut out, s[i]);
        assert(s@.subrange(from as int, i + 1) =~= s@.subrange(from as int, i as int).push(s@[i as int]));
        i = i + 1;
    }
    assert(s@.subrange(0, s@.len() as int) =~= s@);
    assert(out@ =~= step_field_spec(step@));
    out
}

/// The kind field of a log line: the kind's tag centred on ten, or blank.
pub fn kind_field(kind: &EventKind, include_kind_name: bool) -> (r: String)
    ensures
        r@ == centered(if include_kind_name { kind_name_spec(*kind) } else { Seq::empty() }, 10),
{
    proof {
        reveal_strlit("");
    }
    let name = if include_kind_name { kind_name(kind) } else { "" };
    let ghost text = if include_kind_name { kind_name_spec(*kind) } else { Seq::<char>::empty() };
    assert(name@ =~= text);
    let n = name.unicode_len();
    let mut out = String::new();
    if n >= 10 {
        out.append(name);
        assert(out@ =~= text);
        return out;
    }
    let pad = 10 - n;
    push_repeat(&mut out, ' ', pad / 2);
    out.append(name);
    push_repeat(&mut out, ' ', pad - pad / 2);
    assert(out@ =~= centered(text, 10));
    out
}


/// Escape sequences that give a log line its look; empty strings give
/// plain text.
pub struct LineStyle {
    pub faint: String,
    pub bold: String,
    pub reset: String,
    /// Colour of the step name.
    pub step: String,
    /// Colour of the step field on continuation lines, which name no step.
    pub no_step: String,
    /// Background and foreground of the kind tag.
    pub kind: String,
    /// Look of the text of a prompt.
    pub prompt: String,
    /// Look of the values.
    pub values: Palette,
}

/// The head of a log line: time, step and kind tag.
pub open spec fn header_spec(
    time: Option<u32>,
    step: Seq<char>,
    step_color: Seq<char>,
    tag: Seq<char>,
    st: LineStyle,
) -> Seq<char> {
    st.faint@ + time_field_spec(time) + st.reset@ + " "@ + step_color + step_field_spec(step)
        + st.reset@ + " "@ + st.bold@ + st.kind@ + " "@ + centered(tag, 10) + " "@ + st.reset@
        + " "@
}

/// What starts each line of an event's text.
pub open spec fn line_prefix(kind: EventKind, st: LineStyle) -> Seq<char> {
    if kind == EventKind::ManMachineInterface {
        st.prompt@
    } else {
        Seq::empty()
    }
}

/// Lines of text, each after the first on a new log line with a blank head.
pub open spec fn multiline_spec(lines: Seq<Seq<char>>, kind: EventKind, st: LineStyle) -> Seq<char>
    decreases lines.len(),
{
    if lines.len() == 0 {
        Seq::empty()
    } else if lines.len() == 1 {
        line_prefix(kind, st) + lines[0]
    } else {
        multiline_spec(lines.drop_last(), kind, st) + "\n"@ + header_spec(
            None,
            Seq::empty(),
            st.no_step@,
            Seq::empty(),
            st,
        ) + line_prefix(kind, st) + lines.last()
    }
}

pub open spec fn text_spec(data: Seq<char>, kind: EventKind, st: LineStyle) -> Seq<char> {
    multiline_spec(split_from(data, 0, '\n'), kind, st)
}

/// The values of an event, separated by commas.
pub open spec fn values_text(values: Seq<Value>, kind: EventKind, st: LineStyle) -> Seq<char>
    decreases values.len(),
{
    if values.len() == 0 {
        Seq::empty()
    } else if values.len() == 1 {
        text_spec(render_spec(values[0], 0, st.values), kind, st)
    } else {
        values_text(values.drop_last(), kind, st) + ", "@ + text_spec(
            render_spec(values.last(), 0, st.values),
            kind,
            st,
        )
    }
}

pub open spec fn timer_name(t: TimerEvent) -> Seq<char> {
    match t {
        TimerEvent::Start => "Start"@,
        TimerEvent::Stop => "Stop"@,
        TimerEvent::Cancel => "Cancel"@,
        TimerEvent::Read => "Read"@,
        TimerEvent::Timeout => "Timeout"@,
    }
}

pub open spec fn timer_part(kind: EventKind) -> Seq<char> {
    match kind {
        EventKind::Timer(t) => timer_name(t) + " "@,
        _ => Seq::empty(),
    }
}

pub open spec fn suffix_part(kind: EventKind) -> Seq<char> {
    match kind {
        EventKind::Assign => " :="@,
        EventKind::FinalVerdict => " (final)"@,
        _ => Seq::empty(),
    }
}

/// The values of an event: in parentheses for an entered step, else after a space.
pub open spec fn values_part(values: Option<Seq<Value>>, kind: EventKind, st: LineStyle) -> Seq<
    char,
> {
    match values {
        Some(v) => if kind == EventKind::EnterStep {
            "("@ + values_text(v, kind, st) + ")"@
        } else {
            " "@ + values_text(v, kind, st)
        },
        None => Seq::empty(),
    }
}

/// The log line of an event, with the innermost open step.
pub open spec fn event_line_spec(
    time: Option<u32>,
    kind: EventKind,
    name: Seq<char>,
    values: Option<Seq<Value>>,
    step: Seq<char>,
    st: LineStyle,
) -> Seq<char> {
    header_spec(time, step, st.step@, kind_name_spec(kind), st) + timer_part(kind) + text_spec(
        name,
        kind,
        st,
    ) + suffix_part(kind) + values_part(values, kind, st) + "\n"@
}

fn header(time: Option<u32>, step: &str, step_color: &String, tag: &str, st: &LineStyle) -> (r: String)
    ensures
        r@ == header_spec(time, step@, step_color@, tag@, *st),
{
    let mut out = st.faint.clone();
    out.append(time_field(time).as_str());
    out.append(st.reset.as_str());
    out.append(" ");
    out.append(step_color.as_str());
    out.append(step_field(step).as_str());
    out.append(st.reset.as_str());
    out.append(" ");
    out.append(st.bold.as_str());
    out.append(st.kind.as_str());
    out.append(" ");
    out.append(centered_text(tag, 10).as_str());
    out.append(" ");
    out.append(st.reset.as_str());
    out.append(" ");
    out
}

fn centered_text(s: &str, width: usize) -> (r: String)
    ensures
        r@ == centered(s@, width as nat),
{
    let n = s.unicode_len();
    let mut out = String::new();
    if n >= width {
        out.append(s);
        assert(out@ =~= s@);
        return out;
    }
    let pad = width - n;
    push_repeat(&mut out, ' ', pad / 2);
    out.append(s);
    push_repeat(&mut out, ' ', pad - pad / 2);
    assert(out@ =~= centered(s@, width as nat));
    out
}

fn append_text(out: &mut String, data: &str, kind: EventKind, st: &LineStyle)
    ensures
        final(out)@ == old(out)@ + text_spec(data@, kind, *st),
{
    let chars = chars_of(data);
    let lines = split_chars(&chars, '\n');
    let ghost all = pieces_model(lines@);
    let ghost start = out@;
    let blank_header = header(None, "", &st.no_step, "", st);
    proof {
        reveal_strlit("");
        assert(""@ =~= Seq::<char>::empty());
    }
    let prefix = if kind == EventKind::ManMachineInterface {
        st.prompt.clone()
    } else {
        String::new()
    };
    assert(prefix@ == line_prefix(kind, *st));
    let mut i: usize = 0;
    while i < lines.len()
        invariant
            i <= lines.len(),
            all == pieces_model(lines@),
            all == split_from(data@, 0, '\n'),
            prefix@ == line_prefix(kind, *st),
            blank_header@ == header_spec(None, Seq::empty(), st.no_step@, Seq::empty(), *st),
            out@ == start + multiline_spec(all.subrange(0, i as int), kind, *st),
        decreases lines.len() - i,
    {
        if i > 0 {
            out.append("\n");
            out.append(blank_header.as_str());
        }
        out.append(prefix.as_str());
        out.append(to_string(&lines[i]).as_str());
        proof {
            let part = all.subrange(0, i + 1);
            assert(part.drop_last() =~= all.subrange(0, i as int));
            assert(part.last() == lines@[i as int]@);
            if i == 0 {
                assert(all.subrange(0, 0).len() == 0);
                assert(out@ =~= start + multiline_spec(part, kind, *st));
            } else {
                assert(out@ =~= start + multiline_spec(part, kind, *st));
            }
        }
        i = i + 1;
    }
    assert(all.subrange(0, i as int) =~= all);
}

fn timer_text(kind: EventKind) -> (r: &'static str)
    ensures
        r@ == timer_part(kind),
{
    proof {
        reveal_strlit("");
        reveal_strlit(" ");
        reveal_strlit("Start");
        reveal_strlit("Start ");
        reveal_strlit("Stop");
        reveal_strlit("Stop ");
        reveal_strlit("Cancel");
        reveal_strlit("Cancel ");
        reveal_strlit("Read");
        reveal_strlit("Read ");
        reveal_strlit("Timeout");
        reveal_strlit("Timeout ");
        assert("Start "@ =~= "Start"@ + " "@);
        assert("Stop "@ =~= "Stop"@ + " "@);
        assert("Cancel "@ =~= "Cancel"@ + " "@);
        assert("Read "@ =~= "Read"@ + " "@);
        assert("Timeout "@ =~= "Timeout"@ + " "@);
    }
    match kind {
        EventKind::Timer(TimerEvent::Start) => "Start ",
        EventKind::Timer(TimerEvent::Stop) => "Stop ",
        EventKind::Timer(TimerEvent::Cancel) => "Cancel ",
        EventKind::Timer(TimerEvent::Read) => "Read ",
        EventKind::Timer(TimerEvent::Timeout) => "Timeout ",
        _ => "",
    }
}

fn suffix_text(kind: EventKind) -> (r: &'static str)
    ensures
        r@ == suffix_part(kind),
{
    proof {
        reveal_strlit("");
    }
    match kind {
        EventKind::Assign => " :=",
        EventKind::FinalVerdict => " (final)",
        _ => "",
    }
}

fn values_list(values: &Vec<crate::ttcn::TTCNValue>, kind: EventKind, st: &LineStyle) -> (r: String)
    ensures
        r@ == values_text(values_model(values@), kind, *st),
{
    let ghost vm = values_model(values@);
    let mut out = String::new();
    let mut i: usize = 0;
    while i < values.len()
        invariant
            i <= values.len(),
            vm == values_model(values@),
            out@ == values_text(vm.subrange(0, i as int), kind, *st),
        decreases values.len() - i,
    {
        let ghost before = out@;
        if i > 0 {
            out.append(", ");
        }
        let text = values[i].render(&st.values);
        append_text(&mut out, text.as_str(), kind, st);
        proof {
            let part = vm.subrange(0, i + 1);
            assert(part.drop_last() =~= vm.subrange(0, i as int));
            assert(part.last() == values@[i as int].model());
            if i == 0 {
                assert(vm.subrange(0, 0).len() == 0);
                assert(before =~= Seq::<char>::empty());
            }
            assert(out@ =~= values_text(part, kind, *st));
        }
        i = i + 1;
    }
    assert(vm.subrange(0, i as int) =~= vm);
    out
}

fn values_text_of(event: &Event, st: &LineStyle) -> (r: String)
    ensures
        r@ == values_part(event.model().values, event.kind, *st),
{
    match &event.values {
        Some(values) => {
            let list = values_list(values, event.kind, st);
            let mut out = String::new();
            if event.kind == EventKind::EnterStep {
                out.append("(");
                out.append(list.as_str());
                out.append(")");
            } else {
                out.append(" ");
                out.append(list.as_str());
            }
            out
        },
        None => String::new(),
    }
}

/// The log line of `event`, `step` being the innermost open test step.
pub fn event_line(event: &Event, step: &str, st: &LineStyle) -> (r: String)
    ensures
        r@ == event_line_spec(
            event.time,
            event.kind,
            event.name@,
            event.model().values,
            step@,
            *st,
        ),
{
    let mut out = header(event.time, step, &st.step, kind_name(&event.kind), st);
    out.append(timer_text(event.kind));
    append_text(&mut out, event.name.as_str(), event.kind, st);
    out.append(suffix_text(event.kind));
    out.append(values_text_of(event, st).as_str());
    out.append("\n");
    out
}

} // verus!
