//! Values of the TTCN-3 notation as the test suite prints them in its logs,
//! and a recursive-descent parser for them.
use vstd::prelude::*;
use crate::at::{command_end, integer, integer_end, parse_at};
use crate::text::{
    find_char, find_from, matches_at, occurs_at, skip_space, skip_whitespace, skip_word,
    space_end, string_of, whitespace_end, word_end,
};

verus! {

broadcast use vstd::std_specs::vec::axiom_vec_index_decreases;

/// A value of the TTCN-3 notation as printed in test logs.
#[derive(Debug, PartialEq, Eq)]
pub enum TTCNValue {
    Identifier(String),
    Integer(String),
    BitString(String),
    HexString(String),
    OctetString(String),
    CharString(String),
    Record(Vec<(String, TTCNValue)>),
    Array(Vec<TTCNValue>),
    Empty,
    AnyValue,
    AnyOrOmit,
}

/// Mathematical model of a `TTCNValue`.
pub enum Value {
    Identifier(Seq<char>),
    Integer(Seq<char>),
    BitString(Seq<char>),
    HexString(Seq<char>),
    OctetString(Seq<char>),
    CharString(Seq<char>),
    Record(Seq<(Seq<char>, Value)>),
    Array(Seq<Value>),
    Empty,
    AnyValue,
    AnyOrOmit,
}

impl TTCNValue {
    pub open spec fn model(&self) -> Value
        decreases self,
    {
        match self {
            TTCNValue::Identifier(s) => Value::Identifier(s@),
            TTCNValue::Integer(s) => Value::Integer(s@),
            TTCNValue::BitString(s) => Value::BitString(s@),
            TTCNValue::HexString(s) => Value::HexString(s@),
            TTCNValue::OctetString(s) => Value::OctetString(s@),
            TTCNValue::CharString(s) => Value::CharString(s@),
            TTCNValue::Record(r) => Value::Record(
                Seq::new(
                    r.len() as nat,
                    |i: int|
                        if 0 <= i < r.len() {
                            (r[i].0@, r[i].1.model())
                        } else {
                            (Seq::empty(), Value::Empty)
                        },
                ),
            ),
            TTCNValue::Array(a) => Value::Array(
                Seq::new(
                    a.len() as nat,
                    |i: int|
                        if 0 <= i < a.len() {
                            a[i].model()
                        } else {
                            Value::Empty
                        },
                ),
            ),
            TTCNValue::Empty => Value::Empty,
            TTCNValue::AnyValue => Value::AnyValue,
            TTCNValue::AnyOrOmit => Value::AnyOrOmit,
        }
    }
}


/// Models of a sequence of values.
pub open spec fn values_model(v: Seq<TTCNValue>) -> Seq<Value> {
    Seq::new(v.len(), |i: int| v[i].model())
}

/// Models of a sequence of record fields.
pub open spec fn fields_model(v: Seq<(String, TTCNValue)>) -> Seq<(Seq<char>, Value)> {
    Seq::new(v.len(), |i: int| (v[i].0@, v[i].1.model()))
}

/// End of an identifier at `i`: `<word with spaces>` or a plain word.
pub open spec fn identifier_end(s: Seq<char>, i: int) -> Option<int> {
    let bracketed = if 0 <= i < s.len() && s[i] == '<' {
        let j = word_end(s, i + 1, true);
        if j > i + 1 && j < s.len() && s[j] == '>' { Some(j + 1) } else { None }
    } else {
        None
    };
    if bracketed is Some {
        bracketed
    } else {
        let k = word_end(s, i, false);
        if k > i { Some(k) } else { None }
    }
}

/// A character string without inner quotes at `i`: its end and contents.
pub open spec fn charstring_spec(s: Seq<char>, i: int) -> Option<(int, Seq<char>)> {
    if 0 <= i < s.len() && s[i] == '"' {
        match find_from(s, i + 1, '"') {
            Some(k) => Some((k + 1, s.subrange(i + 1, k))),
            None => None,
        }
    } else {
        None
    }
}

/// A character string holding an AT response, with its unescaped quotes, at `i`.
pub open spec fn at_charstring_spec(s: Seq<char>, i: int) -> Option<(int, Seq<char>)> {
    if 0 <= i < s.len() && s[i] == '"' {
        match command_end(s, i + 1) {
            Some(j) => if j < s.len() && s[j] == '"' {
                Some((j + 1, s.subrange(i + 1, j)))
            } else {
                None
            },
            None => None,
        }
    } else {
        None
    }
}

/// After position `q` only white space remains, or the next other
/// character closes an element (`,`, `}` or `]`).
pub open spec fn closes_after(s: Seq<char>, q: int) -> bool {
    let t = whitespace_end(s, q);
    t == s.len() || s[t] == ',' || s[t] == '}' || s[t] == ']'
}

/// Scans from `p` for the quote that ends a string which may hold quotes:
/// every second quote from the opening one, followed by what closes an element.
pub open spec fn smart_close(s: Seq<char>, p: int, matched: bool) -> Option<int>
    decreases s.len() - p,
{
    if !(0 <= p < s.len()) {
        None
    } else if s[p] == '"' {
        if !matched && closes_after(s, p + 1) {
            Some(p)
        } else {
            smart_close(s, p + 1, !matched)
        }
    } else {
        smart_close(s, p + 1, matched)
    }
}

/// A character string that may hold inner quotes at `i`.
pub open spec fn smart_charstring_spec(s: Seq<char>, i: int) -> Option<(int, Seq<char>)> {
    if 0 <= i < s.len() && s[i] == '"' {
        match smart_close(s, i + 1, false) {
            Some(p) => Some((p + 1, s.subrange(i + 1, p))),
            None => None,
        }
    } else {
        None
    }
}

/// A quoted string tagged `H`, `B` or `O` at `i`.
pub open spec fn special_string_spec(s: Seq<char>, i: int) -> Option<(int, Value)> {
    if 0 <= i < s.len() && s[i] == '\'' {
        match find_from(s, i + 1, '\'') {
            Some(k) => {
                let body = s.subrange(i + 1, k);
                if k + 1 < s.len() && s[k + 1] == 'H' {
                    Some((k + 2, Value::HexString(body)))
                } else if k + 1 < s.len() && s[k + 1] == 'B' {
                    Some((k + 2, Value::BitString(body)))
                } else if k + 1 < s.len() && s[k + 1] == 'O' {
                    Some((k + 2, Value::OctetString(body)))
                } else {
                    None
                }
            },
            None => None,
        }
    } else {
        None
    }
}

pub open spec fn is_open_record(c: char) -> bool {
    c == '{' || c == '['
}

pub open spec fn is_close_record(c: char) -> bool {
    c == '}' || c == ']'
}

pub open spec fn is_open_array(c: char) -> bool {
    c == '(' || c == '{' || c == '['
}

pub open spec fn is_close_array(c: char) -> bool {
    c == ')' || c == '}' || c == ']'
}

/// One value at `i`, after blanks: its end and model. Where no form
/// matches, the value is `Empty` and ends after the blanks.
pub open spec fn value_spec(s: Seq<char>, i: int) -> (int, Value)
    decreases s.len() - i, 3int,
{
    if !(0 <= i <= s.len()) {
        (i, Value::Empty)
    } else {
        let j = space_end(s, i);
        if record_spec(s, j) is Some {
            let (e, f) = record_spec(s, j)->0;
            (e, Value::Record(f))
        } else if array_spec(s, j) is Some {
            let (e, v) = array_spec(s, j)->0;
            (e, Value::Array(v))
        } else if integer_end(s, j) is Some {
            let e = integer_end(s, j)->0;
            (e, Value::Integer(s.subrange(j, e)))
        } else if at_charstring_spec(s, j) is Some {
            let (e, t) = at_charstring_spec(s, j)->0;
            (e, Value::CharString(t))
        } else if smart_charstring_spec(s, j) is Some {
            let (e, t) = smart_charstring_spec(s, j)->0;
            (e, Value::CharString(t))
        } else if charstring_spec(s, j) is Some {
            let (e, t) = charstring_spec(s, j)->0;
            (e, Value::CharString(t))
        } else if special_string_spec(s, j) is Some {
            special_string_spec(s, j)->0
        } else if j < s.len() && s[j] == '?' {
            (j + 1, Value::AnyValue)
        } else if j < s.len() && s[j] == '*' {
            (j + 1, Value::AnyOrOmit)
        } else if identifier_end(s, j) is Some {
            let e = identifier_end(s, j)->0;
            (e, Value::Identifier(s.subrange(j, e)))
        } else {
            (j, Value::Empty)
        }
    }
}

/// A record `{key: value, ...}` (or with `[]`) at `j`.
pub open spec fn record_spec(s: Seq<char>, j: int) -> Option<(int, Seq<(Seq<char>, Value)>)>
    decreases s.len() - j, 2int,
{
    if 0 <= j < s.len() && is_open_record(s[j]) {
        let (e, f) = fields_spec(s, j + 1);
        let t = space_end(s, e);
        if 0 <= t < s.len() && is_close_record(s[t]) { Some((t + 1, f)) } else { None }
    } else {
        None
    }
}

/// One `key: value` field at `p`.
pub open spec fn field_spec(s: Seq<char>, p: int) -> Option<(int, (Seq<char>, Value))>
    decreases s.len() - p, 0int,
{
    if !(0 <= p <= s.len()) {
        None
    } else {
        let a = space_end(s, p);
        match identifier_end(s, a) {
            Some(b) => {
                let c = space_end(s, b);
                if p <= c < s.len() && s[c] == ':' {
                    let (e, v) = value_spec(s, c + 1);
                    Some((e, (s.subrange(a, b), v)))
                } else {
                    None
                }
            },
            None => None,
        }
    }
}

/// Fields separated by commas from `p`; possibly none.
pub open spec fn fields_spec(s: Seq<char>, p: int) -> (int, Seq<(Seq<char>, Value)>)
    decreases s.len() - p, 1int,
{
    if !(0 <= p <= s.len()) {
        (p, Seq::empty())
    } else {
        match field_spec(s, p) {
            Some((e, f)) => if p < e <= s.len() {
                more_fields_spec(s, e, seq![f])
            } else {
                (p, Seq::empty())
            },
            None => (p, Seq::empty()),
        }
    }
}

/// Further `, field` items after position `q`, appended to `acc`.
pub open spec fn more_fields_spec(s: Seq<char>, q: int, acc: Seq<(Seq<char>, Value)>) -> (
    int,
    Seq<(Seq<char>, Value)>,
)
    decreases s.len() - q, 1int,
{
    if !(0 <= q <= s.len()) {
        (q, acc)
    } else {
        let t = space_end(s, q);
        if q <= t < s.len() && s[t] == ',' {
            match field_spec(s, t + 1) {
                Some((e, f)) => if q < e <= s.len() {
                    more_fields_spec(s, e, acc.push(f))
                } else {
                    (q, acc)
                },
                None => (q, acc),
            }
        } else {
            (q, acc)
        }
    }
}

/// An array `(v, ...)`, `{...}` or `[...]` at `j`.
pub open spec fn array_spec(s: Seq<char>, j: int) -> Option<(int, Seq<Value>)>
    decreases s.len() - j, 2int,
{
    if 0 <= j < s.len() && is_open_array(s[j]) {
        let (e, v) = elements_spec(s, j + 1);
        if 0 <= e < s.len() && is_close_array(s[e]) { Some((e + 1, v)) } else { None }
    } else {
        None
    }
}

/// Values separated by commas from `p`, with the blanks after them; none
/// where only blanks remain.
pub open spec fn elements_spec(s: Seq<char>, p: int) -> (int, Seq<Value>)
    decreases s.len() - p, 5int,
{
    if !(0 <= p <= s.len()) {
        (p, Seq::empty())
    } else {
        let a = space_end(s, p);
        if a == s.len() {
            (a, Seq::empty())
        } else {
            let (e, v) = value_spec(s, a);
            if p <= e <= s.len() {
                let (f, vs) = more_elements_spec(s, e, seq![v]);
                (space_end(s, f), vs)
            } else {
                (p, Seq::empty())
            }
        }
    }
}

/// Further `, value` items after position `q`, appended to `acc`.
pub open spec fn more_elements_spec(s: Seq<char>, q: int, acc: Seq<Value>) -> (int, Seq<Value>)
    decreases s.len() - q, 4int,
{
    if !(0 <= q <= s.len()) {
        (q, acc)
    } else {
        let t = space_end(s, q);
        if q <= t < s.len() && s[t] == ',' {
            let (e, v) = value_spec(s, t + 1);
            if q < e <= s.len() {
                more_elements_spec(s, e, acc.push(v))
            } else {
                (q, acc)
            }
        } else {
            (q, acc)
        }
    }
}

/// One value at `i`, with blanks around it and an optional `PDU:` prefix.
pub open spec fn parse_spec(s: Seq<char>, i: int) -> (int, Value) {
    let j = space_end(s, i);
    let k = if occurs_at(s, j, "PDU:"@) { j + 4 } else { j };
    let (e, v) = value_spec(s, k);
    (space_end(s, e), v)
}

/// Further `,` separated values after `q` (no blanks before the comma).
pub open spec fn more_parsed_spec(s: Seq<char>, q: int, acc: Seq<Value>) -> (int, Seq<Value>)
    decreases s.len() - q,
{
    if 0 <= q < s.len() && s[q] == ',' {
        let (e, v) = parse_spec(s, q + 1);
        if q < e <= s.len() {
            more_parsed_spec(s, e, acc.push(v))
        } else {
            (q, acc)
        }
    } else {
        (q, acc)
    }
}

/// A comma-separated list of values: none where the input is blank.
pub open spec fn parse_list_spec(s: Seq<char>) -> (int, Seq<Value>) {
    let a = space_end(s, 0);
    if a == s.len() {
        (a, Seq::empty())
    } else {
        let (e, v) = parse_spec(s, a);
        let (f, vs) = more_parsed_spec(s, e, seq![v]);
        (space_end(s, f), vs)
    }
}


proof fn lemma_record_model(f: Vec<(String, TTCNValue)>)
    ensures
        TTCNValue::Record(f).model() == Value::Record(fields_model(f@)),
{
    let m = TTCNValue::Record(f).model();
    assert(m->Record_0 =~= fields_model(f@));
}

proof fn lemma_array_model(v: Vec<TTCNValue>)
    ensures
        TTCNValue::Array(v).model() == Value::Array(values_model(v@)),
{
    let m = TTCNValue::Array(v).model();
    assert(m->Array_0 =~= values_model(v@));
}

fn identifier(s: &Vec<char>, i: usize) -> (r: Option<usize>)
    requires
        i <= s.len(),
    ensures
        match r {
            Some(j) => identifier_end(s@, i as int) == Some(j as int) && i < j <= s.len(),
            None => identifier_end(s@, i as int) is None,
        },
{
    if i < s.len() && s[i] == '<' {
        let j = skip_word(s, i + 1, true);
        if j > i + 1 && j < s.len() && s[j] == '>' {
            return Some(j + 1);
        }
    }
    let k = skip_word(s, i, false);
    if k > i { Some(k) } else { None }
}

fn charstring(s: &Vec<char>, i: usize) -> (r: Option<usize>)
    requires
        i <= s.len(),
    ensures
        match r {
            Some(e) => charstring_spec(s@, i as int) == Some((e as int, s@.subrange(i + 1, e - 1)))
                && i + 2 <= e <= s.len(),
            None => charstring_spec(s@, i as int) is None,
        },
{
    if i < s.len() && s[i] == '"' {
        match find_char(s, i + 1, '"') {
            Some(k) => Some(k + 1),
            None => None,
        }
    } else {
        None
    }
}

fn at_charstring(s: &Vec<char>, i: usize) -> (r: Option<usize>)
    requires
        i <= s.len(),
    ensures
        match r {
            Some(e) => at_charstring_spec(s@, i as int) == Some(
                (e as int, s@.subrange(i + 1, e - 1)),
            ) && i + 2 <= e <= s.len(),
            None => at_charstring_spec(s@, i as int) is None,
        },
{
    if i < s.len() && s[i] == '"' {
        match parse_at(s, i + 1) {
            Some(j) => if j < s.len() && s[j] == '"' { Some(j + 1) } else { None },
            None => None,
        }
    } else {
        None
    }
}

fn closes(s: &Vec<char>, q: usize) -> (r: bool)
    requires
        q <= s.len(),
    ensures
        r == closes_after(s@, q as int),
{
    let t = skip_whitespace(s, q);
    t == s.len() || s[t] == ',' || s[t] == '}' || s[t] == ']'
}

fn smart_charstring(s: &Vec<char>, i: usize) -> (r: Option<usize>)
    requires
        i <= s.len(),
    ensures
        match r {
            Some(e) => smart_charstring_spec(s@, i as int) == Some(
                (e as int, s@.subrange(i + 1, e - 1)),
            ) && i + 2 <= e <= s.len(),
            None => smart_charstring_spec(s@, i as int) is None,
        },
{
    if !(i < s.len() && s[i] == '"') {
        return None;
    }
    let mut p = i + 1;
    let mut matched = false;
    while p < s.len()
        invariant
            i < p <= s.len(),
            s@[i as int] == '"',
            smart_close(s@, i + 1, false) == smart_close(s@, p as int, matched),
        decreases s.len() - p,
    {
        if s[p] == '"' {
            if !matched && closes(s, p + 1) {
                return Some(p + 1);
            }
            matched = !matched;
        }
        p = p + 1;
    }
    None
}

fn special_string(s: &Vec<char>, i: usize) -> (r: Option<(usize, TTCNValue)>)
    requires
        i <= s.len(),
    ensures
        match r {
            Some((e, v)) => special_string_spec(s@, i as int) == Some((e as int, v.model())) && i
                < e <= s.len(),
            None => special_string_spec(s@, i as int) is None,
        },
{
    if i < s.len() && s[i] == '\'' {
        match find_char(s, i + 1, '\'') {
            Some(k) => {
                let body = string_of(s, i + 1, k);
                if k + 1 < s.len() && s[k + 1] == 'H' {
                    Some((k + 2, TTCNValue::HexString(body)))
                } else if k + 1 < s.len() && s[k + 1] == 'B' {
                    Some((k + 2, TTCNValue::BitString(body)))
                } else if k + 1 < s.len() && s[k + 1] == 'O' {
                    Some((k + 2, TTCNValue::OctetString(body)))
                } else {
                    None
                }
            },
            None => None,
        }
    } else {
        None
    }
}

fn value(s: &Vec<char>, i: usize) -> (r: (usize, TTCNValue))
    requires
        i <= s.len(),
    ensures
        r.0 == value_spec(s@, i as int).0,
        r.1.model() == value_spec(s@, i as int).1,
        i <= r.0 <= s.len(),
    decreases s.len() - i, 3int,
{
    let j = skip_space(s, i);
    if let Some((e, f)) = record(s, j) {
        proof {
            lemma_record_model(f);
        }
        return (e, TTCNValue::Record(f));
    }
    if let Some((e, v)) = array(s, j) {
        proof {
            lemma_array_model(v);
        }
        return (e, TTCNValue::Array(v));
    }
    if let Some(e) = integer(s, j) {
        return (e, TTCNValue::Integer(string_of(s, j, e)));
    }
    if let Some(e) = at_charstring(s, j) {
        return (e, TTCNValue::CharString(string_of(s, j + 1, e - 1)));
    }
    if let Some(e) = smart_charstring(s, j) {
        return (e, TTCNValue::CharString(string_of(s, j + 1, e - 1)));
    }
    if let Some(e) = charstring(s, j) {
        return (e, TTCNValue::CharString(string_of(s, j + 1, e - 1)));
    }
    if let Some(r) = special_string(s, j) {
        return r;
    }
    if j < s.len() && s[j] == '?' {
        return (j + 1, TTCNValue::AnyValue);
    }
    if j < s.len() && s[j] == '*' {
        return (j + 1, TTCNValue::AnyOrOmit);
    }
    if let Some(e) = identifier(s, j) {
        return (e, TTCNValue::Identifier(string_of(s, j, e)));
    }
    (j, TTCNValue::Empty)
}

fn record(s: &Vec<char>, j: usize) -> (r: Option<(usize, Vec<(String, TTCNValue)>)>)
    requires
        j <= s.len(),
    ensures
        match r {
            Some((e, f)) => record_spec(s@, j as int) == Some((e as int, fields_model(f@))) && j
                < e <= s.len(),
            None => record_spec(s@, j as int) is None,
        },
    decreases s.len() - j, 2int,
{
    if j < s.len() && (s[j] == '{' || s[j] == '[') {
        let (e, f) = fields(s, j + 1);
        let t = skip_space(s, e);
        if t < s.len() && (s[t] == '}' || s[t] == ']') {
            Some((t + 1, f))
        } else {
            None
        }
    } else {
        None
    }
}

fn field(s: &Vec<char>, p: usize) -> (r: Option<(usize, (String, TTCNValue))>)
    requires
        p <= s.len(),
    ensures
        match r {
            Some((e, f)) => field_spec(s@, p as int) == Some((e as int, (f.0@, f.1.model()))) && p
                < e <= s.len(),
            None => field_spec(s@, p as int) is None,
        },
    decreases s.len() - p, 0int,
{
    let a = skip_space(s, p);
    match identifier(s, a) {
        Some(b) => {
            let c = skip_space(s, b);
            if c < s.len() && s[c] == ':' {
                let (e, v) = value(s, c + 1);
                Some((e, (string_of(s, a, b), v)))
            } else {
                None
            }
        },
        None => None,
    }
}

fn fields(s: &Vec<char>, p: usize) -> (r: (usize, Vec<(String, TTCNValue)>))
    requires
        p <= s.len(),
    ensures
        r.0 == fields_spec(s@, p as int).0,
        fields_model(r.1@) == fields_spec(s@, p as int).1,
        p <= r.0 <= s.len(),
    decreases s.len() - p, 1int,
{
    match field(s, p) {
        Some((e, f)) => {
            let ghost m = (f.0@, f.1.model());
            let acc = vec![f];
            assert(fields_model(acc@) =~= seq![m]);
            more_fields(s, e, acc)
        },
        None => {
            let acc: Vec<(String, TTCNValue)> = Vec::new();
            assert(fields_model(acc@) =~= Seq::empty());
            (p, acc)
        },
    }
}

fn more_fields(s: &Vec<char>, q: usize, acc: Vec<(String, TTCNValue)>) -> (r: (
    usize,
    Vec<(String, TTCNValue)>,
))
    requires
        q <= s.len(),
    ensures
        r.0 == more_fields_spec(s@, q as int, fields_model(acc@)).0,
        fields_model(r.1@) == more_fields_spec(s@, q as int, fields_model(acc@)).1,
        q <= r.0 <= s.len(),
    decreases s.len() - q, 1int,
{
    let t = skip_space(s, q);
    if t < s.len() && s[t] == ',' {
        match field(s, t + 1) {
            Some((e, f)) => {
                let ghost m = (f.0@, f.1.model());
                let mut acc = acc;
                let ghost before = acc@;
                acc.push(f);
                assert(fields_model(acc@) =~= fields_model(before).push(m));
                more_fields(s, e, acc)
            },
            None => (q, acc),
        }
    } else {
        (q, acc)
    }
}

fn array(s: &Vec<char>, j: usize) -> (r: Option<(usize, Vec<TTCNValue>)>)
    requires
        j <= s.len(),
    ensures
        match r {
            Some((e, v)) => array_spec(s@, j as int) == Some((e as int, values_model(v@))) && j < e
                <= s.len(),
            None => array_spec(s@, j as int) is None,
        },
    decreases s.len() - j, 2int,
{
    if j < s.len() && (s[j] == '(' || s[j] == '{' || s[j] == '[') {
        let (e, v) = elements(s, j + 1);
        if e < s.len() && (s[e] == ')' || s[e] == '}' || s[e] == ']') {
            Some((e + 1, v))
        } else {
            None
        }
    } else {
        None
    }
}

fn elements(s: &Vec<char>, p: usize) -> (r: (usize, Vec<TTCNValue>))
    requires
        p <= s.len(),
    ensures
        r.0 == elements_spec(s@, p as int).0,
        values_model(r.1@) == elements_spec(s@, p as int).1,
        p <= r.0 <= s.len(),
    decreases s.len() - p, 5int,
{
    let a = skip_space(s, p);
    if a == s.len() {
        let acc: Vec<TTCNValue> = Vec::new();
        assert(values_model(acc@) =~= Seq::empty());
        return (a, acc);
    }
    let (e, v) = value(s, a);
    let ghost m = v.model();
    let acc = vec![v];
    assert(values_model(acc@) =~= seq![m]);
    let (f, vs) = more_elements(s, e, acc);
    (skip_space(s, f), vs)
}

fn more_elements(s: &Vec<char>, q: usize, acc: Vec<TTCNValue>) -> (r: (usize, Vec<TTCNValue>))
    requires
        q <= s.len(),
    ensures
        r.0 == more_elements_spec(s@, q as int, values_model(acc@)).0,
        values_model(r.1@) == more_elements_spec(s@, q as int, values_model(acc@)).1,
        q <= r.0 <= s.len(),
    decreases s.len() - q, 4int,
{
    let t = skip_space(s, q);
    if t < s.len() && s[t] == ',' {
        let (e, v) = value(s, t + 1);
        let ghost m = v.model();
        let mut acc = acc;
        let ghost before = acc@;
        acc.push(v);
        assert(values_model(acc@) =~= values_model(before).push(m));
        more_elements(s, e, acc)
    } else {
        (q, acc)
    }
}

fn parse_at_position(s: &Vec<char>, i: usize) -> (r: (usize, TTCNValue))
    requires
        i <= s.len(),
    ensures
        r.0 == parse_spec(s@, i as int).0,
        r.1.model() == parse_spec(s@, i as int).1,
        i <= r.0 <= s.len(),
{
    let j = skip_space(s, i);
    let pdu = crate::text::chars_of("PDU:");
    proof {
        reveal_strlit("PDU:");
    }
    let k = if matches_at(s, j, &pdu) {
        j + 4
    } else {
        j
    };
    let (e, v) = value(s, k);
    (skip_space(s, e), v)
}

fn more_parsed(s: &Vec<char>, q: usize, acc: Vec<TTCNValue>) -> (r: (usize, Vec<TTCNValue>))
    requires
        q <= s.len(),
    ensures
        r.0 == more_parsed_spec(s@, q as int, values_model(acc@)).0,
        values_model(r.1@) == more_parsed_spec(s@, q as int, values_model(acc@)).1,
        q <= r.0 <= s.len(),
    decreases s.len() - q,
{
    if q < s.len() && s[q] == ',' {
        let (e, v) = parse_at_position(s, q + 1);
        let ghost m = v.model();
        let mut acc = acc;
        let ghost before = acc@;
        acc.push(v);
        assert(values_model(acc@) =~= values_model(before).push(m));
        more_parsed(s, e, acc)
    } else {
        (q, acc)
    }
}

/// Parses one TTCN-3 value at the start of `input`, after blanks and an
/// optional `PDU:` prefix; returns the rest of the input, after the blanks
/// that follow the value, and the value. Text that matches no form gives
/// `Empty`.
pub fn parse(input: &str) -> (r: (String, TTCNValue))
    ensures
        0 <= parse_spec(input@, 0).0 <= input@.len(),
        r.0@ == input@.subrange(parse_spec(input@, 0).0, input@.len() as int),
        r.1.model() == parse_spec(input@, 0).1,
{
    let s = crate::text::chars_of(input);
    let (e, v) = parse_at_position(&s, 0);
    (string_of(&s, e, s.len()), v)
}

/// Parses a comma-separated list of TTCN-3 values; blank input gives an
/// empty list. Returns the rest of the input and the values.
pub fn parse_list(input: &str) -> (r: (String, Vec<TTCNValue>))
    ensures
        0 <= parse_list_spec(input@).0 <= input@.len(),
        r.0@ == input@.subrange(parse_list_spec(input@).0, input@.len() as int),
        values_model(r.1@) == parse_list_spec(input@).1,
{
    let s = crate::text::chars_of(input);
    let a = skip_space(&s, 0);
    if a == s.len() {
        let none: Vec<TTCNValue> = Vec::new();
        assert(values_model(none@) =~= Seq::empty());
        return (string_of(&s, a, s.len()), none);
    }
    let (e, v) = parse_at_position(&s, a);
    let ghost m = v.model();
    let acc = vec![v];
    assert(values_model(acc@) =~= seq![m]);
    let (f, vs) = more_parsed(&s, e, acc);
    let end = skip_space(&s, f);
    (string_of(&s, end, s.len()), vs)
}


/// Escape sequences that set the look of each kind of value when it is
/// shown; empty strings give plain text.
pub struct Palette {
    pub identifier: String,
    pub integer: String,
    pub bitstring: String,
    pub hexstring: String,
    pub octetstring: String,
    pub charstring: String,
    pub bold: String,
    pub reset: String,
}

/// `s` as Rust's `Debug` shows a string: quoted, with escapes.
pub uninterp spec fn debug_of(s: Seq<char>) -> Seq<char>;

/// Relies on `<str as Debug>::fmt`: the result depends on the characters alone.
#[verifier::external_body]
fn debug_quoted(s: &str) -> (r: String)
    ensures
        r@ == debug_of(s@),
{
    format!("{:?}", s)
}

/// `n` spaces.
pub open spec fn spaces(n: nat) -> Seq<char> {
    Seq::new(n, |i: int| ' ')
}

/// How a value is shown, indented by `pad` on the lines after the first.
pub open spec fn render_spec(v: Value, pad: nat, p: Palette) -> Seq<char>
    decreases v, 0int,
{
    match v {
        Value::Empty => "<Empty>"@,
        Value::Identifier(s) => p.identifier@ + s + p.reset@,
        Value::Integer(s) => p.integer@ + s + p.reset@,
        Value::BitString(s) => p.bitstring@ + "0b"@ + s + p.reset@,
        Value::HexString(s) => p.hexstring@ + "0x"@ + s + p.reset@,
        Value::OctetString(s) => p.octetstring@ + "0x"@ + s + p.reset@,
        Value::CharString(s) => p.charstring@ + debug_of(s) + p.reset@,
        Value::AnyValue => p.bold@ + "?"@ + p.reset@,
        Value::AnyOrOmit => p.bold@ + "*"@ + p.reset@,
        Value::Record(fields) => if fields.len() == 0 {
            "{}"@
        } else {
            "{\n"@ + render_fields(fields, pad + 2, p) + spaces(pad) + "}"@
        },
        Value::Array(items) => "[\n"@ + render_items(items, pad + 2, p) + spaces(pad) + "]"@,
    }
}

/// The lines of a record's fields, each indented by `pad`.
pub open spec fn render_fields(fields: Seq<(Seq<char>, Value)>, pad: nat, p: Palette) -> Seq<char>
    decreases fields, 2int,
{
    if fields.len() == 0 {
        Seq::empty()
    } else {
        render_fields(fields.drop_last(), pad, p) + spaces(pad) + render_field(
            fields.last().0,
            fields.last().1,
            pad,
            p,
        ) + ",\n"@
    }
}

/// One field: a chain of records of a single field each shows as one
/// dotted key, `a.b.c: value`.
pub open spec fn render_field(key: Seq<char>, v: Value, pad: nat, p: Palette) -> Seq<char>
    decreases v, 1int,
{
    match v {
        Value::Record(fields) => if fields.len() == 1 {
            render_field(key + "."@ + fields[0].0, fields[0].1, pad, p)
        } else {
            key + ": "@ + render_spec(v, pad, p)
        },
        _ => key + ": "@ + render_spec(v, pad, p),
    }
}

/// The lines of an array's items, each indented by `pad`.
pub open spec fn render_items(items: Seq<Value>, pad: nat, p: Palette) -> Seq<char>
    decreases items, 2int,
{
    if items.len() == 0 {
        Seq::empty()
    } else {
        render_items(items.drop_last(), pad, p) + spaces(pad) + render_spec(items.last(), pad, p)
            + ",\n"@
    }
}


fn concat(a: &String, b: &str) -> (r: String)
    ensures
        r@ == a@ + b@,
{
    let mut r = a.clone();
    r.append(b);
    r
}

fn show_value(v: &TTCNValue, indent: &String, p: &Palette) -> (r: String)
    requires
        indent@ == spaces(indent@.len()),
    ensures
        r@ == render_spec(v.model(), indent@.len(), *p),
    decreases v, 0int,
{
    match v {
        TTCNValue::Empty => "<Empty>".to_string(),
        TTCNValue::Identifier(s) => concat(&concat(&p.identifier, s.as_str()), p.reset.as_str()),
        TTCNValue::Integer(s) => concat(&concat(&p.integer, s.as_str()), p.reset.as_str()),
        TTCNValue::BitString(s) => concat(
            &concat(&concat(&p.bitstring, "0b"), s.as_str()),
            p.reset.as_str(),
        ),
        TTCNValue::HexString(s) => concat(
            &concat(&concat(&p.hexstring, "0x"), s.as_str()),
            p.reset.as_str(),
        ),
        TTCNValue::OctetString(s) => concat(
            &concat(&concat(&p.octetstring, "0x"), s.as_str()),
            p.reset.as_str(),
        ),
        TTCNValue::CharString(s) => {
            let q = debug_quoted(s.as_str());
            concat(&concat(&p.charstring, q.as_str()), p.reset.as_str())
        },
        TTCNValue::AnyValue => concat(&concat(&p.bold, "?"), p.reset.as_str()),
        TTCNValue::AnyOrOmit => concat(&concat(&p.bold, "*"), p.reset.as_str()),
        TTCNValue::Record(fields) => {
            let ghost fm = fields_model(fields@);
            proof {
                lemma_record_model(*fields);
            }
            if fields.len() == 0 {
                return "{}".to_string();
            }
            let inner = concat(indent, "  ");
            assert(inner@ =~= spaces(indent@.len() + 2)) by {
                reveal_strlit("  ");
            }
            let mut out = "{\n".to_string();
            let mut i: usize = 0;
            while i < fields.len()
                invariant
                    i <= fields.len(),
                    *v == TTCNValue::Record(*fields),
                    fm == fields_model(fields@),
                    inner@ == spaces(indent@.len() + 2),
                    inner@.len() == indent@.len() + 2,
                    out@ == "{\n"@ + render_fields(fm.subrange(0, i as int), indent@.len() + 2, *p),
                decreases fields.len() - i,
            {
                let key = fields[i].0.clone();
                proof {
                    assert(decreases_to!(*v => v->Record_0));
                    assert(decreases_to!(v->Record_0 => v->Record_0@));
                    assert(decreases_to!(v->Record_0@ => v->Record_0@[i as int]));
                    assert(decreases_to!(v->Record_0@[i as int] => v->Record_0@[i as int].1));
                }
                let line = show_field(key, &fields[i].1, &inner, p);
                out.append(inner.as_str());
                out.append(line.as_str());
                out.append(",\n");
                assert(fm.subrange(0, i + 1).drop_last() =~= fm.subrange(0, i as int));
                assert(out@ =~= "{\n"@ + render_fields(fm.subrange(0, i + 1), indent@.len() + 2, *p));
                i = i + 1;
            }
            assert(fm.subrange(0, i as int) =~= fm);
            out.append(indent.as_str());
            out.append("}");
            out
        },
        TTCNValue::Array(items) => {
            let ghost im = values_model(items@);
            proof {
                lemma_array_model(*items);
            }
            let inner = concat(indent, "  ");
            assert(inner@ =~= spaces(indent@.len() + 2)) by {
                reveal_strlit("  ");
            }
            let mut out = "[\n".to_string();
            let mut i: usize = 0;
            assert(render_items(im.subrange(0, 0), indent@.len() + 2, *p) =~= Seq::<char>::empty());
            while i < items.len()
                invariant
                    i <= items.len(),
                    *v == TTCNValue::Array(*items),
                    im == values_model(items@),
                    inner@ == spaces(indent@.len() + 2),
                    inner@.len() == indent@.len() + 2,
                    out@ == "[\n"@ + render_items(im.subrange(0, i as int), indent@.len() + 2, *p),
                decreases items.len() - i,
            {
                proof {
                    assert(decreases_to!(*v => v->Array_0));
                    assert(decreases_to!(v->Array_0 => v->Array_0@));
                    assert(decreases_to!(v->Array_0@ => v->Array_0@[i as int]));
                }
                let line = show_value(&items[i], &inner, p);
                out.append(inner.as_str());
                out.append(line.as_str());
                out.append(",\n");
                assert(im.subrange(0, i + 1).drop_last() =~= im.subrange(0, i as int));
                assert(out@ =~= "[\n"@ + render_items(im.subrange(0, i + 1), indent@.len() + 2, *p));
                i = i + 1;
            }
            assert(im.subrange(0, i as int) =~= im);
            out.append(indent.as_str());
            out.append("]");
            out
        },
    }
}

fn show_field(key: String, v: &TTCNValue, indent: &String, p: &Palette) -> (r: String)
    requires
        indent@ == spaces(indent@.len()),
    ensures
        r@ == render_field(key@, v.model(), indent@.len(), *p),
    decreases v, 1int,
{
    if let TTCNValue::Record(fields) = v {
        if fields.len() == 1 {
            proof {
                lemma_record_model(*fields);
            }
            let dotted = concat(&concat(&key, "."), fields[0].0.as_str());
            return show_field(dotted, &fields[0].1, indent, p);
        }
    }
    let head = concat(&key, ": ");
    let body = show_value(v, indent, p);
    concat(&head, body.as_str())
}

/// A field's key and value as shown: a chain of records of one field each
/// gives a dotted key and the innermost value.
pub open spec fn flatten_spec(key: Seq<char>, v: Value) -> (Seq<char>, Value)
    decreases v,
{
    match v {
        Value::Record(fields) => if fields.len() == 1 {
            flatten_spec(key + "."@ + fields[0].0, fields[0].1)
        } else {
            (key, v)
        },
        _ => (key, v),
    }
}

/// Follows a chain of records of one field each from `value`: the dotted
/// key, `key.a.b`, and the value at the end of the chain.
pub fn flatten<'v>(key: &str, value: &'v TTCNValue) -> (r: (String, &'v TTCNValue))
    ensures
        (r.0@, r.1.model()) == flatten_spec(key@, value.model()),
    decreases value,
{
    if let TTCNValue::Record(fields) = value {
        if fields.len() == 1 {
            proof {
                lemma_record_model(*fields);
            }
            let dotted = concat(&concat(&key.to_string(), "."), fields[0].0.as_str());
            return flatten(dotted.as_str(), &fields[0].1);
        }
    }
    (key.to_string(), value)
}

impl TTCNValue {
    /// The value as shown in the log: records and arrays over several
    /// lines, nested ones indented by two more spaces.
    pub fn render(&self, palette: &Palette) -> (r: String)
        ensures
            r@ == render_spec(self.model(), 0, *palette),
    {
        let indent = String::new();
        assert(indent@ =~= spaces(0));
        show_value(self, &indent, palette)
    }
}

} // verus!
