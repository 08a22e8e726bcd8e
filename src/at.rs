//! The subset of AT command responses that test logs embed, unescaped,
//! inside TTCN-3 character strings.
use vstd::prelude::*;
use crate::text::{
    chars_of, find_char, find_from, matches_at, numeric_end, occurs_at, skip_numeric, skip_space,
    space_end,
};

verus! {

/// End of an integer (optional `-`, then numeric characters) starting at `i`.
pub open spec fn integer_end(s: Seq<char>, i: int) -> Option<int> {
    let j = if 0 <= i < s.len() && s[i] == '-' { i + 1 } else { i };
    let k = numeric_end(s, j);
    if k > j { Some(k) } else { None }
}

/// End of a range `N-M` starting at `i`.
pub open spec fn range_end(s: Seq<char>, i: int) -> Option<int> {
    match integer_end(s, i) {
        Some(j) => if 0 <= j < s.len() && s[j] == '-' { integer_end(s, j + 1) } else { None },
        None => None,
    }
}

/// End of a double-quoted string without inner quotes starting at `i`.
pub open spec fn string_end(s: Seq<char>, i: int) -> Option<int> {
    if 0 <= i < s.len() && s[i] == '"' {
        match find_from(s, i + 1, '"') {
            Some(k) => Some(k + 1),
            None => None,
        }
    } else {
        None
    }
}

/// End of a comma, with blanks around it, starting at `i`.
pub open spec fn comma_end(s: Seq<char>, i: int) -> Option<int> {
    let j = space_end(s, i);
    if 0 <= j < s.len() && s[j] == ',' { Some(space_end(s, j + 1)) } else { None }
}

/// End of one parameter value starting at `i`: a range, an integer, a
/// quoted string or a parenthesised list.
pub open spec fn value_end(s: Seq<char>, i: int) -> Option<int>
    decreases s.len() - i, 0int,
{
    if !(0 <= i <= s.len()) {
        None
    } else if range_end(s, i) is Some {
        range_end(s, i)
    } else if integer_end(s, i) is Some {
        integer_end(s, i)
    } else if string_end(s, i) is Some {
        string_end(s, i)
    } else if i < s.len() && s[i] == '(' {
        let j = list_end(s, i + 1);
        if 0 <= j < s.len() && s[j] == ')' { Some(j + 1) } else { None }
    } else {
        None
    }
}

/// End of a comma-separated list of possibly empty values starting at `i`.
pub open spec fn list_end(s: Seq<char>, i: int) -> int
    decreases s.len() - i, 1int,
{
    if !(0 <= i <= s.len()) {
        i
    } else {
        let m = match value_end(s, i) {
            Some(e) => e,
            None => i,
        };
        match comma_end(s, m) {
            Some(k) => if i < k <= s.len() { list_end(s, k) } else { m },
            None => m,
        }
    }
}

/// The commands with parameters that are recognised.
pub open spec fn commands() -> Seq<Seq<char>> {
    seq![
        "+CRING:"@, "+CREG:"@, "+CLIP:"@, "+COLP:"@, "+CCWA:"@, "+CUSB:"@, "+CCCM:"@,
        "+CSSI:"@, "+CSSU:"@, "+CBC:"@, "+CSQ:"@, "+CIEV:"@, "+CIND:"@, "+CCWV:"@,
        "+CTZV:"@, "+CGREG:"@, "+CMTI:"@, "+CMT:"@, "+CDSI:"@, "+CBM:"@, "+BINP:"@,
        "+CNUM:"@, "+COPS:"@,
    ]
}

/// End of an AT response starting at `i`, trying the commands from the `k`-th on.
pub open spec fn command_end_from(s: Seq<char>, i: int, k: int) -> Option<int>
    decreases commands().len() - k,
{
    if !(0 <= k < commands().len()) {
        None
    } else if occurs_at(s, i, commands()[k]) {
        Some(list_end(s, space_end(s, i + commands()[k].len())))
    } else {
        command_end_from(s, i, k + 1)
    }
}

/// End of an AT response starting at `i`: the first command that matches,
/// optional blanks, then its parameter list.
pub open spec fn command_end(s: Seq<char>, i: int) -> Option<int> {
    command_end_from(s, i, 0)
}

fn command(k: usize) -> (r: &'static str)
    requires
        k < commands().len(),
    ensures
        r@ == commands()[k as int],
{
    match k {
        0 => "+CRING:",
        1 => "+CREG:",
        2 => "+CLIP:",
        3 => "+COLP:",
        4 => "+CCWA:",
        5 => "+CUSB:",
        6 => "+CCCM:",
        7 => "+CSSI:",
        8 => "+CSSU:",
        9 => "+CBC:",
        10 => "+CSQ:",
        11 => "+CIEV:",
        12 => "+CIND:",
        13 => "+CCWV:",
        14 => "+CTZV:",
        15 => "+CGREG:",
        16 => "+CMTI:",
        17 => "+CMT:",
        18 => "+CDSI:",
        19 => "+CBM:",
        20 => "+BINP:",
        21 => "+CNUM:",
        _ => "+COPS:",
    }
}

pub fn integer(s: &Vec<char>, i: usize) -> (r: Option<usize>)
    requires
        i <= s.len(),
    ensures
        match r {
            Some(j) => integer_end(s@, i as int) == Some(j as int) && i < j <= s.len(),
            None => integer_end(s@, i as int) is None,
        },
{
    let j = if i < s.len() && s[i] == '-' { i + 1 } else { i };
    let k = skip_numeric(s, j);
    if k > j { Some(k) } else { None }
}

fn range(s: &Vec<char>, i: usize) -> (r: Option<usize>)
    requires
        i <= s.len(),
    ensures
        match r {
            Some(j) => range_end(s@, i as int) == Some(j as int) && i < j <= s.len(),
            None => range_end(s@, i as int) is None,
        },
{
    match integer(s, i) {
        Some(j) => if j < s.len() && s[j] == '-' { integer(s, j + 1) } else { None },
        None => None,
    }
}

fn string(s: &Vec<char>, i: usize) -> (r: Option<usize>)
    requires
        i <= s.len(),
    ensures
        match r {
            Some(j) => string_end(s@, i as int) == Some(j as int) && i < j <= s.len(),
            None => string_end(s@, i as int) is None,
        },
{
    if i < s.len() && s[i] == '"' {
        match find_char(s, i + 1, '"') {
            Some(k) => Some(k + 1),
            None => None,
        }
    } else {
        None
    }
}

fn comma(s: &Vec<char>, i: usize) -> (r: Option<usize>)
    requires
        i <= s.len(),
    ensures
        match r {
            Some(j) => comma_end(s@, i as int) == Some(j as int) && i < j <= s.len(),
            None => comma_end(s@, i as int) is None,
        },
{
    let j = skip_space(s, i);
    if j < s.len() && s[j] == ',' { Some(skip_space(s, j + 1)) } else { None }
}

fn value(s: &Vec<char>, i: usize) -> (r: Option<usize>)
    requires
        i <= s.len(),
    ensures
        match r {
            Some(j) => value_end(s@, i as int) == Some(j as int) && i < j <= s.len(),
            None => value_end(s@, i as int) is None,
        },
    decreases s.len() - i, 0int,
{
    if let Some(j) = range(s, i) {
        Some(j)
    } else if let Some(j) = integer(s, i) {
        Some(j)
    } else if let Some(j) = string(s, i) {
        Some(j)
    } else if i < s.len() && s[i] == '(' {
        let j = list(s, i + 1);
        if j < s.len() && s[j] == ')' { Some(j + 1) } else { None }
    } else {
        None
    }
}

fn list(s: &Vec<char>, i: usize) -> (r: usize)
    requires
        i <= s.len(),
    ensures
        r == list_end(s@, i as int),
        i <= r <= s.len(),
    decreases s.len() - i, 1int,
{
    let m = match value(s, i) {
        Some(e) => e,
        None => i,
    };
    match comma(s, m) {
        Some(k) => list(s, k),
        None => m,
    }
}

/// Recognises an AT response at position `i` of `s`: one of the known
/// commands, optional blanks, then its parameter list. Returns the position
/// after it.
pub fn parse_at(s: &Vec<char>, i: usize) -> (r: Option<usize>)
    requires
        i <= s.len(),
    ensures
        match r {
            Some(j) => command_end(s@, i as int) == Some(j as int) && i <= j <= s.len(),
            None => command_end(s@, i as int) is None,
        },
{
    let mut k: usize = 0;
    while k < 23
        invariant
            k <= commands().len(),
            commands().len() == 23,
            command_end(s@, i as int) == command_end_from(s@, i as int, k as int),
        decreases 23 - k,
    {
        let c = chars_of(command(k));
        if matches_at(s, i, &c) {
            let n = c.len();
            assert(i + n <= s.len());
            let j = skip_space(s, i + n);
            return Some(list(s, j));
        }
        k = k + 1;
    }
    None
}

/// Recognises an AT response at the start of `input`; returns the rest of
/// the input and the recognised text.
pub fn parse(input: &str) -> (r: Option<(String, String)>)
    ensures
        match r {
            Some((rest, text)) => command_end(input@, 0) matches Some(j) && text@ == input@.subrange(0, j)
                && rest@ == input@.subrange(j, input@.len() as int),
            None => command_end(input@, 0) is None,
        },
{
    let s = chars_of(input);
    match parse_at(&s, 0) {
        Some(j) => Some((crate::text::string_of(&s, j, s.len()), crate::text::string_of(&s, 0, j))),
        None => None,
    }
}

} // verus!
