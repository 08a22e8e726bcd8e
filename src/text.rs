//! Character-level helpers shared by the parsers: runs of characters,
//! searching, prefixes and trimming over `Seq<char>` models.
use vstd::prelude::*;

verus! {

/// The blank characters skipped between tokens.
pub open spec fn is_space(c: char) -> bool {
    c == ' ' || c == '\t' || c == '\r' || c == '\n'
}

/// Whether `std` classifies `c` as numeric (`char::is_numeric`).
pub uninterp spec fn numeric(c: char) -> bool;

/// Whether `std` classifies `c` as alphanumeric (`char::is_alphanumeric`).
pub uninterp spec fn alphanumeric(c: char) -> bool;

/// White space as Unicode's White_Space property has it, the set that
/// `char::is_whitespace` tests.
pub open spec fn whitespace(c: char) -> bool {
    let n = c as u32;
    (0x09 <= n <= 0x0d) || n == 0x20 || n == 0x85 || n == 0xa0 || n == 0x1680 || (0x2000 <= n
        <= 0x200a) || n == 0x2028 || n == 0x2029 || n == 0x202f || n == 0x205f || n == 0x3000
}

/// Relies on `char::is_numeric`.
#[verifier::external_body]
pub(crate) fn char_is_numeric(c: char) -> (r: bool)
    ensures
        r == numeric(c),
{
    c.is_numeric()
}

/// Relies on `char::is_alphanumeric`.
#[verifier::external_body]
pub(crate) fn char_is_alphanumeric(c: char) -> (r: bool)
    ensures
        r == alphanumeric(c),
{
    c.is_alphanumeric()
}

/// Whether `c` is white space.
pub fn char_is_whitespace(c: char) -> (r: bool)
    ensures
        r == whitespace(c),
{
    let n = c as u32;
    (0x09 <= n && n <= 0x0d) || n == 0x20 || n == 0x85 || n == 0xa0 || n == 0x1680 || (0x2000 <= n
        && n <= 0x200a) || n == 0x2028 || n == 0x2029 || n == 0x202f || n == 0x205f || n == 0x3000
}

/// Relies on `String::push`: appends one character.
#[verifier::external_body]
pub(crate) fn push_char(s: &mut String, c: char)
    ensures
        final(s)@ == old(s)@.push(c),
{
    s.push(c)
}

/// `j` ends the maximal run of characters satisfying `p` that starts at `i`.
pub open spec fn is_run_end(s: Seq<char>, i: int, j: int, p: spec_fn(char) -> bool) -> bool {
    &&& i <= j <= s.len()
    &&& forall|k: int| i <= k < j ==> #[trigger] p(s[k])
    &&& (j == s.len() || !p(s[j]))
}

/// End of the maximal run of characters satisfying `p` that starts at `i`
/// (`i` itself where `i` lies outside `s`).
pub open spec fn run_end(s: Seq<char>, i: int, p: spec_fn(char) -> bool) -> int {
    if exists|j: int| is_run_end(s, i, j, p) {
        choose|j: int| is_run_end(s, i, j, p)
    } else {
        i
    }
}

/// A run has a single end.
pub proof fn lemma_run_end(s: Seq<char>, i: int, j: int, p: spec_fn(char) -> bool)
    requires
        is_run_end(s, i, j, p),
    ensures
        run_end(s, i, p) == j,
{
    let k = run_end(s, i, p);
    assert(is_run_end(s, i, k, p));
    if k < j {
        assert(p(s[k]));
    } else if j < k {
        assert(p(s[j]));
    }
}

pub open spec fn space_end(s: Seq<char>, i: int) -> int {
    run_end(s, i, |c: char| is_space(c))
}

/// Skips blanks (`' '`, `'\t'`, `'\r'`, `'\n'`) from `i`.
pub fn skip_space(s: &Vec<char>, i: usize) -> (r: usize)
    requires
        i <= s.len(),
    ensures
        r == space_end(s@, i as int),
        i <= r <= s.len(),
{
    let mut j = i;
    while j < s.len() && (s[j] == ' ' || s[j] == '\t' || s[j] == '\r' || s[j] == '\n')
        invariant
            i <= j <= s.len(),
            forall|k: int| i <= k < j ==> is_space(#[trigger] s@[k]),
        decreases s.len() - j,
    {
        j = j + 1;
    }
    proof {
        lemma_run_end(s@, i as int, j as int, |c: char| is_space(c));
    }
    j
}

pub open spec fn numeric_end(s: Seq<char>, i: int) -> int {
    run_end(s, i, |c: char| numeric(c))
}

/// Skips characters that `char::is_numeric` accepts, from `i`.
pub fn skip_numeric(s: &Vec<char>, i: usize) -> (r: usize)
    requires
        i <= s.len(),
    ensures
        r == numeric_end(s@, i as int),
        i <= r <= s.len(),
{
    let mut j = i;
    while j < s.len() && char_is_numeric(s[j])
        invariant
            i <= j <= s.len(),
            forall|k: int| i <= k < j ==> numeric(#[trigger] s@[k]),
        decreases s.len() - j,
    {
        j = j + 1;
    }
    proof {
        lemma_run_end(s@, i as int, j as int, |c: char| numeric(c));
    }
    j
}

/// The characters of `s`.
pub fn chars_of(s: &str) -> (r: Vec<char>)
    ensures
        r@ == s@,
{
    let n = s.unicode_len();
    let mut r: Vec<char> = Vec::new();
    let mut i: usize = 0;
    while i < n
        invariant
            n == s@.len(),
            i <= n,
            r@ == s@.subrange(0, i as int),
        decreases n - i,
    {
        r.push(s.get_char(i));
        i = i + 1;
    }
    assert(r@ == s@);
    r
}

/// The string made of `s[from..to]`.
pub fn string_of(s: &Vec<char>, from: usize, to: usize) -> (r: String)
    requires
        from <= to <= s.len(),
    ensures
        r@ == s@.subrange(from as int, to as int),
{
    let mut r = String::new();
    let mut i = from;
    while i < to
        invariant
            from <= i <= to <= s.len(),
            r@ == s@.subrange(from as int, i as int),
        decreases to - i,
    {
        push_char(&mut r, s[i]);
        assert(s@.subrange(from as int, i + 1) == s@.subrange(from as int, i as int).push(s@[i as int]));
        i = i + 1;
    }
    r
}

/// `pat` occurs in `s` at position `i`.
pub open spec fn occurs_at(s: Seq<char>, i: int, pat: Seq<char>) -> bool {
    0 <= i && i + pat.len() <= s.len() && s.subrange(i, i + pat.len()) == pat
}

/// Whether `pat` occurs in `s` at position `i`.
pub fn matches_at(s: &Vec<char>, i: usize, pat: &Vec<char>) -> (r: bool)
    ensures
        r == occurs_at(s@, i as int, pat@),
{
    if i > s.len() || pat.len() > s.len() - i {
        return false;
    }
    let mut k: usize = 0;
    while k < pat.len()
        invariant
            i + pat.len() <= s.len(),
            k <= pat.len(),
            forall|m: int| 0 <= m < k ==> s@[i + m] == pat@[m],
        decreases pat.len() - k,
    {
        if s[i + k] != pat[k] {
            assert(s@.subrange(i as int, i + pat.len())[k as int] != pat@[k as int]);
            return false;
        }
        k = k + 1;
    }
    assert(s@.subrange(i as int, i + pat.len()) == pat@);
    true
}

/// Position of the first `c` at or after `i`, if any.
pub open spec fn find_from(s: Seq<char>, i: int, c: char) -> Option<int> {
    if exists|j: int| i <= j < s.len() && s[j] == c && forall|k: int| i <= k < j ==> s[k] != c {
        Some(choose|j: int| i <= j < s.len() && s[j] == c && forall|k: int| i <= k < j ==> s[k] != c)
    } else {
        None
    }
}

/// Finds the first `c` at or after `i`.
pub fn find_char(s: &Vec<char>, i: usize, c: char) -> (r: Option<usize>)
    requires
        i <= s.len(),
    ensures
        r matches Some(j) ==> find_from(s@, i as int, c) == Some(j as int) && i <= j < s.len(),
        r is None ==> find_from(s@, i as int, c) is None,
{
    let mut j = i;
    while j < s.len()
        invariant
            i <= j <= s.len(),
            forall|k: int| i <= k < j ==> s@[k] != c,
        decreases s.len() - j,
    {
        if s[j] == c {
            let ghost w = choose|w: int|
                i <= w < s@.len() && s@[w] == c && forall|k: int| i <= k < w ==> s@[k] != c;
            assert(i <= j < s@.len() && s@[j as int] == c && forall|k: int|
                i <= k < j ==> s@[k] != c);
            assert(w == j) by {
                if w < j {
                    assert(s@[w] != c);
                } else if j < w {
                    assert(s@[j as int] != c);
                }
            }
            return Some(j);
        }
        j = j + 1;
    }
    None
}


/// Characters of an identifier; `' '` too inside `<...>`.
pub open spec fn is_word_char(c: char, with_space: bool) -> bool {
    alphanumeric(c) || c == '_' || (with_space && c == ' ')
}

pub open spec fn word_end(s: Seq<char>, i: int, with_space: bool) -> int {
    run_end(s, i, |c: char| is_word_char(c, with_space))
}

/// Skips identifier characters from `i`.
pub fn skip_word(s: &Vec<char>, i: usize, with_space: bool) -> (r: usize)
    requires
        i <= s.len(),
    ensures
        r == word_end(s@, i as int, with_space),
        i <= r <= s.len(),
{
    let mut j = i;
    while j < s.len() && (char_is_alphanumeric(s[j]) || s[j] == '_' || (with_space && s[j] == ' '))
        invariant
            i <= j <= s.len(),
            forall|k: int| i <= k < j ==> is_word_char(#[trigger] s@[k], with_space),
        decreases s.len() - j,
    {
        j = j + 1;
    }
    proof {
        lemma_run_end(s@, i as int, j as int, |c: char| is_word_char(c, with_space));
    }
    j
}

pub open spec fn whitespace_end(s: Seq<char>, i: int) -> int {
    run_end(s, i, |c: char| whitespace(c))
}

/// Skips white space, as `char::is_whitespace` sees it, from `i`.
pub fn skip_whitespace(s: &Vec<char>, i: usize) -> (r: usize)
    requires
        i <= s.len(),
    ensures
        r == whitespace_end(s@, i as int),
        i <= r <= s.len(),
        r < s.len() ==> !whitespace(s@[r as int]),
{
    let mut j = i;
    while j < s.len() && char_is_whitespace(s[j])
        invariant
            i <= j <= s.len(),
            forall|k: int| i <= k < j ==> whitespace(#[trigger] s@[k]),
        decreases s.len() - j,
    {
        j = j + 1;
    }
    proof {
        lemma_run_end(s@, i as int, j as int, |c: char| whitespace(c));
    }
    j
}


/// `s` with leading and trailing white space removed (`str::trim`).
pub open spec fn trim_spec(s: Seq<char>) -> Seq<char> {
    let a = whitespace_end(s, 0);
    let e = trim_end(s);
    if a < e { s.subrange(a, e) } else { Seq::empty() }
}

/// `e` starts the white space that ends `s`, as far back as it goes.
pub open spec fn is_trim_end(s: Seq<char>, e: int) -> bool {
    &&& 0 <= e <= s.len()
    &&& forall|k: int| e <= k < s.len() ==> #[trigger] whitespace(s[k])
    &&& (e == 0 || !whitespace(s[e - 1]))
}

pub open spec fn trim_end(s: Seq<char>) -> int {
    if exists|e: int| is_trim_end(s, e) {
        choose|e: int| is_trim_end(s, e)
    } else {
        0
    }
}

/// Bounds of `s` without its leading and trailing white space.
pub fn trim_bounds(s: &Vec<char>) -> (r: (usize, usize))
    ensures
        r.0 <= r.1 <= s.len(),
        s@.subrange(r.0 as int, r.1 as int) == trim_spec(s@),
{
    let a = skip_whitespace(s, 0);
    let mut e = s.len();
    while e > 0 && char_is_whitespace(s[e - 1])
        invariant
            e <= s.len(),
            forall|k: int| e <= k < s.len() ==> whitespace(#[trigger] s@[k]),
        decreases e,
    {
        e = e - 1;
    }
    proof {
        assert(is_trim_end(s@, e as int));
        let f = trim_end(s@);
        assert(is_trim_end(s@, f));
        if f < e {
            assert(whitespace(s@[e - 1]));
        } else if e < f {
            assert(whitespace(s@[f - 1]));
        }
    }
    if a < e {
        (a, e)
    } else {
        assert(s@.subrange(a as int, a as int) =~= Seq::<char>::empty());
        (a, a)
    }
}

/// The trimmed text of `s`.
pub fn trim(s: &Vec<char>) -> (r: Vec<char>)
    ensures
        r@ == trim_spec(s@),
{
    let (a, e) = trim_bounds(s);
    slice(s, a, e)
}

/// `s[from..to]` as a vector.
pub fn slice(s: &Vec<char>, from: usize, to: usize) -> (r: Vec<char>)
    requires
        from <= to <= s.len(),
    ensures
        r@ == s@.subrange(from as int, to as int),
{
    let mut r: Vec<char> = Vec::new();
    let mut i = from;
    while i < to
        invariant
            from <= i <= to <= s.len(),
            r@ == s@.subrange(from as int, i as int),
        decreases to - i,
    {
        r.push(s[i]);
        i = i + 1;
    }
    r
}

/// The string holding the characters of `s`.
pub fn to_string(s: &Vec<char>) -> (r: String)
    ensures
        r@ == s@,
{
    let r = string_of(s, 0, s.len());
    assert(s@.subrange(0, s@.len() as int) =~= s@);
    r
}

/// First position where `pat` occurs in `s`.
pub open spec fn find_seq(s: Seq<char>, pat: Seq<char>) -> Option<int> {
    if exists|i: int| occurs_at(s, i, pat) && forall|j: int| 0 <= j < i ==> !occurs_at(s, j, pat) {
        Some(choose|i: int| occurs_at(s, i, pat) && forall|j: int| 0 <= j < i ==> !occurs_at(s, j, pat))
    } else {
        None
    }
}

/// Finds the first occurrence of `pat` in `s`.
pub fn find_text(s: &Vec<char>, pat: &Vec<char>) -> (r: Option<usize>)
    ensures
        match r {
            Some(i) => find_seq(s@, pat@) == Some(i as int) && i + pat.len() <= s.len(),
            None => find_seq(s@, pat@) is None,
        },
{
    let mut i: usize = 0;
    loop
        invariant
            i <= s.len(),
            forall|j: int| 0 <= j < i ==> !occurs_at(s@, j, pat@),
        ensures
            forall|j: int| 0 <= j <= s.len() ==> !occurs_at(s@, j, pat@),
        decreases s.len() - i,
    {
        if matches_at(s, i, pat) {
            let ghost w = choose|w: int|
                occurs_at(s@, w, pat@) && forall|j: int| 0 <= j < w ==> !occurs_at(s@, j, pat@);
            assert(occurs_at(s@, i as int, pat@));
            assert(w == i) by {
                if w < i {
                    assert(!occurs_at(s@, w, pat@));
                } else if i < w {
                    assert(!occurs_at(s@, i as int, pat@));
                }
            }
            return Some(i);
        }
        if i == s.len() {
            break ;
        }
        i = i + 1;
    }
    assert forall|j: int| !occurs_at(s@, j, pat@) by {
        if 0 <= j <= i {
        }
    }
    None
}

/// The text before and after the first occurrence of `sep`.
pub open spec fn split_once_spec(s: Seq<char>, sep: Seq<char>) -> Option<(Seq<char>, Seq<char>)> {
    match find_seq(s, sep) {
        Some(i) => Some((s.subrange(0, i), s.subrange(i + sep.len(), s.len() as int))),
        None => None,
    }
}

/// Splits `s` around the first occurrence of `sep`.
pub fn split_once_chars(s: &Vec<char>, sep: &Vec<char>) -> (r: Option<(Vec<char>, Vec<char>)>)
    ensures
        match r {
            Some((a, b)) => split_once_spec(s@, sep@) == Some((a@, b@)),
            None => split_once_spec(s@, sep@) is None,
        },
{
    match find_text(s, sep) {
        Some(i) => Some((slice(s, 0, i), slice(s, i + sep.len(), s.len()))),
        None => None,
    }
}

/// Splits `s` around the first occurrence of `separator`: the text before
/// it and the text after it.
pub fn split_once(s: &str, separator: &str) -> (r: Option<(String, String)>)
    ensures
        match r {
            Some((a, b)) => split_once_spec(s@, separator@) == Some((a@, b@)),
            None => split_once_spec(s@, separator@) is None,
        },
{
    let s = chars_of(s);
    let sep = chars_of(separator);
    match split_once_chars(&s, &sep) {
        Some((a, b)) => Some((to_string(&a), to_string(&b))),
        None => None,
    }
}

/// Whether the text of `v` is `lit`.
pub fn is_text(v: &Vec<char>, lit: &str) -> (r: bool)
    ensures
        r == (v@ == lit@),
{
    let l = chars_of(lit);
    if v.len() != l.len() {
        return false;
    }
    let r = matches_at(v, 0, &l);
    assert(v@.subrange(0, v@.len() as int) =~= v@);
    r
}

/// The pieces of `s[i..]` between occurrences of `c` (`str::split`).
pub open spec fn split_from(s: Seq<char>, i: int, c: char) -> Seq<Seq<char>>
    decreases s.len() - i,
{
    if !(0 <= i <= s.len()) {
        Seq::empty()
    } else {
        match find_from(s, i, c) {
            Some(k) => seq![s.subrange(i, k)] + split_from(s, k + 1, c),
            None => seq![s.subrange(i, s.len() as int)],
        }
    }
}

pub open spec fn pieces_model(v: Seq<Vec<char>>) -> Seq<Seq<char>> {
    Seq::new(v.len(), |k: int| v[k]@)
}

/// Splits `s` at every `c`.
pub fn split_chars(s: &Vec<char>, c: char) -> (r: Vec<Vec<char>>)
    ensures
        pieces_model(r@) == split_from(s@, 0, c),
{
    let mut r: Vec<Vec<char>> = Vec::new();
    let mut i: usize = 0;
    loop
        invariant
            i <= s.len(),
            split_from(s@, 0, c) == pieces_model(r@) + split_from(s@, i as int, c),
        decreases s.len() - i,
    {
        let ghost before = r@;
        match find_char(s, i, c) {
            Some(k) => {
                let piece = slice(s, i, k);
                r.push(piece);
                assert(pieces_model(r@) =~= pieces_model(before).push(s@.subrange(i as int, k as int)));
                assert(pieces_model(before) + split_from(s@, i as int, c) =~= pieces_model(r@)
                    + split_from(s@, k + 1, c));
                i = k + 1;
            },
            None => {
                let piece = slice(s, i, s.len());
                r.push(piece);
                assert(pieces_model(r@) =~= pieces_model(before) + split_from(s@, i as int, c));
                return r;
            },
        }
    }
}

/// Position after the `n`-th `' '` from `i` (the end of `s` if there are fewer).
pub open spec fn after_spaces(s: Seq<char>, i: int, n: nat) -> int
    decreases n,
{
    if n == 0 {
        i
    } else {
        match find_from(s, i, ' ') {
            Some(k) => after_spaces(s, k + 1, (n - 1) as nat),
            None => s.len() as int,
        }
    }
}

/// Finds the position after the `n`-th `' '` from `i`.
pub fn skip_spaces(s: &Vec<char>, i: usize, n: usize) -> (r: usize)
    requires
        i <= s.len(),
    ensures
        r == after_spaces(s@, i as int, n as nat),
        r <= s.len(),
{
    let mut p = i;
    let mut k = n;
    while k > 0
        invariant
            p <= s.len(),
            after_spaces(s@, i as int, n as nat) == after_spaces(s@, p as int, k as nat),
        decreases k,
    {
        match find_char(s, p, ' ') {
            Some(q) => {
                p = q + 1;
            },
            None => {
                return s.len();
            },
        }
        k = k - 1;
    }
    p
}

pub open spec fn word_stop(s: Seq<char>, i: int) -> int {
    run_end(s, i, |c: char| !whitespace(c))
}

/// The words of `s[i..]`: its maximal runs without white space
/// (`str::split_whitespace`).
pub open spec fn words_from(s: Seq<char>, i: int) -> Seq<Seq<char>>
    decreases s.len() - i,
{
    if !(0 <= i <= s.len()) {
        Seq::empty()
    } else {
        let a = whitespace_end(s, i);
        if a >= s.len() {
            Seq::empty()
        } else {
            let b = word_stop(s, a);
            if a < b <= s.len() {
                seq![s.subrange(a, b)] + words_from(s, b)
            } else {
                Seq::empty()
            }
        }
    }
}

/// Words joined with one `' '` between each two.
pub open spec fn join_words(w: Seq<Seq<char>>) -> Seq<char>
    decreases w.len(),
{
    if w.len() == 0 {
        Seq::empty()
    } else if w.len() == 1 {
        w[0]
    } else {
        join_words(w.drop_last()) + seq![' '] + w.last()
    }
}

/// `s` with its white space runs collapsed to one `' '` and none at either end.
pub fn normalize_whitespace(s: &Vec<char>) -> (r: String)
    ensures
        r@ == join_words(words_from(s@, 0)),
{
    let mut out = String::new();
    let ghost mut done: Seq<Seq<char>> = Seq::empty();
    let mut any = false;
    let mut i: usize = 0;
    loop
        invariant
            i <= s.len(),
            any == (done.len() > 0),
            words_from(s@, 0) == done + words_from(s@, i as int),
            out@ == join_words(done),
        decreases s.len() - i,
    {
        let a = skip_whitespace(s, i);
        if a >= s.len() {
            assert(done + words_from(s@, i as int) =~= done);
            return out;
        }
        let mut b = a;
        while b < s.len() && !char_is_whitespace(s[b])
            invariant
                a <= b <= s.len(),
                forall|k: int| a <= k < b ==> !whitespace(#[trigger] s@[k]),
            decreases s.len() - b,
        {
            b = b + 1;
        }
        proof {
            lemma_run_end(s@, a as int, b as int, |c: char| !whitespace(c));
            assert(!whitespace(s@[a as int]));
        }
        let ghost w = s@.subrange(a as int, b as int);
        let ghost joined = out@;
        if any {
            push_char(&mut out, ' ');
        }
        let mut k = a;
        let ghost before = out@;
        while k < b
            invariant
                a <= k <= b <= s.len(),
                out@ == before + s@.subrange(a as int, k as int),
            decreases b - k,
        {
            push_char(&mut out, s[k]);
            assert(s@.subrange(a as int, k + 1) =~= s@.subrange(a as int, k as int).push(s@[k as int]));
            k = k + 1;
        }
        proof {
            let nd = done.push(w);
            assert(nd.drop_last() =~= done);
            if done.len() == 0 {
                assert(before =~= Seq::<char>::empty());
            } else {
                assert(before =~= joined + seq![' ']);
            }
            assert(out@ =~= join_words(nd));
            assert(done + words_from(s@, i as int) =~= nd + words_from(s@, b as int));
            done = nd;
        }
        any = true;
        i = b;
    }
}

/// What `str::parse::<u32>` accepts: an optional `+`, then decimal digits
/// whose value fits in 32 bits.
pub open spec fn digits_value(s: Seq<char>) -> int
    decreases s.len(),
{
    if s.len() == 0 {
        0
    } else {
        10 * digits_value(s.drop_last()) + (s.last() as int - '0' as int)
    }
}

pub open spec fn all_digits(s: Seq<char>) -> bool {
    s.len() > 0 && forall|k: int| 0 <= k < s.len() ==> '0' <= #[trigger] s[k] <= '9'
}

pub open spec fn decimal_u32(s: Seq<char>) -> Option<u32> {
    let d = if s.len() > 0 && s[0] == '+' { s.subrange(1, s.len() as int) } else { s };
    if all_digits(d) && digits_value(d) <= u32::MAX { Some(digits_value(d) as u32) } else { None }
}

/// Reads a decimal `u32`.
pub fn parse_u32(s: &Vec<char>) -> (r: Option<u32>)
    ensures
        r == decimal_u32(s@),
{
    let start: usize = if s.len() > 0 && s[0] == '+' { 1 } else { 0 };
    let ghost d = if s@.len() > 0 && s@[0] == '+' { s@.subrange(1, s@.len() as int) } else { s@ };
    assert(d =~= s@.subrange(start as int, s@.len() as int));
    if start >= s.len() {
        return None;
    }
    let mut v: u64 = 0;
    let mut i = start;
    while i < s.len()
        invariant
            start <= i <= s.len(),
            d == s@.subrange(start as int, s@.len() as int),
            d == (if s@.len() > 0 && s@[0] == '+' {
                s@.subrange(1, s@.len() as int)
            } else {
                s@
            }),
            v as int == digits_value(s@.subrange(start as int, i as int)),
            v <= u32::MAX,
            forall|k: int| start <= k < i ==> '0' <= #[trigger] s@[k] <= '9',
        decreases s.len() - i,
    {
        let c = s[i];
        if !('0' <= c && c <= '9') {
            assert(d[i - start] == c);
            assert(!all_digits(d));
            assert(decimal_u32(s@) is None);
            return None;
        }
        assert(s@.subrange(start as int, i + 1).drop_last() =~= s@.subrange(start as int, i as int));
        v = v * 10 + (c as u64 - '0' as u64);
        if v > u32::MAX as u64 {
            proof {
                if all_digits(d) {
                    lemma_digits_grow(d, (i + 1 - start) as int);
                    assert(d.subrange(0, i + 1 - start) =~= s@.subrange(start as int, i + 1));
                    assert(v as int == digits_value(s@.subrange(start as int, i + 1)));
                    assert(digits_value(d) > u32::MAX);
                }
                assert(decimal_u32(s@) is None);
            }
            return None;
        }
        i = i + 1;
    }
    assert(s@.subrange(start as int, i as int) =~= d);
    Some(v as u32)
}

/// Digits only add value as more of them follow.
proof fn lemma_digits_grow(d: Seq<char>, n: int)
    requires
        0 <= n <= d.len(),
        forall|k: int| 0 <= k < d.len() ==> '0' <= #[trigger] d[k] <= '9',
    ensures
        digits_value(d.subrange(0, n)) <= digits_value(d),
    decreases d.len() - n,
{
    if n < d.len() {
        lemma_digits_grow(d, n + 1);
        assert(d.subrange(0, n + 1).drop_last() =~= d.subrange(0, n));
        lemma_digits_nonneg(d.subrange(0, n));
    } else {
        assert(d.subrange(0, n) =~= d);
    }
}

proof fn lemma_digits_nonneg(d: Seq<char>)
    requires
        forall|k: int| 0 <= k < d.len() ==> '0' <= #[trigger] d[k] <= '9',
    ensures
        digits_value(d) >= 0,
    decreases d.len(),
{
    if d.len() > 0 {
        lemma_digits_nonneg(d.drop_last());
    }
}

} // verus!

verus! {

/// Whether two strings hold the same characters.
pub fn same_text(a: &str, b: &str) -> (r: bool)
    ensures
        r == (a@ == b@),
{
    let x = chars_of(a);
    is_text(&x, b)
}


/// `s` without a leading byte order mark (U+FEFF).
pub open spec fn strip_bom_spec(s: Seq<char>) -> Seq<char> {
    if s.len() > 0 && s[0] == '\u{feff}' {
        s.subrange(1, s.len() as int)
    } else {
        s
    }
}

/// Removes a leading byte order mark, which XML readers refuse.
pub fn strip_bom(content: &str) -> (r: String)
    ensures
        r@ == strip_bom_spec(content@),
{
    let s = chars_of(content);
    if s.len() > 0 && s[0] == '\u{feff}' {
        string_of(&s, 1, s.len())
    } else {
        content.to_string()
    }
}

} // verus!
