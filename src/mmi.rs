//! Prompts of the test suite (MMI, man-machine interface): their
//! `{ID,TEST,PROFILE}TEXT` descriptions and symbolic names.
use vstd::prelude::*;
use crate::bd_addr::BdAddr;
use crate::pts::MMIStyle;
use crate::text::{
    chars_of, decimal_u32, occurs_at, parse_u32, slice, split_once_chars, split_once_spec,
    to_string, trim, trim_spec, find_seq,
};

verus! {

/// The parts of a prompt description `{ID,TEST,PROFILE}TEXT`: the id, the
/// trimmed test and profile names, and the text.
pub open spec fn parse_spec(s: Seq<char>) -> Option<(Seq<char>, Seq<char>, Seq<char>, Seq<char>)> {
    if s.len() > 0 && s[0] == '{' {
        match split_once_spec(s.subrange(1, s.len() as int), "}"@) {
            Some((header, text)) => match split_once_spec(header, ","@) {
                Some((id, rest)) => match split_once_spec(rest, ","@) {
                    Some((test, profile)) => Some((id, trim_spec(test), trim_spec(profile), text)),
                    None => None,
                },
                None => None,
            },
            None => None,
        }
    } else {
        None
    }
}

/// Splits a prompt description `{ID,TEST,PROFILE}TEXT` into its id, test
/// name, profile name and text; the names are trimmed.
pub fn parse(description: &str) -> (r: Option<(String, String, String, String)>)
    ensures
        match r {
            Some((id, test, profile, text)) => parse_spec(description@) == Some(
                (id@, test@, profile@, text@),
            ),
            None => parse_spec(description@) is None,
        },
{
    let s = chars_of(description);
    if !(s.len() > 0 && s[0] == '{') {
        return None;
    }
    let body = slice(&s, 1, s.len());
    let close = chars_of("}");
    let comma = chars_of(",");
    match split_once_chars(&body, &close) {
        Some((header, text)) => match split_once_chars(&header, &comma) {
            Some((id, rest)) => match split_once_chars(&rest, &comma) {
                Some((test, profile)) => Some(
                    (
                        to_string(&id),
                        to_string(&trim(&test)),
                        to_string(&trim(&profile)),
                        to_string(&text),
                    ),
                ),
                None => None,
            },
            None => None,
        },
        None => None,
    }
}

proof fn lemma_find_first(s: Seq<char>, pat: Seq<char>, i: int)
    requires
        occurs_at(s, i, pat),
        forall|j: int| 0 <= j < i ==> !occurs_at(s, j, pat),
    ensures
        find_seq(s, pat) == Some(i),
{
    let w = choose|w: int| occurs_at(s, w, pat) && forall|j: int| 0 <= j < w ==> !occurs_at(s, j, pat);
    assert(occurs_at(s, w, pat));
    if w < i {
        assert(!occurs_at(s, w, pat));
    } else if i < w {
        assert(!occurs_at(s, i, pat));
    }
}

proof fn lemma_split_at_char(a: Seq<char>, c: char, b: Seq<char>)
    requires
        !a.contains(c),
    ensures
        split_once_spec(a + seq![c] + b, seq![c]) == Some((a, b)),
{
    let s = a + seq![c] + b;
    assert(occurs_at(s, a.len() as int, seq![c])) by {
        assert(s.subrange(a.len() as int, a.len() as int + 1) =~= seq![c]);
    }
    assert forall|j: int| 0 <= j < a.len() implies !occurs_at(s, j, seq![c]) by {
        if occurs_at(s, j, seq![c]) {
            assert(s.subrange(j, j + 1)[0] == c);
            assert(a[j] == c);
        }
    }
    lemma_find_first(s, seq![c], a.len() as int);
    assert(s.subrange(0, a.len() as int) =~= a);
    assert(s.subrange(a.len() as int + 1, s.len() as int) =~= b);
}

/// A description built as `{ID,TEST,PROFILE}TEXT`, where the id and the
/// test name hold no `,` and no `}` and the profile name no `}`, splits back
/// into the id, the trimmed test and profile names, and the text.
pub proof fn lemma_parse_parts(id: Seq<char>, test: Seq<char>, profile: Seq<char>, text: Seq<char>)
    requires
        !id.contains(',') && !id.contains('}'),
        !test.contains(',') && !test.contains('}'),
        !profile.contains('}'),
    ensures
        parse_spec(seq!['{'] + id + seq![','] + test + seq![','] + profile + seq!['}'] + text)
            == Some((id, trim_spec(test), trim_spec(profile), text)),
{
    let s = seq!['{'] + id + seq![','] + test + seq![','] + profile + seq!['}'] + text;
    let header = id + seq![','] + test + seq![','] + profile;
    let rest = test + seq![','] + profile;
    assert(s.subrange(1, s.len() as int) =~= header + seq!['}'] + text);
    assert(!header.contains('}')) by {
        if header.contains('}') {
            let k = choose|k: int| 0 <= k < header.len() && header[k] == '}';
            if k < id.len() {
                assert(id[k] == '}');
            } else if k == id.len() {
            } else if k < id.len() + 1 + test.len() {
                assert(test[k - id.len() - 1] == '}');
            } else if k == id.len() + 1 + test.len() {
            } else {
                assert(profile[k - id.len() - 2 - test.len()] == '}');
            }
        }
    }
    lemma_split_at_char(header, '}', text);
    assert(header =~= id + seq![','] + rest);
    lemma_split_at_char(id, ',', rest);
    lemma_split_at_char(test, ',', profile);
    assert("}"@ =~= seq!['}']) by {
        reveal_strlit("}");
    }
    assert(","@ =~= seq![',']) by {
        reveal_strlit(",");
    }
}

/// A description that does not start with `{`, or that holds no `}`, has no parts.
pub proof fn lemma_parse_needs_braces(s: Seq<char>)
    requires
        !(s.len() > 0 && s[0] == '{') || !s.contains('}'),
    ensures
        parse_spec(s) is None,
{
    if s.len() > 0 && s[0] == '{' {
        let body = s.subrange(1, s.len() as int);
        assert("}"@ =~= seq!['}']) by {
            reveal_strlit("}");
        }
        if find_seq(body, seq!['}']) is Some {
            let i = find_seq(body, seq!['}'])->0;
            assert(occurs_at(body, i, seq!['}']));
            assert(body.subrange(i, i + 1)[0] == '}');
            assert(s[i + 1] == '}');
        }
    }
}

proof fn lemma_split_char(s: Seq<char>, c: char)
    ensures
        split_once_spec(s, seq![c]) is Some <==> s.contains(c),
        split_once_spec(s, seq![c]) matches Some((a, b)) ==> !a.contains(c) && s == a + seq![c]
            + b,
{
    if s.contains(c) {
        let w = choose|w: int| 0 <= w < s.len() && s[w] == c && forall|j: int| 0 <= j < w ==> s[j] != c;
        assert(exists|w: int| 0 <= w < s.len() && s[w] == c && forall|j: int| 0 <= j < w ==> s[j] != c) by {
            let k = choose|k: int| 0 <= k < s.len() && s[k] == c;
            lemma_first_index(s, c, k);
        }
        let a = s.subrange(0, w);
        let b = s.subrange(w + 1, s.len() as int);
        assert(!a.contains(c)) by {
            if a.contains(c) {
                let j = choose|j: int| 0 <= j < a.len() && a[j] == c;
                assert(s[j] == c);
            }
        }
        assert(s =~= a + seq![c] + b);
        lemma_split_at_char(a, c, b);
    } else {
        if find_seq(s, seq![c]) is Some {
            let i = find_seq(s, seq![c])->0;
            assert(occurs_at(s, i, seq![c]));
            assert(s.subrange(i, i + 1)[0] == c);
            assert(s[i] == c);
        }
    }
}

proof fn lemma_first_index(s: Seq<char>, c: char, k: int)
    requires
        0 <= k < s.len(),
        s[k] == c,
    ensures
        exists|w: int| 0 <= w < s.len() && s[w] == c && forall|j: int| 0 <= j < w ==> s[j] != c,
    decreases k,
{
    if exists|j: int| 0 <= j < k && s[j] == c {
        let j = choose|j: int| 0 <= j < k && s[j] == c;
        lemma_first_index(s, c, j);
    } else {
        assert(forall|j: int| 0 <= j < k ==> s[j] != c);
    }
}

/// `h` holds at least two commas.
pub open spec fn two_commas(h: Seq<char>) -> bool {
    exists|i: int, j: int| 0 <= i < j < h.len() && h[i] == ',' && h[j] == ','
}

/// A description has parts exactly when it starts with `{`, a `}` follows,
/// and the header between them (up to the first `}`) holds two commas; in
/// particular text without braces has none.
pub proof fn lemma_parse_none_iff(s: Seq<char>)
    ensures
        parse_spec(s) is Some <==> (s.len() > 0 && s[0] == '{' && match split_once_spec(
            s.subrange(1, s.len() as int),
            seq!['}'],
        ) {
            Some((header, _)) => two_commas(header),
            None => false,
        }),
{
    assert("}"@ =~= seq!['}']) by {
        reveal_strlit("}");
    }
    assert(","@ =~= seq![',']) by {
        reveal_strlit(",");
    }
    if s.len() > 0 && s[0] == '{' {
        let body = s.subrange(1, s.len() as int);
        lemma_split_char(body, '}');
        if let Some((header, _)) = split_once_spec(body, seq!['}']) {
            lemma_split_char(header, ',');
            if let Some((id, rest)) = split_once_spec(header, seq![',']) {
                lemma_split_char(rest, ',');
                if rest.contains(',') {
                    let j = choose|j: int| 0 <= j < rest.len() && rest[j] == ',';
                    assert(header[id.len() as int] == ',');
                    assert(header[id.len() + 1 + j] == rest[j]);
                } else if two_commas(header) {
                    let (i, j) = choose|i: int, j: int|
                        0 <= i < j < header.len() && header[i] == ',' && header[j] == ',';
                    if i < id.len() {
                        assert(id[i] == ',');
                    } else if j > id.len() {
                        assert(rest[j - id.len() - 1] == ',');
                    } else {
                        assert(i < j);
                    }
                }
            } else if two_commas(header) {
                let (i, j) = choose|i: int, j: int|
                    0 <= i < j < header.len() && header[i] == ',' && header[j] == ',';
                assert(header.contains(','));
            }
        }
    }
}

/// The symbolic names of the prompts of each profile.
pub open spec fn mmi_name(profile: Seq<char>, id: u32) -> Option<Seq<char>> {
    if profile == "A2DP"@ && id == 1002 {
        Some("TSC_AVDTP_mmi_iut_accept_connect"@)
    } else {
        None
    }
}

/// The symbolic name of prompt `id` of `profile`, where it is known.
pub fn id_to_mmi(profile: &str, id: u32) -> (r: Option<&'static str>)
    ensures
        match r {
            Some(n) => mmi_name(profile@, id) == Some(n@),
            None => mmi_name(profile@, id) is None,
        },
{
    let p = chars_of(profile);
    if crate::text::is_text(&p, "A2DP") && id == 1002 {
        Some("TSC_AVDTP_mmi_iut_accept_connect")
    } else {
        None
    }
}

/// A prompt of the test suite, to be answered by the implementation under test.
#[derive(Debug)]
pub struct Interaction {
    pub pts_addr: BdAddr,
    pub style: MMIStyle,
    pub description: String,
}

/// The id under which a prompt is known: its symbolic name where the id is
/// a number the profile's table knows, else the id as written.
pub open spec fn prompt_id(raw_id: Seq<char>, profile: Seq<char>) -> Seq<char> {
    match decimal_u32(raw_id) {
        Some(n) => match mmi_name(profile, n) {
            Some(name) => name,
            None => raw_id,
        },
        None => raw_id,
    }
}

impl Interaction {
    pub fn new(pts_addr: BdAddr, style: MMIStyle, description: String) -> (r: Self)
        ensures
            r.pts_addr == pts_addr,
            r.style == style,
            r.description@ == description@,
    {
        Interaction { pts_addr, style, description }
    }

    /// The tester's address, the dialog kind, the prompt id (symbolic where
    /// known), the profile, the test and the text of the prompt; none where
    /// the description does not have the `{ID,TEST,PROFILE}TEXT` shape.
    pub fn explode(&self) -> (r: Option<(BdAddr, MMIStyle, String, String, String, String)>)
        ensures
            match r {
                Some((addr, style, id, profile, test, text)) => parse_spec(self.description@)
                    matches Some((raw_id, t, p, x)) && addr == self.pts_addr && style
                    == self.style && id@ == prompt_id(raw_id, p) && profile@ == p && test@ == t
                    && text@ == x,
                None => parse_spec(self.description@) is None,
            },
    {
        match parse(self.description.as_str()) {
            Some((raw_id, test, profile, text)) => {
                let n = parse_u32(&chars_of(raw_id.as_str()));
                let id = match n {
                    Some(n) => match id_to_mmi(profile.as_str(), n) {
                        Some(name) => name.to_string(),
                        None => raw_id,
                    },
                    None => raw_id,
                };
                Some((self.pts_addr, self.style, id, profile, test, text))
            },
            None => None,
        }
    }
}

} // verus!
