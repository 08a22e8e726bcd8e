//! Test structure of a profile (its ETS file): groups of test cases, each
//! enabled by a boolean expression over ICS predicates.
use vstd::prelude::*;
use evalexpr::ContextWithMutableVariables;
use crate::params::{distinct_keys, has_key, lookup};
use crate::text::{chars_of, matches_at, occurs_at, to_string};

verus! {

/// The test structure of a profile.
#[derive(Debug)]
pub struct Ets {
    pub version: Option<String>,
    pub profile: Profile,
}

#[derive(Debug)]
pub struct Profile {
    pub name: String,
    pub groups: Vec<Group>,
}

/// A group of test cases and of further groups.
#[derive(Debug)]
pub struct Group {
    pub name: String,
    pub groups: Vec<Group>,
    pub testcases: Vec<TestCase>,
}

/// A test case, with the expression (`AND`, `OR` over ICS predicates)
/// that says when it applies.
#[derive(Debug)]
pub struct TestCase {
    pub name: String,
    pub mapping: String,
    pub description: String,
}

/// The test cases of a group, depth first: its own, then those of each
/// subgroup in turn.
pub open spec fn group_cases(g: Group) -> Seq<TestCase>
    decreases g,
{
    g.testcases@ + groups_cases(g.groups@)
}

/// The test cases of a sequence of groups, in order.
pub open spec fn groups_cases(gs: Seq<Group>) -> Seq<TestCase>
    decreases gs,
{
    if gs.len() == 0 {
        Seq::empty()
    } else {
        groups_cases(gs.drop_last()) + group_cases(gs.last())
    }
}

/// What `evalexpr` makes of a boolean expression when the identifiers in
/// `values` have those values and no other identifier is known; none where
/// evaluation fails.
pub uninterp spec fn evaluated(expr: Seq<char>, values: Map<Seq<char>, bool>) -> Option<bool>;

pub open spec fn values_view(v: Seq<(String, bool)>) -> Seq<(Seq<char>, bool)> {
    Seq::new(v.len(), |i: int| (v[i].0@, v[i].1))
}

/// The map of a list of predicate values with distinct names.
pub open spec fn as_map(l: Seq<(Seq<char>, bool)>) -> Map<Seq<char>, bool> {
    Map::new(|k: Seq<char>| has_key(l, k), |k: Seq<char>| lookup(l, k)->0)
}

/// The characters that may reach the evaluator: those of predicate names,
/// blanks, `&`, `|`, `!` and parentheses.
pub open spec fn expression_char(c: char) -> bool {
    ('a' <= c <= 'z') || ('A' <= c <= 'Z') || ('0' <= c <= '9') || c == '_' || c == ' ' || c
        == '\t' || c == '\r' || c == '\n' || c == '&' || c == '|' || c == '!' || c == '(' || c
        == ')'
}

/// The longest expression handed to the evaluator.
pub const MAX_EXPRESSION_LEN: usize = 1024;

/// An expression made of predicate names and boolean operators only, and
/// short: no string, number operator, tuple or `::` function of the
/// evaluator can occur in it.
pub open spec fn plain_expression(e: Seq<char>) -> bool {
    e.len() <= MAX_EXPRESSION_LEN && forall|i: int| 0 <= i < e.len() ==> expression_char(#[trigger] e[i])
}

/// Relies on `evalexpr::eval_boolean_with_context`, with a `HashMapContext`
/// that holds the given predicate values. On an expression of names, blanks,
/// `&`, `|`, `!` and parentheses every built-in function gets a single value
/// that is no string or tuple, and fails without panicking.
#[verifier::external_body]
fn evaluate(expr: &str, values: &Vec<(String, bool)>) -> (r: Option<bool>)
    requires
        plain_expression(expr@),
        distinct_keys(values_view(values@)),
    ensures
        r == evaluated(expr@, as_map(values_view(values@))),
{
    let mut context = evalexpr::HashMapContext::new();
    for (name, value) in values.iter() {
        let _ = context.set_value(name.clone(), evalexpr::Value::Boolean(*value));
    }
    evalexpr::eval_boolean_with_context(expr, &context).ok()
}

fn is_plain_expression(e: &Vec<char>) -> (r: bool)
    ensures
        r == plain_expression(e@),
{
    if e.len() > MAX_EXPRESSION_LEN {
        return false;
    }
    let mut i: usize = 0;
    while i < e.len()
        invariant
            i <= e.len(),
            forall|k: int| 0 <= k < i ==> expression_char(#[trigger] e@[k]),
        decreases e.len() - i,
    {
        let c = e[i];
        if !(('a' <= c && c <= 'z') || ('A' <= c && c <= 'Z') || ('0' <= c && c <= '9') || c == '_'
            || c == ' ' || c == '\t' || c == '\r' || c == '\n' || c == '&' || c == '|' || c == '!'
            || c == '(' || c == ')') {
            assert(!expression_char(e@[i as int]));
            return false;
        }
        i = i + 1;
    }
    true
}

/// `s[i..]` with every `pat` replaced by `rep`, left to right (`str::replace`).
pub open spec fn replace_from(s: Seq<char>, i: int, pat: Seq<char>, rep: Seq<char>) -> Seq<char>
    decreases s.len() - i,
{
    if !(0 <= i < s.len()) || pat.len() == 0 {
        s.subrange(if 0 <= i <= s.len() { i } else { s.len() as int }, s.len() as int)
    } else if occurs_at(s, i, pat) {
        rep + replace_from(s, i + pat.len(), pat, rep)
    } else {
        seq![s[i]] + replace_from(s, i + 1, pat, rep)
    }
}

pub open spec fn replace_spec(s: Seq<char>, pat: Seq<char>, rep: Seq<char>) -> Seq<char> {
    replace_from(s, 0, pat, rep)
}

/// The mapping in the syntax of the evaluator: `AND` becomes `&&`, then
/// `OR` becomes `||`.
pub open spec fn substituted(mapping: Seq<char>) -> Seq<char> {
    replace_spec(replace_spec(mapping, "AND"@, "&&"@), "OR"@, "||"@)
}

fn replace(s: &Vec<char>, pat: &str, rep: &str) -> (r: Vec<char>)
    requires
        pat@.len() > 0,
    ensures
        r@ == replace_spec(s@, pat@, rep@),
{
    let p = chars_of(pat);
    let q = chars_of(rep);
    let mut out: Vec<char> = Vec::new();
    let mut i: usize = 0;
    while i < s.len()
        invariant
            i <= s.len(),
            p@ == pat@,
            p@.len() > 0,
            q@ == rep@,
            replace_spec(s@, pat@, rep@) == out@ + replace_from(s@, i as int, pat@, rep@),
        decreases s.len() - i,
    {
        let ghost before = out@;
        if matches_at(s, i, &p) {
            let mut k: usize = 0;
            while k < q.len()
                invariant
                    k <= q.len(),
                    out@ == before + q@.subrange(0, k as int),
                decreases q.len() - k,
            {
                out.push(q[k]);
                assert(q@.subrange(0, k + 1) =~= q@.subrange(0, k as int).push(q@[k as int]));
                k = k + 1;
            }
            assert(q@.subrange(0, q@.len() as int) =~= q@);
            assert(before + (q@ + replace_from(s@, i + p@.len(), pat@, rep@)) =~= out@
                + replace_from(s@, i + p@.len(), pat@, rep@));
            i = i + p.len();
        } else {
            out.push(s[i]);
            assert(before + (seq![s@[i as int]] + replace_from(s@, i + 1, pat@, rep@)) =~= out@
                + replace_from(s@, i + 1, pat@, rep@));
            i = i + 1;
        }
    }
    assert(s@.subrange(s@.len() as int, s@.len() as int) =~= Seq::<char>::empty());
    assert(out@ + Seq::<char>::empty() =~= out@);
    out
}

/// Whether a test case applies: its mapping, substituted, is a plain
/// expression and evaluates to `true`. An unknown predicate, any other
/// text or a failed evaluation excludes it.
pub open spec fn case_enabled(t: TestCase, values: Map<Seq<char>, bool>) -> bool {
    plain_expression(substituted(t.mapping@)) && evaluated(substituted(t.mapping@), values) == Some(
        true,
    )
}

/// What evaluating a mapping gives: none where the substituted mapping is
/// not a plain expression.
pub open spec fn mapping_value(mapping: Seq<char>, values: Map<Seq<char>, bool>) -> Option<bool> {
    if plain_expression(substituted(mapping)) {
        evaluated(substituted(mapping), values)
    } else {
        None
    }
}

/// The names of the test cases that apply, in order.
pub open spec fn enabled_names(cases: Seq<TestCase>, values: Map<Seq<char>, bool>) -> Seq<
    Seq<char>,
>
    decreases cases.len(),
{
    if cases.len() == 0 {
        Seq::empty()
    } else {
        let rest = enabled_names(cases.drop_last(), values);
        if case_enabled(cases.last(), values) {
            rest.push(cases.last().name@)
        } else {
            rest
        }
    }
}

pub open spec fn names_view(v: Seq<String>) -> Seq<Seq<char>> {
    Seq::new(v.len(), |i: int| v[i]@)
}

fn copy_case(t: &TestCase) -> (r: TestCase)
    ensures
        r == *t,
{
    TestCase {
        name: t.name.clone(),
        mapping: t.mapping.clone(),
        description: t.description.clone(),
    }
}

impl TestCase {
    /// Evaluates the mapping, with `AND` and `OR` rewritten as `&&` and
    /// `||`, under the given predicate values; none where evaluation fails
    /// or the mapping holds anything but names, blanks, `&&`, `||`, `!` and
    /// parentheses.
    pub fn is_enabled(&self, values: &Vec<(String, bool)>) -> (r: Option<bool>)
        requires
            distinct_keys(values_view(values@)),
        ensures
            r == mapping_value(self.mapping@, as_map(values_view(values@))),
    {
        proof {
            reveal_strlit("AND");
            reveal_strlit("OR");
        }
        let m = chars_of(self.mapping.as_str());
        let a = replace(&m, "AND", "&&");
        let b = replace(&a, "OR", "||");
        if !is_plain_expression(&b) {
            return None;
        }
        let expr = to_string(&b);
        evaluate(expr.as_str(), values)
    }
}

fn cases_of(groups: &Vec<Group>) -> (r: Vec<TestCase>)
    ensures
        r@ == groups_cases(groups@),
    decreases groups@,
{
    let mut r: Vec<TestCase> = Vec::new();
    let mut k: usize = 0;
    while k < groups.len()
        invariant
            k <= groups.len(),
            r@ == groups_cases(groups@.subrange(0, k as int)),
        decreases groups.len() - k,
    {
        let mut sub = groups[k].testcases();
        r.append(&mut sub);
        assert(groups@.subrange(0, k + 1).drop_last() =~= groups@.subrange(0, k as int));
        k = k + 1;
    }
    assert(groups@.subrange(0, groups@.len() as int) =~= groups@);
    r
}

impl Group {
    /// The test cases of the group, depth first: its own, then those of
    /// each subgroup.
    pub fn testcases(&self) -> (r: Vec<TestCase>)
        ensures
            r@ == group_cases(*self),
        decreases *self,
    {
        let mut r: Vec<TestCase> = Vec::new();
        let mut i: usize = 0;
        while i < self.testcases.len()
            invariant
                i <= self.testcases.len(),
                r@ == self.testcases@.subrange(0, i as int),
            decreases self.testcases.len() - i,
        {
            r.push(copy_case(&self.testcases[i]));
            i = i + 1;
        }
        assert(r@ =~= self.testcases@);
        let mut sub = cases_of(&self.groups);
        r.append(&mut sub);
        r
    }
}

impl Ets {
    /// All test cases of the profile, depth first.
    pub open spec fn all_cases(&self) -> Seq<TestCase> {
        groups_cases(self.profile.groups@)
    }

    /// The names of the test cases that apply under the given predicate
    /// values, in the order of the file.
    pub fn enabled_testcases(&self, values: &Vec<(String, bool)>) -> (r: Vec<String>)
        requires
            distinct_keys(values_view(values@)),
        ensures
            names_view(r@) == enabled_names(self.all_cases(), as_map(values_view(values@))),
    {
        let cases = cases_of(&self.profile.groups);
        let mut r: Vec<String> = Vec::new();
        let mut i: usize = 0;
        while i < cases.len()
            invariant
                i <= cases.len(),
                cases@ == self.all_cases(),
                distinct_keys(values_view(values@)),
                names_view(r@) == enabled_names(
                    cases@.subrange(0, i as int),
                    as_map(values_view(values@)),
                ),
            decreases cases.len() - i,
        {
            let ghost before = r@;
            let ghost prefix = cases@.subrange(0, i + 1);
            assert(prefix.drop_last() =~= cases@.subrange(0, i as int));
            if cases[i].is_enabled(values) == Some(true) {
                r.push(cases[i].name.clone());
                assert(names_view(r@) =~= names_view(before).push(cases@[i as int].name@));
            }
            i = i + 1;
        }
        assert(cases@.subrange(0, cases@.len() as int) =~= cases@);
        r
    }
}

} // verus!
