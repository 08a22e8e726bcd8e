//! Batches of tests: which tests run, how a run's final verdict becomes a
//! result, and the results of a batch cut short by cancellation or by the
//! first failure.
use vstd::prelude::*;
use crate::ets::names_view;
use crate::text::{chars_of, matches_at, same_text, split_once};

verus! {

/// Outcome of one test.
#[derive(Debug)]
pub enum TestResult {
    Pass,
    Fail,
    Inconclusive,
    /// No verdict, or the test did not run.
    NoVerdict,
    /// The engine failed; the text says why.
    Error(String),
}

/// A final verdict that is none of `PASS`, `FAIL`, `INCONC`, `NONE`.
#[derive(Debug)]
pub struct UnknownVerdict(pub String);

/// A test and its outcome.
#[derive(Debug)]
pub struct TestExecution {
    pub name: String,
    pub result: TestResult,
}

impl TestResult {
    /// The result that a final verdict stands for; no verdict is `None`.
    pub fn from_verdict(verdict: Option<String>) -> (r: Result<TestResult, UnknownVerdict>)
        ensures
            match verdict {
                Some(v) => if v@ == "PASS"@ {
                    r matches Ok(TestResult::Pass)
                } else if v@ == "FAIL"@ {
                    r matches Ok(TestResult::Fail)
                } else if v@ == "INCONC"@ {
                    r matches Ok(TestResult::Inconclusive)
                } else if v@ == "NONE"@ {
                    r matches Ok(TestResult::NoVerdict)
                } else {
                    r matches Err(e) && e.0@ == v@
                },
                None => r matches Ok(TestResult::NoVerdict),
            },
    {
        match verdict {
            Some(v) => {
                if same_text(v.as_str(), "PASS") {
                    Ok(TestResult::Pass)
                } else if same_text(v.as_str(), "FAIL") {
                    Ok(TestResult::Fail)
                } else if same_text(v.as_str(), "INCONC") {
                    Ok(TestResult::Inconclusive)
                } else if same_text(v.as_str(), "NONE") {
                    Ok(TestResult::NoVerdict)
                } else {
                    Err(UnknownVerdict(v))
                }
            },
            None => Ok(TestResult::NoVerdict),
        }
    }

    /// The result of a run: its final verdict, or the engine's error.
    pub fn from_outcome(outcome: Result<Option<String>, String>) -> (r: Result<
        TestResult,
        UnknownVerdict,
    >)
        ensures
            match outcome {
                Ok(verdict) => match verdict {
                    Some(v) => if v@ == "PASS"@ {
                        r matches Ok(TestResult::Pass)
                    } else if v@ == "FAIL"@ {
                        r matches Ok(TestResult::Fail)
                    } else if v@ == "INCONC"@ {
                        r matches Ok(TestResult::Inconclusive)
                    } else if v@ == "NONE"@ {
                        r matches Ok(TestResult::NoVerdict)
                    } else {
                        r matches Err(e) && e.0@ == v@
                    },
                    None => r matches Ok(TestResult::NoVerdict),
                },
                Err(e) => r matches Ok(TestResult::Error(m)) && m@ == e@,
            },
    {
        match outcome {
            Ok(verdict) => TestResult::from_verdict(verdict),
            Err(e) => Ok(TestResult::Error(e)),
        }
    }

    pub fn is_pass(&self) -> (r: bool)
        ensures
            r == (self is Pass),
    {
        match self {
            TestResult::Pass => true,
            _ => false,
        }
    }
}

/// The profile named in a test prefix: the part before the first `/`, or
/// all of it.
pub fn profile_name(test_prefix: &str) -> (r: String)
    ensures
        match crate::text::split_once_spec(test_prefix@, "/"@) {
            Some((p, _)) => r@ == p,
            None => r@ == test_prefix@,
        },
{
    match split_once(test_prefix, "/") {
        Some((p, _)) => p,
        None => test_prefix.to_string(),
    }
}

/// The tests of `tests` that start with `prefix` and are not in `skip`,
/// in order.
pub open spec fn selected(tests: Seq<Seq<char>>, prefix: Seq<char>, skip: Seq<Seq<char>>) -> Seq<
    Seq<char>,
>
    decreases tests.len(),
{
    if tests.len() == 0 {
        Seq::empty()
    } else {
        let rest = selected(tests.drop_last(), prefix, skip);
        let t = tests.last();
        if crate::text::occurs_at(t, 0, prefix) && !skip.contains(t) {
            rest.push(t)
        } else {
            rest
        }
    }
}

fn contains_name(names: &Vec<String>, name: &String) -> (r: bool)
    ensures
        r == names_view(names@).contains(name@),
{
    let mut i: usize = 0;
    while i < names.len()
        invariant
            i <= names.len(),
            forall|j: int| 0 <= j < i ==> names@[j]@ != name@,
        decreases names.len() - i,
    {
        if same_text(names[i].as_str(), name.as_str()) {
            assert(names_view(names@)[i as int] == name@);
            return true;
        }
        i = i + 1;
    }
    assert(!names_view(names@).contains(name@)) by {
        if names_view(names@).contains(name@) {
            let j = choose|j: int| 0 <= j < names_view(names@).len() && names_view(names@)[j] == name@;
            assert(names@[j]@ == name@);
        }
    }
    false
}

/// Keeps the tests that start with `prefix` and that `skip` does not name.
pub fn select_tests(tests: &Vec<String>, prefix: &str, skip: &Vec<String>) -> (r: Vec<String>)
    ensures
        names_view(r@) == selected(names_view(tests@), prefix@, names_view(skip@)),
{
    let p = chars_of(prefix);
    let mut r: Vec<String> = Vec::new();
    let mut i: usize = 0;
    while i < tests.len()
        invariant
            i <= tests.len(),
            p@ == prefix@,
            names_view(r@) == selected(names_view(tests@).subrange(0, i as int), prefix@, names_view(skip@)),
        decreases tests.len() - i,
    {
        let ghost before = r@;
        assert(names_view(tests@).subrange(0, i + 1).drop_last() =~= names_view(tests@).subrange(0, i as int));
        let t = chars_of(tests[i].as_str());
        if matches_at(&t, 0, &p) && !contains_name(skip, &tests[i]) {
            r.push(tests[i].clone());
            assert(names_view(r@) =~= names_view(before).push(tests@[i as int]@));
        }
        i = i + 1;
    }
    assert(names_view(tests@).subrange(0, i as int) =~= names_view(tests@));
    r
}

/// Counts of a batch's results.
#[derive(Debug, PartialEq, Eq, Structural, Clone, Copy)]
pub struct Summary {
    pub total: usize,
    pub passed: usize,
    pub failed: usize,
    pub inconclusive: usize,
}

pub open spec fn count_kind(v: Seq<TestExecution>, kind: int) -> nat
    decreases v.len(),
{
    if v.len() == 0 {
        0
    } else {
        let last = v.last().result;
        let hit = match last {
            TestResult::Pass => kind == 0,
            TestResult::Fail => kind == 1,
            TestResult::Inconclusive => kind == 2,
            _ => false,
        };
        count_kind(v.drop_last(), kind) + if hit { 1nat } else { 0nat }
    }
}

proof fn lemma_count_le(v: Seq<TestExecution>, kind: int)
    ensures
        count_kind(v, kind) <= v.len(),
    decreases v.len(),
{
    if v.len() > 0 {
        lemma_count_le(v.drop_last(), kind);
    }
}

/// How many tests passed, failed and were inconclusive, of how many.
pub fn summary(results: &Vec<TestExecution>) -> (r: Summary)
    ensures
        r.total == results.len(),
        r.passed == count_kind(results@, 0),
        r.failed == count_kind(results@, 1),
        r.inconclusive == count_kind(results@, 2),
{
    let mut s = Summary { total: results.len(), passed: 0, failed: 0, inconclusive: 0 };
    let mut i: usize = 0;
    while i < results.len()
        invariant
            i <= results.len(),
            s.total == results.len(),
            s.passed == count_kind(results@.subrange(0, i as int), 0),
            s.failed == count_kind(results@.subrange(0, i as int), 1),
            s.inconclusive == count_kind(results@.subrange(0, i as int), 2),
        decreases results.len() - i,
    {
        assert(results@.subrange(0, i + 1).drop_last() =~= results@.subrange(0, i as int));
        proof {
            lemma_count_le(results@.subrange(0, i as int), 0);
            lemma_count_le(results@.subrange(0, i as int), 1);
            lemma_count_le(results@.subrange(0, i as int), 2);
        }
        match results[i].result {
            TestResult::Pass => {
                s.passed = s.passed + 1;
            },
            TestResult::Fail => {
                s.failed = s.failed + 1;
            },
            TestResult::Inconclusive => {
                s.inconclusive = s.inconclusive + 1;
            },
            _ => {},
        }
        i = i + 1;
    }
    assert(results@.subrange(0, i as int) =~= results@);
    s
}


/// The course of a batch: the selected tests run in order; the batch stops
/// early on cancellation, or after the first result that is not a pass
/// where it fails fast. Tests that did not run get `NoVerdict`.
pub struct Batch {
    tests: Vec<String>,
    results: Vec<TestResult>,
    stopped: bool,
    fail_fast: bool,
}

impl Batch {
    pub closed spec fn tests_view(&self) -> Seq<Seq<char>> {
        names_view(self.tests@)
    }

    pub closed spec fn results_view(&self) -> Seq<TestResult> {
        self.results@
    }

    pub closed spec fn is_stopped(&self) -> bool {
        self.stopped
    }

    pub closed spec fn fails_fast(&self) -> bool {
        self.fail_fast
    }

    pub open spec fn wf(&self) -> bool {
        self.results_view().len() <= self.tests_view().len()
    }

    pub fn new(tests: Vec<String>, fail_fast: bool) -> (r: Self)
        ensures
            r.wf(),
            r.tests_view() == names_view(tests@),
            r.results_view() == Seq::<TestResult>::empty(),
            !r.is_stopped(),
            r.fails_fast() == fail_fast,
    {
        Batch { tests, results: Vec::new(), stopped: false, fail_fast }
    }

    /// The next test to run, unless the batch is over.
    pub fn next_test(&self) -> (r: Option<String>)
        requires
            self.wf(),
        ensures
            match r {
                Some(t) => !self.is_stopped() && self.results_view().len() < self.tests_view().len()
                    && t@ == self.tests_view()[self.results_view().len() as int],
                None => self.is_stopped() || self.results_view().len() == self.tests_view().len(),
            },
    {
        if !self.stopped && self.results.len() < self.tests.len() {
            Some(self.tests[self.results.len()].clone())
        } else {
            None
        }
    }

    /// Records the result of the test that `next_test` gave.
    pub fn record(&mut self, result: TestResult)
        requires
            old(self).wf(),
            !old(self).is_stopped(),
            old(self).results_view().len() < old(self).tests_view().len(),
        ensures
            final(self).wf(),
            final(self).tests_view() == old(self).tests_view(),
            final(self).results_view() == old(self).results_view().push(result),
            final(self).fails_fast() == old(self).fails_fast(),
            final(self).is_stopped() == (old(self).fails_fast() && !(result is Pass)),
    {
        let pass = result.is_pass();
        self.results.push(result);
        if self.fail_fast && !pass {
            self.stopped = true;
        }
    }

    /// Stops the batch: no further test runs.
    pub fn cancel(&mut self)
        ensures
            final(self).is_stopped(),
            final(self).tests_view() == old(self).tests_view(),
            final(self).results_view() == old(self).results_view(),
            final(self).fails_fast() == old(self).fails_fast(),
    {
        self.stopped = true;
    }

    /// One execution per selected test, in order: the recorded results,
    /// then `NoVerdict` for the tests that did not run.
    pub fn finish(self) -> (r: Vec<TestExecution>)
        requires
            self.wf(),
        ensures
            r.len() == self.tests_view().len(),
            forall|i: int| 0 <= i < r.len() ==> (#[trigger] r@[i]).name@ == self.tests_view()[i],
            forall|i: int| 0 <= i < self.results_view().len() ==> (#[trigger] r@[i]).result
                == self.results_view()[i],
            forall|i: int|
                self.results_view().len() <= i < r.len() ==> (#[trigger] r@[i]).result is NoVerdict,
    {
        let ghost tests = self.tests_view();
        let ghost results = self.results_view();
        let Batch { tests: names, results: mut outcomes, .. } = self;
        let n = outcomes.len();
        let mut r: Vec<TestExecution> = Vec::new();
        let mut i: usize = 0;
        while i < names.len()
            invariant
                i <= names.len(),
                n <= names.len(),
                names_view(names@) == tests,
                n == results.len(),
                r.len() == i,
                i <= n ==> outcomes@ == results.subrange(i as int, n as int),
                forall|k: int| 0 <= k < i ==> (#[trigger] r@[k]).name@ == tests[k],
                forall|k: int| 0 <= k < i && k < n ==> (#[trigger] r@[k]).result == results[k],
                forall|k: int| n <= k < i ==> (#[trigger] r@[k]).result is NoVerdict,
            decreases names.len() - i,
        {
            assert(names@[i as int]@ == tests[i as int]);
            let result = if i < n {
                let res = outcomes.remove(0);
                assert(outcomes@ =~= results.subrange(i + 1, n as int));
                res
            } else {
                TestResult::NoVerdict
            };
            r.push(TestExecution { name: names[i].clone(), result });
            i = i + 1;
        }
        r
    }
}

} // verus!
