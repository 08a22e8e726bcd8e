//! The parameters of a test run: user overrides of ICS and IXIT values,
//! the predicate values that select test cases, and the list handed to the
//! test server.
use vstd::prelude::*;
use crate::ets::values_view;

verus! {

/// Some pair of `l` has key `k`.
pub open spec fn has_key<V>(l: Seq<(Seq<char>, V)>, k: Seq<char>) -> bool {
    exists|i: int| 0 <= i < l.len() && l[i].0 == k
}

/// The value paired with key `k` in a list of pairs with distinct keys.
pub open spec fn lookup<V>(l: Seq<(Seq<char>, V)>, k: Seq<char>) -> Option<V> {
    if has_key(l, k) {
        Some(l[choose|i: int| 0 <= i < l.len() && l[i].0 == k].1)
    } else {
        None
    }
}

pub open spec fn distinct_keys<V>(l: Seq<(Seq<char>, V)>) -> bool {
    forall|i: int, j: int| 0 <= i < j < l.len() ==> l[i].0 != l[j].0
}

pub open spec fn text_pairs_view(v: Seq<(String, String)>) -> Seq<(Seq<char>, Seq<char>)> {
    Seq::new(v.len(), |i: int| (v[i].0@, v[i].1@))
}

pub proof fn lemma_lookup_at<V>(l: Seq<(Seq<char>, V)>, i: int)
    requires
        distinct_keys(l),
        0 <= i < l.len(),
    ensures
        lookup(l, l[i].0) == Some(l[i].1),
{
    let j = choose|j: int| 0 <= j < l.len() && l[j].0 == l[i].0;
    if j != i {
        if j < i {
            assert(l[j].0 != l[i].0);
        } else {
            assert(l[i].0 != l[j].0);
        }
    }
}

proof fn lemma_lookup_set<V>(old_l: Seq<(Seq<char>, V)>, new_l: Seq<(Seq<char>, V)>, k: Seq<char>, v: V)
    requires
        distinct_keys(old_l),
        distinct_keys(new_l),
        forall|key: Seq<char>| #[trigger] has_key(new_l, key) <==> (key == k || has_key(old_l, key)),
        forall|i: int| 0 <= i < new_l.len() && new_l[i].0 != k ==> exists|j: int|
            0 <= j < old_l.len() && old_l[j] == new_l[i],
        exists|i: int| 0 <= i < new_l.len() && new_l[i] == (k, v),
    ensures
        forall|key: Seq<char>|
            #[trigger] lookup(new_l, key) == if key == k {
                Some(v)
            } else {
                lookup(old_l, key)
            },
{
    assert forall|key: Seq<char>|
        #[trigger] lookup(new_l, key) == if key == k {
            Some(v)
        } else {
            lookup(old_l, key)
        } by {
        if key == k {
            let i = choose|i: int| 0 <= i < new_l.len() && new_l[i] == (k, v);
            lemma_lookup_at(new_l, i);
        } else if has_key(new_l, key) {
            let i = choose|i: int| 0 <= i < new_l.len() && new_l[i].0 == key;
            lemma_lookup_at(new_l, i);
            let j = choose|j: int| 0 <= j < old_l.len() && old_l[j] == new_l[i];
            lemma_lookup_at(old_l, j);
        }
    }
}

/// ICS and IXIT values that the user sets, by name; they take precedence
/// over the values of the profile's files.
pub struct Overrides {
    ics: Vec<(String, bool)>,
    ixit: Vec<(String, String)>,
}

impl Overrides {
    pub closed spec fn ics_view(&self) -> Seq<(Seq<char>, bool)> {
        values_view(self.ics@)
    }

    pub closed spec fn ixit_view(&self) -> Seq<(Seq<char>, Seq<char>)> {
        text_pairs_view(self.ixit@)
    }

    pub open spec fn wf(&self) -> bool {
        distinct_keys(self.ics_view()) && distinct_keys(self.ixit_view())
    }

    /// No overrides.
    pub fn new() -> (r: Self)
        ensures
            r.wf(),
            r.ics_view() == Seq::<(Seq<char>, bool)>::empty(),
            r.ixit_view() == Seq::<(Seq<char>, Seq<char>)>::empty(),
    {
        let r = Overrides { ics: Vec::new(), ixit: Vec::new() };
        assert(r.ics_view() =~= Seq::<(Seq<char>, bool)>::empty());
        assert(r.ixit_view() =~= Seq::<(Seq<char>, Seq<char>)>::empty());
        r
    }

    /// Sets ICS predicate `name` to `value`.
    pub fn set_ics(&mut self, name: &str, value: bool)
        requires
            old(self).wf(),
        ensures
            final(self).wf(),
            forall|k: Seq<char>|
                #[trigger] lookup(final(self).ics_view(), k) == if k == name@ {
                    Some(value)
                } else {
                    lookup(old(self).ics_view(), k)
                },
    {
        let ghost before = self.ics_view();
        let mut i: usize = 0;
        while i < self.ics.len()
            invariant
                i <= self.ics.len(),
                self.ics_view() == before,
                before == old(self).ics_view(),
                old(self).wf(),
                self.ixit_view() == old(self).ixit_view(),
                distinct_keys(before),
                forall|j: int| 0 <= j < i ==> before[j].0 != name@,
            decreases self.ics.len() - i,
        {
            if crate::text::same_text(self.ics[i].0.as_str(), name) {
                self.ics.set(i, (self.ics[i].0.clone(), value));
                proof {
                    let after = self.ics_view();
                    assert(after =~= before.update(i as int, (name@, value)));
                    assert(before[i as int].0 == name@);
                    assert forall|a: int, b: int| 0 <= a < b < after.len() implies after[a].0
                        != after[b].0 by {
                        assert(after[a].0 == before[a].0);
                        assert(after[b].0 == before[b].0);
                    }
                    assert forall|key: Seq<char>| #[trigger] has_key(after, key) <==> (key == name@ || has_key(before, key)) by {
                        if has_key(before, key) {
                            let j = choose|j: int| 0 <= j < before.len() && before[j].0 == key;
                            assert(after[j].0 == key);
                        }
                        if key == name@ {
                            assert(after[i as int].0 == key);
                        }
                    }
                    assert forall|j: int| 0 <= j < after.len() && after[j].0 != name@ implies exists|
                        m: int,
                    | 0 <= m < before.len() && before[m] == after[j] by {
                        assert(before[j] == after[j]);
                    }
                    assert(after[i as int] == (name@, value));
                    lemma_lookup_set(before, after, name@, value);
                    assert(distinct_keys(after));
                    assert(self.wf());
                }
                return ;
            }
            i = i + 1;
        }
        self.ics.push((name.to_string(), value));
        proof {
            let after = self.ics_view();
            assert(after =~= before.push((name@, value)));
            assert forall|a: int, b: int| 0 <= a < b < after.len() implies after[a].0
                != after[b].0 by {
                if b < before.len() {
                    assert(after[a].0 == before[a].0);
                    assert(after[b].0 == before[b].0);
                } else {
                    assert(after[a].0 == before[a].0);
                }
            }
            assert forall|key: Seq<char>| #[trigger] has_key(after, key) <==> (key == name@ || has_key(before, key)) by {
                if has_key(before, key) {
                    let j = choose|j: int| 0 <= j < before.len() && before[j].0 == key;
                    assert(after[j].0 == key);
                }
                if key == name@ {
                    assert(after[before.len() as int].0 == key);
                }
            }
            assert forall|j: int| 0 <= j < after.len() && after[j].0 != name@ implies exists|m: int|
                0 <= m < before.len() && before[m] == after[j] by {
                assert(before[j] == after[j]);
            }
            assert(after[before.len() as int] == (name@, value));
            lemma_lookup_set(before, after, name@, value);
        }
    }

    /// Sets IXIT parameter `name` to `value`.
    pub fn set_ixit(&mut self, name: &str, value: &str)
        requires
            old(self).wf(),
        ensures
            final(self).wf(),
            forall|k: Seq<char>|
                #[trigger] lookup(final(self).ixit_view(), k) == if k == name@ {
                    Some(value@)
                } else {
                    lookup(old(self).ixit_view(), k)
                },
    {
        let ghost before = self.ixit_view();
        let mut i: usize = 0;
        while i < self.ixit.len()
            invariant
                i <= self.ixit.len(),
                self.ixit_view() == before,
                before == old(self).ixit_view(),
                old(self).wf(),
                self.ics_view() == old(self).ics_view(),
                distinct_keys(before),
                forall|j: int| 0 <= j < i ==> before[j].0 != name@,
            decreases self.ixit.len() - i,
        {
            if crate::text::same_text(self.ixit[i].0.as_str(), name) {
                self.ixit.set(i, (self.ixit[i].0.clone(), value.to_string()));
                proof {
                    let after = self.ixit_view();
                    assert(after =~= before.update(i as int, (name@, value@)));
                    assert(before[i as int].0 == name@);
                    assert forall|a: int, b: int| 0 <= a < b < after.len() implies after[a].0
                        != after[b].0 by {
                        assert(after[a].0 == before[a].0);
                        assert(after[b].0 == before[b].0);
                    }
                    assert forall|key: Seq<char>| #[trigger] has_key(after, key) <==> (key == name@ || has_key(before, key)) by {
                        if has_key(before, key) {
                            let j = choose|j: int| 0 <= j < before.len() && before[j].0 == key;
                            assert(after[j].0 == key);
                        }
                        if key == name@ {
                            assert(after[i as int].0 == key);
                        }
                    }
                    assert forall|j: int| 0 <= j < after.len() && after[j].0 != name@ implies exists|
                        m: int,
                    | 0 <= m < before.len() && before[m] == after[j] by {
                        assert(before[j] == after[j]);
                    }
                    assert(after[i as int] == (name@, value@));
                    lemma_lookup_set(before, after, name@, value@);
                    assert(distinct_keys(after));
                    assert(self.wf());
                }
                return ;
            }
            i = i + 1;
        }
        self.ixit.push((name.to_string(), value.to_string()));
        proof {
            let after = self.ixit_view();
            assert(after =~= before.push((name@, value@)));
            assert forall|a: int, b: int| 0 <= a < b < after.len() implies after[a].0
                != after[b].0 by {
                if b < before.len() {
                    assert(after[a].0 == before[a].0);
                    assert(after[b].0 == before[b].0);
                } else {
                    assert(after[a].0 == before[a].0);
                }
            }
            assert forall|key: Seq<char>| #[trigger] has_key(after, key) <==> (key == name@ || has_key(before, key)) by {
                if has_key(before, key) {
                    let j = choose|j: int| 0 <= j < before.len() && before[j].0 == key;
                    assert(after[j].0 == key);
                }
                if key == name@ {
                    assert(after[before.len() as int].0 == key);
                }
            }
            assert forall|j: int| 0 <= j < after.len() && after[j].0 != name@ implies exists|m: int|
                0 <= m < before.len() && before[m] == after[j] by {
                assert(before[j] == after[j]);
            }
            assert(after[before.len() as int] == (name@, value@));
            lemma_lookup_set(before, after, name@, value@);
        }
    }
}


impl Overrides {
    /// The ICS value set for `name`, if any.
    pub fn ics_value(&self, name: &str) -> (r: Option<bool>)
        requires
            self.wf(),
        ensures
            r == lookup(self.ics_view(), name@),
    {
        let mut i: usize = 0;
        while i < self.ics.len()
            invariant
                i <= self.ics.len(),
                self.wf(),
                forall|j: int| 0 <= j < i ==> self.ics_view()[j].0 != name@,
            decreases self.ics.len() - i,
        {
            if crate::text::same_text(self.ics[i].0.as_str(), name) {
                proof {
                    lemma_lookup_at(self.ics_view(), i as int);
                }
                return Some(self.ics[i].1);
            }
            i = i + 1;
        }
        None
    }

    /// The IXIT value set for `name`, if any.
    pub fn ixit_value(&self, name: &str) -> (r: Option<String>)
        requires
            self.wf(),
        ensures
            match r {
                Some(v) => lookup(self.ixit_view(), name@) == Some(v@),
                None => lookup(self.ixit_view(), name@) is None,
            },
    {
        let mut i: usize = 0;
        while i < self.ixit.len()
            invariant
                i <= self.ixit.len(),
                self.wf(),
                forall|j: int| 0 <= j < i ==> self.ixit_view()[j].0 != name@,
            decreases self.ixit.len() - i,
        {
            if crate::text::same_text(self.ixit[i].0.as_str(), name) {
                proof {
                    lemma_lookup_at(self.ixit_view(), i as int);
                }
                return Some(self.ixit[i].1.clone());
            }
            i = i + 1;
        }
        None
    }

    /// The ICS overrides as a list of predicate values.
    pub fn ics_values(&self) -> (r: Vec<(String, bool)>)
        ensures
            values_view(r@) == self.ics_view(),
    {
        let mut r: Vec<(String, bool)> = Vec::new();
        let mut i: usize = 0;
        while i < self.ics.len()
            invariant
                i <= self.ics.len(),
                values_view(r@) == self.ics_view().subrange(0, i as int),
            decreases self.ics.len() - i,
        {
            let ghost before = r@;
            let name = self.ics[i].0.clone();
            assert(name@ == self.ics@[i as int].0@);
            r.push((name, self.ics[i].1));
            assert(values_view(r@) =~= values_view(before).push(self.ics_view()[i as int]));
            assert(values_view(r@) =~= self.ics_view().subrange(0, i + 1));
            i = i + 1;
        }
        assert(self.ics_view().subrange(0, i as int) =~= self.ics_view());
        r
    }
}

/// The upper-case form of a text, as `str::to_uppercase` gives it.
pub uninterp spec fn upper_of(s: Seq<char>) -> Seq<char>;

/// Relies on `str::to_uppercase`: the result depends on the characters alone.
#[verifier::external_body]
fn to_upper(s: &str) -> (r: String)
    ensures
        r@ == upper_of(s@),
{
    s.to_uppercase()
}

impl Overrides {
    /// Sets an ICS predicate from a configuration file: under its name as
    /// written and under its upper-case form.
    pub fn set_ics_any_case(&mut self, name: &str, value: bool)
        requires
            old(self).wf(),
        ensures
            final(self).wf(),
            forall|k: Seq<char>|
                #[trigger] lookup(final(self).ics_view(), k) == if k == name@ || k == upper_of(
                    name@,
                ) {
                    Some(value)
                } else {
                    lookup(old(self).ics_view(), k)
                },
    {
        self.set_ics(name, value);
        let upper = to_upper(name);
        self.set_ics(upper.as_str(), value);
    }
}

} // verus!
