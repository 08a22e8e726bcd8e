//! A profile of the test suite as the engine uses it: which of its test
//! cases apply, and the parameters handed to the test server for one of them.
use vstd::prelude::*;
use crate::bd_addr::{plain_text, BdAddr};
use crate::ets::{as_map, enabled_names, names_view, values_view, Ets};
use crate::params::{distinct_keys, has_key, lemma_lookup_at, lookup, Overrides};
use crate::picsx::{self, Pics};
use crate::pixitx::{self, Pixit};
use crate::text::same_text;

verus! {

/// A profile: its name and its three files.
#[derive(Debug)]
pub struct Profile {
    pub name: String,
    pub ets: Ets,
    pub pics: Pics,
    pub pixit: Pixit,
}

/// Predicate values of the ICS rows.
pub open spec fn rows_values(rows: Seq<picsx::Row>) -> Seq<(Seq<char>, bool)> {
    Seq::new(rows.len(), |i: int| (rows[i].name@, rows[i].value))
}

/// The value of the first entry named `k`, if any.
pub open spec fn first_value(l: Seq<(Seq<char>, bool)>, k: Seq<char>) -> Option<bool>
    decreases l.len(),
{
    if l.len() == 0 {
        None
    } else {
        match first_value(l.drop_last(), k) {
            Some(v) => Some(v),
            None => if l.last().0 == k {
                Some(l.last().1)
            } else {
                None
            },
        }
    }
}

/// The predicate values that select test cases: the overrides, and for
/// other names the first ICS row.
pub open spec fn predicate_map(ics: Seq<(Seq<char>, bool)>, rows: Seq<(Seq<char>, bool)>) -> Map<
    Seq<char>,
    bool,
> {
    Map::new(
        |k: Seq<char>| has_key(ics, k) || first_value(rows, k) is Some,
        |k: Seq<char>|
            if has_key(ics, k) {
                lookup(ics, k)->0
            } else {
                first_value(rows, k)->0
            },
    )
}

proof fn lemma_lookup_push(l: Seq<(Seq<char>, bool)>, k: Seq<char>, v: bool)
    requires
        distinct_keys(l),
        !has_key(l, k),
    ensures
        distinct_keys(l.push((k, v))),
        forall|j: Seq<char>| #[trigger] has_key(l.push((k, v)), j) <==> (j == k || has_key(l, j)),
        forall|j: Seq<char>|
            #[trigger] lookup(l.push((k, v)), j) == if j == k {
                Some(v)
            } else {
                lookup(l, j)
            },
{
    let p = l.push((k, v));
    assert forall|a: int, b: int| 0 <= a < b < p.len() implies p[a].0 != p[b].0 by {
        if b == l.len() {
            assert(p[a] == l[a]);
        } else {
            assert(p[a] == l[a] && p[b] == l[b]);
        }
    }
    assert forall|j: Seq<char>| #[trigger] has_key(p, j) <==> (j == k || has_key(l, j)) by {
        if has_key(l, j) {
            let i = choose|i: int| 0 <= i < l.len() && l[i].0 == j;
            assert(p[i] == l[i]);
        }
        if j == k {
            assert(p[l.len() as int].0 == k);
        }
        if has_key(p, j) && j != k {
            let i = choose|i: int| 0 <= i < p.len() && p[i].0 == j;
            assert(i < l.len());
            assert(l[i] == p[i]);
        }
    }
    assert forall|j: Seq<char>| #[trigger]
        lookup(p, j) == if j == k {
            Some(v)
        } else {
            lookup(l, j)
        } by {
        if j == k {
            lemma_lookup_at(p, l.len() as int);
        } else if has_key(l, j) {
            let i = choose|i: int| 0 <= i < l.len() && l[i].0 == j;
            lemma_lookup_at(l, i);
            assert(p[i] == l[i]);
            lemma_lookup_at(p, i);
        } else {
            assert(!has_key(p, j));
        }
    }
}

fn contains_key(r: &Vec<(String, bool)>, name: &String) -> (b: bool)
    ensures
        b == has_key(values_view(r@), name@),
{
    let mut i: usize = 0;
    while i < r.len()
        invariant
            i <= r.len(),
            forall|j: int| 0 <= j < i ==> values_view(r@)[j].0 != name@,
        decreases r.len() - i,
    {
        if same_text(r[i].0.as_str(), name.as_str()) {
            assert(values_view(r@)[i as int].0 == name@);
            return true;
        }
        i = i + 1;
    }
    false
}

/// `TRUE` or `FALSE`.
pub open spec fn bool_text(b: bool) -> Seq<char> {
    if b {
        "TRUE"@
    } else {
        "FALSE"@
    }
}

/// The parameter for an ICS row: the override, else the row's value.
pub open spec fn pics_param(ics: Seq<(Seq<char>, bool)>, row: picsx::Row) -> (
    Seq<char>,
    Seq<char>,
    Seq<char>,
) {
    let v = match lookup(ics, row.name@) {
        Some(v) => v,
        None => row.value,
    };
    (row.name@, "BOOLEAN"@, bool_text(v))
}

/// The first type of an IXIT row (none where the row has no type).
pub open spec fn first_type(row: pixitx::Row) -> Seq<char> {
    if row.value_type.len() > 0 {
        row.value_type[0]@
    } else {
        Seq::empty()
    }
}

/// The parameter for an IXIT row: the device address and the link key
/// deletion are the engine's own; other rows take the override, else
/// the row's value.
pub open spec fn pixit_param(ixit: Seq<(Seq<char>, Seq<char>)>, row: pixitx::Row, addr: Seq<u8>) -> (
    Seq<char>,
    Seq<char>,
    Seq<char>,
) {
    if row.name@ == "TSPX_bd_addr_iut"@ {
        ("TSPX_bd_addr_iut"@, "OCTETSTRING"@, plain_text(addr))
    } else if row.name@ == "TSPX_delete_link_key"@ {
        ("TSPX_delete_link_key"@, "BOOLEAN"@, "TRUE"@)
    } else {
        let v = match lookup(ixit, row.name@) {
            Some(v) => v,
            None => row.value@,
        };
        (row.name@, first_type(row), v)
    }
}

pub open spec fn triples_view(v: Seq<(String, String, String)>) -> Seq<
    (Seq<char>, Seq<char>, Seq<char>),
> {
    Seq::new(v.len(), |i: int| (v[i].0@, v[i].1@, v[i].2@))
}

/// The parameter list: one `(name, type, value)` per ICS row, then one
/// per IXIT row.
pub open spec fn parameters_spec(
    ics: Seq<(Seq<char>, bool)>,
    ixit: Seq<(Seq<char>, Seq<char>)>,
    pics: Seq<picsx::Row>,
    pixit: Seq<pixitx::Row>,
    addr: Seq<u8>,
) -> Seq<(Seq<char>, Seq<char>, Seq<char>)> {
    Seq::new(pics.len(), |i: int| pics_param(ics, pics[i])) + Seq::new(
        pixit.len(),
        |i: int| pixit_param(ixit, pixit[i], addr),
    )
}

fn bool_string(b: bool) -> (r: String)
    ensures
        r@ == bool_text(b),
{
    if b {
        "TRUE".to_string()
    } else {
        "FALSE".to_string()
    }
}

impl Profile {
    /// Predicate values for selecting test cases, one per name: the
    /// override where there is one, else the first ICS row of that name.
    pub fn predicate_values(&self, overrides: &Overrides) -> (r: Vec<(String, bool)>)
        requires
            overrides.wf(),
        ensures
            distinct_keys(values_view(r@)),
            as_map(values_view(r@)) == predicate_map(
                overrides.ics_view(),
                rows_values(self.pics.rows.rows@),
            ),
    {
        let ghost ics = overrides.ics_view();
        let mut r = overrides.ics_values();
        let rows = self.pics.iter();
        let ghost rv = rows_values(rows@);
        let mut i: usize = 0;
        while i < rows.len()
            invariant
                i <= rows.len(),
                rows@ == self.pics.rows.rows@,
                rv == rows_values(rows@),
                distinct_keys(ics),
                distinct_keys(values_view(r@)),
                forall|k: Seq<char>|
                    #[trigger] has_key(values_view(r@), k) <==> (has_key(ics, k) || first_value(
                        rv.subrange(0, i as int),
                        k,
                    ) is Some),
                forall|k: Seq<char>|
                    #[trigger] has_key(values_view(r@), k) ==> lookup(values_view(r@), k) == if has_key(
                        ics,
                        k,
                    ) {
                        lookup(ics, k)
                    } else {
                        first_value(rv.subrange(0, i as int), k)
                    },
            decreases rows.len() - i,
        {
            let ghost before = values_view(r@);
            let ghost prefix = rv.subrange(0, i as int);
            let ghost next = rv.subrange(0, i + 1);
            assert(next.drop_last() =~= prefix);
            assert(next.last() == (rows@[i as int].name@, rows@[i as int].value));
            if !contains_key(&r, &rows[i].name) {
                let name = rows[i].name.clone();
                r.push((name, rows[i].value));
                proof {
                    let k0 = rows@[i as int].name@;
                    assert(values_view(r@) =~= before.push((k0, rows@[i as int].value)));
                    lemma_lookup_push(before, k0, rows@[i as int].value);
                    assert forall|k: Seq<char>| #[trigger]
                        has_key(values_view(r@), k) ==> lookup(values_view(r@), k) == if has_key(
                            ics,
                            k,
                        ) {
                            lookup(ics, k)
                        } else {
                            first_value(next, k)
                        } by {
                        if has_key(values_view(r@), k) && k != k0 {
                            assert(has_key(before, k));
                        }
                    }
                    assert forall|k: Seq<char>| #[trigger]
                        has_key(values_view(r@), k) <==> (has_key(ics, k) || first_value(next, k) is Some) by {
                    }
                }
            } else {
                proof {
                    assert forall|k: Seq<char>| #[trigger]
                        has_key(values_view(r@), k) ==> lookup(values_view(r@), k) == if has_key(
                            ics,
                            k,
                        ) {
                            lookup(ics, k)
                        } else {
                            first_value(next, k)
                        } by {
                    }
                    assert forall|k: Seq<char>| #[trigger]
                        has_key(values_view(r@), k) <==> (has_key(ics, k) || first_value(next, k) is Some) by {
                    }
                }
            }
            i = i + 1;
        }
        proof {
            assert(rv.subrange(0, i as int) =~= rv);
            let m = as_map(values_view(r@));
            let p = predicate_map(ics, rv);
            assert forall|k: Seq<char>| #[trigger] m.dom().contains(k) <==> p.dom().contains(k) by {}
            assert forall|k: Seq<char>| #[trigger] m.dom().contains(k) implies m[k] == p[k] by {
                if has_key(ics, k) {
                    assert(lookup(values_view(r@), k) == lookup(ics, k));
                }
            }
            assert(m =~= p);
        }
        r
    }

    /// The names of the test cases that apply, in the order of the test
    /// structure: a test case applies where its mapping evaluates to `true`
    /// with the overrides, and else the ICS rows, as predicate values.
    pub fn tests(&self, overrides: &Overrides) -> (r: Vec<String>)
        requires
            overrides.wf(),
        ensures
            names_view(r@) == enabled_names(
                self.ets.all_cases(),
                predicate_map(overrides.ics_view(), rows_values(self.pics.rows.rows@)),
            ),
    {
        let values = self.predicate_values(overrides);
        self.ets.enabled_testcases(&values)
    }

    /// The `(name, type, value)` parameters for the test server, with the
    /// address of the implementation under test.
    pub fn parameters(&self, overrides: &Overrides, iut_addr: BdAddr) -> (r: Vec<
        (String, String, String),
    >)
        requires
            overrides.wf(),
        ensures
            triples_view(r@) == parameters_spec(
                overrides.ics_view(),
                overrides.ixit_view(),
                self.pics.rows.rows@,
                self.pixit.rows.rows@,
                iut_addr.0@,
            ),
    {
        let pics = self.pics.iter();
        let pixit = self.pixit.iter();
        let ghost ics = overrides.ics_view();
        let ghost ixit = overrides.ixit_view();
        let ghost addr = iut_addr.0@;
        let ghost first = Seq::new(pics@.len(), |i: int| pics_param(ics, pics@[i]));
        let ghost second = Seq::new(pixit@.len(), |i: int| pixit_param(ixit, pixit@[i], addr));
        let mut r: Vec<(String, String, String)> = Vec::new();
        let mut i: usize = 0;
        while i < pics.len()
            invariant
                i <= pics.len(),
                overrides.wf(),
                ics == overrides.ics_view(),
                first == Seq::new(pics@.len(), |i: int| pics_param(ics, pics@[i])),
                triples_view(r@) == first.subrange(0, i as int),
            decreases pics.len() - i,
        {
            let row = &pics[i];
            let value = match overrides.ics_value(row.name.as_str()) {
                Some(v) => v,
                None => row.value,
            };
            let ghost before = r@;
            r.push((row.name.clone(), "BOOLEAN".to_string(), bool_string(value)));
            assert(triples_view(r@) =~= triples_view(before).push(first[i as int]));
            assert(first.subrange(0, i + 1) =~= first.subrange(0, i as int).push(first[i as int]));
            i = i + 1;
        }
        assert(first.subrange(0, i as int) =~= first);
        let octets = iut_addr.to_plain_string();
        let mut k: usize = 0;
        while k < pixit.len()
            invariant
                k <= pixit.len(),
                overrides.wf(),
                ixit == overrides.ixit_view(),
                octets@ == plain_text(addr),
                second == Seq::new(pixit@.len(), |i: int| pixit_param(ixit, pixit@[i], addr)),
                triples_view(r@) == first + second.subrange(0, k as int),
            decreases pixit.len() - k,
        {
            let row = &pixit[k];
            let ghost before = r@;
            if same_text(row.name.as_str(), "TSPX_bd_addr_iut") {
                r.push(("TSPX_bd_addr_iut".to_string(), "OCTETSTRING".to_string(), octets.clone()));
            } else if same_text(row.name.as_str(), "TSPX_delete_link_key") {
                r.push(
                    (
                        "TSPX_delete_link_key".to_string(),
                        "BOOLEAN".to_string(),
                        "TRUE".to_string(),
                    ),
                );
            } else {
                let value_type = if row.value_type.len() > 0 {
                    row.value_type[0].clone()
                } else {
                    String::new()
                };
                let value = match overrides.ixit_value(row.name.as_str()) {
                    Some(v) => v,
                    None => row.value.clone(),
                };
                r.push((row.name.clone(), value_type, value));
            }
            assert(triples_view(r@) =~= triples_view(before).push(second[k as int]));
            assert(second.subrange(0, k + 1) =~= second.subrange(0, k as int).push(
                second[k as int],
            ));
            k = k + 1;
        }
        assert(second.subrange(0, k as int) =~= second);
        r
    }
}

} // verus!
