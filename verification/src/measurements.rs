//! Platform measurements as a stage shows them: one entry per name, in
//! ascending name order (the order of `str`'s `Ord`, which compares UTF-8
//! bytes and so code points), a later report of a name replacing an
//! earlier one.
use vstd::prelude::*;

use crate::encoding::{hex_encode, hex_lower};
use crate::text::chars_of;

verus! {

/// `a` comes before `b` in code-point lexicographic order.
pub open spec fn key_lt(a: Seq<char>, b: Seq<char>) -> bool
    decreases a.len(),
{
    if a.len() == 0 {
        b.len() > 0
    } else if b.len() == 0 {
        false
    } else if a[0] < b[0] {
        true
    } else if a[0] == b[0] {
        key_lt(a.drop_first(), b.drop_first())
    } else {
        false
    }
}

pub proof fn lemma_key_lt_irreflexive(a: Seq<char>)
    ensures
        !key_lt(a, a),
    decreases a.len(),
{
    if a.len() > 0 {
        lemma_key_lt_irreflexive(a.drop_first());
    }
}

pub proof fn lemma_key_lt_total(a: Seq<char>, b: Seq<char>)
    ensures
        key_lt(a, b) || key_lt(b, a) || a == b,
        !(key_lt(a, b) && key_lt(b, a)),
    decreases a.len(),
{
    if a.len() > 0 && b.len() > 0 {
        if a[0] == b[0] {
            lemma_key_lt_total(a.drop_first(), b.drop_first());
            if a.drop_first() == b.drop_first() {
                assert(a =~= seq![a[0]] + a.drop_first());
                assert(b =~= seq![b[0]] + b.drop_first());
            }
        }
    } else if a.len() == 0 && b.len() == 0 {
        assert(a =~= b);
    }
}

pub proof fn lemma_key_lt_transitive(a: Seq<char>, b: Seq<char>, c: Seq<char>)
    requires
        key_lt(a, b),
        key_lt(b, c),
    ensures
        key_lt(a, c),
    decreases a.len(),
{
    if a.len() > 0 && b.len() > 0 && c.len() > 0 && a[0] == b[0] && b[0] == c[0] {
        lemma_key_lt_transitive(a.drop_first(), b.drop_first(), c.drop_first());
    }
}

/// The names are in strictly ascending order (so each occurs once).
pub open spec fn sorted_names(v: Seq<(String, String)>) -> bool {
    forall|i: int, j: int| 0 <= i < j < v.len() ==> key_lt(#[trigger] v[i].0@, #[trigger] v[j].0@)
}

/// What a verifier's report comes to: for each name, the lower-case hex of
/// the last value reported for it.
pub open spec fn report_map(meas: Seq<(String, Vec<u8>)>) -> Map<Seq<char>, Seq<char>>
    decreases meas.len(),
{
    if meas.len() == 0 {
        Map::empty()
    } else {
        report_map(meas.drop_last()).insert(meas.last().0@, hex_lower(meas.last().1@))
    }
}

/// The entries of `v` are exactly the name/value pairs of `m`.
pub open spec fn shows(v: Seq<(String, String)>, m: Map<Seq<char>, Seq<char>>) -> bool {
    &&& forall|j: int| 0 <= j < v.len() ==> #[trigger] m.contains_key(v[j].0@) && m[v[j].0@] == v[j].1@
    &&& forall|k: Seq<char>| #[trigger] m.contains_key(k) ==> exists|j: int| 0 <= j < v.len() && v[j].0@ == k
}

/// `a` comes before `b` in code-point lexicographic order.
pub fn name_lt(a: &str, b: &str) -> (r: bool)
    ensures
        r == key_lt(a@, b@),
{
    let x = chars_of(a);
    let y = chars_of(b);
    let mut i: usize = 0;
    assert(a@.skip(0) == a@ && b@.skip(0) == b@);
    while i < x.len() && i < y.len()
        invariant
            x@ == a@,
            y@ == b@,
            i <= x@.len(),
            i <= y@.len(),
            key_lt(a@, b@) == key_lt(a@.skip(i as int), b@.skip(i as int)),
        decreases x@.len() - i,
    {
        let ghost (sa, sb) = (a@.skip(i as int), b@.skip(i as int));
        assert(sa[0] == x@[i as int] && sb[0] == y@[i as int]);
        if x[i] < y[i] {
            return true;
        }
        if x[i] != y[i] {
            return false;
        }
        assert(sa.drop_first() =~= a@.skip(i + 1));
        assert(sb.drop_first() =~= b@.skip(i + 1));
        i = i + 1;
    }
    let ghost (sa, sb) = (a@.skip(i as int), b@.skip(i as int));
    assert(sa.len() == 0 || sb.len() == 0);
    x.len() < y.len() && i == x.len()
}

/// Record `value` under `name`: replace the entry of that name, or insert
/// one where the order puts it.
pub fn record(v: &mut Vec<(String, String)>, name: String, value: String)
    requires
        sorted_names(old(v)@),
    ensures
        sorted_names(final(v)@),
        forall|m: Map<Seq<char>, Seq<char>>| shows(old(v)@, m) ==> shows(final(v)@, m.insert(name@, value@)),
{
    let mut p: usize = 0;
    while p < v.len()
        invariant
            p <= v@.len(),
            sorted_names(v@),
            forall|j: int| 0 <= j < p ==> key_lt(#[trigger] v@[j].0@, name@),
        ensures
            p <= v@.len(),
            forall|j: int| 0 <= j < p ==> key_lt(#[trigger] v@[j].0@, name@),
            p < v@.len() ==> !key_lt(v@[p as int].0@, name@),
        decreases v@.len() - p,
    {
        if !name_lt(v[p].0.as_str(), name.as_str()) {
            break;
        }
        p = p + 1;
    }
    let ghost old_v = v@;
    assert(forall|j: int| 0 <= j < p ==> key_lt(#[trigger] old_v[j].0@, name@));
    if p < v.len() && str_same(v[p].0.as_str(), name.as_str()) {
        proof {
            assert forall|j: int| 0 <= j < old_v.len() && j != p implies old_v[j].0@ != name@ by {
                if j < p {
                    lemma_key_lt_irreflexive(name@);
                } else {
                    assert(key_lt(old_v[p as int].0@, old_v[j].0@));
                    lemma_key_lt_irreflexive(name@);
                }
            }
        }
        let ghost old_name = old_v[p as int].0;
        v.set(p, (name, value));
        proof {
            assert forall|i: int, j: int| 0 <= i < j < v@.len() implies key_lt(#[trigger] v@[i].0@, #[trigger] v@[j].0@) by {
                assert(old_v[i].0@ == v@[i].0@ || i == p);
                assert(old_v[j].0@ == v@[j].0@ || j == p);
                assert(key_lt(old_v[i].0@, old_v[j].0@));
            }
            assert forall|m: Map<Seq<char>, Seq<char>>| shows(old_v, m) implies shows(v@, m.insert(name@, value@)) by {
                let m2 = m.insert(name@, value@);
                assert forall|j: int| 0 <= j < v@.len() implies #[trigger] m2.contains_key(v@[j].0@) && m2[v@[j].0@] == v@[j].1@ by {
                    if j != p {
                        assert(m.contains_key(old_v[j].0@));
                    }
                }
                assert forall|k: Seq<char>| #[trigger] m2.contains_key(k) implies exists|j: int| 0 <= j < v@.len() && v@[j].0@ == k by {
                    if k == name@ {
                        assert(v@[p as int].0@ == k);
                    } else {
                        let j = choose|j: int| 0 <= j < old_v.len() && old_v[j].0@ == k;
                        assert(v@[j].0@ == k);
                    }
                }
            }
        }
    } else {
        proof {
            if p < old_v.len() {
                assert(!key_lt(old_v[p as int].0@, name@));
                assert(old_v[p as int].0@ != name@);
                lemma_key_lt_total(old_v[p as int].0@, name@);
            }
            assert forall|j: int| p <= j < old_v.len() implies key_lt(name@, #[trigger] old_v[j].0@) by {
                if j > p {
                    lemma_key_lt_transitive(name@, old_v[p as int].0@, old_v[j].0@);
                }
            }
            assert forall|j: int| 0 <= j < old_v.len() implies old_v[j].0@ != name@ by {
                lemma_key_lt_irreflexive(name@);
            }
        }
        v.insert(p, (name, value));
        proof {
            assert forall|j: int| 0 <= j < v@.len() implies (#[trigger] v@[j]) == (if j < p {
                old_v[j]
            } else if j == p {
                (name, value)
            } else {
                old_v[j - 1]
            }) by {}
            assert forall|i: int, j: int| 0 <= i < j < v@.len() implies key_lt(#[trigger] v@[i].0@, #[trigger] v@[j].0@) by {
                if i < p && j == p {
                } else if i < p && j > p {
                    lemma_key_lt_transitive(old_v[i].0@, name@, old_v[j - 1].0@);
                } else if i == p {
                } else if i < p {
                    assert(key_lt(old_v[i].0@, old_v[j].0@));
                } else {
                    assert(key_lt(old_v[i - 1].0@, old_v[j - 1].0@));
                }
            }
            assert forall|m: Map<Seq<char>, Seq<char>>| shows(old_v, m) implies shows(v@, m.insert(name@, value@)) by {
                let m2 = m.insert(name@, value@);
                assert forall|j: int| 0 <= j < v@.len() implies #[trigger] m2.contains_key(v@[j].0@) && m2[v@[j].0@] == v@[j].1@ by {
                    if j < p {
                        assert(m.contains_key(old_v[j].0@));
                    } else if j > p {
                        assert(m.contains_key(old_v[j - 1].0@));
                    }
                }
                assert forall|k: Seq<char>| #[trigger] m2.contains_key(k) implies exists|j: int| 0 <= j < v@.len() && v@[j].0@ == k by {
                    if k == name@ {
                        assert(v@[p as int].0@ == k);
                    } else {
                        let j = choose|j: int| 0 <= j < old_v.len() && old_v[j].0@ == k;
                        if j < p {
                            assert(v@[j].0@ == k);
                        } else {
                            assert(v@[j + 1].0@ == k);
                        }
                    }
                }
            }
        }
    }
}

fn str_same(a: &str, b: &str) -> (r: bool)
    ensures
        r == (a@ == b@),
{
    crate::text::str_eq(a, b)
}

/// The measurements a stage shows for a verifier's report: the report's
/// names, each once, in ascending order, with the lower-case hex of the
/// last value reported for it.
pub fn measurements_of(meas: &Vec<(String, Vec<u8>)>) -> (v: Vec<(String, String)>)
    ensures
        sorted_names(v@),
        shows(v@, report_map(meas@)),
{
    let mut v: Vec<(String, String)> = Vec::new();
    for i in 0..meas.len()
        invariant
            sorted_names(v@),
            shows(v@, report_map(meas@.take(i as int))),
    {
        let name = meas[i].0.clone();
        let value = hex_encode(meas[i].1.as_slice());
        let ghost before = report_map(meas@.take(i as int));
        assert(meas@.take(i + 1).drop_last() == meas@.take(i as int));
        record(&mut v, name, value);
        assert(report_map(meas@.take(i + 1)) == before.insert(meas@[i as int].0@, hex_lower(meas@[i as int].1@)));
    }
    assert(meas@.take(meas@.len() as int) == meas@);
    v
}

} // verus!
