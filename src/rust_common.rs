//! Helpers shared by the walks over a document: separators and key listing.
use vstd::prelude::*;

use crate::strings::{is_prefix_of, seq_lt, starts_with, str_eq, str_lt};
use crate::value::{has_key, keys_unique, sep_of, Value};
use vstd::seq_lib::{group_to_multiset_ensures, lemma_multiset_commutative};

verus! {

/// The separator to write after descending into `y`; none at the start of a path.
pub fn sep(y: &Value, empty_path: bool) -> (r: &'static str)
    ensures
        r@ == (if empty_path { seq![] } else { sep_of(*y) }),
{
    proof {
        reveal_strlit("");
        reveal_strlit(".");
    }
    if empty_path {
        return "";
    }
    match y {
        Value::Hash(_) => ".",
        _ => "",
    }
}

pub open spec fn strs_view(v: Seq<String>) -> Seq<Seq<char>> {
    v.map_values(|s: String| s@)
}

/// The keys of `es` that start with `p` and are not in `ign`, in the order of `es`.
pub open spec fn matching_keys(es: Seq<(String, Value)>, p: Seq<char>, ign: Seq<Seq<char>>) -> Seq<Seq<char>>
    decreases es.len(),
{
    if es.len() == 0 {
        seq![]
    } else {
        let rest = matching_keys(es.drop_last(), p, ign);
        let k = es.last().0@;
        if is_prefix_of(p, k) && !ign.contains(k) {
            rest.push(k)
        } else {
            rest
        }
    }
}

/// Puts `x` before the first element of `s` that comes after it.
pub open spec fn insert_sorted(x: Seq<char>, s: Seq<Seq<char>>) -> Seq<Seq<char>>
    decreases s.len(),
{
    if s.len() == 0 {
        seq![x]
    } else if seq_lt(x, s[0]) {
        seq![x] + s
    } else {
        seq![s[0]] + insert_sorted(x, s.drop_first())
    }
}

/// `s` in ascending lexicographic order (insertion sort).
pub open spec fn sort_strs(s: Seq<Seq<char>>) -> Seq<Seq<char>>
    decreases s.len(),
{
    if s.len() == 0 {
        s
    } else {
        insert_sorted(s.last(), sort_strs(s.drop_last()))
    }
}

/// No element of `s` comes before an earlier one.
pub open spec fn is_sorted(s: Seq<Seq<char>>) -> bool {
    forall|i: int, j: int| 0 <= i < j < s.len() ==> !seq_lt(#[trigger] s[j], #[trigger] s[i])
}

/// Inserting keeps every element and adds one.
pub proof fn lemma_insert_sorted_multiset(x: Seq<char>, s: Seq<Seq<char>>)
    ensures
        insert_sorted(x, s).to_multiset() =~= s.to_multiset().insert(x),
        insert_sorted(x, s).len() == s.len() + 1,
    decreases s.len(),
{
    broadcast use group_to_multiset_ensures;

    let e = Seq::<Seq<char>>::empty();
    assert(seq![x] =~= e.push(x));
    if s.len() == 0 {
    } else if seq_lt(x, s[0]) {
        lemma_multiset_commutative(seq![x], s);
    } else {
        let t = s.drop_first();
        lemma_insert_sorted_multiset(x, t);
        assert(seq![s[0]] =~= e.push(s[0]));
        lemma_multiset_commutative(seq![s[0]], insert_sorted(x, t));
        lemma_multiset_commutative(seq![s[0]], t);
        assert(s =~= seq![s[0]] + t);
    }
}

/// Sorting is a permutation.
pub proof fn lemma_sort_strs_multiset(s: Seq<Seq<char>>)
    ensures
        sort_strs(s).to_multiset() =~= s.to_multiset(),
        sort_strs(s).len() == s.len(),
    decreases s.len(),
{
    broadcast use group_to_multiset_ensures;

    if s.len() > 0 {
        lemma_sort_strs_multiset(s.drop_last());
        lemma_insert_sorted_multiset(s.last(), sort_strs(s.drop_last()));
        assert(s =~= s.drop_last().push(s.last()));
    }
}

/// Each matching key is a key of the hash that starts with the prefix and is not ignored.
pub proof fn lemma_matching_keys_are_keys(es: Seq<(String, Value)>, p: Seq<char>, ign: Seq<Seq<char>>)
    ensures
        forall|j: int|
            0 <= j < matching_keys(es, p, ign).len() ==> {
                let k = #[trigger] matching_keys(es, p, ign)[j];
                has_key(es, k) && is_prefix_of(p, k) && !ign.contains(k)
            },
    decreases es.len(),
{
    if es.len() > 0 {
        let d = es.drop_last();
        lemma_matching_keys_are_keys(d, p, ign);
        let m = matching_keys(es, p, ign);
        assert forall|j: int| 0 <= j < m.len() implies has_key(es, #[trigger] m[j]) by {
            if j < matching_keys(d, p, ign).len() {
                let k = m[j];
                assert(k == matching_keys(d, p, ign)[j]);
                let l = choose|l: int| 0 <= l < d.len() && #[trigger] d[l].0@ == k;
                assert(es[l] == d[l]);
            } else {
                assert(es[es.len() - 1].0@ == m[j]);
            }
        }
    }
}

/// The keys that a listing shows are keys of the hash that start with the prefix.
pub proof fn lemma_sorted_matches_are_keys(es: Seq<(String, Value)>, p: Seq<char>, ign: Seq<Seq<char>>)
    ensures
        forall|j: int|
            0 <= j < sort_strs(matching_keys(es, p, ign)).len() ==> {
                let k = #[trigger] sort_strs(matching_keys(es, p, ign))[j];
                has_key(es, k) && is_prefix_of(p, k) && !ign.contains(k)
            },
{
    broadcast use group_to_multiset_ensures;

    let m = matching_keys(es, p, ign);
    let ks = sort_strs(m);
    lemma_matching_keys_are_keys(es, p, ign);
    lemma_sort_strs_multiset(m);
    assert forall|j: int| 0 <= j < ks.len() implies ({
        let k = #[trigger] ks[j];
        has_key(es, k) && is_prefix_of(p, k) && !ign.contains(k)
    }) by {
        assert(ks.contains(ks[j]));
        assert(m.to_multiset().count(ks[j]) > 0);
        assert(m.contains(ks[j]));
        let l = choose|l: int| 0 <= l < m.len() && m[l] == ks[j];
        assert(m[l] == ks[j]);
    }
}

pub proof fn lemma_seq_lt_asym(a: Seq<char>, b: Seq<char>)
    ensures
        seq_lt(a, b) ==> !seq_lt(b, a),
    decreases a.len(),
{
    if a.len() > 0 && b.len() > 0 && a[0] == b[0] {
        lemma_seq_lt_asym(a.drop_first(), b.drop_first());
    }
}

pub proof fn lemma_seq_lt_trans(a: Seq<char>, b: Seq<char>, c: Seq<char>)
    ensures
        seq_lt(a, b) && seq_lt(b, c) ==> seq_lt(a, c),
    decreases a.len(),
{
    if a.len() > 0 && b.len() > 0 && c.len() > 0 && a[0] == b[0] && b[0] == c[0] {
        lemma_seq_lt_trans(a.drop_first(), b.drop_first(), c.drop_first());
    }
}

pub proof fn lemma_insert_sorted_sorted(x: Seq<char>, s: Seq<Seq<char>>)
    requires
        is_sorted(s),
    ensures
        is_sorted(insert_sorted(x, s)),
    decreases s.len(),
{
    broadcast use group_to_multiset_ensures;

    if s.len() == 0 {
    } else if seq_lt(x, s[0]) {
        let r = seq![x] + s;
        assert forall|i: int, j: int| 0 <= i < j < r.len() implies !seq_lt(#[trigger] r[j], #[trigger] r[i]) by {
            if i == 0 {
                let y = s[j - 1];
                assert(r[j] == y);
                lemma_seq_lt_trans(y, x, s[0]);
                lemma_seq_lt_asym(x, s[0]);
                if j - 1 > 0 {
                    assert(!seq_lt(s[j - 1], s[0]));
                }
            } else {
                assert(r[i] == s[i - 1] && r[j] == s[j - 1]);
            }
        }
    } else {
        let t = s.drop_first();
        assert forall|i: int, j: int| 0 <= i < j < t.len() implies !seq_lt(#[trigger] t[j], #[trigger] t[i]) by {
            assert(t[i] == s[i + 1] && t[j] == s[j + 1]);
        }
        lemma_insert_sorted_sorted(x, t);
        lemma_insert_sorted_multiset(x, t);
        let u = insert_sorted(x, t);
        let r = seq![s[0]] + u;
        assert forall|i: int, j: int| 0 <= i < j < r.len() implies !seq_lt(#[trigger] r[j], #[trigger] r[i]) by {
            if i == 0 {
                let y = u[j - 1];
                assert(r[j] == y);
                assert(u.contains(y));
                assert(u.to_multiset().count(y) > 0);
                if y != x {
                    assert(t.to_multiset().count(y) > 0);
                    assert(t.contains(y));
                    let m = choose|m: int| 0 <= m < t.len() && t[m] == y;
                    assert(s[m + 1] == y);
                }
            } else {
                assert(r[i] == u[i - 1] && r[j] == u[j - 1]);
            }
        }
    }
}

pub proof fn lemma_sort_strs_sorted(s: Seq<Seq<char>>)
    ensures
        is_sorted(sort_strs(s)),
    decreases s.len(),
{
    if s.len() > 0 {
        lemma_sort_strs_sorted(s.drop_last());
        lemma_insert_sorted_sorted(s.last(), sort_strs(s.drop_last()));
    }
}

pub proof fn lemma_matching_keys_complete(es: Seq<(String, Value)>, p: Seq<char>, ign: Seq<Seq<char>>, k: Seq<char>)
    requires
        has_key(es, k),
        is_prefix_of(p, k),
        !ign.contains(k),
    ensures
        matching_keys(es, p, ign).contains(k),
    decreases es.len(),
{
    let d = es.drop_last();
    if es.last().0@ == k {
        assert(matching_keys(es, p, ign).last() == k);
    } else {
        let j = choose|j: int| 0 <= j < es.len() && #[trigger] es[j].0@ == k;
        assert(d[j].0@ == k);
        lemma_matching_keys_complete(d, p, ign, k);
        let m = matching_keys(d, p, ign);
        let l = choose|l: int| 0 <= l < m.len() && m[l] == k;
        assert(matching_keys(es, p, ign)[l] == k);
    }
}

/// Every element of `s` comes strictly before every later one.
pub open spec fn is_strictly_sorted(s: Seq<Seq<char>>) -> bool {
    forall|i: int, j: int| 0 <= i < j < s.len() ==> seq_lt(#[trigger] s[i], #[trigger] s[j])
}

/// No element of `s` occurs twice.
pub open spec fn no_dup(s: Seq<Seq<char>>) -> bool {
    forall|i: int, j: int| 0 <= i < j < s.len() ==> #[trigger] s[i] != #[trigger] s[j]
}

pub proof fn lemma_seq_lt_total(a: Seq<char>, b: Seq<char>)
    ensures
        a != b ==> seq_lt(a, b) || seq_lt(b, a),
    decreases a.len(),
{
    if a.len() > 0 && b.len() > 0 && a[0] == b[0] {
        lemma_seq_lt_total(a.drop_first(), b.drop_first());
        assert(a =~= seq![a[0]] + a.drop_first());
        assert(b =~= seq![b[0]] + b.drop_first());
    } else if a.len() == 0 && b.len() == 0 {
        assert(a =~= b);
    }
}

pub proof fn lemma_insert_sorted_distinct(x: Seq<char>, s: Seq<Seq<char>>)
    requires
        no_dup(s),
        !s.contains(x),
    ensures
        no_dup(insert_sorted(x, s)),
    decreases s.len(),
{
    broadcast use group_to_multiset_ensures;

    if s.len() == 0 {
    } else if seq_lt(x, s[0]) {
        let r = seq![x] + s;
        assert forall|i: int, j: int| 0 <= i < j < r.len() implies #[trigger] r[i] != #[trigger] r[j] by {
            if i == 0 {
                assert(r[j] == s[j - 1]);
            } else {
                assert(r[i] == s[i - 1] && r[j] == s[j - 1]);
            }
        }
    } else {
        let t = s.drop_first();
        assert forall|i: int, j: int| 0 <= i < j < t.len() implies #[trigger] t[i] != #[trigger] t[j] by {
            assert(t[i] == s[i + 1] && t[j] == s[j + 1]);
        }
        assert forall|m: int| 0 <= m < t.len() implies t[m] != x by {
            assert(s[m + 1] == t[m]);
        }
        lemma_insert_sorted_distinct(x, t);
        lemma_insert_sorted_multiset(x, t);
        let u = insert_sorted(x, t);
        let r = seq![s[0]] + u;
        assert forall|i: int, j: int| 0 <= i < j < r.len() implies #[trigger] r[i] != #[trigger] r[j] by {
            if i == 0 {
                let y = u[j - 1];
                assert(r[j] == y);
                assert(u.contains(y));
                assert(u.to_multiset().count(y) > 0);
                if y != x {
                    assert(t.to_multiset().count(y) > 0);
                    assert(t.contains(y));
                    let m = choose|m: int| 0 <= m < t.len() && t[m] == y;
                    assert(s[m + 1] == y);
                } else {
                    assert(s.contains(s[0]));
                }
            } else {
                assert(r[i] == u[i - 1] && r[j] == u[j - 1]);
            }
        }
    }
}

pub proof fn lemma_sort_strs_distinct(s: Seq<Seq<char>>)
    requires
        no_dup(s),
    ensures
        no_dup(sort_strs(s)),
    decreases s.len(),
{
    broadcast use group_to_multiset_ensures;

    if s.len() > 0 {
        let d = s.drop_last();
        assert forall|i: int, j: int| 0 <= i < j < d.len() implies #[trigger] d[i] != #[trigger] d[j] by {
            assert(d[i] == s[i] && d[j] == s[j]);
        }
        lemma_sort_strs_distinct(d);
        lemma_sort_strs_multiset(d);
        let sd = sort_strs(d);
        if sd.contains(s.last()) {
            assert(sd.to_multiset().count(s.last()) > 0);
            assert(d.contains(s.last()));
            let m = choose|m: int| 0 <= m < d.len() && d[m] == s.last();
            assert(s[m] == s[s.len() - 1]);
        }
        lemma_insert_sorted_distinct(s.last(), sd);
    }
}

pub proof fn lemma_matching_keys_distinct(es: Seq<(String, Value)>, p: Seq<char>, ign: Seq<Seq<char>>)
    requires
        keys_unique(es),
    ensures
        no_dup(matching_keys(es, p, ign)),
    decreases es.len(),
{
    if es.len() > 0 {
        let d = es.drop_last();
        assert forall|i: int, j: int| 0 <= i < j < d.len() implies #[trigger] d[i].0@ != #[trigger] d[j].0@ by {
            assert(d[i] == es[i] && d[j] == es[j]);
        }
        lemma_matching_keys_distinct(d, p, ign);
        lemma_matching_keys_are_keys(d, p, ign);
        let md = matching_keys(d, p, ign);
        let k = es.last().0@;
        assert forall|m: int| 0 <= m < md.len() implies md[m] != k by {
            assert(has_key(d, md[m]));
            let l = choose|l: int| 0 <= l < d.len() && #[trigger] d[l].0@ == md[m];
            assert(es[l] == d[l]);
        }
        let r = matching_keys(es, p, ign);
        if r.len() > md.len() {
            assert forall|i: int, j: int| 0 <= i < j < r.len() implies #[trigger] r[i] != #[trigger] r[j] by {
                if j == r.len() - 1 {
                    assert(r[i] == md[i]);
                } else {
                    assert(r[i] == md[i] && r[j] == md[j]);
                }
            }
        }
    }
}

/// A sorted sequence without repeats is strictly sorted.
pub proof fn lemma_sorted_distinct_strict(s: Seq<Seq<char>>)
    requires
        is_sorted(s),
        no_dup(s),
    ensures
        is_strictly_sorted(s),
{
    assert forall|i: int, j: int| 0 <= i < j < s.len() implies seq_lt(#[trigger] s[i], #[trigger] s[j]) by {
        lemma_seq_lt_total(s[i], s[j]);
    }
}

/// The listed keys are exactly the keys of the hash that start with the prefix and
/// are not ignored.
pub proof fn lemma_sorted_keys_exactly(es: Seq<(String, Value)>, p: Seq<char>, ign: Seq<Seq<char>>)
    ensures
        forall|k: Seq<char>|
            sort_strs(matching_keys(es, p, ign)).contains(k) <==> (has_key(es, k) && is_prefix_of(p, k)
                && !ign.contains(k)),
{
    broadcast use group_to_multiset_ensures;

    let m = matching_keys(es, p, ign);
    let ks = sort_strs(m);
    lemma_sort_strs_multiset(m);
    lemma_sorted_matches_are_keys(es, p, ign);
    assert forall|k: Seq<char>| ks.contains(k) <==> (has_key(es, k) && is_prefix_of(p, k) && !ign.contains(k)) by {
        if ks.contains(k) {
            let j = choose|j: int| 0 <= j < ks.len() && ks[j] == k;
            assert(has_key(es, ks[j]) && is_prefix_of(p, ks[j]) && !ign.contains(ks[j]));
        }
        if has_key(es, k) && is_prefix_of(p, k) && !ign.contains(k) {
            lemma_matching_keys_complete(es, p, ign, k);
            assert(m.to_multiset().count(k) > 0);
        }
    }
}

proof fn lemma_insert_at(x: Seq<char>, s: Seq<Seq<char>>, j: int)
    requires
        0 <= j <= s.len(),
        forall|l: int| 0 <= l < j ==> !seq_lt(x, #[trigger] s[l]),
        j < s.len() ==> seq_lt(x, s[j]),
    ensures
        insert_sorted(x, s) == s.insert(j, x),
    decreases s.len(),
{
    if s.len() == 0 {
        assert(s.insert(j, x) =~= seq![x]);
    } else if j == 0 {
        assert(s.insert(j, x) =~= seq![x] + s);
    } else {
        let t = s.drop_first();
        assert forall|l: int| 0 <= l < j - 1 implies !seq_lt(x, #[trigger] t[l]) by {
            assert(t[l] == s[l + 1]);
        }
        lemma_insert_at(x, t, j - 1);
        assert(s.insert(j, x) =~= seq![s[0]] + t.insert(j - 1, x));
    }
}

fn is_ignored(k: &String, ignores: &Vec<String>) -> (r: bool)
    ensures
        r == strs_view(ignores@).contains(k@),
{
    let mut i: usize = 0;
    while i < ignores.len()
        invariant
            i <= ignores@.len(),
            forall|l: int| 0 <= l < i ==> ignores@[l]@ != k@,
        decreases ignores.len() - i,
    {
        if str_eq(ignores[i].as_str(), k.as_str()) {
            assert(strs_view(ignores@)[i as int] == k@);
            return true;
        }
        i = i + 1;
    }
    proof {
        if strs_view(ignores@).contains(k@) {
            let l = choose|l: int| 0 <= l < ignores@.len() && strs_view(ignores@)[l] == k@;
            assert(ignores@[l]@ == k@);
        }
    }
    false
}

/// The keys of `map` that start with `prefix`, less those in `ignores`, in ascending order.
pub fn keys_starting_with(prefix: &str, map: &Vec<(String, Value)>, ignores: &Vec<String>) -> (r: Vec<String>)
    ensures
        strs_view(r@) == sort_strs(matching_keys(map@, prefix@, strs_view(ignores@))),
        is_sorted(strs_view(r@)),
        forall|k: Seq<char>|
            strs_view(r@).contains(k) <==> (has_key(map@, k) && is_prefix_of(prefix@, k) && !strs_view(
                ignores@,
            ).contains(k)),
        keys_unique(map@) ==> is_strictly_sorted(strs_view(r@)),
{
    let ghost ign = strs_view(ignores@);
    let mut keys: Vec<String> = Vec::new();
    let mut i: usize = 0;
    while i < map.len()
        invariant
            ign == strs_view(ignores@),
            i <= map@.len(),
            strs_view(keys@) == sort_strs(matching_keys(map@.take(i as int), prefix@, ign)),
        decreases map.len() - i,
    {
        let ghost es = map@.take(i + 1);
        assert(es.drop_last() =~= map@.take(i as int));
        assert(es.last() == map@[i as int]);
        let k = &map[i].0;
        if !is_ignored(k, ignores) && starts_with(k.as_str(), prefix) {
            let mut j: usize = 0;
            while j < keys.len() && !str_lt(k.as_str(), keys[j].as_str())
                invariant
                    j <= keys@.len(),
                    forall|l: int| 0 <= l < j ==> !seq_lt(k@, #[trigger] strs_view(keys@)[l]),
                decreases keys.len() - j,
            {
                j = j + 1;
            }
            let ghost before = keys@;
            proof {
                lemma_insert_at(k@, strs_view(before), j as int);
                assert(matching_keys(es, prefix@, ign) == matching_keys(map@.take(i as int), prefix@, ign).push(k@));
                let m = matching_keys(es, prefix@, ign);
                assert(m.drop_last() =~= matching_keys(map@.take(i as int), prefix@, ign));
            }
            keys.insert(j, k.clone());
            assert(strs_view(keys@) =~= strs_view(before).insert(j as int, k@));
        }
        i = i + 1;
    }
    assert(map@.take(map@.len() as int) =~= map@);
    proof {
        let m = matching_keys(map@, prefix@, ign);
        lemma_sort_strs_sorted(m);
        lemma_sorted_keys_exactly(map@, prefix@, ign);
        if keys_unique(map@) {
            lemma_matching_keys_distinct(map@, prefix@, ign);
            lemma_sort_strs_distinct(m);
            lemma_sorted_distinct_strict(sort_strs(m));
        }
    }
    keys
}

} // verus!
