//! Association sequences: a sequence of `(key, value)` pairs with pairwise
//! distinct keys stands for the finite map from each key to its value.
use vstd::prelude::*;

use crate::model::pairs_view;

verus! {

/// The map that a sequence of pairs stands for; a later pair wins over an
/// earlier one with the same key.
pub open spec fn to_map<V>(s: Seq<(Seq<char>, V)>) -> Map<Seq<char>, V>
    decreases s.len(),
{
    if s.len() == 0 {
        Map::empty()
    } else {
        to_map(s.drop_last()).insert(s.last().0, s.last().1)
    }
}

/// No two pairs share a key.
pub open spec fn unique_keys<V>(s: Seq<(Seq<char>, V)>) -> bool {
    forall|i: int, j: int| 0 <= i < s.len() && 0 <= j < s.len() && i != j ==> s[i].0 != s[j].0
}

/// Some pair has key `k`.
pub open spec fn has_key<V>(s: Seq<(Seq<char>, V)>, k: Seq<char>) -> bool {
    exists|i: int| 0 <= i < s.len() && s[i].0 == k
}

pub proof fn lemma_to_map_contains<V>(s: Seq<(Seq<char>, V)>, k: Seq<char>)
    ensures
        to_map(s).contains_key(k) <==> has_key(s, k),
    decreases s.len(),
{
    if s.len() > 0 {
        let t = s.drop_last();
        lemma_to_map_contains(t, k);
        if has_key(t, k) {
            let i = choose|i: int| 0 <= i < t.len() && t[i].0 == k;
            assert(s[i] == t[i]);
        }
        if has_key(s, k) && k != s.last().0 {
            let i = choose|i: int| 0 <= i < s.len() && s[i].0 == k;
            assert(i < s.len() - 1);
            assert(t[i] == s[i]);
        }
    }
}

pub proof fn lemma_to_map_index<V>(s: Seq<(Seq<char>, V)>, i: int)
    requires
        unique_keys(s),
        0 <= i < s.len(),
    ensures
        to_map(s).contains_key(s[i].0),
        to_map(s)[s[i].0] == s[i].1,
    decreases s.len(),
{
    let t = s.drop_last();
    if i < s.len() - 1 {
        assert(t[i] == s[i]);
        assert(unique_keys(t)) by {
            assert forall|a: int, b: int|
                0 <= a < t.len() && 0 <= b < t.len() && a != b implies t[a].0 != t[b].0 by {
                assert(t[a] == s[a] && t[b] == s[b]);
            }
        }
        lemma_to_map_index(t, i);
        assert(s[i].0 != s.last().0);
    }
}

pub proof fn lemma_unique_drop_last<V>(s: Seq<(Seq<char>, V)>)
    requires
        unique_keys(s),
        s.len() > 0,
    ensures
        unique_keys(s.drop_last()),
        !has_key(s.drop_last(), s.last().0),
{
    let t = s.drop_last();
    assert forall|a: int, b: int| 0 <= a < t.len() && 0 <= b < t.len() && a != b implies t[a].0
        != t[b].0 by {
        assert(t[a] == s[a] && t[b] == s[b]);
    }
    if has_key(t, s.last().0) {
        let i = choose|i: int| 0 <= i < t.len() && t[i].0 == s.last().0;
        assert(t[i] == s[i]);
        assert(false);
    }
}

pub proof fn lemma_to_map_len<V>(s: Seq<(Seq<char>, V)>)
    requires
        unique_keys(s),
    ensures
        to_map(s).dom().finite(),
        to_map(s).dom().len() == s.len(),
    decreases s.len(),
{
    if s.len() == 0 {
        assert(to_map(s).dom() =~= Set::empty());
    } else {
        let t = s.drop_last();
        lemma_unique_drop_last(s);
        lemma_to_map_len(t);
        lemma_to_map_contains(t, s.last().0);
        assert(to_map(s).dom() =~= to_map(t).dom().insert(s.last().0));
    }
}

/// The map of any sequence of pairs has finitely many keys.
pub proof fn lemma_to_map_finite<V>(s: Seq<(Seq<char>, V)>)
    ensures
        to_map(s).dom().finite(),
    decreases s.len(),
{
    if s.len() == 0 {
        assert(to_map(s).dom() =~= Set::empty());
    } else {
        lemma_to_map_finite(s.drop_last());
        assert(to_map(s).dom() =~= to_map(s.drop_last()).dom().insert(s.last().0));
    }
}

pub proof fn lemma_to_map_push<V>(s: Seq<(Seq<char>, V)>, k: Seq<char>, v: V)
    requires
        unique_keys(s),
        !has_key(s, k),
    ensures
        unique_keys(s.push((k, v))),
        to_map(s.push((k, v))) == to_map(s).insert(k, v),
{
    let u = s.push((k, v));
    assert(u.drop_last() =~= s);
    assert forall|a: int, b: int| 0 <= a < u.len() && 0 <= b < u.len() && a != b implies u[a].0
        != u[b].0 by {
        if a < s.len() && b < s.len() {
            assert(u[a] == s[a] && u[b] == s[b]);
        } else if a < s.len() {
            assert(u[a] == s[a]);
        } else {
            assert(u[b] == s[b]);
        }
    }
}

pub proof fn lemma_to_map_remove<V>(s: Seq<(Seq<char>, V)>, i: int)
    requires
        unique_keys(s),
        0 <= i < s.len(),
    ensures
        unique_keys(s.remove(i)),
        to_map(s.remove(i)) == to_map(s).remove(s[i].0),
{
    let u = s.remove(i);
    let k = s[i].0;
    assert forall|a: int| 0 <= a < u.len() implies u[a] == (if a < i { s[a] } else { s[a + 1] })
        by {}
    assert forall|a: int, b: int| 0 <= a < u.len() && 0 <= b < u.len() && a != b implies u[a].0
        != u[b].0 by {
        assert(u[a] == (if a < i { s[a] } else { s[a + 1] }));
        assert(u[b] == (if b < i { s[b] } else { s[b + 1] }));
    }
    assert forall|x: Seq<char>| #[trigger] to_map(u).contains_key(x) <==> to_map(
        s,
    ).remove(k).contains_key(x) by {
        lemma_to_map_contains(u, x);
        lemma_to_map_contains(s, x);
        if has_key(u, x) {
            let a = choose|a: int| 0 <= a < u.len() && u[a].0 == x;
            let b = if a < i { a } else { a + 1 };
            assert(s[b].0 == x);
        }
        if has_key(s, x) && x != k {
            let b = choose|b: int| 0 <= b < s.len() && s[b].0 == x;
            assert(b != i);
            let a = if b < i { b } else { b - 1 };
            assert(u[a].0 == x);
        }
    }
    assert forall|x: Seq<char>| #[trigger] to_map(u).contains_key(x) implies to_map(u)[x]
        == to_map(s)[x] by {
        lemma_to_map_contains(u, x);
        let a = choose|a: int| 0 <= a < u.len() && u[a].0 == x;
        let b = if a < i { a } else { a + 1 };
        lemma_to_map_index(u, a);
        lemma_to_map_index(s, b);
    }
    assert(to_map(u) =~= to_map(s).remove(k));
}

/// Replacing the value of the pair at `i` updates the map at its key.
pub proof fn lemma_to_map_update<V>(s: Seq<(Seq<char>, V)>, i: int, v: V)
    requires
        unique_keys(s),
        0 <= i < s.len(),
    ensures
        unique_keys(s.update(i, (s[i].0, v))),
        to_map(s.update(i, (s[i].0, v))) == to_map(s).insert(s[i].0, v),
{
    let u = s.update(i, (s[i].0, v));
    let k = s[i].0;
    assert forall|a: int, b: int| 0 <= a < u.len() && 0 <= b < u.len() && a != b implies u[a].0
        != u[b].0 by {
        assert(u[a].0 == s[a].0 && u[b].0 == s[b].0);
    }
    assert forall|x: Seq<char>| #[trigger] to_map(u).contains_key(x) <==> to_map(s).insert(
        k,
        v,
    ).contains_key(x) by {
        lemma_to_map_contains(u, x);
        lemma_to_map_contains(s, x);
        if has_key(u, x) {
            let a = choose|a: int| 0 <= a < u.len() && u[a].0 == x;
            assert(s[a].0 == x);
        }
        if has_key(s, x) {
            let a = choose|a: int| 0 <= a < s.len() && s[a].0 == x;
            assert(u[a].0 == x);
        }
        lemma_to_map_index(u, i);
    }
    assert forall|x: Seq<char>| #[trigger] to_map(u).contains_key(x) implies to_map(u)[x]
        == to_map(s).insert(k, v)[x] by {
        lemma_to_map_contains(u, x);
        let a = choose|a: int| 0 <= a < u.len() && u[a].0 == x;
        lemma_to_map_index(u, a);
        if a != i {
            lemma_to_map_index(s, a);
        }
    }
    assert(to_map(u) =~= to_map(s).insert(k, v));
}

/// Finds the position of the pair whose key is `key`.
pub fn position<V>(v: &Vec<(String, V)>, key: &String) -> (r: Option<usize>)
    ensures
        match r {
            Some(i) => i < v@.len() && v@[i as int].0@ == key@,
            None => forall|i: int| 0 <= i < v@.len() ==> v@[i].0@ != key@,
        },
{
    let mut i: usize = 0;
    while i < v.len()
        invariant
            i <= v@.len(),
            forall|j: int| 0 <= j < i ==> v@[j].0@ != key@,
        decreases v@.len() - i,
    {
        if v[i].0 == *key {
            return Some(i);
        }
        i = i + 1;
    }
    None
}

/// Sets `field` to `value`; returns whether the field was there before.
pub fn set_field(h: &mut Vec<(String, String)>, field: String, value: String) -> (existed: bool)
    requires
        unique_keys(pairs_view(old(h)@)),
    ensures
        unique_keys(pairs_view(final(h)@)),
        to_map(pairs_view(final(h)@)) == to_map(pairs_view(old(h)@)).insert(field@, value@),
        existed == to_map(pairs_view(old(h)@)).contains_key(field@),
{
    let ghost s = pairs_view(h@);
    let ghost f = field@;
    let ghost v = value@;
    proof {
        lemma_to_map_contains(s, f);
    }
    match position(h, &field) {
        Some(i) => {
            h.set(i, (field, value));
            proof {
                assert(s[i as int].0 == f);
                assert(pairs_view(h@) =~= s.update(i as int, (s[i as int].0, v)));
                lemma_to_map_update(s, i as int, v);
            }
            true
        },
        None => {
            h.push((field, value));
            proof {
                assert(pairs_view(h@) =~= s.push((f, v)));
                lemma_to_map_push(s, f, v);
            }
            false
        },
    }
}

/// Removes `field`; returns whether it was there.
pub fn remove_field(h: &mut Vec<(String, String)>, field: &String) -> (existed: bool)
    requires
        unique_keys(pairs_view(old(h)@)),
    ensures
        unique_keys(pairs_view(final(h)@)),
        to_map(pairs_view(final(h)@)) == to_map(pairs_view(old(h)@)).remove(field@),
        existed == to_map(pairs_view(old(h)@)).contains_key(field@),
{
    let ghost s = pairs_view(h@);
    proof {
        lemma_to_map_contains(s, field@);
    }
    match position(h, field) {
        Some(i) => {
            h.remove(i);
            proof {
                assert(pairs_view(h@) =~= s.remove(i as int));
                lemma_to_map_remove(s, i as int);
            }
            true
        },
        None => {
            proof {
                assert(to_map(s).remove(field@) =~= to_map(s));
            }
            false
        },
    }
}

/// The value of `field`, if there is one.
pub fn get_field(h: &Vec<(String, String)>, field: &String) -> (r: Option<String>)
    requires
        unique_keys(pairs_view(h@)),
    ensures
        match r {
            Some(v) => to_map(pairs_view(h@)).contains_key(field@) && v@ == to_map(
                pairs_view(h@),
            )[field@],
            None => !to_map(pairs_view(h@)).contains_key(field@),
        },
{
    let ghost s = pairs_view(h@);
    proof {
        lemma_to_map_contains(s, field@);
    }
    match position(h, field) {
        Some(i) => {
            proof {
                lemma_to_map_index(s, i as int);
            }
            Some(h[i].1.clone())
        },
        None => None,
    }
}

/// Sets each pair of `pairs` in turn, so that a later pair wins over an
/// earlier one with the same field.
pub fn set_fields(h: &mut Vec<(String, String)>, pairs: &Vec<(String, String)>)
    requires
        unique_keys(pairs_view(old(h)@)),
    ensures
        unique_keys(pairs_view(final(h)@)),
        to_map(pairs_view(final(h)@)) == to_map(pairs_view(old(h)@)).union_prefer_right(
            to_map(pairs_view(pairs@)),
        ),
{
    let ghost start = to_map(pairs_view(h@));
    let ghost ps = pairs_view(pairs@);
    let mut j: usize = 0;
    proof {
        assert(to_map(ps.take(0)) =~= Map::empty());
        assert(start.union_prefer_right(Map::empty()) =~= start);
    }
    while j < pairs.len()
        invariant
            j <= pairs@.len(),
            ps == pairs_view(pairs@),
            unique_keys(pairs_view(h@)),
            to_map(pairs_view(h@)) == start.union_prefer_right(to_map(ps.take(j as int))),
        decreases pairs@.len() - j,
    {
        let field = pairs[j].0.clone();
        let value = pairs[j].1.clone();
        let _ = set_field(h, field, value);
        proof {
            let p = ps[j as int];
            assert(ps.take(j + 1).drop_last() =~= ps.take(j as int));
            assert(ps.take(j + 1).last() == p);
            assert(to_map(ps.take(j + 1)) == to_map(ps.take(j as int)).insert(p.0, p.1));
            assert(start.union_prefer_right(to_map(ps.take(j as int))).insert(p.0, p.1)
                =~= start.union_prefer_right(to_map(ps.take(j as int)).insert(p.0, p.1)));
        }
        j = j + 1;
    }
    proof {
        assert(ps.take(pairs@.len() as int) =~= ps);
    }
}

/// The fields of `h`, in order.
pub fn field_names(h: &Vec<(String, String)>) -> (r: Vec<String>)
    requires
        unique_keys(pairs_view(h@)),
    ensures
        r@.len() == h@.len(),
        forall|i: int| 0 <= i < h@.len() ==> (#[trigger] r@[i])@ == h@[i].0@,
        crate::model::strings_view(r@).no_duplicates(),
        crate::model::strings_view(r@).to_set() == to_map(pairs_view(h@)).dom(),
{
    let mut r: Vec<String> = Vec::new();
    let mut i: usize = 0;
    while i < h.len()
        invariant
            i <= h@.len(),
            r@.len() == i,
            forall|j: int| 0 <= j < i ==> (#[trigger] r@[j])@ == h@[j].0@,
        decreases h@.len() - i,
    {
        r.push(h[i].0.clone());
        i = i + 1;
    }
    proof {
        let s = pairs_view(h@);
        let names = crate::model::strings_view(r@);
        assert forall|a: int, b: int| 0 <= a < names.len() && 0 <= b < names.len() && a != b implies names[a]
            != names[b] by {
            assert(names[a] == s[a].0 && names[b] == s[b].0);
        }
        assert forall|k: Seq<char>| #[trigger] names.to_set().contains(k) <==> to_map(s).dom().contains(k)
            by {
            lemma_to_map_contains(s, k);
            if names.contains(k) {
                let a = choose|a: int| 0 <= a < names.len() && names[a] == k;
                assert(s[a].0 == k);
            }
            if has_key(s, k) {
                let a = choose|a: int| 0 <= a < s.len() && s[a].0 == k;
                assert(names[a] == k);
            }
        }
        assert(names.to_set() =~= to_map(s).dom());
    }
    r
}

/// The values of `h`, in the order of its fields.
pub fn field_values(h: &Vec<(String, String)>) -> (r: Vec<String>)
    ensures
        r@.len() == h@.len(),
        forall|i: int| 0 <= i < h@.len() ==> (#[trigger] r@[i])@ == h@[i].1@,
{
    let mut r: Vec<String> = Vec::new();
    let mut i: usize = 0;
    while i < h.len()
        invariant
            i <= h@.len(),
            r@.len() == i,
            forall|j: int| 0 <= j < i ==> (#[trigger] r@[j])@ == h@[j].1@,
        decreases h@.len() - i,
    {
        r.push(h[i].1.clone());
        i = i + 1;
    }
    r
}

} // verus!
