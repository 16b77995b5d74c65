//! Sets of strings held as vectors without duplicates.
use vstd::prelude::*;

use crate::model::strings_view;

verus! {

pub proof fn lemma_to_set_remove<A>(s: Seq<A>, p: int)
    requires
        s.no_duplicates(),
        0 <= p < s.len(),
    ensures
        s.remove(p).no_duplicates(),
        s.remove(p).to_set() == s.to_set().remove(s[p]),
{
    let u = s.remove(p);
    assert forall|a: int| 0 <= a < u.len() implies u[a] == (if a < p { s[a] } else { s[a + 1] })
        by {}
    assert forall|a: int, b: int| 0 <= a < u.len() && 0 <= b < u.len() && a != b implies u[a]
        != u[b] by {
        assert(u[a] == (if a < p { s[a] } else { s[a + 1] }));
        assert(u[b] == (if b < p { s[b] } else { s[b + 1] }));
    }
    assert forall|x: A| #[trigger] u.to_set().contains(x) <==> s.to_set().remove(s[p]).contains(x)
        by {
        if u.contains(x) {
            let a = choose|a: int| 0 <= a < u.len() && u[a] == x;
            let b = if a < p { a } else { a + 1 };
            assert(s[b] == x);
        }
        if s.contains(x) && x != s[p] {
            let b = choose|b: int| 0 <= b < s.len() && s[b] == x;
            let a = if b < p { b } else { b - 1 };
            assert(u[a] == x);
        }
    }
    assert(u.to_set() =~= s.to_set().remove(s[p]));
}

/// Splitting a sequence without duplicates at `at` splits its set.
pub proof fn lemma_to_set_split<A>(s: Seq<A>, at: int)
    requires
        s.no_duplicates(),
        0 <= at <= s.len(),
    ensures
        s.subrange(0, at).no_duplicates(),
        s.subrange(at, s.len() as int).no_duplicates(),
        s.subrange(at, s.len() as int).to_set().subset_of(s.to_set()),
        s.subrange(0, at).to_set() == s.to_set().difference(s.subrange(at, s.len() as int).to_set()),
{
    let lo = s.subrange(0, at);
    let hi = s.subrange(at, s.len() as int);
    assert forall|a: int, b: int| 0 <= a < lo.len() && 0 <= b < lo.len() && a != b implies lo[a]
        != lo[b] by {
        assert(lo[a] == s[a] && lo[b] == s[b]);
    }
    assert forall|a: int, b: int| 0 <= a < hi.len() && 0 <= b < hi.len() && a != b implies hi[a]
        != hi[b] by {
        assert(hi[a] == s[a + at] && hi[b] == s[b + at]);
    }
    assert forall|x: A| #[trigger] hi.to_set().contains(x) implies s.to_set().contains(x) by {
        let a = choose|a: int| 0 <= a < hi.len() && hi[a] == x;
        assert(s[a + at] == x);
    }
    assert forall|x: A| #[trigger] lo.to_set().contains(x) <==> s.to_set().difference(
        hi.to_set(),
    ).contains(x) by {
        if lo.contains(x) {
            let a = choose|a: int| 0 <= a < lo.len() && lo[a] == x;
            assert(s[a] == x);
            if hi.contains(x) {
                let b = choose|b: int| 0 <= b < hi.len() && hi[b] == x;
                assert(s[b + at] == x);
            }
        }
        if s.contains(x) && !hi.contains(x) {
            let b = choose|b: int| 0 <= b < s.len() && s[b] == x;
            if b < at {
                assert(lo[b] == x);
            } else {
                assert(hi[b - at] == x);
            }
        }
    }
    assert(lo.to_set() =~= s.to_set().difference(hi.to_set()));
}

pub proof fn lemma_strings_view_subrange(v: Seq<String>, lo: int, hi: int)
    requires
        0 <= lo <= hi <= v.len(),
    ensures
        strings_view(v.subrange(lo, hi)) == strings_view(v).subrange(lo, hi),
{
    assert(strings_view(v.subrange(lo, hi)) =~= strings_view(v).subrange(lo, hi));
}

/// Finds the position of `x` in `v`.
pub fn find_member(v: &Vec<String>, x: &String) -> (r: Option<usize>)
    ensures
        match r {
            Some(i) => i < v@.len() && v@[i as int]@ == x@,
            None => !strings_view(v@).contains(x@),
        },
{
    let mut i: usize = 0;
    while i < v.len()
        invariant
            i <= v@.len(),
            forall|j: int| 0 <= j < i ==> v@[j]@ != x@,
        decreases v@.len() - i,
    {
        if v[i] == *x {
            return Some(i);
        }
        i = i + 1;
    }
    proof {
        if strings_view(v@).contains(x@) {
            let j = choose|j: int| 0 <= j < v@.len() && strings_view(v@)[j] == x@;
            assert(v@[j]@ == x@);
        }
    }
    None
}

/// Adds each of `xs` to `m`; returns how many were not there before.
pub fn add_members(m: &mut Vec<String>, xs: &Vec<String>) -> (count: usize)
    requires
        strings_view(old(m)@).no_duplicates(),
    ensures
        strings_view(final(m)@).no_duplicates(),
        strings_view(final(m)@).to_set() == strings_view(old(m)@).to_set() + strings_view(
            xs@,
        ).to_set(),
        count == strings_view(xs@).to_set().difference(strings_view(old(m)@).to_set()).len(),
{
    let ghost old_set = strings_view(m@).to_set();
    let ghost old_len = m@.len();
    proof {
        strings_view(m@).unique_seq_to_set();
    }
    let mut count: usize = 0;
    let mut j: usize = 0;
    while j < xs.len()
        invariant
            j <= xs@.len(),
            strings_view(m@).no_duplicates(),
            strings_view(m@).to_set() == old_set + strings_view(xs@).take(j as int).to_set(),
            m@.len() == old_len + count,
            count <= j,
            old_set.len() == old_len,
            old_set.finite(),
        decreases xs@.len() - j,
    {
        let ghost before = strings_view(m@);
        assert(strings_view(xs@).take(j + 1) =~= strings_view(xs@).take(j as int).push(xs@[j as int]@));
        proof {
            strings_view(xs@).take(j as int).lemma_push_to_set_commute(xs@[j as int]@);
        }
        let found = find_member(m, &xs[j]);
        if found.is_none() {
            let x = xs[j].clone();
            m.push(x);
            assert(strings_view(m@) =~= before.push(xs@[j as int]@));
            proof {
                before.lemma_push_to_set_commute(xs@[j as int]@);
            }
            assert(strings_view(m@).no_duplicates()) by {
                let s = strings_view(m@);
                assert forall|a: int, b: int| 0 <= a < s.len() && 0 <= b < s.len() && a != b implies s[a]
                    != s[b] by {
                    if a < before.len() && b < before.len() {
                        assert(s[a] == before[a] && s[b] == before[b]);
                    } else if a < before.len() {
                        assert(s[a] == before[a]);
                        assert(before.contains(s[a]));
                    } else {
                        assert(s[b] == before[b]);
                        assert(before.contains(s[b]));
                    }
                }
            }
            count = count + 1;
        } else {
            let ghost i = found.unwrap() as int;
            assert(before[i] == xs@[j as int]@);
            assert(before.to_set().insert(xs@[j as int]@) =~= before.to_set());
        }
        assert(strings_view(m@).to_set() =~= old_set + strings_view(xs@).take(j + 1).to_set());
        j = j + 1;
    }
    proof {
        let new = strings_view(xs@).to_set();
        assert(strings_view(xs@).take(xs@.len() as int) =~= strings_view(xs@));
        strings_view(m@).unique_seq_to_set();
        vstd::set_lib::lemma_set_difference_len(new, old_set);
        vstd::set_lib::lemma_set_difference_len(old_set, new);
        assert(new.intersect(old_set) =~= old_set.intersect(new));
        assert(new + old_set =~= old_set + new);
    }
    count
}

/// Removes each of `xs` from `m`; returns how many were there.
pub fn remove_members(m: &mut Vec<String>, xs: &Vec<String>) -> (count: usize)
    requires
        strings_view(old(m)@).no_duplicates(),
    ensures
        strings_view(final(m)@).no_duplicates(),
        strings_view(final(m)@).to_set() == strings_view(old(m)@).to_set().difference(
            strings_view(xs@).to_set(),
        ),
        count == strings_view(old(m)@).to_set().intersect(strings_view(xs@).to_set()).len(),
{
    let ghost old_set = strings_view(m@).to_set();
    let old_len = m.len();
    proof {
        strings_view(m@).unique_seq_to_set();
    }
    let mut count: usize = 0;
    let mut j: usize = 0;
    while j < xs.len()
        invariant
            j <= xs@.len(),
            strings_view(m@).no_duplicates(),
            strings_view(m@).to_set() == old_set.difference(strings_view(xs@).take(j as int).to_set()),
            m@.len() + count == old_len,
            old_set.len() == old_len,
            old_set.finite(),
        decreases xs@.len() - j,
    {
        let ghost before = strings_view(m@);
        assert(strings_view(xs@).take(j + 1) =~= strings_view(xs@).take(j as int).push(xs@[j as int]@));
        proof {
            strings_view(xs@).take(j as int).lemma_push_to_set_commute(xs@[j as int]@);
        }
        match find_member(m, &xs[j]) {
            Some(p) => {
                m.remove(p);
                assert(strings_view(m@) =~= before.remove(p as int));
                proof {
                    lemma_to_set_remove(before, p as int);
                }
                count = count + 1;
            },
            None => {},
        }
        assert(strings_view(m@).to_set() =~= old_set.difference(strings_view(xs@).take(j + 1).to_set()));
        j = j + 1;
    }
    proof {
        let gone = strings_view(xs@).to_set();
        assert(strings_view(xs@).take(xs@.len() as int) =~= strings_view(xs@));
        strings_view(m@).unique_seq_to_set();
        vstd::set_lib::lemma_set_difference_len(old_set, gone);
    }
    count
}

/// Removes the last `min(count, len)` members of `m` and returns them.
pub fn take_members(m: &mut Vec<String>, count: usize) -> (taken: Vec<String>)
    requires
        strings_view(old(m)@).no_duplicates(),
    ensures
        strings_view(final(m)@).no_duplicates(),
        strings_view(taken@).no_duplicates(),
        strings_view(taken@).to_set().subset_of(strings_view(old(m)@).to_set()),
        strings_view(taken@).to_set().len() == if count < old(m)@.len() {
            count as nat
        } else {
            old(m)@.len()
        },
        strings_view(final(m)@).to_set() == strings_view(old(m)@).to_set().difference(
            strings_view(taken@).to_set(),
        ),
{
    let at: usize = if count < m.len() { m.len() - count } else { 0 };
    let ghost old_m = m@;
    let taken = m.split_off(at);
    proof {
        lemma_strings_view_subrange(old_m, 0, at as int);
        lemma_strings_view_subrange(old_m, at as int, old_m.len() as int);
        lemma_to_set_split(strings_view(old_m), at as int);
        strings_view(taken@).unique_seq_to_set();
    }
    taken
}

} // verus!
