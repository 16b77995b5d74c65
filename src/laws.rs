//! Properties of the store that relate several operations or hold of every
//! store, stated over the model that the operations' contracts use.
use vstd::prelude::*;

use crate::assoc::lemma_to_map_finite;
use crate::error::{DBError, DBOk};
use crate::model::{StoreState, ValueView};

verus! {

/// A key that the store does not hold reads as absent: `get`, `slen` and
/// `hlen` give `None` and `contains_key` gives false.
pub proof fn lemma_absent_key_reads_absent(s: StoreState, k: Seq<char>)
    requires
        !s.contains(k),
    ensures
        s.get(k) == Ok::<Option<Seq<char>>, DBError>(None),
        s.slen(k) == Ok::<Option<usize>, DBError>(None),
        s.hlen(k) == Ok::<Option<usize>, DBError>(None),
        !s.contains(k),
{
}

/// Adding the same member twice adds it once: when the first `sadd` of `m`
/// succeeds, a second one reports no new member and changes nothing, so the
/// members stay as the first call left them.
pub proof fn lemma_sadd_twice(s: StoreState, k: Seq<char>, m: Seq<char>)
    ensures
        s.sadd(k, seq![m]).1 is Ok ==> {
            let s1 = s.sadd(k, seq![m]).0;
            &&& s1.sadd(k, seq![m]).1 == Ok::<usize, DBError>(0)
            &&& s1.sadd(k, seq![m]).0 == s1
            &&& s1.sadd(k, seq![m]).0.smembers(k) == s1.smembers(k)
        },
{
    let one = seq![m];
    assert(one.to_set() =~= set![m]) by {
        assert forall|x: Seq<char>| one.to_set().contains(x) <==> x == m by {
            if one.contains(x) {
                let i = choose|i: int| 0 <= i < one.len() && one[i] == x;
                assert(i == 0);
            }
            if x == m {
                assert(one[0] == x);
            }
        }
    }
    if s.sadd(k, one).1 is Ok {
        let s1 = s.sadd(k, one).0;
        match s1.lookup(k) {
            Some(ValueView::SetValue(members)) => {
                assert(members.contains(m));
                assert(one.to_set().difference(members) =~= Set::empty());
                assert(members + one.to_set() =~= members);
                assert(s1.with_entry(k, ValueView::SetValue(members)).entries =~= s1.entries);
            },
            _ => {
                assert(false);
            },
        }
    }
}

/// Once `k` holds a set, `hset`, `get` and `hget` on `k` give
/// `WrongValueType` and `hset` leaves the store unchanged.
pub proof fn lemma_set_key_refuses_other_kinds(
    s: StoreState,
    k: Seq<char>,
    field: Seq<char>,
    value: Seq<char>,
)
    requires
        s.lookup(k) is Some,
        s.lookup(k).unwrap() is SetValue,
    ensures
        s.hset(k, field, value) == (s, Err::<u32, DBError>(DBError::WrongValueType)),
        s.get(k) == Err::<Option<Seq<char>>, DBError>(DBError::WrongValueType),
        s.hget(k, field) == Err::<Option<Seq<char>>, DBError>(DBError::WrongValueType),
{
}

/// With a budget of one key and one key held, every write that would create
/// a second key gives `OutOfKeysSize` and leaves the store, and so its size,
/// unchanged.
pub proof fn lemma_full_budget_refuses_new_keys(
    s: StoreState,
    k: Seq<char>,
    value: Seq<char>,
    not_exists: bool,
    expire: Option<u64>,
    members: Seq<Seq<char>>,
    field: Seq<char>,
    pairs: Seq<(Seq<char>, Seq<char>)>,
)
    requires
        s.valid(),
        s.capacity == Some(1usize),
        s.size() == 1,
        !s.contains(k),
    ensures
        s.set(k, value, not_exists, false, expire) == (s, Err::<DBOk, DBError>(
            DBError::OutOfKeysSize,
        )),
        s.sadd(k, members) == (s, Err::<usize, DBError>(DBError::OutOfKeysSize)),
        s.hset(k, field, value) == (s, Err::<u32, DBError>(DBError::OutOfKeysSize)),
        s.hmset(k, pairs) == (s, Err::<DBOk, DBError>(DBError::OutOfKeysSize)),
        s.size() == 1,
{
}

/// Overwriting a string that the store holds succeeds whatever the budget,
/// and keeps the number of keys.
pub proof fn lemma_overwrite_keeps_size(
    s: StoreState,
    k: Seq<char>,
    value: Seq<char>,
    already_exists: bool,
    expire: Option<u64>,
)
    requires
        s.valid(),
        s.lookup(k) is Some,
        s.lookup(k).unwrap() is StringValue,
    ensures
        s.set(k, value, false, already_exists, expire).1 == Ok::<DBOk, DBError>(DBOk::OK),
        s.set(k, value, false, already_exists, expire).0.size() == s.size(),
        s.set(k, value, false, already_exists, expire).0.get(k) == Ok::<
            Option<Seq<char>>,
            DBError,
        >(Some(value)),
{
    assert(s.entries.insert(k, ValueView::StringValue(value)).dom() =~= s.entries.dom());
}

/// A write with `not_exists` creates a fresh key; a second one with
/// `not_exists` is a no-op (`Nil`) and the first value stays.
pub proof fn lemma_set_not_exists_keeps_first(
    s: StoreState,
    k: Seq<char>,
    v1: Seq<char>,
    v2: Seq<char>,
    e1: Option<u64>,
    already_exists2: bool,
    e2: Option<u64>,
)
    requires
        !s.contains(k),
        s.can_add_key(),
    ensures
        s.set(k, v1, true, false, e1).1 == Ok::<DBOk, DBError>(DBOk::OK),
        s.set(k, v1, true, false, e1).0.get(k) == Ok::<Option<Seq<char>>, DBError>(Some(v1)),
        s.set(k, v1, true, false, e1).0.set(k, v2, true, already_exists2, e2).1 == Ok::<
            DBOk,
            DBError,
        >(DBOk::Nil),
        s.set(k, v1, true, false, e1).0.set(k, v2, true, already_exists2, e2).0.get(k) == Ok::<
            Option<Seq<char>>,
            DBError,
        >(Some(v1)),
{
}

/// A destructive sample of `count` members from a set of `n` members
/// returns `min(count, n)` of its members and leaves the rest.
pub proof fn lemma_srandmember_sizes(
    s: StoreState,
    k: Seq<char>,
    count: usize,
    after: StoreState,
    r: Result<Option<Set<Seq<char>>>, DBError>,
)
    requires
        s.valid(),
        s.lookup(k) is Some,
        s.lookup(k).unwrap() is SetValue,
        s.srandmember_post(k, count, after, r),
    ensures
        r is Ok,
        r.unwrap() is Some,
        r.unwrap().unwrap().subset_of(s.lookup(k).unwrap()->SetValue_0),
        r.unwrap().unwrap().len() == if count < s.lookup(k).unwrap()->SetValue_0.len() {
            count as nat
        } else {
            s.lookup(k).unwrap()->SetValue_0.len()
        },
        after.slen(k) == Ok::<Option<usize>, DBError>(
            Some(
                (s.lookup(k).unwrap()->SetValue_0.len() - r.unwrap().unwrap().len()) as usize,
            ),
        ),
{
    let m = s.lookup(k).unwrap()->SetValue_0;
    let taken = r.unwrap().unwrap();
    assert(s.entries.contains_key(k));
    assert(m.finite());
    vstd::set_lib::lemma_set_subset_finite(m, taken);
    vstd::set_lib::lemma_set_difference_len(m, taken);
    assert(m.intersect(taken) =~= taken);
}

/// Deleting the same keys twice: the second call finds none of them.
pub proof fn lemma_del_twice(s: StoreState, keys: Seq<Seq<char>>)
    ensures
        s.del(keys).0.del(keys).1 == 0,
        s.del(keys).0.del(keys).0 == s.del(keys).0,
{
    let s1 = s.del(keys).0;
    assert(s1.entries.dom().intersect(keys.to_set()) =~= Set::empty());
    assert(s1.entries.remove_keys(keys.to_set()) =~= s1.entries);
}

/// A write that may create a key or overwrite one.
pub enum Write {
    SetWith(Seq<char>, Seq<char>, bool, bool, Option<u64>),
    Sadd(Seq<char>, Seq<Seq<char>>),
    Hset(Seq<char>, Seq<char>, Seq<char>),
    Hmset(Seq<char>, Seq<(Seq<char>, Seq<char>)>),
}

/// The store after one write.
pub open spec fn apply(s: StoreState, w: Write) -> StoreState {
    match w {
        Write::SetWith(k, v, not_exists, already_exists, expire) => s.set(
            k,
            v,
            not_exists,
            already_exists,
            expire,
        ).0,
        Write::Sadd(k, members) => s.sadd(k, members).0,
        Write::Hset(k, f, v) => s.hset(k, f, v).0,
        Write::Hmset(k, pairs) => s.hmset(k, pairs).0,
    }
}

/// The store after a history of writes, first to last.
pub open spec fn apply_all(s: StoreState, ws: Seq<Write>) -> StoreState
    decreases ws.len(),
{
    if ws.len() == 0 {
        s
    } else {
        apply_all(apply(s, ws[0]), ws.drop_first())
    }
}

/// With a budget of one key and one key held, any write leaves a valid
/// store that still holds one key.
pub proof fn lemma_budget_one_write(s: StoreState, w: Write)
    requires
        s.valid(),
        s.capacity == Some(1usize),
        s.size() == 1,
    ensures
        apply(s, w).valid(),
        apply(s, w).capacity == Some(1usize),
        apply(s, w).size() == 1,
{
    let t = apply(s, w);
    let k = match w {
        Write::SetWith(k, _, _, _, _) => k,
        Write::Sadd(k, _) => k,
        Write::Hset(k, _, _) => k,
        Write::Hmset(k, _) => k,
    };
    if s.entries.contains_key(k) {
        assert(t.entries.dom() =~= s.entries.dom());
        assert forall|x: Seq<char>| #[trigger] t.entries.contains_key(x) implies t.entries[
            x
        ].finite() by {
            if x == k {
                assert(s.entries[k].finite());
                match w {
                    Write::Sadd(_, members) => {
                        vstd::seq_lib::seq_to_set_is_finite(members);
                        match s.entries[k] {
                            ValueView::SetValue(m) => {
                                vstd::set_lib::lemma_set_union_finite_iff(m, members.to_set());
                            },
                            _ => {},
                        }
                    },
                    Write::Hmset(_, pairs) => {
                        lemma_to_map_finite(pairs);
                        match s.entries[k] {
                            ValueView::HashValue(h) => {
                                assert(h.union_prefer_right(crate::assoc::to_map(pairs)).dom()
                                    =~= h.dom() + crate::assoc::to_map(pairs).dom());
                                vstd::set_lib::lemma_set_union_finite_iff(
                                    h.dom(),
                                    crate::assoc::to_map(pairs).dom(),
                                );
                            },
                            _ => {},
                        }
                    },
                    _ => {},
                }
            }
        }
    } else {
        assert(!s.can_add_key());
        assert(t.entries == s.entries);
    }
}

/// With a budget of one key and one key held, the store holds exactly one
/// key after any history of writes: writes that would create a second key
/// are refused and overwrites keep the count.
pub proof fn lemma_budget_one_history(s: StoreState, ws: Seq<Write>)
    requires
        s.valid(),
        s.capacity == Some(1usize),
        s.size() == 1,
    ensures
        apply_all(s, ws).valid(),
        apply_all(s, ws).size() == 1,
    decreases ws.len(),
{
    if ws.len() > 0 {
        lemma_budget_one_write(s, ws[0]);
        lemma_budget_one_history(apply(s, ws[0]), ws.drop_first());
    }
}

/// A store with a budget of one key accepts a first key; after that, any
/// history of writes leaves it holding exactly one key.
pub proof fn lemma_budget_one_from_empty(
    k: Seq<char>,
    v: Seq<char>,
    expire: Option<u64>,
    ws: Seq<Write>,
)
    ensures
        ({
            let s0 = StoreState { entries: Map::empty(), expiry: Map::empty(), capacity: Some(1usize) };
            &&& s0.set(k, v, false, false, expire).1 == Ok::<DBOk, DBError>(DBOk::OK)
            &&& apply_all(s0.set(k, v, false, false, expire).0, ws).size() == 1
        }),
{
    let s0 = StoreState { entries: Map::empty(), expiry: Map::empty(), capacity: Some(1usize) };
    assert(s0.entries.dom() =~= Set::empty());
    let s1 = s0.set(k, v, false, false, expire).0;
    assert(s1.entries.dom() =~= set![k]);
    assert(set![k].len() == 1) by {
        assert(set![k] =~= Set::<Seq<char>>::empty().insert(k));
    }
    lemma_budget_one_history(s1, ws);
}

} // verus!
