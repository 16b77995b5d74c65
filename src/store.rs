//! The typed value store.
use vstd::prelude::*;

use crate::assoc::{
    field_names, field_values, get_field, set_fields, has_key, lemma_to_map_contains, lemma_to_map_index, lemma_to_map_len,
    lemma_to_map_push, lemma_to_map_remove, lemma_to_map_update, position, remove_field,
    set_field, to_map, unique_keys,
};
use crate::error::{DBError, DBOk, DBResult};
use crate::members::{add_members, find_member, remove_members, take_members};
use crate::members::lemma_to_set_remove;
use crate::model::{
    distinct_reply, lists_values, members_reply, pairs_view, strings_reply, strings_view,
    text_reply, texts_reply, StoreState, ValueView,
};

verus! {

/// What a key holds: a string, a set of strings kept as a vector without
/// duplicates, or a hash kept as a vector of pairs with distinct fields.
enum Value {
    StringValue(String),
    SetValue(Vec<String>),
    HashValue(Vec<(String, String)>),
}

spec fn value_view(v: Value) -> ValueView {
    match v {
        Value::StringValue(s) => ValueView::StringValue(s@),
        Value::SetValue(m) => ValueView::SetValue(strings_view(m@).to_set()),
        Value::HashValue(h) => ValueView::HashValue(to_map(pairs_view(h@))),
    }
}

spec fn value_wf(v: Value) -> bool {
    match v {
        Value::StringValue(_) => true,
        Value::SetValue(m) => strings_view(m@).no_duplicates(),
        Value::HashValue(h) => unique_keys(pairs_view(h@)),
    }
}

spec fn entries_view(db: Seq<(String, Value)>) -> Seq<(Seq<char>, ValueView)> {
    db.map_values(|e: (String, Value)| (e.0@, value_view(e.1)))
}

spec fn ledger_view(ttl: Seq<(String, u64)>) -> Seq<(Seq<char>, u64)> {
    ttl.map_values(|e: (String, u64)| (e.0@, e.1))
}

/// A key-value store whose keys hold strings, sets or hashes, with an
/// optional bound on the number of keys and a ledger of expiry times.
///
/// The bound only refuses new keys; nothing is evicted to make room. The
/// ledger is recorded and never enforced: keys do not expire.
pub struct KVDB {
    db: Vec<(String, Value)>,
    ttl: Vec<(String, u64)>,
    max_keys: Option<usize>,
}

impl View for KVDB {
    type V = StoreState;

    closed spec fn view(&self) -> StoreState {
        StoreState {
            entries: to_map(entries_view(self.db@)),
            expiry: to_map(ledger_view(self.ttl@)),
            capacity: self.max_keys,
        }
    }
}

impl KVDB {
    /// The store's invariant: keys are distinct, sets have no duplicate
    /// members, hashes no duplicate fields, and the key budget is kept.
    pub closed spec fn wf(&self) -> bool {
        &&& unique_keys(entries_view(self.db@))
        &&& unique_keys(ledger_view(self.ttl@))
        &&& forall|i: int| 0 <= i < self.db@.len() ==> value_wf(#[trigger] self.db@[i].1)
        &&& match self.max_keys {
            Some(n) => self.db@.len() <= n,
            None => true,
        }
    }

    /// A well-formed store has a valid model.
    pub proof fn lemma_valid(&self)
        requires
            self.wf(),
        ensures
            self@.valid(),
    {
        let s = entries_view(self.db@);
        lemma_to_map_len(s);
        assert forall|k: Seq<char>| #[trigger] self@.entries.contains_key(k) implies self@.entries[
            k
        ].finite() by {
            lemma_to_map_contains(s, k);
            let i = choose|i: int| 0 <= i < s.len() && s[i].0 == k;
            lemma_to_map_index(s, i);
            assert(value_wf(self.db@[i].1));
            match self.db@[i].1 {
                Value::SetValue(m) => {
                    vstd::seq_lib::seq_to_set_is_finite(strings_view(m@));
                },
                Value::HashValue(h) => {
                    lemma_to_map_len(pairs_view(h@));
                },
                Value::StringValue(_) => {},
            }
        }
    }

    proof fn lemma_len(&self)
        requires
            self.wf(),
        ensures
            self@.entries.dom().finite(),
            self@.entries.len() == self.db@.len(),
    {
        lemma_to_map_len(entries_view(self.db@));
    }

    /// Where `key` stands in the entries, if anywhere.
    fn locate(&self, key: &String) -> (r: Option<usize>)
        requires
            self.wf(),
        ensures
            match r {
                Some(i) => {
                    &&& i < self.db@.len()
                    &&& self.db@[i as int].0@ == key@
                    &&& self@.lookup(key@) == Some(value_view(self.db@[i as int].1))
                },
                None => self@.lookup(key@) == None::<ValueView>,
            },
    {
        let r = position(&self.db, key);
        proof {
            let s = entries_view(self.db@);
            lemma_to_map_contains(s, key@);
            match r {
                Some(i) => {
                    lemma_to_map_index(s, i as int);
                },
                None => {
                    if has_key(s, key@) {
                        let j = choose|j: int| 0 <= j < s.len() && s[j].0 == key@;
                        assert(self.db@[j].0@ == key@);
                    }
                },
            }
        }
        r
    }

    /// Adds a key that the store does not hold.
    fn insert_new(&mut self, key: &String, v: Value)
        requires
            old(self).wf(),
            old(self)@.lookup(key@) == None::<ValueView>,
            old(self)@.can_add_key(),
            value_wf(v),
        ensures
            final(self).wf(),
            final(self)@ == old(self)@.with_entry(key@, value_view(v)),
    {
        let ghost vv = value_view(v);
        let ghost s = entries_view(self.db@);
        proof {
            self.lemma_len();
            lemma_to_map_contains(s, key@);
        }
        self.db.push((key.clone(), v));
        proof {
            assert(entries_view(self.db@) =~= s.push((key@, vv)));
            lemma_to_map_push(s, key@, vv);
            assert forall|i: int| 0 <= i < self.db@.len() implies value_wf(
                #[trigger] self.db@[i].1,
            ) by {
                if i < old(self).db@.len() {
                    assert(self.db@[i] == old(self).db@[i]);
                }
            }
        }
    }

    /// Puts `v` in the entry at `i` and hands back what it held.
    fn swap_value(&mut self, i: usize, v: Value) -> (prev: Value)
        requires
            old(self).wf(),
            i < old(self).db@.len(),
            value_wf(v),
        ensures
            prev == old(self).db@[i as int].1,
            final(self).wf(),
            final(self).db@.len() == old(self).db@.len(),
            final(self).db@[i as int].0@ == old(self).db@[i as int].0@,
            final(self)@ == old(self)@.with_entry(old(self).db@[i as int].0@, value_view(v)),
    {
        let ghost vv = value_view(v);
        let ghost s = entries_view(self.db@);
        let k = self.db[i].0.clone();
        let mut entry = (k, v);
        self.db.set_and_swap(i, &mut entry);
        proof {
            assert(entries_view(self.db@) =~= s.update(i as int, (s[i as int].0, vv)));
            lemma_to_map_update(s, i as int, vv);
            assert forall|j: int| 0 <= j < self.db@.len() implies value_wf(
                #[trigger] self.db@[j].1,
            ) by {
                if j != i {
                    assert(self.db@[j] == old(self).db@[j]);
                }
            }
        }
        entry.1
    }

    /// Records `e` as the expiry time of `key`.
    fn record_expiry(&mut self, key: &String, e: u64)
        requires
            old(self).wf(),
        ensures
            final(self).wf(),
            final(self)@ == (StoreState {
                entries: old(self)@.entries,
                expiry: old(self)@.expiry.insert(key@, e),
                capacity: old(self)@.capacity,
            }),
    {
        let ghost s = ledger_view(self.ttl@);
        proof {
            lemma_to_map_contains(s, key@);
        }
        match position(&self.ttl, key) {
            Some(i) => {
                self.ttl.set(i, (key.clone(), e));
                proof {
                    assert(ledger_view(self.ttl@) =~= s.update(i as int, (s[i as int].0, e)));
                    lemma_to_map_update(s, i as int, e);
                }
            },
            None => {
                self.ttl.push((key.clone(), e));
                proof {
                    if has_key(s, key@) {
                        let j = choose|j: int| 0 <= j < s.len() && s[j].0 == key@;
                        assert(self.ttl@[j].0@ == key@);
                    }
                    assert(ledger_view(self.ttl@) =~= s.push((key@, e)));
                    lemma_to_map_push(s, key@, e);
                }
            },
        }
    }

    /// A store without a key budget.
    pub fn default() -> (r: Self)
        ensures
            r.wf(),
            r@ == (StoreState { entries: Map::empty(), expiry: Map::empty(), capacity: None }),
    {
        KVDB::new(None)
    }

    /// An empty store that admits at most `key_size` keys (`None`: no bound).
    pub fn new(key_size: Option<usize>) -> (r: Self)
        ensures
            r.wf(),
            r@ == (StoreState { entries: Map::empty(), expiry: Map::empty(), capacity: key_size }),
    {
        let r = KVDB { db: Vec::new(), ttl: Vec::new(), max_keys: key_size };
        proof {
            assert(entries_view(r.db@) =~= Seq::empty());
            assert(ledger_view(r.ttl@) =~= Seq::empty());
        }
        r
    }

    /// Whether the key budget admits one more key.
    pub fn can_add_key(&self) -> (r: bool)
        requires
            self.wf(),
        ensures
            r == self@.can_add_key(),
    {
        proof {
            self.lemma_len();
        }
        match self.max_keys {
            Some(size) => size > 0 && self.db.len() < size,
            None => true,
        }
    }

    /// Writes the string `value` at `key`. With `not_exists` an existing
    /// string is left alone (`Nil`); with `already_exists` an absent key is
    /// left absent (`Nil`). A key of another kind gives `WrongValueType`, a
    /// new key beyond the budget `OutOfKeysSize`. A performed write records
    /// `expire`, when given, in the expiry ledger.
    pub fn set(
        &mut self,
        key: &String,
        value: String,
        not_exists: bool,
        already_exists: bool,
        expire: Option<u64>,
    ) -> (r: DBResult<DBOk>)
        requires
            old(self).wf(),
        ensures
            final(self).wf(),
            (final(self)@, r) == old(self)@.set(key@, value@, not_exists, already_exists, expire),
    {
        let r: DBResult<DBOk> = match self.locate(key) {
            Some(i) => {
                let is_string = match &self.db[i].1 {
                    Value::StringValue(_) => true,
                    _ => false,
                };
                if !is_string {
                    Err(DBError::WrongValueType)
                } else if not_exists {
                    Ok(DBOk::Nil)
                } else {
                    let _ = self.swap_value(i, Value::StringValue(value));
                    Ok(DBOk::OK)
                }
            },
            None => {
                if already_exists {
                    Ok(DBOk::Nil)
                } else if self.can_add_key() {
                    self.insert_new(key, Value::StringValue(value));
                    Ok(DBOk::OK)
                } else {
                    Err(DBError::OutOfKeysSize)
                }
            },
        };
        match r {
            Ok(DBOk::OK) => match expire {
                Some(e) => self.record_expiry(key, e),
                None => {},
            },
            _ => {},
        }
        r
    }

    /// Unconditional write of a string, with no expiry.
    pub fn sets(&mut self, key: &String, value: String) -> (r: DBResult<DBOk>)
        requires
            old(self).wf(),
        ensures
            final(self).wf(),
            (final(self)@, r) == old(self)@.set(key@, value@, false, false, None),
    {
        self.set(key, value, false, false, None)
    }

    /// The string at `key`; `None` when the key is absent.
    pub fn get(&self, key: &String) -> (r: DBResult<Option<String>>)
        requires
            self.wf(),
        ensures
            text_reply(r) == self@.get(key@),
    {
        match self.locate(key) {
            Some(i) => match &self.db[i].1 {
                Value::StringValue(v) => Ok(Some(v.clone())),
                _ => Err(DBError::WrongValueType),
            },
            None => Ok(None),
        }
    }

    /// Whether the store holds `key`, whatever its kind.
    pub fn contains_key(&self, key: &String) -> (r: bool)
        requires
            self.wf(),
        ensures
            r == self@.contains(key@),
    {
        self.locate(key).is_some()
    }

    /// The number of keys.
    pub fn size(&self) -> (r: usize)
        requires
            self.wf(),
        ensures
            r == self@.size(),
    {
        proof {
            self.lemma_len();
        }
        self.db.len()
    }
    /// Adds `members` to the set at `key`, creating the set when the key is
    /// absent; returns how many distinct members were not there before.
    pub fn sadd(&mut self, key: &String, members: Vec<String>) -> (r: DBResult<usize>)
        requires
            old(self).wf(),
        ensures
            final(self).wf(),
            (final(self)@, r) == old(self)@.sadd(key@, strings_view(members@)),
    {
        match self.locate(key) {
            Some(i) => {
                let is_set = match &self.db[i].1 {
                    Value::SetValue(_) => true,
                    _ => false,
                };
                if !is_set {
                    return Err(DBError::WrongValueType);
                }
                let prev = self.swap_value(i, Value::StringValue(String::new()));
                let ghost mid = self@;
                let mut m = match prev {
                    Value::SetValue(m) => m,
                    _ => Vec::new(),
                };
                let count = add_members(&mut m, &members);
                let ghost vv = value_view(Value::SetValue(m));
                let _ = self.swap_value(i, Value::SetValue(m));
                proof {
                    old(self)@.lemma_with_entry_twice(
                        key@,
                        ValueView::StringValue(Seq::empty()),
                        vv,
                    );
                }
                Ok(count)
            },
            None => {
                if !self.can_add_key() {
                    return Err(DBError::OutOfKeysSize);
                }
                let mut m: Vec<String> = Vec::new();
                proof {
                    assert(strings_view(m@) =~= Seq::empty());
                    assert(strings_view(m@).to_set() =~= Set::empty());
                }
                let count = add_members(&mut m, &members);
                proof {
                    let new = strings_view(members@).to_set();
                    assert(Set::empty() + new =~= new);
                    assert(new.difference(Set::empty()) =~= new);
                }
                self.insert_new(key, Value::SetValue(m));
                Ok(count)
            },
        }
    }

    /// Removes at most `count` members from the set at `key` and returns
    /// them: all of them when the set has fewer. This sampling is
    /// destructive: the returned members leave the set. `None` when the key
    /// is absent.
    pub fn srandmember(&mut self, key: &String, count: usize) -> (r: DBResult<Option<Vec<String>>>)
        requires
            old(self).wf(),
        ensures
            final(self).wf(),
            distinct_reply(r),
            old(self)@.srandmember_post(key@, count, final(self)@, members_reply(r)),
    {
        match self.locate(key) {
            Some(i) => {
                let is_set = match &self.db[i].1 {
                    Value::SetValue(_) => true,
                    _ => false,
                };
                if !is_set {
                    return Err(DBError::WrongValueType);
                }
                let prev = self.swap_value(i, Value::StringValue(String::new()));
                let mut m = match prev {
                    Value::SetValue(m) => m,
                    _ => Vec::new(),
                };
                proof {
                    strings_view(m@).unique_seq_to_set();
                }
                let taken = take_members(&mut m, count);
                let ghost vv = value_view(Value::SetValue(m));
                let _ = self.swap_value(i, Value::SetValue(m));
                proof {
                    old(self)@.lemma_with_entry_twice(
                        key@,
                        ValueView::StringValue(Seq::empty()),
                        vv,
                    );
                }
                Ok(Some(taken))
            },
            None => Ok(None),
        }
    }

    /// Removes one member of the set at `key` and returns it; `None` when
    /// the set is empty or the key absent.
    pub fn spop(&mut self, key: &String) -> (r: DBResult<Option<String>>)
        requires
            old(self).wf(),
        ensures
            final(self).wf(),
            old(self)@.spop_post(key@, final(self)@, text_reply(r)),
    {
        match self.locate(key) {
            Some(i) => {
                let n: Option<usize> = match &self.db[i].1 {
                    Value::SetValue(m) => Some(m.len()),
                    _ => None,
                };
                proof {
                    match self.db@[i as int].1 {
                        Value::SetValue(m) => {
                            strings_view(m@).unique_seq_to_set();
                        },
                        _ => {},
                    }
                }
                match n {
                    None => Err(DBError::WrongValueType),
                    Some(0) => Ok(None),
                    Some(_) => {
                        let prev = self.swap_value(i, Value::StringValue(String::new()));
                        let mut m = match prev {
                            Value::SetValue(m) => m,
                            _ => Vec::new(),
                        };
                        let ghost before = strings_view(m@);
                        let x = m.pop().unwrap();
                        proof {
                            assert(before.remove(before.len() - 1) =~= strings_view(m@));
                            lemma_to_set_remove(before, before.len() - 1);
                            assert(before.contains(x@)) by {
                                assert(before[before.len() - 1] == x@);
                            }
                        }
                        let ghost vv = value_view(Value::SetValue(m));
                        let _ = self.swap_value(i, Value::SetValue(m));
                        proof {
                            old(self)@.lemma_with_entry_twice(
                                key@,
                                ValueView::StringValue(Seq::empty()),
                                vv,
                            );
                        }
                        Ok(Some(x))
                    },
                }
            },
            None => Ok(None),
        }
    }

    /// Whether `member` belongs to the set at `key`; `None` when the key is
    /// absent.
    pub fn sismember(&self, key: &String, member: &String) -> (r: DBResult<Option<bool>>)
        requires
            self.wf(),
        ensures
            r == self@.sismember(key@, member@),
    {
        match self.locate(key) {
            Some(i) => match &self.db[i].1 {
                Value::SetValue(m) => {
                    let found = find_member(m, member);
                    proof {
                        match found {
                            Some(j) => {
                                assert(strings_view(m@)[j as int] == member@);
                            },
                            None => {},
                        }
                    }
                    Ok(Some(found.is_some()))
                },
                _ => Err(DBError::WrongValueType),
            },
            None => Ok(None),
        }
    }

    /// Removes `members` from the set at `key`; returns how many of them
    /// were members. An absent key gives 0.
    pub fn srem(&mut self, key: &String, members: Vec<String>) -> (r: DBResult<usize>)
        requires
            old(self).wf(),
        ensures
            final(self).wf(),
            (final(self)@, r) == old(self)@.srem(key@, strings_view(members@)),
    {
        match self.locate(key) {
            Some(i) => {
                let is_set = match &self.db[i].1 {
                    Value::SetValue(_) => true,
                    _ => false,
                };
                if !is_set {
                    return Err(DBError::WrongValueType);
                }
                let prev = self.swap_value(i, Value::StringValue(String::new()));
                let mut m = match prev {
                    Value::SetValue(m) => m,
                    _ => Vec::new(),
                };
                let count = remove_members(&mut m, &members);
                let ghost vv = value_view(Value::SetValue(m));
                let _ = self.swap_value(i, Value::SetValue(m));
                proof {
                    old(self)@.lemma_with_entry_twice(
                        key@,
                        ValueView::StringValue(Seq::empty()),
                        vv,
                    );
                }
                Ok(count)
            },
            None => Ok(0),
        }
    }

    /// The number of members of the set at `key`; `None` when the key is
    /// absent.
    pub fn slen(&self, key: &String) -> (r: DBResult<Option<usize>>)
        requires
            self.wf(),
        ensures
            r == self@.slen(key@),
    {
        match self.locate(key) {
            Some(i) => match &self.db[i].1 {
                Value::SetValue(m) => {
                    proof {
                        strings_view(m@).unique_seq_to_set();
                    }
                    Ok(Some(m.len()))
                },
                _ => Err(DBError::WrongValueType),
            },
            None => Ok(None),
        }
    }

    /// The members of the set at `key`, each once; `None` when the key is
    /// absent.
    pub fn smembers(&self, key: &String) -> (r: DBResult<Option<Vec<String>>>)
        requires
            self.wf(),
        ensures
            distinct_reply(r),
            members_reply(r) == self@.smembers(key@),
    {
        match self.locate(key) {
            Some(i) => match &self.db[i].1 {
                Value::SetValue(m) => Ok(Some(copy_strings(m))),
                _ => Err(DBError::WrongValueType),
            },
            None => Ok(None),
        }
    }

    /// Sets `field` of the hash at `key` to `value`, creating the hash when
    /// the key is absent; 1 when the field is new, 0 when it was overwritten.
    pub fn hset(&mut self, key: &String, field: String, value: String) -> (r: DBResult<u32>)
        requires
            old(self).wf(),
        ensures
            final(self).wf(),
            (final(self)@, r) == old(self)@.hset(key@, field@, value@),
    {
        match self.locate(key) {
            Some(i) => {
                let is_hash = match &self.db[i].1 {
                    Value::HashValue(_) => true,
                    _ => false,
                };
                if !is_hash {
                    return Err(DBError::WrongValueType);
                }
                let prev = self.swap_value(i, Value::StringValue(String::new()));
                let mut h = match prev {
                    Value::HashValue(h) => h,
                    _ => Vec::new(),
                };
                let existed = set_field(&mut h, field, value);
                let ghost vv = value_view(Value::HashValue(h));
                let _ = self.swap_value(i, Value::HashValue(h));
                proof {
                    old(self)@.lemma_with_entry_twice(
                        key@,
                        ValueView::StringValue(Seq::empty()),
                        vv,
                    );
                }
                if existed {
                    Ok(0)
                } else {
                    Ok(1)
                }
            },
            None => {
                if !self.can_add_key() {
                    return Err(DBError::OutOfKeysSize);
                }
                let mut h: Vec<(String, String)> = Vec::new();
                proof {
                    assert(pairs_view(h@) =~= Seq::empty());
                }
                let _ = set_field(&mut h, field, value);
                self.insert_new(key, Value::HashValue(h));
                Ok(1)
            },
        }
    }

    /// The value of `field` in the hash at `key`; `None` when the field or
    /// the key is absent.
    pub fn hget(&self, key: &String, field: &String) -> (r: DBResult<Option<String>>)
        requires
            self.wf(),
        ensures
            text_reply(r) == self@.hget(key@, field@),
    {
        match self.locate(key) {
            Some(i) => match &self.db[i].1 {
                Value::HashValue(h) => Ok(get_field(h, field)),
                _ => Err(DBError::WrongValueType),
            },
            None => Ok(None),
        }
    }

    /// Sets several fields of the hash at `key`, creating the hash when the
    /// key is absent; a later pair wins over an earlier one with the same
    /// field.
    pub fn hmset(&mut self, key: &String, pairs: Vec<(String, String)>) -> (r: DBResult<DBOk>)
        requires
            old(self).wf(),
        ensures
            final(self).wf(),
            (final(self)@, r) == old(self)@.hmset(key@, pairs_view(pairs@)),
    {
        match self.locate(key) {
            Some(i) => {
                let is_hash = match &self.db[i].1 {
                    Value::HashValue(_) => true,
                    _ => false,
                };
                if !is_hash {
                    return Err(DBError::WrongValueType);
                }
                let prev = self.swap_value(i, Value::StringValue(String::new()));
                let mut h = match prev {
                    Value::HashValue(h) => h,
                    _ => Vec::new(),
                };
                set_fields(&mut h, &pairs);
                let ghost vv = value_view(Value::HashValue(h));
                let _ = self.swap_value(i, Value::HashValue(h));
                proof {
                    old(self)@.lemma_with_entry_twice(
                        key@,
                        ValueView::StringValue(Seq::empty()),
                        vv,
                    );
                }
                Ok(DBOk::OK)
            },
            None => {
                if !self.can_add_key() {
                    return Err(DBError::OutOfKeysSize);
                }
                let mut h: Vec<(String, String)> = Vec::new();
                proof {
                    assert(pairs_view(h@) =~= Seq::empty());
                    assert(Map::<Seq<char>, Seq<char>>::empty().union_prefer_right(
                        to_map(pairs_view(pairs@)),
                    ) =~= to_map(pairs_view(pairs@)));
                }
                set_fields(&mut h, &pairs);
                self.insert_new(key, Value::HashValue(h));
                Ok(DBOk::OK)
            },
        }
    }

    /// The values of `fields` in the hash at `key`, one for each requested
    /// field; `KeyNotFound` when the key is absent.
    pub fn hmget(&self, key: &String, fields: &Vec<String>) -> (r: DBResult<Vec<Option<String>>>)
        requires
            self.wf(),
        ensures
            texts_reply(r) == self@.hmget(key@, strings_view(fields@)),
    {
        match self.locate(key) {
            Some(i) => match &self.db[i].1 {
                Value::HashValue(h) => {
                    let ghost m = to_map(pairs_view(h@));
                    let mut values: Vec<Option<String>> = Vec::new();
                    let mut j: usize = 0;
                    while j < fields.len()
                        invariant
                            j <= fields@.len(),
                            values@.len() == j,
                            unique_keys(pairs_view(h@)),
                            m == to_map(pairs_view(h@)),
                            forall|a: int|
                                0 <= a < j ==> match #[trigger] values@[a] {
                                    Some(v) => m.contains_key(fields@[a]@) && v@ == m[fields@[a]@],
                                    None => !m.contains_key(fields@[a]@),
                                },
                        decreases fields@.len() - j,
                    {
                        values.push(get_field(h, &fields[j]));
                        j = j + 1;
                    }
                    proof {
                        let want = strings_view(fields@).map_values(
                            |f: Seq<char>|
                                if m.contains_key(f) {
                                    Some(m[f])
                                } else {
                                    None
                                },
                        );
                        let got = values@.map_values(
                            |o: Option<String>|
                                match o {
                                    Some(s) => Some(s@),
                                    None => None,
                                },
                        );
                        assert forall|a: int| 0 <= a < got.len() implies got[a] == want[a] by {
                            assert(strings_view(fields@)[a] == fields@[a]@);
                            match values@[a] {
                                Some(v) => {},
                                None => {},
                            }
                        }
                        assert(got =~= want);
                    }
                    Ok(values)
                },
                _ => Err(DBError::WrongValueType),
            },
            None => Err(DBError::KeyNotFound),
        }
    }

    /// The fields of the hash at `key`, each once; `None` when the key is
    /// absent.
    pub fn hkeys(&self, key: &String) -> (r: DBResult<Option<Vec<String>>>)
        requires
            self.wf(),
        ensures
            distinct_reply(r),
            members_reply(r) == self@.hkeys(key@),
    {
        match self.locate(key) {
            Some(i) => match &self.db[i].1 {
                Value::HashValue(h) => Ok(Some(field_names(h))),
                _ => Err(DBError::WrongValueType),
            },
            None => Ok(None),
        }
    }

    /// The values of the hash at `key`, one for each field; `None` when the
    /// key is absent.
    pub fn hvalues(&self, key: &String) -> (r: DBResult<Option<Vec<String>>>)
        requires
            self.wf(),
        ensures
            self@.hvalues_post(key@, strings_reply(r)),
    {
        match self.locate(key) {
            Some(i) => match &self.db[i].1 {
                Value::HashValue(h) => {
                    let names = field_names(h);
                    let values = field_values(h);
                    proof {
                        let s = pairs_view(h@);
                        let fields = strings_view(names@);
                        let vals = strings_view(values@);
                        assert forall|a: int| 0 <= a < fields.len() implies vals[a]
                            == to_map(s)[fields[a]] by {
                            lemma_to_map_index(s, a);
                            assert(fields[a] == s[a].0);
                            assert(vals[a] == s[a].1);
                        }
                        assert(lists_values(vals, to_map(s)));
                    }
                    Ok(Some(values))
                },
                _ => Err(DBError::WrongValueType),
            },
            None => Ok(None),
        }
    }

    /// Whether the hash at `key` has `field`; `None` when the key is absent.
    pub fn hexists(&self, key: &String, field: &String) -> (r: DBResult<Option<bool>>)
        requires
            self.wf(),
        ensures
            r == self@.hexists(key@, field@),
    {
        match self.locate(key) {
            Some(i) => match &self.db[i].1 {
                Value::HashValue(h) => {
                    let found = position(h, field);
                    proof {
                        let s = pairs_view(h@);
                        lemma_to_map_contains(s, field@);
                        match found {
                            Some(j) => {
                                assert(s[j as int].0 == field@);
                            },
                            None => {
                                if has_key(s, field@) {
                                    let j = choose|j: int| 0 <= j < s.len() && s[j].0 == field@;
                                    assert(h@[j].0@ == field@);
                                }
                            },
                        }
                    }
                    Ok(Some(found.is_some()))
                },
                _ => Err(DBError::WrongValueType),
            },
            None => Ok(None),
        }
    }

    /// The number of fields of the hash at `key`; `None` when the key is
    /// absent.
    pub fn hlen(&self, key: &String) -> (r: DBResult<Option<usize>>)
        requires
            self.wf(),
        ensures
            r == self@.hlen(key@),
    {
        match self.locate(key) {
            Some(i) => match &self.db[i].1 {
                Value::HashValue(h) => {
                    proof {
                        lemma_to_map_len(pairs_view(h@));
                    }
                    Ok(Some(h.len()))
                },
                _ => Err(DBError::WrongValueType),
            },
            None => Ok(None),
        }
    }

    /// Removes `field` from the hash at `key`: 1 when it was there, 0 when
    /// not; `None` when the key is absent.
    pub fn hdel(&mut self, key: &String, field: &String) -> (r: DBResult<Option<usize>>)
        requires
            old(self).wf(),
        ensures
            final(self).wf(),
            (final(self)@, r) == old(self)@.hdel(key@, field@),
    {
        match self.locate(key) {
            Some(i) => {
                let is_hash = match &self.db[i].1 {
                    Value::HashValue(_) => true,
                    _ => false,
                };
                if !is_hash {
                    return Err(DBError::WrongValueType);
                }
                let prev = self.swap_value(i, Value::StringValue(String::new()));
                let mut h = match prev {
                    Value::HashValue(h) => h,
                    _ => Vec::new(),
                };
                let existed = remove_field(&mut h, field);
                let ghost vv = value_view(Value::HashValue(h));
                let _ = self.swap_value(i, Value::HashValue(h));
                proof {
                    old(self)@.lemma_with_entry_twice(
                        key@,
                        ValueView::StringValue(Seq::empty()),
                        vv,
                    );
                }
                if existed {
                    Ok(Some(1))
                } else {
                    Ok(Some(0))
                }
            },
            None => Ok(None),
        }
    }

    /// Removes the entry at `i`.
    fn remove_at(&mut self, i: usize)
        requires
            old(self).wf(),
            i < old(self).db@.len(),
        ensures
            final(self).wf(),
            final(self).db@.len() == old(self).db@.len() - 1,
            final(self)@ == (StoreState {
                entries: old(self)@.entries.remove(old(self).db@[i as int].0@),
                expiry: old(self)@.expiry,
                capacity: old(self)@.capacity,
            }),
    {
        let ghost s = entries_view(self.db@);
        let _ = self.db.remove(i);
        proof {
            assert(entries_view(self.db@) =~= s.remove(i as int));
            lemma_to_map_remove(s, i as int);
            assert forall|j: int| 0 <= j < self.db@.len() implies value_wf(
                #[trigger] self.db@[j].1,
            ) by {
                if j < i {
                    assert(self.db@[j] == old(self).db@[j]);
                } else {
                    assert(self.db@[j] == old(self).db@[j + 1]);
                }
            }
        }
    }

    /// Removes each of `keys`, whatever it holds; returns how many were
    /// there.
    pub fn del(&mut self, keys: Vec<String>) -> (r: u32)
        requires
            old(self).wf(),
            keys@.len() <= u32::MAX,
        ensures
            final(self).wf(),
            (final(self)@, r) == old(self)@.del(strings_view(keys@)),
    {
        let ghost start = self@;
        let ghost ks = strings_view(keys@);
        proof {
            self.lemma_len();
        }
        let mut counter: u32 = 0;
        let mut j: usize = 0;
        proof {
            assert(start.entries.remove_keys(ks.take(0).to_set()) =~= start.entries);
        }
        while j < keys.len()
            invariant
                j <= keys@.len(),
                keys@.len() <= u32::MAX,
                ks == strings_view(keys@),
                self.wf(),
                start.entries.dom().finite(),
                self@ == (StoreState {
                    entries: start.entries.remove_keys(ks.take(j as int).to_set()),
                    expiry: start.expiry,
                    capacity: start.capacity,
                }),
                counter as nat + self.db@.len() == start.entries.len(),
                counter <= j,
            decreases keys@.len() - j,
        {
            proof {
                self.lemma_len();
                assert(ks.take(j + 1) =~= ks.take(j as int).push(ks[j as int]));
                ks.take(j as int).lemma_push_to_set_commute(ks[j as int]);
            }
            let ghost before = self@.entries;
            match self.locate(&keys[j]) {
                Some(i) => {
                    self.remove_at(i);
                    counter = counter + 1;
                },
                None => {},
            }
            proof {
                assert(self@.entries =~= start.entries.remove_keys(ks.take(j + 1).to_set()));
            }
            j = j + 1;
        }
        proof {
            assert(ks.take(keys@.len() as int) =~= ks);
            self.lemma_len();
            let dom = start.entries.dom();
            assert(self@.entries.dom() =~= dom.difference(ks.to_set()));
            vstd::set_lib::lemma_set_difference_len(dom, ks.to_set());
        }
        counter
    }
}

/// A copy of `v`.
fn copy_strings(v: &Vec<String>) -> (r: Vec<String>)
    ensures
        strings_view(r@) == strings_view(v@),
{
    let mut r: Vec<String> = Vec::new();
    let mut i: usize = 0;
    while i < v.len()
        invariant
            i <= v@.len(),
            r@.len() == i,
            forall|j: int| 0 <= j < i ==> (#[trigger] r@[j])@ == v@[j]@,
        decreases v@.len() - i,
    {
        r.push(v[i].clone());
        i = i + 1;
    }
    assert(strings_view(r@) =~= strings_view(v@));
    r
}

} // verus!
