//! The mathematical model of the store, and what each operation does to it.
use vstd::prelude::*;

use crate::assoc::to_map;
use crate::error::{DBError, DBOk};

verus! {

/// What a key holds.
pub enum ValueView {
    StringValue(Seq<char>),
    SetValue(Set<Seq<char>>),
    HashValue(Map<Seq<char>, Seq<char>>),
}

/// The whole store: its entries, the expiry ledger and the key budget
/// (`None` for no bound). The ledger only records the expiry time given to a
/// performed write; no operation reads it and no key ever expires.
pub struct StoreState {
    pub entries: Map<Seq<char>, ValueView>,
    pub expiry: Map<Seq<char>, u64>,
    pub capacity: Option<usize>,
}

pub open spec fn strings_view(v: Seq<String>) -> Seq<Seq<char>> {
    v.map_values(|s: String| s@)
}

pub open spec fn pairs_view(v: Seq<(String, String)>) -> Seq<(Seq<char>, Seq<char>)> {
    v.map_values(|p: (String, String)| (p.0@, p.1@))
}

/// A reply carrying an optional string, seen through the strings' views.
pub open spec fn text_reply(r: Result<Option<String>, DBError>) -> Result<
    Option<Seq<char>>,
    DBError,
> {
    match r {
        Ok(Some(s)) => Ok(Some(s@)),
        Ok(None) => Ok(None),
        Err(e) => Err(e),
    }
}

/// A reply carrying an optional list of strings, seen as the set it lists.
pub open spec fn members_reply(r: Result<Option<Vec<String>>, DBError>) -> Result<
    Option<Set<Seq<char>>>,
    DBError,
> {
    match r {
        Ok(Some(v)) => Ok(Some(strings_view(v@).to_set())),
        Ok(None) => Ok(None),
        Err(e) => Err(e),
    }
}

/// A list carried by the reply has no duplicates.
pub open spec fn distinct_reply(r: Result<Option<Vec<String>>, DBError>) -> bool {
    match r {
        Ok(Some(v)) => strings_view(v@).no_duplicates(),
        _ => true,
    }
}

/// A reply carrying one optional string for each requested field.
pub open spec fn texts_reply(r: Result<Vec<Option<String>>, DBError>) -> Result<
    Seq<Option<Seq<char>>>,
    DBError,
> {
    match r {
        Ok(v) => Ok(
            v@.map_values(
                |o: Option<String>|
                    match o {
                        Some(s) => Some(s@),
                        None => None,
                    },
            ),
        ),
        Err(e) => Err(e),
    }
}

/// A reply carrying an optional list of strings, seen as a sequence.
pub open spec fn strings_reply(r: Result<Option<Vec<String>>, DBError>) -> Result<
    Option<Seq<Seq<char>>>,
    DBError,
> {
    match r {
        Ok(Some(v)) => Ok(Some(strings_view(v@))),
        Ok(None) => Ok(None),
        Err(e) => Err(e),
    }
}

/// `vals` lists the values of `h`, one for each field, in some order of the
/// fields.
pub open spec fn lists_values(vals: Seq<Seq<char>>, h: Map<Seq<char>, Seq<char>>) -> bool {
    exists|fields: Seq<Seq<char>>|
        {
            &&& fields.no_duplicates()
            &&& fields.to_set() == h.dom()
            &&& fields.len() == vals.len()
            &&& forall|i: int| 0 <= i < fields.len() ==> vals[i] == h[fields[i]]
        }
}

impl ValueView {
    pub open spec fn finite(self) -> bool {
        match self {
            ValueView::StringValue(_) => true,
            ValueView::SetValue(m) => m.finite(),
            ValueView::HashValue(h) => h.dom().finite(),
        }
    }
}

impl StoreState {
    /// Every store that the library builds satisfies this.
    pub open spec fn valid(self) -> bool {
        &&& self.entries.dom().finite()
        &&& forall|k: Seq<char>| #[trigger] self.entries.contains_key(k) ==> self.entries[k].finite()
        &&& match self.capacity {
            Some(n) => self.entries.len() <= n,
            None => true,
        }
    }

    pub open spec fn lookup(self, key: Seq<char>) -> Option<ValueView> {
        if self.entries.contains_key(key) {
            Some(self.entries[key])
        } else {
            None
        }
    }

    pub open spec fn with_entry(self, key: Seq<char>, v: ValueView) -> StoreState {
        StoreState { entries: self.entries.insert(key, v), expiry: self.expiry, capacity: self.capacity }
    }

    pub proof fn lemma_with_entry_twice(self, key: Seq<char>, a: ValueView, b: ValueView)
        ensures
            self.with_entry(key, a).with_entry(key, b) == self.with_entry(key, b),
    {
        assert(self.with_entry(key, a).with_entry(key, b).entries =~= self.with_entry(
            key,
            b,
        ).entries);
    }

    /// Whether the key budget admits one more key.
    pub open spec fn can_add_key(self) -> bool {
        match self.capacity {
            Some(n) => n > 0 && self.entries.len() < n,
            None => true,
        }
    }

    pub open spec fn size(self) -> nat {
        self.entries.len()
    }

    pub open spec fn contains(self, key: Seq<char>) -> bool {
        self.entries.contains_key(key)
    }

    /// Conditional write of a string; `not_exists` is looked at before
    /// `already_exists`. A performed write records `expire` in the ledger.
    pub open spec fn set(
        self,
        key: Seq<char>,
        value: Seq<char>,
        not_exists: bool,
        already_exists: bool,
        expire: Option<u64>,
    ) -> (StoreState, Result<DBOk, DBError>) {
        let written = self.with_entry(key, ValueView::StringValue(value));
        let (s, r) = match self.lookup(key) {
            Some(ValueView::StringValue(_)) => if not_exists {
                (self, Ok(DBOk::Nil))
            } else {
                (written, Ok(DBOk::OK))
            },
            Some(_) => (self, Err(DBError::WrongValueType)),
            None => if already_exists {
                (self, Ok(DBOk::Nil))
            } else if self.can_add_key() {
                (written, Ok(DBOk::OK))
            } else {
                (self, Err(DBError::OutOfKeysSize))
            },
        };
        match expire {
            Some(e) => if r == Ok::<DBOk, DBError>(DBOk::OK) {
                (StoreState { entries: s.entries, expiry: s.expiry.insert(key, e), capacity: s.capacity }, r)
            } else {
                (s, r)
            },
            None => (s, r),
        }
    }

    pub open spec fn get(self, key: Seq<char>) -> Result<Option<Seq<char>>, DBError> {
        match self.lookup(key) {
            Some(ValueView::StringValue(v)) => Ok(Some(v)),
            Some(_) => Err(DBError::WrongValueType),
            None => Ok(None),
        }
    }

    /// Adds members to a set, creating it when the key is absent; the count
    /// is that of the distinct members that were not there before.
    pub open spec fn sadd(self, key: Seq<char>, members: Seq<Seq<char>>) -> (StoreState, Result<
        usize,
        DBError,
    >) {
        let new = members.to_set();
        match self.lookup(key) {
            Some(ValueView::SetValue(m)) => (
                self.with_entry(key, ValueView::SetValue(m + new)),
                Ok(new.difference(m).len() as usize),
            ),
            Some(_) => (self, Err(DBError::WrongValueType)),
            None => if self.can_add_key() {
                (self.with_entry(key, ValueView::SetValue(new)), Ok(new.len() as usize))
            } else {
                (self, Err(DBError::OutOfKeysSize))
            },
        }
    }

    /// What a destructive sample of at most `count` members may leave and
    /// return; which members are taken is not fixed.
    pub open spec fn srandmember_post(
        self,
        key: Seq<char>,
        count: usize,
        after: StoreState,
        r: Result<Option<Set<Seq<char>>>, DBError>,
    ) -> bool {
        match self.lookup(key) {
            Some(ValueView::SetValue(m)) => match r {
                Ok(Some(taken)) => {
                    &&& taken.subset_of(m)
                    &&& taken.len() == if count < m.len() { count as nat } else { m.len() }
                    &&& after == self.with_entry(key, ValueView::SetValue(m.difference(taken)))
                },
                _ => false,
            },
            Some(_) => r == Err::<Option<Set<Seq<char>>>, DBError>(DBError::WrongValueType)
                && after == self,
            None => r == Ok::<Option<Set<Seq<char>>>, DBError>(None) && after == self,
        }
    }

    /// What removing one member may leave and return.
    pub open spec fn spop_post(
        self,
        key: Seq<char>,
        after: StoreState,
        r: Result<Option<Seq<char>>, DBError>,
    ) -> bool {
        match self.lookup(key) {
            Some(ValueView::SetValue(m)) => if m.len() == 0 {
                r == Ok::<Option<Seq<char>>, DBError>(None) && after == self
            } else {
                match r {
                    Ok(Some(x)) => m.contains(x) && after == self.with_entry(
                        key,
                        ValueView::SetValue(m.remove(x)),
                    ),
                    _ => false,
                }
            },
            Some(_) => r == Err::<Option<Seq<char>>, DBError>(DBError::WrongValueType) && after
                == self,
            None => r == Ok::<Option<Seq<char>>, DBError>(None) && after == self,
        }
    }

    pub open spec fn sismember(self, key: Seq<char>, member: Seq<char>) -> Result<
        Option<bool>,
        DBError,
    > {
        match self.lookup(key) {
            Some(ValueView::SetValue(m)) => Ok(Some(m.contains(member))),
            Some(_) => Err(DBError::WrongValueType),
            None => Ok(None),
        }
    }

    /// Removes members from a set; the count is that of the members that
    /// were there.
    pub open spec fn srem(self, key: Seq<char>, members: Seq<Seq<char>>) -> (StoreState, Result<
        usize,
        DBError,
    >) {
        let gone = members.to_set();
        match self.lookup(key) {
            Some(ValueView::SetValue(m)) => (
                self.with_entry(key, ValueView::SetValue(m.difference(gone))),
                Ok(m.intersect(gone).len() as usize),
            ),
            Some(_) => (self, Err(DBError::WrongValueType)),
            None => (self, Ok(0)),
        }
    }

    pub open spec fn slen(self, key: Seq<char>) -> Result<Option<usize>, DBError> {
        match self.lookup(key) {
            Some(ValueView::SetValue(m)) => Ok(Some(m.len() as usize)),
            Some(_) => Err(DBError::WrongValueType),
            None => Ok(None),
        }
    }

    pub open spec fn smembers(self, key: Seq<char>) -> Result<Option<Set<Seq<char>>>, DBError> {
        match self.lookup(key) {
            Some(ValueView::SetValue(m)) => Ok(Some(m)),
            Some(_) => Err(DBError::WrongValueType),
            None => Ok(None),
        }
    }

    /// Sets one field of a hash, creating the hash when the key is absent;
    /// 1 for a new field, 0 for an overwritten one.
    pub open spec fn hset(self, key: Seq<char>, field: Seq<char>, value: Seq<char>) -> (
        StoreState,
        Result<u32, DBError>,
    ) {
        match self.lookup(key) {
            Some(ValueView::HashValue(h)) => (
                self.with_entry(key, ValueView::HashValue(h.insert(field, value))),
                Ok(if h.contains_key(field) { 0 } else { 1 }),
            ),
            Some(_) => (self, Err(DBError::WrongValueType)),
            None => if self.can_add_key() {
                (
                    self.with_entry(key, ValueView::HashValue(Map::empty().insert(field, value))),
                    Ok(1),
                )
            } else {
                (self, Err(DBError::OutOfKeysSize))
            },
        }
    }

    pub open spec fn hget(self, key: Seq<char>, field: Seq<char>) -> Result<
        Option<Seq<char>>,
        DBError,
    > {
        match self.lookup(key) {
            Some(ValueView::HashValue(h)) => Ok(
                if h.contains_key(field) {
                    Some(h[field])
                } else {
                    None
                },
            ),
            Some(_) => Err(DBError::WrongValueType),
            None => Ok(None),
        }
    }

    /// Sets several fields; a later pair wins over an earlier one with the
    /// same field.
    pub open spec fn hmset(self, key: Seq<char>, pairs: Seq<(Seq<char>, Seq<char>)>) -> (
        StoreState,
        Result<DBOk, DBError>,
    ) {
        match self.lookup(key) {
            Some(ValueView::HashValue(h)) => (
                self.with_entry(key, ValueView::HashValue(h.union_prefer_right(to_map(pairs)))),
                Ok(DBOk::OK),
            ),
            Some(_) => (self, Err(DBError::WrongValueType)),
            None => if self.can_add_key() {
                (self.with_entry(key, ValueView::HashValue(to_map(pairs))), Ok(DBOk::OK))
            } else {
                (self, Err(DBError::OutOfKeysSize))
            },
        }
    }

    pub open spec fn hmget(self, key: Seq<char>, fields: Seq<Seq<char>>) -> Result<
        Seq<Option<Seq<char>>>,
        DBError,
    > {
        match self.lookup(key) {
            Some(ValueView::HashValue(h)) => Ok(
                fields.map_values(
                    |f: Seq<char>|
                        if h.contains_key(f) {
                            Some(h[f])
                        } else {
                            None
                        },
                ),
            ),
            Some(_) => Err(DBError::WrongValueType),
            None => Err(DBError::KeyNotFound),
        }
    }

    pub open spec fn hkeys(self, key: Seq<char>) -> Result<Option<Set<Seq<char>>>, DBError> {
        match self.lookup(key) {
            Some(ValueView::HashValue(h)) => Ok(Some(h.dom())),
            Some(_) => Err(DBError::WrongValueType),
            None => Ok(None),
        }
    }

    /// The values of a hash are listed once for each field.
    pub open spec fn hvalues_post(self, key: Seq<char>, r: Result<Option<Seq<Seq<char>>>, DBError>) -> bool {
        match self.lookup(key) {
            Some(ValueView::HashValue(h)) => match r {
                Ok(Some(vals)) => lists_values(vals, h),
                _ => false,
            },
            Some(_) => r == Err::<Option<Seq<Seq<char>>>, DBError>(DBError::WrongValueType),
            None => r == Ok::<Option<Seq<Seq<char>>>, DBError>(None),
        }
    }

    pub open spec fn hexists(self, key: Seq<char>, field: Seq<char>) -> Result<
        Option<bool>,
        DBError,
    > {
        match self.lookup(key) {
            Some(ValueView::HashValue(h)) => Ok(Some(h.contains_key(field))),
            Some(_) => Err(DBError::WrongValueType),
            None => Ok(None),
        }
    }

    pub open spec fn hlen(self, key: Seq<char>) -> Result<Option<usize>, DBError> {
        match self.lookup(key) {
            Some(ValueView::HashValue(h)) => Ok(Some(h.len() as usize)),
            Some(_) => Err(DBError::WrongValueType),
            None => Ok(None),
        }
    }

    /// Removes one field of a hash: 1 if it was there, 0 if not.
    pub open spec fn hdel(self, key: Seq<char>, field: Seq<char>) -> (StoreState, Result<
        Option<usize>,
        DBError,
    >) {
        match self.lookup(key) {
            Some(ValueView::HashValue(h)) => (
                self.with_entry(key, ValueView::HashValue(h.remove(field))),
                Ok(Some(if h.contains_key(field) { 1 } else { 0 })),
            ),
            Some(_) => (self, Err(DBError::WrongValueType)),
            None => (self, Ok(None)),
        }
    }

    /// Removes the named keys, whatever they hold; the count is that of the
    /// keys that were there.
    pub open spec fn del(self, keys: Seq<Seq<char>>) -> (StoreState, u32) {
        (
            StoreState {
                entries: self.entries.remove_keys(keys.to_set()),
                expiry: self.expiry,
                capacity: self.capacity,
            },
            self.entries.dom().intersect(keys.to_set()).len() as u32,
        )
    }
}

} // verus!
