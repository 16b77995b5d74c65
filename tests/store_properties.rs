use dbcore::{DBError, DBOk, KVDB};
use std::collections::HashSet;

fn s(x: &str) -> String {
    String::from(x)
}

fn strings(xs: &[&str]) -> Vec<String> {
    xs.iter().map(|x| String::from(*x)).collect()
}

fn set_of(xs: &[&str]) -> HashSet<String> {
    xs.iter().map(|x| String::from(*x)).collect()
}

#[test]
fn absent_key_reads_absent() {
    let db = KVDB::new(None);
    let k = s("missing");
    assert_eq!(Ok(None), db.get(&k));
    assert_eq!(Ok(None), db.slen(&k));
    assert_eq!(Ok(None), db.hlen(&k));
    assert!(!db.contains_key(&k));
    assert_eq!(Ok(None), db.smembers(&k));
    assert_eq!(Ok(None), db.hkeys(&k));
    assert_eq!(Ok(None), db.hvalues(&k));
    assert_eq!(Ok(None), db.hget(&k, &s("f")));
    assert_eq!(Ok(None), db.hexists(&k, &s("f")));
    assert_eq!(Ok(None), db.sismember(&k, &s("m")));
}

#[test]
fn sadd_twice_inserts_once() {
    let mut db = KVDB::new(None);
    let k = s("k");
    assert_eq!(Ok(1), db.sadd(&k, strings(&["m"])));
    let before = db.smembers(&k).unwrap().unwrap();
    assert_eq!(Ok(0), db.sadd(&k, strings(&["m"])));
    assert_eq!(Ok(Some(before)), db.smembers(&k));
    assert_eq!(Ok(Some(1)), db.slen(&k));
}

#[test]
fn sadd_counts_distinct_new_members() {
    let mut db = KVDB::new(None);
    let k = s("k");
    assert_eq!(Ok(2), db.sadd(&k, strings(&["a", "a", "b"])));
    assert_eq!(Ok(Some(2)), db.slen(&k));
    assert_eq!(Ok(1), db.sadd(&k, strings(&["b", "c", "c"])));
    let members: HashSet<String> = db.smembers(&k).unwrap().unwrap().into_iter().collect();
    assert_eq!(set_of(&["a", "b", "c"]), members);
}

#[test]
fn set_key_refuses_other_kinds() {
    let mut db = KVDB::new(None);
    let k = s("k");
    assert_eq!(Ok(2), db.sadd(&k, strings(&["a", "b"])));
    assert_eq!(Err(DBError::WrongValueType), db.hset(&k, s("f"), s("v")));
    assert_eq!(Err(DBError::WrongValueType), db.get(&k));
    assert_eq!(Err(DBError::WrongValueType), db.hget(&k, &s("f")));
    assert_eq!(
        Err(DBError::WrongValueType),
        db.set(&k, s("v"), false, false, None)
    );
    assert_eq!(
        Err(DBError::WrongValueType),
        db.hmset(&k, vec![(s("f"), s("v"))])
    );
    let members: HashSet<String> = db.smembers(&k).unwrap().unwrap().into_iter().collect();
    assert_eq!(set_of(&["a", "b"]), members);
}

#[test]
fn other_kinds_refuse_set_access() {
    let mut db = KVDB::new(None);
    let h = s("h");
    let t = s("t");
    assert_eq!(Ok(1), db.hset(&h, s("f"), s("v")));
    assert_eq!(Ok(DBOk::OK), db.sets(&t, s("text")));
    assert_eq!(Err(DBError::WrongValueType), db.sadd(&h, strings(&["a"])));
    assert_eq!(Err(DBError::WrongValueType), db.srem(&t, strings(&["a"])));
    assert_eq!(Err(DBError::WrongValueType), db.spop(&h));
    assert_eq!(Err(DBError::WrongValueType), db.srandmember(&t, 1));
    assert_eq!(Err(DBError::WrongValueType), db.sismember(&h, &s("a")));
    assert_eq!(Err(DBError::WrongValueType), db.slen(&t));
    assert_eq!(Err(DBError::WrongValueType), db.smembers(&h));
    assert_eq!(Err(DBError::WrongValueType), db.hmget(&t, &strings(&["f"])));
    assert_eq!(Err(DBError::WrongValueType), db.hkeys(&t));
    assert_eq!(Err(DBError::WrongValueType), db.hvalues(&t));
    assert_eq!(Err(DBError::WrongValueType), db.hexists(&t, &s("f")));
    assert_eq!(Err(DBError::WrongValueType), db.hlen(&t));
    assert_eq!(Err(DBError::WrongValueType), db.hdel(&t, &s("f")));
}

#[test]
fn capacity_one_blocks_second_key() {
    let mut db = KVDB::new(Some(1));
    let k1 = s("k1");
    let k2 = s("k2");
    assert!(db.can_add_key());
    assert_eq!(Ok(DBOk::OK), db.set(&k1, s("v1"), false, false, None));
    assert!(!db.can_add_key());
    assert_eq!(
        Err(DBError::OutOfKeysSize),
        db.set(&k2, s("v2"), false, false, None)
    );
    assert_eq!(Err(DBError::OutOfKeysSize), db.sadd(&k2, strings(&["m"])));
    assert_eq!(Err(DBError::OutOfKeysSize), db.hset(&k2, s("f"), s("v")));
    assert_eq!(
        Err(DBError::OutOfKeysSize),
        db.hmset(&k2, vec![(s("f"), s("v"))])
    );
    assert_eq!(1, db.size());
    assert!(!db.contains_key(&k2));
    assert_eq!(Ok(DBOk::OK), db.set(&k1, s("v3"), false, false, None));
    assert_eq!(Ok(Some(s("v3"))), db.get(&k1));
    assert_eq!(1, db.size());
}

#[test]
fn capacity_zero_admits_nothing() {
    let mut db = KVDB::new(Some(0));
    assert!(!db.can_add_key());
    assert_eq!(
        Err(DBError::OutOfKeysSize),
        db.set(&s("k"), s("v"), false, false, None)
    );
    assert_eq!(0, db.size());
}

#[test]
fn default_store_is_unbounded() {
    let mut db = KVDB::default();
    for i in 0..300 {
        assert_eq!(Ok(DBOk::OK), db.sets(&i.to_string(), s("v")));
    }
    assert_eq!(300, db.size());
    assert!(db.can_add_key());
}

#[test]
fn conditional_set_keeps_first_value() {
    let mut db = KVDB::new(None);
    let k = s("k");
    assert_eq!(Ok(DBOk::OK), db.set(&k, s("v1"), true, false, None));
    assert_eq!(Ok(DBOk::Nil), db.set(&k, s("v2"), true, false, None));
    assert_eq!(Ok(Some(s("v1"))), db.get(&k));
}

#[test]
fn set_already_exists_needs_the_key() {
    let mut db = KVDB::new(None);
    let k = s("k");
    assert_eq!(Ok(DBOk::Nil), db.set(&k, s("v1"), false, true, Some(10)));
    assert_eq!(Ok(None), db.get(&k));
    assert_eq!(0, db.size());
    assert_eq!(Ok(DBOk::OK), db.set(&k, s("v1"), false, false, Some(10)));
    assert_eq!(Ok(DBOk::OK), db.set(&k, s("v2"), false, true, Some(20)));
    assert_eq!(Ok(Some(s("v2"))), db.get(&k));
}

#[test]
fn srandmember_takes_two_of_three() {
    let mut db = KVDB::new(None);
    let k = s("k");
    let all = set_of(&["a", "b", "c"]);
    assert_eq!(Ok(3), db.sadd(&k, strings(&["a", "b", "c"])));
    let taken = db.srandmember(&k, 2).unwrap().unwrap();
    let taken_set: HashSet<String> = taken.iter().cloned().collect();
    assert_eq!(2, taken.len());
    assert_eq!(2, taken_set.len());
    assert!(taken_set.is_subset(&all));
    assert_eq!(Ok(Some(1)), db.slen(&k));
    let rest: HashSet<String> = db.smembers(&k).unwrap().unwrap().into_iter().collect();
    assert!(rest.is_disjoint(&taken_set));
}

#[test]
fn srandmember_edges() {
    let mut db = KVDB::new(None);
    let k = s("k");
    assert_eq!(Ok(None), db.srandmember(&k, 2));
    assert_eq!(Ok(2), db.sadd(&k, strings(&["a", "b"])));
    assert_eq!(Ok(Some(vec![])), db.srandmember(&k, 0));
    assert_eq!(Ok(Some(2)), db.slen(&k));
    let all: HashSet<String> = db.srandmember(&k, 5).unwrap().unwrap().into_iter().collect();
    assert_eq!(set_of(&["a", "b"]), all);
    assert_eq!(Ok(Some(0)), db.slen(&k));
    assert_eq!(Ok(None), db.spop(&k));
}

#[test]
fn spop_removes_one_member() {
    let mut db = KVDB::new(None);
    let k = s("k");
    assert_eq!(Ok(1), db.sadd(&k, strings(&["only"])));
    assert_eq!(Ok(Some(s("only"))), db.spop(&k));
    assert_eq!(Ok(Some(0)), db.slen(&k));
    assert_eq!(Ok(None), db.spop(&k));
    assert!(db.contains_key(&k));
}

#[test]
fn srem_on_absent_key_is_zero() {
    let mut db = KVDB::new(None);
    assert_eq!(Ok(0), db.srem(&s("k"), strings(&["a"])));
    assert_eq!(0, db.size());
}

#[test]
fn hmget_bulk_read() {
    let mut db = KVDB::new(None);
    let k = s("k");
    assert_eq!(Ok(1), db.hset(&k, s("a"), s("1")));
    assert_eq!(
        Ok(vec![Some(s("1")), None]),
        db.hmget(&k, &strings(&["a", "z"]))
    );
    assert_eq!(
        Err(DBError::KeyNotFound),
        db.hmget(&s("missing_key"), &strings(&["a"]))
    );
}

#[test]
fn hset_reports_new_and_overwritten_fields() {
    let mut db = KVDB::new(None);
    let k = s("k");
    assert_eq!(Ok(1), db.hset(&k, s("f"), s("v1")));
    assert_eq!(Ok(0), db.hset(&k, s("f"), s("v2")));
    assert_eq!(Ok(1), db.hset(&k, s("g"), s("w")));
    assert_eq!(Ok(Some(s("v2"))), db.hget(&k, &s("f")));
    assert_eq!(Ok(None), db.hget(&k, &s("h")));
    assert_eq!(Ok(Some(2)), db.hlen(&k));
}

#[test]
fn hmset_later_pair_wins() {
    let mut db = KVDB::new(None);
    let k = s("k");
    let pairs = vec![(s("f"), s("1")), (s("g"), s("2")), (s("f"), s("3"))];
    assert_eq!(Ok(DBOk::OK), db.hmset(&k, pairs));
    assert_eq!(Ok(Some(2)), db.hlen(&k));
    assert_eq!(Ok(Some(s("3"))), db.hget(&k, &s("f")));
    assert_eq!(Ok(DBOk::OK), db.hmset(&k, vec![(s("g"), s("4")), (s("h"), s("5"))]));
    assert_eq!(Ok(Some(3)), db.hlen(&k));
    assert_eq!(Ok(Some(s("4"))), db.hget(&k, &s("g")));
    let keys: HashSet<String> = db.hkeys(&k).unwrap().unwrap().into_iter().collect();
    assert_eq!(set_of(&["f", "g", "h"]), keys);
    let mut values = db.hvalues(&k).unwrap().unwrap();
    values.sort();
    assert_eq!(strings(&["3", "4", "5"]), values);
}

#[test]
fn hkeys_and_hvalues_line_up() {
    let mut db = KVDB::new(None);
    let k = s("k");
    assert_eq!(
        Ok(DBOk::OK),
        db.hmset(&k, vec![(s("a"), s("1")), (s("b"), s("2")), (s("c"), s("3"))])
    );
    let keys = db.hkeys(&k).unwrap().unwrap();
    let values = db.hvalues(&k).unwrap().unwrap();
    assert_eq!(keys.len(), values.len());
    for (f, v) in keys.iter().zip(values.iter()) {
        assert_eq!(Ok(Some(v.clone())), db.hget(&k, f));
    }
}

#[test]
fn hdel_missing_field_is_zero() {
    let mut db = KVDB::new(None);
    let k = s("k");
    assert_eq!(Ok(1), db.hset(&k, s("f"), s("v")));
    assert_eq!(Ok(Some(0)), db.hdel(&k, &s("g")));
    assert_eq!(Ok(Some(1)), db.hdel(&k, &s("f")));
    assert_eq!(Ok(Some(0)), db.hlen(&k));
    assert_eq!(Ok(Some(false)), db.hexists(&k, &s("f")));
}

#[test]
fn del_counts_present_keys() {
    let mut db = KVDB::new(None);
    let k1 = s("k1");
    assert_eq!(Ok(DBOk::OK), db.sets(&k1, s("v")));
    assert_eq!(1, db.del(strings(&["k1", "k2"])));
    assert_eq!(0, db.del(strings(&["k1", "k2"])));
    assert_eq!(0, db.size());
    assert!(!db.contains_key(&k1));
}

#[test]
fn del_removes_every_kind() {
    let mut db = KVDB::new(Some(3));
    assert_eq!(Ok(DBOk::OK), db.sets(&s("a"), s("v")));
    assert_eq!(Ok(1), db.sadd(&s("b"), strings(&["m"])));
    assert_eq!(Ok(1), db.hset(&s("c"), s("f"), s("v")));
    assert!(!db.can_add_key());
    assert_eq!(3, db.del(strings(&["a", "b", "c", "a"])));
    assert_eq!(0, db.size());
    assert!(db.can_add_key());
    assert_eq!(Ok(1), db.sadd(&s("a"), strings(&["x"])));
}

#[test]
fn keys_of_each_kind_count_in_size() {
    let mut db = KVDB::new(None);
    assert_eq!(0, db.size());
    assert_eq!(Ok(DBOk::OK), db.sets(&s("a"), s("v")));
    assert_eq!(Ok(1), db.sadd(&s("b"), strings(&["m"])));
    assert_eq!(Ok(DBOk::OK), db.hmset(&s("c"), vec![]));
    assert_eq!(3, db.size());
    assert!(db.contains_key(&s("c")));
    assert_eq!(Ok(Some(0)), db.hlen(&s("c")));
}

#[test]
fn budget_of_one_holds_one_key_over_a_history() {
    let mut db = KVDB::new(Some(1));
    let k = s("k");
    let other = s("other");
    assert_eq!(Ok(DBOk::OK), db.sets(&k, s("v")));
    for i in 0..5 {
        assert_eq!(Ok(DBOk::OK), db.sets(&k, i.to_string()));
        assert_eq!(
            Err(DBError::OutOfKeysSize),
            db.set(&other, s("v"), false, false, Some(1))
        );
        assert_eq!(Err(DBError::OutOfKeysSize), db.sadd(&other, strings(&["m"])));
        assert_eq!(Err(DBError::OutOfKeysSize), db.hset(&other, s("f"), s("v")));
        assert_eq!(
            Err(DBError::OutOfKeysSize),
            db.hmset(&other, vec![(s("f"), s("v"))])
        );
        assert_eq!(Err(DBError::WrongValueType), db.sadd(&k, strings(&["m"])));
        assert_eq!(1, db.size());
    }
}
