//! The key/value store: commands, responses, and the map with lazy expiry.
use vstd::prelude::*;

use crate::expiring_cache::{expired, ExpiringValue};

verus! {

/// A request to the store.
#[derive(Debug)]
pub enum StoreCommand {
    Get { key: String },
    Assign { key: String, value: String, expiry: Option<u64> },
}

/// The mathematical value of a [`StoreCommand`].
pub enum CommandModel {
    Get(Seq<char>),
    Assign(Seq<char>, Seq<char>, Option<u64>),
}

impl View for StoreCommand {
    type V = CommandModel;

    open spec fn view(&self) -> CommandModel {
        match self {
            StoreCommand::Get { key } => CommandModel::Get(key@),
            StoreCommand::Assign { key, value, expiry } => CommandModel::Assign(key@, value@, *expiry),
        }
    }
}

impl StoreCommand {
    /// A request for the value under `key`.
    pub fn get_value(key: String) -> (r: Self)
        ensures
            r@ == CommandModel::Get(key@),
    {
        StoreCommand::Get { key }
    }

    /// A request to store `value` under `key`, expiring after `expiry`
    /// milliseconds when given.
    pub fn set_value(key: String, value: String, expiry: Option<u64>) -> (r: Self)
        ensures
            r@ == CommandModel::Assign(key@, value@, expiry),
    {
        StoreCommand::Assign { key, value, expiry }
    }
}

/// The store's answer to one command.
#[derive(Debug, PartialEq)]
pub enum StoreResponse {
    Value(String),
    Nil,
    Done,
}

/// The mathematical value of a [`StoreResponse`].
pub enum ResponseModel {
    Value(Seq<char>),
    Nil,
    Done,
}

impl View for StoreResponse {
    type V = ResponseModel;

    open spec fn view(&self) -> ResponseModel {
        match self {
            StoreResponse::Value(v) => ResponseModel::Value(v@),
            StoreResponse::Nil => ResponseModel::Nil,
            StoreResponse::Done => ResponseModel::Done,
        }
    }
}

/// What the store keeps under one key.
pub struct EntryModel {
    pub value: Seq<char>,
    pub added_at: nat,
    pub ttl: Option<u64>,
}

/// The contents of the store: each key with its entry.
pub type StoreMap = Map<Seq<char>, EntryModel>;

/// One command applied to the store at time `now`: the store after it and the
/// answer. A read of an expired entry removes it and answers as if it were
/// absent; a write replaces the whole entry.
pub open spec fn store_step(m: StoreMap, c: CommandModel, now: nat) -> (StoreMap, ResponseModel) {
    match c {
        CommandModel::Get(k) => if !m.contains_key(k) {
            (m, ResponseModel::Nil)
        } else if expired(m[k].added_at, m[k].ttl, now) {
            (m.remove(k), ResponseModel::Nil)
        } else {
            (m, ResponseModel::Value(m[k].value))
        },
        CommandModel::Assign(k, v, ttl) => (
            m.insert(k, EntryModel { value: v, added_at: now, ttl }),
            ResponseModel::Done,
        ),
    }
}

/// A read of a key right after a write of it without a time to live gives
/// the written value, whenever the read comes.
pub proof fn lemma_get_after_set(m: StoreMap, k: Seq<char>, v: Seq<char>, t1: nat, t2: nat)
    ensures
        store_step(store_step(m, CommandModel::Assign(k, v, None), t1).0, CommandModel::Get(k), t2).1
            == ResponseModel::Value(v),
{
}

/// A read that comes more than the time to live after the write finds
/// nothing, and removes the entry.
pub proof fn lemma_get_after_expiry(
    m: StoreMap,
    k: Seq<char>,
    v: Seq<char>,
    ttl: u64,
    t1: nat,
    t2: nat,
)
    requires
        t2 - t1 > ttl,
    ensures
        ({
            let after_set = store_step(m, CommandModel::Assign(k, v, Some(ttl)), t1).0;
            let (after_get, r) = store_step(after_set, CommandModel::Get(k), t2);
            r == ResponseModel::Nil && !after_get.contains_key(k)
        }),
{
}

/// A read of a key that the store does not hold finds nothing and changes
/// nothing.
pub proof fn lemma_get_absent(m: StoreMap, k: Seq<char>, now: nat)
    requires
        !m.contains_key(k),
    ensures
        store_step(m, CommandModel::Get(k), now) == (m, ResponseModel::Nil),
{
}

/// One stored key with its value.
pub type Entry = (String, ExpiringValue<String>);

/// The model of one stored entry.
pub open spec fn entry_model(e: ExpiringValue<String>) -> EntryModel {
    EntryModel { value: e.value@, added_at: e.added_at as nat, ttl: e.expires_in_ms }
}

/// No key appears twice among the entries.
pub open spec fn keys_unique(s: Seq<Entry>) -> bool {
    forall|i: int, j: int| 0 <= i < j < s.len() ==> (#[trigger] s[i]).0@ != (#[trigger] s[j]).0@
}

/// Some entry has key `k`.
pub open spec fn has_key(s: Seq<Entry>, k: Seq<char>) -> bool {
    exists|i: int| 0 <= i < s.len() && (#[trigger] s[i]).0@ == k
}

/// The map that a run of entries with unique keys stands for.
pub open spec fn entries_map(s: Seq<Entry>) -> StoreMap {
    Map::new(
        |k: Seq<char>| has_key(s, k),
        |k: Seq<char>| entry_model(s[choose|i: int| 0 <= i < s.len() && (#[trigger] s[i]).0@ == k].1),
    )
}

proof fn lemma_lookup(s: Seq<Entry>, i: int)
    requires
        keys_unique(s),
        0 <= i < s.len(),
    ensures
        entries_map(s).contains_key(s[i].0@),
        entries_map(s)[s[i].0@] == entry_model(s[i].1),
{
    let k = s[i].0@;
    assert(has_key(s, k));
    let j = choose|j: int| 0 <= j < s.len() && (#[trigger] s[j]).0@ == k;
    assert(j == i);
}

fn find(entries: &Vec<Entry>, key: &String) -> (r: Option<usize>)
    ensures
        match r {
            Some(i) => i < entries@.len() && entries@[i as int].0@ == key@,
            None => !has_key(entries@, key@),
        },
{
    let mut i: usize = 0;
    while i < entries.len()
        invariant
            0 <= i <= entries@.len(),
            forall|j: int| 0 <= j < i ==> (#[trigger] entries@[j]).0@ != key@,
        decreases entries@.len() - i,
    {
        if entries[i].0 == *key {
            return Some(i);
        }
        i = i + 1;
    }
    None
}

/// The key/value store. Each key appears at most once.
#[derive(Debug)]
pub struct KVStore {
    entries: Vec<Entry>,
}

impl View for KVStore {
    type V = StoreMap;

    closed spec fn view(&self) -> StoreMap {
        entries_map(self.entries@)
    }
}

impl KVStore {
    /// Each key is stored at most once.
    #[verifier::type_invariant]
    spec fn wf(&self) -> bool {
        keys_unique(self.entries@)
    }

    /// An empty store.
    pub fn new() -> (r: Self)
        ensures
            r@ == Map::<Seq<char>, EntryModel>::empty(),
    {
        let r = KVStore { entries: Vec::new() };
        assert(r@ =~= Map::<Seq<char>, EntryModel>::empty());
        r
    }

    /// Applies one command at time `now` (milliseconds on a monotonic clock)
    /// and gives the store's answer.
    pub fn apply(&mut self, cmd: StoreCommand, now: u64) -> (r: StoreResponse)
        ensures
            (final(self)@, r@) == store_step(old(self)@, cmd@, now as nat),
    {
        proof {
            use_type_invariant(&*self);
        }
        let mut entries: Vec<Entry> = Vec::new();
        std::mem::swap(&mut entries, &mut self.entries);
        let ghost s = entries@;
        let r = match cmd {
            StoreCommand::Get { key } => {
                match find(&entries, &key) {
                    None => StoreResponse::Nil,
                    Some(i) => {
                        proof {
                            lemma_lookup(s, i as int);
                        }
                        if entries[i].1.has_expired(now) {
                            entries.remove(i);
                            proof {
                                lemma_removed(s, entries@, i as int);
                            }
                            StoreResponse::Nil
                        } else {
                            StoreResponse::Value(entries[i].1.value.clone())
                        }
                    },
                }
            },
            StoreCommand::Assign { key, value, expiry } => {
                let found = find(&entries, &key);
                let entry = ExpiringValue::new(value, expiry, now);
                match found {
                    Some(i) => {
                        entries.set(i, (key, entry));
                        proof {
                            lemma_replaced(s, entries@, i as int);
                        }
                    },
                    None => {
                        entries.push((key, entry));
                        proof {
                            assert(entries@.drop_last() =~= s);
                            lemma_pushed(s, entries@);
                        }
                    },
                }
                StoreResponse::Done
            },
        };
        self.entries = entries;
        r
    }
}

proof fn lemma_removed(s: Seq<Entry>, t: Seq<Entry>, i: int)
    requires
        keys_unique(s),
        0 <= i < s.len(),
        t == s.remove(i),
    ensures
        keys_unique(t),
        entries_map(t) == entries_map(s).remove(s[i].0@),
{
    let key = s[i].0@;
    assert forall|a: int, b: int| 0 <= a < b < t.len() implies (#[trigger] t[a]).0@ != (
    #[trigger] t[b]).0@ by {
        let a2 = if a < i { a } else { a + 1 };
        let b2 = if b < i { b } else { b + 1 };
        assert(t[a] == s[a2]);
        assert(t[b] == s[b2]);
    }
    let m = entries_map(s).remove(key);
    assert forall|k: Seq<char>| #[trigger] entries_map(t).contains_key(k) <==> m.contains_key(k) by {
        if has_key(t, k) {
            let j = choose|j: int| 0 <= j < t.len() && (#[trigger] t[j]).0@ == k;
            let j2 = if j < i { j } else { j + 1 };
            assert(t[j] == s[j2]);
            assert(has_key(s, k));
        }
        if has_key(s, k) && k != key {
            let j = choose|j: int| 0 <= j < s.len() && (#[trigger] s[j]).0@ == k;
            assert(j != i);
            let j2 = if j < i { j } else { j - 1 };
            assert(t[j2] == s[j]);
            assert(has_key(t, k));
        }
    }
    assert forall|k: Seq<char>| #[trigger] entries_map(t).contains_key(k) implies entries_map(t)[k] == m[k] by {
        let j = choose|j: int| 0 <= j < t.len() && (#[trigger] t[j]).0@ == k;
        let j2 = if j < i { j } else { j + 1 };
        assert(t[j] == s[j2]);
        lemma_lookup(t, j);
        lemma_lookup(s, j2);
    }
    assert(entries_map(t) =~= m);
}

proof fn lemma_replaced(s: Seq<Entry>, t: Seq<Entry>, i: int)
    requires
        keys_unique(s),
        0 <= i < s.len(),
        t == s.update(i, t[i]),
        t[i].0@ == s[i].0@,
    ensures
        keys_unique(t),
        entries_map(t) == entries_map(s).insert(s[i].0@, entry_model(t[i].1)),
{
    let key = s[i].0@;
    assert forall|a: int, b: int| 0 <= a < b < t.len() implies (#[trigger] t[a]).0@ != (
    #[trigger] t[b]).0@ by {
        assert(t[a].0@ == s[a].0@);
        assert(t[b].0@ == s[b].0@);
    }
    let m = entries_map(s).insert(key, entry_model(t[i].1));
    assert forall|k: Seq<char>| #[trigger] entries_map(t).contains_key(k) <==> m.contains_key(k) by {
        if has_key(t, k) {
            let j = choose|j: int| 0 <= j < t.len() && (#[trigger] t[j]).0@ == k;
            assert(t[j].0@ == s[j].0@);
            assert(has_key(s, k));
        }
        if has_key(s, k) {
            let j = choose|j: int| 0 <= j < s.len() && (#[trigger] s[j]).0@ == k;
            assert(t[j].0@ == s[j].0@);
            assert(has_key(t, k));
        }
        if k == key {
            assert(t[i].0@ == k);
        }
    }
    assert forall|k: Seq<char>| #[trigger] entries_map(t).contains_key(k) implies entries_map(t)[k] == m[k] by {
        let j = choose|j: int| 0 <= j < t.len() && (#[trigger] t[j]).0@ == k;
        lemma_lookup(t, j);
        if j != i {
            assert(t[j] == s[j]);
            lemma_lookup(s, j);
        }
    }
    assert(entries_map(t) =~= m);
}

proof fn lemma_pushed(s: Seq<Entry>, t: Seq<Entry>)
    requires
        keys_unique(s),
        t.len() == s.len() + 1,
        t.drop_last() == s,
        !has_key(s, t.last().0@),
    ensures
        keys_unique(t),
        entries_map(t) == entries_map(s).insert(
            t.last().0@,
            entry_model(t.last().1),
        ),
{
    let n = s.len() as int;
    let key = t[n].0@;
    assert forall|j: int| 0 <= j < n implies #[trigger] t[j] == s[j] by {
        assert(t.drop_last()[j] == t[j]);
    }
    assert forall|a: int, b: int| 0 <= a < b < t.len() implies (#[trigger] t[a]).0@ != (
    #[trigger] t[b]).0@ by {
        if b == n {
            assert(t[a] == s[a]);
        } else {
            assert(t[a] == s[a]);
            assert(t[b] == s[b]);
        }
    }
    let m = entries_map(s).insert(key, entry_model(t[n].1));
    assert forall|k: Seq<char>| #[trigger] entries_map(t).contains_key(k) <==> m.contains_key(k) by {
        if has_key(t, k) {
            let j = choose|j: int| 0 <= j < t.len() && (#[trigger] t[j]).0@ == k;
            if j < n {
                assert(t[j] == s[j]);
                assert(has_key(s, k));
            }
        }
        if has_key(s, k) {
            let j = choose|j: int| 0 <= j < s.len() && (#[trigger] s[j]).0@ == k;
            assert(t[j] == s[j]);
            assert(has_key(t, k));
        }
        if k == key {
            assert(has_key(t, k));
        }
    }
    assert forall|k: Seq<char>| #[trigger] entries_map(t).contains_key(k) implies entries_map(t)[k] == m[k] by {
        let j = choose|j: int| 0 <= j < t.len() && (#[trigger] t[j]).0@ == k;
        lemma_lookup(t, j);
        if j < n {
            assert(t[j] == s[j]);
            lemma_lookup(s, j);
        }
    }
    assert(entries_map(t) =~= m);
}

} // verus!
