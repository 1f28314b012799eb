//! Named counters that go up and down, and a copy of them on demand.
//!
//! The store is plain data with one owner; a service that counts from many
//! handlers at once puts it behind a lock. Whatever order the lock grants,
//! the calls happen one after another, and what is proved here of every such
//! order holds of every interleaving.

use crate::text::{append_decimal, decimal, fits_i64};
use vstd::prelude::*;
use vstd::string::StringExecFns;

verus! {

/// The count that `m` holds for `key`: zero where `m` has no such key.
pub open spec fn count(m: Map<Seq<char>, int>, key: Seq<char>) -> int {
    if m.contains_key(key) {
        m[key]
    } else {
        0
    }
}

/// The counts after `key` went up by one.
pub open spec fn after_inc(m: Map<Seq<char>, int>, key: Seq<char>) -> Map<Seq<char>, int> {
    m.insert(key, count(m, key) + 1)
}

/// The counts after `key` went down by one.
pub open spec fn after_dec(m: Map<Seq<char>, int>, key: Seq<char>) -> Map<Seq<char>, int> {
    m.insert(key, count(m, key) - 1)
}

/// One call on the store: `key` goes up, or it goes down.
pub struct Call {
    pub key: Seq<char>,
    pub up: bool,
}

/// The counts after the calls `calls`, made one after another.
pub open spec fn after_calls(m: Map<Seq<char>, int>, calls: Seq<Call>) -> Map<Seq<char>, int>
    decreases calls.len(),
{
    if calls.len() == 0 {
        m
    } else if calls.last().up {
        after_inc(after_calls(m, calls.drop_last()), calls.last().key)
    } else {
        after_dec(after_calls(m, calls.drop_last()), calls.last().key)
    }
}

/// How often `key` goes up among `calls`, less how often it goes down.
pub open spec fn net(calls: Seq<Call>, key: Seq<char>) -> int
    decreases calls.len(),
{
    if calls.len() == 0 {
        0
    } else if calls.last().key != key {
        net(calls.drop_last(), key)
    } else if calls.last().up {
        net(calls.drop_last(), key) + 1
    } else {
        net(calls.drop_last(), key) - 1
    }
}

/// Whether `keys` holds `key` at place `i`.
pub open spec fn key_at(keys: Seq<String>, i: int, key: Seq<char>) -> bool {
    0 <= i < keys.len() && keys[i]@ == key
}

/// Whether no key stands twice in `keys`.
pub open spec fn distinct(keys: Seq<String>) -> bool {
    forall|i: int, j: int|
        0 <= i < keys.len() && 0 <= j < keys.len() && i != j ==> #[trigger] keys[i]@
            != #[trigger] keys[j]@
}

/// The counts that `keys` and `counts` stand for, place by place.
pub open spec fn table(keys: Seq<String>, counts: Seq<i64>) -> Map<Seq<char>, int> {
    Map::new(
        |k: Seq<char>| exists|i: int| key_at(keys, i, k),
        |k: Seq<char>| counts[choose|i: int| key_at(keys, i, k)] as int,
    )
}

/// Whether `pairs` lists `m`: each key of `m` once, with its count, and
/// nothing else.
pub open spec fn lists(pairs: Seq<(String, i64)>, m: Map<Seq<char>, int>) -> bool {
    &&& forall|i: int|
        0 <= i < pairs.len() ==> m.contains_key(#[trigger] pairs[i].0@) && m[pairs[i].0@]
            == pairs[i].1
    &&& forall|i: int, j: int|
        0 <= i < pairs.len() && 0 <= j < pairs.len() && i != j ==> #[trigger] pairs[i].0@
            != #[trigger] pairs[j].0@
    &&& forall|k: Seq<char>| #[trigger]
        m.contains_key(k) ==> exists|i: int| 0 <= i < pairs.len() && #[trigger] pairs[i].0@ == k
}

/// The first `n` of `entries` written out, each as its key, a colon, a blank
/// and its count, with a comma and a blank between one and the next.
pub open spec fn entries_text(entries: Seq<(Seq<char>, int)>, n: int) -> Seq<char>
    decreases n,
{
    if n <= 0 {
        Seq::<char>::empty()
    } else {
        entries_text(entries, n - 1) + (if n > 1 {
            seq![',', ' ']
        } else {
            Seq::<char>::empty()
        }) + entries[n - 1].0 + seq![':', ' '] + decimal(entries[n - 1].1)
    }
}

/// All of `entries` written out between braces.
pub open spec fn metrics_text(entries: Seq<(Seq<char>, int)>) -> Seq<char> {
    seq!['{'] + entries_text(entries, entries.len() as int) + seq!['}']
}

/// Whether `entries` holds `key` at place `i`.
pub open spec fn entry_at(entries: Seq<(Seq<char>, int)>, i: int, key: Seq<char>) -> bool {
    0 <= i < entries.len() && entries[i].0 == key
}

/// `entries` with `v` under `key`: in the key's place where it has one, at
/// the end where it has none.
pub open spec fn placed(entries: Seq<(Seq<char>, int)>, key: Seq<char>, v: int) -> Seq<
    (Seq<char>, int),
> {
    if exists|i: int| entry_at(entries, i, key) {
        entries.update(choose|i: int| entry_at(entries, i, key), (key, v))
    } else {
        entries.push((key, v))
    }
}

/// What `table` holds, place by place.
proof fn lemma_table_holds(keys: Seq<String>, counts: Seq<i64>)
    requires
        keys.len() == counts.len(),
        distinct(keys),
    ensures
        forall|i: int|
            0 <= i < keys.len() ==> table(keys, counts).contains_key(#[trigger] keys[i]@) && table(
                keys,
                counts,
            )[keys[i]@] == counts[i],
        forall|k: Seq<char>| #[trigger]
            table(keys, counts).contains_key(k) ==> exists|i: int| key_at(keys, i, k),
{
    assert forall|i: int| 0 <= i < keys.len() implies table(keys, counts).contains_key(
        #[trigger] keys[i]@,
    ) && table(keys, counts)[keys[i]@] == counts[i] by {
        let k = keys[i]@;
        assert(key_at(keys, i, k));
        let c = choose|c: int| key_at(keys, c, k);
        assert(key_at(keys, c, k));
        assert(c == i);
    }
}

/// A map that agrees with `keys` and `counts` place by place, and has no
/// other key, is their `table`.
proof fn lemma_table_is(keys: Seq<String>, counts: Seq<i64>, m: Map<Seq<char>, int>)
    requires
        keys.len() == counts.len(),
        distinct(keys),
        forall|i: int|
            0 <= i < keys.len() ==> m.contains_key(#[trigger] keys[i]@) && m[keys[i]@] == counts[i],
        forall|k: Seq<char>| #[trigger] m.contains_key(k) ==> exists|i: int| key_at(keys, i, k),
    ensures
        table(keys, counts) == m,
{
    lemma_table_holds(keys, counts);
    let t = table(keys, counts);
    assert forall|k: Seq<char>| t.contains_key(k) == m.contains_key(k) by {
        if t.contains_key(k) {
            let i = choose|i: int| key_at(keys, i, k);
            assert(key_at(keys, i, k));
            assert(m.contains_key(keys[i]@));
        }
        if m.contains_key(k) {
            let i = choose|i: int| key_at(keys, i, k);
            assert(key_at(keys, i, k));
            assert(t.contains_key(keys[i]@));
        }
    }
    assert forall|k: Seq<char>| t.contains_key(k) implies t[k] == m[k] by {
        let i = choose|i: int| key_at(keys, i, k);
        assert(key_at(keys, i, k));
        assert(t[keys[i]@] == counts[i]);
        assert(m[keys[i]@] == counts[i]);
    }
    assert(t =~= m);
}

/// A store of counters, each under a name.
#[derive(Debug)]
pub struct Metrics {
    keys: Vec<String>,
    counts: Vec<i64>,
}

impl View for Metrics {
    type V = Map<Seq<char>, int>;

    closed spec fn view(&self) -> Map<Seq<char>, int> {
        table(self.keys@, self.counts@)
    }
}

impl Metrics {
    /// Whether the store is in order: every key has its count, and none
    /// stands twice.
    pub closed spec fn wf(&self) -> bool {
        self.keys@.len() == self.counts@.len() && distinct(self.keys@)
    }

    /// The counters in the order in which their keys first came.
    pub closed spec fn entries(&self) -> Seq<(Seq<char>, int)> {
        Seq::new(self.keys@.len(), |i: int| (self.keys@[i]@, self.counts@[i] as int))
    }

    /// A store without any counter.
    pub fn new() -> (m: Self)
        ensures
            m.wf(),
            m@ == Map::<Seq<char>, int>::empty(),
            m.entries() == Seq::<(Seq<char>, int)>::empty(),
    {
        let m = Metrics { keys: Vec::new(), counts: Vec::new() };
        proof {
            lemma_table_is(m.keys@, m.counts@, Map::<Seq<char>, int>::empty());
            assert(m.entries() =~= Seq::<(Seq<char>, int)>::empty());
        }
        m
    }

    /// The place of `key` among the keys, if it is there.
    fn find(&self, key: &String) -> (r: Option<usize>)
        requires
            self.wf(),
        ensures
            match r {
                Some(i) => key_at(self.keys@, i as int, key@),
                None => forall|i: int| !key_at(self.keys@, i, key@),
            },
            r is Some <==> self@.contains_key(key@),
    {
        proof {
            lemma_table_holds(self.keys@, self.counts@);
        }
        let mut i: usize = 0;
        while i < self.keys.len()
            invariant
                0 <= i <= self.keys@.len(),
                forall|j: int| 0 <= j < i ==> !key_at(self.keys@, j, key@),
            decreases self.keys@.len() - i,
        {
            if self.keys[i] == *key {
                assert(key_at(self.keys@, i as int, key@));
                return Some(i);
            }
            i += 1;
        }
        None
    }

    /// The count under `key`: zero where the store has no such key.
    pub fn get(&self, key: &String) -> (v: i64)
        requires
            self.wf(),
        ensures
            v == count(self@, key@),
    {
        proof {
            lemma_table_holds(self.keys@, self.counts@);
        }
        match self.find(key) {
            Some(i) => self.counts[i],
            None => 0,
        }
    }

    /// Puts `v` under `key`, whether the key is new or not.
    fn put(&mut self, key: String, v: i64)
        requires
            old(self).wf(),
        ensures
            final(self).wf(),
            final(self)@ == old(self)@.insert(key@, v as int),
            final(self).entries() == placed(old(self).entries(), key@, v as int),
    {
        proof {
            lemma_table_holds(self.keys@, self.counts@);
        }
        let ghost before = self@;
        let ghost old_keys = self.keys@;
        let ghost old_entries = self.entries();
        match self.find(&key) {
            Some(i) => {
                self.counts.set(i, v);
                proof {
                    let after = before.insert(key@, v as int);
                    assert forall|j: int| 0 <= j < self.keys@.len() implies after.contains_key(
                        #[trigger] self.keys@[j]@,
                    ) && after[self.keys@[j]@] == self.counts@[j] by {
                        assert(before.contains_key(old_keys[j]@));
                        if j != i {
                            assert(old_keys[j]@ != old_keys[i as int]@);
                        }
                    }
                    assert forall|k: Seq<char>| #[trigger] after.contains_key(k) implies exists|
                        j: int,
                    | key_at(self.keys@, j, k) by {
                        if k == key@ {
                            assert(key_at(self.keys@, i as int, k));
                        } else {
                            assert(before.contains_key(k));
                            let j = choose|j: int| key_at(old_keys, j, k);
                            assert(key_at(self.keys@, j, k));
                        }
                    }
                    lemma_table_is(self.keys@, self.counts@, after);
                    assert(entry_at(old_entries, i as int, key@));
                    let c = choose|c: int| entry_at(old_entries, c, key@);
                    assert(key_at(old_keys, c, key@));
                    assert(c == i);
                    assert(self.entries() =~= old_entries.update(i as int, (key@, v as int)));
                }
            },
            None => {
                self.keys.push(key);
                self.counts.push(v);
                proof {
                    let after = before.insert(key@, v as int);
                    let n = old_keys.len() as int;
                    assert forall|a: int, b: int|
                        0 <= a < self.keys@.len() && 0 <= b < self.keys@.len() && a
                            != b implies #[trigger] self.keys@[a]@ != #[trigger] self.keys@[b]@ by {
                        if a < n && b < n {
                            assert(old_keys[a]@ != old_keys[b]@);
                        } else if a < n {
                            assert(!key_at(old_keys, a, key@));
                        } else {
                            assert(!key_at(old_keys, b, key@));
                        }
                    }
                    assert forall|j: int| 0 <= j < self.keys@.len() implies after.contains_key(
                        #[trigger] self.keys@[j]@,
                    ) && after[self.keys@[j]@] == self.counts@[j] by {
                        if j < n {
                            assert(before.contains_key(old_keys[j]@));
                            assert(!key_at(old_keys, j, key@));
                        }
                    }
                    assert forall|k: Seq<char>| #[trigger] after.contains_key(k) implies exists|
                        j: int,
                    | key_at(self.keys@, j, k) by {
                        if k == key@ {
                            assert(key_at(self.keys@, n, k));
                        } else {
                            assert(before.contains_key(k));
                            let j = choose|j: int| key_at(old_keys, j, k);
                            assert(key_at(self.keys@, j, k));
                        }
                    }
                    lemma_table_is(self.keys@, self.counts@, after);
                    assert forall|c: int| !entry_at(old_entries, c, key@) by {
                        assert(!key_at(old_keys, c, key@));
                    }
                    assert(self.entries() =~= old_entries.push((key@, v as int)));
                }
            },
        }
    }

    /// Counts `key` up by one; a key that was not there starts from zero.
    pub fn inc(&mut self, key: String)
        requires
            old(self).wf(),
            count(old(self)@, key@) < i64::MAX,
        ensures
            final(self).wf(),
            final(self)@ == after_inc(old(self)@, key@),
            final(self).entries() == placed(
                old(self).entries(),
                key@,
                count(old(self)@, key@) + 1,
            ),
            fits_i64(count(final(self)@, key@)),
    {
        let v = self.get(&key);
        self.put(key, v + 1);
    }

    /// Counts `key` down by one; a key that was not there starts from zero.
    pub fn dec(&mut self, key: String)
        requires
            old(self).wf(),
            count(old(self)@, key@) > i64::MIN,
        ensures
            final(self).wf(),
            final(self)@ == after_dec(old(self)@, key@),
            final(self).entries() == placed(
                old(self).entries(),
                key@,
                count(old(self)@, key@) - 1,
            ),
            fits_i64(count(final(self)@, key@)),
    {
        let v = self.get(&key);
        self.put(key, v - 1);
    }

    /// A copy of all counters as they stand now. What is done to the store
    /// afterwards does not show in it.
    pub fn snapshot(&self) -> (pairs: Vec<(String, i64)>)
        requires
            self.wf(),
        ensures
            lists(pairs@, self@),
            pairs@.len() == self.entries().len(),
            forall|i: int|
                0 <= i < pairs@.len() ==> (#[trigger] pairs@[i]).0@ == self.entries()[i].0
                    && pairs@[i].1 == self.entries()[i].1,
    {
        proof {
            lemma_table_holds(self.keys@, self.counts@);
        }
        let mut pairs: Vec<(String, i64)> = Vec::new();
        let mut i: usize = 0;
        while i < self.keys.len()
            invariant
                self.wf(),
                0 <= i <= self.keys@.len(),
                pairs@.len() == i,
                forall|j: int|
                    0 <= j < i ==> (#[trigger] pairs@[j]).0@ == self.keys@[j]@ && pairs@[j].1
                        == self.counts@[j],
            decreases self.keys@.len() - i,
        {
            let key = self.keys[i].clone();
            pairs.push((key, self.counts[i]));
            i += 1;
        }
        proof {
            let m = self@;
            assert forall|k: Seq<char>| #[trigger] m.contains_key(k) implies exists|j: int|
                0 <= j < pairs@.len() && #[trigger] pairs@[j].0@ == k by {
                let j = choose|j: int| key_at(self.keys@, j, k);
                assert(key_at(self.keys@, j, k));
                assert(pairs@[j].0@ == k);
            }
            assert forall|a: int, b: int|
                0 <= a < pairs@.len() && 0 <= b < pairs@.len() && a != b implies #[trigger] pairs@[a].0@
                != #[trigger] pairs@[b].0@ by {
                assert(self.keys@[a]@ != self.keys@[b]@);
            }
            assert forall|j: int| 0 <= j < pairs@.len() implies m.contains_key(
                #[trigger] pairs@[j].0@,
            ) && m[pairs@[j].0@] == pairs@[j].1 by {
                assert(m.contains_key(self.keys@[j]@));
            }
        }
        pairs
    }
}

impl Metrics {
    /// All counters written out between braces, in the order of `entries`:
    /// each as its key, a colon, a blank and its count, with a comma and a
    /// blank between one and the next.
    pub fn to_string(&self) -> (s: String)
        requires
            self.wf(),
        ensures
            s@ == metrics_text(self.entries()),
    {
        proof {
            reveal_strlit("{");
            reveal_strlit("}");
        }
        let mut s = String::new();
        s.append("{");
        let mut i: usize = 0;
        while i < self.keys.len()
            invariant
                self.wf(),
                0 <= i <= self.keys@.len(),
                s@ == seq!['{'] + entries_text(self.entries(), i as int),
            decreases self.keys@.len() - i,
        {
            let ghost done = entries_text(self.entries(), i as int);
            let ghost key = self.entries()[i as int].0;
            let ghost value = decimal(self.entries()[i as int].1);
            if i > 0 {
                proof {
                    reveal_strlit(", ");
                }
                s.append(", ");
            }
            s.append(self.keys[i].as_str());
            proof {
                reveal_strlit(": ");
            }
            s.append(": ");
            append_decimal(&mut s, self.counts[i]);
            proof {
                let gap = if i > 0 {
                    seq![',', ' ']
                } else {
                    Seq::<char>::empty()
                };
                assert(s@ =~= seq!['{'] + (done + gap + key + seq![':', ' '] + value));
                assert(entries_text(self.entries(), i + 1) == done + gap + key + seq![':', ' ']
                    + value);
            }
            i += 1;
        }
        s.append("}");
        assert(s@ =~= metrics_text(self.entries()));
        s
    }

    /// Every count of a store in order can be held in an `i64`, the zero of a
    /// key that is not there too.
    pub proof fn lemma_counts_fit(&self, key: Seq<char>)
        requires
            self.wf(),
        ensures
            fits_i64(count(self@, key)),
    {
        lemma_table_holds(self.keys@, self.counts@);
        if self@.contains_key(key) {
            let i = choose|i: int| key_at(self.keys@, i, key);
            assert(key_at(self.keys@, i, key));
            assert(self@[self.keys@[i]@] == self.counts@[i]);
        }
    }

    /// The entries list the counters: each key once, with its count.
    pub proof fn lemma_entries_list_counters(&self)
        requires
            self.wf(),
        ensures
            forall|i: int|
                0 <= i < self.entries().len() ==> self@.contains_key(
                    (#[trigger] self.entries()[i]).0,
                ) && self@[self.entries()[i].0] == self.entries()[i].1,
            forall|i: int, j: int|
                0 <= i < self.entries().len() && 0 <= j < self.entries().len() && i != j ==> (
                #[trigger] self.entries()[i]).0 != (#[trigger] self.entries()[j]).0,
            forall|k: Seq<char>| #[trigger]
                self@.contains_key(k) ==> exists|i: int|
                    0 <= i < self.entries().len() && (#[trigger] self.entries()[i]).0 == k,
    {
        lemma_table_holds(self.keys@, self.counts@);
        assert forall|i: int, j: int|
            0 <= i < self.entries().len() && 0 <= j < self.entries().len() && i
                != j implies (#[trigger] self.entries()[i]).0 != (#[trigger] self.entries()[j]).0 by {
            assert(self.keys@[i]@ != self.keys@[j]@);
        }
        assert forall|k: Seq<char>| #[trigger] self@.contains_key(k) implies exists|i: int|
            0 <= i < self.entries().len() && (#[trigger] self.entries()[i]).0 == k by {
            let i = choose|i: int| key_at(self.keys@, i, k);
            assert(key_at(self.keys@, i, k));
            assert(self.entries()[i].0 == k);
        }
    }
}

impl Default for Metrics {
    /// A store without any counter.
    fn default() -> (m: Self)
        ensures
            m.wf(),
            m@ == Map::<Seq<char>, int>::empty(),
            m.entries() == Seq::<(Seq<char>, int)>::empty(),
    {
        Metrics::new()
    }
}

/// After any calls, in any order, a key's count is what it was, plus how
/// often the key went up, less how often it went down.
pub proof fn lemma_calls_add_up(m: Map<Seq<char>, int>, calls: Seq<Call>, key: Seq<char>)
    ensures
        count(after_calls(m, calls), key) == count(m, key) + net(calls, key),
    decreases calls.len(),
{
    if calls.len() > 0 {
        lemma_calls_add_up(m, calls.drop_last(), key);
    }
}

/// Where a key goes up as often as it goes down, its count ends where it
/// began, however the calls are interleaved with each other and with calls
/// on other keys.
pub proof fn lemma_balanced_calls_cancel(
    m: Map<Seq<char>, int>,
    calls: Seq<Call>,
    key: Seq<char>,
)
    requires
        net(calls, key) == 0,
    ensures
        count(after_calls(m, calls), key) == count(m, key),
{
    lemma_calls_add_up(m, calls, key);
}

/// Counting a key up and then down, or down and then up, leaves its count
/// and every other count as they were.
pub proof fn lemma_inc_dec_cancel(m: Map<Seq<char>, int>, key: Seq<char>, other: Seq<char>)
    ensures
        count(after_dec(after_inc(m, key), key), other) == count(m, other),
        count(after_inc(after_dec(m, key), key), other) == count(m, other),
{
}

} // verus!
