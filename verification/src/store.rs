//! The in-memory store: integer keys to string values.
use vstd::prelude::*;
use vstd::std_specs::hash::group_hash_axioms;
use vstd::std_specs::iter::IteratorSpec;
use std::collections::HashMap;
use crate::packet::optional_text;
use crate::text::{contains_text, text_contains};
use crate::{CAPACITY, YIELD_FREQ};

verus! {

broadcast use group_hash_axioms;

/// The characters of each string of `values`.
pub open spec fn texts(values: Seq<String>) -> Seq<Seq<char>> {
    values.map_values(|s: String| s@)
}

/// Whether `values` lists the values of `m`, one for each key, in some
/// order.
pub open spec fn is_snapshot_of(values: Seq<Seq<char>>, m: Map<u64, Seq<char>>) -> bool {
    exists|keys: Seq<u64>| lists_values(keys, values, m)
}

/// Whether `keys` holds each key of `m` once and `values` the value of each.
pub open spec fn lists_values(keys: Seq<u64>, values: Seq<Seq<char>>, m: Map<u64, Seq<char>>) -> bool {
    &&& keys.no_duplicates()
    &&& keys.to_set() == m.dom()
    &&& keys.len() == values.len()
    &&& forall|i: int| 0 <= i < keys.len() ==> values[i] == m[#[trigger] keys[i]]
}

/// How many of `values` contain `needle`, by bytes.
pub open spec fn count_matching(values: Seq<Seq<char>>, needle: Seq<char>) -> nat
    decreases values.len(),
{
    if values.len() == 0 {
        0
    } else {
        count_matching(values.drop_last(), needle) + if text_contains(values.last(), needle) {
            1nat
        } else {
            0nat
        }
    }
}

/// The keys of `m` whose value contains `needle`, by bytes.
pub open spec fn matching_keys(m: Map<u64, Seq<char>>, needle: Seq<char>) -> Set<u64> {
    m.dom().filter(|k: u64| text_contains(m[k], needle))
}

/// The value at `key`, if there is one.
pub open spec fn value_at(m: Map<u64, Seq<char>>, key: u64) -> Option<Seq<char>> {
    if m.contains_key(key) {
        Some(m[key])
    } else {
        None
    }
}

/// No more values match than there are.
pub proof fn lemma_count_matching_bound(values: Seq<Seq<char>>, needle: Seq<char>)
    ensures
        count_matching(values, needle) <= values.len(),
    decreases values.len(),
{
    if values.len() > 0 {
        lemma_count_matching_bound(values.drop_last(), needle);
    }
}

/// Counting over one more value adds that value's match.
pub proof fn lemma_count_matching_step(values: Seq<Seq<char>>, needle: Seq<char>, n: int)
    requires
        0 <= n < values.len(),
    ensures
        count_matching(values.take(n + 1), needle) == count_matching(values.take(n), needle)
            + if text_contains(values[n], needle) {
            1nat
        } else {
            0nat
        },
{
    assert(values.take(n + 1).drop_last() =~= values.take(n));
}

/// A scan of a snapshot counts the keys whose value matches: each key is
/// counted once, whatever the order of the snapshot.
pub proof fn lemma_count_matching_keys(
    keys: Seq<u64>,
    values: Seq<Seq<char>>,
    m: Map<u64, Seq<char>>,
    needle: Seq<char>,
)
    requires
        lists_values(keys, values, m),
    ensures
        matching_keys(m, needle).finite(),
        count_matching(values, needle) == matching_keys(m, needle).len(),
    decreases keys.len(),
{
    if keys.len() == 0 {
        assert(m.dom() =~= Set::<u64>::empty());
        assert(matching_keys(m, needle) =~= Set::<u64>::empty());
    } else {
        let last = keys.last();
        let rest_keys = keys.drop_last();
        let rest_values = values.drop_last();
        let rest = m.remove(last);
        assert(keys.to_set().contains(last));
        assert forall|k: u64| rest_keys.to_set().contains(k) <==> rest.dom().contains(k) by {
            if rest_keys.to_set().contains(k) {
                let i = choose|i: int| 0 <= i < rest_keys.len() && rest_keys[i] == k;
                assert(keys[i] == k);
                assert(keys.to_set().contains(k));
            }
            if rest.dom().contains(k) {
                assert(keys.to_set().contains(k));
                let i = choose|i: int| 0 <= i < keys.len() && keys[i] == k;
                assert(rest_keys[i] == k);
            }
        }
        assert(rest_keys.to_set() =~= rest.dom());
        assert forall|i: int| 0 <= i < rest_keys.len() implies rest_values[i] == rest[#[trigger] rest_keys[i]] by {
            assert(keys[i] == rest_keys[i]);
        }
        lemma_count_matching_keys(rest_keys, rest_values, rest, needle);
        let hit = text_contains(m[last], needle);
        assert(values.last() == m[keys[keys.len() - 1]]);
        if hit {
            assert(matching_keys(m, needle) =~= matching_keys(rest, needle).insert(last));
        } else {
            assert(matching_keys(m, needle) =~= matching_keys(rest, needle));
        }
    }
}

/// The mapping from key to value that a run of the server works on.
pub struct Store {
    pub store: HashMap<u64, String>,
}

impl View for Store {
    type V = Map<u64, Seq<char>>;

    open spec fn view(&self) -> Map<u64, Seq<char>> {
        Map::new(|k: u64| self.store@.contains_key(k), |k: u64| self.store@[k]@)
    }
}

impl Store {
    /// A copy of every value, taken in one pass.
    pub fn snapshot(&self) -> (values: Vec<String>)
        ensures
            is_snapshot_of(texts(values@), self@),
    {
        let mut values: Vec<String> = Vec::new();
        let ghost mut keys: Seq<u64> = Seq::empty();
        for entry in it: self.store.iter()
            invariant
                it.seq() == self.store.iter().remaining(),
                it.seq().no_duplicates(),
                values@.len() == it.index(),
                keys.len() == it.index(),
                forall|i: int| 0 <= i < it.index() ==> keys[i] == *(#[trigger] it.seq()[i]).0,
                forall|i: int| 0 <= i < it.index() ==> (#[trigger] values@[i])@ == (*it.seq()[i].1)@,
        {
            proof {
                keys = keys.push(*entry.0);
            }
            values.push(entry.1.clone());
        }
        proof {
            let all = self.store.iter().remaining();
            let m = self@;
            let vals = texts(values@);
            assert(keys.len() == all.len());
            assert forall|i: int, j: int| 0 <= i < keys.len() && 0 <= j < keys.len() && i != j implies keys[i] != keys[j] by {
                assert(self.store@.contains_key(*all[i].0) && self.store@[*all[i].0] == *all[i].1);
                assert(self.store@.contains_key(*all[j].0) && self.store@[*all[j].0] == *all[j].1);
                if keys[i] == keys[j] {
                    assert(all[i] == all[j]);
                }
            }
            assert forall|k: u64| keys.to_set().contains(k) <==> m.dom().contains(k) by {
                if keys.to_set().contains(k) {
                    let i = choose|i: int| 0 <= i < keys.len() && keys[i] == k;
                    assert(self.store@.contains_key(*all[i].0));
                }
                if m.dom().contains(k) {
                    assert(self.store@.contains_key(k));
                    assert(all.contains((&k, &self.store@[k])));
                    let i = choose|i: int| 0 <= i < all.len() && all[i] == (&k, &self.store@[k]);
                    assert(keys[i] == k);
                }
            }
            assert(keys.to_set() =~= m.dom());
            assert forall|i: int| 0 <= i < keys.len() implies vals[i] == m[#[trigger] keys[i]] by {
                assert(self.store@.contains_key(*all[i].0) && self.store@[*all[i].0] == *all[i].1);
            }
            assert(lists_values(keys, vals, m));
        }
        values
    }

    /// Builds the store from a dataset: row `i` becomes the value at key `i`.
    /// Also returns the number of entries.
    pub fn new(rows: Vec<String>) -> (made: (Store, usize))
        ensures
            made.0@ == Map::new(|k: u64| k < rows@.len(), |k: u64| rows@[k as int]@),
            made.1 == rows@.len(),
    {
        let mut rows = rows;
        let ghost all = rows@;
        let len: usize = rows.len();
        let mut store: HashMap<u64, String> = HashMap::with_capacity(CAPACITY);
        while rows.len() > 0
            invariant
                rows@.len() <= all.len(),
                all.len() == len,
                rows@ == all.take(rows@.len() as int),
                forall|k: u64| store@.contains_key(k) <==> rows@.len() <= k < all.len(),
                forall|k: u64| store@.contains_key(k) ==> store@[k] == all[k as int],
            decreases rows@.len(),
        {
            let i: usize = rows.len() - 1;
            let row: String = rows.pop().unwrap();
            store.insert(i as u64, row);
            assert(rows@ =~= all.take(rows@.len() as int));
        }
        let made = Store { store };
        assert(made@ =~= Map::new(|k: u64| k < all.len(), |k: u64| all[k as int]@));
        (made, len)
    }

    /// Reads the value at `key`.
    pub fn lc_read_task(&self, key: u64) -> (value: Option<String>)
        ensures
            optional_text(value) == value_at(self@, key),
    {
        match self.store.get(&key) {
            Some(text) => Some(text.clone()),
            None => None,
        }
    }

    /// Stores `value` at `key` and returns the value that was there.
    pub fn lc_write_task(&mut self, key: u64, value: String) -> (previous: Option<String>)
        ensures
            final(self)@ == old(self)@.insert(key, value@),
            optional_text(previous) == value_at(old(self)@, key),
    {
        let previous: Option<String> = self.store.insert(key, value);
        assert(self@ =~= old(self)@.insert(key, value@));
        previous
    }

    /// Counts the values that contain `substring`, over a snapshot taken at
    /// the start. Every key counts once.
    pub fn be_task(&self, substring: String) -> (freq: usize)
        ensures
            freq == matching_keys(self@, substring@).len(),
    {
        let values: Vec<String> = self.snapshot();
        let ghost snap = texts(values@);
        proof {
            let keys = choose|keys: Seq<u64>| lists_values(keys, snap, self@);
            lemma_count_matching_keys(keys, snap, self@, substring@);
            lemma_count_matching_bound(snap, substring@);
        }
        let ghost needle = substring@;
        let len: usize = values.len();
        assert(snap.len() == len);
        let mut scan: BeScan = BeScan::new(values, substring);
        loop
            invariant
                scan.wf(),
                texts(scan.values@) == snap,
                scan.needle@ == needle,
                count_matching(snap, needle) == matching_keys(self@, needle).len(),
                count_matching(snap, needle) <= snap.len(),
                snap.len() == scan.values@.len(),
                snap.len() <= usize::MAX,
                needle == substring@,
            decreases scan.values@.len() - scan.next,
        {
            match scan.step() {
                ScanStep::Done(freq) => {
                    return freq;
                },
                ScanStep::Yield => {},
            }
        }
    }
}

/// A scan yields after every value whose index is a multiple of this:
/// `2^YIELD_FREQ`.
pub const YIELD_INTERVAL: usize = 32;

/// The yield interval is two to the power of the yield frequency.
pub proof fn lemma_yield_interval()
    ensures
        YIELD_INTERVAL == vstd::arithmetic::power2::pow2(YIELD_FREQ as nat),
{
    vstd::arithmetic::power2::lemma2_to64();
}

/// Where a scan that resumes at index `from` next stops to yield: after
/// the first index from there on that is a multiple of the interval.
pub open spec fn yield_point(from: int) -> int {
    if from % (YIELD_INTERVAL as int) == 0 {
        from
    } else {
        from + (YIELD_INTERVAL - from % (YIELD_INTERVAL as int))
    }
}

/// What one step of a scan ended with.
#[derive(Clone, Copy, Debug, PartialEq, Eq, Structural)]
pub enum ScanStep {
    /// The scan reached a yield point: let other tasks run, then step again.
    Yield,
    /// The scan is over, with this many matches.
    Done(usize),
}

/// A scan in progress over a snapshot. It is advanced step by step, so that
/// whoever drives it can yield between steps.
pub struct BeScan {
    pub values: Vec<String>,
    pub needle: String,
    pub next: usize,
    pub freq: usize,
}

impl BeScan {
    /// The scan has counted exactly the matches among the values before
    /// `next`.
    pub open spec fn wf(&self) -> bool {
        &&& self.next <= self.values@.len()
        &&& self.freq == count_matching(texts(self.values@).take(self.next as int), self.needle@)
    }

    /// A scan of `values` for `needle` that has looked at nothing yet.
    pub fn new(values: Vec<String>, needle: String) -> (scan: BeScan)
        ensures
            scan.wf(),
            scan.values == values,
            scan.needle == needle,
            scan.next == 0,
            scan.freq == 0,
    {
        let scan = BeScan { values, needle, next: 0, freq: 0 };
        assert(texts(scan.values@).take(0) =~= Seq::<Seq<char>>::empty());
        scan
    }

    /// Looks at values from `next` on, up to and including the next one
    /// whose index is a multiple of the yield interval. Stopping there is a
    /// `Yield`; running out of values first is `Done` with the total.
    pub fn step(&mut self) -> (step: ScanStep)
        requires
            old(self).wf(),
        ensures
            final(self).wf(),
            final(self).values == old(self).values,
            final(self).needle == old(self).needle,
            yield_point(old(self).next as int) < old(self).values@.len() ==> step
                == ScanStep::Yield && final(self).next == yield_point(old(self).next as int) + 1,
            yield_point(old(self).next as int) >= old(self).values@.len() ==> step
                == ScanStep::Done(
                count_matching(texts(old(self).values@), old(self).needle@) as usize,
            ) && final(self).next == old(self).values@.len(),
    {
        let len: usize = self.values.len();
        let ghost start = self.next as int;
        while self.next < len
            invariant
                self.wf(),
                self.values == old(self).values,
                self.needle == old(self).needle,
                len == self.values@.len(),
                start == old(self).next,
                start <= self.next <= yield_point(start),
            decreases len - self.next,
        {
            let i: usize = self.next;
            let hit: bool = contains_text(self.values[i].as_str(), self.needle.as_str());
            proof {
                lemma_count_matching_step(texts(self.values@), self.needle@, i as int);
                lemma_count_matching_bound(texts(self.values@).take(i as int), self.needle@);
            }
            if hit {
                self.freq = self.freq + 1;
            }
            self.next = i + 1;
            if i % YIELD_INTERVAL == 0 {
                return ScanStep::Yield;
            }
        }
        assert(texts(self.values@).take(len as int) =~= texts(self.values@));
        ScanStep::Done(self.freq)
    }
}

/// After a write to a key, a read of that key gives the written value.
pub proof fn lemma_read_your_writes(m: Map<u64, Seq<char>>, key: u64, value: Seq<char>)
    ensures
        value_at(m.insert(key, value), key) == Some(value),
{
}

/// Of two writes to one key in a row, the second returns what the first
/// wrote, and only the second value stays.
pub proof fn lemma_write_returns_previous(
    m: Map<u64, Seq<char>>,
    key: u64,
    first: Seq<char>,
    second: Seq<char>,
)
    ensures
        value_at(m.insert(key, first), key) == Some(first),
        m.insert(key, first).insert(key, second) == m.insert(key, second),
{
    assert(m.insert(key, first).insert(key, second) =~= m.insert(key, second));
}

} // verus!
