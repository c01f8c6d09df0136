//! A small map keyed by text: reminder ids to timestamps, window labels to
//! flags.

use vstd::prelude::*;

verus! {

/// The map that a list of (id, time) entries denotes: a later entry for the
/// same id wins.
pub open spec fn entries_map<V>(s: Seq<(String, V)>) -> Map<Seq<char>, V>
    decreases s.len(),
{
    if s.len() == 0 {
        Map::empty()
    } else {
        entries_map(s.drop_last()).insert(s.last().0@, s.last().1)
    }
}

pub open spec fn without_id<V>(s: Seq<(String, V)>, id: Seq<char>) -> Seq<(String, V)>
    decreases s.len(),
{
    if s.len() == 0 {
        seq![]
    } else {
        let rest = without_id(s.drop_last(), id);
        if s.last().0@ == id {
            rest
        } else {
            rest.push(s.last())
        }
    }
}

proof fn lemma_without_id<V>(s: Seq<(String, V)>, id: Seq<char>)
    ensures
        entries_map(without_id(s, id)) =~= entries_map(s).remove(id),
    decreases s.len(),
{
    if s.len() > 0 {
        lemma_without_id(s.drop_last(), id);
        let rest = without_id(s.drop_last(), id);
        if s.last().0@ != id {
            assert(rest.push(s.last()).drop_last() =~= rest);
        }
    }
}

proof fn lemma_entries_map_suffix<V>(s: Seq<(String, V)>, id: Seq<char>, i: int)
    requires
        0 <= i <= s.len(),
        forall|j: int| i <= j < s.len() ==> (#[trigger] s[j]).0@ != id,
    ensures
        entries_map(s).contains_key(id) == entries_map(s.take(i)).contains_key(id),
        entries_map(s).contains_key(id) ==> entries_map(s)[id] == entries_map(s.take(i))[id],
    decreases s.len() - i,
{
    if i < s.len() {
        lemma_entries_map_suffix(s, id, i + 1);
        assert(s.take(i + 1).drop_last() =~= s.take(i));
        assert(s.take(i + 1).last() == s[i]);
    } else {
        assert(s.take(i) =~= s);
    }
}

/// Values keyed by text.
pub struct Table<V> {
    entries: Vec<(String, V)>,
}

/// Timestamps keyed by reminder id.
pub type TimeTable = Table<i64>;

impl<V> View for Table<V> {
    type V = Map<Seq<char>, V>;

    closed spec fn view(&self) -> Map<Seq<char>, V> {
        entries_map(self.entries@)
    }
}

impl<V: Copy> Table<V> {
    pub fn new() -> (r: Self)
        ensures
            r@ == Map::<Seq<char>, V>::empty(),
    {
        Table { entries: Vec::new() }
    }

    /// The time recorded for `id`, if any.
    pub fn get(&self, id: &str) -> (r: Option<V>)
        ensures
            r == (if self@.contains_key(id@) {
                Some(self@[id@])
            } else {
                None
            }),
    {
        let key = String::from_str(id);
        let mut i = self.entries.len();
        while i > 0
            invariant
                i <= self.entries@.len(),
                key@ == id@,
                forall|j: int| i <= j < self.entries@.len() ==> (#[trigger] self.entries@[j]).0@ != id@,
            decreases i,
        {
            if self.entries[i - 1].0 == key {
                proof {
                    let s = self.entries@;
                    lemma_entries_map_suffix(s, id@, i as int);
                    assert(s.take(i as int).drop_last() =~= s.take(i - 1));
                    assert(s.take(i as int).last() == s[i - 1]);
                }
                return Some(self.entries[i - 1].1);
            }
            i = i - 1;
        }
        proof {
            lemma_entries_map_suffix(self.entries@, id@, 0);
            assert(self.entries@.take(0) =~= Seq::<(String, V)>::empty());
        }
        None
    }

    /// Removes the time recorded for `id`.
    pub fn remove(&mut self, id: &str)
        ensures
            final(self)@ == old(self)@.remove(id@),
    {
        let key = String::from_str(id);
        let mut kept: Vec<(String, V)> = Vec::new();
        let n = self.entries.len();
        let mut i: usize = 0;
        while i < n
            invariant
                n == self.entries@.len(),
                i <= n,
                key@ == id@,
                kept@ == without_id(self.entries@.take(i as int), id@),
            decreases n - i,
        {
            proof {
                assert(self.entries@.take(i + 1).drop_last() =~= self.entries@.take(i as int));
                assert(self.entries@.take(i + 1).last() == self.entries@[i as int]);
            }
            if self.entries[i].0 != key {
                let e = (self.entries[i].0.clone(), self.entries[i].1);
                kept.push(e);
            }
            i = i + 1;
        }
        proof {
            assert(self.entries@.take(n as int) =~= self.entries@);
            lemma_without_id(self.entries@, id@);
        }
        self.entries = kept;
    }

    /// Records `at` for `id`, replacing any earlier time.
    pub fn set(&mut self, id: &str, at: V)
        ensures
            final(self)@ == old(self)@.insert(id@, at),
    {
        self.remove(id);
        let ghost prev = self.entries@;
        self.entries.push((String::from_str(id), at));
        assert(self.entries@.drop_last() =~= prev);
        assert(self@ =~= old(self)@.insert(id@, at));
    }
}

proof fn lemma_entries_map_witness<V>(s: Seq<(String, V)>, k: Seq<char>)
    requires
        entries_map(s).contains_key(k),
    ensures
        exists|i: int| 0 <= i < s.len() && (#[trigger] s[i]).0@ == k && s[i].1 == entries_map(s)[k],
    decreases s.len(),
{
    if s.last().0@ == k {
        assert(s[s.len() - 1].0@ == k);
    } else {
        lemma_entries_map_witness(s.drop_last(), k);
        let i = choose|i: int|
            0 <= i < s.drop_last().len() && (#[trigger] s.drop_last()[i]).0@ == k && s.drop_last()[i].1
                == entries_map(s.drop_last())[k];
        assert(s[i] == s.drop_last()[i]);
    }
}

/// Whether some id holds the value `true`.
pub open spec fn any_set(m: Map<Seq<char>, bool>) -> bool {
    exists|k: Seq<char>| m.contains_key(k) && #[trigger] m[k]
}

/// Flags keyed by window label.
pub type WindowFlags = Table<bool>;

impl Table<bool> {
    /// The flag of a window; a window never set counts as unset.
    pub fn flag(&self, label: &str) -> (r: bool)
        ensures
            r == (self@.contains_key(label@) && self@[label@]),
    {
        match self.get(label) {
            Some(v) => v,
            None => false,
        }
    }

    /// Whether any window has its flag set.
    pub fn any(&self) -> (r: bool)
        ensures
            r == any_set(self@),
    {
        let n = self.entries.len();
        let mut i: usize = 0;
        while i < n
            invariant
                n == self.entries@.len(),
                i <= n,
                forall|j: int|
                    0 <= j < i ==> !((#[trigger] self.entries@[j]).1 && self@.contains_key(
                        self.entries@[j].0@,
                    ) && self@[self.entries@[j].0@]),
            decreases n - i,
        {
            if self.entries[i].1 {
                if self.flag(self.entries[i].0.as_str()) {
                    return true;
                }
            }
            i = i + 1;
        }
        proof {
            if any_set(self@) {
                let k = choose|k: Seq<char>| self@.contains_key(k) && #[trigger] self@[k];
                lemma_entries_map_witness(self.entries@, k);
                let w = choose|w: int|
                    0 <= w < self.entries@.len() && (#[trigger] self.entries@[w]).0@ == k
                        && self.entries@[w].1 == entries_map(self.entries@)[k];
                assert(!(self.entries@[w].1 && self@.contains_key(self.entries@[w].0@)
                    && self@[self.entries@[w].0@]));
            }
        }
        false
    }
}

} // verus!
