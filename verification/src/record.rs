//! A record: named fields, each holding one value.
use vstd::prelude::*;

use crate::text::{owned, str_eq};
use crate::value::Value;

verus! {

/// A record maps field names to values; each name occurs at most once.
#[derive(Debug)]
pub struct Record {
    pub(crate) fields: Vec<(String, Value)>,
}

/// No name occurs twice among the entries.
pub open spec fn distinct_names(s: Seq<(String, Value)>) -> bool {
    forall|i: int, j: int|
        0 <= i < s.len() && 0 <= j < s.len() && i != j ==> #[trigger] s[i].0@ != #[trigger] s[j].0@
}

/// Some entry is named `key`.
pub open spec fn has_name(s: Seq<(String, Value)>, key: Seq<char>) -> bool {
    exists|i: int| 0 <= i < s.len() && #[trigger] s[i].0@ == key
}

/// The position of the entry named `key`.
pub open spec fn name_index(s: Seq<(String, Value)>, key: Seq<char>) -> int {
    choose|i: int| 0 <= i < s.len() && #[trigger] s[i].0@ == key
}

/// The map that a sequence of entries with distinct names stands for.
pub open spec fn entries_map(s: Seq<(String, Value)>) -> Map<Seq<char>, Value> {
    Map::new(|k: Seq<char>| has_name(s, k), |k: Seq<char>| s[name_index(s, k)].1)
}

/// In a sequence with distinct names, the entry named `s[i].0` is at `i`.
pub proof fn lemma_entry_lookup(s: Seq<(String, Value)>, i: int)
    requires
        distinct_names(s),
        0 <= i < s.len(),
    ensures
        entries_map(s).dom().contains(s[i].0@),
        entries_map(s)[s[i].0@] == s[i].1,
        name_index(s, s[i].0@) == i,
{
    assert(has_name(s, s[i].0@));
    let j = name_index(s, s[i].0@);
    assert(s[j].0@ == s[i].0@);
}

impl Record {
    #[verifier::type_invariant]
    spec fn names_are_distinct(&self) -> bool {
        distinct_names(self.fields@)
    }

    pub closed spec fn entries(&self) -> Seq<(String, Value)> {
        self.fields@
    }

    /// An empty record.
    pub fn new() -> (r: Record)
        ensures
            r@ == Map::<Seq<char>, Value>::empty(),
    {
        let r = Record { fields: Vec::new() };
        proof {
            assert(entries_map(r.fields@) =~= Map::<Seq<char>, Value>::empty());
        }
        r
    }

    /// The position of the field named `key`, if there is one.
    fn position(&self, key: &str) -> (r: Option<usize>)
        ensures
            match r {
                Some(i) => i < self.fields.len() && self.fields@[i as int].0@ == key@,
                None => !has_name(self.fields@, key@),
            },
    {
        let mut i: usize = 0;
        while i < self.fields.len()
            invariant
                i <= self.fields.len(),
                forall|j: int| 0 <= j < i ==> #[trigger] self.fields@[j].0@ != key@,
            decreases self.fields.len() - i,
        {
            if str_eq(self.fields[i].0.as_str(), key) {
                return Some(i);
            }
            i = i + 1;
        }
        None
    }

    /// Sets the field `key` to `value`, replacing any value it held.
    pub fn insert(&mut self, key: &str, value: Value)
        ensures
            final(self)@ == old(self)@.insert(key@, value),
    {
        proof {
            use_type_invariant(&*self);
        }
        let ghost before = self.fields@;
        let found = self.position(key);
        let mut fields: Vec<(String, Value)> = Vec::new();
        std::mem::swap(&mut fields, &mut self.fields);
        match found {
            Some(i) => {
                fields.set(i, (owned(key), value));
                proof {
                    let after = fields@;
                    assert forall|k: Seq<char>| has_name(after, k) <==> has_name(before, k) by {
                        if has_name(before, k) {
                            let j = name_index(before, k);
                            if j == i {
                                assert(after[i as int].0@ == k);
                            } else {
                                assert(after[j].0@ == k);
                            }
                        }
                        if has_name(after, k) {
                            let j = name_index(after, k);
                            if j == i {
                                assert(before[i as int].0@ == k);
                            } else {
                                assert(before[j].0@ == k);
                            }
                        }
                    }
                    assert(distinct_names(after));
                    lemma_entry_lookup(after, i as int);
                    assert forall|k: Seq<char>| #[trigger]
                        entries_map(after).dom().contains(k) && k != key@ implies entries_map(
                        after,
                    )[k] == entries_map(before)[k] by {
                        let j = name_index(after, k);
                        lemma_entry_lookup(after, j);
                        lemma_entry_lookup(before, j);
                    }
                    assert(entries_map(after) =~= entries_map(before).insert(key@, value));
                }
            },
            None => {
                fields.push((owned(key), value));
                proof {
                    let after = fields@;
                    let n = before.len() as int;
                    assert forall|a: int, b: int|
                        0 <= a < after.len() && 0 <= b < after.len() && a != b implies #[trigger] after[a].0@
                        != #[trigger] after[b].0@ by {
                        if a == n {
                            assert(before[b].0@ == after[b].0@);
                        } else if b == n {
                            assert(before[a].0@ == after[a].0@);
                        } else {
                            assert(before[a] == after[a] && before[b] == after[b]);
                        }
                    }
                    assert forall|k: Seq<char>| has_name(after, k) <==> (has_name(before, k) || k
                        == key@) by {
                        if has_name(before, k) {
                            let j = name_index(before, k);
                            assert(after[j].0@ == k);
                        }
                        if k == key@ {
                            assert(after[n].0@ == k);
                        }
                        if has_name(after, k) {
                            let j = name_index(after, k);
                            if j < n {
                                assert(before[j].0@ == k);
                            }
                        }
                    }
                    lemma_entry_lookup(after, n);
                    assert forall|k: Seq<char>| #[trigger]
                        entries_map(after).dom().contains(k) && k != key@ implies entries_map(
                        after,
                    )[k] == entries_map(before)[k] by {
                        let j = name_index(after, k);
                        lemma_entry_lookup(after, j);
                        assert(j != n);
                        lemma_entry_lookup(before, j);
                    }
                    assert(entries_map(after) =~= entries_map(before).insert(key@, value));
                }
            },
        }
        self.fields = fields;
    }

    /// The value of the field `key`, if the record has it.
    pub fn get(&self, key: &str) -> (r: Option<&Value>)
        ensures
            match r {
                Some(v) => self@.dom().contains(key@) && self@[key@] == *v,
                None => !self@.dom().contains(key@),
            },
    {
        proof {
            use_type_invariant(self);
        }
        match self.position(key) {
            Some(i) => {
                proof {
                    lemma_entry_lookup(self.fields@, i as int);
                }
                Some(&self.fields[i].1)
            },
            None => None,
        }
    }

    /// Removes the field `key` and returns the value it held.
    pub fn remove(&mut self, key: &str) -> (r: Option<Value>)
        ensures
            final(self)@ == old(self)@.remove(key@),
            match r {
                Some(v) => old(self)@.dom().contains(key@) && old(self)@[key@] == v,
                None => !old(self)@.dom().contains(key@),
            },
    {
        proof {
            use_type_invariant(&*self);
        }
        let ghost before = self.fields@;
        match self.position(key) {
            Some(i) => {
                let mut fields: Vec<(String, Value)> = Vec::new();
                std::mem::swap(&mut fields, &mut self.fields);
                let (_, value) = fields.remove(i);
                proof {
                    let after = fields@;
                    lemma_entry_lookup(before, i as int);
                    assert forall|a: int, b: int|
                        0 <= a < after.len() && 0 <= b < after.len() && a != b implies #[trigger] after[a].0@
                        != #[trigger] after[b].0@ by {
                        let a2 = if a < i { a } else { a + 1 };
                        let b2 = if b < i { b } else { b + 1 };
                        assert(after[a] == before[a2]);
                        assert(after[b] == before[b2]);
                    }
                    assert forall|k: Seq<char>| has_name(after, k) <==> (has_name(before, k) && k
                        != key@) by {
                        if has_name(before, k) && k != key@ {
                            let j = name_index(before, k);
                            if j < i {
                                assert(after[j].0@ == k);
                            } else {
                                assert(j != i);
                                assert(after[j - 1].0@ == k);
                            }
                        }
                        if has_name(after, k) {
                            let j = name_index(after, k);
                            let j2 = if j < i { j } else { j + 1 };
                            assert(before[j2].0@ == k);
                            assert(j2 != i);
                        }
                    }
                    assert forall|k: Seq<char>| #[trigger]
                        entries_map(after).dom().contains(k) implies entries_map(after)[k]
                        == entries_map(before)[k] by {
                        let j = name_index(after, k);
                        lemma_entry_lookup(after, j);
                        let j2 = if j < i { j } else { j + 1 };
                        assert(before[j2] == after[j]);
                        lemma_entry_lookup(before, j2);
                    }
                    assert(entries_map(after) =~= entries_map(before).remove(key@));
                }
                self.fields = fields;
                Some(value)
            },
            None => {
                proof {
                    assert(entries_map(before) =~= entries_map(before).remove(key@));
                }
                None
            },
        }
    }

    /// The fields of the record as name and value pairs, each name once.
    pub fn fields(&self) -> (r: &Vec<(String, Value)>)
        ensures
            distinct_names(r@),
            self@ == entries_map(r@),
    {
        proof {
            use_type_invariant(self);
        }
        &self.fields
    }

    /// The number of fields.
    pub fn len(&self) -> (r: usize)
        ensures
            r == self@.len(),
    {
        proof {
            use_type_invariant(self);
            lemma_entries_len(self.fields@);
        }
        self.fields.len()
    }

    /// Whether the record has no fields.
    pub fn is_empty(&self) -> (r: bool)
        ensures
            r == (self@ == Map::<Seq<char>, Value>::empty()),
    {
        proof {
            use_type_invariant(self);
            if self.fields.len() > 0 {
                lemma_entry_lookup(self.fields@, 0);
            } else {
                assert(entries_map(self.fields@) =~= Map::<Seq<char>, Value>::empty());
            }
        }
        self.fields.len() == 0
    }
}

/// The names among `names`, as characters.
pub open spec fn name_set(names: Seq<String>) -> Set<Seq<char>> {
    Set::new(|k: Seq<char>| exists|i: int| 0 <= i < names.len() && #[trigger] names[i]@ == k)
}

/// Whether `key` is among `names`.
pub fn contains_name(names: &Vec<String>, key: &str) -> (r: bool)
    ensures
        r == name_set(names@).contains(key@),
{
    let mut i: usize = 0;
    while i < names.len()
        invariant
            i <= names.len(),
            forall|j: int| 0 <= j < i ==> #[trigger] names@[j]@ != key@,
        decreases names.len() - i,
    {
        if str_eq(names[i].as_str(), key) {
            return true;
        }
        i = i + 1;
    }
    false
}

/// Keeps the entries whose name is in `keep`.
pub open spec fn keep_named(keep: Set<Seq<char>>) -> spec_fn((String, Value)) -> bool {
    |e: (String, Value)| keep.contains(e.0@)
}

/// Filtering entries with distinct names by name keeps the names distinct
/// and restricts the map they stand for to the kept names.
pub proof fn lemma_filter_entries(s: Seq<(String, Value)>, keep: Set<Seq<char>>)
    requires
        distinct_names(s),
    ensures
        distinct_names(s.filter(keep_named(keep))),
        entries_map(s.filter(keep_named(keep))) == entries_map(s).restrict(keep),
    decreases s.len(),
{
    let p = keep_named(keep);
    let f = s.filter(p);
    reveal(Seq::filter);
    if s.len() > 0 {
        let t = s.drop_last();
        let last = s.last();
        lemma_filter_entries(t, keep);
        let g = t.filter(p);
        if p(last) {
            assert(f == g.push(last));
            assert forall|a: int, b: int|
                0 <= a < f.len() && 0 <= b < f.len() && a != b implies #[trigger] f[a].0@
                != #[trigger] f[b].0@ by {
                if a == g.len() || b == g.len() {
                    let other = if a == g.len() { b } else { a };
                    assert(g.contains(g[other]));
                    t.lemma_filter_contains_rev(p, g[other]);
                    let i = choose|i: int| 0 <= i < t.len() && t[i] == g[other];
                    assert(s[i] == t[i]);
                    assert(s[s.len() - 1] == last);
                } else {
                    assert(f[a] == g[a] && f[b] == g[b]);
                }
            }
        }
    }
    broadcast use Seq::lemma_filter_contains_rev, Seq::lemma_filter_contains;
    assert forall|k: Seq<char>| has_name(f, k) <==> (has_name(s, k) && keep.contains(k)) by {
        if has_name(f, k) {
            let j = name_index(f, k);
            assert(f.contains(f[j]));
            s.lemma_filter_contains_rev(p, f[j]);
            let i = choose|i: int| 0 <= i < s.len() && s[i] == f[j];
            assert(s[i].0@ == k);
            s.lemma_filter_pred(p, j);
        }
        if has_name(s, k) && keep.contains(k) {
            let i = name_index(s, k);
            s.lemma_filter_contains(p, i);
            let j = choose|j: int| 0 <= j < f.len() && f[j] == s[i];
            assert(f[j].0@ == k);
        }
    }
    assert forall|k: Seq<char>| #[trigger] entries_map(f).dom().contains(k) implies entries_map(f)[k]
        == entries_map(s)[k] by {
        let j = name_index(f, k);
        lemma_entry_lookup(f, j);
        assert(f.contains(f[j]));
        s.lemma_filter_contains_rev(p, f[j]);
        let i = choose|i: int| 0 <= i < s.len() && s[i] == f[j];
        lemma_entry_lookup(s, i);
    }
    assert(entries_map(f) =~= entries_map(s).restrict(keep));
}

impl Record {
    /// Keeps the fields named in `names` and drops the others.
    pub fn retain_names(&mut self, names: &Vec<String>)
        ensures
            final(self)@ == old(self)@.restrict(name_set(names@)),
    {
        proof {
            use_type_invariant(&*self);
        }
        let mut old_fields: Vec<(String, Value)> = Vec::new();
        std::mem::swap(&mut old_fields, &mut self.fields);
        let ghost before = old_fields@;
        let ghost keep = name_set(names@);
        let mut kept: Vec<(String, Value)> = Vec::new();
        for entry in it: old_fields
            invariant
                it.seq() == before,
                keep == name_set(names@),
                kept@ == before.take(it.index()).filter(keep_named(keep)),
        {
            let ghost idx = it.index();
            proof {
                assert(before.take(idx + 1).drop_last() =~= before.take(idx as int));
                reveal(Seq::filter);
            }
            if contains_name(names, entry.0.as_str()) {
                kept.push(entry);
            }
        }
        proof {
            assert(before.take(before.len() as int) =~= before);
            lemma_filter_entries(before, keep);
        }
        self.fields = kept;
    }
}

impl Clone for Record {
    fn clone(&self) -> (r: Record)
        ensures
            r@ == self@,
    {
        proof {
            use_type_invariant(self);
        }
        let mut fields: Vec<(String, Value)> = Vec::new();
        let mut i: usize = 0;
        while i < self.fields.len()
            invariant
                i <= self.fields@.len(),
                distinct_names(self.fields@),
                fields@ == self.fields@.take(i as int),
            decreases self.fields@.len() - i,
        {
            let name = self.fields[i].0.clone();
            let value = self.fields[i].1.clone();
            fields.push((name, value));
            proof {
                assert(fields@ =~= self.fields@.take(i + 1));
            }
            i = i + 1;
        }
        proof {
            assert(fields@ =~= self.fields@);
        }
        Record { fields }
    }
}

impl View for Record {
    type V = Map<Seq<char>, Value>;

    closed spec fn view(&self) -> Map<Seq<char>, Value> {
        entries_map(self.fields@)
    }
}

/// The map of entries with distinct names has one key per entry.
pub proof fn lemma_entries_len(s: Seq<(String, Value)>)
    requires
        distinct_names(s),
    ensures
        entries_map(s).dom().finite(),
        entries_map(s).len() == s.len(),
    decreases s.len(),
{
    if s.len() == 0 {
        assert(entries_map(s).dom() =~= Set::<Seq<char>>::empty());
    } else {
        let t = s.drop_last();
        let last = s.last().0@;
        lemma_entries_len(t);
        assert(entries_map(s).dom() =~= entries_map(t).dom().insert(last)) by {
            assert forall|k: Seq<char>| has_name(s, k) <==> (has_name(t, k) || k == last) by {
                if has_name(s, k) {
                    let j = name_index(s, k);
                    if j < t.len() {
                        assert(t[j].0@ == k);
                    }
                }
                if has_name(t, k) {
                    let j = name_index(t, k);
                    assert(s[j].0@ == k);
                }
                if k == last {
                    assert(s[s.len() - 1].0@ == k);
                }
            }
        }
        assert(!entries_map(t).dom().contains(last)) by {
            if has_name(t, last) {
                let j = name_index(t, last);
                assert(s[j].0@ == s[s.len() - 1].0@);
            }
        }
    }
}

} // verus!
