//! A map keyed by text.

use vstd::prelude::*;

use crate::text::same_text;

verus! {

/// A map from text to values, with each key present once.
pub struct TextMap<V> {
    entries: Vec<(String, V)>,
}

/// Whether the entry at `i` has the key.
spec fn key_at<V>(entries: Seq<(String, V)>, key: Seq<char>, i: int) -> bool {
    0 <= i < entries.len() && entries[i].0@ == key
}

/// The map that a list of entries stands for.
spec fn as_map<V>(entries: Seq<(String, V)>) -> Map<Seq<char>, V> {
    Map::new(
        |key: Seq<char>| exists|i: int| key_at(entries, key, i),
        |key: Seq<char>| entries[choose|i: int| key_at(entries, key, i)].1,
    )
}

/// No two entries have the same key.
spec fn distinct_keys<V>(entries: Seq<(String, V)>) -> bool {
    forall|i: int, j: int|
        0 <= i < j < entries.len() ==> (#[trigger] entries[i]).0@ != (#[trigger] entries[j]).0@
}

proof fn lemma_entry<V>(entries: Seq<(String, V)>, i: int)
    requires
        distinct_keys(entries),
        0 <= i < entries.len(),
    ensures
        as_map(entries).dom().contains(entries[i].0@),
        as_map(entries)[entries[i].0@] == entries[i].1,
{
    let key = entries[i].0@;
    assert(key_at(entries, key, i));
    let found = choose|j: int| key_at(entries, key, j);
    assert(key_at(entries, key, found));
    if found < i {
        assert(entries[found].0@ != entries[i].0@);
    } else if i < found {
        assert(entries[i].0@ != entries[found].0@);
    }
}

impl<V> View for TextMap<V> {
    type V = Map<Seq<char>, V>;

    closed spec fn view(&self) -> Map<Seq<char>, V> {
        as_map(self.entries@)
    }
}

impl<V> TextMap<V> {
    #[verifier::type_invariant]
    spec fn distinct(&self) -> bool {
        distinct_keys(self.entries@)
    }

    /// The empty map.
    pub fn new() -> (r: TextMap<V>)
        ensures
            r@ == Map::<Seq<char>, V>::empty(),
    {
        let r = TextMap { entries: Vec::new() };
        proof {
            assert(r@ =~= Map::<Seq<char>, V>::empty());
        }
        r
    }

    /// The index of the key's entry, or the number of entries.
    fn find(&self, key: &str) -> (r: usize)
        ensures
            r <= self.entries@.len(),
            (r < self.entries@.len()) == self@.dom().contains(key@),
            r < self.entries@.len() ==> self.entries@[r as int].0@ == key@ && self@[key@]
                == self.entries@[r as int].1,
    {
        proof {
            use_type_invariant(self);
        }
        let mut i: usize = 0;
        while i < self.entries.len()
            invariant
                0 <= i <= self.entries@.len(),
                distinct_keys(self.entries@),
                forall|j: int| 0 <= j < i ==> (#[trigger] self.entries@[j]).0@ != key@,
            decreases self.entries@.len() - i,
        {
            if same_text(self.entries[i].0.as_str(), key) {
                proof {
                    lemma_entry(self.entries@, i as int);
                }
                return i;
            }
            i = i + 1;
        }
        proof {
            assert(!self@.dom().contains(key@)) by {
                if self@.dom().contains(key@) {
                    let j = choose|j: int| key_at(self.entries@, key@, j);
                    assert(self.entries@[j].0@ != key@);
                }
            }
        }
        i
    }

    /// The value under a key.
    pub fn get(&self, key: &str) -> (r: Option<&V>)
        ensures
            r is Some == self@.dom().contains(key@),
            r matches Some(value) ==> *value == self@[key@],
    {
        proof {
            use_type_invariant(self);
        }
        let i: usize = self.find(key);
        if i < self.entries.len() {
            Some(&self.entries[i].1)
        } else {
            None
        }
    }

    /// Whether the key has a value.
    pub fn contains_key(&self, key: &str) -> (r: bool)
        ensures
            r == self@.dom().contains(key@),
    {
        let i: usize = self.find(key);
        i < self.entries.len()
    }

    /// Take the value under a key out.
    pub fn remove(&mut self, key: &str) -> (r: Option<V>)
        ensures
            final(self)@ == old(self)@.remove(key@),
            r is Some == old(self)@.dom().contains(key@),
            r matches Some(value) ==> value == old(self)@[key@],
    {
        proof {
            use_type_invariant(&*self);
        }
        let i: usize = self.find(key);
        if i == self.entries.len() {
            proof {
                assert(old(self)@.remove(key@) =~= old(self)@);
            }
            return None;
        }
        let ghost before = self.entries@;
        let mut entries: Vec<(String, V)> = Vec::new();
        std::mem::swap(&mut entries, &mut self.entries);
        let entry = entries.remove(i);
        proof {
            let after = entries@;
            assert(after =~= before.remove(i as int));
            assert forall|a: int, b: int| 0 <= a < b < after.len() implies (
            #[trigger] after[a]).0@ != (#[trigger] after[b]).0@ by {
                let a0 = if a < i { a } else { a + 1 };
                let b0 = if b < i { b } else { b + 1 };
                assert(after[a] == before[a0]);
                assert(after[b] == before[b0]);
            }
            lemma_removed(before, i as int);
        }
        self.entries = entries;
        Some(entry.1)
    }

    /// Put a value under a key; an earlier value of that key is given back.
    pub fn insert(&mut self, key: String, value: V) -> (r: Option<V>)
        ensures
            final(self)@ == old(self)@.insert(key@, value),
            r is Some == old(self)@.dom().contains(key@),
            r matches Some(earlier) ==> earlier == old(self)@[key@],
    {
        let earlier = self.remove(key.as_str());
        proof {
            use_type_invariant(&*self);
        }
        let ghost before = self.entries@;
        let mut entries: Vec<(String, V)> = Vec::new();
        std::mem::swap(&mut entries, &mut self.entries);
        entries.push((key, value));
        proof {
            assert(!as_map(before).dom().contains(key@));
            assert forall|a: int, b: int| 0 <= a < b < entries@.len() implies (
            #[trigger] entries@[a]).0@ != (#[trigger] entries@[b]).0@ by {
                if b == before.len() {
                    if entries@[a].0@ == key@ {
                        assert(key_at(before, key@, a));
                    }
                }
            }
            lemma_pushed(before, (key, value));
            assert(as_map(entries@) =~= old(self)@.insert(key@, value));
        }
        self.entries = entries;
        earlier
    }

    /// The keys, each once, in no particular order.
    pub fn keys(&self) -> (r: Vec<String>)
        ensures
            forall|i: int| 0 <= i < r@.len() ==> self@.dom().contains((#[trigger] r@[i])@),
            forall|key: Seq<char>|
                self@.dom().contains(key) ==> exists|i: int|
                    0 <= i < r@.len() && (#[trigger] r@[i])@ == key,
            forall|i: int, j: int|
                0 <= i < j < r@.len() ==> (#[trigger] r@[i])@ != (#[trigger] r@[j])@,
            self@.dom() == texts_set(r@),
    {
        proof {
            use_type_invariant(self);
        }
        let mut r: Vec<String> = Vec::new();
        let mut i: usize = 0;
        while i < self.entries.len()
            invariant
                0 <= i <= self.entries@.len(),
                distinct_keys(self.entries@),
                r@.len() == i,
                forall|j: int| 0 <= j < i ==> (#[trigger] r@[j])@ == self.entries@[j].0@,
            decreases self.entries@.len() - i,
        {
            r.push(self.entries[i].0.clone());
            i = i + 1;
        }
        proof {
            assert forall|j: int| 0 <= j < r@.len() implies self@.dom().contains(
                (#[trigger] r@[j])@,
            ) by {
                lemma_entry(self.entries@, j);
            }
            assert forall|key: Seq<char>| self@.dom().contains(key) implies exists|j: int|
                0 <= j < r@.len() && (#[trigger] r@[j])@ == key by {
                let j = choose|j: int| key_at(self.entries@, key, j);
                assert(r@[j]@ == key);
            }
            assert(self@.dom() =~= texts_set(r@));
        }
        r
    }

    /// Take the values under several keys out.
    pub fn remove_all(&mut self, keys: &Vec<String>)
        ensures
            final(self)@ == old(self)@.remove_keys(texts_set(keys@)),
    {
        let ghost before = self@;
        let mut i: usize = 0;
        proof {
            assert(texts_set(keys@.take(0)) =~= Set::<Seq<char>>::empty());
            assert(self@ =~= before.remove_keys(texts_set(keys@.take(0))));
        }
        while i < keys.len()
            invariant
                0 <= i <= keys@.len(),
                self@ == before.remove_keys(texts_set(keys@.take(i as int))),
            decreases keys@.len() - i,
        {
            let ghost kept = self@;
            let _ = self.remove(keys[i].as_str());
            proof {
                let done = keys@.take(i as int);
                let more = keys@.take(i as int + 1);
                lemma_texts_set_push(done, keys@[i as int]);
                assert(more =~= done.push(keys@[i as int]));
                assert(self@ =~= before.remove_keys(texts_set(more)));
            }
            i = i + 1;
        }
        proof {
            assert(keys@.take(i as int) =~= keys@);
        }
    }
}

/// Whether a list of strings holds a text.
pub open spec fn has_text(strings: Seq<String>, text: Seq<char>) -> bool {
    exists|i: int| 0 <= i < strings.len() && (#[trigger] strings[i])@ == text
}

/// The texts of a list of strings.
pub open spec fn texts_set(strings: Seq<String>) -> Set<Seq<char>> {
    Set::new(|text: Seq<char>| has_text(strings, text))
}

/// No text stands twice in a list of strings.
pub open spec fn distinct_texts(strings: Seq<String>) -> bool {
    forall|i: int, j: int|
        0 <= i < j < strings.len() ==> (#[trigger] strings[i])@ != (#[trigger] strings[j])@
}

/// One more string adds its text.
pub proof fn lemma_texts_set_push(strings: Seq<String>, last: String)
    ensures
        texts_set(strings.push(last)) == texts_set(strings).insert(last@),
{
    let all = strings.push(last);
    assert forall|text: Seq<char>| #[trigger]
        texts_set(all).contains(text) == texts_set(strings).insert(last@).contains(text) by {
        if has_text(all, text) {
            let i = choose|i: int| 0 <= i < all.len() && (#[trigger] all[i])@ == text;
            if i < strings.len() {
                assert(strings[i]@ == text);
            }
        }
        if has_text(strings, text) {
            let i = choose|i: int| 0 <= i < strings.len() && (#[trigger] strings[i])@ == text;
            assert(all[i]@ == text);
        }
        if text == last@ {
            assert(all[strings.len() as int]@ == text);
        }
    }
    assert(texts_set(all) =~= texts_set(strings).insert(last@));
}

/// Distinct texts are as many as the strings that hold them.
pub proof fn lemma_texts_set_len(strings: Seq<String>)
    requires
        distinct_texts(strings),
    ensures
        texts_set(strings).finite(),
        texts_set(strings).len() == strings.len(),
    decreases strings.len(),
{
    if strings.len() == 0 {
        assert(texts_set(strings) =~= Set::<Seq<char>>::empty());
    } else {
        let init = strings.drop_last();
        assert(distinct_texts(init)) by {
            assert forall|i: int, j: int| 0 <= i < j < init.len() implies (#[trigger] init[i])@ != (
            #[trigger] init[j])@ by {
                assert(init[i] == strings[i] && init[j] == strings[j]);
            }
        }
        lemma_texts_set_len(init);
        lemma_texts_set_push(init, strings.last());
        assert(strings =~= init.push(strings.last()));
        assert(!texts_set(init).contains(strings.last()@)) by {
            if has_text(init, strings.last()@) {
                let i = choose|i: int|
                    0 <= i < init.len() && (#[trigger] init[i])@ == strings.last()@;
                assert(strings[i]@ != strings[strings.len() - 1]@);
            }
        }
    }
}

proof fn lemma_removed<V>(entries: Seq<(String, V)>, i: int)
    requires
        distinct_keys(entries),
        0 <= i < entries.len(),
    ensures
        as_map(entries.remove(i)) == as_map(entries).remove(entries[i].0@),
{
    let key = entries[i].0@;
    let after = entries.remove(i);
    let left = as_map(after);
    let right = as_map(entries).remove(key);
    assert(distinct_keys(after)) by {
        assert forall|a: int, b: int| 0 <= a < b < after.len() implies (#[trigger] after[a]).0@ != (
        #[trigger] after[b]).0@ by {
            let a0 = if a < i { a } else { a + 1 };
            let b0 = if b < i { b } else { b + 1 };
            assert(after[a] == entries[a0]);
            assert(after[b] == entries[b0]);
        }
    }
    assert forall|k: Seq<char>| left.dom().contains(k) implies #[trigger] right.dom().contains(k)
        && left[k] == right[k] by {
        let j = choose|j: int| key_at(after, k, j);
        let j0 = if j < i { j } else { j + 1 };
        assert(after[j] == entries[j0]);
        lemma_entry(entries, j0);
        lemma_entry(after, j);
        if j0 < i {
            assert(entries[j0].0@ != entries[i].0@);
        } else {
            assert(entries[i].0@ != entries[j0].0@);
        }
    }
    assert forall|k: Seq<char>| right.dom().contains(k) implies #[trigger] left.dom().contains(
        k,
    ) by {
        let j0 = choose|j: int| key_at(entries, k, j);
        assert(j0 != i);
        let j = if j0 < i { j0 } else { j0 - 1 };
        assert(after[j] == entries[j0]);
        lemma_entry(after, j);
    }
    assert(left =~= right);
}

proof fn lemma_pushed<V>(entries: Seq<(String, V)>, entry: (String, V))
    requires
        distinct_keys(entries),
        !as_map(entries).dom().contains(entry.0@),
        distinct_keys(entries.push(entry)),
    ensures
        as_map(entries.push(entry)) == as_map(entries).insert(entry.0@, entry.1),
{
    let after = entries.push(entry);
    let left = as_map(after);
    let right = as_map(entries).insert(entry.0@, entry.1);
    assert forall|k: Seq<char>| left.dom().contains(k) implies #[trigger] right.dom().contains(k)
        && left[k] == right[k] by {
        let j = choose|j: int| key_at(after, k, j);
        lemma_entry(after, j);
        if j < entries.len() {
            assert(after[j] == entries[j]);
            lemma_entry(entries, j);
        }
    }
    assert forall|k: Seq<char>| right.dom().contains(k) implies #[trigger] left.dom().contains(
        k,
    ) by {
        if k == entry.0@ {
            lemma_entry(after, entries.len() as int);
        } else {
            let j = choose|j: int| key_at(entries, k, j);
            assert(after[j] == entries[j]);
            lemma_entry(after, j);
        }
    }
    assert(left =~= right);
}

} // verus!
