//! Sets of texts, and values kept under texts.
use crate::text::{same_text, views};
use vstd::prelude::*;

verus! {

/// A set of texts.
pub struct TextSet {
    items: Vec<String>,
}

impl View for TextSet {
    type V = Set<Seq<char>>;

    closed spec fn view(&self) -> Set<Seq<char>> {
        views(self.items@).to_set()
    }
}

/// The place of the first `text` in `texts`, or their number where it is not among them.
pub open spec fn place_of(texts: Seq<Seq<char>>, text: Seq<char>) -> int
    decreases texts.len(),
{
    if texts.len() == 0 || texts[0] == text {
        0
    } else {
        1 + place_of(texts.skip(1), text)
    }
}

/// What `place_of` finds.
pub proof fn place_is_first(texts: Seq<Seq<char>>, text: Seq<char>)
    ensures
        0 <= place_of(texts, text) <= texts.len(),
        place_of(texts, text) < texts.len() ==> texts[place_of(texts, text)] == text,
        forall|j: int| 0 <= j < place_of(texts, text) ==> texts[j] != text,
        place_of(texts, text) < texts.len() <==> texts.contains(text),
    decreases texts.len(),
{
    if texts.len() > 0 && texts[0] != text {
        place_is_first(texts.skip(1), text);
        let p = place_of(texts.skip(1), text);
        assert forall|j: int| 0 <= j < 1 + p implies texts[j] != text by {
            if j > 0 {
                assert(texts.skip(1)[j - 1] == texts[j]);
            }
        }
        if p < texts.skip(1).len() {
            assert(texts[p + 1] == text);
        } else {
            assert forall|j: int| 0 <= j < texts.len() implies texts[j] != text by {}
        }
    } else if texts.len() > 0 {
        assert(texts[0] == text);
    }
}

/// A text that stands at `i` and nowhere before is first there.
pub proof fn first_place(texts: Seq<Seq<char>>, text: Seq<char>, i: int)
    requires
        0 <= i < texts.len(),
        texts[i] == text,
        forall|j: int| 0 <= j < i ==> texts[j] != text,
    ensures
        place_of(texts, text) == i,
{
    place_is_first(texts, text);
}

/// No text stands in `texts` twice.
pub open spec fn all_differ(texts: Seq<Seq<char>>) -> bool {
    forall|i: int, j: int| 0 <= i < j < texts.len() ==> texts[i] != texts[j]
}

/// The place of a text among texts.
pub fn find_text(items: &Vec<String>, text: &str) -> (place: Option<usize>)
    ensures
        match place {
            Some(i) => i < items@.len() && i == place_of(views(items@), text@),
            None => place_of(views(items@), text@) == items@.len(),
        },
        place is Some <==> views(items@).contains(text@),
{
    let mut i: usize = 0;
    while i < items.len()
        invariant
            i <= items.len(),
            forall|j: int| 0 <= j < i ==> views(items@)[j] != text@,
        decreases items.len() - i,
    {
        if same_text(&items[i], text) {
            proof {
                first_place(views(items@), text@, i as int);
                place_is_first(views(items@), text@);
            }
            return Some(i);
        }
        i += 1;
    }
    proof {
        place_is_first(views(items@), text@);
    }
    None
}

/// Whether a text is among texts.
pub fn has_text(items: &Vec<String>, text: &str) -> (yes: bool)
    ensures
        yes == views(items@).contains(text@),
{
    find_text(items, text).is_some()
}

impl TextSet {
    #[verifier::type_invariant]
    spec fn is_lean(self) -> bool {
        all_differ(views(self.items@))
    }

    /// The empty set.
    pub fn new() -> (out: Self)
        ensures
            out@ == Set::<Seq<char>>::empty(),
    {
        let out = TextSet { items: Vec::new() };
        assert(out@ =~= Set::<Seq<char>>::empty());
        out
    }

    /// Whether a text is in the set.
    pub fn contains(&self, text: &str) -> (yes: bool)
        ensures
            yes == self@.contains(text@),
    {
        has_text(&self.items, text)
    }

    /// Whether the set is empty.
    pub fn is_empty(&self) -> (yes: bool)
        ensures
            yes == (self@ == Set::<Seq<char>>::empty()),
    {
        proof {
            if self.items@.len() > 0 {
                let first = views(self.items@)[0];
                assert(self@.contains(first));
            } else {
                assert(self@ =~= Set::<Seq<char>>::empty());
            }
        }
        self.items.len() == 0
    }

    /// Whether one of the texts is in the set.
    pub fn meets(&self, texts: &Vec<String>) -> (yes: bool)
        ensures
            yes == exists|i: int| 0 <= i < texts@.len() && self@.contains(#[trigger] texts@[i]@),
    {
        let mut i: usize = 0;
        while i < texts.len()
            invariant
                i <= texts.len(),
                forall|j: int| 0 <= j < i ==> !self@.contains(#[trigger] texts@[j]@),
            decreases texts.len() - i,
        {
            if self.contains(&texts[i]) {
                return true;
            }
            i += 1;
        }
        false
    }

    /// Puts a text into the set; says whether it was not there before.
    pub fn insert(&mut self, text: &str) -> (fresh: bool)
        ensures
            final(self)@ == old(self)@.insert(text@),
            fresh == !old(self)@.contains(text@),
    {
        proof {
            use_type_invariant(&*self);
        }
        if has_text(&self.items, text) {
            assert(self@ =~= self@.insert(text@));
            return false;
        }
        let mut items: Vec<String> = Vec::new();
        std::mem::swap(&mut items, &mut self.items);
        let ghost before = views(items@);
        items.push(text.to_owned());
        proof {
            assert(views(items@) == before.push(text@));
            assert(before.push(text@).to_set() =~= before.to_set().insert(text@)) by {
                assert forall|t: Seq<char>| before.push(text@).contains(t) == (before.contains(t)
                    || t == text@) by {
                    if before.contains(t) {
                        let i = choose|i: int| 0 <= i < before.len() && before[i] == t;
                        assert(before.push(text@)[i] == t);
                    }
                    assert(before.push(text@)[before.len() as int] == text@);
                }
            }
            assert forall|i: int, j: int| 0 <= i < j < items@.len() implies views(items@)[i]
                != views(items@)[j] by {
                if j == before.len() {
                    assert(before.contains(before[i]));
                }
            }
        }
        self.items = items;
        true
    }

    /// Takes a text out of the set; says whether it was there.
    pub fn remove(&mut self, text: &str) -> (found: bool)
        ensures
            final(self)@ == old(self)@.remove(text@),
            found == old(self)@.contains(text@),
    {
        proof {
            use_type_invariant(&*self);
        }
        match find_text(&self.items, text) {
            None => {
                assert(self@ =~= self@.remove(text@));
                false
            },
            Some(place) => {
                let mut items: Vec<String> = Vec::new();
                std::mem::swap(&mut items, &mut self.items);
                let ghost before = views(items@);
                proof {
                    place_is_first(before, text@);
                }
                items.remove(place);
                proof {
                    let after = views(items@);
                    assert(after == before.remove(place as int));
                    assert(after.to_set() =~= before.to_set().remove(text@)) by {
                        assert forall|t: Seq<char>| after.contains(t) == (before.contains(t) && t
                            != text@) by {
                            if before.contains(t) && t != text@ {
                                let i = choose|i: int| 0 <= i < before.len() && before[i] == t;
                                assert(after[if i < place { i } else { i - 1 }] == t);
                            }
                            if after.contains(t) {
                                let i = choose|i: int| 0 <= i < after.len() && after[i] == t;
                                assert(before[if i < place { i } else { i + 1 }] == t);
                            }
                        }
                    }
                }
                self.items = items;
                true
            },
        }
    }

    /// Empties the set.
    pub fn clear(&mut self)
        ensures
            final(self)@ == Set::<Seq<char>>::empty(),
    {
        self.items = Vec::new();
        assert(self@ =~= Set::<Seq<char>>::empty());
    }
}

/// Values kept under texts.
pub struct TextMap<V> {
    entries: Vec<(String, V)>,
}

/// The texts under which values are kept.
pub open spec fn keys_of<V>(entries: Seq<(String, V)>) -> Seq<Seq<char>> {
    Seq::new(entries.len(), |i: int| entries[i].0@)
}

/// The values kept under texts.
pub open spec fn entry_map<V>(entries: Seq<(String, V)>) -> Map<Seq<char>, V> {
    Map::new(
        |key: Seq<char>| keys_of(entries).contains(key),
        |key: Seq<char>| entries[place_of(keys_of(entries), key)].1,
    )
}

impl<V> View for TextMap<V> {
    type V = Map<Seq<char>, V>;

    closed spec fn view(&self) -> Map<Seq<char>, V> {
        entry_map(self.entries@)
    }
}

impl<V> TextMap<V> {
    #[verifier::type_invariant]
    spec fn is_lean(self) -> bool {
        all_differ(keys_of(self.entries@))
    }

    /// Nothing kept.
    pub fn new() -> (out: Self)
        ensures
            out@ == Map::<Seq<char>, V>::empty(),
    {
        let out = TextMap { entries: Vec::new() };
        assert(out@ =~= Map::<Seq<char>, V>::empty());
        out
    }

    fn find(&self, key: &str) -> (place: Option<usize>)
        ensures
            match place {
                Some(i) => i < self.entries@.len() && i == place_of(
                    keys_of(self.entries@),
                    key@,
                ) && self.entries@[i as int].0@ == key@,
                None => true,
            },
            place is Some <==> self@.contains_key(key@),
    {
        let mut i: usize = 0;
        while i < self.entries.len()
            invariant
                i <= self.entries.len(),
                forall|j: int| 0 <= j < i ==> keys_of(self.entries@)[j] != key@,
            decreases self.entries.len() - i,
        {
            if same_text(&self.entries[i].0, key) {
                proof {
                    first_place(keys_of(self.entries@), key@, i as int);
                    place_is_first(keys_of(self.entries@), key@);
                }
                return Some(i);
            }
            i += 1;
        }
        None
    }

    /// The value under a text.
    pub fn get(&self, key: &str) -> (out: Option<&V>)
        ensures
            match out {
                Some(value) => self@.contains_key(key@) && *value == self@[key@],
                None => !self@.contains_key(key@),
            },
    {
        match self.find(key) {
            Some(i) => Some(&self.entries[i].1),
            None => None,
        }
    }

    /// Whether a value is kept under a text.
    pub fn contains_key(&self, key: &str) -> (yes: bool)
        ensures
            yes == self@.contains_key(key@),
    {
        self.find(key).is_some()
    }

    /// Takes the value under a text out.
    pub fn remove(&mut self, key: &str) -> (out: Option<V>)
        ensures
            final(self)@ == old(self)@.remove(key@),
            match out {
                Some(value) => old(self)@.contains_key(key@) && value == old(self)@[key@],
                None => !old(self)@.contains_key(key@),
            },
    {
        proof {
            use_type_invariant(&*self);
        }
        match self.find(key) {
            None => {
                assert(self@ =~= self@.remove(key@));
                None
            },
            Some(place) => {
                let mut entries: Vec<(String, V)> = Vec::new();
                std::mem::swap(&mut entries, &mut self.entries);
                let ghost before = entries@;
                let taken = entries.remove(place);
                proof {
                    removal_keeps_the_rest(before, place as int, key@);
                }
                self.entries = entries;
                Some(taken.1)
            },
        }
    }

    /// Keeps a value under a text; gives back the value that it replaces.
    pub fn insert(&mut self, key: &str, value: V) -> (out: Option<V>)
        ensures
            final(self)@ == old(self)@.insert(key@, value),
            match out {
                Some(previous) => old(self)@.contains_key(key@) && previous == old(self)@[key@],
                None => !old(self)@.contains_key(key@),
            },
    {
        let ghost before = self@;
        let out = self.remove(key);
        proof {
            use_type_invariant(&*self);
            assert(!entry_map(self.entries@).contains_key(key@));
        }
        let mut entries: Vec<(String, V)> = Vec::new();
        std::mem::swap(&mut entries, &mut self.entries);
        let ghost rest = entries@;
        entries.push((key.to_owned(), value));
        proof {
            addition_keeps_the_rest(rest, entries@.last(), key@);
            assert(entries@ == rest.push(entries@.last()));
            assert(before.remove(key@).insert(key@, value) =~= before.insert(key@, value));
        }
        self.entries = entries;
        out
    }

    /// Forgets all values.
    pub fn clear(&mut self)
        ensures
            final(self)@ == Map::<Seq<char>, V>::empty(),
    {
        self.entries = Vec::new();
        assert(self@ =~= Map::<Seq<char>, V>::empty());
    }
}

proof fn removal_keeps_the_rest<V>(entries: Seq<(String, V)>, place: int, key: Seq<char>)
    requires
        0 <= place < entries.len(),
        entries[place].0@ == key,
        all_differ(keys_of(entries)),
    ensures
        all_differ(keys_of(entries.remove(place))),
        entry_map(entries.remove(place)) == entry_map(entries).remove(key),
{
    let after = entries.remove(place);
    let old_keys = keys_of(entries);
    let keys = keys_of(after);
    assert(old_keys[place] == key);
    assert forall|i: int, j: int| 0 <= i < j < keys.len() implies keys[i] != keys[j] by {
        let a = if i < place { i } else { i + 1 };
        let b = if j < place { j } else { j + 1 };
        assert(keys[i] == old_keys[a] && keys[j] == old_keys[b]);
    }
    assert forall|k: Seq<char>| keys.contains(k) == (old_keys.contains(k) && k != key) by {
        if old_keys.contains(k) && k != key {
            let i = choose|i: int| 0 <= i < old_keys.len() && old_keys[i] == k;
            assert(keys[if i < place { i } else { i - 1 }] == k);
        }
        if keys.contains(k) {
            let i = choose|i: int| 0 <= i < keys.len() && keys[i] == k;
            assert(old_keys[if i < place { i } else { i + 1 }] == k);
        }
    }
    assert forall|k: Seq<char>| keys.contains(k) implies after[place_of(keys, k)].1
        == entries[place_of(old_keys, k)].1 by {
        place_is_first(keys, k);
        let i = place_of(keys, k);
        let a = if i < place { i } else { i + 1 };
        assert(old_keys[a] == k);
        place_is_first(old_keys, k);
        let b = place_of(old_keys, k);
        assert(a == b);
    }
    assert(entry_map(after) =~= entry_map(entries).remove(key));
}

proof fn addition_keeps_the_rest<V>(entries: Seq<(String, V)>, entry: (String, V), key: Seq<char>)
    requires
        entry.0@ == key,
        all_differ(keys_of(entries)),
        !keys_of(entries).contains(key),
    ensures
        all_differ(keys_of(entries.push(entry))),
        entry_map(entries.push(entry)) == entry_map(entries).insert(key, entry.1),
{
    let after = entries.push(entry);
    let old_keys = keys_of(entries);
    let keys = keys_of(after);
    assert(keys == old_keys.push(key));
    assert forall|i: int, j: int| 0 <= i < j < keys.len() implies keys[i] != keys[j] by {
        if j == old_keys.len() {
            assert(old_keys.contains(old_keys[i]));
        }
    }
    assert forall|k: Seq<char>| keys.contains(k) == (old_keys.contains(k) || k == key) by {
        if old_keys.contains(k) {
            let i = choose|i: int| 0 <= i < old_keys.len() && old_keys[i] == k;
            assert(keys[i] == k);
        }
        assert(keys[old_keys.len() as int] == key);
    }
    assert forall|k: Seq<char>| keys.contains(k) implies after[place_of(keys, k)].1 == entry_map(
        entries,
    ).insert(key, entry.1)[k] by {
        if k == key {
            first_place(keys, k, old_keys.len() as int);
        } else {
            place_is_first(old_keys, k);
            let i = place_of(old_keys, k);
            assert(keys[i] == k);
            first_place(keys, k, i);
        }
    }
    assert(entry_map(after) =~= entry_map(entries).insert(key, entry.1));
}

} // verus!
