//! An insertion-ordered map from field names to field values, with unique keys.
//!
//! A scraped record, a set of request headers and similar small string maps are
//! held as a `FieldMap`. Inserting an existing key replaces its value in place;
//! inserting a new key appends it.
use vstd::prelude::*;

verus! {

/// The abstract contents of a field map: its (key, value) pairs in order.
pub type Entries = Seq<(Seq<char>, Seq<char>)>;

/// No key occurs twice.
pub open spec fn unique_keys(s: Entries) -> bool {
    forall|i: int, j: int|
        0 <= i < s.len() && 0 <= j < s.len() && i != j ==> #[trigger] s[i].0 != #[trigger] s[j].0
}

/// Index of the first entry with key `k`, or -1 when there is none.
pub open spec fn find_key(s: Entries, k: Seq<char>) -> int
    decreases s.len(),
{
    if s.len() == 0 {
        -1
    } else {
        let r = find_key(s.drop_last(), k);
        if r >= 0 {
            r
        } else if s.last().0 == k {
            s.len() - 1
        } else {
            -1
        }
    }
}

/// The entries after inserting `(k, v)`: an existing key keeps its place and
/// takes the new value; a new key goes at the end.
pub open spec fn insert_entry(s: Entries, k: Seq<char>, v: Seq<char>) -> Entries {
    let i = find_key(s, k);
    if i >= 0 {
        s.update(i, (k, v))
    } else {
        s.push((k, v))
    }
}

/// The value stored under `k`, if any.
pub open spec fn lookup(s: Entries, k: Seq<char>) -> Option<Seq<char>> {
    let i = find_key(s, k);
    if i >= 0 {
        Some(s[i].1)
    } else {
        None
    }
}

/// The entries obtained by inserting the pairs of `pairs` one after another
/// into an empty map.
pub open spec fn entries_from_pairs(pairs: Entries) -> Entries
    decreases pairs.len(),
{
    if pairs.len() == 0 {
        Seq::empty()
    } else {
        insert_entry(entries_from_pairs(pairs.drop_last()), pairs.last().0, pairs.last().1)
    }
}

/// The keys of some entries, in order.
pub open spec fn keys_of(s: Entries) -> Seq<Seq<char>> {
    s.map_values(|e: (Seq<char>, Seq<char>)| e.0)
}

pub proof fn lemma_find_key(s: Entries, k: Seq<char>)
    ensures
        -1 <= find_key(s, k) < s.len(),
        find_key(s, k) >= 0 ==> s[find_key(s, k)].0 == k,
        find_key(s, k) >= 0 ==> forall|j: int| 0 <= j < find_key(s, k) ==> s[j].0 != k,
        find_key(s, k) == -1 <==> forall|j: int| 0 <= j < s.len() ==> s[j].0 != k,
    decreases s.len(),
{
    if s.len() > 0 {
        lemma_find_key(s.drop_last(), k);
        assert forall|j: int| 0 <= j < s.len() - 1 implies s.drop_last()[j] == s[j] by {}
    }
}

pub proof fn lemma_insert_entry(s: Entries, k: Seq<char>, v: Seq<char>)
    requires
        unique_keys(s),
    ensures
        unique_keys(insert_entry(s, k, v)),
        lookup(insert_entry(s, k, v), k) == Some(v),
        forall|k2: Seq<char>| k2 != k ==> lookup(insert_entry(s, k, v), k2) == lookup(s, k2),
        find_key(s, k) >= 0 ==> insert_entry(s, k, v).len() == s.len(),
        find_key(s, k) < 0 ==> insert_entry(s, k, v).len() == s.len() + 1,
{
    lemma_find_key(s, k);
    let t = insert_entry(s, k, v);
    lemma_find_key(t, k);
    assert forall|k2: Seq<char>| k2 != k implies lookup(t, k2) == lookup(s, k2) by {
        lemma_find_key(s, k2);
        lemma_find_key(t, k2);
        if find_key(s, k2) >= 0 {
            assert(t[find_key(s, k2)].0 == k2);
        }
        if find_key(t, k2) >= 0 {
            assert(s[find_key(t, k2)].0 == k2);
        }
    }
    if find_key(s, k) >= 0 {
        assert(t[find_key(s, k)].0 == k);
    } else {
        assert(t[s.len() as int].0 == k);
    }
}

pub proof fn lemma_unique_find(s: Entries, i: int)
    requires
        unique_keys(s),
        0 <= i < s.len(),
    ensures
        find_key(s, s[i].0) == i,
{
    lemma_find_key(s, s[i].0);
}

pub proof fn lemma_entries_from_pairs_unique(pairs: Entries)
    ensures
        unique_keys(entries_from_pairs(pairs)),
    decreases pairs.len(),
{
    if pairs.len() > 0 {
        lemma_entries_from_pairs_unique(pairs.drop_last());
        lemma_insert_entry(entries_from_pairs(pairs.drop_last()), pairs.last().0, pairs.last().1);
    }
}

/// The value of the last pair with key `k`, if any.
pub open spec fn last_value(pairs: Entries, k: Seq<char>) -> Option<Seq<char>>
    decreases pairs.len(),
{
    if pairs.len() == 0 {
        None
    } else if pairs.last().0 == k {
        Some(pairs.last().1)
    } else {
        last_value(pairs.drop_last(), k)
    }
}

/// Reading a key right after writing it gives the value written; every other
/// key keeps its value; keys stay distinct.
pub proof fn law_get_after_insert(m: Entries, k: Seq<char>, v: Seq<char>, other: Seq<char>)
    requires
        unique_keys(m),
    ensures
        lookup(insert_entry(m, k, v), k) == Some(v),
        other != k ==> lookup(insert_entry(m, k, v), other) == lookup(m, other),
        unique_keys(insert_entry(m, k, v)),
{
    lemma_insert_entry(m, k, v);
}

/// Writing a key twice is writing it once with the second value.
pub proof fn law_insert_overwrites(m: Entries, k: Seq<char>, v1: Seq<char>, v2: Seq<char>)
    requires
        unique_keys(m),
    ensures
        insert_entry(insert_entry(m, k, v1), k, v2) == insert_entry(m, k, v2),
{
    lemma_insert_entry(m, k, v1);
    lemma_find_key(m, k);
    let m1 = insert_entry(m, k, v1);
    lemma_find_key(m1, k);
    if find_key(m, k) >= 0 {
        let i = find_key(m, k);
        assert(m1[i].0 == k);
        lemma_unique_find(m1, i);
        assert(insert_entry(m1, k, v2) =~= insert_entry(m, k, v2));
    } else {
        let i = m.len() as int;
        assert(m1[i].0 == k);
        lemma_unique_find(m1, i);
        assert(insert_entry(m1, k, v2) =~= insert_entry(m, k, v2));
    }
}

/// A map built from pairs holds, under each key, the value of the last pair
/// with that key, and nothing under other keys.
pub proof fn law_pairs_last_wins(pairs: Entries, k: Seq<char>)
    ensures
        lookup(entries_from_pairs(pairs), k) == last_value(pairs, k),
    decreases pairs.len(),
{
    if pairs.len() > 0 {
        law_pairs_last_wins(pairs.drop_last(), k);
        lemma_entries_from_pairs_unique(pairs.drop_last());
        lemma_insert_entry(entries_from_pairs(pairs.drop_last()), pairs.last().0, pairs.last().1);
    } else {
        lemma_find_key(entries_from_pairs(pairs), k);
    }
}

/// The (key, value) character sequences of a list of string pairs.
pub open spec fn pairs_view(v: Vec<(String, String)>) -> Entries {
    v@.map_values(|e: (String, String)| (e.0@, e.1@))
}

/// A map from field names to values that keeps the order in which keys were
/// first inserted.
#[derive(Debug, PartialEq, Eq)]
pub struct FieldMap {
    entries: Vec<(String, String)>,
}

impl View for FieldMap {
    type V = Entries;

    closed spec fn view(&self) -> Entries {
        self.entries@.map_values(|e: (String, String)| (e.0@, e.1@))
    }
}

impl FieldMap {
    #[verifier::type_invariant]
    closed spec fn inv(self) -> bool {
        unique_keys(self@)
    }

    /// An empty map.
    pub fn new() -> (m: FieldMap)
        ensures
            m@ == Seq::<(Seq<char>, Seq<char>)>::empty(),
    {
        let m = FieldMap { entries: Vec::new() };
        assert(m@ =~= Seq::<(Seq<char>, Seq<char>)>::empty());
        m
    }

    /// Number of entries.
    pub fn len(&self) -> (n: usize)
        ensures
            n == self@.len(),
    {
        self.entries.len()
    }

    /// True when the map has no entries.
    pub fn is_empty(&self) -> (b: bool)
        ensures
            b == (self@.len() == 0),
    {
        self.entries.len() == 0
    }

    /// The key and value of the `i`-th entry.
    pub fn entry(&self, i: usize) -> (r: (&String, &String))
        requires
            i < self@.len(),
        ensures
            r.0@ == self@[i as int].0,
            r.1@ == self@[i as int].1,
    {
        let e = &self.entries[i];
        (&e.0, &e.1)
    }

    /// Position of the entry with key `key`, if any.
    pub fn position(&self, key: &str) -> (r: Option<usize>)
        ensures
            match r {
                Some(i) => find_key(self@, key@) == i as int && i < self@.len(),
                None => find_key(self@, key@) == -1,
            },
    {
        proof {
            lemma_find_key(self@, key@);
        }
        let n = self.entries.len();
        let mut i: usize = 0;
        while i < n
            invariant
                n == self@.len(),
                i <= n,
                forall|j: int| 0 <= j < i ==> self@[j].0 != key@,
                -1 <= find_key(self@, key@) < self@.len(),
                find_key(self@, key@) >= 0 ==> self@[find_key(self@, key@)].0 == key@,
                find_key(self@, key@) >= 0 ==> forall|j: int|
                    0 <= j < find_key(self@, key@) ==> self@[j].0 != key@,
                find_key(self@, key@) == -1 <==> forall|j: int| 0 <= j < n ==> self@[j].0 != key@,
            decreases n - i,
        {
            let k: &str = self.entries[i].0.as_str();
            if str_equal(k, key) {
                assert(self@[i as int].0 == key@);
                return Some(i);
            }
            i = i + 1;
        }
        None
    }

    /// The value stored under `key`, if any.
    pub fn get(&self, key: &str) -> (r: Option<&String>)
        ensures
            match r {
                Some(v) => lookup(self@, key@) == Some(v@),
                None => lookup(self@, key@) is None,
            },
    {
        match self.position(key) {
            Some(i) => {
                assert(self@[i as int] == (self.entries@[i as int].0@, self.entries@[i as int].1@));
                Some(&self.entries[i].1)
            },
            None => None,
        }
    }

    /// True when `key` has an entry.
    pub fn contains_key(&self, key: &str) -> (b: bool)
        ensures
            b == (lookup(self@, key@) is Some),
    {
        self.position(key).is_some()
    }

    /// Stores `value` under `key`: an existing entry keeps its place, a new
    /// one is appended.
    pub fn insert(&mut self, key: String, value: String)
        ensures
            final(self)@ == insert_entry(old(self)@, key@, value@),
    {
        proof {
            use_type_invariant(&*self);
            lemma_insert_entry(self@, key@, value@);
        }
        let pos = self.position(key.as_str());
        let ghost old_view = self@;
        let mut entries: Vec<(String, String)> = Vec::new();
        std::mem::swap(&mut entries, &mut self.entries);
        assert(entries@.map_values(|e: (String, String)| (e.0@, e.1@)) == old_view);
        match pos {
            Some(i) => {
                assert(i < entries@.len());
                entries.set(i, (key, value));
            },
            None => {
                entries.push((key, value));
            },
        }
        let ghost new_view = entries@.map_values(|e: (String, String)| (e.0@, e.1@));
        assert(new_view =~= insert_entry(old_view, key@, value@));
        self.entries = entries;
    }

    /// The keys, in order.
    /// Copies of the entries, in order.
    pub fn entries(&self) -> (r: Vec<(String, String)>)
        ensures
            pairs_view(r) == self@,
    {
        let mut r: Vec<(String, String)> = Vec::new();
        let mut i: usize = 0;
        while i < self.entries.len()
            invariant
                i <= self.entries@.len(),
                pairs_view(r) =~= self@.take(i as int),
            decreases self.entries.len() - i,
        {
            let e = &self.entries[i];
            let ghost before = r;
            r.push((e.0.clone(), e.1.clone()));
            assert(pairs_view(r) =~= pairs_view(before).push(self@[i as int]));
            assert(self@.take(i + 1) =~= self@.take(i as int).push(self@[i as int]));
            i = i + 1;
        }
        assert(self@.take(self@.len() as int) =~= self@);
        r
    }

    pub fn keys(&self) -> (r: Vec<String>)
        ensures
            r@.map_values(|s: String| s@) == keys_of(self@),
    {
        let mut r: Vec<String> = Vec::new();
        let n = self.entries.len();
        let mut i: usize = 0;
        while i < n
            invariant
                n == self@.len(),
                i <= n,
                r@.map_values(|s: String| s@) =~= keys_of(self@).take(i as int),
            decreases n - i,
        {
            r.push(self.entries[i].0.clone());
            assert(keys_of(self@).take(i + 1) =~= keys_of(self@).take(i as int).push(self@[i as int].0));
            i = i + 1;
        }
        assert(keys_of(self@).take(n as int) =~= keys_of(self@));
        r
    }
}

impl Clone for FieldMap {
    fn clone(&self) -> (r: FieldMap)
        ensures
            r@ == self@,
    {
        proof {
            use_type_invariant(self);
        }
        let mut v: Vec<(String, String)> = Vec::new();
        let n = self.entries.len();
        let mut i: usize = 0;
        while i < n
            invariant
                n == self.entries@.len(),
                i <= n,
                v@.map_values(|e: (String, String)| (e.0@, e.1@)) =~= self@.take(i as int),
            decreases n - i,
        {
            let e = &self.entries[i];
            v.push((e.0.clone(), e.1.clone()));
            assert(self@.take(i + 1) =~= self@.take(i as int).push(self@[i as int]));
            i = i + 1;
        }
        assert(self@.take(n as int) =~= self@);
        FieldMap { entries: v }
    }
}

/// Equality of two string slices by their characters.
pub fn str_equal(a: &str, b: &str) -> (r: bool)
    ensures
        r == (a@ == b@),
{
    let ca = crate::text::chars_of(a);
    let cb = crate::text::chars_of(b);
    if ca.len() != cb.len() {
        return false;
    }
    let mut i: usize = 0;
    while i < ca.len()
        invariant
            ca@ == a@,
            cb@ == b@,
            ca.len() == cb.len(),
            i <= ca.len(),
            forall|j: int| 0 <= j < i ==> ca@[j] == cb@[j],
        decreases ca.len() - i,
    {
        if ca[i] != cb[i] {
            return false;
        }
        i = i + 1;
    }
    assert(ca@ =~= cb@);
    true
}

} // verus!
