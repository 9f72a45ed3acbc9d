//! The order of texts by their characters, and lists of texts kept in it.
use vstd::prelude::*;

use crate::models::group_deep_view;
use crate::text::to_chars;

verus! {

broadcast use group_deep_view;

/// Whether one text comes before another: at the first difference it has the
/// smaller character, or it ends there.
pub open spec fn precedes(a: Seq<char>, b: Seq<char>) -> bool
    decreases a.len(),
{
    if b.len() == 0 {
        false
    } else if a.len() == 0 {
        true
    } else if a[0] != b[0] {
        a[0] < b[0]
    } else {
        precedes(a.skip(1), b.skip(1))
    }
}

/// Of two texts exactly one comes first, or they are the same.
pub proof fn precedes_is_total(a: Seq<char>, b: Seq<char>)
    ensures
        a == b || precedes(a, b) || precedes(b, a),
        !(precedes(a, b) && precedes(b, a)),
        !precedes(a, a),
    decreases a.len(),
{
    if a.len() > 0 && b.len() > 0 && a[0] == b[0] {
        precedes_is_total(a.skip(1), b.skip(1));
        if a.skip(1) == b.skip(1) {
            assert(a =~= seq![a[0]] + a.skip(1));
            assert(b =~= seq![b[0]] + b.skip(1));
        }
    } else if a.len() == 0 && b.len() == 0 {
        assert(a =~= b);
    }
    if a.len() > 0 {
        precedes_is_total(a.skip(1), a.skip(1));
    }
}

/// What comes before a text comes before all that the text comes before.
pub proof fn precedes_is_transitive(a: Seq<char>, b: Seq<char>, c: Seq<char>)
    requires
        precedes(a, b),
        precedes(b, c),
    ensures
        precedes(a, c),
    decreases a.len(),
{
    if a.len() > 0 && b.len() > 0 && c.len() > 0 && a[0] == b[0] && b[0] == c[0] {
        precedes_is_transitive(a.skip(1), b.skip(1), c.skip(1));
    }
}

/// Where one text stands relative to another.
#[derive(Clone, Copy, Debug, PartialEq, Eq, Structural)]
pub enum Place {
    Before,
    Same,
    Behind,
}

/// Where one text stands relative to another.
pub open spec fn place_of(a: Seq<char>, b: Seq<char>) -> Place {
    if a == b {
        Place::Same
    } else if precedes(a, b) {
        Place::Before
    } else {
        Place::Behind
    }
}

/// Where one string stands relative to another.
pub fn relation(a: &str, b: &str) -> (place: Place)
    ensures
        place == place_of(a@, b@),
{
    let x = to_chars(a);
    let y = to_chars(b);
    let ghost p = a@;
    let ghost q = b@;
    let mut i: usize = 0;
    assert(p.skip(0) =~= p);
    assert(q.skip(0) =~= q);
    while i < x.len() && i < y.len() && x[i] == y[i]
        invariant
            x@ == p,
            y@ == q,
            i <= p.len(),
            i <= q.len(),
            p.take(i as int) =~= q.take(i as int),
            precedes(p, q) == precedes(p.skip(i as int), q.skip(i as int)),
        decreases p.len() - i,
    {
        assert(p.skip(i as int).skip(1) =~= p.skip(i + 1));
        assert(q.skip(i as int).skip(1) =~= q.skip(i + 1));
        assert(p.take(i + 1) =~= p.take(i as int).push(p[i as int]));
        assert(q.take(i + 1) =~= q.take(i as int).push(q[i as int]));
        i += 1;
    }
    if i < x.len() && i < y.len() {
        assert(p[i as int] != q[i as int]);
        if x[i] < y[i] {
            Place::Before
        } else {
            Place::Behind
        }
    } else if i < x.len() {
        assert(p.len() != q.len());
        Place::Behind
    } else if i < y.len() {
        assert(p.len() != q.len());
        Place::Before
    } else {
        assert(p.take(p.len() as int) =~= p);
        assert(q.take(q.len() as int) =~= q);
        Place::Same
    }
}

/// Whether texts stand in order, none twice.
pub open spec fn ascending(texts: Seq<Seq<char>>) -> bool {
    forall|i: int, j: int|
        0 <= i < j < texts.len() ==> precedes(#[trigger] texts[i], #[trigger] texts[j])
}

/// The number of texts, from the front, that come before a given one.
pub open spec fn rank(texts: Seq<Seq<char>>, text: Seq<char>) -> int
    decreases texts.len(),
{
    if texts.len() == 0 {
        0
    } else if precedes(texts[0], text) {
        1 + rank(texts.skip(1), text)
    } else {
        0
    }
}

/// The rank of a text is a position of the list, with smaller texts before it
/// and no smaller one at it.
pub proof fn rank_is_a_position(texts: Seq<Seq<char>>, text: Seq<char>)
    ensures
        0 <= rank(texts, text) <= texts.len(),
        forall|i: int| 0 <= i < rank(texts, text) ==> precedes(#[trigger] texts[i], text),
        rank(texts, text) < texts.len() ==> !precedes(texts[rank(texts, text)], text),
    decreases texts.len(),
{
    if texts.len() > 0 && precedes(texts[0], text) {
        rank_is_a_position(texts.skip(1), text);
        assert forall|i: int| 0 <= i < rank(texts, text) implies precedes(
            #[trigger] texts[i],
            text,
        ) by {
            if i > 0 {
                assert(texts[i] == texts.skip(1)[i - 1]);
            }
        }
    }
}

proof fn rank_is(texts: Seq<Seq<char>>, text: Seq<char>, k: int)
    requires
        0 <= k <= texts.len(),
        forall|i: int| 0 <= i < k ==> precedes(#[trigger] texts[i], text),
        k < texts.len() ==> !precedes(texts[k], text),
    ensures
        rank(texts, text) == k,
    decreases texts.len(),
{
    if k > 0 {
        assert(precedes(texts[0], text));
        let rest = texts.skip(1);
        assert forall|i: int| 0 <= i < k - 1 implies precedes(#[trigger] rest[i], text) by {
            assert(rest[i] == texts[i + 1]);
        }
        rank_is(rest, text, k - 1);
    }
}

/// The position of a text in a list, or where it would stand.
pub fn find_rank(texts: &Vec<String>, text: &str) -> (k: usize)
    ensures
        k == rank(texts.deep_view(), text@),
        k <= texts.len(),
{
    let ghost all = texts.deep_view();
    let mut k: usize = 0;
    while k < texts.len() && relation(texts[k].as_str(), text) == Place::Before
        invariant
            k <= texts.len(),
            all == texts.deep_view(),
            forall|i: int| 0 <= i < k ==> precedes(#[trigger] all[i], text@),
        decreases texts.len() - k,
    {
        k += 1;
    }
    proof {
        if k < all.len() {
            precedes_is_total(all[k as int], text@);
        }
        rank_is(all, text@, k as int);
    }
    k
}

/// A list with a text at its rank, unless it already stands there.
pub open spec fn with_text(texts: Seq<Seq<char>>, text: Seq<char>) -> Seq<Seq<char>> {
    let k = rank(texts, text);
    if k < texts.len() && texts[k] == text {
        texts
    } else {
        texts.insert(k, text)
    }
}

/// Puts a text at its rank, unless it already stands there.
pub fn add_text(texts: &mut Vec<String>, text: String)
    ensures
        final(texts).deep_view() == with_text(old(texts).deep_view(), text@),
{
    let ghost all = texts.deep_view();
    let k: usize = find_rank(texts, text.as_str());
    if k < texts.len() && texts[k] == text {
        return;
    }
    texts.insert(k, text);
    assert(texts.deep_view() =~= all.insert(k as int, text@));
}

/// Adding a text keeps a list in order, and adds that text alone.
pub proof fn with_text_keeps_order(texts: Seq<Seq<char>>, text: Seq<char>)
    requires
        ascending(texts),
    ensures
        ascending(with_text(texts, text)),
        forall|t: Seq<char>| #[trigger]
            with_text(texts, text).contains(t) <==> texts.contains(t) || t == text,
{
    rank_is_a_position(texts, text);
    let k = rank(texts, text);
    let new = with_text(texts, text);
    if k < texts.len() && texts[k] == text {
    } else {
        assert forall|i: int, j: int| 0 <= i < j < new.len() implies precedes(
            #[trigger] new[i],
            #[trigger] new[j],
        ) by {
            if i == k {
                precedes_is_total(text, texts[k]);
                if j - 1 > k {
                    precedes_is_transitive(text, texts[k], texts[j - 1]);
                }
            }
        }
        assert forall|t: Seq<char>| #[trigger] new.contains(t) <==> texts.contains(t) || t == text by {
            if texts.contains(t) {
                let i = choose|i: int| 0 <= i < texts.len() && texts[i] == t;
                assert(new[if i < k {
                    i
                } else {
                    i + 1
                }] == t);
            }
            if t == text {
                assert(new[k] == t);
            }
            if new.contains(t) {
                let i = choose|i: int| 0 <= i < new.len() && new[i] == t;
                if i < k {
                    assert(texts[i] == t);
                } else if i > k {
                    assert(texts[i - 1] == t);
                }
            }
        }
    }
}

/// Whether a list holds a text.
pub fn contains_text(texts: &Vec<String>, text: &str) -> (found: bool)
    ensures
        found == texts.deep_view().contains(text@),
{
    let ghost all = texts.deep_view();
    for i in 0..texts.len()
        invariant
            all == texts.deep_view(),
            forall|j: int| 0 <= j < i ==> #[trigger] all[j] != text@,
    {
        if crate::text::same_text(texts[i].as_str(), text) {
            assert(all[i as int] == text@);
            return true;
        }
        assert(all[i as int] != text@);
    }
    false
}

/// The keys of entries.
pub open spec fn keys_of<V>(entries: Seq<(Seq<char>, V)>) -> Seq<Seq<char>> {
    entries.map_values(|entry: (Seq<char>, V)| entry.0)
}

/// The value under a key among entries in the order of their keys.
pub open spec fn lookup<V>(entries: Seq<(Seq<char>, V)>, key: Seq<char>) -> Option<V> {
    let k = rank(keys_of(entries), key);
    if 0 <= k < entries.len() && entries[k].0 == key {
        Some(entries[k].1)
    } else {
        None
    }
}

/// Entries with a value under a key, in place of the one that stood there.
pub open spec fn with_entry<V>(entries: Seq<(Seq<char>, V)>, key: Seq<char>, value: V) -> Seq<
    (Seq<char>, V),
> {
    let k = rank(keys_of(entries), key);
    if 0 <= k < entries.len() && entries[k].0 == key {
        entries.update(k, (key, value))
    } else {
        entries.insert(k, (key, value))
    }
}

/// Whether entries stand in the order of their keys, no key twice.
pub open spec fn in_key_order<V>(entries: Seq<(Seq<char>, V)>) -> bool {
    ascending(keys_of(entries))
}

/// Setting a value keeps entries in the order of their keys.
pub proof fn with_entry_keeps_key_order<V>(entries: Seq<(Seq<char>, V)>, key: Seq<char>, value: V)
    requires
        in_key_order(entries),
    ensures
        in_key_order(with_entry(entries, key, value)),
{
    let keys = keys_of(entries);
    rank_is_a_position(keys, key);
    with_text_keeps_order(keys, key);
    assert(keys_of(with_entry(entries, key, value)) =~= with_text(keys, key));
}

/// A key has a value exactly where an entry holds it.
pub proof fn lookup_finds_the_entry<V>(entries: Seq<(Seq<char>, V)>, key: Seq<char>, i: int)
    requires
        in_key_order(entries),
        0 <= i < entries.len(),
        entries[i].0 == key,
    ensures
        lookup(entries, key) == Some(entries[i].1),
{
    let keys = keys_of(entries);
    rank_is_a_position(keys, key);
    let k = rank(keys, key);
    if i < k {
        assert(precedes(keys[i], key));
        precedes_is_total(key, key);
    } else if k < i {
        assert(precedes(keys[k], keys[i]));
    }
}

/// A value that was set is found under its key, and every other key keeps its
/// value.
pub proof fn lookup_gives_back_what_was_set<V>(
    entries: Seq<(Seq<char>, V)>,
    key: Seq<char>,
    value: V,
    other: Seq<char>,
)
    requires
        in_key_order(entries),
    ensures
        lookup(with_entry(entries, key, value), other) == if other == key {
            Some(value)
        } else {
            lookup(entries, other)
        },
{
    let new = with_entry(entries, key, value);
    let keys = keys_of(entries);
    let k = rank(keys, key);
    rank_is_a_position(keys, key);
    with_entry_keeps_key_order(entries, key, value);
    let present = k < entries.len() && entries[k].0 == key;
    if other == key {
        lookup_finds_the_entry(new, key, k);
    } else {
        rank_is_a_position(keys_of(new), other);
        rank_is_a_position(keys, other);
        let r = rank(keys_of(new), other);
        if lookup(new, other) is Some {
            let i = if present || r < k {
                r
            } else {
                r - 1
            };
            assert(new[r].0 == other);
            assert(entries[i] == new[r]);
            lookup_finds_the_entry(entries, other, i);
        }
        if lookup(entries, other) is Some {
            let q = rank(keys, other);
            let i = if present || q < k {
                q
            } else {
                q + 1
            };
            assert(new[i] == entries[q]);
            lookup_finds_the_entry(new, other, i);
        }
    }
}

/// Values under texts, in the order of the texts.
#[derive(Debug, PartialEq, Eq)]
pub struct TextMap<T> {
    entries: Vec<(String, T)>,
}

impl<T: Clone> Clone for TextMap<T> {
    fn clone(&self) -> (copy: Self) {
        proof {
            use_type_invariant(self);
        }
        let ghost keys = self.entries@.map_values(|entry: (String, T)| entry.0@);
        let mut entries: Vec<(String, T)> = Vec::new();
        for i in 0..self.entries.len()
            invariant
                keys == self.entries@.map_values(|entry: (String, T)| entry.0@),
                entries.len() == i,
                forall|k: int| 0 <= k < i ==> (#[trigger] entries@[k]).0@ == keys[k],
        {
            let entry = &self.entries[i];
            entries.push((entry.0.clone(), entry.1.clone()));
        }
        assert(entries@.map_values(|entry: (String, T)| entry.0@) =~= keys);
        TextMap { entries }
    }
}

impl<T: DeepView> DeepView for TextMap<T> {
    type V = Seq<(Seq<char>, T::V)>;

    closed spec fn deep_view(&self) -> Seq<(Seq<char>, T::V)> {
        self.entries.deep_view()
    }
}

impl<T> TextMap<T> {
    /// The keys stand in order, none twice.
    #[verifier::type_invariant]
    spec fn keys_ascend(self) -> bool {
        ascending(self.entries@.map_values(|entry: (String, T)| entry.0@))
    }
}

impl<T: DeepView> TextMap<T> {
    /// No values.
    pub fn new() -> (map: Self)
        ensures
            map.deep_view() == Seq::<(Seq<char>, T::V)>::empty(),
    {
        TextMap { entries: Vec::new() }
    }

    /// The position of a key, or where it would stand.
    fn position(&self, key: &str) -> (k: usize)
        ensures
            k == rank(keys_of(self.deep_view()), key@),
            k <= self.deep_view().len(),
            self.deep_view().len() == self.entries@.len(),
    {
        let ghost keys = keys_of(self.deep_view());
        let mut k: usize = 0;
        while k < self.entries.len() && relation(self.entries[k].0.as_str(), key) == Place::Before
            invariant
                k <= self.entries.len(),
                keys == keys_of(self.deep_view()),
                keys.len() == self.entries@.len(),
                forall|i: int| 0 <= i < k ==> precedes(#[trigger] keys[i], key@),
            decreases self.entries.len() - k,
        {
            assert(keys[k as int] == self.entries@[k as int].0@);
            k += 1;
        }
        proof {
            if k < keys.len() {
                assert(keys[k as int] == self.entries@[k as int].0@);
                precedes_is_total(keys[k as int], key@);
            }
            rank_is(keys, key@, k as int);
        }
        k
    }

    /// Sets the value under a key, in place of the one that stood there.
    pub fn insert(&mut self, key: String, value: T)
        ensures
            final(self).deep_view() == with_entry(
                old(self).deep_view(),
                key@,
                value.deep_view(),
            ),
            in_key_order(old(self).deep_view()),
            in_key_order(final(self).deep_view()),
    {
        let ghost before = self.deep_view();
        let k: usize = self.position(key.as_str());
        let ghost entry = (key@, value.deep_view());
        proof {
            use_type_invariant(&*self);
            assert(keys_of(self.deep_view()) =~= self.entries@.map_values(
                |entry: (String, T)| entry.0@,
            ));
            with_entry_keeps_key_order(before, key@, value.deep_view());
        }
        let mut entries: Vec<(String, T)> = Vec::new();
        std::mem::swap(&mut self.entries, &mut entries);
        if k < entries.len() && entries[k].0 == key {
            assert(before[k as int].0 == key@);
            entries.set(k, (key, value));
            assert(entries.deep_view() =~= before.update(k as int, entry));
        } else {
            if k < entries.len() {
                assert(before[k as int].0 != key@);
            }
            entries.insert(k, (key, value));
            assert(entries.deep_view() =~= before.insert(k as int, entry));
        }
        assert(keys_of(entries.deep_view()) =~= entries@.map_values(
            |entry: (String, T)| entry.0@,
        ));
        self.entries = entries;
    }

    /// The value under a key.
    pub fn get(&self, key: &str) -> (value: Option<&T>)
        ensures
            value.deep_view() == lookup(self.deep_view(), key@),
            in_key_order(self.deep_view()),
    {
        proof {
            use_type_invariant(self);
            assert(keys_of(self.deep_view()) =~= self.entries@.map_values(
                |entry: (String, T)| entry.0@,
            ));
        }
        let k: usize = self.position(key);
        if k < self.entries.len() {
            assert(self.deep_view()[k as int] == self.entries@[k as int].deep_view());
            if crate::text::same_text(self.entries[k].0.as_str(), key) {
                return Some(&self.entries[k].1);
            }
        }
        None
    }

    /// The number of values.
    pub fn len(&self) -> (n: usize)
        ensures
            n == self.deep_view().len(),
    {
        self.entries.len()
    }

    /// The keys and values, in the order of the keys.
    pub fn pairs(&self) -> (pairs: Vec<(&String, &T)>)
        ensures
            pairs.deep_view() == self.deep_view(),
            in_key_order(self.deep_view()),
    {
        proof {
            use_type_invariant(self);
            assert(keys_of(self.deep_view()) =~= self.entries@.map_values(
                |entry: (String, T)| entry.0@,
            ));
        }
        let ghost all = self.deep_view();
        let mut pairs: Vec<(&String, &T)> = Vec::new();
        for i in 0..self.entries.len()
            invariant
                all == self.entries.deep_view(),
                pairs.deep_view() == all.take(i as int),
        {
            let entry = &self.entries[i];
            pairs.push((&entry.0, &entry.1));
            assert(all.take(i + 1) =~= all.take(i as int).push(all[i as int]));
        }
        assert(all.take(all.len() as int) =~= all);
        pairs
    }

    /// The values, in the order of their keys.
    pub fn values(&self) -> (values: Vec<&T>)
        ensures
            values.deep_view() == values_of(self.deep_view()),
            in_key_order(self.deep_view()),
    {
        proof {
            use_type_invariant(self);
            assert(keys_of(self.deep_view()) =~= self.entries@.map_values(
                |entry: (String, T)| entry.0@,
            ));
        }
        let ghost all = values_of(self.deep_view());
        let mut values: Vec<&T> = Vec::new();
        for i in 0..self.entries.len()
            invariant
                all == values_of(self.entries.deep_view()),
                values.deep_view() == all.take(i as int),
        {
            values.push(&self.entries[i].1);
            assert(all.take(i + 1) =~= all.take(i as int).push(all[i as int]));
        }
        assert(all.take(all.len() as int) =~= all);
        values
    }
}

impl TextMap<String> {
    /// The same texts under the same texts.
    pub fn copy(&self) -> (copy: Self)
        ensures
            copy.deep_view() == self.deep_view(),
    {
        let ghost all = self.entries.deep_view();
        let mut entries: Vec<(String, String)> = Vec::new();
        for i in 0..self.entries.len()
            invariant
                all == self.entries.deep_view(),
                entries.deep_view() == all.take(i as int),
        {
            let entry = &self.entries[i];
            entries.push((entry.0.clone(), entry.1.clone()));
            assert(all.take(i + 1) =~= all.take(i as int).push(all[i as int]));
        }
        assert(all.take(all.len() as int) =~= all);
        proof {
            use_type_invariant(self);
            assert(keys_of(self.deep_view()) =~= self.entries@.map_values(
                |entry: (String, String)| entry.0@,
            ));
            assert(keys_of(entries.deep_view()) =~= entries@.map_values(|entry: (String, String)| entry.0@));
        }
        TextMap { entries }
    }
}

impl TextMap<u64> {
    /// The same numbers under the same texts.
    pub fn copy(&self) -> (copy: Self)
        ensures
            copy.deep_view() == self.deep_view(),
    {
        let ghost all = self.entries.deep_view();
        let mut entries: Vec<(String, u64)> = Vec::new();
        for i in 0..self.entries.len()
            invariant
                all == self.entries.deep_view(),
                entries.deep_view() == all.take(i as int),
        {
            let entry = &self.entries[i];
            entries.push((entry.0.clone(), entry.1));
            assert(all.take(i + 1) =~= all.take(i as int).push(all[i as int]));
        }
        assert(all.take(all.len() as int) =~= all);
        proof {
            use_type_invariant(self);
            assert(keys_of(self.deep_view()) =~= self.entries@.map_values(
                |entry: (String, u64)| entry.0@,
            ));
            assert(keys_of(entries.deep_view()) =~= entries@.map_values(|entry: (String, u64)| entry.0@));
        }
        TextMap { entries }
    }
}

/// The values of entries.
pub open spec fn values_of<V>(entries: Seq<(Seq<char>, V)>) -> Seq<V> {
    entries.map_values(|entry: (Seq<char>, V)| entry.1)
}

// ─── Document order ──────────────────────────────────────────────────

/// A place in a document: where it starts and ends, and what decides between
/// those that start and end alike.
pub struct DocumentPlace {
    pub start: int,
    pub end: int,
    pub ordinal: int,
    pub name: Seq<char>,
}

/// Whether one place comes before another in a document.
pub open spec fn comes_before(a: DocumentPlace, b: DocumentPlace) -> bool {
    if a.start != b.start {
        a.start < b.start
    } else if a.end != b.end {
        a.end < b.end
    } else if a.ordinal != b.ordinal {
        a.ordinal < b.ordinal
    } else {
        precedes(a.name, b.name)
    }
}

/// What has a place in a document.
pub trait Placed: DeepView {
    /// The place of a thing.
    spec fn place(model: Self::V) -> DocumentPlace;

    /// Whether this comes before another in the document.
    fn is_before(&self, other: &Self) -> (before: bool)
        ensures
            before == comes_before(
                Self::place(self.deep_view()),
                Self::place(other.deep_view()),
            ),
    ;

    /// The same thing once more.
    fn copy(&self) -> (copy: Self) where Self: Sized
        ensures
            copy.deep_view() == self.deep_view(),
    ;
}

impl<T: Placed> TextMap<T> {
    /// The same things under the same texts.
    pub fn copied(&self) -> (copy: Self)
        ensures
            copy.deep_view() == self.deep_view(),
    {
        let ghost all = self.entries.deep_view();
        let mut entries: Vec<(String, T)> = Vec::new();
        for i in 0..self.entries.len()
            invariant
                all == self.entries.deep_view(),
                entries.deep_view() == all.take(i as int),
        {
            let entry = &self.entries[i];
            entries.push((entry.0.clone(), entry.1.copy()));
            assert(all.take(i + 1) =~= all.take(i as int).push(all[i as int]));
        }
        assert(all.take(all.len() as int) =~= all);
        proof {
            use_type_invariant(self);
            assert(keys_of(self.deep_view()) =~= self.entries@.map_values(
                |entry: (String, T)| entry.0@,
            ));
            assert(keys_of(entries.deep_view()) =~= entries@.map_values(
                |entry: (String, T)| entry.0@,
            ));
        }
        TextMap { entries }
    }
}

/// A thing put behind all those that it does not come before.
pub open spec fn put_in_order<T: Placed>(things: Seq<T::V>, thing: T::V) -> Seq<T::V>
    decreases things.len(),
{
    if things.len() == 0 || !comes_before(T::place(thing), T::place(things.last())) {
        things.push(thing)
    } else {
        put_in_order::<T>(things.drop_last(), thing).push(things.last())
    }
}

/// Things in document order.
pub open spec fn document_order<T: Placed>(things: Seq<T::V>) -> Seq<T::V>
    decreases things.len(),
{
    if things.len() == 0 {
        things
    } else {
        put_in_order::<T>(document_order::<T>(things.drop_last()), things.last())
    }
}

proof fn put_in_order_at<T: Placed>(things: Seq<T::V>, thing: T::V, k: int)
    requires
        0 <= k <= things.len(),
        forall|i: int|
            k <= i < things.len() ==> comes_before(T::place(thing), T::place(#[trigger] things[i])),
        k > 0 ==> !comes_before(T::place(thing), T::place(things[k - 1])),
    ensures
        put_in_order::<T>(things, thing) == things.insert(k, thing),
    decreases things.len(),
{
    if k == things.len() {
        assert(things.insert(k, thing) =~= things.push(thing));
    } else {
        assert(things.last() == things[things.len() - 1]);
        put_in_order_at::<T>(things.drop_last(), thing, k);
        assert(things.insert(k, thing) =~= things.drop_last().insert(k, thing).push(things.last()));
    }
}

/// Things in document order.
pub fn in_order<'a, T: Placed>(things: Vec<&'a T>) -> (ordered: Vec<&'a T>)
    ensures
        ordered.deep_view() == document_order::<T>(things.deep_view()),
{
    let ghost all = things.deep_view();
    let mut ordered: Vec<&'a T> = Vec::new();
    for i in 0..things.len()
        invariant
            all == things.deep_view(),
            ordered.deep_view() == document_order::<T>(all.take(i as int)),
    {
        let thing = things[i];
        let ghost before = ordered.deep_view();
        proof {
            assert(all.take(i + 1).drop_last() =~= all.take(i as int));
            assert(all.take(i + 1).last() == thing.deep_view());
        }
        let mut k: usize = ordered.len();
        while k > 0 && thing.is_before(ordered[k - 1])
            invariant
                k <= ordered.len(),
                before == ordered.deep_view(),
                forall|j: int|
                    k <= j < before.len() ==> comes_before(
                        T::place(thing.deep_view()),
                        T::place(#[trigger] before[j]),
                    ),
            decreases k,
        {
            assert(before[k - 1] == ordered@[k - 1].deep_view());
            k -= 1;
        }
        proof {
            if k > 0 {
                assert(before[k - 1] == ordered@[k - 1].deep_view());
            }
            put_in_order_at::<T>(before, thing.deep_view(), k as int);
        }
        ordered.insert(k, thing);
        assert(ordered.deep_view() =~= before.insert(k as int, thing.deep_view()));
    }
    assert(all.take(all.len() as int) =~= all);
    ordered
}

/// Whether things stand in document order.
pub open spec fn is_in_order<T: Placed>(things: Seq<T::V>) -> bool {
    forall|i: int, j: int|
        0 <= i < j < things.len() ==> !comes_before(
            T::place(#[trigger] things[j]),
            T::place(#[trigger] things[i]),
        )
}

proof fn not_before_is_transitive(a: DocumentPlace, b: DocumentPlace, c: DocumentPlace)
    requires
        !comes_before(b, a),
        !comes_before(c, b),
    ensures
        !comes_before(c, a),
{
    precedes_is_total(a.name, b.name);
    precedes_is_total(b.name, c.name);
    precedes_is_total(a.name, c.name);
    if precedes(c.name, a.name) && precedes(a.name, b.name) {
        precedes_is_transitive(c.name, a.name, b.name);
    }
    if precedes(b.name, c.name) && precedes(c.name, a.name) {
        precedes_is_transitive(b.name, c.name, a.name);
    }
}

proof fn put_in_order_keeps<T: Placed>(things: Seq<T::V>, thing: T::V)
    requires
        is_in_order::<T>(things),
    ensures
        is_in_order::<T>(put_in_order::<T>(things, thing)),
        put_in_order::<T>(things, thing).to_multiset() == things.to_multiset().insert(thing),
        put_in_order::<T>(things, thing).len() == things.len() + 1,
        forall|i: int|
            0 <= i < put_in_order::<T>(things, thing).len() ==> {
                ||| (#[trigger] put_in_order::<T>(things, thing)[i]) == thing
                ||| things.contains(put_in_order::<T>(things, thing)[i])
            },
    decreases things.len(),
{
    broadcast use vstd::seq_lib::group_to_multiset_ensures;

    let new = put_in_order::<T>(things, thing);
    if things.len() == 0 || !comes_before(T::place(thing), T::place(things.last())) {
        assert forall|i: int, j: int| 0 <= i < j < new.len() implies !comes_before(
            T::place(#[trigger] new[j]),
            T::place(#[trigger] new[i]),
        ) by {
            if j == things.len() {
                let last = things[things.len() - 1];
                if i < things.len() - 1 {
                    assert(!comes_before(T::place(last), T::place(things[i])));
                    not_before_is_transitive(T::place(things[i]), T::place(last), T::place(thing));
                }
            } else {
                assert(!comes_before(T::place(things[j]), T::place(things[i])));
            }
        }
        assert forall|i: int| 0 <= i < new.len() implies {
            ||| (#[trigger] new[i]) == thing
            ||| things.contains(new[i])
        } by {
            if i < things.len() {
                assert(things[i] == new[i]);
            }
        }
    } else {
        let rest = things.drop_last();
        let last = things.last();
        assert(is_in_order::<T>(rest)) by {
            assert forall|i: int, j: int| 0 <= i < j < rest.len() implies !comes_before(
                T::place(#[trigger] rest[j]),
                T::place(#[trigger] rest[i]),
            ) by {
                assert(!comes_before(T::place(things[j]), T::place(things[i])));
            }
        }
        put_in_order_keeps::<T>(rest, thing);
        let kept = put_in_order::<T>(rest, thing);
        precedes_is_total(T::place(thing).name, T::place(last).name);
        assert forall|i: int, j: int| 0 <= i < j < new.len() implies !comes_before(
            T::place(#[trigger] new[j]),
            T::place(#[trigger] new[i]),
        ) by {
            if j < kept.len() {
                assert(!comes_before(T::place(kept[j]), T::place(kept[i])));
            } else {
                assert(new[i] == kept[i]);
                if kept[i] != thing {
                    let k = choose|k: int| 0 <= k < rest.len() && rest[k] == kept[i];
                    assert(things[k] == kept[i]);
                    assert(!comes_before(
                        T::place(things[things.len() - 1]),
                        T::place(things[k]),
                    ));
                }
            }
        }
        assert forall|i: int| 0 <= i < new.len() implies {
            ||| (#[trigger] new[i]) == thing
            ||| things.contains(new[i])
        } by {
            if i < kept.len() {
                assert(new[i] == kept[i]);
                if kept[i] != thing {
                    let k = choose|k: int| 0 <= k < rest.len() && rest[k] == kept[i];
                    assert(things[k] == new[i]);
                }
            } else {
                assert(things[things.len() - 1] == new[i]);
            }
        }
        assert(things =~= rest.push(last));
        assert(new.to_multiset() =~= things.to_multiset().insert(thing));
    }
}

/// Things in document order are the same things, none before an earlier one.
pub proof fn document_order_is_sorted<T: Placed>(things: Seq<T::V>)
    ensures
        is_in_order::<T>(document_order::<T>(things)),
        document_order::<T>(things).to_multiset() == things.to_multiset(),
    decreases things.len(),
{
    broadcast use vstd::seq_lib::group_to_multiset_ensures;

    if things.len() > 0 {
        document_order_is_sorted::<T>(things.drop_last());
        put_in_order_keeps::<T>(document_order::<T>(things.drop_last()), things.last());
        assert(things =~= things.drop_last().push(things.last()));
    }
}

/// Whether things stand in the order of their names, no name twice, each under its
/// own name.
pub open spec fn under_own_names<T: Placed>(entries: Seq<(Seq<char>, T::V)>) -> bool {
    &&& in_key_order(entries)
    &&& forall|i: int|
        0 <= i < entries.len() ==> (#[trigger] entries[i]).0 == T::place(entries[i].1).name
}

/// Setting a thing under its own name keeps all under their own.
pub proof fn own_names_are_kept<T: Placed>(entries: Seq<(Seq<char>, T::V)>, thing: T::V)
    requires
        under_own_names::<T>(entries),
    ensures
        under_own_names::<T>(with_entry(entries, T::place(thing).name, thing)),
{
    let name = T::place(thing).name;
    rank_is_a_position(keys_of(entries), name);
    with_entry_keeps_key_order(entries, name, thing);
}

/// What is found under a name has that name.
pub proof fn found_under_own_name<T: Placed>(entries: Seq<(Seq<char>, T::V)>, name: Seq<char>)
    requires
        under_own_names::<T>(entries),
    ensures
        lookup(entries, name) matches Some(thing) ==> T::place(thing).name == name,
{
}

/// A thing is found under its own name.
pub proof fn every_thing_is_found<T: Placed>(entries: Seq<(Seq<char>, T::V)>, i: int)
    requires
        under_own_names::<T>(entries),
        0 <= i < entries.len(),
    ensures
        lookup(entries, T::place(entries[i].1).name) == Some(entries[i].1),
{
    lookup_finds_the_entry(entries, entries[i].0, i);
}

/// Whether each thing comes before all that follow it in the document.
pub open spec fn is_strictly_in_order<T: Placed>(things: Seq<T::V>) -> bool {
    forall|i: int, j: int|
        0 <= i < j < things.len() ==> comes_before(
            T::place(#[trigger] things[i]),
            T::place(#[trigger] things[j]),
        )
}

/// Things under their own names have one document order alone: each comes before all
/// that follow it.
pub proof fn document_order_is_strict<T: Placed>(entries: Seq<(Seq<char>, T::V)>)
    requires
        under_own_names::<T>(entries),
    ensures
        is_strictly_in_order::<T>(document_order::<T>(values_of(entries))),
        document_order::<T>(values_of(entries)).to_multiset() == values_of(entries).to_multiset(),
{
    broadcast use vstd::seq_lib::group_to_multiset_ensures;

    let values = values_of(entries);
    let ordered = document_order::<T>(values);
    document_order_is_sorted::<T>(values);
    assert(values.no_duplicates()) by {
        assert forall|i: int, j: int| 0 <= i < j < values.len() implies values[i] != values[j] by {
            assert(precedes(keys_of(entries)[i], keys_of(entries)[j]));
            precedes_is_total(entries[i].0, entries[j].0);
        }
    }
    values.lemma_multiset_has_no_duplicates();
    ordered.lemma_multiset_has_no_duplicates_conv();
    assert forall|i: int, j: int| 0 <= i < j < ordered.len() implies comes_before(
        T::place(#[trigger] ordered[i]),
        T::place(#[trigger] ordered[j]),
    ) by {
        assert(!comes_before(T::place(ordered[j]), T::place(ordered[i])));
        assert(ordered.to_multiset().count(ordered[i]) > 0);
        assert(ordered.to_multiset().count(ordered[j]) > 0);
        assert(values.contains(ordered[i]) && values.contains(ordered[j]));
        let a = choose|a: int| 0 <= a < values.len() && values[a] == ordered[i];
        let b = choose|b: int| 0 <= b < values.len() && values[b] == ordered[j];
        assert(a != b);
        if a < b {
            assert(precedes(keys_of(entries)[a], keys_of(entries)[b]));
        } else {
            assert(precedes(keys_of(entries)[b], keys_of(entries)[a]));
        }
        precedes_is_total(entries[a].0, entries[b].0);
        assert(entries[a].0 == T::place(entries[a].1).name);
        assert(entries[b].0 == T::place(entries[b].1).name);
    }
}

} // verus!
