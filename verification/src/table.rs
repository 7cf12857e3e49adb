//! Tables: values under keys, one for each key, listed in key order.
use vstd::prelude::*;

verus! {

/// A key a table lists its values by.
pub trait TableKey: Sized {
    /// The key as a run of numbers, which is what orders it.
    spec fn ordinal(self) -> Seq<int>;

    /// Whether this key is listed before another.
    fn precedes(&self, other: &Self) -> (r: bool)
        ensures
            r == before(self.ordinal(), other.ordinal()),
    ;

    /// Whether two keys are listed at one place.
    fn coincides(&self, other: &Self) -> (r: bool)
        ensures
            r == (self.ordinal() == other.ordinal()),
    ;
}

/// Whether one run of numbers is before another: where they first differ
/// it is the lesser there, or it ends where the other goes on.
pub open spec fn before(left: Seq<int>, right: Seq<int>) -> bool
    decreases left.len(),
{
    if right.len() == 0 {
        false
    } else if left.len() == 0 {
        true
    } else if left[0] != right[0] {
        left[0] < right[0]
    } else {
        before(left.skip(1), right.skip(1))
    }
}

/// Text, as the numbers that order it.
pub open spec fn text_ordinal(text: Seq<char>) -> Seq<int> {
    Seq::new(text.len(), |i: int| text[i] as int)
}

/// Texts are listed at one place exactly where they are the same text.
pub proof fn lemma_text_ordinal(left: Seq<char>, right: Seq<char>)
    ensures
        (text_ordinal(left) == text_ordinal(right)) == (left == right),
{
    if text_ordinal(left) == text_ordinal(right) {
        assert(left.len() == text_ordinal(left).len());
        assert forall|i: int| 0 <= i < left.len() implies left[i] == right[i] by {
            assert(text_ordinal(left)[i] == left[i] as int);
            assert(text_ordinal(right)[i] == right[i] as int);
        }
        assert(left =~= right);
    }
}

/// Runs that agree at the start are ordered by what follows.
proof fn lemma_before_past(left: Seq<int>, right: Seq<int>, agreed: int)
    requires
        0 <= agreed <= left.len(),
        agreed <= right.len(),
        forall|i: int| 0 <= i < agreed ==> left[i] == right[i],
    ensures
        before(left, right) == before(left.skip(agreed), right.skip(agreed)),
    decreases agreed,
{
    if agreed == 0 {
        assert(left.skip(0) =~= left);
        assert(right.skip(0) =~= right);
    } else {
        lemma_before_past(left.skip(1), right.skip(1), agreed - 1);
        assert(left.skip(1).skip(agreed - 1) =~= left.skip(agreed));
        assert(right.skip(1).skip(agreed - 1) =~= right.skip(agreed));
    }
}

/// Bytes, as the numbers that order them.
pub open spec fn byte_ordinal(bytes: Seq<u8>) -> Seq<int> {
    Seq::new(bytes.len(), |i: int| bytes[i] as int)
}

/// Byte strings are listed at one place exactly where they are the same.
pub proof fn lemma_byte_ordinal(left: Seq<u8>, right: Seq<u8>)
    ensures
        (byte_ordinal(left) == byte_ordinal(right)) == (left == right),
{
    if byte_ordinal(left) == byte_ordinal(right) {
        assert(left.len() == byte_ordinal(left).len());
        assert forall|i: int| 0 <= i < left.len() implies left[i] == right[i] by {
            assert(byte_ordinal(left)[i] == left[i] as int);
            assert(byte_ordinal(right)[i] == right[i] as int);
        }
        assert(left =~= right);
    }
}

/// Whether one byte string is listed before another.
pub fn bytes_precede(left: &[u8], right: &[u8]) -> (r: bool)
    ensures
        r == before(byte_ordinal(left@), byte_ordinal(right@)),
{
    let ghost a = byte_ordinal(left@);
    let ghost b = byte_ordinal(right@);
    let mut i: usize = 0;
    while i < left.len() && i < right.len()
        invariant
            i <= left.len(),
            i <= right.len(),
            a == byte_ordinal(left@),
            b == byte_ordinal(right@),
            forall|j: int| 0 <= j < i ==> a[j] == b[j],
        decreases left.len() - i,
    {
        if left[i] != right[i] {
            proof {
                lemma_before_past(a, b, i as int);
                assert(a.skip(i as int)[0] == left@[i as int] as int);
                assert(b.skip(i as int)[0] == right@[i as int] as int);
            }
            return left[i] < right[i];
        }
        i = i + 1;
    }
    proof {
        lemma_before_past(a, b, i as int);
    }
    i < right.len()
}

/// Nothing is before itself.
pub proof fn lemma_not_before_itself(run: Seq<int>)
    ensures
        !before(run, run),
    decreases run.len(),
{
    if run.len() > 0 {
        lemma_not_before_itself(run.skip(1));
    }
}

/// What is before something before a third is before the third.
pub proof fn lemma_before_is_transitive(a: Seq<int>, b: Seq<int>, c: Seq<int>)
    requires
        before(a, b),
        before(b, c),
    ensures
        before(a, c),
    decreases a.len(),
{
    if a.len() > 0 && a[0] == b[0] && b[0] == c[0] {
        lemma_before_is_transitive(a.skip(1), b.skip(1), c.skip(1));
    }
}

/// Of two runs that differ, one is before the other.
pub proof fn lemma_before_is_total(left: Seq<int>, right: Seq<int>)
    ensures
        left == right || before(left, right) || before(right, left),
    decreases left.len(),
{
    if left.len() > 0 && right.len() > 0 && left[0] == right[0] {
        lemma_before_is_total(left.skip(1), right.skip(1));
        if left.skip(1) == right.skip(1) {
            assert(left =~= seq![left[0]] + left.skip(1));
            assert(right =~= seq![right[0]] + right.skip(1));
        }
    } else if left.len() == 0 && right.len() == 0 {
        assert(left =~= right);
    }
}

/// Values under keys, one for each key, listed in key order.
#[derive(Debug, PartialEq, Eq)]
pub struct Table<K: TableKey, V> {
    entries: Vec<(K, V)>,
}

impl<K: TableKey, V> Table<K, V> {
    /// The entries, in key order.
    pub closed spec fn listed(self) -> Seq<(K, V)> {
        self.entries@
    }

    /// What is under a key, where there is anything.
    pub open spec fn under(self, key: Seq<int>) -> Option<V> {
        value_under(self.listed(), key)
    }

    /// Whether the entries stand in key order, one for each key.
    #[verifier::type_invariant]
    spec fn in_order(self) -> bool {
        ordered(self.entries@)
    }

    /// A table of nothing.
    pub fn new() -> (r: Self)
        ensures
            r.listed().len() == 0,
    {
        Table { entries: Vec::new() }
    }

    /// How many entries there are.
    pub fn len(&self) -> (r: usize)
        ensures
            r == self.listed().len(),
            ordered(self.listed()),
    {
        proof {
            use_type_invariant(self);
        }
        self.entries.len()
    }

    /// Whether there are none.
    pub fn is_empty(&self) -> (r: bool)
        ensures
            r == (self.listed().len() == 0),
    {
        self.entries.len() == 0
    }

    /// The `index`-th key.
    pub fn key(&self, index: usize) -> (r: &K)
        requires
            index < self.listed().len(),
        ensures
            *r == self.listed()[index as int].0,
    {
        &self.entries[index].0
    }

    /// The value under the `index`-th key.
    pub fn value(&self, index: usize) -> (r: &V)
        requires
            index < self.listed().len(),
        ensures
            *r == self.listed()[index as int].1,
    {
        &self.entries[index].1
    }

    /// What is under a key, where there is anything.
    pub fn get(&self, key: &K) -> (r: Option<&V>)
        ensures
            match r {
                Some(value) => self.under(key.ordinal()) == Some(*value),
                None => self.under(key.ordinal()) is None,
            },
    {
        let mut i: usize = 0;
        while i < self.entries.len()
            invariant
                i <= self.entries.len(),
                forall|j: int|
                    0 <= j < i ==> (#[trigger] self.entries@[j]).0.ordinal() != key.ordinal(),
            decreases self.entries.len() - i,
        {
            if self.entries[i].0.coincides(key) {
                proof {
                    lemma_value_at(self.entries@, key.ordinal(), i as int);
                }
                return Some(&self.entries[i].1);
            }
            i = i + 1;
        }
        proof {
            lemma_no_value(self.entries@, key.ordinal());
        }
        None
    }

    /// Where a key is listed, or would be.
    fn place(&self, key: &K) -> (r: usize)
        ensures
            r <= self.listed().len(),
            forall|j: int| 0 <= j < r ==> before((#[trigger] self.listed()[j]).0.ordinal(), key.ordinal()),
            forall|j: int|
                r <= j < self.listed().len() ==> !before(
                    (#[trigger] self.listed()[j]).0.ordinal(),
                    key.ordinal(),
                ),
    {
        proof {
            use_type_invariant(self);
        }
        let mut at: usize = 0;
        while at < self.entries.len() && self.entries[at].0.precedes(key)
            invariant
                at <= self.entries.len(),
                forall|j: int|
                    0 <= j < at ==> before((#[trigger] self.entries@[j]).0.ordinal(), key.ordinal()),
            decreases self.entries.len() - at,
        {
            at = at + 1;
        }
        proof {
            assert forall|j: int| at <= j < self.entries@.len() implies !before(
                (#[trigger] self.entries@[j]).0.ordinal(),
                key.ordinal(),
            ) by {
                if j > at && before(self.entries@[j].0.ordinal(), key.ordinal()) {
                    lemma_before_is_transitive(
                        self.entries@[at as int].0.ordinal(),
                        self.entries@[j].0.ordinal(),
                        key.ordinal(),
                    );
                }
            }
        }
        at
    }

    /// Put a value under a key, in place of any already there.
    pub fn insert(&mut self, key: K, value: V)
        ensures
            final(self).under(key.ordinal()) == Some(value),
            forall|other: Seq<int>|
                other != key.ordinal() ==> #[trigger] final(self).under(other) == old(self).under(
                    other,
                ),
    {
        proof {
            use_type_invariant(&*self);
        }
        let at = self.place(&key);
        let ghost before_entries = self.entries@;
        let stands = at < self.entries.len() && self.entries[at].0.coincides(&key);
        if stands {
            let mut fresh: Vec<(K, V)> = Vec::new();
            std::mem::swap(&mut fresh, &mut self.entries);
            fresh.set(at, (key, value));
            proof {
                lemma_replaced(before_entries, at as int, key, value);
            }
            self.entries = fresh;
        } else {
            let mut fresh: Vec<(K, V)> = Vec::new();
            std::mem::swap(&mut fresh, &mut self.entries);
            fresh.insert(at, (key, value));
            proof {
                lemma_inserted(before_entries, at as int, key, value);
            }
            self.entries = fresh;
        }
    }

    /// Put the first value in a table of nothing.
    pub fn push_first(&mut self, key: K, value: V)
        requires
            old(self).listed().len() == 0,
        ensures
            final(self).listed() == seq![(key, value)],
    {
        let mut fresh: Vec<(K, V)> = Vec::new();
        fresh.push((key, value));
        assert(fresh@ =~= seq![(key, value)]);
        self.entries = fresh;
    }

    /// Put a value under a key where nothing is there already, and leave
    /// what is there otherwise.
    pub fn insert_first(&mut self, key: K, value: V)
        ensures
            final(self).under(key.ordinal()) == (match old(self).under(key.ordinal()) {
                Some(held) => Some(held),
                None => Some(value),
            }),
            forall|other: Seq<int>|
                other != key.ordinal() ==> #[trigger] final(self).under(other) == old(self).under(
                    other,
                ),
    {
        if self.get(&key).is_none() {
            self.insert(key, value);
        }
    }
}

/// Whether entries stand in key order, one for each key.
pub open spec fn ordered<K: TableKey, V>(entries: Seq<(K, V)>) -> bool {
    forall|i: int, j: int|
        0 <= i < j < entries.len() ==> before(
            (#[trigger] entries[i]).0.ordinal(),
            (#[trigger] entries[j]).0.ordinal(),
        )
}

/// What a run of entries first holds under a key.
pub open spec fn value_under<K: TableKey, V>(entries: Seq<(K, V)>, key: Seq<int>) -> Option<V>
    decreases entries.len(),
{
    if entries.len() == 0 {
        None
    } else if entries[0].0.ordinal() == key {
        Some(entries[0].1)
    } else {
        value_under(entries.skip(1), key)
    }
}

/// Where a run of entries first holds a key is what it holds under it.
proof fn lemma_value_at<K: TableKey, V>(entries: Seq<(K, V)>, key: Seq<int>, at: int)
    requires
        0 <= at < entries.len(),
        entries[at].0.ordinal() == key,
        forall|i: int| 0 <= i < at ==> (#[trigger] entries[i]).0.ordinal() != key,
    ensures
        value_under(entries, key) == Some(entries[at].1),
    decreases at,
{
    if at > 0 {
        assert(entries[0].0.ordinal() != key);
        let rest = entries.skip(1);
        assert forall|i: int| 0 <= i < at - 1 implies (#[trigger] rest[i]).0.ordinal() != key by {
            assert(rest[i] == entries[i + 1]);
        }
        lemma_value_at(rest, key, at - 1);
    }
}

/// A run of entries without a key holds nothing under it.
proof fn lemma_no_value<K: TableKey, V>(entries: Seq<(K, V)>, key: Seq<int>)
    requires
        forall|i: int| 0 <= i < entries.len() ==> (#[trigger] entries[i]).0.ordinal() != key,
    ensures
        value_under(entries, key) is None,
    decreases entries.len(),
{
    if entries.len() > 0 {
        assert(entries[0].0.ordinal() != key);
        let rest = entries.skip(1);
        assert forall|i: int| 0 <= i < rest.len() implies (#[trigger] rest[i]).0.ordinal()
            != key by {
            assert(rest[i] == entries[i + 1]);
        }
        lemma_no_value(rest, key);
    }
}

/// One more entry at the end changes nothing under any other key.
pub proof fn lemma_value_under_push<K: TableKey, V>(
    entries: Seq<(K, V)>,
    entry: (K, V),
    key: Seq<int>,
)
    requires
        entry.0.ordinal() != key,
    ensures
        value_under(entries.push(entry), key) == value_under(entries, key),
    decreases entries.len(),
{
    let longer = entries.push(entry);
    if entries.len() == 0 {
        reveal_with_fuel(value_under, 2);
    } else {
        assert(longer.skip(1) =~= entries.skip(1).push(entry));
        lemma_value_under_push(entries.skip(1), entry, key);
    }
}

/// In ordered entries a key is held where it stands, wherever that is.
pub proof fn lemma_ordered_value<K: TableKey, V>(entries: Seq<(K, V)>, at: int)
    requires
        ordered(entries),
        0 <= at < entries.len(),
    ensures
        value_under(entries, entries[at].0.ordinal()) == Some(entries[at].1),
{
    assert forall|i: int| 0 <= i < at implies (#[trigger] entries[i]).0.ordinal()
        != entries[at].0.ordinal() by {
        lemma_not_before_itself(entries[at].0.ordinal());
    }
    lemma_value_at(entries, entries[at].0.ordinal(), at);
}

/// In ordered entries nothing before a place is listed where it is.
pub proof fn lemma_nothing_before<K: TableKey, V>(entries: Seq<(K, V)>, at: int)
    requires
        ordered(entries),
        0 <= at < entries.len(),
    ensures
        value_under(entries.take(at), entries[at].0.ordinal()) is None,
{
    assert forall|i: int| 0 <= i < at implies (#[trigger] entries.take(at)[i]).0.ordinal()
        != entries[at].0.ordinal() by {
        assert(before(entries[i].0.ordinal(), entries[at].0.ordinal()));
        lemma_not_before_itself(entries[at].0.ordinal());
    }
    lemma_no_value(entries.take(at), entries[at].0.ordinal());
}

/// What is under a key stands somewhere.
pub proof fn lemma_value_stands<K: TableKey, V>(entries: Seq<(K, V)>, key: Seq<int>) -> (at: int)
    requires
        value_under(entries, key) is Some,
    ensures
        0 <= at < entries.len(),
        entries[at].0.ordinal() == key,
        value_under(entries, key) == Some(entries[at].1),
    decreases entries.len(),
{
    if entries[0].0.ordinal() == key {
        0
    } else {
        let rest = lemma_value_stands(entries.skip(1), key);
        assert(entries.skip(1)[rest] == entries[rest + 1]);
        rest + 1
    }
}

/// What two ordered runs hold under a key is the same where one entry for
/// it stands in both or in neither.
proof fn lemma_same_value<K: TableKey, V>(
    left: Seq<(K, V)>,
    right: Seq<(K, V)>,
    key: Seq<int>,
)
    requires
        ordered(left),
        ordered(right),
        forall|i: int|
            0 <= i < left.len() && (#[trigger] left[i]).0.ordinal() == key ==> exists|j: int|
                0 <= j < right.len() && #[trigger] right[j] == left[i],
        forall|j: int|
            0 <= j < right.len() && (#[trigger] right[j]).0.ordinal() == key ==> exists|i: int|
                0 <= i < left.len() && #[trigger] left[i] == right[j],
    ensures
        value_under(left, key) == value_under(right, key),
{
    if exists|i: int| 0 <= i < left.len() && (#[trigger] left[i]).0.ordinal() == key {
        let i = choose|i: int| 0 <= i < left.len() && (#[trigger] left[i]).0.ordinal() == key;
        let j = choose|j: int| 0 <= j < right.len() && #[trigger] right[j] == left[i];
        lemma_ordered_value(left, i);
        lemma_ordered_value(right, j);
    } else {
        lemma_no_value(left, key);
        assert forall|j: int| 0 <= j < right.len() implies (#[trigger] right[j]).0.ordinal()
            != key by {
            if right[j].0.ordinal() == key {
                let i = choose|i: int| 0 <= i < left.len() && #[trigger] left[i] == right[j];
                assert(left[i].0.ordinal() == key);
            }
        }
        lemma_no_value(right, key);
    }
}

/// Replacing the value where its key stands changes what is under that key
/// and nothing else.
proof fn lemma_replaced<K: TableKey, V>(entries: Seq<(K, V)>, at: int, key: K, value: V)
    requires
        ordered(entries),
        0 <= at < entries.len(),
        entries[at].0.ordinal() == key.ordinal(),
    ensures
        ({
            let after = entries.update(at, (key, value));
            &&& ordered(after)
            &&& value_under(after, key.ordinal()) == Some(value)
            &&& forall|other: Seq<int>|
                other != key.ordinal() ==> #[trigger] value_under(after, other) == value_under(
                    entries,
                    other,
                )
        }),
{
    let after = entries.update(at, (key, value));
    assert forall|i: int, j: int| 0 <= i < j < after.len() implies before(
        (#[trigger] after[i]).0.ordinal(),
        (#[trigger] after[j]).0.ordinal(),
    ) by {
        assert(before(entries[i].0.ordinal(), entries[j].0.ordinal()));
    }
    lemma_ordered_value(after, at);
    assert forall|other: Seq<int>| other != key.ordinal() implies #[trigger] value_under(
        after,
        other,
    ) == value_under(entries, other) by {
        assert forall|i: int|
            0 <= i < after.len() && (#[trigger] after[i]).0.ordinal() == other implies exists|j: int|
            0 <= j < entries.len() && #[trigger] entries[j] == after[i] by {
            assert(entries[i] == after[i]);
        }
        assert forall|j: int|
            0 <= j < entries.len() && (#[trigger] entries[j]).0.ordinal()
                == other implies exists|i: int|
            0 <= i < after.len() && #[trigger] after[i] == entries[j] by {
            assert(after[j] == entries[j]);
        }
        lemma_same_value(after, entries, other);
    }
}

/// Inserting a value where its key belongs puts it under that key and
/// changes nothing else.
proof fn lemma_inserted<K: TableKey, V>(entries: Seq<(K, V)>, at: int, key: K, value: V)
    requires
        ordered(entries),
        0 <= at <= entries.len(),
        forall|j: int|
            0 <= j < at ==> before((#[trigger] entries[j]).0.ordinal(), key.ordinal()),
        forall|j: int|
            at <= j < entries.len() ==> !before(
                (#[trigger] entries[j]).0.ordinal(),
                key.ordinal(),
            ),
        at < entries.len() ==> entries[at].0.ordinal() != key.ordinal(),
    ensures
        ({
            let after = entries.insert(at, (key, value));
            &&& ordered(after)
            &&& value_under(after, key.ordinal()) == Some(value)
            &&& forall|other: Seq<int>|
                other != key.ordinal() ==> #[trigger] value_under(after, other) == value_under(
                    entries,
                    other,
                )
        }),
{
    let after = entries.insert(at, (key, value));
    assert forall|j: int| at <= j < entries.len() implies before(
        key.ordinal(),
        (#[trigger] entries[j]).0.ordinal(),
    ) by {
        lemma_before_is_total(key.ordinal(), entries[j].0.ordinal());
        if key.ordinal() == entries[j].0.ordinal() {
            assert(before(entries[at].0.ordinal(), entries[j].0.ordinal()));
        }
    }
    assert(after[at] == (key, value));
    assert(forall|j: int| 0 <= j < at ==> #[trigger] after[j] == entries[j]);
    assert(forall|j: int| at < j < after.len() ==> #[trigger] after[j] == entries[j - 1]);
    assert forall|i: int, j: int| 0 <= i < j < after.len() implies before(
        (#[trigger] after[i]).0.ordinal(),
        (#[trigger] after[j]).0.ordinal(),
    ) by {
        if i == at {
            assert(before(key.ordinal(), entries[j - 1].0.ordinal()));
        } else if j == at {
            assert(before(entries[i].0.ordinal(), key.ordinal()));
        } else {
            let p = if i < at {
                i
            } else {
                i - 1
            };
            let q = if j < at {
                j
            } else {
                j - 1
            };
            assert(before(entries[p].0.ordinal(), entries[q].0.ordinal()));
        }
    }
    lemma_ordered_value(after, at);
    assert forall|other: Seq<int>| other != key.ordinal() implies #[trigger] value_under(
        after,
        other,
    ) == value_under(entries, other) by {
        assert forall|i: int|
            0 <= i < after.len() && (#[trigger] after[i]).0.ordinal() == other implies exists|j: int|
            0 <= j < entries.len() && #[trigger] entries[j] == after[i] by {
            if i < at {
                assert(entries[i] == after[i]);
            } else {
                assert(entries[i - 1] == after[i]);
            }
        }
        assert forall|j: int|
            0 <= j < entries.len() && (#[trigger] entries[j]).0.ordinal()
                == other implies exists|i: int|
            0 <= i < after.len() && #[trigger] after[i] == entries[j] by {
            if j < at {
                assert(after[j] == entries[j]);
            } else {
                assert(after[j + 1] == entries[j]);
            }
        }
        lemma_same_value(after, entries, other);
    }
}

impl TableKey for String {
    open spec fn ordinal(self) -> Seq<int> {
        text_ordinal(self@)
    }

    fn precedes(&self, other: &Self) -> (r: bool) {
        let left = self.as_str();
        let right = other.as_str();
        let here = left.unicode_len();
        let there = right.unicode_len();
        let ghost a = text_ordinal(self@);
        let ghost b = text_ordinal(other@);
        let mut i: usize = 0;
        while i < here && i < there
            invariant
                i <= here,
                i <= there,
                here == a.len(),
                there == b.len(),
                left@ == self@,
                right@ == other@,
                a == text_ordinal(self@),
                b == text_ordinal(other@),
                forall|j: int| 0 <= j < i ==> a[j] == b[j],
            decreases here - i,
        {
            let one = left.get_char(i);
            let two = right.get_char(i);
            if one != two {
                proof {
                    lemma_before_past(a, b, i as int);
                    assert(a.skip(i as int)[0] == one as int);
                    assert(b.skip(i as int)[0] == two as int);
                }
                return (one as u32) < (two as u32);
            }
            i = i + 1;
        }
        proof {
            lemma_before_past(a, b, i as int);
        }
        i < there
    }

    fn coincides(&self, other: &Self) -> (r: bool) {
        proof {
            lemma_text_ordinal(self@, other@);
        }
        *self == *other
    }
}

} // verus!
