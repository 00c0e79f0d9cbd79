//! The string table of a locale: translation keys and their plural forms.

use vstd::prelude::*;

verus! {

/// One key with its forms, in the order the locale lists them.
#[derive(Debug, Clone)]
pub struct Entry {
    pub key: String,
    pub forms: Vec<String>,
}

/// Keys and their forms.
///
/// A table that is well formed has every key once, as a hash map has.
/// `new` and `insert` make and keep tables so; where a key stands twice
/// all the same, the first entry counts.
#[derive(Debug, Clone)]
pub struct StringTable {
    pub entries: Vec<Entry>,
}

/// The forms as character sequences.
pub open spec fn forms_view(forms: Seq<String>) -> Seq<Seq<char>> {
    Seq::new(forms.len(), |i: int| forms[i]@)
}

/// The place of the first entry at or after `from` whose key is `key`.
pub open spec fn position_from(entries: Seq<Entry>, key: Seq<char>, from: int) -> Option<int>
    decreases entries.len() - from,
{
    if from < 0 || from >= entries.len() {
        None
    } else if entries[from].key@ == key {
        Some(from)
    } else {
        position_from(entries, key, from + 1)
    }
}

/// No key stands twice.
pub open spec fn distinct_keys(entries: Seq<Entry>) -> bool {
    forall|i: int, j: int|
        0 <= i < j < entries.len() ==> #[trigger] entries[i].key@ != #[trigger] entries[j].key@
}

/// Every entry has at least one form.
pub open spec fn all_have_forms(entries: Seq<Entry>) -> bool {
    forall|i: int| 0 <= i < entries.len() ==> entries[i].forms@.len() > 0
}

impl StringTable {
    /// The place of the entry that stands for `key`.
    pub open spec fn position(&self, key: Seq<char>) -> Option<int> {
        position_from(self.entries@, key, 0)
    }

    /// The forms of `key`, where the table has the key.
    pub open spec fn forms_of(&self, key: Seq<char>) -> Option<Seq<Seq<char>>> {
        match self.position(key) {
            Some(i) => Some(forms_view(self.entries@[i].forms@)),
            None => None,
        }
    }

    /// No key stands twice and every key has at least one form.
    pub open spec fn wf(&self) -> bool {
        &&& distinct_keys(self.entries@)
        &&& all_have_forms(self.entries@)
    }

    /// The table without entries.
    pub fn new() -> (table: StringTable)
        ensures
            table.entries@.len() == 0,
            forall|key: Seq<char>| table.forms_of(key) is None,
            table.wf(),
    {
        StringTable { entries: Vec::new() }
    }

    /// The number of entries.
    pub fn len(&self) -> (n: usize)
        ensures
            n == self.entries@.len(),
    {
        self.entries.len()
    }

    /// The place of the entry that stands for `key`.
    pub fn find(&self, key: &str) -> (found: Option<usize>)
        ensures
            match found {
                Some(i) => self.position(key@) == Some(i as int) && i < self.entries@.len()
                    && self.entries@[i as int].key@ == key@,
                None => self.position(key@) is None,
            },
    {
        let wanted = String::from_str(key);
        let mut i: usize = 0;
        while i < self.entries.len()
            invariant
                i <= self.entries.len(),
                wanted@ == key@,
                self.position(key@) == position_from(self.entries@, key@, i as int),
            decreases self.entries.len() - i,
        {
            if self.entries[i].key == wanted {
                return Some(i);
            }
            i = i + 1;
        }
        None
    }

    /// The forms of `key`.
    pub fn get(&self, key: &str) -> (forms: Option<&Vec<String>>)
        ensures
            match forms {
                Some(v) => self.forms_of(key@) == Some(forms_view(v@)),
                None => self.forms_of(key@) is None,
            },
    {
        match self.find(key) {
            Some(i) => Some(&self.entries[i].forms),
            None => None,
        }
    }

    /// Gives `key` the forms `forms`: in place of the ones it had, or as
    /// a new entry at the end. No key comes to stand twice by it.
    pub fn insert(&mut self, key: String, forms: Vec<String>)
        ensures
            final(self).forms_of(key@) == Some(forms_view(forms@)),
            forall|other: Seq<char>|
                other != key@ ==> final(self).forms_of(other) == old(self).forms_of(other),
            distinct_keys(old(self).entries@) ==> distinct_keys(final(self).entries@),
            old(self).wf() && forms@.len() > 0 ==> final(self).wf(),
    {
        let found = self.find(key.as_str());
        let ghost before = self.entries@;
        match found {
            Some(i) => {
                let entry = Entry { key, forms };
                self.entries.set(i, entry);
                proof {
                    let after = self.entries@;
                    assert forall|other: Seq<char>| true implies #[trigger] position_from(
                        after,
                        other,
                        0,
                    ) == position_from(before, other, 0) by {
                        lemma_same_keys(before, after, other, 0);
                    }
                    assert forall|other: Seq<char>| other != entry.key@ implies self.forms_of(other)
                        == old(self).forms_of(other) by {
                        lemma_position_found(before, other, 0);
                        assert(position_from(after, other, 0) == position_from(before, other, 0));
                    }
                    assert forall|k: int| 0 <= k < after.len() implies #[trigger] after[k].key@
                        == before[k].key@ && (k != i ==> after[k] == before[k]) by {}
                }
            },
            None => {
                let entry = Entry { key, forms };
                self.entries.push(entry);
                proof {
                    let after = self.entries@;
                    assert forall|other: Seq<char>| true implies #[trigger] position_from(
                        after,
                        other,
                        0,
                    ) == (if position_from(before, other, 0) is None && other == entry.key@ {
                        Some(before.len() as int)
                    } else {
                        position_from(before, other, 0)
                    }) by {
                        lemma_position_pushed(before, entry, other, 0);
                    }
                    assert forall|other: Seq<char>| other != entry.key@ implies self.forms_of(other)
                        == old(self).forms_of(other) by {
                        lemma_position_found(before, other, 0);
                        assert(position_from(after, other, 0) == position_from(before, other, 0));
                    }
                    assert(position_from(after, entry.key@, 0) == Some(before.len() as int));
                    lemma_position_absent(before, entry.key@, 0);
                    assert forall|k: int| 0 <= k < before.len() implies #[trigger] after[k]
                        == before[k] by {}
                }
            },
        }
    }

    /// Whether no key stands twice and every key has at least one form.
    pub fn is_valid(&self) -> (valid: bool)
        ensures
            valid == self.wf(),
    {
        let mut i: usize = 0;
        while i < self.entries.len()
            invariant
                i <= self.entries.len(),
                forall|j: int| 0 <= j < i ==> self.entries@[j].forms@.len() > 0,
                forall|j: int, k: int|
                    0 <= j < k < i ==> #[trigger] self.entries@[j].key@
                        != #[trigger] self.entries@[k].key@,
            decreases self.entries.len() - i,
        {
            if self.entries[i].forms.len() == 0 {
                return false;
            }
            proof {
                lemma_position_first(self.entries@, self.entries@[i as int].key@, 0, i as int);
            }
            match self.find(self.entries[i].key.as_str()) {
                Some(first) => {
                    if first != i {
                        return false;
                    }
                },
                None => {
                    return false;
                },
            }
            i = i + 1;
        }
        true
    }
}

/// Two tables with the same keys in the same places find every key in
/// the same place.
pub proof fn lemma_same_keys(a: Seq<Entry>, b: Seq<Entry>, key: Seq<char>, from: int)
    requires
        a.len() == b.len(),
        forall|i: int| 0 <= i < a.len() ==> a[i].key@ == b[i].key@,
    ensures
        position_from(a, key, from) == position_from(b, key, from),
    decreases a.len() - from,
{
    if 0 <= from < a.len() && a[from].key@ != key {
        lemma_same_keys(a, b, key, from + 1);
    }
}

/// A key is found at a place that holds it.
pub proof fn lemma_position_found(entries: Seq<Entry>, key: Seq<char>, from: int)
    ensures
        match position_from(entries, key, from) {
            Some(i) => from <= i < entries.len() && entries[i].key@ == key,
            None => true,
        },
    decreases entries.len() - from,
{
    if 0 <= from < entries.len() && entries[from].key@ != key {
        lemma_position_found(entries, key, from + 1);
    }
}

/// A key that is not found stands nowhere from the start on.
pub proof fn lemma_position_absent(entries: Seq<Entry>, key: Seq<char>, from: int)
    requires
        0 <= from,
        position_from(entries, key, from) is None,
    ensures
        forall|i: int| from <= i < entries.len() ==> #[trigger] entries[i].key@ != key,
    decreases entries.len() - from,
{
    if from < entries.len() {
        lemma_position_absent(entries, key, from + 1);
    }
}

/// A key that stands at `at` is found there or before, and at no place
/// before the one where it is found.
pub proof fn lemma_position_first(entries: Seq<Entry>, key: Seq<char>, from: int, at: int)
    requires
        0 <= from <= at < entries.len(),
        entries[at].key@ == key,
    ensures
        position_from(entries, key, from) is Some,
        from <= position_from(entries, key, from)->0 <= at,
        entries[position_from(entries, key, from)->0].key@ == key,
        forall|i: int|
            from <= i < position_from(entries, key, from)->0 ==> #[trigger] entries[i].key@ != key,
    decreases at - from,
{
    if entries[from].key@ != key {
        lemma_position_first(entries, key, from + 1, at);
    }
}

/// Where a key is found after one more entry is put at the end.
pub proof fn lemma_position_pushed(entries: Seq<Entry>, entry: Entry, key: Seq<char>, from: int)
    requires
        0 <= from <= entries.len(),
    ensures
        position_from(entries.push(entry), key, from) == (if position_from(entries, key, from)
            is None && key == entry.key@ {
            Some(entries.len() as int)
        } else {
            position_from(entries, key, from)
        }),
    decreases entries.len() - from,
{
    let longer = entries.push(entry);
    if from < entries.len() {
        assert(longer[from] == entries[from]);
        if entries[from].key@ != key {
            lemma_position_pushed(entries, entry, key, from + 1);
        }
    } else {
        assert(longer[from] == entry);
        assert(position_from(longer, key, from + 1) is None);
    }
}

} // verus!
