//! The tags of an element: free-form text values under text keys, each key
//! at most once.

use vstd::prelude::*;
use crate::text::same_text;

verus! {

/// One key with its value.
#[derive(Debug)]
pub struct Tag {
    pub key: String,
    pub value: String,
}

/// The tags of one element, viewed as a map from key to value.
///
/// The order in which the tags are held is that in which their keys were
/// first inserted; it carries no meaning.
#[derive(Debug)]
pub struct Tags {
    entries: Vec<Tag>,
}

/// The keys of a sequence of tags, in the order of the tags.
pub open spec fn keys_of(entries: Seq<Tag>) -> Seq<Seq<char>> {
    Seq::new(entries.len(), |i: int| entries[i].key@)
}

/// The map from the keys of a sequence of tags to their values.
pub open spec fn map_of(entries: Seq<Tag>) -> Map<Seq<char>, Seq<char>> {
    Map::new(
        |key: Seq<char>| keys_of(entries).contains(key),
        |key: Seq<char>| entries[keys_of(entries).index_of(key)].value@,
    )
}

/// The tag at `index` is what the map holds under its key, as long as no key occurs twice.
proof fn map_of_holds_entry(entries: Seq<Tag>, index: int)
    requires
        keys_of(entries).no_duplicates(),
        0 <= index < entries.len(),
    ensures
        map_of(entries).contains_key(entries[index].key@),
        map_of(entries)[entries[index].key@] == entries[index].value@,
{
    let keys = keys_of(entries);
    assert(keys[index] == entries[index].key@);
    assert(keys.contains(entries[index].key@));
    let found = keys.index_of(entries[index].key@);
    assert(keys[found] == keys[index]);
}

/// A key that stands at no index is not in the map.
proof fn map_of_lacks_key(entries: Seq<Tag>, key: Seq<char>)
    requires
        forall|i: int| 0 <= i < entries.len() ==> entries[i].key@ != key,
    ensures
        !map_of(entries).contains_key(key),
{
    let keys = keys_of(entries);
    if keys.contains(key) {
        let i = choose|i: int| 0 <= i < keys.len() && keys[i] == key;
        assert(entries[i].key@ == key);
    }
}

impl View for Tags {
    type V = Map<Seq<char>, Seq<char>>;

    closed spec fn view(&self) -> Map<Seq<char>, Seq<char>> {
        map_of(self.entries@)
    }
}

impl Tags {
    /// The invariant of the representation: no key is held twice.
    #[verifier::type_invariant]
    pub closed spec fn wf(self) -> bool {
        keys_of(self.entries@).no_duplicates()
    }

    /// The tags in the order in which they are held.
    pub closed spec fn entries(&self) -> Seq<Tag> {
        self.entries@
    }

    /// No tags at all.
    pub fn new() -> (r: Tags)
        ensures
            r@ == Map::<Seq<char>, Seq<char>>::empty(),
            r.entries().len() == 0,
    {
        let r = Tags { entries: Vec::new() };
        assert(r@ =~= Map::<Seq<char>, Seq<char>>::empty()) by {
            map_of_lacks_all(r.entries@);
        }
        r
    }

    /// The index at which `key` stands, if it stands at any.
    fn position(entries: &Vec<Tag>, key: &str) -> (r: Option<usize>)
        ensures
            match r {
                Some(index) => index < entries.len() && entries[index as int].key@ == key@,
                None => forall|i: int| 0 <= i < entries.len() ==> entries[i].key@ != key@,
            },
    {
        let mut index: usize = 0;
        while index < entries.len()
            invariant
                index <= entries.len(),
                forall|i: int| 0 <= i < index ==> entries[i].key@ != key@,
            decreases entries.len() - index,
        {
            if same_text(entries[index].key.as_str(), key) {
                return Some(index);
            }
            index = index + 1;
        }
        None
    }

    /// Sets the value of `key` to `value`, whether or not `key` had one.
    pub fn insert(&mut self, key: String, value: String)
        ensures
            final(self)@ == old(self)@.insert(key@, value@),
    {
        proof {
            use_type_invariant(&*self);
        }
        let mut entries: Vec<Tag> = Vec::new();
        std::mem::swap(&mut entries, &mut self.entries);
        let ghost before = entries@;
        match Tags::position(&entries, key.as_str()) {
            Some(index) => {
                entries[index] = Tag { key, value };
                proof {
                    assert(keys_of(entries@) =~= keys_of(before));
                    insert_replaces(before, entries@, index as int);
                }
            },
            None => {
                entries.push(Tag { key, value });
                proof {
                    insert_appends(before, entries@);
                }
            },
        }
        self.entries = entries;
    }

    /// The value of `key`, if it has one.
    pub fn get(&self, key: &str) -> (r: Option<&String>)
        ensures
            match r {
                Some(value) => self@.contains_key(key@) && value@ == self@[key@],
                None => !self@.contains_key(key@),
            },
    {
        proof {
            use_type_invariant(self);
        }
        match Tags::position(&self.entries, key) {
            Some(index) => {
                proof {
                    map_of_holds_entry(self.entries@, index as int);
                }
                Some(&self.entries[index].value)
            },
            None => {
                proof {
                    map_of_lacks_key(self.entries@, key@);
                }
                None
            },
        }
    }

    /// Whether `key` has a value.
    pub fn contains_key(&self, key: &str) -> (r: bool)
        ensures
            r == self@.contains_key(key@),
    {
        self.get(key).is_some()
    }

    /// The number of tags.
    pub fn len(&self) -> (r: usize)
        ensures
            r == self.entries().len(),
            r == self@.len(),
            self@.dom().finite(),
    {
        proof {
            use_type_invariant(self);
            map_of_counts(self.entries@);
        }
        self.entries.len()
    }

    /// Whether there is no tag.
    pub fn is_empty(&self) -> (r: bool)
        ensures
            r == (self@.len() == 0),
            self@.dom().finite(),
    {
        self.len() == 0
    }

    /// The tag at `index` in the order in which the tags are held, or
    /// `None` from `len()` on; the indices below `len()` go through all
    /// tags, each once.
    pub fn get_index(&self, index: usize) -> (r: Option<&Tag>)
        ensures
            index >= self.entries().len() ==> r is None,
            index < self.entries().len() ==> r == Some(&self.entries()[index as int])
                && self@.contains_pair(
                self.entries()[index as int].key@,
                self.entries()[index as int].value@,
            ),
    {
        proof {
            use_type_invariant(self);
        }
        if index < self.entries.len() {
            proof {
                map_of_holds_entry(self.entries@, index as int);
            }
            Some(&self.entries[index])
        } else {
            None
        }
    }
}

/// The tags that are held are those of the map, each once: every tag held
/// is a pair of the map, no key is held twice, and every key of the map is
/// held.
pub proof fn entries_are_the_map(tags: Tags)
    requires
        tags.wf(),
    ensures
        tags.entries().len() == tags@.len(),
        tags@.dom().finite(),
        forall|i: int|
            0 <= i < tags.entries().len() ==> tags@.contains_pair(
                #[trigger] tags.entries()[i].key@,
                tags.entries()[i].value@,
            ),
        forall|i: int, j: int|
            0 <= i < j < tags.entries().len() ==> tags.entries()[i].key@ != tags.entries()[j].key@,
        forall|key: Seq<char>|
            tags@.contains_key(key) ==> exists|i: int|
                0 <= i < tags.entries().len() && #[trigger] tags.entries()[i].key@ == key,
{
    map_of_counts(tags.entries@);
    let entries = tags.entries@;
    let keys = keys_of(entries);
    assert forall|i: int| 0 <= i < entries.len() implies map_of(entries).contains_pair(
        #[trigger] entries[i].key@,
        entries[i].value@,
    ) by {
        map_of_holds_entry(entries, i);
    }
    assert forall|i: int, j: int| 0 <= i < j < entries.len() implies entries[i].key@
        != entries[j].key@ by {
        assert(keys[i] != keys[j]);
    }
    assert forall|key: Seq<char>| tags@.contains_key(key) implies exists|i: int|
        0 <= i < tags.entries().len() && #[trigger] tags.entries()[i].key@ == key by {
        let i = keys.index_of(key);
        assert(keys[i] == tags.entries()[i].key@);
    }
}

/// Without tags the map is empty.
proof fn map_of_lacks_all(entries: Seq<Tag>)
    requires
        entries.len() == 0,
    ensures
        forall|key: Seq<char>| !map_of(entries).contains_key(key),
{
    assert forall|key: Seq<char>| !map_of(entries).contains_key(key) by {
        map_of_lacks_key(entries, key);
    }
}

/// The map has as many keys as there are tags, as long as no key occurs twice.
proof fn map_of_counts(entries: Seq<Tag>)
    requires
        keys_of(entries).no_duplicates(),
    ensures
        map_of(entries).dom().finite(),
        map_of(entries).len() == entries.len(),
{
    let keys = keys_of(entries);
    keys.unique_seq_to_set();
    assert(map_of(entries).dom() =~= keys.to_set());
    vstd::seq_lib::seq_to_set_is_finite(keys);
}

/// Replacing the value of the tag at `index` is inserting into the map.
proof fn insert_replaces(before: Seq<Tag>, after: Seq<Tag>, index: int)
    requires
        keys_of(before).no_duplicates(),
        0 <= index < before.len(),
        after.len() == before.len(),
        after[index].key@ == before[index].key@,
        forall|i: int| 0 <= i < before.len() && i != index ==> after[i] == before[i],
    ensures
        keys_of(after).no_duplicates(),
        map_of(after) == map_of(before).insert(after[index].key@, after[index].value@),
{
    assert(keys_of(after) =~= keys_of(before));
    let expected = map_of(before).insert(after[index].key@, after[index].value@);
    assert forall|key: Seq<char>| map_of(after).contains_key(key) == expected.contains_key(
        key,
    ) by {
        map_of_holds_entry(before, index);
    }
    assert forall|key: Seq<char>| map_of(after).contains_key(key) implies map_of(after)[key]
        == expected[key] by {
        let i = keys_of(after).index_of(key);
        map_of_holds_entry(after, i);
        if i != index {
            map_of_holds_entry(before, i);
            assert(keys_of(before)[i] != keys_of(before)[index]);
        }
    }
    assert(map_of(after) =~= expected);
}

/// Adding a tag with a new key at the end is inserting into the map.
proof fn insert_appends(before: Seq<Tag>, after: Seq<Tag>)
    requires
        keys_of(before).no_duplicates(),
        after.len() == before.len() + 1,
        forall|i: int| 0 <= i < before.len() ==> after[i] == before[i],
        forall|i: int| 0 <= i < before.len() ==> before[i].key@ != after[before.len() as int].key@,
    ensures
        keys_of(after).no_duplicates(),
        map_of(after) == map_of(before).insert(
            after[before.len() as int].key@,
            after[before.len() as int].value@,
        ),
{
    let last = before.len() as int;
    let expected = map_of(before).insert(after[last].key@, after[last].value@);
    assert forall|i: int, j: int|
        0 <= i < keys_of(after).len() && 0 <= j < keys_of(after).len() && i != j implies keys_of(
        after,
    )[i] != keys_of(after)[j] by {
        if i < last && j < last {
            assert(keys_of(before)[i] != keys_of(before)[j]);
        }
    }
    assert forall|key: Seq<char>| map_of(after).contains_key(key) == expected.contains_key(
        key,
    ) by {
        if map_of(after).contains_key(key) {
            let i = keys_of(after).index_of(key);
            if i < last {
                assert(keys_of(before)[i] == key);
            }
        }
        if map_of(before).contains_key(key) {
            let i = keys_of(before).index_of(key);
            assert(keys_of(after)[i] == key);
        }
        if key == after[last].key@ {
            assert(keys_of(after)[last] == key);
        }
    }
    assert forall|key: Seq<char>| map_of(after).contains_key(key) implies map_of(after)[key]
        == expected[key] by {
        let i = keys_of(after).index_of(key);
        map_of_holds_entry(after, i);
        if i < last {
            map_of_holds_entry(before, i);
        }
    }
    assert(map_of(after) =~= expected);
}

} // verus!
