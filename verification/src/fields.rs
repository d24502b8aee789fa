//! Named values: the columns of one row of input, the fields of one object to
//! load.

use vstd::prelude::*;

use crate::text;
use crate::text::{text_eq, Text};

verus! {

/// A finite map from names to texts, in the order in which the names came.
pub struct StringMap {
    entries: Vec<(String, String)>,
}

/// One row of the input: the value of each column.
pub type CsvRow = StringMap;

/// One object to load: the value of each field that is set.
pub type OutputObject = StringMap;

/// The position of `name` among `entries`.
spec fn at(entries: Seq<(String, String)>, name: Text, i: int) -> bool {
    0 <= i < entries.len() && entries[i].0@ == name
}

/// The map that `entries` stands for when no name occurs twice.
spec fn entries_map(entries: Seq<(String, String)>) -> Map<Text, Text> {
    Map::new(
        |name: Text| exists|i: int| at(entries, name, i),
        |name: Text| entries[choose|i: int| at(entries, name, i)].1@,
    )
}

/// No name occurs twice.
spec fn distinct_names(entries: Seq<(String, String)>) -> bool {
    forall|i: int, j: int|
        0 <= i < j < entries.len() ==> (#[trigger] entries[i]).0@ != (#[trigger] entries[j]).0@
}

proof fn lemma_entry(entries: Seq<(String, String)>, i: int)
    requires
        distinct_names(entries),
        0 <= i < entries.len(),
    ensures
        entries_map(entries).dom().contains(entries[i].0@),
        entries_map(entries)[entries[i].0@] == entries[i].1@,
{
    let name = entries[i].0@;
    assert(at(entries, name, i));
    let j = choose|j: int| at(entries, name, j);
    assert(at(entries, name, j));
    if j < i {
        assert(entries[j].0@ != entries[i].0@);
    } else if i < j {
        assert(entries[i].0@ != entries[j].0@);
    }
}

/// Setting one entry, an old one or a new one at the end, sets its name.
proof fn lemma_set(before: Seq<(String, String)>, after: Seq<(String, String)>, i: int)
    requires
        distinct_names(before),
        distinct_names(after),
        0 <= i < after.len(),
        i < before.len() ==> after.len() == before.len() && before[i].0@ == after[i].0@,
        i >= before.len() ==> after.len() == before.len() + 1,
        forall|j: int| 0 <= j < after.len() && j != i ==> after[j] == before[j],
    ensures
        entries_map(after) == entries_map(before).insert(after[i].0@, after[i].1@),
{
    let name = after[i].0@;
    let value = after[i].1@;
    let old_map = entries_map(before);
    let new_map = entries_map(after);
    lemma_entry(after, i);
    assert forall|k: Text| #[trigger]
        new_map.dom().contains(k) <==> old_map.insert(name, value).dom().contains(k) by {
        if new_map.dom().contains(k) {
            let j = choose|j: int| at(after, k, j);
            assert(at(before, k, j) || k == name);
        }
        if old_map.dom().contains(k) {
            let j = choose|j: int| at(before, k, j);
            assert(at(after, k, j));
        }
    }
    assert forall|k: Text| #[trigger] new_map.dom().contains(k) implies new_map[k]
        == old_map.insert(name, value)[k] by {
        if k != name {
            let j = choose|j: int| at(after, k, j);
            assert(at(after, k, j));
            lemma_entry(after, j);
            lemma_entry(before, j);
        }
    }
    assert(new_map =~= old_map.insert(name, value));
}

impl View for StringMap {
    type V = Map<Text, Text>;

    closed spec fn view(&self) -> Map<Text, Text> {
        entries_map(self.entries@)
    }
}

/// The value under `name`, or the empty text.
pub open spec fn value_or_empty(fields: Map<Text, Text>, name: Text) -> Text {
    if fields.dom().contains(name) {
        fields[name]
    } else {
        Seq::empty()
    }
}

impl StringMap {
    #[verifier::type_invariant]
    spec fn inv(self) -> bool {
        distinct_names(self.entries@)
    }

    /// No names at all.
    pub fn new() -> (r: StringMap)
        ensures
            r@ == Map::<Text, Text>::empty(),
    {
        let r = StringMap { entries: Vec::new() };
        assert(r@ =~= Map::<Text, Text>::empty());
        r
    }

    fn find(&self, name: &str) -> (r: Option<usize>)
        ensures
            match r {
                Some(i) => at(self.entries@, name@, i as int),
                None => forall|i: int| !at(self.entries@, name@, i),
            },
    {
        let mut i: usize = 0;
        while i < self.entries.len()
            invariant
                i <= self.entries@.len(),
                forall|j: int| 0 <= j < i ==> (#[trigger] self.entries@[j]).0@ != name@,
            decreases self.entries@.len() - i,
        {
            if text_eq(self.entries[i].0.as_str(), name) {
                return Some(i);
            }
            i = i + 1;
        }
        None
    }

    /// The value under `name`, if there is one.
    pub fn get(&self, name: &str) -> (r: Option<&String>)
        ensures
            match r {
                Some(value) => self@.dom().contains(name@) && value@ == self@[name@],
                None => !self@.dom().contains(name@),
            },
    {
        proof {
            use_type_invariant(self);
        }
        match self.find(name) {
            Some(i) => {
                proof {
                    lemma_entry(self.entries@, i as int);
                }
                Some(&self.entries[i].1)
            },
            None => None,
        }
    }

    /// Sets the value under `name`.
    pub fn insert(&mut self, name: String, value: String)
        ensures
            final(self)@ == old(self)@.insert(name@, value@),
    {
        proof {
            use_type_invariant(&*self);
        }
        let found = self.find(name.as_str());
        let mut entries: Vec<(String, String)> = Vec::new();
        std::mem::swap(&mut entries, &mut self.entries);
        let ghost before = entries@;
        let ghost entry = (name, value);
        match found {
            Some(i) => {
                entries.set(i, (name, value));
            },
            None => {
                entries.push((name, value));
                assert(distinct_names(entries@)) by {
                    assert forall|i: int, j: int| 0 <= i < j < entries@.len() implies (
                    #[trigger] entries@[i]).0@ != (#[trigger] entries@[j]).0@ by {
                        if j == before.len() {
                            assert(!at(before, entry.0@, i));
                        }
                    }
                }
            },
        }
        proof {
            let i = match found {
                Some(i) => i as int,
                None => before.len() as int,
            };
            lemma_set(before, entries@, i);
        }
        self.entries = entries;
    }

    /// The names, each once.
    pub fn keys(&self) -> (r: Vec<String>)
        ensures
            text::texts(r@).no_duplicates(),
            forall|k: Text| #[trigger] text::texts(r@).contains(k) <==> self@.dom().contains(k),
    {
        proof {
            use_type_invariant(self);
        }
        let mut out: Vec<String> = Vec::new();
        let mut i: usize = 0;
        while i < self.entries.len()
            invariant
                i == out@.len() <= self.entries@.len(),
                forall|j: int| 0 <= j < i ==> (#[trigger] out@[j])@ == self.entries@[j].0@,
            decreases self.entries@.len() - i,
        {
            out.push(self.entries[i].0.clone());
            i = i + 1;
        }
        proof {
            let ks = text::texts(out@);
            assert(ks.no_duplicates()) by {
                assert forall|a: int, b: int| 0 <= a < ks.len() && 0 <= b < ks.len() && a != b implies ks[a]
                    != ks[b] by {
                    if a < b {
                        assert(self.entries@[a].0@ != self.entries@[b].0@);
                    } else {
                        assert(self.entries@[b].0@ != self.entries@[a].0@);
                    }
                }
            }
            assert forall|k: Text| #[trigger] ks.contains(k) <==> self@.dom().contains(k) by {
                if ks.contains(k) {
                    let j = choose|j: int| 0 <= j < ks.len() && ks[j] == k;
                    assert(at(self.entries@, k, j));
                }
                if self@.dom().contains(k) {
                    let j = choose|j: int| at(self.entries@, k, j);
                    assert(ks[j] == k);
                }
            }
        }
        out
    }

    /// Whether some value is more than white space.
    pub fn has_text(&self) -> (r: bool)
        ensures
            r == has_text(self@),
    {
        proof {
            use_type_invariant(self);
        }
        let mut i: usize = 0;
        while i < self.entries.len()
            invariant
                distinct_names(self.entries@),
                i <= self.entries@.len(),
                forall|j: int| 0 <= j < i ==> text::blank((#[trigger] self.entries@[j]).1@),
            decreases self.entries@.len() - i,
        {
            if !self.entries[i].1.as_str().trim().is_empty() {
                proof {
                    lemma_entry(self.entries@, i as int);
                    assert(self@.dom().contains(self.entries@[i as int].0@));
                }
                return true;
            }
            i = i + 1;
        }
        proof {
            assert forall|name: Text| #[trigger] self@.dom().contains(name) implies text::blank(
                self@[name],
            ) by {
                let j = choose|j: int| at(self.entries@, name, j);
                lemma_entry(self.entries@, j);
            }
        }
        false
    }
}

/// Some value is more than white space.
pub open spec fn has_text(fields: Map<Text, Text>) -> bool {
    exists|name: Text| #[trigger] fields.dom().contains(name) && !text::blank(fields[name])
}

/// `names` are the names that have a value.
pub open spec fn lists_names(names: Seq<Text>, fields: Map<Text, Text>) -> bool {
    forall|name: Text| #[trigger] names.contains(name) <==> fields.dom().contains(name)
}

/// The names that have a value make up a list.
pub proof fn law_names_listed(fields: StringMap)
    ensures
        exists|names: Seq<Text>| #[trigger] lists_names(names, fields@),
{
    let entries = fields.entries@;
    let names = entries.map_values(|entry: (String, String)| entry.0@);
    assert forall|name: Text| #[trigger] names.contains(name) <==> fields@.dom().contains(
        name,
    ) by {
        if names.contains(name) {
            let i = choose|i: int| 0 <= i < names.len() && names[i] == name;
            assert(at(entries, name, i));
        }
        if fields@.dom().contains(name) {
            let i = choose|i: int| at(entries, name, i);
            assert(names[i] == name);
        }
    }
    assert(lists_names(names, fields@));
}

} // verus!
