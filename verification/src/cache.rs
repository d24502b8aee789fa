//! The lookup cache: the ids of the records found for each key.

use vstd::hash_map::StringHashMap;
use vstd::prelude::*;

use crate::text;
use crate::text::{text_eq, Text};

verus! {

/// What a record is looked up by: its kind, one of its fields, and the value
/// of that field.
#[derive(Debug)]
pub struct LookupCacheKey {
    pub object: String,
    pub field: String,
    pub value: String,
}

/// A key, as contracts see it.
pub struct Key {
    pub object: Text,
    pub field: Text,
    pub value: Text,
}

impl View for LookupCacheKey {
    type V = Key;

    open spec fn view(&self) -> Key {
        Key { object: self.object@, field: self.field@, value: self.value@ }
    }
}

impl Clone for LookupCacheKey {
    fn clone(&self) -> (r: LookupCacheKey)
        ensures
            r@ == self@,
    {
        LookupCacheKey {
            object: self.object.clone(),
            field: self.field.clone(),
            value: self.value.clone(),
        }
    }
}

/// The ids under `key`; none where the key is not there.
pub open spec fn ids_under(cache: Map<Key, Seq<Text>>, key: Key) -> Seq<Text> {
    if cache.dom().contains(key) {
        cache[key]
    } else {
        Seq::empty()
    }
}

/// The keys of one kind of record and one field: the slot of each value, and
/// the ids in each slot.
struct CacheGroup {
    object: String,
    field: String,
    slots: StringHashMap<usize>,
    ids: Vec<Vec<String>>,
}

impl CacheGroup {
    /// Every slot is there, and no two values share one.
    spec fn wf(&self) -> bool {
        &&& forall|v: Text| #[trigger]
            self.slots@.dom().contains(v) ==> self.slots@[v] < self.ids@.len()
        &&& forall|v: Text, w: Text|
            self.slots@.dom().contains(v) && self.slots@.dom().contains(w) && v != w
                ==> #[trigger] self.slots@[v] != #[trigger] self.slots@[w]
    }

    /// The ids under each value.
    spec fn map(&self) -> Map<Text, Seq<Text>> {
        Map::new(
            |v: Text| self.slots@.dom().contains(v),
            |v: Text| text::texts(self.ids@[self.slots@[v] as int]@),
        )
    }

    fn new(object: &String, field: &String) -> (r: CacheGroup)
        ensures
            r.wf(),
            r.object@ == object@,
            r.field@ == field@,
            r.map() == Map::<Text, Seq<Text>>::empty(),
    {
        let r = CacheGroup {
            object: object.clone(),
            field: field.clone(),
            slots: StringHashMap::new(),
            ids: Vec::new(),
        };
        assert(r.map() =~= Map::<Text, Seq<Text>>::empty());
        r
    }

    /// Makes sure that `value` has a slot.
    fn add(&mut self, value: &String)
        requires
            old(self).wf(),
        ensures
            final(self).wf(),
            final(self).object@ == old(self).object@,
            final(self).field@ == old(self).field@,
            final(self).map() == (if old(self).map().dom().contains(value@) {
                old(self).map()
            } else {
                old(self).map().insert(value@, Seq::empty())
            }),
    {
        if !self.slots.contains_key(value.as_str()) {
            let slot: usize = self.ids.len();
            self.slots.insert(value.clone(), slot);
            self.ids.push(Vec::new());
            assert(text::texts(self.ids@[slot as int]@) =~= Seq::<Text>::empty());
            assert(self.map() =~= old(self).map().insert(value@, Seq::empty()));
        }
    }

    /// Adds `id` under `value`, which has a slot.
    fn append(&mut self, value: &String, id: String)
        requires
            old(self).wf(),
            old(self).map().dom().contains(value@),
        ensures
            final(self).wf(),
            final(self).object@ == old(self).object@,
            final(self).field@ == old(self).field@,
            final(self).map() == old(self).map().insert(
                value@,
                old(self).map()[value@].push(id@),
            ),
    {
        match self.slots.get(value.as_str()) {
            Some(slot) => {
                let slot: usize = *slot;
                let ghost before = self.ids@[slot as int]@;
                self.ids[slot].push(id);
                assert(text::texts(self.ids@[slot as int]@) =~= text::texts(before).push(id@));
                assert(self.map() =~= old(self).map().insert(
                    value@,
                    old(self).map()[value@].push(id@),
                ));
            },
            None => {},
        }
    }
}

/// Group `g` holds the keys of the kind and field of `key`.
spec fn holds(groups: Seq<CacheGroup>, key: Key, g: int) -> bool {
    0 <= g < groups.len() && groups[g].object@ == key.object && groups[g].field@ == key.field
}

spec fn groups_wf(groups: Seq<CacheGroup>) -> bool {
    &&& forall|g: int| 0 <= g < groups.len() ==> (#[trigger] groups[g]).wf()
    &&& forall|g: int, h: int|
        #![trigger groups[g], groups[h]]
        0 <= g < h < groups.len() ==> !(groups[g].object@ == groups[h].object@
            && groups[g].field@ == groups[h].field@)
}

spec fn groups_map(groups: Seq<CacheGroup>) -> Map<Key, Seq<Text>> {
    Map::new(
        |k: Key|
            exists|g: int| holds(groups, k, g) && #[trigger] groups[g].map().dom().contains(k.value),
        |k: Key| groups[choose|g: int| holds(groups, k, g)].map()[k.value],
    )
}

proof fn lemma_group(groups: Seq<CacheGroup>, key: Key, g: int)
    requires
        groups_wf(groups),
        holds(groups, key, g),
    ensures
        groups_map(groups).dom().contains(key) <==> groups[g].map().dom().contains(key.value),
        groups_map(groups)[key] == groups[g].map()[key.value] || !groups_map(
            groups,
        ).dom().contains(key),
{
    let h = choose|h: int| holds(groups, key, h);
    assert(holds(groups, key, h));
    assert(h == g);
    if groups_map(groups).dom().contains(key) {
        let k = choose|k: int|
            holds(groups, key, k) && #[trigger] groups[k].map().dom().contains(key.value);
        assert(holds(groups, key, k));
        assert(k == g);
    }
}

proof fn lemma_no_group(groups: Seq<CacheGroup>, key: Key)
    requires
        forall|g: int| !holds(groups, key, g),
    ensures
        !groups_map(groups).dom().contains(key),
{
}

/// The ids of the records found for each key, in the order in which they were
/// found.
pub struct LookupCache {
    groups: Vec<CacheGroup>,
}

impl View for LookupCache {
    type V = Map<Key, Seq<Text>>;

    closed spec fn view(&self) -> Map<Key, Seq<Text>> {
        groups_map(self.groups@)
    }
}

impl LookupCache {
    #[verifier::type_invariant]
    spec fn inv(self) -> bool {
        groups_wf(self.groups@)
    }

    /// No keys at all.
    pub fn new() -> (r: LookupCache)
        ensures
            r@ == Map::<Key, Seq<Text>>::empty(),
    {
        let r = LookupCache { groups: Vec::new() };
        assert(r@ =~= Map::<Key, Seq<Text>>::empty());
        r
    }

    fn find(&self, key: &LookupCacheKey) -> (r: Option<usize>)
        ensures
            match r {
                Some(g) => holds(self.groups@, key@, g as int),
                None => forall|g: int| !holds(self.groups@, key@, g),
            },
    {
        let mut g: usize = 0;
        while g < self.groups.len()
            invariant
                g <= self.groups@.len(),
                forall|h: int|
                    0 <= h < g ==> !((#[trigger] self.groups@[h]).object@ == key.object@
                        && self.groups@[h].field@ == key.field@),
            decreases self.groups@.len() - g,
        {
            if text_eq(self.groups[g].object.as_str(), key.object.as_str())
                && text_eq(self.groups[g].field.as_str(), key.field.as_str()) {
                return Some(g);
            }
            g = g + 1;
        }
        None
    }

    /// The ids under `key`, if the key is there.
    pub fn get(&self, key: &LookupCacheKey) -> (r: Option<&Vec<String>>)
        ensures
            match r {
                Some(ids) => self@.dom().contains(key@) && text::texts(ids@) == self@[key@],
                None => !self@.dom().contains(key@),
            },
    {
        proof {
            use_type_invariant(self);
        }
        match self.find(key) {
            Some(g) => {
                proof {
                    lemma_group(self.groups@, key@, g as int);
                }
                match self.groups[g].slots.get(key.value.as_str()) {
                    Some(slot) => Some(&self.groups[g].ids[*slot]),
                    None => None,
                }
            },
            None => {
                proof {
                    lemma_no_group(self.groups@, key@);
                }
                None
            },
        }
    }

    /// Makes sure that `key` is there.
    pub fn add(&mut self, key: &LookupCacheKey)
        ensures
            final(self)@ == (if old(self)@.dom().contains(key@) {
                old(self)@
            } else {
                old(self)@.insert(key@, Seq::empty())
            }),
    {
        proof {
            use_type_invariant(&*self);
        }
        let found = self.find(key);
        let mut groups: Vec<CacheGroup> = Vec::new();
        std::mem::swap(&mut groups, &mut self.groups);
        let ghost before = groups@;
        let g: usize = match found {
            Some(g) => g,
            None => {
                let g: usize = groups.len();
                groups.push(CacheGroup::new(&key.object, &key.field));
                proof {
                    lemma_no_group(before, key@);
                    assert(forall|h: int| !holds(before, key@, h));
                    assert forall|h: int, k: int|
                        #![trigger groups@[h], groups@[k]]
                        0 <= h < k < groups@.len() implies !(groups@[h].object@
                        == groups@[k].object@ && groups@[h].field@ == groups@[k].field@) by {
                        if k == g {
                            assert(!holds(before, key@, h));
                        }
                    }
                    lemma_new_group(before, groups@);
                }
                g
            },
        };
        let ghost middle = groups@;
        groups[g].add(&key.value);
        proof {
            assert(groups@[g as int].map() =~= middle[g as int].map().insert(
                key.value@,
                groups@[g as int].map()[key.value@],
            ));
            lemma_changed_group(middle, groups@, key@, g as int);
            lemma_group(middle, key@, g as int);
            lemma_group(groups@, key@, g as int);
            if groups_map(before).dom().contains(key@) {
                assert(groups_map(groups@) =~= groups_map(before));
            } else {
                assert(groups_map(groups@) =~= groups_map(before).insert(key@, Seq::empty()));
            }
        }
        self.groups = groups;
    }

    /// Adds `id` under `key`.
    pub fn push(&mut self, key: &LookupCacheKey, id: String)
        ensures
            final(self)@ == old(self)@.insert(key@, ids_under(old(self)@, key@).push(id@)),
    {
        self.add(key);
        proof {
            use_type_invariant(&*self);
        }
        match self.find(key) {
            Some(g) => {
                let mut groups: Vec<CacheGroup> = Vec::new();
                std::mem::swap(&mut groups, &mut self.groups);
                let ghost before = groups@;
                proof {
                    lemma_group(before, key@, g as int);
                }
                groups[g].append(&key.value, id);
                proof {
                    lemma_changed_group(before, groups@, key@, g as int);
                    lemma_group(groups@, key@, g as int);
                    assert(groups_map(groups@) =~= groups_map(before).insert(
                        key@,
                        groups_map(before)[key@].push(id@),
                    ));
                }
                self.groups = groups;
                assert(self@ =~= old(self)@.insert(key@, ids_under(old(self)@, key@).push(id@)));
            },
            None => {
                proof {
                    lemma_no_group(self.groups@, key@);
                }
            },
        }
    }
}

/// A group without keys changes nothing.
proof fn lemma_new_group(before: Seq<CacheGroup>, after: Seq<CacheGroup>)
    requires
        groups_wf(before),
        groups_wf(after),
        after.len() == before.len() + 1,
        forall|g: int| 0 <= g < before.len() ==> #[trigger] after[g] == before[g],
        after.last().map() == Map::<Text, Seq<Text>>::empty(),
    ensures
        groups_map(after) == groups_map(before),
{
    assert forall|k: Key|
        #![trigger groups_map(after).dom().contains(k)]
        groups_map(after).dom().contains(k) <==> groups_map(before).dom().contains(k) by {
        if groups_map(after).dom().contains(k) {
            let g = choose|g: int|
                holds(after, k, g) && #[trigger] after[g].map().dom().contains(k.value);
            assert(holds(before, k, g) && before[g].map().dom().contains(k.value));
        }
        if groups_map(before).dom().contains(k) {
            let g = choose|g: int|
                holds(before, k, g) && #[trigger] before[g].map().dom().contains(k.value);
            assert(holds(after, k, g) && after[g].map().dom().contains(k.value));
        }
    }
    assert forall|k: Key| #[trigger] groups_map(before).dom().contains(k) implies groups_map(
        after,
    )[k] == groups_map(before)[k] by {
        let g = choose|g: int|
            holds(before, k, g) && #[trigger] before[g].map().dom().contains(k.value);
        assert(holds(after, k, g));
        lemma_group(before, k, g);
        lemma_group(after, k, g);
    }
    assert(groups_map(after) =~= groups_map(before));
}

/// A change within the group of `key` that touches only the value of `key` is
/// a change under `key` alone.
proof fn lemma_changed_group(before: Seq<CacheGroup>, after: Seq<CacheGroup>, key: Key, g: int)
    requires
        groups_wf(before),
        groups_wf(after),
        holds(before, key, g),
        holds(after, key, g),
        after.len() == before.len(),
        forall|h: int| 0 <= h < before.len() && h != g ==> #[trigger] after[h] == before[h],
        after[g].map().dom().contains(key.value),
        after[g].map() == before[g].map().insert(key.value, after[g].map()[key.value]),
    ensures
        groups_map(after) == groups_map(before).insert(key, after[g].map()[key.value]),
{
    let goal = groups_map(before).insert(key, after[g].map()[key.value]);
    lemma_group(after, key, g);
    assert forall|k: Key|
        (#[trigger] groups_map(after).dom().contains(k) <==> goal.dom().contains(k)) && (
        goal.dom().contains(k) ==> groups_map(after)[k] == goal[k]) by {
        if k != key {
            lemma_other_key(before, after, key, g, k);
        }
    }
    assert(groups_map(after) =~= goal);
}

proof fn lemma_other_key(
    before: Seq<CacheGroup>,
    after: Seq<CacheGroup>,
    key: Key,
    g: int,
    k: Key,
)
    requires
        groups_wf(before),
        groups_wf(after),
        holds(before, key, g),
        holds(after, key, g),
        after.len() == before.len(),
        forall|h: int| 0 <= h < before.len() && h != g ==> #[trigger] after[h] == before[h],
        after[g].map() == before[g].map().insert(key.value, after[g].map()[key.value]),
        k != key,
    ensures
        groups_map(after).dom().contains(k) <==> groups_map(before).dom().contains(k),
        groups_map(before).dom().contains(k) ==> groups_map(after)[k] == groups_map(before)[k],
{
    if exists|h: int| holds(before, k, h) {
        let h = choose|h: int| holds(before, k, h);
        assert(holds(before, k, h));
        if h != g {
            assert(after[h] == before[h]);
        }
        assert(holds(after, k, h));
        lemma_group(before, k, h);
        lemma_group(after, k, h);
    } else {
        assert forall|h: int| !holds(after, k, h) by {
            if holds(after, k, h) {
                if h != g {
                    assert(after[h] == before[h]);
                }
                assert(holds(before, k, h));
            }
        }
        lemma_no_group(before, k);
        lemma_no_group(after, k);
    }
}

} // verus!
