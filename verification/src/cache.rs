//! The store of resolved lookups: at most one entry for each address text,
//! kept in key order.

use vstd::prelude::*;
use crate::model::{LookupEntry, LookupEntryView};
use crate::order::{key_before, key_before_irreflexive, key_before_transitive, key_order, KeyOrder};

verus! {

/// Each entry's key comes before the keys of all later entries.
pub open spec fn ascending(s: Seq<LookupEntryView>) -> bool {
    forall|i: int, j: int|
        0 <= i < j < s.len() ==> key_before(#[trigger] s[i].ip_str, #[trigger] s[j].ip_str)
}

/// Some entry of `s` is keyed by `key`.
pub open spec fn holds(s: Seq<LookupEntryView>, key: Seq<char>) -> bool {
    exists|i: int| 0 <= i < s.len() && #[trigger] s[i].ip_str == key
}

/// A place in `s` where an entry keyed by `key` stands.
pub open spec fn place_of(s: Seq<LookupEntryView>, key: Seq<char>) -> int {
    choose|i: int| 0 <= i < s.len() && #[trigger] s[i].ip_str == key
}

/// The mapping that a sequence of entries lists: each key to its entry.
pub open spec fn as_map(s: Seq<LookupEntryView>) -> Map<Seq<char>, LookupEntryView> {
    Map::new(|key: Seq<char>| holds(s, key), |key: Seq<char>| s[place_of(s, key)])
}

/// `s` lists the mapping `m` in key order.
pub open spec fn lists(s: Seq<LookupEntryView>, m: Map<Seq<char>, LookupEntryView>) -> bool {
    ascending(s) && as_map(s) == m
}

/// In an ascending sequence every entry is the one its key maps to.
pub proof fn ascending_entry_is_mapped(s: Seq<LookupEntryView>, i: int)
    requires
        ascending(s),
        0 <= i < s.len(),
    ensures
        as_map(s).contains_key(s[i].ip_str),
        as_map(s)[s[i].ip_str] == s[i],
{
    let key = s[i].ip_str;
    let p = place_of(s, key);
    key_before_irreflexive(key);
    if p < i {
        assert(key_before(s[p].ip_str, s[i].ip_str));
    } else if i < p {
        assert(key_before(s[i].ip_str, s[p].ip_str));
    }
}

/// The listing of `m` in key order. A mapping has at most one such listing
/// (see [`listing_is_unique`]); every cache has one.
pub open spec fn listing_of(m: Map<Seq<char>, LookupEntryView>) -> Seq<LookupEntryView> {
    choose|s: Seq<LookupEntryView>| lists(s, m)
}

/// The views of a run of entries, in the same order.
pub open spec fn entry_views(entries: Seq<LookupEntry>) -> Seq<LookupEntryView> {
    entries.map_values(|e: LookupEntry| e@)
}

/// Copies a run of entries.
pub fn copy_entries(entries: &Vec<LookupEntry>) -> (copy: Vec<LookupEntry>)
    ensures
        entry_views(copy@) == entry_views(entries@),
{
    let mut copy: Vec<LookupEntry> = Vec::new();
    let mut i: usize = 0;
    while i < entries.len()
        invariant
            i <= entries@.len(),
            entry_views(copy@) == entry_views(entries@).take(i as int),
        decreases entries@.len() - i,
    {
        let ghost copied = entry_views(copy@);
        let entry = entries[i].clone();
        copy.push(entry);
        proof {
            let all = entry_views(entries@);
            assert(entry_views(copy@) =~= copied.push(all[i as int]));
            assert(all.take(i + 1) =~= all.take(i as int).push(all[i as int]));
        }
        i += 1;
    }
    proof {
        assert(entry_views(entries@).take(i as int) =~= entry_views(entries@));
    }
    copy
}

/// An ascending sequence lists as many keys as it has entries.
pub proof fn ascending_counts_keys(s: Seq<LookupEntryView>)
    requires
        ascending(s),
    ensures
        as_map(s).dom().finite(),
        as_map(s).dom().len() == s.len(),
    decreases s.len(),
{
    if s.len() == 0 {
        assert(as_map(s).dom() =~= Set::empty());
    } else {
        let front = s.drop_last();
        let key = s.last().ip_str;
        ascending_counts_keys(front);
        assert forall|k: Seq<char>| as_map(s).dom().contains(k) <==> as_map(front).dom().insert(
            key,
        ).contains(k) by {
            if holds(s, k) {
                let i = place_of(s, k);
                if i < front.len() {
                    assert(front[i].ip_str == k);
                }
            }
            if holds(front, k) {
                let i = place_of(front, k);
                assert(s[i].ip_str == k);
            }
            if k == key {
                assert(s[s.len() - 1].ip_str == k);
            }
        }
        assert(as_map(s).dom() =~= as_map(front).dom().insert(key));
        if holds(front, key) {
            let i = place_of(front, key);
            assert(key_before(s[i].ip_str, s[s.len() - 1].ip_str));
            key_before_irreflexive(key);
        }
    }
}

/// Without its last entry, an ascending sequence lists the same mapping
/// without the last key.
proof fn front_lists_remove(s: Seq<LookupEntryView>)
    requires
        ascending(s),
        s.len() > 0,
    ensures
        ascending(s.drop_last()),
        as_map(s.drop_last()) == as_map(s).remove(s.last().ip_str),
{
    let front = s.drop_last();
    let key = s.last().ip_str;
    let want = as_map(s).remove(key);
    assert(ascending(front)) by {
        assert forall|i: int, j: int| 0 <= i < j < front.len() implies key_before(
            #[trigger] front[i].ip_str,
            #[trigger] front[j].ip_str,
        ) by {
            assert(key_before(s[i].ip_str, s[j].ip_str));
        }
    }
    assert forall|k: Seq<char>| as_map(front).contains_key(k) <==> want.contains_key(k) by {
        if holds(front, k) {
            let i = place_of(front, k);
            assert(s[i].ip_str == k);
            assert(key_before(s[i].ip_str, s[s.len() - 1].ip_str));
            key_before_irreflexive(k);
        }
        if holds(s, k) && k != key {
            let i = place_of(s, k);
            assert(front[i].ip_str == k);
        }
    }
    assert forall|k: Seq<char>| as_map(front).contains_key(k) implies as_map(front)[k] == want[k] by {
        let i = place_of(front, k);
        ascending_entry_is_mapped(front, i);
        assert(s[i].ip_str == k);
        ascending_entry_is_mapped(s, i);
    }
    assert(as_map(front) =~= want);
}

/// Key order leaves no choice: two ascending sequences that list the same
/// mapping are the same sequence.
pub proof fn listing_is_unique(
    s: Seq<LookupEntryView>,
    t: Seq<LookupEntryView>,
    m: Map<Seq<char>, LookupEntryView>,
)
    requires
        lists(s, m),
        lists(t, m),
    ensures
        s == t,
    decreases s.len(),
{
    ascending_counts_keys(s);
    ascending_counts_keys(t);
    if s.len() == 0 {
        assert(s =~= t);
    } else {
        let a = s.last();
        let b = t.last();
        ascending_entry_is_mapped(s, s.len() - 1);
        ascending_entry_is_mapped(t, t.len() - 1);
        let i = place_of(s, b.ip_str);
        let j = place_of(t, a.ip_str);
        assert(holds(s, b.ip_str));
        assert(holds(t, a.ip_str));
        if j < t.len() - 1 && i < s.len() - 1 {
            assert(key_before(t[j].ip_str, t[t.len() - 1].ip_str));
            assert(key_before(s[i].ip_str, s[s.len() - 1].ip_str));
            key_before_transitive(a.ip_str, b.ip_str, a.ip_str);
            key_before_irreflexive(a.ip_str);
        }
        assert(a.ip_str == b.ip_str);
        assert(a == b);
        front_lists_remove(s);
        front_lists_remove(t);
        listing_is_unique(s.drop_last(), t.drop_last(), m.remove(a.ip_str));
        assert(s =~= s.drop_last().push(a));
        assert(t =~= t.drop_last().push(b));
    }
}

/// A listing holds each key of its mapping once, with the entry that the
/// key maps to.
pub proof fn listed_once(
    s: Seq<LookupEntryView>,
    m: Map<Seq<char>, LookupEntryView>,
    key: Seq<char>,
)
    requires
        lists(s, m),
        m.contains_key(key),
    ensures
        holds(s, key),
        s[place_of(s, key)] == m[key],
        forall|i: int, j: int|
            0 <= i < s.len() && 0 <= j < s.len() && s[i].ip_str == key && s[j].ip_str == key
                ==> i == j,
{
    assert forall|i: int, j: int|
        0 <= i < s.len() && 0 <= j < s.len() && s[i].ip_str == key && s[j].ip_str == key implies i
        == j by {
        key_before_irreflexive(key);
        if i < j {
            assert(key_before(s[i].ip_str, s[j].ip_str));
        } else if j < i {
            assert(key_before(s[j].ip_str, s[i].ip_str));
        }
    }
}

/// A sequence that lists a mapping in key order is its listing.
pub proof fn listing_of_listed(s: Seq<LookupEntryView>, m: Map<Seq<char>, LookupEntryView>)
    requires
        lists(s, m),
    ensures
        listing_of(m) == s,
{
    listing_is_unique(listing_of(m), s, m);
}

/// Putting `entry` in the place of the entry with the same key keeps the
/// order and changes the mapping at that key only.
proof fn overwrite_lists_insert(s: Seq<LookupEntryView>, at: int, entry: LookupEntryView)
    requires
        ascending(s),
        0 <= at < s.len(),
        s[at].ip_str == entry.ip_str,
    ensures
        ascending(s.update(at, entry)),
        as_map(s.update(at, entry)) == as_map(s).insert(entry.ip_str, entry),
{
    let t = s.update(at, entry);
    assert(ascending(t)) by {
        assert forall|i: int, j: int| 0 <= i < j < t.len() implies key_before(
            #[trigger] t[i].ip_str,
            #[trigger] t[j].ip_str,
        ) by {
            assert(key_before(s[i].ip_str, s[j].ip_str));
        }
    }
    let want = as_map(s).insert(entry.ip_str, entry);
    assert forall|k: Seq<char>| as_map(t).contains_key(k) <==> want.contains_key(k) by {
        if holds(t, k) {
            let i = place_of(t, k);
            assert(s[i].ip_str == k);
        }
        if holds(s, k) {
            let i = place_of(s, k);
            assert(t[i].ip_str == k);
        }
        if k == entry.ip_str {
            assert(t[at].ip_str == k);
        }
    }
    assert forall|k: Seq<char>| as_map(t).contains_key(k) implies as_map(t)[k] == want[k] by {
        let i = place_of(t, k);
        ascending_entry_is_mapped(t, i);
        if i != at {
            assert(s[i].ip_str == k);
            ascending_entry_is_mapped(s, i);
            key_before_irreflexive(k);
            if i < at {
                assert(key_before(s[i].ip_str, s[at].ip_str));
            } else {
                assert(key_before(s[at].ip_str, s[i].ip_str));
            }
        }
    }
    assert(as_map(t) =~= want);
}

/// Putting a new key between the keys before it and the keys after it keeps
/// the order and adds that key to the mapping.
proof fn insertion_lists_insert(s: Seq<LookupEntryView>, at: int, entry: LookupEntryView)
    requires
        ascending(s),
        0 <= at <= s.len(),
        forall|i: int| 0 <= i < at ==> key_before(#[trigger] s[i].ip_str, entry.ip_str),
        forall|i: int| at <= i < s.len() ==> key_before(entry.ip_str, #[trigger] s[i].ip_str),
    ensures
        ascending(s.insert(at, entry)),
        as_map(s.insert(at, entry)) == as_map(s).insert(entry.ip_str, entry),
{
    let t = s.insert(at, entry);
    assert(ascending(t)) by {
        assert forall|i: int, j: int| 0 <= i < j < t.len() implies key_before(
            #[trigger] t[i].ip_str,
            #[trigger] t[j].ip_str,
        ) by {
            let a = if i < at { i } else { i - 1 };
            let b = if j < at { j } else { j - 1 };
            if i != at && j != at {
                assert(key_before(s[a].ip_str, s[b].ip_str));
            } else if i == at {
                assert(key_before(entry.ip_str, s[b].ip_str));
            } else {
                assert(key_before(s[a].ip_str, entry.ip_str));
            }
        }
    }
    let want = as_map(s).insert(entry.ip_str, entry);
    assert forall|k: Seq<char>| as_map(t).contains_key(k) <==> want.contains_key(k) by {
        if holds(t, k) {
            let i = place_of(t, k);
            if i < at {
                assert(s[i].ip_str == k);
            } else if i > at {
                assert(s[i - 1].ip_str == k);
            }
        }
        if holds(s, k) {
            let i = place_of(s, k);
            if i < at {
                assert(t[i].ip_str == k);
            } else {
                assert(t[i + 1].ip_str == k);
            }
        }
        if k == entry.ip_str {
            assert(t[at].ip_str == k);
        }
    }
    assert forall|k: Seq<char>| as_map(t).contains_key(k) implies as_map(t)[k] == want[k] by {
        let i = place_of(t, k);
        ascending_entry_is_mapped(t, i);
        key_before_irreflexive(k);
        if i < at {
            assert(s[i].ip_str == k);
            ascending_entry_is_mapped(s, i);
        } else if i > at {
            assert(s[i - 1].ip_str == k);
            ascending_entry_is_mapped(s, i - 1);
        }
    }
    assert(as_map(t) =~= want);
}

/// The lookups resolved so far: a mapping from the address text of each
/// request to the latest entry for it. Nothing is ever removed.
#[derive(Debug)]
pub struct LookupCache {
    entries: Vec<LookupEntry>,
}

impl View for LookupCache {
    type V = Map<Seq<char>, LookupEntryView>;

    closed spec fn view(&self) -> Map<Seq<char>, LookupEntryView> {
        as_map(entry_views(self.entries@))
    }
}

impl LookupCache {
    #[verifier::type_invariant]
    spec fn in_key_order(self) -> bool {
        ascending(entry_views(self.entries@))
    }

    /// A cache that holds nothing.
    pub fn new() -> (cache: Self)
        ensures
            cache@ == Map::<Seq<char>, LookupEntryView>::empty(),
    {
        let cache = LookupCache { entries: Vec::new() };
        assert(cache@ =~= Map::<Seq<char>, LookupEntryView>::empty());
        cache
    }

    /// The number of addresses that have an entry.
    pub fn len(&self) -> (n: usize)
        ensures
            self@.dom().finite(),
            n == self@.len(),
    {
        proof {
            use_type_invariant(&*self);
            ascending_counts_keys(entry_views(self.entries@));
        }
        self.entries.len()
    }

    /// Where `key` stands, or where it would have to go: with `true` the
    /// place of the entry keyed by it, with `false` the place that parts the
    /// keys before it from the keys after it.
    fn locate(&self, key: &str) -> (r: (bool, usize))
        ensures
            r.1 <= self.entries@.len(),
            r.0 ==> r.1 < self.entries@.len() && self.entries@[r.1 as int]@.ip_str == key@,
            !r.0 ==> forall|i: int|
                0 <= i < r.1 ==> key_before(
                    #[trigger] entry_views(self.entries@)[i].ip_str,
                    key@,
                ),
            !r.0 ==> forall|i: int|
                r.1 <= i < self.entries@.len() ==> key_before(
                    key@,
                    #[trigger] entry_views(self.entries@)[i].ip_str,
                ),
    {
        proof {
            use_type_invariant(&*self);
        }
        let ghost s = entry_views(self.entries@);
        let mut low: usize = 0;
        let mut high: usize = self.entries.len();
        while low < high
            invariant
                low <= high <= self.entries@.len(),
                s == entry_views(self.entries@),
                ascending(s),
                forall|i: int| 0 <= i < low ==> key_before(#[trigger] s[i].ip_str, key@),
                forall|i: int| high <= i < s.len() ==> key_before(key@, #[trigger] s[i].ip_str),
            decreases high - low,
        {
            let middle: usize = low + (high - low) / 2;
            match key_order(self.entries[middle].ip_str.as_str(), key) {
                KeyOrder::Before => {
                    proof {
                        assert forall|i: int| 0 <= i < middle + 1 implies key_before(
                            #[trigger] s[i].ip_str,
                            key@,
                        ) by {
                            if i < middle {
                                assert(key_before(s[i].ip_str, s[middle as int].ip_str));
                                key_before_transitive(s[i].ip_str, s[middle as int].ip_str, key@);
                            }
                        }
                    }
                    low = middle + 1;
                },
                KeyOrder::Same => {
                    return (true, middle);
                },
                KeyOrder::After => {
                    proof {
                        assert forall|i: int| middle <= i < s.len() implies key_before(
                            key@,
                            #[trigger] s[i].ip_str,
                        ) by {
                            if middle < i {
                                assert(key_before(s[middle as int].ip_str, s[i].ip_str));
                                key_before_transitive(key@, s[middle as int].ip_str, s[i].ip_str);
                            }
                        }
                    }
                    high = middle;
                },
            }
        }
        (false, low)
    }

    /// The entry recorded for the address text `ip`, if there is one.
    pub fn get(&self, ip: &str) -> (found: Option<&LookupEntry>)
        ensures
            match found {
                Some(entry) => {
                    &&& self@.contains_key(ip@)
                    &&& self@[ip@] == entry@
                    &&& entry@.ip_str == ip@
                },
                None => !self@.contains_key(ip@),
            },
    {
        proof {
            use_type_invariant(&*self);
        }
        let ghost s = entry_views(self.entries@);
        let (found, at) = self.locate(ip);
        if found {
            proof {
                ascending_entry_is_mapped(s, at as int);
            }
            Some(&self.entries[at])
        } else {
            proof {
                if holds(s, ip@) {
                    let i = place_of(s, ip@);
                    key_before_irreflexive(ip@);
                }
            }
            None
        }
    }

    /// Records `entry` under its own address text, in place of any entry
    /// that was there for the same text.
    pub(crate) fn insert(&mut self, entry: LookupEntry)
        ensures
            final(self)@ == old(self)@.insert(entry@.ip_str, entry@),
    {
        proof {
            use_type_invariant(&*self);
        }
        let ghost before = entry_views(self.entries@);
        let ghost added = entry@;
        let (found, at) = self.locate(entry.ip_str.as_str());
        let mut entries: Vec<LookupEntry> = Vec::new();
        core::mem::swap(&mut entries, &mut self.entries);
        if found {
            entries[at] = entry;
            proof {
                overwrite_lists_insert(before, at as int, added);
                assert(entry_views(entries@) =~= before.update(at as int, added));
            }
        } else {
            entries.insert(at, entry);
            proof {
                insertion_lists_insert(before, at as int, added);
                assert(entry_views(entries@) =~= before.insert(at as int, added));
            }
        }
        self.entries = entries;
    }

    /// A copy of every entry, in key order.
    pub fn snapshot(&self) -> (entries: Vec<LookupEntry>)
        ensures
            lists(entry_views(entries@), self@),
            entry_views(entries@) == listing_of(self@),
    {
        proof {
            use_type_invariant(&*self);
        }
        let entries = copy_entries(&self.entries);
        proof {
            listing_of_listed(entry_views(entries@), self@);
        }
        entries
    }
}

} // verus!
