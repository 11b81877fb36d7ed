//! The state that the request handlers share: folders and the cache of
//! converted files.

use vstd::prelude::*;
use vstd::string::*;

verus! {

/// The view of an optional string.
pub open spec fn opt_string_view(o: Option<String>) -> Option<Seq<char>> {
    match o {
        Some(s) => Some(s@),
        None => None,
    }
}

/// What a map holds at `key`, if anything.
pub open spec fn map_lookup(m: Map<Seq<char>, Seq<char>>, key: Seq<char>) -> Option<Seq<char>> {
    if m.dom().contains(key) {
        Some(m[key])
    } else {
        None
    }
}

/// No two entries share a key.
pub open spec fn keys_unique(entries: Seq<(String, String)>) -> bool {
    forall|i: int, j: int|
        0 <= i < entries.len() && 0 <= j < entries.len() && i != j ==> #[trigger] entries[i].0@
            != #[trigger] entries[j].0@
}

/// The map that a list of entries with distinct keys stands for.
pub open spec fn entries_map(entries: Seq<(String, String)>) -> Map<Seq<char>, Seq<char>> {
    Map::new(
        |k: Seq<char>| exists|i: int| 0 <= i < entries.len() && #[trigger] entries[i].0@ == k,
        |k: Seq<char>|
            entries[choose|i: int| 0 <= i < entries.len() && #[trigger] entries[i].0@ == k].1@,
    )
}

/// The cache of converted files: it maps the stem of an original file to the
/// name of its converted copy.
pub struct CacheMap {
    entries: Vec<(String, String)>,
}

impl CacheMap {
    #[verifier::type_invariant]
    spec fn inv(self) -> bool {
        keys_unique(self.entries@)
    }
}

impl View for CacheMap {
    type V = Map<Seq<char>, Seq<char>>;

    closed spec fn view(&self) -> Map<Seq<char>, Seq<char>> {
        entries_map(self.entries@)
    }
}

/// In a list with distinct keys, the entry of a key gives its value.
proof fn lemma_entry_value(entries: Seq<(String, String)>, i: int)
    requires
        keys_unique(entries),
        0 <= i < entries.len(),
    ensures
        entries_map(entries).dom().contains(entries[i].0@),
        entries_map(entries)[entries[i].0@] == entries[i].1@,
{
    let k = entries[i].0@;
    assert(entries[i].0@ == k);
    let j = choose|j: int| 0 <= j < entries.len() && #[trigger] entries[j].0@ == k;
    assert(j == i);
}

impl CacheMap {
    /// An empty cache.
    pub fn new() -> (res: CacheMap)
        ensures
            res@ == Map::<Seq<char>, Seq<char>>::empty(),
    {
        let res = CacheMap { entries: Vec::new() };
        assert(res@ =~= Map::<Seq<char>, Seq<char>>::empty());
        res
    }

    /// The position of the entry whose key is `key`, if there is one.
    fn position(&self, key: &String) -> (res: Option<usize>)
        ensures
            match res {
                Some(i) => i < self.entries@.len() && self.entries@[i as int].0@ == key@,
                None => forall|i: int|
                    0 <= i < self.entries@.len() ==> #[trigger] self.entries@[i].0@ != key@,
            },
    {
        let n = self.entries.len();
        let mut i: usize = 0;
        while i < n
            invariant
                n == self.entries@.len(),
                i <= n,
                forall|j: int| 0 <= j < i ==> #[trigger] self.entries@[j].0@ != key@,
            decreases n - i,
        {
            if self.entries[i].0 == *key {
                return Some(i);
            }
            i = i + 1;
        }
        None
    }

    /// The value stored for `key`, cloned.
    pub fn get(&self, key: &str) -> (res: Option<String>)
        ensures
            opt_string_view(res) == map_lookup(self@, key@),
    {
        proof {
            use_type_invariant(self);
        }
        let k = String::from_str(key);
        match self.position(&k) {
            Some(i) => {
                proof {
                    lemma_entry_value(self.entries@, i as int);
                }
                Some(self.entries[i].1.clone())
            },
            None => {
                assert(!self@.dom().contains(key@));
                None
            },
        }
    }

    /// Stores `value` for `key`, and gives back the value that was stored for
    /// `key` before, if any.
    pub fn insert(&mut self, key: String, value: String) -> (res: Option<String>)
        ensures
            final(self)@ == old(self)@.insert(key@, value@),
            opt_string_view(res) == map_lookup(old(self)@, key@),
    {
        proof {
            use_type_invariant(&*self);
        }
        let ghost old_entries = self.entries@;
        let ghost k = key@;
        let ghost v = value@;
        match self.position(&key) {
            Some(i) => {
                proof {
                    lemma_entry_value(old_entries, i as int);
                }
                let previous = self.entries[i].1.clone();
                let mut entries: Vec<(String, String)> = Vec::new();
                std::mem::swap(&mut entries, &mut self.entries);
                entries.set(i, (key, value));
                proof {
                    lemma_store_entry(old_entries, entries@, i as int, k, v);
                }
                self.entries = entries;
                Some(previous)
            },
            None => {
                assert(!entries_map(old_entries).dom().contains(k));
                let mut entries: Vec<(String, String)> = Vec::new();
                std::mem::swap(&mut entries, &mut self.entries);
                entries.push((key, value));
                proof {
                    lemma_store_entry(old_entries, entries@, old_entries.len() as int, k, v);
                }
                self.entries = entries;
                None
            },
        }
    }
}

/// Storing `value` under `key` in a list with distinct keys, by replacing the
/// entry of `key` or by appending a new entry when there is none, keeps the
/// keys distinct and stores `value` under `key` in the map.
proof fn lemma_store_entry(
    old_entries: Seq<(String, String)>,
    new_entries: Seq<(String, String)>,
    pos: int,
    key: Seq<char>,
    value: Seq<char>,
)
    requires
        keys_unique(old_entries),
        0 <= pos < new_entries.len(),
        new_entries[pos].0@ == key,
        new_entries[pos].1@ == value,
        new_entries.len() == old_entries.len() || new_entries.len() == old_entries.len() + 1,
        new_entries.len() == old_entries.len() + 1 ==> pos == old_entries.len()
            && !entries_map(old_entries).dom().contains(key),
        new_entries.len() == old_entries.len() ==> old_entries[pos].0@ == key,
        forall|j: int| 0 <= j < new_entries.len() && j != pos ==> new_entries[j] == old_entries[j],
    ensures
        keys_unique(new_entries),
        entries_map(new_entries) == entries_map(old_entries).insert(key, value),
{
    assert forall|a: int, b: int|
        0 <= a < new_entries.len() && 0 <= b < new_entries.len() && a != b
            implies #[trigger] new_entries[a].0@ != #[trigger] new_entries[b].0@ by {
        if a != pos && b != pos {
            assert(new_entries[a] == old_entries[a]);
            assert(new_entries[b] == old_entries[b]);
        } else if a == pos {
            assert(new_entries[b] == old_entries[b]);
        } else {
            assert(new_entries[a] == old_entries[a]);
        }
    }
    let target = entries_map(old_entries).insert(key, value);
    let now = entries_map(new_entries);
    assert forall|kk: Seq<char>| #![auto] now.dom().contains(kk) <==> target.dom().contains(kk) by {
        if kk == key {
            assert(new_entries[pos].0@ == kk);
        } else if now.dom().contains(kk) {
            let j = choose|j: int| 0 <= j < new_entries.len() && #[trigger] new_entries[j].0@ == kk;
            assert(old_entries[j].0@ == kk);
        } else if entries_map(old_entries).dom().contains(kk) {
            let j = choose|j: int| 0 <= j < old_entries.len() && #[trigger] old_entries[j].0@ == kk;
            assert(new_entries[j].0@ == kk);
        }
    }
    assert forall|kk: Seq<char>| #![auto] now.dom().contains(kk) implies now[kk] == target[kk] by {
        let j = choose|j: int| 0 <= j < new_entries.len() && #[trigger] new_entries[j].0@ == kk;
        lemma_entry_value(new_entries, j);
        if j != pos {
            lemma_entry_value(old_entries, j);
        }
    }
    assert(now =~= target);
}



/// The folders and the cache of a running server.
pub struct State {
    pub videos_path: String,
    pub cache_path: String,
    pub source_path: String,
    pub cache: CacheMap,
}

/// The view of the state: its three paths and its cache map.
pub struct StateView {
    pub videos_path: Seq<char>,
    pub cache_path: Seq<char>,
    pub source_path: Seq<char>,
    pub cache: Map<Seq<char>, Seq<char>>,
}

impl View for State {
    type V = StateView;

    open spec fn view(&self) -> StateView {
        StateView {
            videos_path: self.videos_path@,
            cache_path: self.cache_path@,
            source_path: self.source_path@,
            cache: self.cache@,
        }
    }
}

impl State {
    /// Replaces the whole cache.
    pub fn update_cache(&mut self, new_cache: CacheMap)
        ensures
            final(self)@ == (StateView { cache: new_cache@, ..old(self)@ }),
    {
        self.cache = new_cache;
    }

    /// Replaces the folder that videos are read from.
    pub fn update_videos_path(&mut self, new_videos_path: String)
        ensures
            final(self)@ == (StateView { videos_path: new_videos_path@, ..old(self)@ }),
    {
        self.videos_path = new_videos_path;
    }

    /// The folder that videos are read from.
    pub fn get_videos_path(&self) -> (res: String)
        ensures
            res@ == self@.videos_path,
    {
        self.videos_path.clone()
    }

    /// Whether `source` is the folder that videos are read from already.
    pub fn is_current_source(&self, source: &String) -> (res: bool)
        ensures
            res == (self@.videos_path == source@),
    {
        self.videos_path == *source
    }

    /// Records that `origin_filename` has the converted copy `cache_filename`,
    /// and gives back the copy that was recorded for it before, if any.
    pub fn add_cache_item(&mut self, origin_filename: &String, cache_filename: &String) -> (res:
        Option<String>)
        ensures
            final(self)@ == (StateView {
                cache: old(self)@.cache.insert(origin_filename@, cache_filename@),
                ..old(self)@
            }),
            opt_string_view(res) == map_lookup(old(self)@.cache, origin_filename@),
    {
        self.cache.insert(origin_filename.clone(), cache_filename.clone())
    }

    /// The converted copy recorded for `origin_filename`, if any.
    pub fn get_cached_filename(&self, origin_filename: &str) -> (res: Option<String>)
        ensures
            opt_string_view(res) == map_lookup(self@.cache, origin_filename@),
    {
        self.cache.get(origin_filename)
    }
}

/// What is read back after a write: the converted copy recorded last for a
/// file is the one that a lookup of that file finds, and a lookup of any other
/// file finds what it found before.
pub proof fn lemma_cache_read_after_write(
    cache: Map<Seq<char>, Seq<char>>,
    origin: Seq<char>,
    copy: Seq<char>,
    other: Seq<char>,
)
    ensures
        map_lookup(cache.insert(origin, copy), origin) == Some(copy),
        other != origin ==> map_lookup(cache.insert(origin, copy), other) == map_lookup(
            cache,
            other,
        ),
{
}

} // verus!
