//! The metadata cache: a mapping from song identifier to the metadata
//! extracted for that song, with what the caller needs to judge staleness.
use vstd::prelude::*;
use crate::tags::ExtractedMetadata;

verus! {

/// A cache entry: extracted metadata plus the provenance of the file it came
/// from.
#[derive(Clone, Debug, PartialEq)]
pub struct CachedMetadata {
    pub metadata: ExtractedMetadata,
    pub file_name: String,
    pub file_size: u64,
    pub last_modified: u64,
}

/// The mapping that a list of entries denotes; a later entry for a key
/// replaces an earlier one.
pub open spec fn entries_map(s: Seq<(String, CachedMetadata)>) -> Map<Seq<char>, CachedMetadata>
    decreases s.len(),
{
    if s.len() == 0 {
        Map::empty()
    } else {
        entries_map(s.drop_last()).insert(s.last().0@, s.last().1)
    }
}

/// Whether no two entries share a key.
pub open spec fn keys_unique(s: Seq<(String, CachedMetadata)>) -> bool {
    forall|i: int, j: int| 0 <= i < j < s.len() ==> s[i].0@ != s[j].0@
}

/// A mapping from song identifier to cache entry, with unique keys.
#[derive(Debug)]
pub struct MetadataCache {
    entries: Vec<(String, CachedMetadata)>,
}

impl View for MetadataCache {
    type V = Map<Seq<char>, CachedMetadata>;

    closed spec fn view(&self) -> Map<Seq<char>, CachedMetadata> {
        entries_map(self.entries@)
    }
}

proof fn lemma_entries_map_keys(s: Seq<(String, CachedMetadata)>, k: Seq<char>)
    ensures
        entries_map(s).contains_key(k) <==> exists|i: int| 0 <= i < s.len() && #[trigger] s[i].0@ == k,
    decreases s.len(),
{
    if s.len() > 0 {
        lemma_entries_map_keys(s.drop_last(), k);
        if entries_map(s).contains_key(k) && s.last().0@ != k {
            let i = choose|i: int| 0 <= i < s.drop_last().len() && #[trigger] s.drop_last()[i].0@ == k;
            assert(s[i].0@ == k);
        }
        if exists|i: int| 0 <= i < s.len() && #[trigger] s[i].0@ == k {
            let i = choose|i: int| 0 <= i < s.len() && #[trigger] s[i].0@ == k;
            if i < s.len() - 1 {
                assert(s.drop_last()[i].0@ == k);
            }
        }
    }
}

proof fn lemma_entries_map_value(s: Seq<(String, CachedMetadata)>, i: int)
    requires
        keys_unique(s),
        0 <= i < s.len(),
    ensures
        entries_map(s).contains_key(s[i].0@),
        entries_map(s)[s[i].0@] == s[i].1,
    decreases s.len(),
{
    if i < s.len() - 1 {
        assert(s.drop_last()[i] == s[i]);
        lemma_entries_map_value(s.drop_last(), i);
    }
}

/// The position of the entry for `id`, if there is one.
fn position_of(entries: &Vec<(String, CachedMetadata)>, id: &String) -> (r: Option<usize>)
    ensures
        r matches Some(i) ==> i < entries@.len() && entries@[i as int].0@ == id@,
        r is None ==> forall|i: int| 0 <= i < entries@.len() ==> #[trigger] entries@[i].0@ != id@,
{
    let mut i: usize = 0;
    while i < entries.len()
        invariant
            i <= entries@.len(),
            forall|j: int| 0 <= j < i ==> #[trigger] entries@[j].0@ != id@,
        decreases entries@.len() - i,
    {
        if entries[i].0 == *id {
            return Some(i);
        }
        i = i + 1;
    }
    None
}

/// Sets the entry for `id` in a list with unique keys, replacing any it had.
fn insert_entry(entries: &mut Vec<(String, CachedMetadata)>, id: String, entry: CachedMetadata)
    requires
        keys_unique(old(entries)@),
    ensures
        keys_unique(final(entries)@),
        entries_map(final(entries)@) == entries_map(old(entries)@).insert(id@, entry),
{
    let ghost k0 = id@;
    let ghost e = entry;
    let ghost before = entries@;
    match position_of(entries, &id) {
        Some(i) => {
            entries.set(i, (id, entry));
            let ghost after = entries@;
            assert forall|k: Seq<char>| #[trigger]
                entries_map(after).contains_key(k) == entries_map(before).insert(k0, e).contains_key(
                    k,
                ) by {
                lemma_entries_map_keys(after, k);
                lemma_entries_map_keys(before, k);
                if k == k0 {
                    assert(after[i as int].0@ == k);
                } else {
                    if exists|j: int| 0 <= j < before.len() && #[trigger] before[j].0@ == k {
                        let j = choose|j: int| 0 <= j < before.len() && #[trigger] before[j].0@ == k;
                        assert(after[j].0@ == k);
                    }
                    if exists|j: int| 0 <= j < after.len() && #[trigger] after[j].0@ == k {
                        let j = choose|j: int| 0 <= j < after.len() && #[trigger] after[j].0@ == k;
                        assert(before[j].0@ == k);
                    }
                }
            }
            assert forall|k: Seq<char>| #[trigger] entries_map(after).contains_key(k) implies entries_map(
                after,
            )[k] == entries_map(before).insert(k0, e)[k] by {
                lemma_entries_map_keys(after, k);
                let j = choose|j: int| 0 <= j < after.len() && #[trigger] after[j].0@ == k;
                lemma_entries_map_value(after, j);
                if j != i {
                    lemma_entries_map_value(before, j);
                }
            }
            assert(entries_map(after) =~= entries_map(before).insert(k0, e));
        },
        None => {
            entries.push((id, entry));
            assert(entries@.drop_last() =~= before);
        },
    }
}

impl MetadataCache {
    /// The entries as held, in the order `entries` hands them out.
    pub closed spec fn entry_list(&self) -> Seq<(String, CachedMetadata)> {
        self.entries@
    }

    /// No two entries share a key.
    #[verifier::type_invariant]
    pub closed spec fn wf(&self) -> bool {
        keys_unique(self.entries@)
    }

    /// The empty cache.
    pub fn new() -> (r: MetadataCache)
        ensures
            r@ == Map::<Seq<char>, CachedMetadata>::empty(),
    {
        MetadataCache { entries: Vec::new() }
    }

    /// The entry for `song_id`, if the cache has one.
    pub fn get(&self, song_id: &str) -> (r: Option<&CachedMetadata>)
        ensures
            r is Some <==> self@.contains_key(song_id@),
            r matches Some(e) ==> *e == self@[song_id@],
    {
        proof {
            use_type_invariant(self);
            lemma_entries_map_keys(self.entries@, song_id@);
        }
        let id = song_id.to_owned();
        match position_of(&self.entries, &id) {
            Some(i) => {
                proof {
                    lemma_entries_map_value(self.entries@, i as int);
                }
                Some(&self.entries[i].1)
            },
            None => None,
        }
    }

    /// Sets the entry for `song_id`, replacing any it had.
    pub fn insert(&mut self, song_id: String, entry: CachedMetadata)
        ensures
            final(self)@ == old(self)@.insert(song_id@, entry),
    {
        proof {
            use_type_invariant(&*self);
        }
        let mut entries: Vec<(String, CachedMetadata)> = Vec::new();
        std::mem::swap(&mut entries, &mut self.entries);
        insert_entry(&mut entries, song_id, entry);
        self.entries = entries;
    }

    /// The cache's entries, one for each key, in no particular order.
    pub fn entries(&self) -> (r: &Vec<(String, CachedMetadata)>)
        ensures
            r@ == self.entry_list(),
            keys_unique(r@),
            entries_map(r@) == self@,
    {
        proof {
            use_type_invariant(self);
        }
        &self.entries
    }

    /// The cache holding the mapping that `entries` denotes; where a key comes
    /// more than once, its last entry counts.
    pub fn from_entries(entries: Vec<(String, CachedMetadata)>) -> (r: MetadataCache)
        ensures
            r@ == entries_map(entries@),
    {
        let mut cache = MetadataCache::new();
        let mut rest = entries;
        let ghost all = rest@;
        while rest.len() > 0
            invariant
                rest@.len() <= all.len(),
                rest@ == all.skip(all.len() - rest@.len()),
                cache@ == entries_map(all.take(all.len() - rest@.len())),
            decreases rest@.len(),
        {
            let ghost k = all.len() - rest@.len();
            let e = rest.remove(0);
            assert(rest@ =~= all.skip(k + 1));
            assert(all.take(k + 1).drop_last() =~= all.take(k));
            assert(all.take(k + 1).last() == e);
            cache.insert(e.0, e.1);
        }
        assert(all.take(all.len() as int) =~= all);
        cache
    }
}

/// What reading the persisted cache document gave.
#[derive(Clone, Debug, PartialEq)]
pub enum CacheDocument {
    /// No document has been saved yet.
    Missing,
    /// A document exists but could not be read.
    Unreadable(String),
    /// A document was read but does not have the expected structure.
    Malformed(String),
    /// The entries that the document lists.
    Parsed(Vec<(String, CachedMetadata)>),
}

/// Why the cache could not be loaded.
#[derive(Clone, Debug, PartialEq)]
pub enum CacheError {
    /// The persisted document exists but cannot be parsed.
    Corrupt(String),
    /// The persisted document exists but could not be read.
    IoFailure(String),
}

/// The cache that a persisted document holds. A missing document is an empty
/// cache; an unreadable or malformed one is an error, never an empty cache.
pub fn load_metadata_cache(doc: CacheDocument) -> (r: Result<MetadataCache, CacheError>)
    ensures
        doc is Missing ==> (r matches Ok(c) && c@ == Map::<
            Seq<char>,
            CachedMetadata,
        >::empty()),
        doc matches CacheDocument::Unreadable(m) ==> (r matches Err(CacheError::IoFailure(e))
            && e@ == m@),
        doc matches CacheDocument::Malformed(m) ==> (r matches Err(CacheError::Corrupt(e)) && e@
            == m@),
        doc matches CacheDocument::Parsed(v) ==> (r matches Ok(c) && c@ == entries_map(
            v@,
        )),
{
    match doc {
        CacheDocument::Missing => Ok(MetadataCache::new()),
        CacheDocument::Unreadable(m) => Err(CacheError::IoFailure(m)),
        CacheDocument::Malformed(m) => Err(CacheError::Corrupt(m)),
        CacheDocument::Parsed(v) => Ok(MetadataCache::from_entries(v)),
    }
}

/// The entries that a cache hands out for saving list each of its keys once,
/// with its value, and nothing else; so loading them back gives a cache equal
/// to the one saved.
pub proof fn lemma_saved_entries_reload(c: MetadataCache)
    requires
        c.wf(),
    ensures
        keys_unique(c.entry_list()),
        forall|i: int|
            0 <= i < c.entry_list().len() ==> #[trigger] c@.contains_key(c.entry_list()[i].0@) && c@[c.entry_list()[i].0@]
                == c.entry_list()[i].1,
        forall|k: Seq<char>|
            #[trigger] c@.contains_key(k) ==> exists|i: int|
                0 <= i < c.entry_list().len() && #[trigger] c.entry_list()[i].0@ == k,
        entries_map(c.entry_list()) == c@,
{
    assert forall|i: int| 0 <= i < c.entry_list().len() implies #[trigger] c@.contains_key(
        c.entry_list()[i].0@,
    ) && c@[c.entry_list()[i].0@] == c.entry_list()[i].1 by {
        lemma_entries_map_value(c.entry_list(), i);
    }
    assert forall|k: Seq<char>| #[trigger] c@.contains_key(k) implies exists|i: int|
        0 <= i < c.entry_list().len() && #[trigger] c.entry_list()[i].0@ == k by {
        lemma_entries_map_keys(c.entry_list(), k);
    }
}

} // verus!
