//! What is known of the files that tiles were asked from.

use crate::geotiff::CogMetadata;
use std::collections::{HashMap, HashSet};
use std::sync::Arc;
use vstd::hash_map::StringHashMap;
use vstd::prelude::*;

verus! {

/// The chunks of one file that have been fetched, and which are being fetched.
pub struct SharedChunkCache {
    chunks: HashMap<u64, Arc<Vec<u8>>>,
    pending: HashSet<u64>,
}

impl View for SharedChunkCache {
    type V = ChunkState;

    closed spec fn view(&self) -> ChunkState {
        ChunkState {
            chunks: self.chunks@.map_values(|chunk: Arc<Vec<u8>>| chunk@),
            pending: self.pending@,
        }
    }
}

impl Default for SharedChunkCache {
    fn default() -> (cache: SharedChunkCache)
        ensures
            cache@.chunks == Map::<u64, Seq<u8>>::empty(),
            cache@.pending == Set::<u64>::empty(),
    {
        broadcast use vstd::std_specs::hash::group_hash_axioms;

        let cache = SharedChunkCache { chunks: HashMap::new(), pending: HashSet::new() };
        assert(cache@.chunks =~= Map::<u64, Seq<u8>>::empty());
        cache
    }
}

/// The answer to one who asks for a chunk.
pub enum ChunkAnswer<'a> {
    /// The chunk is there.
    Ready(&'a Arc<Vec<u8>>),
    /// Whoever asked is to fetch it, and to settle the fetch.
    Fetch,
    /// Somebody else is fetching it: ask again when that is settled.
    Wait,
}

/// The chunks that are there after a fetch of one of them gave `fetched`: a chunk that is there
/// already stays, one that was fetched is kept, and a failure leaves the chunk to be fetched again.
pub open spec fn after_fetch(
    chunks: Map<u64, Seq<u8>>,
    chunk_index: u64,
    fetched: Option<Seq<u8>>,
) -> Map<u64, Seq<u8>> {
    if chunks.contains_key(chunk_index) {
        chunks
    } else {
        match fetched {
            Some(bytes) => chunks.insert(chunk_index, bytes),
            None => chunks,
        }
    }
}

/// The bytes that a fetch got, if it got any.
pub open spec fn fetched_bytes(fetched: Result<Vec<u8>, String>) -> Option<Seq<u8>> {
    match fetched {
        Ok(data) => Some(data@),
        Err(_) => None,
    }
}

/// Whether `result` hands out the chunk that is there after a fetch, or the error of the fetch
/// where the chunk is not there.
pub open spec fn hands_out(
    result: Result<&Arc<Vec<u8>>, String>,
    chunks: Map<u64, Seq<u8>>,
    chunk_index: u64,
    fetched: Result<Vec<u8>, String>,
) -> bool {
    match result {
        Ok(bytes) => chunks.contains_key(chunk_index) && bytes@ == chunks[chunk_index],
        Err(e) => !chunks.contains_key(chunk_index) && fetched == Err::<Vec<u8>, String>(e),
    }
}

impl SharedChunkCache {
    /// Looks a chunk up.
    pub fn lookup(&self, chunk_index: u64) -> (chunk: Option<&Arc<Vec<u8>>>)
        ensures
            match chunk {
                Some(bytes) => {
                    &&& self@.chunks.contains_key(chunk_index)
                    &&& bytes@ == self@.chunks[chunk_index]
                },
                None => !self@.chunks.contains_key(chunk_index),
            },
    {
        broadcast use vstd::std_specs::hash::group_hash_axioms;

        self.chunks.get(&chunk_index)
    }

    /// Asks for a chunk. A chunk that is neither there nor being fetched counts as being fetched
    /// from now on.
    pub fn ask(&mut self, chunk_index: u64) -> (answer: ChunkAnswer<'_>)
        ensures
            final(self)@ == old(self)@.after(ChunkEvent::Asked(chunk_index)),
            match answer {
                ChunkAnswer::Ready(bytes) => {
                    &&& old(self)@.chunks.contains_key(chunk_index)
                    &&& bytes@ == old(self)@.chunks[chunk_index]
                },
                ChunkAnswer::Fetch => old(self)@.requests(
                    ChunkEvent::Asked(chunk_index),
                    chunk_index,
                ),
                ChunkAnswer::Wait => {
                    &&& !old(self)@.chunks.contains_key(chunk_index)
                    &&& old(self)@.pending.contains(chunk_index)
                },
            },
    {
        broadcast use vstd::std_specs::hash::group_hash_axioms;

        if !self.chunks.contains_key(&chunk_index) {
            if self.pending.contains(&chunk_index) {
                return ChunkAnswer::Wait;
            }
            self.pending.insert(chunk_index);
            return ChunkAnswer::Fetch;
        }
        match self.chunks.get(&chunk_index) {
            Some(chunk) => ChunkAnswer::Ready(chunk),
            None => ChunkAnswer::Wait,
        }
    }

    /// Takes note of how the fetch of a chunk ended, and hands the chunk out if it is there now.
    pub fn settle(&mut self, chunk_index: u64, fetched: Result<Vec<u8>, String>) -> (result: Result<
        &Arc<Vec<u8>>,
        String,
    >)
        ensures
            final(self)@ == old(self)@.after(
                ChunkEvent::Settled(chunk_index, fetched_bytes(fetched)),
            ),
            hands_out(result, final(self)@.chunks, chunk_index, fetched),
    {
        broadcast use vstd::std_specs::hash::group_hash_axioms;

        self.pending.remove(&chunk_index);
        assert(self.pending@ =~= old(self).pending@.remove(chunk_index));
        if !self.chunks.contains_key(&chunk_index) {
            match fetched {
                Ok(data) => {
                    let ghost before = self@.chunks;
                    let ghost bytes = data@;
                    self.chunks.insert(chunk_index, Arc::new(data));
                    assert(self@.chunks =~= before.insert(chunk_index, bytes));
                },
                Err(e) => return Err(e),
            }
        }
        match self.chunks.get(&chunk_index) {
            Some(chunk) => Ok(chunk),
            None => Err(String::new()),
        }
    }

    /// Hands out a chunk that nobody else is fetching, which `fetch_fn` fetches where it is not
    /// there yet.
    pub fn get_or_fetch<F>(&mut self, chunk_index: u64, fetch_fn: F) -> (result: Result<
        &Arc<Vec<u8>>,
        String,
    >) where F: FnOnce() -> Result<Vec<u8>, String>
        requires
            !old(self)@.pending.contains(chunk_index),
            !old(self)@.chunks.contains_key(chunk_index) ==> call_requires(fetch_fn, ()),
        ensures
            final(self)@.pending == old(self)@.pending,
            old(self)@.chunks.contains_key(chunk_index) ==> {
                &&& final(self)@.chunks == old(self)@.chunks
                &&& result matches Ok(bytes) && bytes@ == old(self)@.chunks[chunk_index]
            },
            !old(self)@.chunks.contains_key(chunk_index) ==> exists|
                fetched: Result<Vec<u8>, String>,
            |
                {
                    &&& #[trigger] call_ensures(fetch_fn, (), fetched)
                    &&& final(self)@.chunks == after_fetch(
                        old(self)@.chunks,
                        chunk_index,
                        fetched_bytes(fetched),
                    )
                    &&& hands_out(result, final(self)@.chunks, chunk_index, fetched)
                },
    {
        let fetched = if self.lookup(chunk_index).is_some() {
            Err(String::new())
        } else {
            fetch_fn()
        };
        assert(self@.pending.remove(chunk_index) =~= self@.pending);
        self.settle(chunk_index, fetched)
    }
}

/// What happens to the chunks of a file: one is asked for, or the fetch of one is settled.
pub enum ChunkEvent {
    Asked(u64),
    Settled(u64, Option<Seq<u8>>),
}

/// The chunks that are there and those that are being fetched.
pub struct ChunkState {
    pub chunks: Map<u64, Seq<u8>>,
    pub pending: Set<u64>,
}

impl ChunkState {
    /// Whether a chunk is there or being fetched.
    pub open spec fn knows(self, chunk_index: u64) -> bool {
        self.chunks.contains_key(chunk_index) || self.pending.contains(chunk_index)
    }

    /// Whether an event makes somebody request a chunk.
    pub open spec fn requests(self, event: ChunkEvent, chunk_index: u64) -> bool {
        event == ChunkEvent::Asked(chunk_index) && !self.knows(chunk_index)
    }

    /// Whether an event can happen: only the fetch of a chunk that is being fetched is settled.
    pub open spec fn allows(self, event: ChunkEvent) -> bool {
        event matches ChunkEvent::Settled(i, _) ==> self.pending.contains(i)
    }

    /// What there is after an event: `ask` and `settle` lead there.
    pub open spec fn after(self, event: ChunkEvent) -> ChunkState {
        match event {
            ChunkEvent::Asked(i) => ChunkState {
                chunks: self.chunks,
                pending: if self.knows(i) {
                    self.pending
                } else {
                    self.pending.insert(i)
                },
            },
            ChunkEvent::Settled(i, fetched) => ChunkState {
                chunks: after_fetch(self.chunks, i, fetched),
                pending: self.pending.remove(i),
            },
        }
    }

    /// What there is after a series of events.
    pub open spec fn after_all(self, events: Seq<ChunkEvent>) -> ChunkState
        decreases events.len(),
    {
        if events.len() == 0 {
            self
        } else {
            self.after_all(events.drop_last()).after(events.last())
        }
    }

    /// Whether a series of events can happen.
    pub open spec fn allows_all(self, events: Seq<ChunkEvent>) -> bool
        decreases events.len(),
    {
        events.len() > 0 ==> {
            &&& self.allows_all(events.drop_last())
            &&& self.after_all(events.drop_last()).allows(events.last())
        }
    }

    /// How often a chunk is requested in a series of events.
    pub open spec fn requests_for(self, events: Seq<ChunkEvent>, chunk_index: u64) -> nat
        decreases events.len(),
    {
        if events.len() == 0 {
            0
        } else {
            let before = self.after_all(events.drop_last());
            self.requests_for(events.drop_last(), chunk_index) + if before.requests(
                events.last(),
                chunk_index,
            ) {
                1nat
            } else {
                0nat
            }
        }
    }
}

/// Whether an event is the failure to fetch a chunk.
pub open spec fn is_failure(event: ChunkEvent, chunk_index: u64) -> bool {
    event == ChunkEvent::Settled(chunk_index, None)
}

/// Whether an event is that a chunk was fetched.
pub open spec fn is_success(event: ChunkEvent, chunk_index: u64) -> bool {
    event matches ChunkEvent::Settled(i, Some(_)) && i == chunk_index
}

/// How often fetching a chunk fails in a series of events.
pub open spec fn failures_for(events: Seq<ChunkEvent>, chunk_index: u64) -> nat
    decreases events.len(),
{
    if events.len() == 0 {
        0
    } else {
        failures_for(events.drop_last(), chunk_index) + if is_failure(events.last(), chunk_index) {
            1nat
        } else {
            0nat
        }
    }
}

/// A chunk that is there once stays as it is, whatever happens afterwards, and is not requested
/// again.
pub proof fn law_fetched_chunks_stay(state: ChunkState, events: Seq<ChunkEvent>, chunk_index: u64)
    requires
        state.chunks.contains_key(chunk_index),
    ensures
        state.after_all(events).chunks.contains_key(chunk_index),
        state.after_all(events).chunks[chunk_index] == state.chunks[chunk_index],
        state.requests_for(events, chunk_index) == 0,
    decreases events.len(),
{
    if events.len() > 0 {
        law_fetched_chunks_stay(state, events.drop_last(), chunk_index);
    }
}

/// However many ask for a chunk, and in whatever order, it is requested at most once, and once more
/// for each request that fails; it is not requested if it is there or being fetched at first.
pub proof fn law_chunks_are_requested_once(
    state: ChunkState,
    events: Seq<ChunkEvent>,
    chunk_index: u64,
)
    ensures
        state.requests_for(events, chunk_index) <= failures_for(events, chunk_index)
            + if state.knows(chunk_index) {
            0nat
        } else {
            1nat
        },
{
    lemma_requests(state, events, chunk_index);
}

proof fn lemma_requests(state: ChunkState, events: Seq<ChunkEvent>, chunk_index: u64)
    ensures
        ({
            let known = |s: ChunkState|
                if s.knows(chunk_index) {
                    1nat
                } else {
                    0nat
                };
            state.requests_for(events, chunk_index) + known(state) <= failures_for(
                events,
                chunk_index,
            ) + known(state.after_all(events))
        }),
    decreases events.len(),
{
    if events.len() > 0 {
        lemma_requests(state, events.drop_last(), chunk_index);
    }
}

/// A chunk that somebody asked for was requested, unless it was there or being fetched at first;
/// if no fetch of it failed it is there, or still being fetched.
pub proof fn law_asked_chunks_are_requested(
    state: ChunkState,
    events: Seq<ChunkEvent>,
    chunk_index: u64,
)
    requires
        state.allows_all(events),
        events.contains(ChunkEvent::Asked(chunk_index)),
    ensures
        state.knows(chunk_index) || state.requests_for(events, chunk_index) >= 1,
        failures_for(events, chunk_index) == 0 ==> state.after_all(events).knows(chunk_index),
    decreases events.len(),
{
    let rest = events.drop_last();
    lemma_known_chunks(state, rest, chunk_index);
    if events.last() != ChunkEvent::Asked(chunk_index) {
        let i = choose|i: int|
            0 <= i < events.len() && events[i] == ChunkEvent::Asked(chunk_index);
        assert(rest[i] == events[i]);
        law_asked_chunks_are_requested(state, rest, chunk_index);
    }
}

proof fn lemma_known_chunks(state: ChunkState, events: Seq<ChunkEvent>, chunk_index: u64)
    requires
        state.allows_all(events),
    ensures
        state.after_all(events).knows(chunk_index) ==> state.knows(chunk_index)
            || state.requests_for(events, chunk_index) >= 1,
    decreases events.len(),
{
    if events.len() > 0 {
        lemma_known_chunks(state, events.drop_last(), chunk_index);
    }
}

proof fn lemma_chunks_are_requested_when_asked_for(
    state: ChunkState,
    events: Seq<ChunkEvent>,
    chunk_index: u64,
)
    requires
        !events.contains(ChunkEvent::Asked(chunk_index)),
    ensures
        state.requests_for(events, chunk_index) == 0,
    decreases events.len(),
{
    if events.len() > 0 {
        let rest = events.drop_last();
        assert forall|i: int| 0 <= i < rest.len() implies rest[i] != ChunkEvent::Asked(
            chunk_index,
        ) by {
            assert(rest[i] == events[i]);
        }
        assert(events[events.len() - 1] != ChunkEvent::Asked(chunk_index));
        lemma_chunks_are_requested_when_asked_for(state, rest, chunk_index);
    }
}

/// Where chunks are asked for, some of them perhaps more than once or by several at a time, and all
/// fetches come to their end without a failure, each chunk that was not there is requested exactly
/// once, no other is requested, and all of them are there in the end.
pub proof fn law_prefetched_chunks_are_there(
    state: ChunkState,
    events: Seq<ChunkEvent>,
    chunk_indices: Seq<u64>,
    chunk_index: u64,
)
    requires
        state.pending == Set::<u64>::empty(),
        state.allows_all(events),
        state.after_all(events).pending == Set::<u64>::empty(),
        chunk_indices.contains(chunk_index) <==> events.contains(ChunkEvent::Asked(chunk_index)),
        failures_for(events, chunk_index) == 0,
    ensures
        state.requests_for(events, chunk_index) == if chunk_indices.contains(chunk_index)
            && !state.chunks.contains_key(chunk_index) {
            1nat
        } else {
            0nat
        },
        chunk_indices.contains(chunk_index) ==> state.after_all(events).chunks.contains_key(
            chunk_index,
        ),
{
    law_chunks_are_requested_once(state, events, chunk_index);
    if chunk_indices.contains(chunk_index) {
        law_asked_chunks_are_requested(state, events, chunk_index);
    } else {
        lemma_chunks_are_requested_when_asked_for(state, events, chunk_index);
    }
}

/// A chunk whose fetches all failed is still to be fetched.
pub proof fn law_failed_fetches_leave_no_chunk(
    state: ChunkState,
    events: Seq<ChunkEvent>,
    chunk_index: u64,
)
    requires
        !state.chunks.contains_key(chunk_index),
        forall|i: int| 0 <= i < events.len() ==> !#[trigger] is_success(events[i], chunk_index),
    ensures
        !state.after_all(events).chunks.contains_key(chunk_index),
    decreases events.len(),
{
    if events.len() > 0 {
        let rest = events.drop_last();
        assert forall|i: int| 0 <= i < rest.len() implies !#[trigger] is_success(
            rest[i],
            chunk_index,
        ) by {
            assert(!is_success(events[i], chunk_index));
        }
        law_failed_fetches_leave_no_chunk(state, rest, chunk_index);
        assert(!is_success(events[events.len() - 1], chunk_index));
    }
}

/// What is known of one file; `C` is a handle of the cache of its chunks.
#[derive(Debug, Clone)]
pub struct CacheEntry<C> {
    pub content_length: u64,
    pub metadata: Option<CogMetadata>,
    pub shared_cache: C,
}

/// Where the length and the chunks of a file are to be had.
pub enum FileSource<'a, C> {
    /// The file is known, with this length and this cache of its chunks.
    Known(u64, &'a C),
    /// The server is to be asked.
    Ask,
}

impl<C> CacheEntry<C> {
    /// Where the length and the chunks of a file are to be had, where `cached` is what is known of
    /// it.
    pub fn source<'a>(cached: Option<&'a CacheEntry<C>>) -> (source: FileSource<'a, C>)
        ensures
            match cached {
                Some(entry) => source == FileSource::Known(
                    entry.content_length,
                    &entry.shared_cache,
                ),
                None => source is Ask,
            },
    {
        match cached {
            Some(entry) => FileSource::Known(entry.content_length, &entry.shared_cache),
            None => FileSource::Ask,
        }
    }

    /// Whether the metadata of a file is still to be read, where `cached` is what is known of it.
    pub fn needs_metadata(cached: Option<&CacheEntry<C>>) -> (needed: bool)
        ensures
            needed == match cached {
                Some(entry) => entry.metadata is None,
                None => true,
            },
    {
        match cached {
            Some(entry) => entry.metadata.is_none(),
            None => true,
        }
    }
}

/// A simple cache for COG headers and metadata, by URL.
pub struct CogCache<C> {
    index: StringHashMap<usize>,
    entries: Vec<CacheEntry<C>>,
}

impl<C> View for CogCache<C> {
    type V = Map<Seq<char>, CacheEntry<C>>;

    closed spec fn view(&self) -> Map<Seq<char>, CacheEntry<C>> {
        Map::new(
            |url: Seq<char>| self.index@.contains_key(url),
            |url: Seq<char>| self.entries@[self.index@[url] as int],
        )
    }
}

/// The entries after a file was looked up or, where nothing was known of it, entered.
pub open spec fn with_entry<C>(
    entries: Map<Seq<char>, CacheEntry<C>>,
    url: Seq<char>,
    length: u64,
    fresh: C,
) -> Map<Seq<char>, CacheEntry<C>> {
    if entries.contains_key(url) {
        entries
    } else {
        entries.insert(
            url,
            CacheEntry { content_length: length, metadata: None, shared_cache: fresh },
        )
    }
}

/// The entries after a file's metadata was entered, which a file of which nothing is known drops.
pub open spec fn with_metadata<C>(
    entries: Map<Seq<char>, CacheEntry<C>>,
    url: Seq<char>,
    metadata: CogMetadata,
) -> Map<Seq<char>, CacheEntry<C>> {
    if entries.contains_key(url) {
        entries.insert(
            url,
            CacheEntry {
                content_length: entries[url].content_length,
                metadata: Some(metadata),
                shared_cache: entries[url].shared_cache,
            },
        )
    } else {
        entries
    }
}

impl<C> Default for CogCache<C> {
    fn default() -> (cache: CogCache<C>)
        ensures
            cache.wf(),
            cache@ == Map::<Seq<char>, CacheEntry<C>>::empty(),
    {
        CogCache::new()
    }
}

impl<C> CogCache<C> {
    /// Every URL has an entry of its own.
    pub closed spec fn wf(self) -> bool {
        &&& forall|url: Seq<char>| #[trigger]
            self.index@.contains_key(url) ==> self.index@[url] < self.entries@.len()
        &&& forall|a: Seq<char>, b: Seq<char>|
            self.index@.contains_key(a) && self.index@.contains_key(b) && #[trigger] self.index@[a]
                == #[trigger] self.index@[b] ==> a == b
    }

    /// An empty cache.
    pub fn new() -> (cache: CogCache<C>)
        ensures
            cache.wf(),
            cache@ == Map::<Seq<char>, CacheEntry<C>>::empty(),
    {
        let cache = CogCache { index: StringHashMap::new(), entries: Vec::new() };
        assert(cache@ =~= Map::<Seq<char>, CacheEntry<C>>::empty());
        cache
    }

    /// What is known of the file at `url`.
    pub fn get(&self, url: &str) -> (entry: Option<&CacheEntry<C>>)
        requires
            self.wf(),
        ensures
            match entry {
                Some(entry) => self@.contains_key(url@) && *entry == self@[url@],
                None => !self@.contains_key(url@),
            },
    {
        match self.index.get(url) {
            Some(slot) => Some(&self.entries[*slot]),
            None => None,
        }
    }

    /// What is known of the file at `url`: where that is nothing, its length is entered, with
    /// `fresh` as the cache of its chunks.
    pub fn get_or_insert_empty(&mut self, url: &str, length: u64, fresh: C) -> (entry: &CacheEntry<
        C,
    >)
        requires
            old(self).wf(),
        ensures
            final(self).wf(),
            final(self)@ == with_entry(old(self)@, url@, length, fresh),
            *entry == final(self)@[url@],
    {
        if !self.index.contains_key(url) {
            let entry = CacheEntry { content_length: length, metadata: None, shared_cache: fresh };
            self.insert(url.to_owned(), entry);
        }
        self.get(url).unwrap()
    }

    /// Enters the metadata of a file of which something is known.
    pub fn insert_metadata(&mut self, url: String, metadata: CogMetadata)
        requires
            old(self).wf(),
        ensures
            final(self).wf(),
            final(self)@ == with_metadata(old(self)@, url@, metadata),
    {
        let slot: usize = match self.index.get(url.as_str()) {
            Some(slot) => *slot,
            None => return ,
        };
        let ghost before = self@;
        self.entries[slot].metadata = Some(metadata);
        assert(self@ =~= with_metadata(before, url@, metadata));
    }

    /// Enters what is known of a file, in place of what was known.
    pub fn insert(&mut self, url: String, entry: CacheEntry<C>)
        requires
            old(self).wf(),
        ensures
            final(self).wf(),
            final(self)@ == old(self)@.insert(url@, entry),
    {
        let ghost before = self@;
        let found = self.index.get(url.as_str());
        match found {
            Some(slot) => {
                let slot: usize = *slot;
                self.entries[slot] = entry;
            },
            None => {
                self.index.insert(url, self.entries.len());
                self.entries.push(entry);
            },
        }
        assert(self@ =~= before.insert(url@, entry));
    }
}

/// A file that was entered once is known from then on, with the length and the chunk cache that
/// it was first entered with; nothing changes for other files.
pub proof fn law_first_entry_stays<C>(
    entries: Map<Seq<char>, CacheEntry<C>>,
    url: Seq<char>,
    first: (u64, C),
    later: (u64, C),
)
    ensures
        with_entry(entries, url, first.0, first.1).contains_key(url),
        with_entry(with_entry(entries, url, first.0, first.1), url, later.0, later.1) == with_entry(
            entries,
            url,
            first.0,
            first.1,
        ),
        forall|other: Seq<char>|
            other != url ==> {
                &&& with_entry(entries, url, first.0, first.1).contains_key(other)
                    <==> #[trigger] entries.contains_key(other)
                &&& entries.contains_key(other) ==> with_entry(
                    entries,
                    url,
                    first.0,
                    first.1,
                )[other] == entries[other]
            },
{
}

/// Metadata that was entered for a known file is there, beside its length and its chunk cache;
/// nothing changes for other files, and no file becomes known by its metadata.
pub proof fn law_metadata_is_added_to_known_files<C>(
    entries: Map<Seq<char>, CacheEntry<C>>,
    url: Seq<char>,
    metadata: CogMetadata,
)
    ensures
        with_metadata(entries, url, metadata).dom() == entries.dom(),
        entries.contains_key(url) ==> {
            let entry = with_metadata(entries, url, metadata)[url];
            &&& entry.metadata == Some(metadata)
            &&& entry.content_length == entries[url].content_length
            &&& entry.shared_cache == entries[url].shared_cache
        },
        forall|other: Seq<char>|
            other != url && #[trigger] entries.contains_key(other) ==> with_metadata(
                entries,
                url,
                metadata,
            )[other] == entries[other],
{
    assert(with_metadata(entries, url, metadata).dom() =~= entries.dom());
}

/// What is entered of a file: that it was found, with its length and a cache of its chunks, or its
/// metadata.
pub enum FileEvent<C> {
    Found(Seq<char>, u64, C),
    Described(Seq<char>, CogMetadata),
}

/// The entries after a series of files was entered.
pub open spec fn after_files<C>(
    entries: Map<Seq<char>, CacheEntry<C>>,
    events: Seq<FileEvent<C>>,
) -> Map<Seq<char>, CacheEntry<C>>
    decreases events.len(),
{
    if events.len() == 0 {
        entries
    } else {
        let before = after_files(entries, events.drop_last());
        match events.last() {
            FileEvent::Found(url, length, fresh) => with_entry(before, url, length, fresh),
            FileEvent::Described(url, metadata) => with_metadata(before, url, metadata),
        }
    }
}

/// The server is not asked again for a file that is known: whatever else is entered, its length and
/// the cache of its chunks are had from its entry, and stay the same.
pub proof fn law_known_files_are_not_asked_again<C>(
    entries: Map<Seq<char>, CacheEntry<C>>,
    events: Seq<FileEvent<C>>,
    url: Seq<char>,
)
    requires
        entries.contains_key(url),
    ensures
        after_files(entries, events).contains_key(url),
        after_files(entries, events)[url].content_length == entries[url].content_length,
        after_files(entries, events)[url].shared_cache == entries[url].shared_cache,
    decreases events.len(),
{
    if events.len() > 0 {
        law_known_files_are_not_asked_again(entries, events.drop_last(), url);
    }
}

/// A chunk that is looked up is handed out if it is there.
pub proof fn law_chunks_are_looked_up(
    cache: SharedChunkCache,
    chunk_index: u64,
    chunk: Option<&Arc<Vec<u8>>>,
)
    requires
        call_ensures(SharedChunkCache::lookup, (&cache, chunk_index), chunk),
    ensures
        chunk is Some <==> cache@.chunks.contains_key(chunk_index),
        chunk matches Some(bytes) ==> bytes@ == cache@.chunks[chunk_index],
{
}

/// Who asks for a chunk gets it if it is there. Else the first who asks fetches it, and all others
/// wait until that is settled. Nothing else changes.
pub proof fn law_first_to_ask_fetches(
    cache: &mut SharedChunkCache,
    chunk_index: u64,
    answer: ChunkAnswer<'_>,
)
    requires
        call_ensures(SharedChunkCache::ask, (cache, chunk_index), answer),
    ensures
        final(cache)@.chunks == old(cache)@.chunks,
        old(cache)@.chunks.contains_key(chunk_index) ==> {
            &&& answer matches ChunkAnswer::Ready(bytes)
            &&& bytes@ == old(cache)@.chunks[chunk_index]
            &&& final(cache)@.pending == old(cache)@.pending
        },
        !old(cache)@.chunks.contains_key(chunk_index) && old(cache)@.pending.contains(
            chunk_index,
        ) ==> {
            &&& answer is Wait
            &&& final(cache)@.pending == old(cache)@.pending
        },
        !old(cache)@.chunks.contains_key(chunk_index) && !old(cache)@.pending.contains(
            chunk_index,
        ) ==> {
            &&& answer is Fetch
            &&& final(cache)@.pending.contains(chunk_index)
            &&& forall|other: u64|
                other != chunk_index ==> (#[trigger] final(cache)@.pending.contains(other)
                    == old(cache)@.pending.contains(other))
        },
{
}

/// A chunk that was fetched is kept, byte for byte, and handed out, unless there is one already,
/// which then stays; the error of a fetch is handed on where there is none. Either way the chunk
/// is not being fetched any more. Nothing changes for other chunks.
pub proof fn law_fetched_chunks_are_kept(
    cache: &mut SharedChunkCache,
    chunk_index: u64,
    fetched: Result<Vec<u8>, String>,
    result: Result<&Arc<Vec<u8>>, String>,
)
    requires
        call_ensures(SharedChunkCache::settle, (cache, chunk_index, fetched), result),
    ensures
        !final(cache)@.pending.contains(chunk_index),
        forall|other: u64|
            other != chunk_index ==> {
                &&& #[trigger] final(cache)@.pending.contains(other)
                    == old(cache)@.pending.contains(other)
                &&& final(cache)@.chunks.contains_key(other) == old(cache)@.chunks.contains_key(
                    other,
                )
                &&& final(cache)@.chunks.contains_key(other) ==> final(cache)@.chunks[other]
                    == old(cache)@.chunks[other]
            },
        old(cache)@.chunks.contains_key(chunk_index) ==> {
            &&& final(cache)@.chunks.contains_key(chunk_index)
            &&& final(cache)@.chunks[chunk_index] == old(cache)@.chunks[chunk_index]
            &&& result matches Ok(bytes) && bytes@ == old(cache)@.chunks[chunk_index]
        },
        !old(cache)@.chunks.contains_key(chunk_index) ==> match fetched {
            Ok(data) => {
                &&& final(cache)@.chunks.contains_key(chunk_index)
                &&& final(cache)@.chunks[chunk_index] == data@
                &&& result matches Ok(bytes) && bytes@ == data@
            },
            Err(e) => {
                &&& !final(cache)@.chunks.contains_key(chunk_index)
                &&& result == Err::<&Arc<Vec<u8>>, String>(e)
            },
        },
{
}

/// A chunk that is there is handed out without being fetched; one that is not is fetched, kept and
/// handed out, or else the error of the fetch is handed on. Nothing changes for other chunks.
pub proof fn law_missing_chunks_are_fetched<F>(
    cache: &mut SharedChunkCache,
    chunk_index: u64,
    fetch_fn: F,
    fetched: Result<Vec<u8>, String>,
    result: Result<&Arc<Vec<u8>>, String>,
) where F: FnOnce() -> Result<Vec<u8>, String>
    requires
        call_ensures(SharedChunkCache::get_or_fetch::<F>, (cache, chunk_index, fetch_fn), result),
        forall|answer: Result<Vec<u8>, String>| #[trigger]
            call_ensures(fetch_fn, (), answer) ==> answer == fetched,
    ensures
        final(cache)@.pending == old(cache)@.pending,
        forall|other: u64|
            other != chunk_index ==> {
                &&& #[trigger] final(cache)@.chunks.contains_key(other)
                    == old(cache)@.chunks.contains_key(other)
                &&& final(cache)@.chunks.contains_key(other) ==> final(cache)@.chunks[other]
                    == old(cache)@.chunks[other]
            },
        old(cache)@.chunks.contains_key(chunk_index) ==> {
            &&& final(cache)@.chunks.contains_key(chunk_index)
            &&& final(cache)@.chunks[chunk_index] == old(cache)@.chunks[chunk_index]
            &&& result matches Ok(bytes) && bytes@ == old(cache)@.chunks[chunk_index]
        },
        !old(cache)@.chunks.contains_key(chunk_index) ==> match fetched {
            Ok(data) => {
                &&& final(cache)@.chunks.contains_key(chunk_index)
                &&& final(cache)@.chunks[chunk_index] == data@
                &&& result matches Ok(bytes) && bytes@ == data@
            },
            Err(e) => {
                &&& !final(cache)@.chunks.contains_key(chunk_index)
                &&& result == Err::<&Arc<Vec<u8>>, String>(e)
            },
        },
{
}

/// The length and the chunks of a file are had from what is known of it, and its metadata is read
/// unless it is known; where nothing is known, the server is asked.
pub proof fn law_known_files_have_their_own_source<C>(
    cached: Option<&CacheEntry<C>>,
    source: FileSource<'_, C>,
    needed: bool,
)
    requires
        call_ensures(CacheEntry::<C>::source, (cached,), source),
        call_ensures(CacheEntry::<C>::needs_metadata, (cached,), needed),
    ensures
        cached is None ==> source is Ask && needed,
        cached matches Some(entry) ==> {
            &&& source == FileSource::Known(entry.content_length, &entry.shared_cache)
            &&& needed == (entry.metadata is None)
        },
{
}

/// Nothing is known of any file at first.
pub proof fn law_new_caches_know_no_file<C>(
    cache: CogCache<C>,
    url: &str,
    entry: Option<&CacheEntry<C>>,
)
    requires
        call_ensures(CogCache::<C>::new, (), cache),
        call_ensures(CogCache::<C>::get, (&cache, url), entry),
    ensures
        cache.wf(),
        entry is None,
{
}

/// What is known of a file is what the cache has under its URL.
pub proof fn law_files_are_found_by_their_url<C>(
    cache: CogCache<C>,
    url: &str,
    entry: Option<&CacheEntry<C>>,
)
    requires
        call_ensures(CogCache::<C>::get, (&cache, url), entry),
    ensures
        entry is Some <==> cache@.contains_key(url@),
        entry matches Some(found) ==> *found == cache@[url@],
{
}

/// What is known of a file stays when it is looked up; a file of which nothing is known is entered
/// with its length and a fresh cache, and without metadata. Nothing changes for other files.
pub proof fn law_unknown_files_are_entered_empty<C>(
    cache: &mut CogCache<C>,
    url: &str,
    length: u64,
    fresh: C,
    entry: &CacheEntry<C>,
)
    requires
        call_ensures(CogCache::<C>::get_or_insert_empty, (cache, url, length, fresh), entry),
    ensures
        final(cache)@.contains_key(url@),
        final(cache)@[url@] == *entry,
        old(cache)@.contains_key(url@) ==> *entry == old(cache)@[url@],
        !old(cache)@.contains_key(url@) ==> {
            &&& entry.content_length == length
            &&& entry.metadata is None
            &&& entry.shared_cache == fresh
        },
        forall|other: Seq<char>|
            other != url@ ==> {
                &&& #[trigger] final(cache)@.contains_key(other) == old(cache)@.contains_key(other)
                &&& final(cache)@.contains_key(other) ==> final(cache)@[other] == old(cache)@[other]
            },
{
}

/// The metadata of a known file is entered beside its length and its chunks; that of an unknown one
/// is dropped. Nothing changes for other files.
pub proof fn law_metadata_is_entered_for_known_files<C>(
    cache: &mut CogCache<C>,
    url: String,
    metadata: CogMetadata,
)
    requires
        call_ensures(CogCache::<C>::insert_metadata, (cache, url, metadata), ()),
    ensures
        final(cache)@.contains_key(url@) == old(cache)@.contains_key(url@),
        old(cache)@.contains_key(url@) ==> {
            &&& final(cache)@[url@].metadata == Some(metadata)
            &&& final(cache)@[url@].content_length == old(cache)@[url@].content_length
            &&& final(cache)@[url@].shared_cache == old(cache)@[url@].shared_cache
        },
        forall|other: Seq<char>|
            other != url@ ==> {
                &&& #[trigger] final(cache)@.contains_key(other) == old(cache)@.contains_key(other)
                &&& final(cache)@.contains_key(other) ==> final(cache)@[other] == old(cache)@[other]
            },
{
}

/// What is entered of a file takes the place of what was known of it. Nothing changes for other
/// files.
pub proof fn law_entered_files_are_known<C>(
    cache: &mut CogCache<C>,
    url: String,
    entry: CacheEntry<C>,
)
    requires
        call_ensures(CogCache::<C>::insert, (cache, url, entry), ()),
    ensures
        final(cache)@.contains_key(url@),
        final(cache)@[url@] == entry,
        forall|other: Seq<char>|
            other != url@ ==> {
                &&& #[trigger] final(cache)@.contains_key(other) == old(cache)@.contains_key(other)
                &&& final(cache)@.contains_key(other) ==> final(cache)@[other] == old(cache)@[other]
            },
{
}

/// A new cache of chunks has none, and none is being fetched.
pub proof fn law_new_caches_have_no_chunk(cache: SharedChunkCache, chunk_index: u64)
    requires
        call_ensures(<SharedChunkCache as Default>::default, (), cache),
    ensures
        !cache@.chunks.contains_key(chunk_index),
        !cache@.pending.contains(chunk_index),
{
}

} // verus!
