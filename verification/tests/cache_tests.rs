use just_tile::cache::{CacheEntry, ChunkAnswer, CogCache, FileSource, SharedChunkCache};
use just_tile::geotiff::{CogMetadata, Real};

fn metadata(width: u32) -> CogMetadata {
    let zero = Real { bits: 0 };
    CogMetadata {
        width,
        height: 1,
        tie_x: zero,
        tie_y: zero,
        scale_x: zero,
        scale_y: zero,
        proj_source_str: String::new(),
    }
}

#[test]
fn fetched_chunks_are_kept() {
    let mut cache = SharedChunkCache::default();
    assert!(cache.lookup(4).is_none());
    assert_eq!(**cache.get_or_fetch(4, || Ok(vec![1, 2])).unwrap(), vec![1, 2]);
    let again = cache.get_or_fetch(4, || panic!("the chunk is there"));
    assert_eq!(**again.unwrap(), vec![1, 2]);
    assert_eq!(**cache.get_or_fetch(5, || Ok(vec![3])).unwrap(), vec![3]);
    assert_eq!(**cache.lookup(4).unwrap(), vec![1, 2]);
}

#[test]
fn failed_fetches_are_tried_again() {
    let mut cache = SharedChunkCache::default();
    let failed = cache.get_or_fetch(0, || Err("HTTP Status 503".to_string()));
    assert_eq!(failed.unwrap_err(), "HTTP Status 503");
    assert!(cache.lookup(0).is_none());
    assert_eq!(**cache.get_or_fetch(0, || Ok(vec![7])).unwrap(), vec![7]);
}

#[test]
fn the_first_of_two_fetches_counts() {
    let mut cache = SharedChunkCache::default();
    assert_eq!(**cache.settle(1, Ok(vec![1])).unwrap(), vec![1]);
    assert_eq!(**cache.settle(1, Ok(vec![2])).unwrap(), vec![1]);
    assert_eq!(**cache.settle(1, Err("late".to_string())).unwrap(), vec![1]);
}

#[test]
fn a_chunk_is_requested_once_however_many_ask() {
    let mut cache = SharedChunkCache::default();
    assert!(matches!(cache.ask(3), ChunkAnswer::Fetch));
    assert!(matches!(cache.ask(3), ChunkAnswer::Wait));
    assert!(matches!(cache.ask(4), ChunkAnswer::Fetch));
    assert!(cache.settle(3, Err("HTTP Status 503".to_string())).is_err());
    assert!(matches!(cache.ask(3), ChunkAnswer::Fetch));
    assert!(matches!(cache.ask(4), ChunkAnswer::Wait));
    assert_eq!(**cache.settle(3, Ok(vec![8])).unwrap(), vec![8]);
    match cache.ask(3) {
        ChunkAnswer::Ready(bytes) => assert_eq!(**bytes, vec![8]),
        _ => panic!("the chunk is there"),
    }
    assert!(matches!(cache.ask(4), ChunkAnswer::Wait));
}

#[test]
fn the_server_is_asked_for_unknown_files_only() {
    let mut cache: CogCache<u8> = CogCache::new();
    assert!(matches!(CacheEntry::source(cache.get("a")), FileSource::Ask));
    cache.get_or_insert_empty("a", 10, 1);
    cache.get_or_insert_empty("a", 20, 2);
    cache.insert_metadata("a".to_string(), metadata(5));
    cache.get_or_insert_empty("b", 30, 3);
    match CacheEntry::source(cache.get("a")) {
        FileSource::Known(length, store) => assert_eq!((length, *store), (10, 1)),
        FileSource::Ask => panic!("the file is known"),
    }
    assert!(matches!(CacheEntry::source(cache.get("c")), FileSource::Ask));
}

#[test]
fn files_are_entered_once() {
    let mut cache: CogCache<u8> = CogCache::new();
    assert!(cache.get("a").is_none());
    assert_eq!(cache.get_or_insert_empty("a", 10, 1).content_length, 10);
    let entry = cache.get_or_insert_empty("a", 99, 2);
    assert_eq!((entry.content_length, entry.shared_cache), (10, 1));
    assert!(entry.metadata.is_none());
    assert!(cache.get("b").is_none());
}

#[test]
fn metadata_is_kept_for_known_files() {
    let mut cache: CogCache<u8> = CogCache::default();
    cache.insert_metadata("a".to_string(), metadata(5));
    assert!(cache.get("a").is_none());
    cache.get_or_insert_empty("a", 10, 1);
    cache.get_or_insert_empty("b", 20, 2);
    cache.insert_metadata("a".to_string(), metadata(5));
    let entry = cache.get("a").unwrap();
    assert_eq!((entry.content_length, entry.shared_cache), (10, 1));
    assert_eq!(entry.metadata.as_ref().unwrap().width, 5);
    assert!(cache.get("b").unwrap().metadata.is_none());
}

#[test]
fn inserted_entries_replace_earlier_ones() {
    let mut cache: CogCache<u8> = CogCache::new();
    cache.get_or_insert_empty("b", 20, 2);
    for length in [1, 2] {
        let entry =
            CacheEntry { content_length: length, metadata: Some(metadata(3)), shared_cache: 9 };
        cache.insert("a".to_string(), entry);
        assert_eq!(cache.get("a").unwrap().content_length, length);
    }
    assert_eq!(cache.get("b").unwrap().content_length, 20);
}

#[test]
fn metadata_is_needed_until_it_is_known() {
    assert!(CacheEntry::<u8>::needs_metadata(None));
    let mut entry = CacheEntry { content_length: 1, metadata: None, shared_cache: 0u8 };
    assert!(CacheEntry::needs_metadata(Some(&entry)));
    entry.metadata = Some(metadata(1));
    assert!(!CacheEntry::needs_metadata(Some(&entry)));
}
