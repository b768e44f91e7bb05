use std::sync::Arc;

use chunk_loader::cache::ChunkCache;
use chunk_loader::chunk::{Chunk, LoadError};
use chunk_loader::fingerprint::{digest_for, fingerprint_chunk_name, fingerprint_for, Fingerprint};

fn chunk_of(payload: &[u8]) -> Arc<Chunk> {
    let fp = fingerprint_for(payload);
    Arc::new(Chunk::new(fp, payload.to_vec()).expect("payload digests to its own fingerprint"))
}

#[test]
fn chunk_new_accepts_matching_payload() {
    let payload = b"some chunk contents".to_vec();
    let fp = fingerprint_for(&payload);
    let chunk = Chunk::new(fp, payload.clone()).expect("must accept its own fingerprint");
    assert_eq!(chunk.payload().as_slice(), payload.as_slice());
    assert_eq!(chunk.fprint(), fp);
}

#[test]
fn chunk_new_rejects_mismatched_payload() {
    let good = b"the payload that was fingerprinted".to_vec();
    let bad = b"a different payload".to_vec();
    let fp = fingerprint_for(&good);
    assert_ne!(digest_for(&bad), fp.hash0);
    match Chunk::new(fp, bad.clone()) {
        Err(LoadError::ContentMismatch { expected, actual, len }) => {
            assert_eq!(expected, fp);
            assert_eq!(actual, digest_for(&bad));
            assert_eq!(len, bad.len());
        }
        _ => panic!("a mismatched payload must fail with ContentMismatch"),
    }
}

#[test]
fn digest_matches_fingerprint_first_half() {
    for payload in [&b""[..], &b"x"[..], &b"some longer buffer with content"[..]] {
        let fp = fingerprint_for(payload);
        assert_eq!(digest_for(payload), fp.hash0);
    }
}

#[test]
fn fingerprints_differ_for_different_payloads() {
    let a = fingerprint_for(b"first");
    let b = fingerprint_for(b"second");
    assert_ne!(a, b);
}

#[test]
fn chunk_name_is_hex_of_both_halves() {
    let fp = Fingerprint { hash0: 0x0123456789abcdef, hash1: 0xfedcba9876543210 };
    let name: String = fingerprint_chunk_name(&fp).into_iter().collect();
    assert_eq!(name, "0123456789abcdef.fedcba9876543210");

    let zero = Fingerprint { hash0: 0, hash1: 0 };
    let zero_name: String = fingerprint_chunk_name(&zero).into_iter().collect();
    assert_eq!(zero_name, "0000000000000000.0000000000000000");
}

#[test]
fn chunk_names_are_distinct_for_distinct_fingerprints() {
    let a = fingerprint_chunk_name(&Fingerprint { hash0: 1, hash1: 2 });
    let b = fingerprint_chunk_name(&Fingerprint { hash0: 2, hash1: 1 });
    assert_ne!(a, b);
}

#[test]
fn retention_cache_never_exceeds_capacity() {
    let mut cache = ChunkCache::new(128);
    for i in 0..200u64 {
        cache.update_cache(chunk_of(&i.to_le_bytes()));
        assert!(cache.retained_len() <= 128);
    }
    assert_eq!(cache.retained_len(), 128);
}

#[test]
fn inserting_129th_chunk_evicts_least_recently_touched() {
    let mut cache = ChunkCache::new(128);
    let mut fps = Vec::new();
    for i in 0..128u64 {
        let chunk = chunk_of(&i.to_le_bytes());
        fps.push(chunk.fprint());
        cache.update_cache(chunk);
    }
    // Touch the oldest entry so the next oldest becomes the victim.
    assert!(cache.fetch_from_cache(fps[0]).is_some());
    let newcomer = chunk_of(&1000u64.to_le_bytes());
    cache.update_cache(newcomer.clone());
    assert_eq!(cache.retained_len(), 128);
    assert!(!cache.retains(&fps[1]), "the least recently touched entry must leave");
    assert!(cache.retains(&fps[0]), "touching an entry renews its recency");
    assert!(cache.retains(&newcomer.fprint()));
}

#[test]
fn touching_renews_recency_at_small_capacity() {
    let mut cache = ChunkCache::new(2);
    let a = chunk_of(b"aaa");
    let b = chunk_of(b"bbb");
    let c = chunk_of(b"ccc");
    cache.update_cache(a.clone());
    cache.update_cache(b.clone());
    assert!(cache.fetch_from_cache(a.fprint()).is_some());
    cache.update_cache(c.clone());
    assert!(cache.retains(&a.fprint()));
    assert!(!cache.retains(&b.fprint()));
    assert!(cache.retains(&c.fprint()));
}

#[test]
fn dedup_map_resolves_to_single_live_instance() {
    let mut cache = ChunkCache::new(8);
    let payload = b"shared content".to_vec();
    let fp = fingerprint_for(&payload);
    let first = Arc::new(Chunk::new(fp, payload.clone()).unwrap());
    let second = Arc::new(Chunk::new(fp, payload.clone()).unwrap());
    cache.update_cache(first);
    cache.update_cache(second.clone());
    let seen = cache.fetch_from_cache(fp).expect("the fingerprint is cached");
    assert!(Arc::ptr_eq(&seen, &second), "lookups must observe the last registered instance");
    assert_eq!(seen.payload().as_slice(), payload.as_slice());
}

#[test]
fn deregister_unfiles_the_fingerprint() {
    let mut cache = ChunkCache::new(8);
    let chunk = chunk_of(b"to be unfiled");
    let fp = chunk.fprint();
    cache.update_cache(chunk);
    assert!(cache.fetch_from_cache(fp).is_some());
    cache.deregister(fp);
    assert!(cache.fetch_from_cache(fp).is_none());
}
