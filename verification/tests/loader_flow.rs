use std::sync::Arc;

use chunk_loader::chunk::{Chunk, LoadError};
use chunk_loader::fingerprint::fingerprint_for;
use chunk_loader::loader::{
    collect_batch, create_chunk_source, plan_batch, FetchAction, FetchState, FetchStatus, Loader,
    RegionPlan, ReplicationTarget, S3Target, SourceEvent,
};
use chunk_loader::source::{load_from_source, retry_step, GetEvent, GetStep};

const GRANULARITY: usize = 4096;

fn test_loader(locals: usize, remotes: usize) -> Loader {
    let local: Vec<String> = (0..locals).map(|i| format!("/cache/{}", i)).collect();
    let remote: Vec<ReplicationTarget> = (0..remotes)
        .map(|i| {
            ReplicationTarget::S3(S3Target {
                region: "us-east-1".to_string(),
                endpoint: None,
                chunk_bucket: format!("chunks-{}", i),
                domain_addressing: false,
            })
        })
        .collect();
    Loader::new(local, &remote, GRANULARITY)
}

fn pending(status: FetchStatus) -> (FetchState, FetchAction) {
    match status {
        FetchStatus::Pending(st, action) => (st, action),
        FetchStatus::Done(_) => panic!("expected the fetch to continue"),
    }
}

#[test]
fn fetch_walks_locals_before_remotes_in_configured_order() {
    let mut loader = test_loader(2, 1);
    let fp = fingerprint_for(b"absent everywhere");
    let (st0, a0) = pending(loader.fetch_begin(fp));
    assert_eq!(a0, FetchAction::ReadLocal(0));
    let (st1, a1) = pending(loader.fetch_step(st0, SourceEvent::Absent).unwrap());
    assert_eq!(a1, FetchAction::ReadLocal(1));
    let (st2, a2) = pending(loader.fetch_step(st1, SourceEvent::Absent).unwrap());
    assert_eq!(a2, FetchAction::GetRemote(0));
    match loader.fetch_step(st2, SourceEvent::Absent).unwrap() {
        FetchStatus::Done(None) => {}
        _ => panic!("a chunk absent from every source is a normal empty outcome"),
    }
}

#[test]
fn chunk_found_locally_is_never_fetched_from_remote() {
    let mut loader = test_loader(2, 1);
    let payload = b"present in the second local cache".to_vec();
    let fp = fingerprint_for(&payload);
    let (st0, _) = pending(loader.fetch_begin(fp));
    let (st1, a1) = pending(loader.fetch_step(st0, SourceEvent::Absent).unwrap());
    assert_eq!(a1, FetchAction::ReadLocal(1));
    match loader.fetch_step(st1, SourceEvent::Found(payload.clone())).unwrap() {
        FetchStatus::Done(Some(chunk)) => {
            assert_eq!(chunk.payload().as_slice(), payload.as_slice());
            assert_eq!(chunk.fprint(), fp);
        }
        _ => panic!("a found chunk finishes the fetch at once"),
    }
}

#[test]
fn chunk_found_at_remote_after_local_misses() {
    let mut loader = test_loader(1, 2);
    let payload = b"only the second remote has it".to_vec();
    let fp = fingerprint_for(&payload);
    let (st0, a0) = pending(loader.fetch_begin(fp));
    assert_eq!(a0, FetchAction::ReadLocal(0));
    let (st1, a1) = pending(loader.fetch_step(st0, SourceEvent::Absent).unwrap());
    assert_eq!(a1, FetchAction::GetRemote(0));
    let (st2, a2) = pending(loader.fetch_step(st1, SourceEvent::Absent).unwrap());
    assert_eq!(a2, FetchAction::GetRemote(1));
    match loader.fetch_step(st2, SourceEvent::Found(payload.clone())).unwrap() {
        FetchStatus::Done(Some(chunk)) => assert_eq!(chunk.payload().as_slice(), payload.as_slice()),
        _ => panic!("the remote hit finishes the fetch"),
    }
}

#[test]
fn fetch_with_no_sources_finishes_empty() {
    let mut loader = test_loader(0, 0);
    let fp = fingerprint_for(b"nowhere to look");
    match loader.fetch_begin(fp) {
        FetchStatus::Done(None) => {}
        _ => panic!("with no sources a cache miss is a normal empty outcome"),
    }
}

#[test]
fn second_fetch_of_same_fingerprint_hits_the_cache() {
    let mut loader = test_loader(1, 0);
    let payload = b"cached after the first fetch".to_vec();
    let fp = fingerprint_for(&payload);
    let (st0, _) = pending(loader.fetch_begin(fp));
    let first = match loader.fetch_step(st0, SourceEvent::Found(payload.clone())).unwrap() {
        FetchStatus::Done(Some(chunk)) => chunk,
        _ => panic!("the fetch must finish"),
    };
    match loader.fetch_begin(fp) {
        FetchStatus::Done(Some(chunk)) => {
            assert!(Arc::ptr_eq(&chunk, &first), "the cache must reuse the one live instance");
        }
        _ => panic!("the second fetch must not consult any source"),
    }
}

#[test]
fn local_io_error_surfaces_and_does_not_fall_through() {
    let mut loader = test_loader(1, 1);
    let fp = fingerprint_for(b"whatever");
    let (st0, _) = pending(loader.fetch_begin(fp));
    match loader.fetch_step(st0, SourceEvent::Failed(LoadError::LocalIoError)) {
        Err(LoadError::LocalIoError) => {}
        _ => panic!("a broken local cache must not be masked as a miss"),
    }
}

#[test]
fn mismatched_bytes_from_a_source_fail_hard() {
    let mut loader = test_loader(1, 0);
    let fp = fingerprint_for(b"the real content");
    let (st0, _) = pending(loader.fetch_begin(fp));
    match loader.fetch_step(st0, SourceEvent::Found(b"tampered content".to_vec())) {
        Err(LoadError::ContentMismatch { expected, .. }) => assert_eq!(expected, fp),
        _ => panic!("mismatching bytes must fail with ContentMismatch"),
    }
}

#[test]
fn zero_chunk_is_returned_without_touching_caches_or_sources() {
    let mut loader = test_loader(2, 1);
    let fp = loader.zero_fingerprint();
    assert_eq!(fp, fingerprint_for(&vec![0u8; GRANULARITY]));
    let before = loader.retained_len();
    match loader.fetch_begin(fp) {
        FetchStatus::Done(Some(chunk)) => {
            assert_eq!(chunk.payload().as_slice(), vec![0u8; GRANULARITY].as_slice());
            assert_eq!(chunk.fprint(), fp);
        }
        _ => panic!("the zero chunk is served immediately"),
    }
    assert_eq!(loader.retained_len(), before, "the zero path must not touch the caches");
}

#[test]
fn remote_get_succeeds_on_fourth_attempt_after_three_503() {
    let payload = b"finally served".to_vec();
    let events = vec![
        GetEvent::Response(503, Vec::new()),
        GetEvent::Response(503, Vec::new()),
        GetEvent::Response(503, Vec::new()),
        GetEvent::Response(200, payload.clone()),
    ];
    assert_eq!(load_from_source(&events), Ok(Some(payload)));
}

#[test]
fn remote_get_fails_after_retry_budget_is_exhausted() {
    let events = vec![
        GetEvent::Response(503, Vec::new()),
        GetEvent::Response(503, Vec::new()),
        GetEvent::Response(503, Vec::new()),
        GetEvent::Response(503, Vec::new()),
    ];
    assert_eq!(
        load_from_source(&events),
        Err(LoadError::RetryLimitExceeded { last_status: Some(503) })
    );
}

#[test]
fn remote_403_fails_immediately_without_retry() {
    let events = vec![
        GetEvent::Response(403, Vec::new()),
        GetEvent::Response(200, b"never reached".to_vec()),
        GetEvent::Response(200, Vec::new()),
        GetEvent::Response(200, Vec::new()),
    ];
    assert_eq!(load_from_source(&events), Err(LoadError::RemoteRequestError { status: 403 }));
}

#[test]
fn remote_404_is_a_normal_absence() {
    let events = vec![
        GetEvent::Response(404, Vec::new()),
        GetEvent::Response(200, b"never reached".to_vec()),
        GetEvent::Response(200, Vec::new()),
        GetEvent::Response(200, Vec::new()),
    ];
    assert_eq!(load_from_source(&events), Ok(None));
}

#[test]
fn transport_failures_are_retried_then_give_up() {
    let events = vec![
        GetEvent::TransportFailure,
        GetEvent::TransportFailure,
        GetEvent::TransportFailure,
        GetEvent::TransportFailure,
    ];
    assert_eq!(load_from_source(&events), Err(LoadError::RetryLimitExceeded { last_status: None }));
}

#[test]
fn backoff_grows_tenfold_with_bounded_jitter() {
    match retry_step(0, &GetEvent::Response(503, Vec::new())) {
        GetStep::Backoff(pause) => assert!((50_000..100_000).contains(&pause)),
        _ => panic!("the first 503 backs off"),
    }
    match retry_step(1, &GetEvent::Response(500, Vec::new())) {
        GetStep::Backoff(pause) => assert!((500_000..1_000_000).contains(&pause)),
        _ => panic!("the second failure backs off longer"),
    }
    match retry_step(2, &GetEvent::TransportFailure) {
        GetStep::Backoff(pause) => assert!((5_000_000..10_000_000).contains(&pause)),
        _ => panic!("the third failure backs off longer still"),
    }
    match retry_step(3, &GetEvent::Response(429, Vec::new())) {
        GetStep::Fail(LoadError::RetryLimitExceeded { last_status }) => {
            assert_eq!(last_status, Some(429));
        }
        _ => panic!("the retry budget is exhausted after the limit"),
    }
}

#[test]
fn plan_batch_deduplicates_and_keeps_the_set() {
    let a = fingerprint_for(b"chunk a");
    let b = fingerprint_for(b"chunk b");
    let plan = plan_batch(&vec![a, a, b]);
    assert_eq!(plan.len(), 2);
    assert!(plan.contains(&a));
    assert!(plan.contains(&b));

    let many: Vec<_> = (0..100u64).map(|i| fingerprint_for(&i.to_le_bytes())).collect();
    let mut planned = plan_batch(&many);
    assert_eq!(planned.len(), many.len());
    let mut expected = many.clone();
    planned.sort_by_key(|fp| (fp.hash0, fp.hash1));
    expected.sort_by_key(|fp| (fp.hash0, fp.hash1));
    assert_eq!(planned, expected);
}

#[test]
fn collect_batch_omits_absent_fingerprints_without_error() {
    let payload = b"present".to_vec();
    let a = fingerprint_for(&payload);
    let b = fingerprint_for(b"absent");
    let chunk = Arc::new(Chunk::new(a, payload.clone()).unwrap());
    let results = vec![(a, Ok(Some(chunk))), (b, Ok(None))];
    let map = collect_batch(results).expect("absence is not an error");
    assert_eq!(map.len(), 1);
    assert_eq!(map[0].0, a);
    assert_eq!(map[0].1.payload().as_slice(), payload.as_slice());
}

#[test]
fn collect_batch_fails_whole_batch_on_any_error() {
    let payload = b"fetched fine".to_vec();
    let a = fingerprint_for(&payload);
    let b = fingerprint_for(b"kept failing");
    let chunk = Arc::new(Chunk::new(a, payload).unwrap());
    let results = vec![
        (a, Ok(Some(chunk))),
        (b, Err(LoadError::RetryLimitExceeded { last_status: Some(503) })),
    ];
    match collect_batch(results) {
        Err(LoadError::RetryLimitExceeded { last_status }) => assert_eq!(last_status, Some(503)),
        _ => panic!("one failing fetch must fail the whole batch"),
    }
}

#[test]
fn create_chunk_source_uses_custom_endpoint_when_configured() {
    let with_endpoint = ReplicationTarget::S3(S3Target {
        region: "minio".to_string(),
        endpoint: Some("http://localhost:9000".to_string()),
        chunk_bucket: "chunks".to_string(),
        domain_addressing: false,
    });
    let plan = create_chunk_source(&with_endpoint);
    assert_eq!(plan.bucket, "chunks");
    assert!(!plan.domain_addressing);
    match plan.region {
        RegionPlan::Custom { region, endpoint } => {
            assert_eq!(region, "minio");
            assert_eq!(endpoint, "http://localhost:9000");
        }
        _ => panic!("a configured endpoint becomes a custom region"),
    }

    let named = ReplicationTarget::S3(S3Target {
        region: "eu-west-1".to_string(),
        endpoint: None,
        chunk_bucket: "other".to_string(),
        domain_addressing: true,
    });
    let plan = create_chunk_source(&named);
    assert!(plan.domain_addressing);
    match plan.region {
        RegionPlan::Named { region } => assert_eq!(region, "eu-west-1"),
        _ => panic!("without an endpoint the named region is kept"),
    }
}

#[test]
fn loader_reports_its_configuration() {
    let loader = test_loader(2, 3);
    assert_eq!(loader.local_count(), 2);
    assert_eq!(loader.remote_count(), 3);
    assert_eq!(loader.local_dir(1).as_str(), "/cache/1");
    assert_eq!(loader.remote_source(2).bucket, "chunks-2");
}
