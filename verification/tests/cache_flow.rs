//! Tests of the asset cache's single-flight protocol and of the two-step
//! request handler: hits, misses, busy flights, aborts, and the responses
//! they assemble.

use std::io::Read;

use assetpipe::cache::{AssetCache, BeginOutcome, ComputeOutcome};
use assetpipe::content::{content_type_value, encoding_token, ContentCategory, Encoding};
use assetpipe::handler::{
    begin_request, finish_request, not_found_reply, reject_reply, RequestMethod, RequestStep,
};
use assetpipe::paths::normalize_path;
use assetpipe::transform::{minify_stage, transform};

fn decompress(data: &[u8]) -> Vec<u8> {
    let mut reader = brotlic::DecompressorReader::new(data);
    let mut out = Vec::new();
    reader.read_to_end(&mut out).unwrap();
    out
}

#[test]
fn normalization_strips_leading_separator() {
    assert_eq!(normalize_path(&b"/app.js".to_vec()), Some(b"app.js".to_vec()));
    assert_eq!(normalize_path(&b"app.js".to_vec()), Some(b"app.js".to_vec()));
    assert_eq!(normalize_path(&b"/a/b/c.css".to_vec()), Some(b"a/b/c.css".to_vec()));
    assert_eq!(normalize_path(&b"".to_vec()), Some(b"".to_vec()));
}

#[test]
fn traversal_paths_are_rejected() {
    assert_eq!(normalize_path(&b"/../../etc/passwd".to_vec()), None);
    assert_eq!(normalize_path(&b"/a/../b".to_vec()), None);
    assert_eq!(normalize_path(&b"/..".to_vec()), None);
    // a second leading separator would make the key an absolute path
    assert_eq!(normalize_path(&b"//etc/passwd".to_vec()), None);
    assert_eq!(normalize_path(&b"//".to_vec()), None);
    // dots inside a segment are not traversal
    assert_eq!(normalize_path(&b"/a..b".to_vec()), Some(b"a..b".to_vec()));
    assert_eq!(normalize_path(&b"/v1.2..3/x".to_vec()), Some(b"v1.2..3/x".to_vec()));
}

#[test]
fn traversal_request_gets_rejection() {
    let mut cache = AssetCache::new();
    let step = begin_request(&mut cache, RequestMethod::Get, &b"/../../etc/passwd".to_vec());
    match step {
        RequestStep::Reject(r) => {
            assert_eq!(r.status, 404);
            assert_eq!(r.body, b"No such resource".to_vec());
        }
        _ => panic!("traversal path must be rejected"),
    }
    match begin_request(&mut cache, RequestMethod::Get, &b"//etc/passwd".to_vec()) {
        RequestStep::Reject(r) => assert_eq!(r.status, 404),
        _ => panic!("absolute path must be rejected"),
    }
    assert!(cache.get(&b"/etc/passwd".to_vec()).is_none());
}

#[test]
fn non_get_methods_are_rejected() {
    let mut cache = AssetCache::new();
    let step = begin_request(&mut cache, RequestMethod::Other, &b"/app.js".to_vec());
    match step {
        RequestStep::Reject(r) => {
            assert_eq!(r.status, 404);
            assert_eq!(r.body, b"No such resource".to_vec());
        }
        _ => panic!("non-GET must be rejected"),
    }
}

#[test]
fn reject_reply_has_the_plain_body() {
    let r = reject_reply();
    assert_eq!(r.status, 404);
    assert_eq!(r.body, b"No such resource".to_vec());
}

#[test]
fn missing_asset_yields_404_and_no_entry() {
    let mut cache = AssetCache::new();
    let step = begin_request(&mut cache, RequestMethod::Get, &b"/missing.txt".to_vec());
    let key = match step {
        RequestStep::Load(k) => k,
        _ => panic!("first request must be told to load"),
    };
    assert_eq!(key, b"missing.txt".to_vec());
    let reply = finish_request(&mut cache, &key, None);
    assert_eq!(reply.status, 404);
    assert_eq!(reply.body, b"No such resource: missing.txt".to_vec());
    // the cache gained no entry, and the key may be retried
    assert!(cache.get(&key).is_none());
    assert!(!cache.is_pending(&key));
    match begin_request(&mut cache, RequestMethod::Get, &b"/missing.txt".to_vec()) {
        RequestStep::Load(k) => assert_eq!(k, key),
        _ => panic!("the key must be retryable after an aborted flight"),
    }
}

#[test]
fn end_to_end_javascript_request() {
    let raw = b"function f(){ return 1; }".to_vec();
    let mut cache = AssetCache::new();
    let step = begin_request(&mut cache, RequestMethod::Get, &b"/app.js".to_vec());
    let key = match step {
        RequestStep::Load(k) => k,
        _ => panic!("first request must be told to load"),
    };
    let reply = finish_request(&mut cache, &key, Some(raw.clone()));
    assert_eq!(reply.status, 200);
    assert_eq!(content_type_value(reply.category), "text/javascript");
    assert_eq!(reply.encoding, Encoding::Brotli);
    assert_eq!(encoding_token(reply.encoding), "br");
    let minified = minify_stage(&raw, ContentCategory::Javascript);
    assert!(minified.len() <= raw.len());
    assert_eq!(decompress(&reply.body), minified);

    // a second identical request is served from the cache, without a new
    // flight, and returns byte-identical content
    let step2 = begin_request(&mut cache, RequestMethod::Get, &b"/app.js".to_vec());
    match step2 {
        RequestStep::Ready(r2) => {
            assert_eq!(r2.status, 200);
            assert_eq!(r2.body, reply.body);
            assert_eq!(content_type_value(r2.category), "text/javascript");
        }
        _ => panic!("second request must be a cache hit"),
    }
}

#[test]
fn repeated_get_or_compute_returns_identical_bytes() {
    let key = b"page.html".to_vec();
    let raw = b"<p>  one   page  </p>".to_vec();
    let mut cache = AssetCache::new();
    let first = match cache.get_or_compute(&key, Some(raw)) {
        ComputeOutcome::Ready(b) => b,
        _ => panic!("first round must compute"),
    };
    // even handed different raw bytes, a later round serves the committed
    // entry untouched
    let second = match cache.get_or_compute(&key, Some(b"<p>changed</p>".to_vec())) {
        ComputeOutcome::Ready(b) => b,
        _ => panic!("second round must hit"),
    };
    let third = match cache.get_or_compute(&key, None) {
        ComputeOutcome::Ready(b) => b,
        _ => panic!("third round must hit"),
    };
    assert_eq!(first, second);
    assert_eq!(first, third);
}

#[test]
fn get_or_compute_reports_missing_without_caching() {
    let key = b"gone.css".to_vec();
    let mut cache = AssetCache::new();
    match cache.get_or_compute(&key, None) {
        ComputeOutcome::Missing => {}
        _ => panic!("a miss without raw bytes must report missing"),
    }
    assert!(cache.get(&key).is_none());
    assert!(!cache.is_pending(&key));
}

#[test]
fn single_flight_second_caller_must_wait() {
    let key = b"slow.html".to_vec();
    let mut cache = AssetCache::new();
    match cache.try_begin(&key) {
        BeginOutcome::Lead => {}
        _ => panic!("first caller must lead"),
    }
    // while the flight is open, a second caller is told to wait, and a
    // sequential round reports busy
    match cache.try_begin(&key) {
        BeginOutcome::Busy => {}
        _ => panic!("second caller must wait"),
    }
    match cache.get_or_compute(&key, Some(b"x".to_vec())) {
        ComputeOutcome::Busy => {}
        _ => panic!("a busy key must not be recomputed"),
    }
    // the leader commits; from then on everybody hits
    let out = transform(b"<p> body </p>".to_vec(), ContentCategory::Html);
    let committed = out.body.clone();
    cache.commit(&key, out);
    match cache.try_begin(&key) {
        BeginOutcome::Hit(b, e) => {
            assert_eq!(b, committed);
            assert_eq!(e, Encoding::Brotli);
        }
        _ => panic!("after the commit the key must hit"),
    }
}

#[test]
fn flights_for_distinct_keys_are_independent() {
    let slow = b"slow.bin".to_vec();
    let fast = b"fast.bin".to_vec();
    let mut cache = AssetCache::new();
    // a flight for the slow key is open and stays open
    match cache.try_begin(&slow) {
        BeginOutcome::Lead => {}
        _ => panic!("slow key must lead"),
    }
    // the fast key is served end to end regardless
    let fast_body = match cache.get_or_compute(&fast, Some(b"payload".to_vec())) {
        ComputeOutcome::Ready(b) => b,
        _ => panic!("fast key must not be blocked by the slow flight"),
    };
    assert!(cache.is_pending(&slow));
    // finishing the slow flight does not disturb the fast entry
    let out = transform(b"slow payload".to_vec(), ContentCategory::Other);
    cache.commit(&slow, out);
    match cache.get_or_compute(&fast, None) {
        ComputeOutcome::Ready(b) => assert_eq!(b, fast_body),
        _ => panic!("fast entry must survive the slow commit"),
    }
}

#[test]
fn abort_leaves_the_cache_as_it_was() {
    let key = b"flaky.js".to_vec();
    let mut cache = AssetCache::new();
    match cache.try_begin(&key) {
        BeginOutcome::Lead => {}
        _ => panic!("first caller must lead"),
    }
    cache.abort(&key);
    assert!(!cache.is_pending(&key));
    assert!(cache.get(&key).is_none());
    match cache.try_begin(&key) {
        BeginOutcome::Lead => {}
        _ => panic!("an aborted key must be retryable"),
    }
}

#[test]
fn not_found_reply_names_the_path() {
    let reply = not_found_reply(&b"a/b.css".to_vec());
    assert_eq!(reply.status, 404);
    assert_eq!(reply.body, b"No such resource: a/b.css".to_vec());
    assert_eq!(encoding_token(reply.encoding), "identity");
}
