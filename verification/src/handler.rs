//! The request handler: normalizes the path, consults the cache, and
//! assembles responses. A request is handled in two steps so the slow work
//! stays outside the cache's critical section: `begin_request` decides
//! whether to serve, wait or load, and `finish_request` turns the loaded
//! raw bytes (or their absence) into a committed asset and a response.

use vstd::prelude::*;

use crate::bytes::copy_bytes;
use crate::cache::{
    abort_step, begin_lead, commit_step, lead_enabled, model_wf, AssetCache, BeginOutcome,
};
use crate::content::{category_of, spec_category_of, ContentCategory, Encoding};
use crate::paths::{has_traversal, normalize_path, spec_strip, starts_with_separator};
use crate::transform::{transform, transform_ok, TransformModel};

verus! {

/// The request method as the core sees it: only `GET` serves content,
/// every other method is rejected.
#[derive(Clone, Copy, PartialEq, Eq, Structural, Debug)]
pub enum RequestMethod {
    Get,
    Other,
}

/// One assembled response: status, the category the `content-type` header
/// derives from, the scheme the `content-encoding` header names, and the
/// body bytes.
pub struct HttpReply {
    pub status: u16,
    pub category: ContentCategory,
    pub encoding: Encoding,
    pub body: Vec<u8>,
}

/// The bytes of `"No such resource"`, the body of every rejection.
pub open spec fn no_such_resource_msg() -> Seq<u8> {
    seq![
        78u8,
        111u8,
        32u8,
        115u8,
        117u8,
        99u8,
        104u8,
        32u8,
        114u8,
        101u8,
        115u8,
        111u8,
        117u8,
        114u8,
        99u8,
        101u8,
    ]
}

/// The bytes of `"No such resource: "`, the prefix of the body that names
/// a missing asset.
pub open spec fn not_found_prefix() -> Seq<u8> {
    no_such_resource_msg() + seq![58u8, 32u8]
}

/// A request was rejected — a method other than `GET`, or a path that
/// does not normalize: status 404 with the plain `No such resource` body.
pub open spec fn is_reject_reply(r: HttpReply) -> bool {
    &&& r.status == 404
    &&& r.category is Other
    &&& r.encoding is Identity
    &&& r.body@ == no_such_resource_msg()
}

/// A raw request path that cannot become a path key: it holds a `..`
/// segment, or still names an absolute location after the strip.
pub open spec fn path_rejected(raw: Seq<u8>) -> bool {
    has_traversal(spec_strip(raw)) || starts_with_separator(spec_strip(raw))
}

/// A not-found response: status 404 and a plain body naming the missing
/// path; no content headers beyond the generic defaults.
pub open spec fn is_not_found_reply(r: HttpReply, path: Seq<u8>) -> bool {
    &&& r.status == 404
    &&& r.category is Other
    &&& r.encoding is Identity
    &&& r.body@ == not_found_prefix() + path
}

/// A success response for the asset under `key`: status 200, the
/// `content-type` derived from the key's category, and the given body and
/// encoding.
pub open spec fn is_ok_reply(r: HttpReply, key: Seq<u8>, body: Seq<u8>, enc: Encoding) -> bool {
    &&& r.status == 200
    &&& r.category == spec_category_of(key)
    &&& r.encoding == enc
    &&& r.body@ == body
}

/// Builds the rejection response with the plain `No such resource` body.
pub fn reject_reply() -> (r: HttpReply)
    ensures
        is_reject_reply(r),
{
    let mut body: Vec<u8> = Vec::new();
    body.push(78);
    body.push(111);
    body.push(32);
    body.push(115);
    body.push(117);
    body.push(99);
    body.push(104);
    body.push(32);
    body.push(114);
    body.push(101);
    body.push(115);
    body.push(111);
    body.push(117);
    body.push(114);
    body.push(99);
    body.push(101);
    assert(body@ =~= no_such_resource_msg());
    HttpReply { status: 404, category: ContentCategory::Other, encoding: Encoding::Identity, body }
}

/// Builds the not-found response naming `path`.
pub fn not_found_reply(path: &Vec<u8>) -> (r: HttpReply)
    ensures
        is_not_found_reply(r, path@),
{
    let mut body: Vec<u8> = Vec::new();
    body.push(78);
    body.push(111);
    body.push(32);
    body.push(115);
    body.push(117);
    body.push(99);
    body.push(104);
    body.push(32);
    body.push(114);
    body.push(101);
    body.push(115);
    body.push(111);
    body.push(117);
    body.push(114);
    body.push(99);
    body.push(101);
    body.push(58);
    body.push(32);
    assert(body@ =~= not_found_prefix());
    let n = path.len();
    let mut i: usize = 0;
    assert(body@ =~= not_found_prefix() + path@.subrange(0, 0));
    while i < n
        invariant
            i <= n,
            n == path@.len(),
            body@ == not_found_prefix() + path@.subrange(0, i as int),
        decreases n - i,
    {
        body.push(path[i]);
        assert(body@ =~= not_found_prefix() + path@.subrange(0, i + 1));
        i = i + 1;
    }
    assert(body@ =~= not_found_prefix() + path@);
    HttpReply { status: 404, category: ContentCategory::Other, encoding: Encoding::Identity, body }
}

/// What the transport must do next for one request: send a rejection,
/// send the cached response, load the raw bytes for a key and call
/// `finish_request`, or wait for another task's flight on the key and ask
/// again.
pub enum RequestStep {
    Reject(HttpReply),
    Ready(HttpReply),
    Load(Vec<u8>),
    Busy(Vec<u8>),
}

/// The first half of one request: rejects non-`GET` methods and paths
/// that do not normalize with the plain rejection, serves a committed
/// asset at once, and otherwise either claims the computation for the
/// caller (`Load`) or reports a flight under way (`Busy`).
pub fn begin_request(cache: &mut AssetCache, method: RequestMethod, raw_path: &Vec<u8>) -> (step:
    RequestStep)
    requires
        old(cache).wf(),
    ensures
        final(cache).wf(),
        model_wf(final(cache)@),
        method is Other ==> final(cache)@ == old(cache)@ && (step matches RequestStep::Reject(r)
            && is_reject_reply(r)),
        method is Get && path_rejected(raw_path@) ==> final(cache)@ == old(cache)@ && (step
            matches RequestStep::Reject(r) && is_reject_reply(r)),
        method is Get && !path_rejected(raw_path@) ==> {
            let k = spec_strip(raw_path@);
            &&& (old(cache)@.entries.dom().contains(k) ==> final(cache)@ == old(cache)@ && (step
                matches RequestStep::Ready(r) && is_ok_reply(
                r,
                k,
                old(cache)@.entries[k].body,
                old(cache)@.entries[k].encoding,
            )))
            &&& (!old(cache)@.entries.dom().contains(k) && old(cache)@.pending.contains(k)
                ==> final(cache)@ == old(cache)@ && (step matches RequestStep::Busy(kb) && kb@
                == k))
            &&& (lead_enabled(old(cache)@, k) ==> final(cache)@ == begin_lead(old(cache)@, k) && (
            step matches RequestStep::Load(kb) && kb@ == k))
        },
{
    proof {
        old(cache).lemma_wf_implies_model_wf();
    }
    match method {
        RequestMethod::Other => RequestStep::Reject(reject_reply()),
        RequestMethod::Get => match normalize_path(raw_path) {
            None => RequestStep::Reject(reject_reply()),
            Some(key) => {
                let cat = category_of(&key);
                match cache.try_begin(&key) {
                    BeginOutcome::Hit(body, enc) => RequestStep::Ready(
                        HttpReply { status: 200, category: cat, encoding: enc, body },
                    ),
                    BeginOutcome::Busy => RequestStep::Busy(key),
                    BeginOutcome::Lead => RequestStep::Load(key),
                }
            },
        },
    }
}

/// The second half of a request that was told to `Load`: with the loaded
/// raw bytes the asset is transformed and committed and the success
/// response returned; with none the flight is aborted — the cache gains no
/// entry — and the not-found response names the missing key.
pub fn finish_request(cache: &mut AssetCache, key: &Vec<u8>, loaded: Option<Vec<u8>>) -> (r:
    HttpReply)
    requires
        old(cache).wf(),
        old(cache)@.pending.contains(key@),
    ensures
        final(cache).wf(),
        model_wf(final(cache)@),
        loaded is None ==> final(cache)@ == abort_step(old(cache)@, key@) && is_not_found_reply(
            r,
            key@,
        ),
        loaded matches Some(raw) ==> exists|t: TransformModel|
            {
                &&& #[trigger] transform_ok(raw@, spec_category_of(key@), t)
                &&& final(cache)@ == commit_step(old(cache)@, key@, t)
                &&& is_ok_reply(r, key@, t.body, t.encoding)
            },
{
    match loaded {
        None => {
            cache.abort(key);
            not_found_reply(key)
        },
        Some(raw) => {
            let ghost rawv = raw@;
            let cat = category_of(key);
            let out = transform(raw, cat);
            let ghost t = out@;
            let body = copy_bytes(&out.body);
            let enc = out.encoding;
            cache.commit(key, out);
            let reply = HttpReply { status: 200, category: cat, encoding: enc, body };
            proof {
                assert(transform_ok(rawv, spec_category_of(key@), t));
                assert(final(cache)@ == commit_step(old(cache)@, key@, t));
                assert(is_ok_reply(reply, key@, t.body, t.encoding));
            }
            reply
        },
    }
}

} // verus!
