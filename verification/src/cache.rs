//! The per-route response cache: a single TTL-bounded entry, replaced
//! wholesale, never partially updated. A TTL of zero disables caching.

use crate::proxy::HttpResponse;
use vstd::prelude::*;

verus! {

/// The last successfully produced response of a route, and when it was
/// produced.
pub struct CacheEntry {
    pub content_type: String,
    pub body: String,
    pub created_at_millis: u64,
}

/// Whether a cache entry may still be served: caching is on and the entry's
/// age is under the TTL.
pub open spec fn spec_cache_fresh(e: CacheEntry, now: u64, ttl: u64) -> bool {
    ttl > 0 && now < e.created_at_millis + ttl
}

/// What the cache serves for a request at `now`, if anything.
pub open spec fn spec_cache_serves(slot: Option<CacheEntry>, now: u64, ttl: u64) -> Option<
    CacheEntry,
> {
    match slot {
        Some(e) => if spec_cache_fresh(e, now, ttl) {
            Some(e)
        } else {
            None
        },
        None => None,
    }
}

/// The cache slot after a dispatch answered with `response` at `now`: a 200
/// is stored wholesale when caching is on; nothing else is ever cached.
pub open spec fn spec_cache_after(
    slot: Option<CacheEntry>,
    response: HttpResponse,
    now: u64,
    ttl: u64,
) -> Option<CacheEntry> {
    if ttl > 0 && response.status == 200 {
        Some(
            CacheEntry {
                content_type: response.content_type,
                body: response.body,
                created_at_millis: now,
            },
        )
    } else {
        slot
    }
}

/// Serves the cached response when one exists and is younger than the TTL;
/// `None` asks the caller to dispatch fresh.
pub fn cache_lookup<'a>(slot: &'a Option<CacheEntry>, now_millis: u64, ttl_millis: u64) -> (r:
    Option<&'a CacheEntry>)
    ensures
        match r {
            Some(e) => spec_cache_serves(*slot, now_millis, ttl_millis) == Some(*e),
            None => spec_cache_serves(*slot, now_millis, ttl_millis) is None,
        },
{
    if ttl_millis == 0 {
        return None;
    }
    match slot {
        Some(e) => {
            if now_millis >= e.created_at_millis && now_millis - e.created_at_millis < ttl_millis {
                Some(e)
            } else if now_millis < e.created_at_millis {
                Some(e)
            } else {
                None
            }
        },
        None => None,
    }
}

/// Stores a fresh dispatch result: a 200 response replaces the entry
/// wholesale (when caching is on); any other result leaves the slot as it
/// was.
pub fn cache_store(
    slot: &mut Option<CacheEntry>,
    response: &HttpResponse,
    now_millis: u64,
    ttl_millis: u64,
)
    ensures
        *final(slot) == spec_cache_after(*old(slot), *response, now_millis, ttl_millis),
{
    if ttl_millis > 0 && response.status == 200 {
        *slot = Some(
            CacheEntry {
                content_type: response.content_type.clone(),
                body: response.body.clone(),
                created_at_millis: now_millis,
            },
        );
    }
}

/// The cache round trip: once a 200 response is stored at `t1`, a request
/// before `t1 + ttl` is served that stored response byte for byte with no
/// fresh dispatch, and a request at or past `t1 + ttl` is not served from
/// the cache, so it dispatches fresh.
pub proof fn lemma_cache_round_trip(
    slot0: Option<CacheEntry>,
    response: HttpResponse,
    t1: u64,
    t2: u64,
    ttl: u64,
)
    requires
        response.status == 200,
        ttl > 0,
        t2 >= t1,
    ensures
        ({
            let stored = spec_cache_after(slot0, response, t1, ttl);
            &&& (t2 < t1 + ttl ==> (spec_cache_serves(stored, t2, ttl) matches Some(e)
                && e.body == response.body && e.content_type == response.content_type))
            &&& (t2 >= t1 + ttl ==> spec_cache_serves(stored, t2, ttl) is None)
        }),
{
}

} // verus!
