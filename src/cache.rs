use vstd::prelude::*;

use dashmap::DashMap;

verus! {

#[verifier::external_type_specification]
#[verifier::external_body]
#[verifier::reject_recursive_types(K)]
#[verifier::reject_recursive_types(V)]
#[verifier::reject_recursive_types(S)]
pub struct ExDashMap<K, V, S>(DashMap<K, V, S>);

/// An upstream's response as plain values: status code, headers (name and
/// raw value, in order) and the whole body.
pub struct UpstreamResponse {
    pub status: u16,
    pub headers: Vec<(String, Vec<u8>)>,
    pub body: Vec<u8>,
}

/// The contents of each header name and value.
pub open spec fn header_views(headers: Seq<(String, Vec<u8>)>) -> Seq<(Seq<char>, Seq<u8>)> {
    headers.map_values(|h: (String, Vec<u8>)| (h.0@, h.1@))
}

impl View for UpstreamResponse {
    type V = (u16, Seq<(Seq<char>, Seq<u8>)>, Seq<u8>);

    open spec fn view(&self) -> (u16, Seq<(Seq<char>, Seq<u8>)>, Seq<u8>) {
        (self.status, header_views(self.headers@), self.body@)
    }
}

impl UpstreamResponse {
    /// A response with this status, no headers and an empty body.
    pub fn empty(status: u16) -> (r: UpstreamResponse)
        ensures
            r@ == (status, Seq::<(Seq<char>, Seq<u8>)>::empty(), Seq::<u8>::empty()),
    {
        let r = UpstreamResponse { status, headers: Vec::new(), body: Vec::new() };
        assert(header_views(r.headers@) =~= Seq::<(Seq<char>, Seq<u8>)>::empty());
        r
    }

    /// A copy with the same status, headers and body.
    pub fn duplicate(&self) -> (r: UpstreamResponse)
        ensures
            r@ == self@,
    {
        let mut headers: Vec<(String, Vec<u8>)> = Vec::new();
        let mut i: usize = 0;
        while i < self.headers.len()
            invariant
                i <= self.headers@.len(),
                header_views(headers@) == header_views(self.headers@).take(i as int),
            decreases self.headers@.len() - i,
        {
            let ghost before = header_views(headers@);
            let name = self.headers[i].0.clone();
            let value = vstd::slice::slice_to_vec(self.headers[i].1.as_slice());
            headers.push((name, value));
            assert(header_views(headers@) =~= before.push((name@, value@)));
            assert(header_views(self.headers@).take(i + 1) =~= header_views(self.headers@).take(i as int).push(
                header_views(self.headers@)[i as int],
            ));
            i = i + 1;
        }
        assert(header_views(self.headers@).take(i as int) =~= header_views(self.headers@));
        UpstreamResponse { status: self.status, headers, body: vstd::slice::slice_to_vec(self.body.as_slice()) }
    }
}

/// A stored response and the time it was stored, in milliseconds on the
/// clock that the cache is read with.
pub struct CachedResponse {
    pub inner: UpstreamResponse,
    pub set_time: u64,
}

impl CachedResponse {
    /// Older than `ttl` milliseconds at time `now`.
    pub open spec fn expired(self, now: u64, ttl: u64) -> bool {
        now > self.set_time && now - self.set_time > ttl
    }

    /// `response` as stored at time `now`.
    pub fn new(response: UpstreamResponse, now: u64) -> (r: CachedResponse)
        ensures
            r.inner == response,
            r.set_time == now,
    {
        CachedResponse { inner: response, set_time: now }
    }

    /// Older than `ttl` milliseconds at time `now`.
    pub fn is_expired(&self, now: u64, ttl: u64) -> (r: bool)
        ensures
            r == self.expired(now, ttl),
    {
        now > self.set_time && now - self.set_time > ttl
    }

    /// Not older than `ttl` milliseconds at time `now`.
    pub fn is_fresh(&self, now: u64, ttl: u64) -> (r: bool)
        ensures
            r == !self.expired(now, ttl),
    {
        !self.is_expired(now, ttl)
    }

    /// A copy with the same response and time.
    pub fn duplicate(&self) -> (r: CachedResponse)
        ensures
            r.inner@ == self.inner@,
            r.set_time == self.set_time,
    {
        CachedResponse { inner: self.inner.duplicate(), set_time: self.set_time }
    }
}

/// A concurrent map of cached responses, by request URL.
pub type CacheMap = DashMap<String, CachedResponse>;

/// What a concurrent map of cached responses holds, by key.
pub uninterp spec fn cache_entries(m: CacheMap) -> Map<Seq<char>, CachedResponse>;

/// Relies on `DashMap::new`: the map starts empty.
#[verifier::external_body]
fn new_entries() -> (r: CacheMap)
    ensures
        cache_entries(r).dom() == Set::<Seq<char>>::empty(),
{
    DashMap::new()
}

/// Relies on `DashMap::get`: the entry under `key`, if there is one, copied
/// out while the map's guard is held.
#[verifier::external_body]
fn entry_of(m: &CacheMap, key: &str) -> (r: Option<CachedResponse>)
    ensures
        r is Some <==> cache_entries(*m).contains_key(key@),
        r is Some ==> r->0.inner@ == cache_entries(*m)[key@].inner@,
        r is Some ==> r->0.set_time == cache_entries(*m)[key@].set_time,
{
    m.get(key).map(|e| e.duplicate())
}

/// Relies on `DashMap::insert`: `key` now maps to `value`, replacing what it
/// mapped to before.
#[verifier::external_body]
fn put_entry(m: &mut CacheMap, key: String, value: CachedResponse)
    ensures
        cache_entries(*final(m)) == cache_entries(*old(m)).insert(key@, value),
{
    m.insert(key, value);
}

/// Relies on `DashMap::retain`: exactly the entries that are fresh at `now`
/// stay.
#[verifier::external_body]
fn keep_fresh(m: &mut CacheMap, now: u64, ttl: u64)
    ensures
        cache_entries(*final(m)) == cache_entries(*old(m)).restrict(
            Set::new(|k: Seq<char>| !cache_entries(*old(m))[k].expired(now, ttl)),
        ),
{
    m.retain(|_, v| v.is_fresh(now, ttl));
}

/// A response cache keyed by request URL, whose entries live `ttl`
/// milliseconds. Times are milliseconds on one monotonic clock.
pub struct RequestCache {
    inner: CacheMap,
    ttl: u64,
}

impl RequestCache {
    /// The stored entries, by key.
    pub closed spec fn entries(self) -> Map<Seq<char>, CachedResponse> {
        cache_entries(self.inner)
    }

    /// How long an entry lives, in milliseconds.
    pub closed spec fn ttl_ms(self) -> u64 {
        self.ttl
    }

    /// An empty cache whose entries live `ttl` milliseconds.
    pub fn new(ttl: u64) -> (r: RequestCache)
        ensures
            r.entries() == Map::<Seq<char>, CachedResponse>::empty(),
            r.ttl_ms() == ttl,
    {
        let r = RequestCache { inner: new_entries(), ttl };
        assert(r.entries() =~= Map::<Seq<char>, CachedResponse>::empty());
        r
    }

    /// How long an entry lives, in milliseconds.
    pub fn ttl(&self) -> (r: u64)
        ensures
            r == self.ttl_ms(),
    {
        self.ttl
    }

    /// The response stored under `key`, unless there is none or it has
    /// expired at `now`.
    pub fn get(&self, key: &str, now: u64) -> (r: Option<UpstreamResponse>)
        ensures
            match r {
                Some(v) => self.entries().contains_key(key@) && !self.entries()[key@].expired(now, self.ttl_ms())
                    && v@ == self.entries()[key@].inner@,
                None => !self.entries().contains_key(key@) || self.entries()[key@].expired(now, self.ttl_ms()),
            },
    {
        match entry_of(&self.inner, key) {
            Some(e) => if e.is_expired(now, self.ttl) {
                None
            } else {
                Some(e.inner)
            },
            None => None,
        }
    }

    /// Stores a copy of `response` under `key`, as of `now`.
    pub fn set(&mut self, key: &str, response: &UpstreamResponse, now: u64)
        ensures
            final(self).entries().dom() == old(self).entries().dom().insert(key@),
            final(self).entries()[key@].inner@ == response@,
            final(self).entries()[key@].set_time == now,
            forall|k: Seq<char>| k != key@ ==> #[trigger] final(self).entries().index(k) == old(self).entries().index(k),
            final(self).ttl_ms() == old(self).ttl_ms(),
    {
        let entry = CachedResponse::new(response.duplicate(), now);
        put_entry(&mut self.inner, String::from_str(key), entry);
        assert(final(self).entries().dom() =~= old(self).entries().dom().insert(key@));
    }

    /// Drops every entry that has expired at `now`.
    pub fn cleanup(&mut self, now: u64)
        ensures
            final(self).entries() == old(self).entries().restrict(
                Set::new(|k: Seq<char>| !old(self).entries()[k].expired(now, old(self).ttl_ms())),
            ),
            final(self).ttl_ms() == old(self).ttl_ms(),
    {
        keep_fresh(&mut self.inner, now, self.ttl);
    }
}

} // verus!
