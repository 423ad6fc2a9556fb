//! The proxy's cache of framed responses: each is kept under its request's
//! key for the configured time, so that an identical request made within
//! that time is answered with the stored response.
use vstd::prelude::*;
use std::time::Instant;
use crate::bytes::{bytes_equal, copy_all};
use crate::config::Duration;
use crate::framing::{FrameError, free_of, cr, lf, response_decoding, response_frame, tab};
use crate::forwarding::all_values_text;
use crate::flow::lemma_stored_response_replayed;
use crate::platform::{duration_as_nanos, instant_elapsed, instant_now, max_duration_nanos};

verus! {

/// A stored response: the request key, the clock reading at which it was
/// stored, and the framed response.
pub struct CacheEntry {
    key: Vec<u8>,
    stored_at: u128,
    frame: Vec<u8>,
}

/// Framed responses by request key, each with the clock reading (in
/// nanoseconds since the cache was made) at which it was stored. They are
/// held in a list, oldest first, rather than in a `HashMap`: vstd specifies
/// `HashMap` only for keys it has a key model for (integers and `bool`),
/// and a request key is a byte string.
pub struct ResponseCache {
    clock: Instant,
    /// The latest clock reading the cache has acted on.
    last: u128,
    timeout: u128,
    entries: Vec<CacheEntry>,
}

impl CacheEntry {
    pub closed spec fn triple(self) -> (Seq<u8>, u128, Seq<u8>) {
        (self.key@, self.stored_at, self.frame@)
    }
}

impl View for ResponseCache {
    type V = Seq<(Seq<u8>, u128, Seq<u8>)>;

    /// The stored responses, oldest first.
    closed spec fn view(&self) -> Seq<(Seq<u8>, u128, Seq<u8>)> {
        self.entries@.map_values(|e: CacheEntry| e.triple())
    }
}

/// An entry stored at reading `stored` is still served at reading `now`
/// when less than `timeout` nanoseconds have passed (a reading before the
/// store counts as no time passed).
pub open spec fn entry_fresh(stored: u128, now: u128, timeout: u128) -> bool {
    (if now >= stored { now - stored } else { 0 }) < timeout
}

/// The entries still served at reading `now`, in their order.
pub open spec fn fresh_entries(s: Seq<(Seq<u8>, u128, Seq<u8>)>, now: u128, timeout: u128) -> Seq<(Seq<u8>, u128, Seq<u8>)>
    decreases s.len(),
{
    if s.len() == 0 {
        s
    } else {
        let prev = fresh_entries(s.drop_last(), now, timeout);
        if entry_fresh(s.last().1, now, timeout) {
            prev.push(s.last())
        } else {
            prev
        }
    }
}

/// The entries not stored under `key`, in their order.
pub open spec fn without_key(s: Seq<(Seq<u8>, u128, Seq<u8>)>, key: Seq<u8>) -> Seq<(Seq<u8>, u128, Seq<u8>)>
    decreases s.len(),
{
    if s.len() == 0 {
        s
    } else {
        let prev = without_key(s.drop_last(), key);
        if s.last().0 != key {
            prev.push(s.last())
        } else {
            prev
        }
    }
}

/// The frame stored last under `key`, if any.
pub open spec fn lookup(s: Seq<(Seq<u8>, u128, Seq<u8>)>, key: Seq<u8>) -> Option<Seq<u8>>
    decreases s.len(),
{
    if s.len() == 0 {
        None
    } else if s.last().0 == key {
        Some(s.last().2)
    } else {
        lookup(s.drop_last(), key)
    }
}

/// The entries after `frame` is stored under `key` at reading `now`: any
/// earlier entry under that key gives way to the new one.
pub open spec fn stored(s: Seq<(Seq<u8>, u128, Seq<u8>)>, key: Seq<u8>, now: u128, frame: Seq<u8>) -> Seq<(Seq<u8>, u128, Seq<u8>)> {
    without_key(s, key).push((key, now, frame))
}

proof fn lemma_take_step<T>(s: Seq<T>, i: int)
    requires
        0 <= i < s.len(),
    ensures
        s.take(i + 1).drop_last() == s.take(i),
        s.take(i + 1).last() == s[i],
{
    assert(s.take(i + 1).drop_last() =~= s.take(i));
}

impl ResponseCache {
    /// How long an entry is served, in nanoseconds.
    pub closed spec fn timeout_nanos(&self) -> u128 {
        self.timeout
    }

    /// The clock reading at which the cache last looked an entry up or
    /// stored one (0 before that).
    pub closed spec fn last_reading(&self) -> u128 {
        self.last
    }

    #[verifier::type_invariant]
    spec fn wf(self) -> bool {
        self.last <= max_duration_nanos()
    }

    /// An empty cache whose entries are served for `timeout`.
    pub fn new(timeout: Duration) -> (res: Self)
        ensures
            res@ == Seq::<(Seq<u8>, u128, Seq<u8>)>::empty(),
            res.timeout_nanos() == timeout.total_nanos(),
            res.last_reading() == 0,
    {
        let nanos: u128 = (timeout.secs as u128) * 1_000_000_000u128 + (timeout.nanos as u128);
        let c = ResponseCache { clock: instant_now(), last: 0, timeout: nanos, entries: Vec::new() };
        assert(c@ =~= Seq::<(Seq<u8>, u128, Seq<u8>)>::empty());
        c
    }

    /// Drops the entries that are no longer served at reading `now`, then
    /// gives the frame stored under `key`, if one is left.
    pub fn get_at(&mut self, key: &[u8], now: u128) -> (res: Option<Vec<u8>>)
        ensures
            final(self)@ == fresh_entries(old(self)@, now, old(self).timeout_nanos()),
            final(self).timeout_nanos() == old(self).timeout_nanos(),
            final(self).last_reading() == old(self).last_reading(),
            match res {
                Some(f) => lookup(final(self)@, key@) == Some(f@),
                None => lookup(final(self)@, key@) is None,
            },
    {
        proof { use_type_invariant(&*self); }
        let ghost s = self@;
        let timeout = self.timeout;
        let mut kept: Vec<CacheEntry> = Vec::new();
        let mut found: Option<Vec<u8>> = None;
        let mut i: usize = 0;
        assert(s.take(0) =~= Seq::<(Seq<u8>, u128, Seq<u8>)>::empty());
        while i < self.entries.len()
            invariant
                i <= self.entries@.len(),
                s == self.entries@.map_values(|e: CacheEntry| e.triple()),
                timeout == self.timeout,
                kept@.map_values(|e: CacheEntry| e.triple()) == fresh_entries(s.take(i as int), now, timeout),
                match found {
                    Some(f) => lookup(fresh_entries(s.take(i as int), now, timeout), key@) == Some(f@),
                    None => lookup(fresh_entries(s.take(i as int), now, timeout), key@) is None,
                },
            decreases self.entries@.len() - i,
        {
            proof { lemma_take_step(s, i as int); }
            let e = &self.entries[i];
            let ghost before = kept@.map_values(|e: CacheEntry| e.triple());
            let age: u128 = if now >= e.stored_at { now - e.stored_at } else { 0 };
            proof {
                let t = s.take(i + 1);
                assert(t.drop_last() == s.take(i as int));
                assert(t.last() == s[i as int]);
                assert(s[i as int] == e.triple());
            }
            if age < timeout {
                let entry = CacheEntry { key: copy_all(e.key.as_slice()), stored_at: e.stored_at, frame: copy_all(e.frame.as_slice()) };
                if bytes_equal(e.key.as_slice(), key) {
                    found = Some(copy_all(e.frame.as_slice()));
                }
                kept.push(entry);
                assert(kept@.map_values(|e: CacheEntry| e.triple()) =~= before.push(s[i as int]));
                assert(fresh_entries(s.take(i + 1), now, timeout) == before.push(s[i as int]));
                assert(before.push(s[i as int]).drop_last() =~= before);
            } else {
                assert(fresh_entries(s.take(i + 1), now, timeout) == before);
            }
            i = i + 1;
        }
        assert(s.take(self.entries@.len() as int) =~= s);
        self.entries = kept;
        found
    }

    /// Stores `frame` under `key` at reading `now`, in place of any earlier
    /// entry under that key.
    pub fn set_at(&mut self, key: Vec<u8>, frame: Vec<u8>, now: u128)
        ensures
            final(self)@ == stored(old(self)@, key@, now, frame@),
            final(self).timeout_nanos() == old(self).timeout_nanos(),
            final(self).last_reading() == old(self).last_reading(),
    {
        proof { use_type_invariant(&*self); }
        let ghost s = self@;
        let mut kept: Vec<CacheEntry> = Vec::new();
        let mut i: usize = 0;
        assert(s.take(0) =~= Seq::<(Seq<u8>, u128, Seq<u8>)>::empty());
        while i < self.entries.len()
            invariant
                i <= self.entries@.len(),
                s == self.entries@.map_values(|e: CacheEntry| e.triple()),
                kept@.map_values(|e: CacheEntry| e.triple()) == without_key(s.take(i as int), key@),
            decreases self.entries@.len() - i,
        {
            proof { lemma_take_step(s, i as int); }
            let e = &self.entries[i];
            let ghost before = kept@.map_values(|e: CacheEntry| e.triple());
            if !bytes_equal(e.key.as_slice(), key.as_slice()) {
                kept.push(CacheEntry { key: copy_all(e.key.as_slice()), stored_at: e.stored_at, frame: copy_all(e.frame.as_slice()) });
                assert(kept@.map_values(|e: CacheEntry| e.triple()) =~= before.push(s[i as int]));
            }
            i = i + 1;
        }
        assert(s.take(self.entries@.len() as int) =~= s);
        let ghost before = kept@.map_values(|e: CacheEntry| e.triple());
        kept.push(CacheEntry { key, stored_at: now, frame });
        assert(kept@.map_values(|e: CacheEntry| e.triple()) =~= before.push((key@, now, frame@)));
        self.entries = kept;
    }

    /// The cache's clock: nanoseconds since the cache was made.
    pub fn clock_reading(&self) -> (res: u128)
        ensures
            res <= max_duration_nanos(),
    {
        let d = instant_elapsed(&self.clock);
        duration_as_nanos(&d)
    }

    /// The cache's clock read now, never below a reading it already acted
    /// on (the monotonic clock gives no earlier reading than a previous one,
    /// so this only guards against a platform fault).
    fn next_reading(&self) -> (now: u128)
        ensures
            self.last_reading() <= now <= max_duration_nanos(),
    {
        proof { use_type_invariant(self); }
        let r = self.clock_reading();
        if r > self.last { r } else { self.last }
    }

    /// The frame stored under `key`, unless it is too old; entries that are
    /// too old are dropped. The clock reading used becomes the cache's last
    /// reading.
    pub fn get(&mut self, key: &[u8]) -> (res: Option<Vec<u8>>)
        ensures
            final(self).timeout_nanos() == old(self).timeout_nanos(),
            old(self).last_reading() <= final(self).last_reading() <= max_duration_nanos(),
            final(self)@ == fresh_entries(old(self)@, final(self).last_reading(), old(self).timeout_nanos()),
            match res {
                Some(f) => lookup(final(self)@, key@) == Some(f@),
                None => lookup(final(self)@, key@) is None,
            },
    {
        let now = self.next_reading();
        let res = self.get_at(key, now);
        self.last = now;
        res
    }

    /// Stores `frame` under `key` now. The clock reading used becomes the
    /// cache's last reading.
    pub fn set(&mut self, key: Vec<u8>, frame: Vec<u8>)
        ensures
            final(self).timeout_nanos() == old(self).timeout_nanos(),
            old(self).last_reading() <= final(self).last_reading() <= max_duration_nanos(),
            final(self)@ == stored(old(self)@, key@, final(self).last_reading(), frame@),
    {
        let now = self.next_reading();
        self.set_at(key, frame, now);
        self.last = now;
    }
}

proof fn lemma_lookup_without_key(s: Seq<(Seq<u8>, u128, Seq<u8>)>, key: Seq<u8>, now: u128, timeout: u128)
    ensures
        lookup(fresh_entries(without_key(s, key), now, timeout), key) is None,
    decreases s.len(),
{
    if s.len() > 0 {
        lemma_lookup_without_key(s.drop_last(), key, now, timeout);
        let prev = without_key(s.drop_last(), key);
        if s.last().0 != key {
            let w = prev.push(s.last());
            assert(w.drop_last() =~= prev);
            let f = fresh_entries(prev, now, timeout);
            assert(f.push(s.last()).drop_last() =~= f);
        }
    }
}

/// A stored response is served within the timeout and not after it: once
/// `frame` is stored under `key` at reading `t1` (as `set` does at its last
/// reading), a lookup of `key` at reading `t2` (as the next `get` does at
/// its last reading, never below `t1`) gives `frame` when less than the
/// timeout has passed, and nothing once the timeout has passed.
pub proof fn lemma_cache_serves_within_timeout(
    s: Seq<(Seq<u8>, u128, Seq<u8>)>,
    key: Seq<u8>,
    frame: Seq<u8>,
    t1: u128,
    t2: u128,
    timeout: u128,
)
    ensures
        lookup(fresh_entries(stored(s, key, t1, frame), t2, timeout), key) == if entry_fresh(t1, t2, timeout) {
            Some(frame)
        } else {
            None::<Seq<u8>>
        },
{
    let st = stored(s, key, t1, frame);
    assert(st.drop_last() =~= without_key(s, key));
    lemma_lookup_without_key(s, key, t2, timeout);
}

/// What the proxy intentionally serves outdated: a response that a first
/// request stored under its key is, for any request with that key within
/// the timeout, read back with the same status, headers and body, whatever
/// upstream would answer now (given a three-digit status, at least one
/// header, readable header values and names free of tab, CR and LF).
pub proof fn lemma_cached_response_replayed(
    s: Seq<(Seq<u8>, u128, Seq<u8>)>,
    key: Seq<u8>,
    status: u16,
    upstream: Seq<(Seq<u8>, Seq<u8>)>,
    body: Seq<u8>,
    t1: u128,
    t2: u128,
    timeout: u128,
)
    requires
        entry_fresh(t1, t2, timeout),
        100 <= status < 1000,
        upstream.len() >= 1,
        all_values_text(upstream),
        forall|i: int| 0 <= i < upstream.len() ==> {
            &&& free_of(#[trigger] upstream[i].0, tab())
            &&& free_of(upstream[i].0, cr())
            &&& free_of(upstream[i].0, lf())
        },
    ensures
        lookup(fresh_entries(stored(s, key, t1, response_frame(status, upstream, body)), t2, timeout), key)
            == Some(response_frame(status, upstream, body)),
        response_decoding(response_frame(status, upstream, body))
            == Ok::<(u16, Seq<(Seq<u8>, Seq<u8>)>, Seq<u8>), FrameError>((status, upstream, body)),
{
    lemma_cache_serves_within_timeout(s, key, response_frame(status, upstream, body), t1, t2, timeout);
    lemma_stored_response_replayed(status, upstream, body);
}

} // verus!
