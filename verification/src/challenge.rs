//! One-time login challenges: issued with a fixed lifetime, accepted at most
//! once, and forgotten once they expire.
use vstd::prelude::*;
use std::time::Instant;
use crate::bytes::bytes_equal;
use crate::platform::{duration_as_nanos, instant_elapsed, instant_now, max_duration_nanos, random_32_bytes};

verus! {

/// Length of a challenge in bytes.
pub const CHALLENGE_LEN: usize = 32;

/// Lifetime of a challenge in seconds (five minutes).
pub const CHALLENGE_TTL_SECS: u64 = 300;

/// Lifetime of a challenge in nanoseconds (five minutes).
pub const CHALLENGE_TTL_NANOS: u128 = 300_000_000_000;

/// A challenge and the clock reading (nanoseconds since the store was
/// created) at which it stops being accepted.
pub struct ChallengeEntry {
    challenge: Vec<u8>,
    expires_at: u128,
}

/// The outstanding challenges, each with its expiry. They are held in a
/// list with no challenge twice (the type invariant) rather than in a
/// `HashMap`: vstd specifies `HashMap` only for keys it has a key model for
/// (integers and `bool`), and a challenge is a byte string.
pub struct ChallengeStore {
    clock: Instant,
    /// The latest clock reading the store has acted on.
    last: u128,
    entries: Vec<ChallengeEntry>,
}

/// The map described by a list of (challenge, expiry) pairs.
pub open spec fn pairs_map(s: Seq<(Seq<u8>, u128)>) -> Map<Seq<u8>, u128> {
    Map::new(
        |k: Seq<u8>| exists|i: int| 0 <= i < s.len() && #[trigger] s[i].0 == k,
        |k: Seq<u8>| s[choose|i: int| 0 <= i < s.len() && #[trigger] s[i].0 == k].1,
    )
}

/// No challenge occurs twice in the list.
pub open spec fn distinct_keys(s: Seq<(Seq<u8>, u128)>) -> bool {
    forall|i: int, j: int| 0 <= i < s.len() && 0 <= j < s.len() && i != j ==> #[trigger] s[i].0 != #[trigger] s[j].0
}

/// The challenges of `m` that are still valid at clock reading `now`: those
/// whose expiry lies strictly after `now`.
pub open spec fn live(m: Map<Seq<u8>, u128>, now: u128) -> Map<Seq<u8>, u128> {
    Map::new(|k: Seq<u8>| m.contains_key(k) && m[k] > now, |k: Seq<u8>| m[k])
}

/// The expiry given to a challenge issued at clock reading `now`.
pub open spec fn expiry_from(now: u128) -> u128 {
    (now + CHALLENGE_TTL_NANOS) as u128
}

impl ChallengeEntry {
    pub closed spec fn pair(self) -> (Seq<u8>, u128) {
        (self.challenge@, self.expires_at)
    }
}

impl ChallengeStore {
    /// The store's entries as (challenge, expiry) pairs.
    pub closed spec fn pairs(self) -> Seq<(Seq<u8>, u128)> {
        self.entries@.map_values(|e: ChallengeEntry| e.pair())
    }

    /// The clock reading at which the store last issued or accepted a
    /// challenge (0 before that).
    pub closed spec fn last_reading(self) -> u128 {
        self.last
    }

    #[verifier::type_invariant]
    spec fn wf(self) -> bool {
        &&& distinct_keys(self.pairs())
        &&& self.last <= max_duration_nanos()
    }
}

impl View for ChallengeStore {
    type V = Map<Seq<u8>, u128>;

    closed spec fn view(&self) -> Map<Seq<u8>, u128> {
        pairs_map(self.pairs())
    }
}

proof fn lemma_pairs_map_index(s: Seq<(Seq<u8>, u128)>, i: int)
    requires
        distinct_keys(s),
        0 <= i < s.len(),
    ensures
        pairs_map(s).contains_key(s[i].0),
        pairs_map(s)[s[i].0] == s[i].1,
{
    let k = s[i].0;
    assert(exists|j: int| 0 <= j < s.len() && #[trigger] s[j].0 == k);
    let c = choose|j: int| 0 <= j < s.len() && #[trigger] s[j].0 == k;
    assert(c == i);
}

proof fn lemma_pairs_map_dom(s: Seq<(Seq<u8>, u128)>)
    requires
        distinct_keys(s),
    ensures
        pairs_map(s).dom().finite(),
        pairs_map(s).dom().len() == s.len(),
{
    let keys = s.map_values(|p: (Seq<u8>, u128)| p.0);
    assert(keys.no_duplicates()) by {
        assert forall|i: int, j: int| 0 <= i < keys.len() && 0 <= j < keys.len() && i != j implies keys[i] != keys[j] by {
            assert(s[i].0 != s[j].0);
        }
    }
    keys.unique_seq_to_set();
    assert forall|k: Seq<u8>| #[trigger] pairs_map(s).dom().contains(k) == keys.to_set().contains(k) by {
        if pairs_map(s).dom().contains(k) {
            let i = choose|i: int| 0 <= i < s.len() && #[trigger] s[i].0 == k;
            assert(keys[i] == k);
        }
        if keys.to_set().contains(k) {
            let i = choose|i: int| 0 <= i < keys.len() && keys[i] == k;
            assert(s[i].0 == k);
        }
    }
    assert(pairs_map(s).dom() =~= keys.to_set());
    vstd::seq_lib::seq_to_set_is_finite(keys);
}

impl ChallengeStore {
    /// An empty store whose clock starts now.
    pub fn new() -> (res: Self)
        ensures
            res@ == Map::<Seq<u8>, u128>::empty(),
            res.last_reading() == 0,
    {
        let s = ChallengeStore { clock: instant_now(), last: 0, entries: Vec::new() };
        assert(s.pairs() =~= Seq::<(Seq<u8>, u128)>::empty());
        assert(s@ =~= Map::<Seq<u8>, u128>::empty());
        s
    }

    /// Number of outstanding (possibly expired) challenges.
    pub fn len(&self) -> (res: usize)
        ensures
            res == self@.len(),
    {
        proof {
            use_type_invariant(self);
            lemma_pairs_map_dom(self.pairs());
        }
        self.entries.len()
    }

    /// The store's clock: nanoseconds since the store was created.
    pub fn clock_reading(&self) -> (res: u128)
        ensures
            res <= max_duration_nanos(),
    {
        let d = instant_elapsed(&self.clock);
        duration_as_nanos(&d)
    }

    /// Drops the challenges that have expired at clock reading `now`.
    pub fn cleanup_at(&mut self, now: u128)
        ensures
            final(self)@ == live(old(self)@, now),
            final(self).last_reading() == old(self).last_reading(),
    {
        proof {
            use_type_invariant(&*self);
        }
        let ghost old_pairs = self.pairs();
        let mut kept: Vec<ChallengeEntry> = Vec::new();
        let mut rest: Vec<ChallengeEntry> = Vec::new();
        std::mem::swap(&mut rest, &mut self.entries);
        assert(rest@.map_values(|e: ChallengeEntry| e.pair()) == old_pairs);
        let n = rest.len();
        let mut i: usize = 0;
        // Entries of `rest` not yet looked at lie at indices `i..n`, read in order.
        let ghost kept_idx: Seq<int> = Seq::empty();
        while i < n
            invariant
                n == rest@.len(),
                i <= n,
                old_pairs == rest@.map_values(|e: ChallengeEntry| e.pair()),
                distinct_keys(old_pairs),
                kept_idx.len() == kept@.len(),
                forall|a: int| 0 <= a < kept@.len() ==> 0 <= #[trigger] kept_idx[a] < i
                    && kept@[a].pair() == old_pairs[kept_idx[a]],
                forall|a: int, b: int| 0 <= a < b < kept@.len() ==> #[trigger] kept_idx[a] < #[trigger] kept_idx[b],
                forall|j: int| 0 <= j < i ==> (old_pairs[j].1 > now <==> exists|a: int| 0 <= a < kept@.len() && #[trigger] kept_idx[a] == j),
            decreases n - i,
        {
            let e_exp = rest[i].expires_at;
            assert(old_pairs[i as int] == rest@[i as int].pair());
            let ghost prev_idx = kept_idx;
            if e_exp > now {
                let e = ChallengeEntry { challenge: rest[i].challenge.clone(), expires_at: e_exp };
                kept.push(e);
                proof {
                    kept_idx = kept_idx.push(i as int);
                    assert(kept_idx[kept_idx.len() - 1] == i as int);
                    assert forall|j: int| 0 <= j < i implies (old_pairs[j].1 > now <==> exists|a: int| 0 <= a < kept@.len() && #[trigger] kept_idx[a] == j) by {
                        if old_pairs[j].1 > now {
                            let a = choose|a: int| 0 <= a < prev_idx.len() && #[trigger] prev_idx[a] == j;
                            assert(kept_idx[a] == j);
                        }
                    }
                }
            } else {
                proof {
                    assert forall|a: int| 0 <= a < kept@.len() implies #[trigger] kept_idx[a] != i as int by {}
                }
            }
            i = i + 1;
        }
        let ghost new_pairs = kept@.map_values(|e: ChallengeEntry| e.pair());
        assert(distinct_keys(new_pairs)) by {
            assert forall|a: int, b: int| 0 <= a < new_pairs.len() && 0 <= b < new_pairs.len() && a != b implies #[trigger] new_pairs[a].0 != #[trigger] new_pairs[b].0 by {
                if a < b {
                    assert(kept_idx[a] < kept_idx[b]);
                } else {
                    assert(kept_idx[b] < kept_idx[a]);
                }
            }
        }
        self.entries = kept;
        assert(self.pairs() == new_pairs);
        proof {
            let lm = live(pairs_map(old_pairs), now);
            let nm = pairs_map(new_pairs);
            assert forall|k: Seq<u8>| #[trigger] nm.contains_key(k) == lm.contains_key(k) && (nm.contains_key(k) ==> nm[k] == lm[k]) by {
                if nm.contains_key(k) {
                    let a = choose|a: int| 0 <= a < new_pairs.len() && #[trigger] new_pairs[a].0 == k;
                    lemma_pairs_map_index(new_pairs, a);
                    lemma_pairs_map_index(old_pairs, kept_idx[a]);
                }
                if lm.contains_key(k) {
                    let j = choose|j: int| 0 <= j < old_pairs.len() && #[trigger] old_pairs[j].0 == k;
                    lemma_pairs_map_index(old_pairs, j);
                    let a = choose|a: int| 0 <= a < kept@.len() && #[trigger] kept_idx[a] == j;
                    assert(new_pairs[a].0 == k);
                }
            }
            assert(nm =~= lm);
        }
    }

    /// Index of `challenge` among the entries, if present.
    fn find(&self, challenge: &[u8]) -> (res: Option<usize>)
        ensures
            match res {
                Some(i) => i < self.pairs().len() && self.pairs()[i as int].0 == challenge@,
                None => !self@.contains_key(challenge@),
            },
    {
        let mut i: usize = 0;
        while i < self.entries.len()
            invariant
                i <= self.entries@.len(),
                forall|j: int| 0 <= j < i ==> self.pairs()[j].0 != challenge@,
            decreases self.entries@.len() - i,
        {
            if bytes_equal(self.entries[i].challenge.as_slice(), challenge) {
                return Some(i);
            }
            i = i + 1;
        }
        proof {
            if self@.contains_key(challenge@) {
                let j = choose|j: int| 0 <= j < self.pairs().len() && #[trigger] self.pairs()[j].0 == challenge@;
            }
        }
        None
    }

    /// Whether `challenge` is outstanding (expired or not).
    pub fn contains(&self, challenge: &[u8]) -> (res: bool)
        ensures
            res == self@.contains_key(challenge@),
    {
        proof {
            use_type_invariant(self);
        }
        match self.find(challenge) {
            Some(i) => {
                proof {
                    lemma_pairs_map_index(self.pairs(), i as int);
                }
                true
            },
            None => false,
        }
    }

    /// Records `challenge`, which must not be outstanding, with the given expiry.
    fn insert_new(&mut self, challenge: &[u8], expires_at: u128)
        requires
            !old(self)@.contains_key(challenge@),
        ensures
            final(self)@ == old(self)@.insert(challenge@, expires_at),
            final(self).last_reading() == old(self).last_reading(),
    {
        proof {
            use_type_invariant(&*self);
        }
        let ghost old_pairs = self.pairs();
        let mut v: Vec<u8> = Vec::new();
        let mut i: usize = 0;
        while i < challenge.len()
            invariant
                i <= challenge@.len(),
                v@ == challenge@.subrange(0, i as int),
            decreases challenge@.len() - i,
        {
            v.push(challenge[i]);
            i = i + 1;
            assert(v@ =~= challenge@.subrange(0, i as int));
        }
        assert(v@ =~= challenge@);
        let mut entries: Vec<ChallengeEntry> = Vec::new();
        std::mem::swap(&mut entries, &mut self.entries);
        assert(entries@.map_values(|e: ChallengeEntry| e.pair()) == old_pairs);
        let e = ChallengeEntry { challenge: v, expires_at };
        entries.push(e);
        let ghost new_pairs = entries@.map_values(|e: ChallengeEntry| e.pair());
        assert(new_pairs =~= old_pairs.push((challenge@, expires_at)));
        assert(distinct_keys(new_pairs)) by {
            assert forall|a: int, b: int| 0 <= a < new_pairs.len() && 0 <= b < new_pairs.len() && a != b implies #[trigger] new_pairs[a].0 != #[trigger] new_pairs[b].0 by {
                if a == old_pairs.len() as int {
                    lemma_pairs_map_index(old_pairs, b);
                } else if b == old_pairs.len() as int {
                    lemma_pairs_map_index(old_pairs, a);
                }
            }
        }
        self.entries = entries;
        proof {
            let nm = pairs_map(new_pairs);
            let em = pairs_map(old_pairs).insert(challenge@, expires_at);
            assert forall|k: Seq<u8>| #[trigger] nm.contains_key(k) == em.contains_key(k) && (nm.contains_key(k) ==> nm[k] == em[k]) by {
                if nm.contains_key(k) {
                    let a = choose|a: int| 0 <= a < new_pairs.len() && #[trigger] new_pairs[a].0 == k;
                    lemma_pairs_map_index(new_pairs, a);
                    if a < old_pairs.len() {
                        lemma_pairs_map_index(old_pairs, a);
                    }
                }
                if em.contains_key(k) && k != challenge@ {
                    let j = choose|j: int| 0 <= j < old_pairs.len() && #[trigger] old_pairs[j].0 == k;
                    lemma_pairs_map_index(old_pairs, j);
                    assert(new_pairs[j].0 == k);
                    lemma_pairs_map_index(new_pairs, j);
                }
                if k == challenge@ {
                    lemma_pairs_map_index(new_pairs, old_pairs.len() as int);
                }
            }
            assert(nm =~= em);
        }
    }

    /// Removes `challenge` if it is outstanding; says whether it was.
    fn remove_key(&mut self, challenge: &[u8]) -> (res: bool)
        ensures
            res == old(self)@.contains_key(challenge@),
            final(self)@ == old(self)@.remove(challenge@),
            final(self).last_reading() == old(self).last_reading(),
    {
        proof {
            use_type_invariant(&*self);
        }
        let ghost old_pairs = self.pairs();
        match self.find(challenge) {
            None => {
                assert(self@.remove(challenge@) =~= self@);
                false
            },
            Some(idx) => {
                proof {
                    lemma_pairs_map_index(old_pairs, idx as int);
                }
                let mut entries: Vec<ChallengeEntry> = Vec::new();
                std::mem::swap(&mut entries, &mut self.entries);
                assert(entries@.map_values(|e: ChallengeEntry| e.pair()) == old_pairs);
                let _removed = entries.remove(idx);
                let ghost new_pairs = entries@.map_values(|e: ChallengeEntry| e.pair());
                assert(new_pairs =~= old_pairs.remove(idx as int));
                assert(distinct_keys(new_pairs)) by {
                    assert forall|a: int, b: int| 0 <= a < new_pairs.len() && 0 <= b < new_pairs.len() && a != b implies #[trigger] new_pairs[a].0 != #[trigger] new_pairs[b].0 by {
                        let oa = if a < idx { a } else { a + 1 };
                        let ob = if b < idx { b } else { b + 1 };
                        assert(new_pairs[a] == old_pairs[oa]);
                        assert(new_pairs[b] == old_pairs[ob]);
                    }
                }
                self.entries = entries;
                proof {
                    let nm = pairs_map(new_pairs);
                    let em = pairs_map(old_pairs).remove(challenge@);
                    assert forall|k: Seq<u8>| #[trigger] nm.contains_key(k) == em.contains_key(k) && (nm.contains_key(k) ==> nm[k] == em[k]) by {
                        if nm.contains_key(k) {
                            let a = choose|a: int| 0 <= a < new_pairs.len() && #[trigger] new_pairs[a].0 == k;
                            let oa = if a < idx { a } else { a + 1 };
                            assert(new_pairs[a] == old_pairs[oa]);
                            lemma_pairs_map_index(new_pairs, a);
                            lemma_pairs_map_index(old_pairs, oa);
                        }
                        if em.contains_key(k) {
                            let j = choose|j: int| 0 <= j < old_pairs.len() && #[trigger] old_pairs[j].0 == k;
                            assert(j != idx);
                            let a = if j < idx { j } else { j - 1 };
                            assert(new_pairs[a] == old_pairs[j]);
                            lemma_pairs_map_index(old_pairs, j);
                            lemma_pairs_map_index(new_pairs, a);
                        }
                    }
                    assert(nm =~= em);
                }
                true
            },
        }
    }

    /// Takes a drawn candidate: when it is not outstanding it is recorded
    /// with expiry `expires_at` and handed back; when it is, the store stays
    /// as it was and the answer is `None` (the caller draws again).
    pub fn admit_candidate(&mut self, candidate: [u8; 32], expires_at: u128) -> (res: Option<[u8; 32]>)
        ensures
            res == if old(self)@.contains_key(candidate@) { None::<[u8; 32]> } else { Some(candidate) },
            final(self)@ == if old(self)@.contains_key(candidate@) {
                old(self)@
            } else {
                old(self)@.insert(candidate@, expires_at)
            },
            final(self).last_reading() == old(self).last_reading(),
    {
        if self.contains(candidate.as_slice()) {
            None
        } else {
            self.insert_new(candidate.as_slice(), expires_at);
            Some(candidate)
        }
    }

    /// Issues a new challenge at clock reading `now`: drops the expired
    /// challenges, then draws random candidates until one is not
    /// outstanding and records it, valid for five minutes (each draw goes
    /// through `admit_candidate`). It gives `None` when the operating
    /// system's generator fails, or should `u64::MAX` draws in a row all
    /// collide; the store is then only cleaned up.
    pub fn generate_at(&mut self, now: u128) -> (res: Option<[u8; 32]>)
        requires
            now <= max_duration_nanos(),
        ensures
            final(self).last_reading() == old(self).last_reading(),
            match res {
                Some(c) => {
                    &&& !live(old(self)@, now).contains_key(c@)
                    &&& final(self)@ == live(old(self)@, now).insert(c@, expiry_from(now))
                },
                None => final(self)@ == live(old(self)@, now),
            },
    {
        self.cleanup_at(now);
        let ghost cleaned = self@;
        let expires_at: u128 = now + CHALLENGE_TTL_NANOS;
        let mut attempts: u64 = 0;
        while attempts < u64::MAX
            invariant
                self@ == cleaned,
                cleaned == live(old(self)@, now),
                expires_at == expiry_from(now),
                self.last_reading() == old(self).last_reading(),
            decreases u64::MAX - attempts,
        {
            let candidate = match random_32_bytes() {
                Some(c) => c,
                None => return None,
            };
            match self.admit_candidate(candidate, expires_at) {
                Some(c) => return Some(c),
                None => {},
            }
            attempts = attempts + 1;
        }
        None
    }

    /// Accepts `challenge` at clock reading `now` when it is outstanding and
    /// has not expired, and forgets it either way; expired challenges are
    /// dropped first.
    pub fn consume_at(&mut self, challenge: &[u8], now: u128) -> (res: bool)
        ensures
            res == live(old(self)@, now).contains_key(challenge@),
            final(self)@ == live(old(self)@, now).remove(challenge@),
            final(self).last_reading() == old(self).last_reading(),
    {
        self.cleanup_at(now);
        self.remove_key(challenge)
    }

    /// The store's clock read now, never below a reading it already acted
    /// on (the monotonic clock gives no earlier reading than a previous one,
    /// so this only guards against a platform fault).
    pub(crate) fn next_reading(&self) -> (now: u128)
        ensures
            now >= self.last_reading(),
            now <= max_duration_nanos(),
    {
        proof { use_type_invariant(self); }
        let r = self.clock_reading();
        if r > self.last { r } else { self.last }
    }

    /// Records `now` as the store's last reading.
    pub(crate) fn advance_to(&mut self, now: u128)
        requires
            old(self).last_reading() <= now <= max_duration_nanos(),
        ensures
            final(self)@ == old(self)@,
            final(self).last_reading() == now,
    {
        proof { use_type_invariant(&*self); }
        self.last = now;
    }

    /// Issues a new challenge on the store's clock (see `generate_at`); the
    /// reading used becomes the store's last reading.
    pub fn generate(&mut self) -> (res: Option<[u8; 32]>)
        ensures
            old(self).last_reading() <= final(self).last_reading() <= max_duration_nanos(),
            match res {
                Some(c) => {
                    &&& !live(old(self)@, final(self).last_reading()).contains_key(c@)
                    &&& final(self)@ == live(old(self)@, final(self).last_reading()).insert(c@, expiry_from(final(self).last_reading()))
                },
                None => final(self)@ == live(old(self)@, final(self).last_reading()),
            },
    {
        let now = self.next_reading();
        let res = self.generate_at(now);
        self.advance_to(now);
        res
    }

    /// Accepts and forgets `challenge` on the store's clock (see
    /// `consume_at`); the reading used becomes the store's last reading.
    pub fn consume(&mut self, challenge: &[u8]) -> (res: bool)
        ensures
            old(self).last_reading() <= final(self).last_reading() <= max_duration_nanos(),
            res == live(old(self)@, final(self).last_reading()).contains_key(challenge@),
            final(self)@ == live(old(self)@, final(self).last_reading()).remove(challenge@),
    {
        let now = self.next_reading();
        let res = self.consume_at(challenge, now);
        self.advance_to(now);
        res
    }
}

/// A challenge handed out by `generate` is accepted by the next `consume`
/// exactly when that consume's reading (never earlier than the generate's)
/// lies less than five minutes after the generate's reading, and by no
/// consume after that.
pub proof fn lemma_generated_challenge_single_use(
    m: Map<Seq<u8>, u128>,
    c: Seq<u8>,
    issued: u128,
    first: u128,
    second: u128,
)
    requires
        issued <= max_duration_nanos(),
        issued <= first,
    ensures
        live(live(m, issued).insert(c, expiry_from(issued)), first).contains_key(c) <==> first - issued < CHALLENGE_TTL_NANOS,
        !live(live(live(m, issued).insert(c, expiry_from(issued)), first).remove(c), second).contains_key(c),
{
}

/// A challenge issued at clock reading `now` is accepted at any reading
/// `later` before its five-minute lifetime ends, whatever else the store holds.
pub proof fn lemma_issued_challenge_accepted(m: Map<Seq<u8>, u128>, c: Seq<u8>, now: u128, later: u128)
    requires
        now + CHALLENGE_TTL_NANOS <= u128::MAX,
        later < now + CHALLENGE_TTL_NANOS,
    ensures
        live(m.insert(c, expiry_from(now)), later).contains_key(c),
{
}

/// A challenge issued at clock reading `now` is no longer accepted once its
/// five-minute lifetime has passed.
pub proof fn lemma_issued_challenge_expires(m: Map<Seq<u8>, u128>, c: Seq<u8>, now: u128, later: u128)
    requires
        now + CHALLENGE_TTL_NANOS <= u128::MAX,
        later >= now + CHALLENGE_TTL_NANOS,
    ensures
        !live(m.insert(c, expiry_from(now)), later).contains_key(c),
{
}

/// A challenge is accepted at most once: after it has been consumed at any
/// reading, consuming it again at any reading fails.
pub proof fn lemma_challenge_single_use(m: Map<Seq<u8>, u128>, c: Seq<u8>, first: u128, second: u128)
    ensures
        !live(live(m, first).remove(c), second).contains_key(c),
{
}

/// Consuming one challenge leaves every other live challenge acceptable
/// until it expires.
pub proof fn lemma_consume_keeps_others(m: Map<Seq<u8>, u128>, c: Seq<u8>, d: Seq<u8>, first: u128, second: u128)
    requires
        c != d,
        m.contains_key(d),
        first < m[d],
        second < m[d],
    ensures
        live(live(m, first).remove(c), second).contains_key(d),
{
}

/// A challenge the store never issued is never accepted.
pub proof fn lemma_unknown_challenge_rejected(m: Map<Seq<u8>, u128>, c: Seq<u8>, now: u128)
    requires
        !m.contains_key(c),
    ensures
        !live(m, now).contains_key(c),
{
}

} // verus!
