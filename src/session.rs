use std::collections::HashMap;
use vstd::prelude::*;

use crate::cipher::{inverts, Decrypter, Encrypter, NoCipher, TAG_SIZE};
use crate::clock::time_now_secs_since_epoch;
use crate::encoding::{base64_decoding, base64_encoding, decode_base64, encode_base64};
use crate::error::Error;

verus! {

/// Seconds that a decoded session stays cached unless configured otherwise.
pub const MAX_CACHE_SECS: u64 = 30;

//------------ ClientSession -------------------------------------------------

/// One authenticated principal: who it is, when its session began and for how
/// long it is meant to last.
pub struct ClientSession {
    /// Seconds since the Unix epoch at which the session began.
    pub start_time: u64,
    /// Lifetime of the session in seconds, if it has one.
    pub expires_in: Option<u64>,
    pub id: String,
    pub attributes: HashMap<String, String>,
    pub secrets: Vec<String>,
}

/// What a [`ClientSession`] holds, as mathematical values.
pub struct ClientSessionView {
    pub start_time: u64,
    pub expires_in: Option<u64>,
    pub id: Seq<char>,
    pub attributes: Map<String, String>,
    pub secrets: Seq<String>,
}

impl View for ClientSession {
    type V = ClientSessionView;

    open spec fn view(&self) -> ClientSessionView {
        ClientSessionView {
            start_time: self.start_time,
            expires_in: self.expires_in,
            id: self.id@,
            attributes: self.attributes@,
            secrets: self.secrets@,
        }
    }
}

#[derive(Debug, PartialEq, Eq, Structural)]
pub enum SessionStatus {
    Active,
    NeedsRefresh,
    Expired,
}

/// Age of a session begun at `start` when the clock reads `now`; a clock that
/// went backwards counts as no age at all.
pub open spec fn session_age(start: u64, now: u64) -> int {
    if now >= start {
        now - start
    } else {
        0
    }
}

/// The status of a session begun at `start` with lifetime `max_age` at time
/// `now`: expired past its lifetime, due for refresh past half of it (half
/// rounded down), active otherwise or when it has no lifetime.
pub open spec fn status_of(start: u64, max_age: Option<u64>, now: u64) -> SessionStatus {
    match max_age {
        None => SessionStatus::Active,
        Some(max) => if session_age(start, now) > max {
            SessionStatus::Expired
        } else if session_age(start, now) > max / 2 {
            SessionStatus::NeedsRefresh
        } else {
            SessionStatus::Active
        },
    }
}

impl ClientSession {
    /// A session that begins at `start_time`.
    pub fn new(
        start_time: u64,
        expires_in: Option<u64>,
        id: &str,
        attributes: &HashMap<String, String>,
        secrets: &[String],
    ) -> (r: ClientSession)
        ensures
            r@.start_time == start_time,
            r@.expires_in == expires_in,
            r@.id == id@,
            r@.attributes == attributes@,
            r@.secrets == secrets@,
    {
        ClientSession {
            start_time,
            expires_in,
            id: id.to_string(),
            attributes: attributes.clone(),
            secrets: copy_strings(secrets),
        }
    }

    /// A session that begins now, as the system clock tells.
    pub fn start_now(
        id: &str,
        attributes: &HashMap<String, String>,
        secrets: &[String],
        expires_in: Option<u64>,
    ) -> (r: Result<ClientSession, Error>)
        ensures
            r matches Ok(s) ==> s@.expires_in == expires_in && s@.id == id@ && s@.attributes
                == attributes@ && s@.secrets == secrets@,
    {
        let now = time_now_secs_since_epoch()?;
        Ok(ClientSession::new(now, expires_in, id, attributes, secrets))
    }

    /// The status of this session when the clock reads `now`.
    pub fn status_at(&self, now: u64) -> (r: SessionStatus)
        ensures
            r == status_of(self.start_time, self.expires_in, now),
    {
        match self.expires_in {
            None => SessionStatus::Active,
            Some(max_age_secs) => {
                let cur_age_secs: u64 = if now >= self.start_time {
                    now - self.start_time
                } else {
                    0
                };
                if cur_age_secs > max_age_secs {
                    SessionStatus::Expired
                } else if cur_age_secs > max_age_secs / 2 {
                    SessionStatus::NeedsRefresh
                } else {
                    SessionStatus::Active
                }
            },
        }
    }

    /// The status of this session now, as the system clock tells. When the
    /// clock cannot be read the session counts as active.
    pub fn status(&self) -> (r: SessionStatus)
        ensures
            self.expires_in is None ==> r == SessionStatus::Active,
            r == SessionStatus::Active || exists|now: u64|
                r == status_of(self.start_time, self.expires_in, now),
    {
        if self.expires_in.is_none() {
            return SessionStatus::Active;
        }
        let now = match time_now_secs_since_epoch() {
            Ok(now) => Some(now),
            Err(_) => None,
        };
        self.status_from(now)
    }

    /// The status of this session given a clock reading, or `None` where the
    /// clock could not be read, in which case the session counts as active.
    pub fn status_from(&self, now: Option<u64>) -> (r: SessionStatus)
        ensures
            r == match now {
                Some(n) => status_of(self.start_time, self.expires_in, n),
                None => SessionStatus::Active,
            },
    {
        match now {
            Some(n) => self.status_at(n),
            None => SessionStatus::Active,
        }
    }

    /// A copy of this session.
    pub fn duplicate(&self) -> (r: ClientSession)
        ensures
            r@ == self@,
    {
        ClientSession {
            start_time: self.start_time,
            expires_in: self.expires_in,
            id: self.id.clone(),
            attributes: self.attributes.clone(),
            secrets: copy_strings(self.secrets.as_slice()),
        }
    }
}

fn copy_strings(strings: &[String]) -> (r: Vec<String>)
    ensures
        r@ == strings@,
{
    let mut r: Vec<String> = Vec::new();
    let mut i: usize = 0;
    while i < strings.len()
        invariant
            i <= strings@.len(),
            r@ == strings@.take(i as int),
        decreases strings@.len() - i,
    {
        r.push(strings[i].clone());
        assert(strings@.take(i + 1) =~= strings@.take(i as int).push(strings@[i as int]));
        i = i + 1;
    }
    assert(strings@.take(strings@.len() as int) =~= strings@);
    r
}

//------------ Token ---------------------------------------------------------

/// An opaque bearer token: the base64 text of a sealed session.
pub struct Token {
    value: String,
}

impl View for Token {
    type V = Seq<char>;

    closed spec fn view(&self) -> Seq<char> {
        self.value@
    }
}

impl Token {
    pub fn new(value: String) -> (r: Token)
        ensures
            r@ == value@,
    {
        Token { value }
    }

    pub fn as_str(&self) -> (r: &str)
        ensures
            r@ == self@,
    {
        self.value.as_str()
    }

    /// A copy of this token.
    pub fn duplicate(&self) -> (r: Token)
        ensures
            r@ == self@,
    {
        Token { value: self.value.clone() }
    }

    pub fn same_as(&self, other: &Token) -> (r: bool)
        ensures
            r == (self@ == other@),
    {
        self.value == other.value
    }
}

//------------ LoginSessionCache ---------------------------------------------

struct CachedSession {
    token: Token,
    evict_after: u64,
    session: ClientSession,
}

/// One cached session: the token it was decoded from, the time after which
/// it may be evicted, and the session itself.
pub struct CachedSessionView {
    pub token: Seq<char>,
    pub evict_after: u64,
    pub session: ClientSessionView,
}

impl CachedSession {
    fn duplicate(&self) -> (r: CachedSession)
        ensures
            r@ == self@,
    {
        CachedSession {
            token: self.token.duplicate(),
            evict_after: self.evict_after,
            session: self.session.duplicate(),
        }
    }
}

impl View for CachedSession {
    type V = CachedSessionView;

    closed spec fn view(&self) -> CachedSessionView {
        CachedSessionView { token: self.token@, evict_after: self.evict_after, session: self.session@ }
    }
}

/// No token is cached twice.
pub open spec fn tokens_unique(entries: Seq<CachedSessionView>) -> bool {
    forall|i: int, j: int|
        0 <= i < j < entries.len() ==> #[trigger] entries[i].token != #[trigger] entries[j].token
}

/// Whether `token` is cached among `entries`.
pub open spec fn is_cached(entries: Seq<CachedSessionView>, token: Seq<char>) -> bool {
    exists|i: int| 0 <= i < entries.len() && #[trigger] entries[i].token == token
}

/// The position of `token` among `entries`, when it is cached.
pub open spec fn cached_index(entries: Seq<CachedSessionView>, token: Seq<char>) -> int {
    choose|i: int| 0 <= i < entries.len() && #[trigger] entries[i].token == token
}

/// The session cached under `token`, if any.
pub open spec fn cached_session(entries: Seq<CachedSessionView>, token: Seq<char>) -> Option<
    ClientSessionView,
> {
    if is_cached(entries, token) {
        Some(entries[cached_index(entries, token)].session)
    } else {
        None
    }
}

/// Filtering keeps tokens unique.
proof fn lemma_filter_unique(
    entries: Seq<CachedSessionView>,
    keep: spec_fn(CachedSessionView) -> bool,
)
    requires
        tokens_unique(entries),
    ensures
        tokens_unique(entries.filter(keep)),
    decreases entries.len(),
{
    reveal(Seq::filter);
    if entries.len() > 0 {
        let rest = entries.drop_last();
        let last = entries.last();
        assert forall|a: int, b: int| 0 <= a < b < rest.len() implies #[trigger] rest[a].token
            != #[trigger] rest[b].token by {
            assert(entries[a].token != entries[b].token);
        }
        lemma_filter_unique(rest, keep);
        let f = rest.filter(keep);
        if keep(last) {
            let g = f.push(last);
            assert forall|a: int, b: int| 0 <= a < b < g.len() implies #[trigger] g[a].token
                != #[trigger] g[b].token by {
                if b == f.len() {
                    assert(f.contains(f[a]));
                    rest.lemma_filter_contains_rev(keep, f[a]);
                    let k = choose|k: int| 0 <= k < rest.len() && rest[k] == f[a];
                    assert(entries[k].token != entries[entries.len() - 1].token);
                } else {
                    assert(f[a].token != f[b].token);
                }
            }
        }
    }
}

/// Where a token is cached, [`cached_index`] finds it there.
proof fn lemma_cached_index(entries: Seq<CachedSessionView>, i: int)
    requires
        tokens_unique(entries),
        0 <= i < entries.len(),
    ensures
        is_cached(entries, entries[i].token),
        cached_index(entries, entries[i].token) == i,
{
    let k = cached_index(entries, entries[i].token);
    assert(entries[i].token == entries[i].token);
    if k < i {
        assert(entries[k].token != entries[i].token);
    } else if k > i {
        assert(entries[i].token != entries[k].token);
    }
}

/// `entries` once `entry` is cached: it replaces the entry for the same token,
/// or else comes last.
pub open spec fn cache_insert(entries: Seq<CachedSessionView>, entry: CachedSessionView) -> Seq<
    CachedSessionView,
> {
    if is_cached(entries, entry.token) {
        entries.update(cached_index(entries, entry.token), entry)
    } else {
        entries.push(entry)
    }
}

/// `entries` without the one for `token`.
pub open spec fn cache_remove(entries: Seq<CachedSessionView>, token: Seq<char>) -> Seq<
    CachedSessionView,
> {
    entries.filter(other_token(token))
}

/// Holds of the entries for another token than `token`.
pub open spec fn other_token(token: Seq<char>) -> spec_fn(CachedSessionView) -> bool {
    |e: CachedSessionView| e.token != token
}

/// `entries` without those whose eviction time has come by `now`.
pub open spec fn cache_sweep(entries: Seq<CachedSessionView>, now: u64) -> Seq<CachedSessionView> {
    entries.filter(unexpired(now))
}

/// Holds of the entries whose eviction time is still to come at `now`.
pub open spec fn unexpired(now: u64) -> spec_fn(CachedSessionView) -> bool {
    |e: CachedSessionView| e.evict_after > now
}

/// `a + b`, or the largest `u64` where the sum does not fit.
pub open spec fn saturating_sum(a: u64, b: u64) -> u64 {
    if a + b > u64::MAX {
        u64::MAX
    } else {
        (a + b) as u64
    }
}

/// A short term cache of decoded sessions, keyed by token. It spares repeated
/// decryption and deserialization of the same token, while keeping sessions in
/// memory for as short a time as possible. It is not responsible for
/// enforcing token expiration: that is what [`ClientSession::status`] is for.
pub struct LoginSessionCache<E, D> {
    cache: Vec<CachedSession>,
    encrypt_fn: E,
    decrypt_fn: D,
    ttl_secs: u64,
}

impl<E, D> View for LoginSessionCache<E, D> {
    type V = Seq<CachedSessionView>;

    closed spec fn view(&self) -> Seq<CachedSessionView> {
        views(self.cache@)
    }
}

spec fn views(cache: Seq<CachedSession>) -> Seq<CachedSessionView> {
    cache.map_values(|c: CachedSession| c@)
}

impl LoginSessionCache<NoCipher, NoCipher> {
    /// An empty cache that keeps sessions for the default time, with no
    /// cipher configured yet.
    pub fn new() -> (r: Self)
        ensures
            r@ == Seq::<CachedSessionView>::empty(),
            r.ttl() == MAX_CACHE_SECS,
            r.wf(),
    {
        let r = LoginSessionCache {
            cache: Vec::new(),
            encrypt_fn: NoCipher,
            decrypt_fn: NoCipher,
            ttl_secs: MAX_CACHE_SECS,
        };
        assert(r@ =~= Seq::<CachedSessionView>::empty());
        r
    }
}

impl Default for LoginSessionCache<NoCipher, NoCipher> {
    fn default() -> (r: Self)
        ensures
            r@ == Seq::<CachedSessionView>::empty(),
            r.ttl() == MAX_CACHE_SECS,
            r.wf(),
    {
        Self::new()
    }
}

impl<E, D> LoginSessionCache<E, D> {
    /// Seconds that a cached session stays before it may be swept.
    pub closed spec fn ttl(&self) -> u64 {
        self.ttl_secs
    }

    pub closed spec fn encrypter(&self) -> E {
        self.encrypt_fn
    }

    pub closed spec fn decrypter(&self) -> D {
        self.decrypt_fn
    }

    /// The invariant of the cache: no token is cached twice.
    pub open spec fn wf(&self) -> bool {
        tokens_unique(self@)
    }

    /// The same cache with sessions kept for `ttl_secs`.
    pub fn with_ttl(self, ttl_secs: u64) -> (r: Self)
        ensures
            r@ == self@,
            r.ttl() == ttl_secs,
            r.encrypter() == self.encrypter(),
            r.decrypter() == self.decrypter(),
    {
        LoginSessionCache {
            cache: self.cache,
            encrypt_fn: self.encrypt_fn,
            decrypt_fn: self.decrypt_fn,
            ttl_secs,
        }
    }

    /// The same cache sealing new tokens with `encrypt_fn`.
    pub fn with_encrypter<F>(self, encrypt_fn: F) -> (r: LoginSessionCache<F, D>)
        ensures
            r@ == self@,
            r.ttl() == self.ttl(),
            r.encrypter() == encrypt_fn,
            r.decrypter() == self.decrypter(),
    {
        LoginSessionCache {
            cache: self.cache,
            encrypt_fn,
            decrypt_fn: self.decrypt_fn,
            ttl_secs: self.ttl_secs,
        }
    }

    /// The same cache opening tokens with `decrypt_fn`.
    pub fn with_decrypter<F>(self, decrypt_fn: F) -> (r: LoginSessionCache<E, F>)
        ensures
            r@ == self@,
            r.ttl() == self.ttl(),
            r.encrypter() == self.encrypter(),
            r.decrypter() == decrypt_fn,
    {
        LoginSessionCache {
            cache: self.cache,
            encrypt_fn: self.encrypt_fn,
            decrypt_fn,
            ttl_secs: self.ttl_secs,
        }
    }

    /// The number of cached sessions.
    pub fn size(&self) -> (r: usize)
        ensures
            r == self@.len(),
    {
        self.cache.len()
    }

    /// Where `token` is cached, if it is.
    fn position(&self, token: &Token) -> (r: Option<usize>)
        requires
            self.wf(),
        ensures
            r is None <==> !is_cached(self@, token@),
            r matches Some(i) ==> i < self@.len() && self@[i as int].token == token@ && cached_index(
                self@,
                token@,
            ) == i,
    {
        let mut i: usize = 0;
        while i < self.cache.len()
            invariant
                self.wf(),
                i <= self.cache@.len(),
                forall|j: int| 0 <= j < i ==> #[trigger] self@[j].token != token@,
            decreases self.cache@.len() - i,
        {
            if self.cache[i].token.same_as(token) {
                proof {
                    lemma_cached_index(self@, i as int);
                }
                return Some(i);
            }
            i = i + 1;
        }
        None
    }

    /// A copy of the session cached under `token`, if there is one.
    pub fn lookup_session(&self, token: &Token) -> (r: Option<ClientSession>)
        requires
            self.wf(),
        ensures
            r is Some <==> is_cached(self@, token@),
            r matches Some(s) ==> cached_session(self@, token@) == Some(s@),
    {
        match self.position(token) {
            Some(i) => Some(self.cache[i].session.duplicate()),
            None => None,
        }
    }

    /// Caches `session` under `token` when the clock reads `now`, to be kept
    /// until `ttl` seconds later. An entry for the same token is replaced.
    pub fn cache_session_at(&mut self, token: &Token, session: &ClientSession, now: u64)
        requires
            old(self).wf(),
        ensures
            final(self).wf(),
            final(self)@ == cache_insert(
                old(self)@,
                CachedSessionView {
                    token: token@,
                    evict_after: saturating_sum(now, old(self).ttl()),
                    session: session@,
                },
            ),
            final(self).ttl() == old(self).ttl(),
            final(self).encrypter() == old(self).encrypter(),
            final(self).decrypter() == old(self).decrypter(),
    {
        let entry = CachedSession {
            token: token.duplicate(),
            evict_after: now.saturating_add(self.ttl_secs),
            session: session.duplicate(),
        };
        let ghost entries = self@;
        match self.position(token) {
            Some(i) => {
                self.cache.set(i, entry);
                proof {
                    assert(self@ =~= entries.update(i as int, entry@));
                    assert forall|a: int, b: int| 0 <= a < b < self@.len() implies #[trigger] self@[a].token
                        != #[trigger] self@[b].token by {
                        assert(self@[a].token == entries[a].token);
                        assert(self@[b].token == entries[b].token);
                        assert(entries[a].token != entries[b].token);
                    }
                }
            },
            None => {
                self.cache.push(entry);
                proof {
                    assert(self@ =~= entries.push(entry@));
                    assert forall|a: int, b: int| 0 <= a < b < self@.len() implies #[trigger] self@[a].token
                        != #[trigger] self@[b].token by {
                        if b < entries.len() {
                            assert(entries[a].token != entries[b].token);
                        }
                    }
                }
            },
        }
    }

    /// Caches `session` under `token` until `ttl` seconds from now, as the
    /// system clock tells. When the clock cannot be read nothing is cached:
    /// the cache only spares work and is never the authority on a session.
    pub fn cache_session(&mut self, token: &Token, session: &ClientSession)
        requires
            old(self).wf(),
        ensures
            final(self).wf(),
            final(self)@ == old(self)@ || exists|now: u64|
                final(self)@ == cache_insert(
                    old(self)@,
                    CachedSessionView {
                        token: token@,
                        evict_after: saturating_sum(now, old(self).ttl()),
                        session: session@,
                    },
                ),
            final(self).ttl() == old(self).ttl(),
            final(self).encrypter() == old(self).encrypter(),
            final(self).decrypter() == old(self).decrypter(),
    {
        if let Ok(now) = time_now_secs_since_epoch() {
            self.cache_session_at(token, session, now);
        }
    }

    /// Evicts the session cached under `token`, if there is one.
    pub fn remove(&mut self, token: &Token)
        requires
            old(self).wf(),
        ensures
            final(self).wf(),
            final(self)@ == cache_remove(old(self)@, token@),
            !is_cached(final(self)@, token@),
            final(self).ttl() == old(self).ttl(),
            final(self).encrypter() == old(self).encrypter(),
            final(self).decrypter() == old(self).decrypter(),
    {
        let ghost entries = self@;
        let ghost keep = other_token(token@);
        let mut kept: Vec<CachedSession> = Vec::new();
        let mut i: usize = 0;
        while i < self.cache.len()
            invariant
                self@ == entries,
                tokens_unique(entries),
                keep == other_token(token@),
                i <= self.cache@.len(),
                views(kept@) == entries.take(i as int).filter(keep),
            decreases self.cache@.len() - i,
        {
            let ghost before = kept@;
            assert(entries[i as int] == self.cache@[i as int]@);
            if !self.cache[i].token.same_as(token) {
                kept.push(self.cache[i].duplicate());
                proof {
                    let kv = views(kept@);
                    assert(kv =~= views(before).push(entries[i as int]));
                }
            } else {
                proof {
                    assert(kept@ == before);
                }
            }
            proof {
                assert(entries.take(i + 1) =~= entries.take(i as int).push(entries[i as int]));
                entries.take(i as int).lemma_filter_push(entries[i as int], keep);
                assert(views(kept@) == entries.take(i + 1).filter(keep));
            }
            i = i + 1;
        }
        self.cache = kept;
        proof {
            assert(entries.take(entries.len() as int) =~= entries);
            lemma_filter_unique(entries, keep);
            assert forall|j: int| 0 <= j < self@.len() implies #[trigger] self@[j].token != token@ by {
                entries.lemma_filter_pred(keep, j);
            }
        }
    }
    /// Evicts every session whose eviction time has come when the clock
    /// reads `now`.
    pub fn sweep_at(&mut self, now: u64)
        requires
            old(self).wf(),
        ensures
            final(self).wf(),
            final(self)@ == cache_sweep(old(self)@, now),
            forall|i: int| 0 <= i < final(self)@.len() ==> #[trigger] final(self)@[i].evict_after > now,
            final(self).ttl() == old(self).ttl(),
            final(self).encrypter() == old(self).encrypter(),
            final(self).decrypter() == old(self).decrypter(),
    {
        let ghost entries = self@;
        let ghost keep = unexpired(now);
        let mut kept: Vec<CachedSession> = Vec::new();
        let mut i: usize = 0;
        while i < self.cache.len()
            invariant
                self@ == entries,
                tokens_unique(entries),
                keep == unexpired(now),
                i <= self.cache@.len(),
                views(kept@) == entries.take(i as int).filter(keep),
            decreases self.cache@.len() - i,
        {
            let ghost before = kept@;
            assert(entries[i as int] == self.cache@[i as int]@);
            if self.cache[i].evict_after > now {
                kept.push(self.cache[i].duplicate());
                proof {
                    let kv = views(kept@);
                    assert(kv =~= views(before).push(entries[i as int]));
                }
            } else {
                proof {
                    assert(kept@ == before);
                }
            }
            proof {
                assert(entries.take(i + 1) =~= entries.take(i as int).push(entries[i as int]));
                entries.take(i as int).lemma_filter_push(entries[i as int], keep);
                assert(views(kept@) == entries.take(i + 1).filter(keep));
            }
            i = i + 1;
        }
        self.cache = kept;
        proof {
            assert(entries.take(entries.len() as int) =~= entries);
            lemma_filter_unique(entries, keep);
            assert forall|j: int| 0 <= j < self@.len() implies #[trigger] self@[j].evict_after > now by {
                entries.lemma_filter_pred(keep, j);
            }
        }
    }

    /// Evicts every session whose eviction time has come, as the system clock
    /// tells. Fails, and leaves the cache as it was, when the clock cannot be
    /// read.
    pub fn sweep(&mut self) -> (r: Result<(), Error>)
        requires
            old(self).wf(),
        ensures
            final(self).wf(),
            r is Err ==> final(self)@ == old(self)@,
            r is Ok ==> exists|now: u64| final(self)@ == cache_sweep(old(self)@, now),
            final(self).ttl() == old(self).ttl(),
            final(self).encrypter() == old(self).encrypter(),
            final(self).decrypter() == old(self).decrypter(),
    {
        let now = time_now_secs_since_epoch()?;
        self.sweep_at(now);
        Ok(())
    }
}

/// The message with which a token too short to hold a tag is refused.
pub open spec fn token_too_short() -> Seq<char> {
    "Invalid bearer token: token is too short"@
}

/// The tag buffer as sealing starts: sixteen zero bytes.
pub open spec fn zero_tag() -> Seq<u8> {
    Seq::new(16, |i: int| 0u8)
}

/// What decoding a token gives.
pub enum DecodedToken {
    /// The session cached under the token.
    Cached(ClientSession),
    /// The opened token: the bytes of the serialized session, which the caller
    /// turns back into a session (and may then cache with
    /// [`LoginSessionCache::cache_session`]).
    Opened(Vec<u8>),
}

/// The token for `ciphertext` followed by its authentication `tag`.
pub fn seal_token(ciphertext: Vec<u8>, tag: &[u8; 16]) -> (r: Token)
    ensures
        r@ == base64_encoding(ciphertext@ + tag@),
{
    let mut bytes = ciphertext;
    let mut i: usize = 0;
    while i < TAG_SIZE
        invariant
            i <= 16,
            bytes@ == ciphertext@ + tag@.take(i as int),
        decreases 16 - i,
    {
        bytes.push(tag[i]);
        assert(tag@.take(i + 1) =~= tag@.take(i as int).push(tag@[i as int]));
        assert(bytes@ =~= ciphertext@ + tag@.take(i + 1));
        i = i + 1;
    }
    assert(tag@.take(16) =~= tag@);
    Token::new(encode_base64(bytes.as_slice()))
}

impl<E: Encrypter, D: Decrypter> LoginSessionCache<E, D> {
    /// Seals `plaintext`, the serialized form of `session`, under `key` into a
    /// token, and caches `session` under that token as at time `now`. Fails,
    /// leaving the cache as it was, when the encrypter fails.
    pub fn encode_at(&mut self, session: &ClientSession, plaintext: &[u8], key: &[u8], now: u64) -> (r: Result<Token, Error>)
        requires
            old(self).wf(),
        ensures
            final(self).wf(),
            r is Err ==> final(self)@ == old(self)@,
            r is Err ==> old(self).encrypter().may_fail(key@, plaintext@),
            r matches Ok(t) ==> exists|c: Seq<u8>, tag: Seq<u8>|
                tag.len() == 16 && old(self).encrypter().seals(key@, plaintext@, c, zero_tag(), tag)
                    && t@ == base64_encoding(c + tag),
            r matches Ok(t) ==> final(self)@ == cache_insert(
                old(self)@,
                CachedSessionView {
                    token: t@,
                    evict_after: saturating_sum(now, old(self).ttl()),
                    session: session@,
                },
            ),
            final(self).ttl() == old(self).ttl(),
            final(self).encrypter() == old(self).encrypter(),
            final(self).decrypter() == old(self).decrypter(),
    {
        let mut tag: [u8; 16] = [0; 16];
        assert(tag@ =~= zero_tag());
        let ciphertext = self.encrypt_fn.encrypt(key, plaintext, &mut tag)?;
        let token = seal_token(ciphertext, &tag);
        self.cache_session_at(&token, session, now);
        Ok(token)
    }

    /// Seals `plaintext`, the serialized form of `session`, under `key` into a
    /// token, and caches `session` under that token from now on, as the system
    /// clock tells. Fails, leaving the cache as it was, when the clock cannot
    /// be read or the encrypter fails.
    pub fn encode(&mut self, session: &ClientSession, plaintext: &[u8], key: &[u8]) -> (r: Result<Token, Error>)
        requires
            old(self).wf(),
        ensures
            final(self).wf(),
            r is Err ==> final(self)@ == old(self)@,
            r matches Ok(t) ==> exists|c: Seq<u8>, tag: Seq<u8>|
                tag.len() == 16 && old(self).encrypter().seals(key@, plaintext@, c, zero_tag(), tag)
                    && t@ == base64_encoding(c + tag),
            r matches Ok(t) ==> exists|now: u64|
                final(self)@ == cache_insert(
                    old(self)@,
                    CachedSessionView {
                        token: t@,
                        evict_after: saturating_sum(now, old(self).ttl()),
                        session: session@,
                    },
                ),
            final(self).ttl() == old(self).ttl(),
            final(self).encrypter() == old(self).encrypter(),
            final(self).decrypter() == old(self).decrypter(),
    {
        let now = match time_now_secs_since_epoch() {
            Ok(now) => Some(now),
            Err(_) => None,
        };
        self.encode_from(session, plaintext, key, now)
    }

    /// Encodes as [`LoginSessionCache::encode_at`] does given a clock
    /// reading; `None`, a clock that could not be read, fails and leaves the
    /// cache as it was. Nothing else fails but the encrypter.
    pub fn encode_from(
        &mut self,
        session: &ClientSession,
        plaintext: &[u8],
        key: &[u8],
        now: Option<u64>,
    ) -> (r: Result<Token, Error>)
        requires
            old(self).wf(),
        ensures
            final(self).wf(),
            r is Err ==> final(self)@ == old(self)@,
            r is Err ==> now is None || old(self).encrypter().may_fail(key@, plaintext@),
            r matches Ok(t) ==> exists|c: Seq<u8>, tag: Seq<u8>|
                tag.len() == 16 && old(self).encrypter().seals(key@, plaintext@, c, zero_tag(), tag)
                    && t@ == base64_encoding(c + tag),
            r matches Ok(t) ==> now matches Some(n) && final(self)@ == cache_insert(
                old(self)@,
                CachedSessionView {
                    token: t@,
                    evict_after: saturating_sum(n, old(self).ttl()),
                    session: session@,
                },
            ),
            final(self).ttl() == old(self).ttl(),
            final(self).encrypter() == old(self).encrypter(),
            final(self).decrypter() == old(self).decrypter(),
    {
        match now {
            Some(n) => self.encode_at(session, plaintext, key, n),
            None => Err(Error::Custom("Unable to determine the current time".to_string())),
        }
    }

    /// Decodes `token` under `key`. A session cached under the token is
    /// returned as it is, without opening the token; otherwise the token is
    /// opened as [`LoginSessionCache::open_token`] does.
    pub fn decode(&self, token: Token, key: &[u8]) -> (r: Result<DecodedToken, Error>)
        requires
            self.wf(),
        ensures
            is_cached(self@, token@) ==> (r matches Ok(DecodedToken::Cached(s)) && cached_session(
                self@,
                token@,
            ) == Some(s@)),
            !is_cached(self@, token@) ==> match base64_decoding(token@) {
                None => r matches Err(Error::InvalidCredentials(_)),
                Some(b) => if b.len() <= 16 {
                    r matches Err(Error::InvalidCredentials(m)) && m@ == token_too_short()
                } else {
                    match r {
                        Ok(DecodedToken::Opened(p)) => self.decrypter().opens(
                            key@,
                            b.subrange(0, b.len() - 16),
                            b.subrange(b.len() - 16, b.len() as int),
                            p@,
                        ),
                        Err(Error::InvalidCredentials(_)) => self.decrypter().may_refuse(
                            key@,
                            b.subrange(0, b.len() - 16),
                            b.subrange(b.len() - 16, b.len() as int),
                        ),
                        _ => false,
                    }
                },
            },
            !is_cached(self@, token@) ==> forall|b: Seq<u8>|
                token@ == base64_encoding(b) ==> base64_decoding(token@) == Some(b),
    {
        if let Some(session) = self.lookup_session(&token) {
            return Ok(DecodedToken::Cached(session));
        }
        self.open_token(&token, key)
    }

    /// Opens `token` under `key` without looking in the cache: its base64
    /// text must give more bytes than a tag holds, and the decrypter must
    /// accept the bytes before the tag together with the tag. Every failure
    /// is reported as invalid credentials.
    pub fn open_token(&self, token: &Token, key: &[u8]) -> (r: Result<DecodedToken, Error>)
        ensures
            match base64_decoding(token@) {
                None => r matches Err(Error::InvalidCredentials(_)),
                Some(b) => if b.len() <= 16 {
                    r matches Err(Error::InvalidCredentials(m)) && m@ == token_too_short()
                } else {
                    match r {
                        Ok(DecodedToken::Opened(p)) => self.decrypter().opens(
                            key@,
                            b.subrange(0, b.len() - 16),
                            b.subrange(b.len() - 16, b.len() as int),
                            p@,
                        ),
                        Err(Error::InvalidCredentials(_)) => self.decrypter().may_refuse(
                            key@,
                            b.subrange(0, b.len() - 16),
                            b.subrange(b.len() - 16, b.len() as int),
                        ),
                        _ => false,
                    }
                },
            },
            forall|b: Seq<u8>| token@ == base64_encoding(b) ==> base64_decoding(token@) == Some(b),
    {
        let bytes = match decode_base64(token.as_str()) {
            Some(bytes) => bytes,
            None => {
                return Err(Error::InvalidCredentials("Invalid bearer token: not base64".to_string()));
            },
        };
        if bytes.len() <= TAG_SIZE {
            proof {
                reveal_strlit("Invalid bearer token: token is too short");
            }
            return Err(
                Error::InvalidCredentials("Invalid bearer token: token is too short".to_string()),
            );
        }
        let encrypted_len = bytes.len() - TAG_SIZE;
        let (encrypted_bytes, tag_bytes) = bytes.as_slice().split_at(encrypted_len);
        match self.decrypt_fn.decrypt(key, encrypted_bytes, tag_bytes) {
            Ok(plaintext) => Ok(DecodedToken::Opened(plaintext)),
            Err(_) => Err(
                Error::InvalidCredentials("Invalid bearer token: cannot be decrypted".to_string()),
            ),
        }
    }
}

/// Decoding a token right after encoding it finds the encoded session in the
/// cache: caching an entry keeps tokens unique and makes the entry's session
/// the one cached under its token.
pub proof fn lemma_decode_after_encode(entries: Seq<CachedSessionView>, entry: CachedSessionView)
    requires
        tokens_unique(entries),
    ensures
        tokens_unique(cache_insert(entries, entry)),
        is_cached(cache_insert(entries, entry), entry.token),
        cached_session(cache_insert(entries, entry), entry.token) == Some(entry.session),
{
    let after = cache_insert(entries, entry);
    let i = if is_cached(entries, entry.token) {
        cached_index(entries, entry.token)
    } else {
        entries.len() as int
    };
    assert(after[i] == entry);
    assert forall|a: int, b: int| 0 <= a < b < after.len() implies #[trigger] after[a].token
        != #[trigger] after[b].token by {
        if a != i && b != i {
            assert(entries[a].token != entries[b].token);
        } else if a == i && is_cached(entries, entry.token) {
            assert(entries[a].token != entries[b].token);
        } else if b == i && is_cached(entries, entry.token) {
            assert(entries[a].token != entries[b].token);
        }
    }
    lemma_cached_index(after, i);
}

/// Once a token is removed, decoding it misses the cache.
pub proof fn lemma_miss_after_remove(entries: Seq<CachedSessionView>, token: Seq<char>)
    ensures
        !is_cached(cache_remove(entries, token), token),
{
    let after = cache_remove(entries, token);
    assert forall|j: int| 0 <= j < after.len() implies #[trigger] after[j].token != token by {
        entries.lemma_filter_pred(other_token(token), j);
    }
}

/// After a sweep at `now` no cached entry is due for eviction at `now`.
pub proof fn lemma_sweep_leaves_unexpired(entries: Seq<CachedSessionView>, now: u64)
    ensures
        forall|j: int|
            0 <= j < cache_sweep(entries, now).len() ==> #[trigger] cache_sweep(entries, now)[j].evict_after
                > now,
{
    assert forall|j: int| 0 <= j < cache_sweep(entries, now).len() implies #[trigger] cache_sweep(
        entries,
        now,
    )[j].evict_after > now by {
        entries.lemma_filter_pred(unexpired(now), j);
    }
}

/// A token opens to the plaintext it was sealed from: where the decrypter
/// inverts the encrypter, the bytes before the tag of a sealed token open to
/// nothing but the sealed plaintext.
pub proof fn lemma_open_after_seal<E: Encrypter, D: Decrypter>(
    encrypter: E,
    decrypter: D,
    key: Seq<u8>,
    plaintext: Seq<u8>,
    ciphertext: Seq<u8>,
    tag: Seq<u8>,
    opened: Seq<u8>,
)
    requires
        inverts(encrypter, decrypter),
        tag.len() == 16,
        encrypter.seals(key, plaintext, ciphertext, zero_tag(), tag),
        decrypter.opens(
            key,
            (ciphertext + tag).subrange(0, (ciphertext + tag).len() - 16),
            (ciphertext + tag).subrange((ciphertext + tag).len() - 16, (ciphertext + tag).len() as int),
            opened,
        ),
    ensures
        opened == plaintext,
{
    let bytes = ciphertext + tag;
    assert(bytes.subrange(0, bytes.len() - 16) =~= ciphertext);
    assert(bytes.subrange(bytes.len() - 16, bytes.len() as int) =~= tag);
}

} // verus!
