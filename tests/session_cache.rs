use std::collections::HashMap;

use krill::cipher::{IdentityCipher, NoCipher};
use krill::error::Error;
use krill::session::{ClientSession, DecodedToken, LoginSessionCache, SessionStatus, Token};

const KEY: &[u8] = b"unused";
const START: u64 = 1_700_000_000;

fn identity_cache(ttl: u64) -> LoginSessionCache<IdentityCipher, IdentityCipher> {
    LoginSessionCache::new()
        .with_ttl(ttl)
        .with_encrypter(IdentityCipher)
        .with_decrypter(IdentityCipher)
}

fn cached(decoded: DecodedToken) -> ClientSession {
    match decoded {
        DecodedToken::Cached(session) => session,
        DecodedToken::Opened(_) => panic!("expected a cache hit"),
    }
}

#[test]
fn basic_login_session_cache_test() {
    // A cache whose items may be evicted after one second and which does no
    // actual encryption or decryption. Time is passed in explicitly.
    let mut cache = identity_cache(1);
    let now = START;

    let session1 = ClientSession::new(now, None, "some id", &HashMap::new(), &[]);
    let item1_token = cache.encode_at(&session1, br#"{"id":"some id"}"#, KEY, now).unwrap();
    assert_eq!(cache.size(), 1);

    let item1 = cached(cache.decode(item1_token, KEY).unwrap());
    assert_eq!(item1.id, "some id");
    assert_eq!(item1.attributes, HashMap::new());
    assert_eq!(item1.expires_in, None);
    assert_eq!(item1.secrets, Vec::<String>::new());

    // Two seconds later the item is due for eviction, but the cache has not
    // been swept yet.
    let now = now + 2;
    assert_eq!(cache.size(), 1);

    let mut some_attrs = HashMap::new();
    some_attrs.insert(String::from("some attr key"), String::from("some attr val"));
    let session2 = ClientSession::new(now, Some(10), "other id", &some_attrs, &[String::from("some secret")]);
    let item2_token = cache.encode_at(&session2, br#"{"id":"other id"}"#, KEY, now).unwrap();
    assert_eq!(cache.size(), 2);

    // Sweeping removes the expired item but keeps the newest one.
    cache.sweep_at(now);
    assert_eq!(cache.size(), 1);

    // Two more seconds: the remaining item is due, but not yet swept.
    let now = now + 2;
    assert_eq!(cache.size(), 1);

    let item2 = cached(cache.decode(item2_token, KEY).unwrap());
    let mut again_some_attrs = HashMap::new();
    again_some_attrs.insert(String::from("some attr key"), String::from("some attr val"));
    assert_eq!(item2.id, "other id");
    assert_eq!(item2.attributes, again_some_attrs);
    assert_eq!(item2.expires_in, Some(10));
    assert_eq!(item2.secrets, [String::from("some secret")]);

    // Sweeping now leaves the cache empty.
    cache.sweep_at(now);
    assert_eq!(cache.size(), 0);
}

#[test]
fn sweep_keeps_entries_within_their_ttl() {
    let mut cache = identity_cache(1);
    let session = ClientSession::new(START, Some(10), "other id", &HashMap::new(), &[]);
    let token = cache.encode_at(&session, b"{}", KEY, START).unwrap();
    // Eviction time is START + 1: a sweep at START keeps the entry.
    cache.sweep_at(START);
    assert_eq!(cache.size(), 1);
    let again = cached(cache.decode(token, KEY).unwrap());
    assert_eq!(again.id, "other id");
    assert_eq!(again.start_time, START);
    // A sweep at the eviction time removes it.
    cache.sweep_at(START + 1);
    assert_eq!(cache.size(), 0);
}

#[test]
fn decode_rejects_token_too_short() {
    let cache = identity_cache(30);
    let token = Token::new(String::from("AAAAAAAAAAA="));
    match cache.decode(token, KEY) {
        Err(Error::InvalidCredentials(m)) => assert_eq!(m, "Invalid bearer token: token is too short"),
        _ => panic!("expected invalid credentials"),
    }
}

#[test]
fn decode_rejects_token_of_exactly_tag_size() {
    let cache = identity_cache(30);
    // 16 zero bytes: no room for a ciphertext.
    let token = Token::new(String::from("AAAAAAAAAAAAAAAAAAAAAA=="));
    match cache.decode(token, KEY) {
        Err(Error::InvalidCredentials(m)) => assert_eq!(m, "Invalid bearer token: token is too short"),
        _ => panic!("expected invalid credentials"),
    }
}

#[test]
fn decode_rejects_text_that_is_not_base64() {
    let cache = identity_cache(30);
    let token = Token::new(String::from("not base64 at all!"));
    assert!(matches!(cache.decode(token, KEY), Err(Error::InvalidCredentials(_))));
}

#[test]
fn encode_appends_tag_and_base64_encodes() {
    let mut cache = identity_cache(30);
    let session = ClientSession::new(START, None, "id", &HashMap::new(), &[]);
    let token = cache.encode_at(&session, b"ab", KEY, START).unwrap();
    // The identity cipher leaves the zeroed tag as it is.
    assert_eq!(token.as_str(), "YWIAAAAAAAAAAAAAAAAAAAAA");
}

#[test]
fn decode_after_remove_opens_the_token() {
    let mut cache = identity_cache(30);
    let session = ClientSession::new(START, None, "id", &HashMap::new(), &[]);
    let plaintext = br#"{"id":"id"}"#;
    let token = cache.encode_at(&session, plaintext, KEY, START).unwrap();
    cache.remove(&token);
    assert_eq!(cache.size(), 0);
    match cache.decode(token.duplicate(), KEY).unwrap() {
        DecodedToken::Opened(bytes) => assert_eq!(bytes, plaintext.to_vec()),
        DecodedToken::Cached(_) => panic!("expected a cache miss"),
    }
    // Removing again is not an error.
    cache.remove(&token);
    assert_eq!(cache.size(), 0);
}

#[test]
fn decode_reports_decryption_failure_as_invalid_credentials() {
    let mut cache = LoginSessionCache::new().with_encrypter(IdentityCipher);
    let session = ClientSession::new(START, None, "id", &HashMap::new(), &[]);
    let token = cache.encode_at(&session, b"ab", KEY, START).unwrap();
    cache.remove(&token);
    // The decrypter refuses everything, as a wrong key would be refused.
    assert!(matches!(cache.decode(token, b"other key"), Err(Error::InvalidCredentials(_))));
}

#[test]
fn encode_fails_without_a_cipher() {
    let mut cache = LoginSessionCache::new();
    let session = ClientSession::new(START, None, "id", &HashMap::new(), &[]);
    let _: &LoginSessionCache<NoCipher, NoCipher> = &cache;
    assert!(cache.encode_at(&session, b"ab", KEY, START).is_err());
    assert_eq!(cache.size(), 0);
}

#[test]
fn encode_twice_with_same_token_replaces_entry() {
    let mut cache = identity_cache(30);
    let first = ClientSession::new(START, None, "first", &HashMap::new(), &[]);
    let second = ClientSession::new(START, None, "second", &HashMap::new(), &[]);
    let t1 = cache.encode_at(&first, b"same", KEY, START).unwrap();
    let t2 = cache.encode_at(&second, b"same", KEY, START + 5).unwrap();
    assert!(t1.same_as(&t2));
    assert_eq!(cache.size(), 1);
    assert_eq!(cached(cache.decode(t1, KEY).unwrap()).id, "second");
    // The replaced entry carries the later eviction time.
    cache.sweep_at(START + 30);
    assert_eq!(cache.size(), 1);
    cache.sweep_at(START + 35);
    assert_eq!(cache.size(), 0);
}

#[test]
fn cache_session_after_opening() {
    let mut cache = identity_cache(30);
    let token = Token::new(String::from("YWIAAAAAAAAAAAAAAAAAAAAA"));
    let session = ClientSession::new(START, None, "opened", &HashMap::new(), &[]);
    cache.cache_session_at(&token, &session, START);
    assert_eq!(cache.size(), 1);
    assert_eq!(cache.lookup_session(&token).unwrap().id, "opened");
}

#[test]
fn status_without_lifetime_is_active() {
    let session = ClientSession::new(START, None, "id", &HashMap::new(), &[]);
    assert_eq!(session.status_at(START + 1_000_000), SessionStatus::Active);
    assert_eq!(session.status(), SessionStatus::Active);
}

#[test]
fn status_follows_the_lifetime() {
    let session = ClientSession::new(START, Some(10), "id", &HashMap::new(), &[]);
    assert_eq!(session.status_at(START), SessionStatus::Active);
    assert_eq!(session.status_at(START + 5), SessionStatus::Active);
    assert_eq!(session.status_at(START + 6), SessionStatus::NeedsRefresh);
    assert_eq!(session.status_at(START + 10), SessionStatus::NeedsRefresh);
    assert_eq!(session.status_at(START + 11), SessionStatus::Expired);
    // A clock that reads before the start counts as no age.
    assert_eq!(session.status_at(START - 100), SessionStatus::Active);
}

#[test]
fn status_with_one_second_lifetime() {
    let session = ClientSession::new(START, Some(1), "id", &HashMap::new(), &[]);
    assert_eq!(session.status_at(START), SessionStatus::Active);
    assert_eq!(session.status_at(START + 1), SessionStatus::NeedsRefresh);
    assert_eq!(session.status_at(START + 2), SessionStatus::Expired);
}

#[test]
fn start_now_uses_the_clock() {
    let session = ClientSession::start_now("id", &HashMap::new(), &[], Some(60)).unwrap();
    assert!(session.start_time > START);
    assert_eq!(session.status(), SessionStatus::Active);
}

/// Adds the key bytes to the plaintext and uses the key, padded with zeros,
/// as the tag: enough to tell one key from another.
struct KeyedCipher;

fn keyed_tag(key: &[u8]) -> [u8; 16] {
    let mut tag = [0u8; 16];
    for (i, b) in key.iter().take(16).enumerate() {
        tag[i] = *b;
    }
    tag
}

impl krill::cipher::Encrypter for KeyedCipher {
    fn encrypt(&self, key: &[u8], plaintext: &[u8], tag: &mut [u8; 16]) -> Result<Vec<u8>, Error> {
        *tag = keyed_tag(key);
        Ok(plaintext.iter().enumerate().map(|(i, b)| b.wrapping_add(key[i % key.len()])).collect())
    }
}

impl krill::cipher::Decrypter for KeyedCipher {
    fn decrypt(&self, key: &[u8], ciphertext: &[u8], tag: &[u8]) -> Result<Vec<u8>, Error> {
        if tag != keyed_tag(key) {
            return Err(Error::Custom(String::from("tag mismatch")));
        }
        Ok(ciphertext.iter().enumerate().map(|(i, b)| b.wrapping_sub(key[i % key.len()])).collect())
    }
}

#[test]
fn decode_with_another_key_is_refused() {
    let mut cache = LoginSessionCache::new().with_encrypter(KeyedCipher).with_decrypter(KeyedCipher);
    let session = ClientSession::new(START, None, "id", &HashMap::new(), &[]);
    let token = cache.encode_at(&session, b"secret session", b"right key", START).unwrap();
    cache.remove(&token);
    assert!(matches!(cache.decode(token.duplicate(), b"wrong key"), Err(Error::InvalidCredentials(_))));
    match cache.decode(token, b"right key").unwrap() {
        DecodedToken::Opened(bytes) => assert_eq!(bytes, b"secret session".to_vec()),
        DecodedToken::Cached(_) => panic!("expected a cache miss"),
    }
}

#[test]
fn default_cache_is_empty_and_refuses_to_seal() {
    let mut cache: LoginSessionCache<NoCipher, NoCipher> = LoginSessionCache::default();
    assert_eq!(cache.size(), 0);
    let session = ClientSession::new(START, None, "id", &HashMap::new(), &[]);
    assert!(matches!(cache.encode_at(&session, b"ab", KEY, START), Err(Error::Custom(_))));
}

#[test]
fn status_from_without_clock_is_active() {
    let session = ClientSession::new(START, Some(10), "id", &HashMap::new(), &[]);
    assert_eq!(session.status_from(None), SessionStatus::Active);
    assert_eq!(session.status_from(Some(START + 11)), SessionStatus::Expired);
}

#[test]
fn open_token_skips_the_cache() {
    let mut cache = identity_cache(30);
    let session = ClientSession::new(START, None, "id", &HashMap::new(), &[]);
    let token = cache.encode_at(&session, b"ab", KEY, START).unwrap();
    match cache.open_token(&token, KEY).unwrap() {
        DecodedToken::Opened(bytes) => assert_eq!(bytes, b"ab".to_vec()),
        DecodedToken::Cached(_) => panic!("expected the token to be opened"),
    }
}

#[test]
fn encode_from_fails_only_without_a_clock_reading() {
    let mut cache = identity_cache(30);
    let session = ClientSession::new(START, None, "id", &HashMap::new(), &[]);
    assert!(matches!(cache.encode_from(&session, b"ab", KEY, None), Err(Error::Custom(_))));
    assert_eq!(cache.size(), 0);
    let token = cache.encode_from(&session, b"ab", KEY, Some(START)).unwrap();
    assert_eq!(token.as_str(), "YWIAAAAAAAAAAAAAAAAAAAAA");
    assert_eq!(cache.size(), 1);
    // Evicted at START + 30.
    cache.sweep_at(START + 29);
    assert_eq!(cache.size(), 1);
    cache.sweep_at(START + 30);
    assert_eq!(cache.size(), 0);
}
