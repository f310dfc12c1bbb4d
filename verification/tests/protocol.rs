use chestlog::auth::authenticate_local;
use chestlog::auth::issue_token;
use chestlog::auth::judge_authority;
use chestlog::auth::AuthDecision;
use chestlog::auth::AuthFailure;
use chestlog::auth::AuthorityReply;
use chestlog::auth::StoreAnswer;
use chestlog::codec::parse_token;
use chestlog::store::u64_to_i64;
use chestlog::store::UserStore;
use chestlog::token::UnverifiedTokenCache;

fn store_answer(store: &UserStore, user: u64, value: u64) -> StoreAnswer {
    if store.verify_token(user, value) {
        StoreAnswer::Verified
    } else {
        StoreAnswer::NotVerified
    }
}

#[test]
fn new_uuid_creates_user_and_token_roundtrips() {
    // Scenario: a token request for a never-seen uuid creates a user row,
    // issues a token, and the encoded string decodes to the same pair.
    let mut store = UserStore::new();
    let mut cache = UnverifiedTokenCache::new(10_000);
    assert_eq!(store.find_user_id("some-uuid"), None);
    let user = store.find_or_create_user("some-uuid");
    assert_eq!(user, 1);
    assert_eq!(store.find_user_id("some-uuid"), Some(1));
    let raw = issue_token(&mut cache, user, "steve".into(), 0);
    let decoded = parse_token(&raw);
    assert!(decoded.is_some());
    let (decoded_user, value) = decoded.unwrap();
    assert_eq!(decoded_user, user);
    assert_eq!(cache.verify(user, value, 1), Some("steve".into()));
}

#[test]
fn existing_uuid_reuses_user_row() {
    let mut store = UserStore::new();
    let first = store.find_or_create_user("uuid-a");
    let second = store.find_or_create_user("uuid-b");
    assert_eq!(first, 1);
    assert_eq!(second, 2);
    assert_eq!(store.find_or_create_user("uuid-a"), 1);
    assert_eq!(store.find_or_create_user("uuid-b"), 2);
}

#[test]
fn unknown_pair_is_forbidden() {
    // Scenario: authenticating with a pair that was never generated fails
    // with Forbidden.
    let store = UserStore::new();
    let mut cache = UnverifiedTokenCache::new(10_000);
    let d = authenticate_local(store_answer(&store, 42, 7), &mut cache, 42, 7, 0);
    assert!(matches!(d, AuthDecision::Refused(AuthFailure::Forbidden)));
}

#[test]
fn denied_by_authority_burns_the_token() {
    // Scenario: the pair waits in the cache, the authority denies; the
    // attempt is Forbidden and the pair is consumed for good.
    let mut store = UserStore::new();
    let mut cache = UnverifiedTokenCache::new(10_000);
    let user = store.find_or_create_user("uuid-c");
    let value = cache.generate(user, "herobrine".into(), 0);

    let d = authenticate_local(store_answer(&store, user, value), &mut cache, user, value, 1);
    let name = match d {
        AuthDecision::Confirm(name) => name,
        _ => panic!("expected the cache to hold the pair"),
    };
    assert_eq!(name, "herobrine");
    let outcome = judge_authority(AuthorityReply::Status(204));
    assert_eq!(outcome, Err(AuthFailure::Forbidden));

    // The entry was consumed by the lookup: a second attempt finds nothing.
    let d = authenticate_local(store_answer(&store, user, value), &mut cache, user, value, 2);
    assert!(matches!(d, AuthDecision::Refused(AuthFailure::Forbidden)));
}

#[test]
fn confirmed_token_is_promoted_and_fast_path_works() {
    // Scenario: the authority confirms; the pair is promoted into the
    // durable store and a second authenticate succeeds without any
    // authority call.
    let mut store = UserStore::new();
    let mut cache = UnverifiedTokenCache::new(10_000);
    let user = store.find_or_create_user("uuid-d");
    let value = cache.generate(user, "notch".into(), 0);

    let d = authenticate_local(store_answer(&store, user, value), &mut cache, user, value, 1);
    assert!(matches!(d, AuthDecision::Confirm(_)));
    assert_eq!(judge_authority(AuthorityReply::Status(200)), Ok(()));
    assert!(store.update_token(user, value));

    // Fast path: the store answers Verified, the cache is not consulted.
    let d = authenticate_local(store_answer(&store, user, value), &mut cache, user, value, 2);
    assert!(matches!(d, AuthDecision::Granted));
}

#[test]
fn unreachable_authority_is_not_forbidden() {
    assert_eq!(
        judge_authority(AuthorityReply::Unreachable),
        Err(AuthFailure::AuthorityUnavailable)
    );
}

#[test]
fn store_failure_is_a_storage_error() {
    let mut cache = UnverifiedTokenCache::new(10_000);
    let d = authenticate_local(StoreAnswer::Failed, &mut cache, 1, 2, 0);
    assert!(matches!(d, AuthDecision::Refused(AuthFailure::StorageError)));
}

#[test]
fn latest_verified_token_wins() {
    let mut store = UserStore::new();
    let user = store.find_or_create_user("uuid-e");
    assert!(store.update_token(user, 111));
    assert!(store.verify_token(user, 111));
    assert!(store.update_token(user, 222));
    assert!(!store.verify_token(user, 111));
    assert!(store.verify_token(user, 222));
}

#[test]
fn update_token_reports_missing_user() {
    let mut store = UserStore::new();
    assert!(!store.update_token(3, 999));
    assert!(!store.verify_token(3, 999));
}

#[test]
fn token_db_integer_roundtrip() {
    assert_eq!(u64_to_i64(0), 0);
    assert_eq!(u64_to_i64(42), 42);
    assert_eq!(u64_to_i64(u64::MAX), -1);
    assert_eq!(u64_to_i64(1u64 << 63), i64::MIN);
    assert_eq!(u64_to_i64(u64::MAX) as u64, u64::MAX);
}

#[test]
fn failure_codes_and_reasons() {
    assert_eq!(AuthFailure::Forbidden.status_code(), 403);
    assert_eq!(AuthFailure::StorageError.status_code(), 500);
    assert_eq!(AuthFailure::AuthorityUnavailable.status_code(), 503);
    assert_eq!(AuthFailure::Forbidden.reason(), "Forbidden.");
    assert_eq!(AuthFailure::StorageError.reason(), "Database error.");
    assert_eq!(
        AuthFailure::AuthorityUnavailable.reason(),
        "Minecraft Session Server is down, please try again later."
    );
}
