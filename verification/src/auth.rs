//! The two-phase verification protocol.
//!
//! Every protected operation presents an encoded `(user, value)`
//! credential.  The verifier consults the durable token store first (the
//! cheap path for a client that already promoted its token), falls back
//! to the ephemeral cache, and only then asks the identity authority;
//! a confirmed token is promoted into the durable store and the cached
//! entry — already consumed by the lookup — is gone for good.
//!
//! The store query, the authority call and the promotion write are I/O
//! and happen outside this crate; their outcomes come back in as plain
//! answers, and every decision taken on them is made — and verified —
//! here.

use vstd::prelude::*;
use crate::token::UnverifiedTokenCache;
use crate::token::TokenEntry;
use crate::token::live_entries;
use crate::token::match_at;
use crate::token::has_match;
use crate::codec::encode_token;
use crate::codec::lemma_token_roundtrip;
use crate::codec::token_chars;
use crate::codec::is_token;
use crate::codec::token_user;
use crate::codec::token_value;

verus! {

/// Why a verification attempt failed.  The caller may retry
/// `AuthorityUnavailable` with backoff; `Forbidden` is final; a
/// `StorageError` is fatal for the request alone.
#[derive(Clone, Copy, Debug, PartialEq, Eq, Structural)]
pub enum AuthFailure {
    /// The credential was never issued, expired, was already consumed,
    /// or the authority denied it.  The sub-cause is never disclosed.
    Forbidden,
    /// The identity authority could neither confirm nor deny.
    AuthorityUnavailable,
    /// The persistence layer failed.
    StorageError,
}

impl AuthFailure {
    /// The HTTP status this failure maps to.
    pub open spec fn status_spec(self) -> u16 {
        match self {
            AuthFailure::Forbidden => 403,
            AuthFailure::AuthorityUnavailable => 503,
            AuthFailure::StorageError => 500,
        }
    }

    /// Maps the failure to its HTTP status code.
    pub fn status_code(&self) -> (s: u16)
        ensures
            s == self.status_spec(),
    {
        match self {
            AuthFailure::Forbidden => 403,
            AuthFailure::AuthorityUnavailable => 503,
            AuthFailure::StorageError => 500,
        }
    }

    /// The reason phrase reported to the client.
    pub fn reason(&self) -> (r: &'static str)
        ensures
            self is Forbidden ==> r@ == "Forbidden."@,
            self is StorageError ==> r@ == "Database error."@,
            self is AuthorityUnavailable ==> r@
                == "Minecraft Session Server is down, please try again later."@,
    {
        match self {
            AuthFailure::Forbidden => "Forbidden.",
            AuthFailure::AuthorityUnavailable => "Minecraft Session Server is down, please try again later.",
            AuthFailure::StorageError => "Database error.",
        }
    }
}

/// What the durable token store answered about a credential.
#[derive(Clone, Copy, Debug, PartialEq, Eq, Structural)]
pub enum StoreAnswer {
    /// The store holds this exact `(user, value)` pair.
    Verified,
    /// The store does not hold the pair.
    NotVerified,
    /// The store could not be queried.
    Failed,
}

/// What came back from the identity authority.
#[derive(Clone, Copy, Debug, PartialEq, Eq, Structural)]
pub enum AuthorityReply {
    /// The authority answered with this HTTP status.
    Status(u16),
    /// The authority could not be reached or errored in transport.
    Unreachable,
}

/// What the local phase of verification decided.
#[derive(Debug)]
pub enum AuthDecision {
    /// The durable store already holds the credential: accept at once.
    Granted,
    /// Reject the caller with this failure.
    Refused(AuthFailure),
    /// The credential was waiting in the ephemeral cache, bound to this
    /// username; it is now consumed, and the caller must ask the
    /// authority to confirm before granting anything.
    Confirm(String),
}

/// The local phase: decides as far as the durable store's answer and the
/// ephemeral cache reach.  A store hit grants at once and leaves the
/// cache untouched, as does a store failure; only on a clean store miss
/// is the cache consulted — and a cache hit consumes its entry whatever
/// the authority later says.
pub fn authenticate_local(
    store: StoreAnswer,
    cache: &mut UnverifiedTokenCache,
    user: u64,
    value: u64,
    now: u64,
) -> (d: AuthDecision)
    requires
        old(cache).wf(),
    ensures
        final(cache).wf(),
        final(cache).ttl() == old(cache).ttl(),
        store is Verified ==> d is Granted && *final(cache) == *old(cache),
        store is Failed ==> d == AuthDecision::Refused(AuthFailure::StorageError) && *final(cache)
            == *old(cache),
        store is NotVerified ==> ({
            let cleaned = live_entries(old(cache).entries(), old(cache).ttl(), now);
            match d {
                AuthDecision::Granted => false,
                AuthDecision::Refused(f) => {
                    &&& f is Forbidden
                    &&& !has_match(cleaned, user, value)
                    &&& final(cache).entries() == cleaned
                },
                AuthDecision::Confirm(name) => exists|i: int|
                    {
                        &&& #[trigger] match_at(cleaned, user, value, i)
                        &&& forall|j: int| 0 <= j < i ==> !match_at(cleaned, user, value, j)
                        &&& name@ == cleaned[i].username
                        &&& final(cache).entries() == cleaned.remove(i)
                    },
            }
        }),
{
    match store {
        StoreAnswer::Verified => AuthDecision::Granted,
        StoreAnswer::Failed => AuthDecision::Refused(AuthFailure::StorageError),
        StoreAnswer::NotVerified => {
            match cache.verify(user, value, now) {
                Some(name) => AuthDecision::Confirm(name),
                None => AuthDecision::Refused(AuthFailure::Forbidden),
            }
        },
    }
}

/// Issues a fresh token for a user: a random value is bound to
/// `(user, username)` in the ephemeral cache and handed back encoded as
/// the wire string the client will present from now on.  Decoding that
/// string recovers exactly the pair the cache now holds.
pub fn issue_token(cache: &mut UnverifiedTokenCache, user: u64, username: String, now: u64) -> (r:
    String)
    requires
        old(cache).wf(),
        forall|i: int|
            0 <= i < old(cache).entries().len() ==> (#[trigger] old(cache).entries()[i]).created
                <= now,
    ensures
        final(cache).wf(),
        final(cache).ttl() == old(cache).ttl(),
        exists|v: u64|
            {
                &&& r@ == #[trigger] token_chars(user, v)
                &&& is_token(r@)
                &&& token_user(r@) == user
                &&& token_value(r@) == v
                &&& final(cache).entries() == live_entries(
                    old(cache).entries().push(
                        TokenEntry { user, username: username@, value: v, created: now },
                    ),
                    old(cache).ttl(),
                    now,
                )
            },
{
    let value = cache.generate(user, username, now);
    let r = encode_token(user, value);
    proof {
        lemma_token_roundtrip(user, value);
    }
    r
}

/// The authority phase: HTTP 200 confirms the credential — and nothing
/// else does.  Any other status is a denial, reported like every other
/// bad credential; an unreachable authority is reported as such, since
/// the identity could neither be confirmed nor denied.  `Ok` tells the
/// caller to promote the credential into the durable store and grant.
pub fn judge_authority(reply: AuthorityReply) -> (r: Result<(), AuthFailure>)
    ensures
        r is Ok <==> reply == AuthorityReply::Status(200u16),
        reply is Unreachable ==> r == Err::<(), AuthFailure>(AuthFailure::AuthorityUnavailable),
        reply is Status && reply->Status_0 != 200 ==> r == Err::<(), AuthFailure>(
            AuthFailure::Forbidden,
        ),
{
    match reply {
        AuthorityReply::Status(200u16) => Ok(()),
        AuthorityReply::Status(_) => Err(AuthFailure::Forbidden),
        AuthorityReply::Unreachable => Err(AuthFailure::AuthorityUnavailable),
    }
}

} // verus!
