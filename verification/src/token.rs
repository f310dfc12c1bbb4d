//! The ephemeral token cache.
//!
//! Tokens issued to clients wait here, bound to a user id and a username,
//! until the identity authority confirms them.  Every entry carries its
//! creation time; an entry older than the cache's time-to-live is evicted
//! and can never be verified again.  A successful `verify` consumes its
//! entry, so a given token can be promoted at most once.
//!
//! Time enters as an explicit millisecond reading taken by the caller,
//! which must be nondecreasing across calls: entries then sit in creation
//! order and eviction only ever drops a prefix of stale entries.

use vstd::prelude::*;

verus! {

/// What one cached token holds, as plain values: the mathematical model
/// of an entry.
pub struct TokenEntry {
    pub user: u64,
    pub username: Seq<char>,
    pub value: u64,
    pub created: u64,
}

/// True while an entry is within its time-to-live at clock reading `now`.
pub open spec fn live(e: TokenEntry, timeout: u64, now: u64) -> bool {
    e.created + timeout >= now
}

/// The entries that survive an eviction pass at clock reading `now`,
/// in their original order.
pub open spec fn live_entries(s: Seq<TokenEntry>, timeout: u64, now: u64) -> Seq<TokenEntry> {
    s.filter(|e: TokenEntry| live(e, timeout, now))
}

/// True when the entry at index `i` carries the credential `(user, value)`.
pub open spec fn match_at(s: Seq<TokenEntry>, user: u64, value: u64, i: int) -> bool {
    &&& 0 <= i < s.len()
    &&& s[i].user == user
    &&& s[i].value == value
}

/// True when some entry carries the credential `(user, value)`.
pub open spec fn has_match(s: Seq<TokenEntry>, user: u64, value: u64) -> bool {
    exists|i: int| match_at(s, user, value, i)
}

struct UnverifiedToken {
    created: u64,
    user: u64,
    username: String,
    value: u64,
}

/// An in-process, time-bounded store of tokens awaiting confirmation.
pub struct UnverifiedTokenCache {
    timeout: u64,
    cache: Vec<UnverifiedToken>,
}

/// The model of one stored token.
spec fn entry_of(t: UnverifiedToken) -> TokenEntry {
    TokenEntry { user: t.user, username: t.username@, value: t.value, created: t.created }
}

/// Relies on `rand::random`: draws a 64-bit value from the thread-local
/// generator.  Nothing is promised of the result.
#[verifier::external_body]
fn random_u64() -> u64 {
    rand::random()
}

impl UnverifiedTokenCache {
    /// The cache's time-to-live in milliseconds.
    pub closed spec fn ttl(self) -> u64 {
        self.timeout
    }

    /// The cached entries, oldest first.
    pub closed spec fn entries(self) -> Seq<TokenEntry> {
        self.cache@.map_values(|t: UnverifiedToken| entry_of(t))
    }

    /// Entries sit in nondecreasing creation order.
    pub closed spec fn wf(self) -> bool {
        forall|i: int, j: int|
            0 <= i <= j < self.cache@.len() ==> self.cache@[i].created <= self.cache@[j].created
    }

    /// Creates an empty cache whose entries live `timeout` milliseconds.
    pub fn new(timeout: u64) -> (c: UnverifiedTokenCache)
        ensures
            c.wf(),
            c.ttl() == timeout,
            c.entries() == Seq::<TokenEntry>::empty(),
    {
        let c = UnverifiedTokenCache { timeout, cache: Vec::new() };
        proof {
            assert(c.entries() =~= Seq::<TokenEntry>::empty());
        }
        c
    }

    /// Evicts every entry whose age exceeds the time-to-live: exactly the
    /// live entries remain, in order.
    pub fn clean_up(&mut self, now: u64)
        requires
            old(self).wf(),
        ensures
            final(self).wf(),
            final(self).ttl() == old(self).ttl(),
            final(self).entries() == live_entries(old(self).entries(), old(self).ttl(), now),
    {
        let ghost orig = self.cache@;
        let ghost orig_entries = old(self).entries();
        let ghost mut dropped: int = 0;
        while self.cache.len() > 0 && now > self.cache[0].created && now - self.cache[0].created
            > self.timeout
            invariant
                0 <= dropped <= orig.len(),
                self.cache@ == orig.skip(dropped),
                self.timeout == old(self).timeout,
                forall|j: int| 0 <= j < dropped ==> !live(entry_of(#[trigger] orig[j]), old(self).timeout, now),
                forall|i: int, j: int|
                    0 <= i <= j < orig.len() ==> orig[i].created <= orig[j].created,
            decreases self.cache@.len(),
        {
            proof {
                assert(self.cache@[0] == orig[dropped]);
            }
            self.cache.remove(0);
            proof {
                assert(self.cache@ =~= orig.skip(dropped + 1));
                dropped = dropped + 1;
            }
        }
        proof {
            assert(self.wf());
            assert forall|j: int| dropped <= j < orig.len() implies live(
                entry_of(#[trigger] orig[j]),
                old(self).timeout,
                now,
            ) by {
                if self.cache@.len() > 0 {
                    assert(orig[dropped] == self.cache@[0]);
                    assert(orig[dropped].created <= orig[j].created);
                }
            }
            assert(orig_entries == orig.map_values(|t: UnverifiedToken| entry_of(t)));
            assert(self.entries() =~= orig_entries.skip(dropped));
            lemma_dead_prefix_filter(orig_entries, old(self).timeout, now, dropped);
        }
    }

    /// Creates a token bound to `(user, username)`, stamps it with the
    /// caller's clock reading, stores it, and runs an eviction pass.
    /// Returns the token's fresh random value.
    pub fn generate(&mut self, user: u64, username: String, now: u64) -> (value: u64)
        requires
            old(self).wf(),
            forall|i: int|
                0 <= i < old(self).entries().len() ==> (#[trigger] old(self).entries()[i]).created
                    <= now,
        ensures
            final(self).wf(),
            final(self).ttl() == old(self).ttl(),
            final(self).entries() == live_entries(
                old(self).entries().push(
                    TokenEntry { user, username: username@, value, created: now },
                ),
                old(self).ttl(),
                now,
            ),
    {
        let value = random_u64();
        let ghost e = TokenEntry { user, username: username@, value, created: now };
        let token = UnverifiedToken { created: now, user, username, value };
        proof {
            assert(entry_of(token) == e);
        }
        self.cache.push(token);
        proof {
            assert(self.entries() =~= old(self).entries().push(e));
            assert forall|i: int, j: int| 0 <= i <= j < self.cache@.len() implies self.cache@[i].created
                <= self.cache@[j].created by {
                if j < self.cache@.len() - 1 {
                    assert(self.cache@[i] == old(self).cache@[i]);
                    assert(self.cache@[j] == old(self).cache@[j]);
                } else if i < j {
                    assert(self.cache@[i] == old(self).cache@[i]);
                    assert(old(self).entries()[i].created <= now);
                }
            }
        }
        self.clean_up(now);
        value
    }

    /// True when nothing is cached.
    pub fn is_empty(&self) -> (b: bool)
        ensures
            b == (self.entries().len() == 0),
    {
        self.cache.len() == 0
    }

    /// How many tokens are cached.
    pub fn len(&self) -> (n: usize)
        ensures
            n == self.entries().len(),
    {
        self.cache.len()
    }

    /// Runs an eviction pass, then looks the credential `(user, token)` up.
    /// On a hit the first matching entry is removed — a token verifies at
    /// most once — and its bound username is returned.  On a miss the
    /// cache is left cleaned and nothing is returned; a caller cannot
    /// tell never-issued, expired and already-consumed apart.
    pub fn verify(&mut self, user: u64, token: u64, now: u64) -> (r: Option<String>)
        requires
            old(self).wf(),
        ensures
            final(self).wf(),
            final(self).ttl() == old(self).ttl(),
            ({
                let cleaned = live_entries(old(self).entries(), old(self).ttl(), now);
                match r {
                    Some(name) => exists|i: int|
                        {
                            &&& #[trigger] match_at(cleaned, user, token, i)
                            &&& forall|j: int| 0 <= j < i ==> !match_at(cleaned, user, token, j)
                            &&& name@ == cleaned[i].username
                            &&& final(self).entries() == cleaned.remove(i)
                        },
                    None => !has_match(cleaned, user, token) && final(self).entries() == cleaned,
                }
            }),
    {
        self.clean_up(now);
        let ghost cleaned = self.entries();
        let mut i: usize = 0;
        while i < self.cache.len()
            invariant
                i <= self.cache@.len(),
                self.wf(),
                self.ttl() == old(self).ttl(),
                cleaned == self.entries(),
                cleaned == live_entries(old(self).entries(), old(self).ttl(), now),
                forall|j: int| 0 <= j < i ==> !match_at(cleaned, user, token, j),
            decreases self.cache@.len() - i,
        {
            if self.cache[i].user == user && self.cache[i].value == token {
                proof {
                    assert(match_at(cleaned, user, token, i as int));
                }
                let t = self.cache.remove(i);
                proof {
                    assert(self.entries() =~= cleaned.remove(i as int));
                    assert(self.wf());
                }
                return Some(t.username);
            }
            i = i + 1;
        }
        proof {
            assert(!has_match(cleaned, user, token));
        }
        None
    }
}

/// Exactly the live entries remain when eviction drops a stale prefix:
/// filtering a sequence whose first `k` entries are dead and whose rest
/// are live keeps precisely that rest.
proof fn lemma_dead_prefix_filter(s: Seq<TokenEntry>, timeout: u64, now: u64, k: int)
    requires
        0 <= k <= s.len(),
        forall|j: int| 0 <= j < k ==> !live(#[trigger] s[j], timeout, now),
        forall|j: int| k <= j < s.len() ==> live(#[trigger] s[j], timeout, now),
    ensures
        live_entries(s, timeout, now) == s.skip(k),
    decreases s.len(),
{
    reveal(Seq::filter);
    if s.len() == 0 {
        assert(s.skip(k) =~= s);
    } else if k == s.len() {
        assert(!live(s.last(), timeout, now));
        lemma_dead_prefix_filter(s.drop_last(), timeout, now, k - 1);
        assert(live_entries(s, timeout, now) =~= s.skip(k));
    } else {
        assert(live(s.last(), timeout, now));
        lemma_dead_prefix_filter(s.drop_last(), timeout, now, k);
        assert(s.skip(k) =~= s.drop_last().skip(k).push(s.last()));
        assert(live_entries(s, timeout, now) =~= s.skip(k));
    }
}

/// A freshly generated token verifies exactly once.  When a credential
/// absent from the cache is bound to a new entry stamped `now` — what
/// `generate` does, provided the random value collides with no entry
/// already present — the cleaned cache holds exactly one match for it:
/// the new entry, which survives the eviction pass at `now`.  A lookup
/// finds it, returns its bound username, and its removal — what a
/// successful `verify` performs — leaves no match, so a second lookup
/// of the same pair finds nothing.
pub proof fn lemma_generate_then_verify(s: Seq<TokenEntry>, e: TokenEntry, timeout: u64, now: u64)
    requires
        !has_match(s, e.user, e.value),
        e.created == now,
    ensures
        ({
            let after = live_entries(s.push(e), timeout, now);
            &&& after == live_entries(s, timeout, now).push(e)
            &&& match_at(after, e.user, e.value, after.len() - 1)
            &&& after[after.len() - 1].username == e.username
            &&& forall|j: int| 0 <= j < after.len() - 1 ==> !match_at(after, e.user, e.value, j)
            &&& !has_match(after.remove(after.len() - 1), e.user, e.value)
        }),
{
    let p = |x: TokenEntry| live(x, timeout, now);
    let cleaned = live_entries(s, timeout, now);
    let after = live_entries(s.push(e), timeout, now);
    s.lemma_filter_push(e, p);
    assert(live(e, timeout, now));
    assert(after == cleaned.push(e));
    assert forall|j: int| 0 <= j < after.len() - 1 implies !match_at(after, e.user, e.value, j) by {
        if match_at(after, e.user, e.value, j) {
            assert(after[j] == cleaned[j]);
            s.lemma_filter_pred(p, j);
            s.lemma_filter_contains_rev(p, cleaned[j]);
            let k = choose|k: int| 0 <= k < s.len() && s[k] == cleaned[j];
            assert(match_at(s, e.user, e.value, k));
        }
    }
    assert(match_at(after, e.user, e.value, after.len() - 1));
    lemma_single_use(after, e.user, e.value, after.len() - 1);
}

/// A token verifies at most once: when a credential matches exactly one
/// entry, removing that entry leaves no match, so a second lookup of the
/// same pair finds nothing.
pub proof fn lemma_single_use(s: Seq<TokenEntry>, user: u64, value: u64, i: int)
    requires
        match_at(s, user, value, i),
        forall|j: int| 0 <= j < s.len() && j != i ==> !match_at(s, user, value, j),
    ensures
        !has_match(s.remove(i), user, value),
{
    let t = s.remove(i);
    s.remove_ensures(i);
    assert forall|j: int| 0 <= j < t.len() implies !match_at(t, user, value, j) by {
        if match_at(t, user, value, j) {
            if j < i {
                assert(t[j] == s[j]);
                assert(match_at(s, user, value, j));
            } else {
                assert(t[j] == s[j + 1]);
                assert(match_at(s, user, value, j + 1));
            }
        }
    }
}

/// An entry whose age exceeds the time-to-live is unreachable: when every
/// entry carrying a credential is stale at `now`, an eviction pass at
/// `now` leaves no match for it — whether or not any explicit clean-up
/// ran earlier.
pub proof fn lemma_expired_unreachable(
    s: Seq<TokenEntry>,
    timeout: u64,
    now: u64,
    user: u64,
    value: u64,
)
    requires
        forall|i: int| match_at(s, user, value, i) ==> (#[trigger] s[i]).created + timeout < now,
    ensures
        !has_match(live_entries(s, timeout, now), user, value),
{
    let f = live_entries(s, timeout, now);
    assert forall|i: int| 0 <= i < f.len() implies !match_at(f, user, value, i) by {
        if match_at(f, user, value, i) {
            s.lemma_filter_pred(|e: TokenEntry| live(e, timeout, now), i);
            assert(live(f[i], timeout, now));
            s.lemma_filter_contains_rev(|e: TokenEntry| live(e, timeout, now), f[i]);
            let j = choose|j: int| 0 <= j < s.len() && s[j] == f[i];
            assert(match_at(s, user, value, j));
        }
    }
}

} // verus!
