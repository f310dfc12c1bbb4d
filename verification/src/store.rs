//! The durable user and token rows, modelled.
//!
//! The deployment keeps users and verified tokens in a relational
//! store; this module carries the row semantics the protocol relies on:
//! one row per user, created on the first token request for an unseen
//! uuid; row ids handed out in insertion order, never reused; at most
//! one verified token per user, the latest write winning.  The I/O that
//! persists the rows stays outside the crate — everything decided about
//! them is decided here.

use vstd::prelude::*;

verus! {

/// What one user row holds, as plain values.
pub struct UserEntry {
    pub id: u64,
    pub uuid: Seq<char>,
    pub token: Option<u64>,
}

/// True when row `i` carries `uuid`.
pub open spec fn uuid_at(s: Seq<UserEntry>, uuid: Seq<char>, i: int) -> bool {
    &&& 0 <= i < s.len()
    &&& s[i].uuid == uuid
}

/// True when some row carries `uuid`.
pub open spec fn uuid_known(s: Seq<UserEntry>, uuid: Seq<char>) -> bool {
    exists|i: int| uuid_at(s, uuid, i)
}

/// True when the store holds the verified credential `(user, value)`.
pub open spec fn token_verified(s: Seq<UserEntry>, user: u64, value: u64) -> bool {
    exists|i: int| 0 <= i < s.len() && (#[trigger] s[i]).id == user && s[i].token == Some(value)
}

struct UserRecord {
    id: u64,
    uuid: String,
    token: Option<u64>,
}

/// The model of one user row.
spec fn user_entry_of(r: UserRecord) -> UserEntry {
    UserEntry { id: r.id, uuid: r.uuid@, token: r.token }
}

/// The user table: stable identity rows plus each user's current
/// verified token, if any.
pub struct UserStore {
    users: Vec<UserRecord>,
}

/// Reinterprets a token value as the signed 64-bit integer of the same
/// bit pattern, the form a signed database column stores; the cast back
/// restores it exactly.
pub fn u64_to_i64(u: u64) -> (r: i64)
    ensures
        r == u as i64,
        r as u64 == u,
{
    proof {
        assert((u as i64) as u64 == u) by (bit_vector);
    }
    u as i64
}

/// Character-wise string equality.
pub(crate) fn str_eq(a: &str, b: &str) -> (r: bool)
    ensures
        r == (a@ == b@),
{
    let na = a.unicode_len();
    let nb = b.unicode_len();
    if na != nb {
        return false;
    }
    let mut i: usize = 0;
    while i < na
        invariant
            i <= na,
            na == a@.len(),
            na == b@.len(),
            forall|j: int| 0 <= j < i ==> a@[j] == b@[j],
        decreases na - i,
    {
        if a.get_char(i) != b.get_char(i) {
            return false;
        }
        i = i + 1;
    }
    proof {
        assert(a@ =~= b@);
    }
    true
}

impl UserStore {
    /// The rows, in insertion order.
    pub closed spec fn rows(self) -> Seq<UserEntry> {
        self.users@.map_values(|r: UserRecord| user_entry_of(r))
    }

    /// Row ids are the insertion positions, starting at 1 — so ids are
    /// unique and a user has at most one row, hence at most one current
    /// verified token.
    pub open spec fn wf(self) -> bool {
        forall|i: int| 0 <= i < self.rows().len() ==> (#[trigger] self.rows()[i]).id == i + 1
    }

    /// Creates an empty store.
    pub fn new() -> (s: UserStore)
        ensures
            s.wf(),
            s.rows() == Seq::<UserEntry>::empty(),
    {
        let s = UserStore { users: Vec::new() };
        proof {
            assert(s.rows() =~= Seq::<UserEntry>::empty());
        }
        s
    }

    /// Looks a uuid up.  Returns the id of the first row carrying it,
    /// and nothing exactly when no row does.
    pub fn find_user_id(&self, uuid: &str) -> (r: Option<u64>)
        ensures
            match r {
                Some(id) => exists|i: int|
                    {
                        &&& #[trigger] uuid_at(self.rows(), uuid@, i)
                        &&& forall|j: int| 0 <= j < i ==> !uuid_at(self.rows(), uuid@, j)
                        &&& id == self.rows()[i].id
                    },
                None => !uuid_known(self.rows(), uuid@),
            },
    {
        let n = self.users.len();
        let mut i: usize = 0;
        while i < n
            invariant
                i <= n,
                n == self.users@.len(),
                forall|j: int| 0 <= j < i ==> !uuid_at(self.rows(), uuid@, j),
            decreases n - i,
        {
            if str_eq(self.users[i].uuid.as_str(), uuid) {
                proof {
                    assert(uuid_at(self.rows(), uuid@, i as int));
                }
                return Some(self.users[i].id);
            }
            i = i + 1;
        }
        None
    }

    /// Creates a row for a fresh uuid and hands out the next id.
    pub fn insert_user(&mut self, uuid: &str) -> (id: u64)
        requires
            old(self).wf(),
            old(self).rows().len() < u64::MAX,
        ensures
            final(self).wf(),
            id == old(self).rows().len() + 1,
            final(self).rows() == old(self).rows().push(
                UserEntry { id, uuid: uuid@, token: None },
            ),
    {
        let id: u64 = (self.users.len() as u64) + 1;
        let rec = UserRecord { id, uuid: uuid.to_owned(), token: None };
        self.users.push(rec);
        proof {
            assert(final(self).rows() =~= old(self).rows().push(
                UserEntry { id, uuid: uuid@, token: None },
            ));
        }
        id
    }

    /// The id a token request runs under: the uuid's existing row, or a
    /// row created for it on first sight.
    pub fn find_or_create_user(&mut self, uuid: &str) -> (id: u64)
        requires
            old(self).wf(),
            old(self).rows().len() < u64::MAX,
        ensures
            final(self).wf(),
            uuid_known(old(self).rows(), uuid@) ==> *final(self) == *old(self) && exists|i: int|
                {
                    &&& #[trigger] uuid_at(final(self).rows(), uuid@, i)
                    &&& forall|j: int| 0 <= j < i ==> !uuid_at(final(self).rows(), uuid@, j)
                    &&& id == final(self).rows()[i].id
                },
            !uuid_known(old(self).rows(), uuid@) ==> id == old(self).rows().len() + 1
                && final(self).rows() == old(self).rows().push(
                UserEntry { id, uuid: uuid@, token: None },
            ),
    {
        match self.find_user_id(uuid) {
            Some(id) => id,
            None => self.insert_user(uuid),
        }
    }

    /// Writes `value` as `user`'s current verified token, replacing any
    /// prior one.  Reports whether a row was updated: exactly when the
    /// user exists.
    pub fn update_token(&mut self, user: u64, value: u64) -> (updated: bool)
        requires
            old(self).wf(),
        ensures
            final(self).wf(),
            updated <==> 1 <= user <= old(self).rows().len(),
            updated ==> final(self).rows() == old(self).rows().update(
                user - 1,
                UserEntry {
                    id: user,
                    uuid: old(self).rows()[user - 1].uuid,
                    token: Some(value),
                },
            ),
            !updated ==> *final(self) == *old(self),
    {
        if user >= 1 && user <= self.users.len() as u64 {
            let idx: usize = (user - 1) as usize;
            self.users[idx].token = Some(value);
            proof {
                assert(final(self).rows() =~= old(self).rows().update(
                    user - 1,
                    UserEntry {
                        id: user,
                        uuid: old(self).rows()[user - 1].uuid,
                        token: Some(value),
                    },
                ));
            }
            true
        } else {
            false
        }
    }

    /// A promoted credential is held, alone: after the upsert that a
    /// confirmed verification writes, the store verifies exactly the new
    /// `(user, value)` pair — the fast path of every later request — and
    /// no other value for that user, so a user has at most one current
    /// verified token and a new one supersedes the old.
    pub proof fn lemma_upsert_verifies(self, user: u64, value: u64)
        requires
            self.wf(),
            1 <= user <= self.rows().len(),
        ensures
            ({
                let updated = self.rows().update(
                    user - 1,
                    UserEntry { id: user, uuid: self.rows()[user - 1].uuid, token: Some(value) },
                );
                &&& token_verified(updated, user, value)
                &&& forall|w: u64| w != value ==> !token_verified(updated, user, w)
            }),
    {
        let updated = self.rows().update(
            user - 1,
            UserEntry { id: user, uuid: self.rows()[user - 1].uuid, token: Some(value) },
        );
        assert(updated[user - 1].id == user && updated[user - 1].token == Some(value));
        assert forall|w: u64| w != value implies !token_verified(updated, user, w) by {
            assert forall|i: int|
                0 <= i < updated.len() && (#[trigger] updated[i]).id == user implies updated[i].token
                != Some(w) by {
                if i != user - 1 {
                    assert(updated[i] == self.rows()[i]);
                    assert(self.rows()[i].id == i + 1);
                }
            }
        }
    }

    /// A row created for a previously unseen uuid is the one later
    /// requests find: in the grown store that uuid's first (and only)
    /// row is the new one, carrying the fresh id and no verified token.
    pub proof fn lemma_fresh_row_found(self, uuid: Seq<char>, id: u64)
        requires
            !uuid_known(self.rows(), uuid),
            id == self.rows().len() + 1,
        ensures
            ({
                let grown = self.rows().push(UserEntry { id, uuid, token: None });
                &&& uuid_at(grown, uuid, grown.len() - 1)
                &&& grown[grown.len() - 1].id == id
                &&& grown[grown.len() - 1].token is None
                &&& forall|j: int| 0 <= j < grown.len() - 1 ==> !uuid_at(grown, uuid, j)
            }),
    {
        let grown = self.rows().push(UserEntry { id, uuid, token: None });
        assert forall|j: int| 0 <= j < grown.len() - 1 implies !uuid_at(grown, uuid, j) by {
            if uuid_at(grown, uuid, j) {
                assert(grown[j] == self.rows()[j]);
                assert(uuid_at(self.rows(), uuid, j));
            }
        }
    }

    /// True exactly when the store holds the verified credential
    /// `(user, value)`: the cheap path of every authenticated request.
    pub fn verify_token(&self, user: u64, value: u64) -> (b: bool)
        requires
            self.wf(),
        ensures
            b == token_verified(self.rows(), user, value),
    {
        if user >= 1 && user <= self.users.len() as u64 {
            let idx: usize = (user - 1) as usize;
            let hit = match self.users[idx].token {
                Some(t) => t == value,
                None => false,
            };
            proof {
                if hit {
                    assert(self.rows()[idx as int].id == user);
                    assert(token_verified(self.rows(), user, value));
                } else {
                    assert forall|i: int|
                        0 <= i < self.rows().len() && (#[trigger] self.rows()[i]).id
                            == user implies self.rows()[i].token != Some(value) by {
                        assert(self.rows()[i].id == i + 1);
                    }
                }
            }
            hit
        } else {
            proof {
                assert forall|i: int|
                    0 <= i < self.rows().len() implies (#[trigger] self.rows()[i]).id != user by {
                    assert(self.rows()[i].id == i + 1);
                }
            }
            false
        }
    }
}

} // verus!
