//! User records, password hashing, and account operations.

use vstd::prelude::*;

use crate::error::Error;
use crate::mutations::{AuthenticateUser, RegisterUser};
use crate::queues::Queue;
use crate::store::{first_user_by_handle, has_user_by_handle, Store, MAX_STORE_ID};
use crate::types::DateTime;

verus! {

/// A stored user account.  The guest value stands in when nobody is signed
/// in.
#[derive(Debug)]
pub struct User {
    pub created_at: DateTime,
    pub handle: String,
    pub id: i64,
    pub is_admin: bool,
    pub is_anonymous: bool,
    pub last_login: Option<DateTime>,
    pub hashed_password: String,
    pub updated_at: DateTime,
}

impl Clone for User {
    /// A clone carries the same fields.
    fn clone(&self) -> (r: Self)
        ensures
            r == *self,
    {
        User {
            created_at: self.created_at,
            handle: self.handle.clone(),
            id: self.id,
            is_admin: self.is_admin,
            is_anonymous: self.is_anonymous,
            last_login: self.last_login,
            hashed_password: self.hashed_password.clone(),
            updated_at: self.updated_at,
        }
    }
}

impl Default for User {
    /// An empty, non-anonymous account with blank fields.
    fn default() -> (r: Self)
        ensures
            r.handle@.len() == 0,
            r.id == 0,
            !r.is_admin,
            !r.is_anonymous,
            r.last_login is None,
            r.hashed_password@.len() == 0,
            r.created_at.wf(),
            r.updated_at.wf(),
    {
        User {
            created_at: DateTime::now(),
            handle: String::new(),
            id: 0,
            is_admin: false,
            is_anonymous: false,
            last_login: None,
            hashed_password: String::new(),
            updated_at: DateTime::now(),
        }
    }
}

/// Names what `argon2::hash_encoded` (the reference implementation's
/// configuration, `Config::original`) yields for a password and salt: the
/// encoded hash string, or `None` when hashing fails.
pub uninterp spec fn argon2_hash_of(password: Seq<char>, salt: Seq<u8>) -> Option<Seq<char>>;

/// Names what `argon2::verify_encoded` yields for an encoded hash and a
/// password: whether they match, or `None` when the hash cannot be decoded.
pub uninterp spec fn argon2_verify_of(encoded: Seq<char>, password: Seq<char>) -> Option<bool>;

/// Relies on `rand::Rng::gen` over the thread-local generator to draw a
/// fresh 32-byte salt; only its length is promised.
#[verifier::external_body]
fn random_salt() -> (r: Vec<u8>)
    ensures
        r@.len() == 32,
{
    let salt: [u8; 32] = rand::Rng::gen(&mut rand::thread_rng());
    salt.to_vec()
}

/// Relies on `argon2::hash_encoded` with the reference implementation's
/// configuration: the encoded hash depends only on the password and the
/// salt.
#[verifier::external_body]
fn argon2_hash(password: &str, salt: &[u8]) -> (r: Option<String>)
    ensures
        match r {
            Some(h) => argon2_hash_of(password@, salt@) == Some(h@),
            None => argon2_hash_of(password@, salt@) is None,
        },
{
    argon2::hash_encoded(password.as_bytes(), salt, &argon2::Config::original()).ok()
}

/// Relies on `argon2::verify_encoded`: whether a password matches an encoded
/// hash depends only on the two strings.
#[verifier::external_body]
fn argon2_verify(encoded: &str, password: &str) -> (r: Option<bool>)
    ensures
        match r {
            Some(b) => argon2_verify_of(encoded@, password@) == Some(b),
            None => argon2_verify_of(encoded@, password@) is None,
        },
{
    argon2::verify_encoded(encoded, password.as_bytes()).ok()
}

/// A clear-text password (or, for verification, a stored encoded hash).
#[derive(Debug)]
pub struct Password(pub String);

impl Password {
    /// Hashes the password with a fresh random salt.
    pub fn to_hash(&self) -> (r: Result<String, Error>)
        ensures
            match r {
                Ok(h) => exists|salt: Seq<u8>|
                    salt.len() == 32 && argon2_hash_of(self.0@, salt) == Some(h@),
                Err(e) => e is HashPassword,
            },
    {
        let salt = random_salt();
        match argon2_hash(self.0.as_str(), salt.as_slice()) {
            Some(h) => Ok(h),
            None => Err(Error::HashPassword),
        }
    }

    /// Checks a clear-text password against this stored encoded hash.
    pub fn verify(&self, password: &str) -> (r: Result<bool, Error>)
        ensures
            match r {
                Ok(b) => argon2_verify_of(self.0@, password@) == Some(b),
                Err(e) => argon2_verify_of(self.0@, password@) is None && e is HashPassword,
            },
    {
        match argon2_verify(self.0.as_str(), password) {
            Some(b) => Ok(b),
            None => Err(Error::HashPassword),
        }
    }
}

impl User {
    /// The signed-out stand-in account.
    pub fn guest() -> (r: Self)
        ensures
            r.is_anonymous,
            r.handle@.len() == 0,
            r.id == 0,
            !r.is_admin,
    {
        User { is_anonymous: true, ..User::default() }
    }

    /// Whether this account is a real signed-in user.
    pub fn is_authenticated(&self) -> (r: bool)
        ensures
            r == !self.is_anonymous,
    {
        !self.is_anonymous
    }

    /// The first account with the given handle.
    pub fn find_by_handle(handle: &str, store: &Store) -> (r: Result<User, Error>)
        ensures
            match r {
                Ok(u) => exists|i: int|
                    first_user_by_handle(store.users@, handle@, i) && u == store.users@[i],
                Err(e) => !has_user_by_handle(store.users@, handle@) && e is NotFound,
            },
    {
        let wanted: String = handle.to_owned();
        let mut i: usize = 0;
        while i < store.users.len()
            invariant
                i <= store.users@.len(),
                wanted@ == handle@,
                forall|j: int| 0 <= j < i ==> (#[trigger] store.users@[j]).handle@ != handle@,
            decreases store.users@.len() - i,
        {
            if store.users[i].handle.eq(&wanted) {
                return Ok(store.users[i].clone());
            }
            i = i + 1;
        }
        Err(Error::NotFound)
    }

    /// Registers the account described by a validated registration form:
    /// hashes its password and appends the new user.
    pub fn register(mutation: &RegisterUser, store: &mut Store) -> (r: Result<User, Error>)
        requires
            old(store).wf(),
        ensures
            final(store).wf(),
            final(store).questions == old(store).questions,
            final(store).queues == old(store).queues,
            final(store).answers == old(store).answers,
            final(store).last_answers == old(store).last_answers,
            match r {
                Ok(u) => {
                    &&& final(store).users@ == old(store).users@.push(u)
                    &&& u.id == old(store).next_id
                    &&& u.handle == mutation.handle.value
                    &&& exists|salt: Seq<u8>|
                        salt.len() == 32 && argon2_hash_of(mutation.password.value@, salt) == Some(
                            u.hashed_password@,
                        )
                    &&& !u.is_anonymous
                    &&& !u.is_admin
                    &&& u.last_login is Some
                },
                Err(e) => {
                    &&& *final(store) == *old(store)
                    &&& (e is HashPassword || e is Generic)
                    &&& (e is Generic ==> old(store).next_id == MAX_STORE_ID)
                },
            },
    {
        let hashed_password = match Password(mutation.password.value.clone()).to_hash() {
            Ok(h) => h,
            Err(e) => {
                return Err(e);
            },
        };
        let id = match store.allocate_id() {
            Ok(v) => v,
            Err(e) => {
                return Err(e);
            },
        };
        let now = DateTime::now();
        let u = User {
            created_at: now,
            handle: mutation.handle.value.clone(),
            id,
            is_admin: false,
            is_anonymous: false,
            last_login: Some(now),
            hashed_password,
            updated_at: now,
        };
        store.users.push(u.clone());
        Ok(u)
    }

    /// Finds the account with the given handle and checks the password;
    /// a mismatch is reported as `InvalidPassword`, never as success.
    pub fn authenticate(mutation: &AuthenticateUser, store: &Store) -> (r: Result<User, Error>)
        ensures
            match r {
                Ok(u) => {
                    &&& exists|i: int|
                        first_user_by_handle(store.users@, mutation.handle.value@, i)
                            && u == store.users@[i]
                    &&& argon2_verify_of(u.hashed_password@, mutation.password.value@) == Some(true)
                },
                Err(e) => {
                    ||| (e is NotFound && !has_user_by_handle(store.users@, mutation.handle.value@))
                    ||| (e is InvalidPassword && exists|i: int|
                        (#[trigger] first_user_by_handle(store.users@, mutation.handle.value@, i))
                            && argon2_verify_of(
                            store.users@[i].hashed_password@,
                            mutation.password.value@,
                        ) == Some(false))
                    ||| (e is HashPassword && exists|i: int|
                        (#[trigger] first_user_by_handle(store.users@, mutation.handle.value@, i))
                            && argon2_verify_of(
                            store.users@[i].hashed_password@,
                            mutation.password.value@,
                        ) is None)
                },
            },
    {
        let user = match User::find_by_handle(mutation.handle.value.as_str(), store) {
            Ok(u) => u,
            Err(e) => {
                return Err(e);
            },
        };
        let password = Password(user.hashed_password.clone());
        let matched = match password.verify(mutation.password.value.as_str()) {
            Ok(b) => b,
            Err(e) => {
                return Err(e);
            },
        };
        if !matched {
            return Err(Error::InvalidPassword);
        }
        Ok(user)
    }

    /// Stamps the last-login instant of every account with the identifier
    /// (at most one, in a well-formed store).
    pub fn update_last_login(id: i64, store: &mut Store) -> (r: Result<(), Error>)
        requires
            old(store).wf(),
        ensures
            r is Ok,
            final(store).wf(),
            final(store).questions == old(store).questions,
            final(store).queues == old(store).queues,
            final(store).answers == old(store).answers,
            final(store).last_answers == old(store).last_answers,
            final(store).next_id == old(store).next_id,
            final(store).users@.len() == old(store).users@.len(),
            forall|i: int|
                0 <= i < final(store).users@.len() ==> {
                    let was = old(store).users@[i];
                    let now_u = #[trigger] final(store).users@[i];
                    if was.id == id {
                        now_u == User { last_login: now_u.last_login, ..was } && now_u.last_login is Some
                    } else {
                        now_u == was
                    }
                },
    {
        let now = DateTime::now();
        let mut i: usize = 0;
        while i < store.users.len()
            invariant
                i <= store.users@.len(),
                store.users@.len() == old(store).users@.len(),
                store.questions == old(store).questions,
                store.queues == old(store).queues,
                store.answers == old(store).answers,
                store.last_answers == old(store).last_answers,
                store.next_id == old(store).next_id,
                old(store).wf(),
                forall|j: int|
                    i <= j < store.users@.len() ==> #[trigger] store.users@[j] == old(
                        store,
                    ).users@[j],
                forall|j: int|
                    0 <= j < i ==> {
                        let was = old(store).users@[j];
                        let now_u = #[trigger] store.users@[j];
                        if was.id == id {
                            now_u == User { last_login: now_u.last_login, ..was }
                                && now_u.last_login is Some
                        } else {
                            now_u == was
                        }
                    },
            decreases store.users@.len() - i,
        {
            if store.users[i].id == id {
                let updated = User { last_login: Some(now), ..store.users[i].clone() };
                store.users.set(i, updated);
            }
            i = i + 1;
        }
        proof {
            assert(store.wf()) by {
                assert(forall|j: int|
                    0 <= j < store.users@.len() ==> (#[trigger] store.users@[j]).id == old(
                        store,
                    ).users@[j].id);
            }
        }
        Ok(())
    }

    /// Every queue belonging to this user, in store order.
    pub fn queues(&self, store: &Store) -> (r: Result<Vec<Queue>, Error>)
        ensures
            match r {
                Ok(qs) => qs@ == store.queues@.filter(|q: Queue| q.user_id == self.id),
                Err(_) => false,
            },
    {
        broadcast use vstd::prelude::Seq::lemma_filter_push;

        let ghost p = |q: Queue| q.user_id == self.id;
        let mut out: Vec<Queue> = Vec::new();
        let mut i: usize = 0;
        proof {
            assert(store.queues@.take(0int).filter(p) =~= Seq::empty());
        }
        while i < store.queues.len()
            invariant
                i <= store.queues@.len(),
                out@ == store.queues@.take(i as int).filter(p),
                p == (|q: Queue| q.user_id == self.id),
            decreases store.queues@.len() - i,
        {
            proof {
                assert(store.queues@.take(i + 1) =~= store.queues@.take(i as int).push(
                    store.queues@[i as int],
                ));
                store.queues@.take(i as int).lemma_filter_push(store.queues@[i as int], p);
            }
            if store.queues[i].user_id == self.id {
                out.push(store.queues[i].clone());
            }
            i = i + 1;
        }
        proof {
            assert(store.queues@.take(store.queues@.len() as int) =~= store.queues@);
        }
        Ok(out)
    }
}

} // verus!
