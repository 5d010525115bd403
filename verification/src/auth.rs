//! The account registry and the session-versioning authentication gate.
//!
//! Accounts are kept in an in-memory index keyed by the verbatim login.
//! Every account carries a monotonically increasing session version; a
//! session snapshot is accepted only while it presents the account's current
//! version, so bumping the version invalidates every outstanding session at
//! once. The registry's durable form is a single file holding the whole
//! map, which the caller rewrites (from `list`) after every successful
//! mutation, under the same serializer-then-index lock discipline as the
//! document store.

use vstd::prelude::*;
use vstd::string::StrSliceExecFns;
use crate::error::Error;
use crate::index::Index;
use crate::index::distinct_keys;
use crate::index::map_of;

verus! {

/// One account record: the credential hash, the lock every fresh account
/// starts with, and the session version snapshots are checked against.
#[derive(Debug, Clone)]
pub struct User {
    pub password: String,
    pub locked: bool,
    pub version: u32,
}

/// Whether `password` verifies against the bcrypt hash `hash`; a malformed
/// hash verifies nothing. Named only: the computation is the bcrypt
/// algorithm, a function of the two texts alone.
pub uninterp spec fn password_matches(password: Seq<char>, hash: Seq<char>) -> bool;

/// Relies on `bcrypt::hash` (at the crate's default cost): on success the
/// result is a well-formed hash that `bcrypt::verify` accepts for this
/// password; it fails only when the operating system's randomness source
/// does.
#[verifier::external_body]
fn bcrypt_hash(password: &str) -> (r: Result<String, Error>)
    ensures
        (match r {
            Ok(h) => password_matches(password@, h@),
            Err(e) => e == Error::Internal,
        }),
{
    match bcrypt::hash(password, bcrypt::DEFAULT_COST) {
        Ok(h) => Ok(h),
        Err(_) => Err(Error::Internal),
    }
}

/// Relies on `bcrypt::verify`: whether a password matches a hash is a
/// function of the two texts alone, and a malformed hash matches nothing.
#[verifier::external_body]
fn bcrypt_verify(password: &str, hash: &str) -> (r: bool)
    ensures
        r == password_matches(password@, hash@),
{
    bcrypt::verify(password, hash).unwrap_or(false)
}

/// The (login, version) snapshot a session carries.
#[derive(Debug)]
pub struct SessionInfo {
    pub user: String,
    pub version: u32,
}

/// Whether a session snapshot (login, version) is accepted against the
/// account map: the account exists, is not locked, and its current version
/// equals the snapshot's.
pub open spec fn check_auth_spec(m: Map<Seq<char>, User>, login: Seq<char>, version: u32) -> bool {
    m.contains_key(login) && !m[login].locked && m[login].version == version
}

/// The account map after a session invalidation: the account's version is
/// bumped by one, everything else kept.
pub open spec fn invalidated(m: Map<Seq<char>, User>, login: Seq<char>) -> Map<Seq<char>, User>
    recommends
        m.contains_key(login),
        m[login].version < u32::MAX,
{
    m.insert(
        login,
        User {
            password: m[login].password,
            locked: m[login].locked,
            version: (m[login].version + 1) as u32,
        },
    )
}

/// The map described by the entries of a loaded accounts file; on a
/// duplicate login the later entry wins, as when parsing a keyed file.
pub open spec fn loaded_accounts(entries: Seq<(String, User)>) -> Map<Seq<char>, User>
    decreases entries.len(),
{
    if entries.len() == 0 {
        Map::empty()
    } else {
        loaded_accounts(entries.drop_last()).insert(entries.last().0@, entries.last().1)
    }
}

/// The account registry.
pub struct Users {
    index: Index<User>,
}

impl View for Users {
    type V = Map<Seq<char>, User>;

    closed spec fn view(&self) -> Map<Seq<char>, User> {
        self.index@
    }
}

impl Users {
    /// Well-formedness: each login is held once.
    pub closed spec fn wf(&self) -> bool {
        self.index.wf()
    }

    /// The accounts in insertion order, the snapshot `list` hands out for
    /// persisting.
    pub closed spec fn entries(&self) -> Seq<(String, User)> {
        self.index.entries()
    }

    /// How the entry list and the map view of a well-formed registry relate.
    pub proof fn lemma_inv(&self)
        requires
            self.wf(),
        ensures
            self@ == map_of(self.entries()),
            distinct_keys(self.entries()),
            self@.dom().finite(),
            self@.len() == self.entries().len(),
    {
        self.index.lemma_inv();
    }

    /// Rebuilds the registry from the entries of the accounts file.
    pub fn load(entries: Vec<(String, User)>) -> (r: Users)
        ensures
            r.wf(),
            r@ == loaded_accounts(entries@),
    {
        let ghost all = entries@;
        let mut entries = entries;
        let total = entries.len();
        let mut index: Index<User> = Index::new();
        let ghost n = all.len();
        let mut i: usize = 0;
        proof {
            assert(all.subrange(0, 0) =~= Seq::<(String, User)>::empty());
            assert(entries@ =~= all.subrange(0, n as int));
        }
        while entries.len() > 0
            invariant
                i <= n,
                n == all.len(),
                n == total as int,
                entries@ == all.subrange(i as int, n as int),
                index.wf(),
                index@ == loaded_accounts(all.subrange(0, i as int)),
            decreases entries@.len(),
        {
            let ghost prefix = all.subrange(0, i as int);
            let (login, user) = entries.remove(0);
            proof {
                assert(all[i as int] == (login, user));
                assert(all.subrange(i as int, n as int).remove(0) =~= all.subrange(
                    i as int + 1,
                    n as int,
                ));
                assert(all.subrange(0, i as int + 1).drop_last() =~= prefix);
                assert(all.subrange(0, i as int + 1).last() == (login, user));
            }
            index.upsert(login, user);
            i = i + 1;
        }
        proof {
            assert(all.subrange(0, n as int) =~= all);
        }
        Users { index }
    }

    /// A snapshot of every account, in insertion order, for persisting the
    /// registry after a mutation.
    pub fn list(&self) -> (r: &Vec<(String, User)>)
        ensures
            r@ == self.entries(),
    {
        self.index.list()
    }

    /// Inserts a fresh account under `login` with credential hash `hash`:
    /// locked, at version 0. Fails with `AlreadyExists`, changing nothing,
    /// when the login is taken. This is the decision `register` comes down
    /// to once the hashing collaborator has answered.
    pub fn register_hashed(&mut self, login: String, hash: String) -> (r: Result<(), Error>)
        requires
            old(self).wf(),
        ensures
            final(self).wf(),
            old(self)@.contains_key(login@) ==> r == Err::<(), Error>(Error::AlreadyExists)
                && *final(self) == *old(self),
            !old(self)@.contains_key(login@) ==> r is Ok && final(self)@ == old(self)@.insert(
                login@,
                (User { password: hash, locked: true, version: 0 }),
            ),
    {
        if self.index.contains(login.as_str()) {
            Err(Error::AlreadyExists)
        } else {
            self.index.insert(login, User { password: hash, locked: true, version: 0 });
            Ok(())
        }
    }

    /// Registers a new account: rejects logins shorter than 4 code points
    /// and passwords shorter than 8 before any hashing, hashes the password,
    /// and inserts the account locked at version 0 — failing with
    /// `AlreadyExists` when the login is taken and `Internal` when hashing
    /// fails, in every failure changing nothing.
    pub fn register(&mut self, login: String, password: String) -> (r: Result<(), Error>)
        requires
            old(self).wf(),
        ensures
            final(self).wf(),
            login@.len() < 4 ==> r == Err::<(), Error>(Error::UserNameTooShort) && *final(self)
                == *old(self),
            login@.len() >= 4 && password@.len() < 8 ==> r == Err::<(), Error>(
                Error::PasswordTooShort,
            ) && *final(self) == *old(self),
            login@.len() >= 4 && password@.len() >= 8 ==> {
                ||| (r == Err::<(), Error>(Error::Internal) && *final(self) == *old(self))
                ||| (old(self)@.contains_key(login@) && r == Err::<(), Error>(Error::AlreadyExists)
                    && *final(self) == *old(self))
                ||| (!old(self)@.contains_key(login@) && r is Ok && exists|u: User|
                    u.locked == true && u.version == 0 && password_matches(password@, u.password@)
                        && final(self)@ == #[trigger] old(self)@.insert(login@, u))
            },
    {
        if login.as_str().unicode_len() < 4 {
            return Err(Error::UserNameTooShort);
        }
        if password.as_str().unicode_len() < 8 {
            return Err(Error::PasswordTooShort);
        }
        let hash = match bcrypt_hash(password.as_str()) {
            Ok(h) => h,
            Err(_) => {
                return Err(Error::Internal);
            },
        };
        let ghost u = User { password: hash, locked: true, version: 0 };
        let r = self.register_hashed(login, hash);
        proof {
            if r is Ok {
                assert(password_matches(password@, u.password@));
            }
        }
        r
    }

    /// Checks a login attempt and issues the session snapshot to bind:
    /// fails `Unauthorized` when the login is unknown, the account is
    /// locked, or the password does not verify against the stored hash;
    /// otherwise returns the login together with the account's current
    /// version.
    pub fn login(&self, login: &str, password: &str) -> (r: Result<SessionInfo, Error>)
        requires
            self.wf(),
        ensures
            (match r {
                Ok(info) => self@.contains_key(login@) && !self@[login@].locked
                    && password_matches(password@, self@[login@].password@) && info.user@ == login@
                    && info.version == self@[login@].version,
                Err(e) => e == Error::Unauthorized && !(self@.contains_key(login@)
                    && !self@[login@].locked && password_matches(
                    password@,
                    self@[login@].password@,
                )),
            }),
    {
        let user = match self.index.get(login) {
            Some(u) => u,
            None => {
                return Err(Error::Unauthorized);
            },
        };
        if user.locked {
            return Err(Error::Unauthorized);
        }
        if bcrypt_verify(password, user.password.as_str()) {
            Ok(SessionInfo { user: login.to_owned(), version: user.version })
        } else {
            Err(Error::Unauthorized)
        }
    }

    /// Bumps the account's session version, so that every outstanding
    /// session (still carrying the old version) fails the check from now
    /// on, and returns the fresh snapshot that keeps the caller's own
    /// session valid. Fails with `NotFound` for an unknown login and with
    /// `Internal` when the version counter is exhausted; then nothing
    /// changes.
    pub fn invalidate_sessions(&mut self, login: &str) -> (r: Result<SessionInfo, Error>)
        requires
            old(self).wf(),
        ensures
            final(self).wf(),
            !old(self)@.contains_key(login@) ==> r == Err::<SessionInfo, Error>(Error::NotFound)
                && *final(self) == *old(self),
            old(self)@.contains_key(login@) && old(self)@[login@].version == u32::MAX ==> r
                == Err::<SessionInfo, Error>(Error::Internal) && *final(self) == *old(self),
            old(self)@.contains_key(login@) && old(self)@[login@].version < u32::MAX ==> final(self)@
                == invalidated(old(self)@, login@) && (r matches Ok(info) && info.user@ == login@
                && info.version == old(self)@[login@].version + 1),
    {
        let (hash, was_locked, version) = match self.index.get(login) {
            Some(u) => (u.password.clone(), u.locked, u.version),
            None => {
                return Err(Error::NotFound);
            },
        };
        if version == u32::MAX {
            return Err(Error::Internal);
        }
        self.index.set_value(login, User { password: hash, locked: was_locked, version: version + 1 });
        Ok(SessionInfo { user: login.to_owned(), version: version + 1 })
    }

    /// Validates a session snapshot: accepted exactly when the account
    /// exists, is not locked, and its current version equals the presented
    /// one.
    pub fn check_authenticated(&self, login: &str, token_version: u32) -> (r: Result<(), Error>)
        requires
            self.wf(),
        ensures
            r is Ok <==> check_auth_spec(self@, login@, token_version),
            r is Err ==> r == Err::<(), Error>(Error::Unauthorized),
    {
        match self.index.get(login) {
            Some(u) => {
                if !u.locked && u.version == token_version {
                    Ok(())
                } else {
                    Err(Error::Unauthorized)
                }
            },
            None => Err(Error::Unauthorized),
        }
    }
}

/// After a session invalidation, a snapshot carrying the pre-bump version
/// fails the check, while the fresh snapshot the invalidation itself
/// returned (post-bump version) passes whenever the account is not locked.
pub proof fn lemma_invalidate_sessions(m: Map<Seq<char>, User>, login: Seq<char>)
    requires
        m.contains_key(login),
        m[login].version < u32::MAX,
    ensures
        !check_auth_spec(invalidated(m, login), login, m[login].version),
        !m[login].locked ==> check_auth_spec(
            invalidated(m, login),
            login,
            (m[login].version + 1) as u32,
        ),
{
}

/// The read capability: always grantable; carries the resolved login when
/// one is present.
#[derive(Debug)]
pub struct NoPermission(pub Option<String>);

/// The write capability: grantable only to a resolved login, which it
/// carries.
#[derive(Debug)]
pub struct WritePermission(pub String);

/// Evidence that a request holds the capability `P`.
#[derive(Debug)]
pub struct Authenticated<P>(pub P);

impl NoPermission {
    /// Grants read capability to anyone, remembering the user if resolved.
    pub fn from_user(user: Option<String>) -> (r: Option<Self>)
        ensures
            r == Some(NoPermission(user)),
    {
        Some(NoPermission(user))
    }
}

impl WritePermission {
    /// Grants write capability only to a resolved user.
    pub fn from_user(user: Option<String>) -> (r: Option<Self>)
        ensures
            (match user {
                Some(u) => r == Some(WritePermission(u)),
                None => r is None,
            }),
    {
        match user {
            Some(u) => Some(WritePermission(u)),
            None => None,
        }
    }
}

/// What resolving a request's session concluded.
#[derive(Debug)]
pub enum SessionCheck {
    /// No identity, or no version snapshot, was presented.
    Anonymous,
    /// The snapshot passed the check; carries the login.
    Valid(String),
    /// An identity was presented whose snapshot no longer checks out; the
    /// gate must terminate that session.
    Stale,
}

/// Resolves a request's identity against the registry: without an identity
/// or a version snapshot the request is anonymous; a snapshot that passes
/// `check_authenticated` resolves to its login; a presented identity that
/// no longer checks out is stale and its session is to be terminated.
pub fn user_from_request(users: &Users, identity: Option<String>, token_version: Option<u32>) -> (r:
    SessionCheck)
    requires
        users.wf(),
    ensures
        (match identity {
            Option::None => r == SessionCheck::Anonymous,
            Option::Some(login) => (match token_version {
                Option::None => r == SessionCheck::Anonymous,
                Option::Some(v) => if check_auth_spec(users@, login@, v) {
                    r == SessionCheck::Valid(login)
                } else {
                    r == SessionCheck::Stale
                },
            }),
        }),
{
    let login = match identity {
        Some(l) => l,
        None => {
            return SessionCheck::Anonymous;
        },
    };
    let v = match token_version {
        Some(v) => v,
        None => {
            return SessionCheck::Anonymous;
        },
    };
    match users.check_authenticated(login.as_str(), v) {
        Ok(_) => SessionCheck::Valid(login),
        Err(_) => SessionCheck::Stale,
    }
}

} // verus!
