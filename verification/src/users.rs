//! The user roster: authentication against stored hashes and roster
//! upkeep. The username is the natural key and is unique; a password is
//! hashed before it is stored and never kept or returned in clear form.
//!
//! A failed verification and a missing user are indistinguishable to a
//! caller of `authenticate`: both yield `(false, None)`, so usernames
//! cannot be enumerated.

use vstd::prelude::*;
use crate::errors::CmsError;

verus! {

/// The login request a visitor submits.
pub struct LoginForm {
    pub username: String,
    pub password: String,
}

/// The roster request forms carry: a display name, the username and a
/// clear-text password that is hashed before anything is stored.
pub struct User {
    pub name: String,
    pub username: String,
    pub password: String,
}

/// The mathematical value of one stored roster row.
pub struct UserRecordView {
    pub name: Seq<char>,
    pub username: Seq<char>,
    pub password_hash: Seq<char>,
}

/// One stored roster row; the password appears only as an opaque hash.
pub struct UserRecord {
    pub name: String,
    pub username: String,
    pub password_hash: String,
}

impl View for UserRecord {
    type V = UserRecordView;

    open spec fn view(&self) -> UserRecordView {
        UserRecordView {
            name: self.name@,
            username: self.username@,
            password_hash: self.password_hash@,
        }
    }
}

impl UserRecord {
    /// A field-for-field copy of this row.
    pub fn duplicate(&self) -> (r: UserRecord)
        ensures
            r@ == self@,
    {
        UserRecord {
            name: self.name.clone(),
            username: self.username.clone(),
            password_hash: self.password_hash.clone(),
        }
    }
}

/// The row views of a row sequence, in order.
pub open spec fn user_views(rows: Seq<UserRecord>) -> Seq<UserRecordView> {
    rows.map_values(|u: UserRecord| u@)
}

/// True when the one-way verify capability accepts `password` against the
/// stored `hash`; deterministic in the two arguments.
pub uninterp spec fn bcrypt_accepts(password: Seq<char>, hash: Seq<char>) -> bool;

/// Relies on `bcrypt::verify`: deterministic in the password and the hash;
/// an unreadable hash and a failed comparison both reject.
#[verifier::external_body]
fn verify_password(password: &String, hash: &String) -> (r: bool)
    ensures
        r == bcrypt_accepts(password@, hash@),
{
    bcrypt::verify(password.as_str(), hash.as_str()).unwrap_or(false)
}

/// Relies on `bcrypt::hash` with the library's default cost: a hash it
/// produces verifies against the password it was made from, is exactly the
/// 60-character `$`-prefixed modular-crypt text, and is never the clear
/// password itself — so what is persisted is never the clear text.
#[verifier::external_body]
fn hash_password(password: &String) -> (r: Option<String>)
    ensures
        r matches Some(h) ==> bcrypt_accepts(password@, h@),
        r matches Some(h) ==> h@.len() == 60,
        r matches Some(h) ==> h@ != password@,
{
    bcrypt::hash(password.as_str(), bcrypt::DEFAULT_COST).ok()
}

/// A roster is well formed when its usernames are pairwise distinct.
pub open spec fn roster_wf(rows: Seq<UserRecordView>) -> bool {
    forall|i: int, j: int|
        #![trigger rows[i].username, rows[j].username]
        0 <= i < j < rows.len() ==> rows[i].username != rows[j].username
}

/// The first row carrying `username`, if any.
pub open spec fn spec_user_lookup(rows: Seq<UserRecordView>, username: Seq<char>) -> Option<
    UserRecordView,
>
    decreases rows.len(),
{
    if rows.len() == 0 {
        None
    } else if rows[0].username == username {
        Some(rows[0])
    } else {
        spec_user_lookup(rows.drop_first(), username)
    }
}

/// `rows` with every row carrying `username` removed.
pub open spec fn spec_remove_user(rows: Seq<UserRecordView>, username: Seq<char>) -> Seq<
    UserRecordView,
>
    decreases rows.len(),
{
    if rows.len() == 0 {
        Seq::empty()
    } else if rows[0].username == username {
        spec_remove_user(rows.drop_first(), username)
    } else {
        seq![rows[0]] + spec_remove_user(rows.drop_first(), username)
    }
}

/// A lookup misses exactly when no row carries the username.
pub proof fn lemma_user_lookup_none_iff(rows: Seq<UserRecordView>, username: Seq<char>)
    ensures
        spec_user_lookup(rows, username) is None <==> (forall|k: int|
            0 <= k < rows.len() ==> (#[trigger] rows[k].username) != username),
    decreases rows.len(),
{
    if rows.len() > 0 {
        lemma_user_lookup_none_iff(rows.drop_first(), username);
        if rows[0].username != username {
            assert forall|k: int|
                0 <= k < rows.len() && (#[trigger] rows[k].username) == username implies
                spec_user_lookup(rows, username) is Some by {
                assert(rows.drop_first()[k - 1] == rows[k]);
            }
        }
    }
}

/// A lookup returns the row at `i` when it carries `username` and no
/// earlier row does.
pub proof fn lemma_user_lookup_finds(rows: Seq<UserRecordView>, username: Seq<char>, i: int)
    requires
        0 <= i < rows.len(),
        rows[i].username == username,
        forall|k: int| 0 <= k < i ==> (#[trigger] rows[k].username) != username,
    ensures
        spec_user_lookup(rows, username) == Some(rows[i]),
    decreases rows.len(),
{
    if i > 0 {
        assert forall|k: int| 0 <= k < i - 1 implies (#[trigger] rows.drop_first()[k].username)
            != username by {
            assert(rows.drop_first()[k] == rows[k + 1]);
        }
        assert(rows.drop_first()[i - 1] == rows[i]);
        lemma_user_lookup_finds(rows.drop_first(), username, i - 1);
    }
}

/// Removing a username no row carries leaves the roster unchanged.
proof fn lemma_remove_user_absent(rows: Seq<UserRecordView>, username: Seq<char>)
    requires
        forall|k: int| 0 <= k < rows.len() ==> (#[trigger] rows[k].username) != username,
    ensures
        spec_remove_user(rows, username) == rows,
    decreases rows.len(),
{
    if rows.len() > 0 {
        assert forall|k: int| 0 <= k < rows.drop_first().len() implies (
        #[trigger] rows.drop_first()[k].username) != username by {
            assert(rows.drop_first()[k] == rows[k + 1]);
        }
        lemma_remove_user_absent(rows.drop_first(), username);
        assert(spec_remove_user(rows, username) =~= rows);
    }
}

/// When exactly the row at `i` carries `username`, removal removes that
/// row alone.
proof fn lemma_remove_user_at(rows: Seq<UserRecordView>, username: Seq<char>, i: int)
    requires
        0 <= i < rows.len(),
        rows[i].username == username,
        forall|k: int|
            0 <= k < rows.len() && k != i ==> (#[trigger] rows[k].username) != username,
    ensures
        spec_remove_user(rows, username) == rows.remove(i),
    decreases rows.len(),
{
    if i == 0 {
        assert forall|k: int| 0 <= k < rows.drop_first().len() implies (
        #[trigger] rows.drop_first()[k].username) != username by {
            assert(rows.drop_first()[k] == rows[k + 1]);
        }
        lemma_remove_user_absent(rows.drop_first(), username);
        assert(spec_remove_user(rows, username) =~= rows.remove(0));
    } else {
        assert(rows.drop_first()[i - 1] == rows[i]);
        assert forall|k: int| 0 <= k < rows.drop_first().len() && k != i - 1 implies (
        #[trigger] rows.drop_first()[k].username) != username by {
            assert(rows.drop_first()[k] == rows[k + 1]);
        }
        lemma_remove_user_at(rows.drop_first(), username, i - 1);
        assert(spec_remove_user(rows, username) =~= rows.remove(i));
    }
}

/// The line the roster listing shows for one row.
pub open spec fn spec_user_entry(u: UserRecordView) -> Seq<char> {
    u.name + " ("@ + u.username + ")"@
}

/// The user roster, keyed by unique username.
pub struct UserTable {
    rows: Vec<UserRecord>,
}

impl View for UserTable {
    type V = Seq<UserRecordView>;

    closed spec fn view(&self) -> Seq<UserRecordView> {
        user_views(self.rows@)
    }
}

impl UserTable {
    /// Whether this roster satisfies the unique-username invariant.
    pub open spec fn wf(self) -> bool {
        roster_wf(self@)
    }

    /// An empty roster.
    pub fn new() -> (t: UserTable)
        ensures
            t.wf(),
            t@.len() == 0,
    {
        let t = UserTable { rows: Vec::new() };
        proof {
            assert(t@ =~= Seq::<UserRecordView>::empty());
        }
        t
    }

    /// A roster built from stored rows, as the host reads them back; rows
    /// whose username repeats are refused, since the roster's key is
    /// unique.
    pub fn from_rows(rows: Vec<UserRecord>) -> (r: Option<UserTable>)
        ensures
            match r {
                Some(t) => t.wf() && t@ == user_views(rows@),
                None => !roster_wf(user_views(rows@)),
            },
    {
        let ghost views = user_views(rows@);
        let n = rows.len();
        let mut i: usize = 0;
        while i < n
            invariant
                0 <= i <= n,
                n == rows@.len(),
                views == user_views(rows@),
                forall|a: int, b: int|
                    #![trigger views[a].username, views[b].username]
                    0 <= a < b < i ==> views[a].username != views[b].username,
            decreases n - i,
        {
            let mut j: usize = 0;
            while j < i
                invariant
                    0 <= j <= i < n,
                    n == rows@.len(),
                    views == user_views(rows@),
                    forall|b: int| 0 <= b < j ==> (#[trigger] views[b].username)
                        != views[i as int].username,
                decreases i - j,
            {
                if rows[j].username == rows[i].username {
                    proof {
                        assert(views[j as int].username == views[i as int].username);
                    }
                    return None;
                }
                j = j + 1;
            }
            i = i + 1;
        }
        Some(UserTable { rows })
    }

    /// Looks the username up and verifies the password against the stored
    /// hash. A missing user and a failed verification are indistinguishable:
    /// both yield `(false, None)`. On success the display name is returned.
    pub fn authenticate(&self, username: &String, password: &String) -> (r: (bool, Option<String>))
        ensures
            match spec_user_lookup(self@, username@) {
                None => r.0 == false && r.1 is None,
                Some(u) => {
                    &&& r.0 == bcrypt_accepts(password@, u.password_hash)
                    &&& (r.0 ==> (r.1 matches Some(n) && n@ == u.name))
                    &&& (!r.0 ==> r.1 is None)
                },
            },
    {
        let n = self.rows.len();
        let mut i: usize = 0;
        while i < n
            invariant
                0 <= i <= n,
                n == self@.len(),
                forall|k: int| 0 <= k < i ==> (#[trigger] self@[k].username) != username@,
            decreases n - i,
        {
            if self.rows[i].username == *username {
                proof {
                    lemma_user_lookup_finds(self@, username@, i as int);
                }
                if verify_password(password, &self.rows[i].password_hash) {
                    return (true, Some(self.rows[i].name.clone()));
                } else {
                    return (false, None);
                }
            }
            proof {
                assert(self@[i as int].username == self.rows@[i as int]@.username);
            }
            i = i + 1;
        }
        proof {
            lemma_user_lookup_none_iff(self@, username@);
        }
        (false, None)
    }

    /// Hashes the password and inserts the row. A username the roster
    /// already holds is refused with `DuplicateKey`; a hashing failure is
    /// surfaced as `StoreUnavailable`. The clear password is never stored.
    pub fn add(&mut self, name: String, username: String, password: &String) -> (r: Result<
        (),
        CmsError,
    >)
        requires
            old(self).wf(),
        ensures
            final(self).wf(),
            match r {
                Ok(()) => {
                    &&& spec_user_lookup(old(self)@, username@) is None
                    &&& final(self)@.len() == old(self)@.len() + 1
                    &&& final(self)@.drop_last() == old(self)@
                    &&& final(self)@.last().name == name@
                    &&& final(self)@.last().username == username@
                    &&& bcrypt_accepts(password@, final(self)@.last().password_hash)
                },
                Err(e) => {
                    &&& final(self)@ == old(self)@
                    &&& (e == CmsError::DuplicateKey <==> spec_user_lookup(old(self)@, username@)
                        is Some)
                    &&& (e == CmsError::DuplicateKey || e == CmsError::StoreUnavailable)
                },
            },
    {
        let n = self.rows.len();
        let mut i: usize = 0;
        while i < n
            invariant
                0 <= i <= n,
                n == self@.len(),
                self == old(self),
                forall|k: int| 0 <= k < i ==> (#[trigger] self@[k].username) != username@,
            decreases n - i,
        {
            if self.rows[i].username == username {
                proof {
                    lemma_user_lookup_finds(self@, username@, i as int);
                }
                return Err(CmsError::DuplicateKey);
            }
            proof {
                assert(self@[i as int].username == self.rows@[i as int]@.username);
            }
            i = i + 1;
        }
        proof {
            lemma_user_lookup_none_iff(self@, username@);
        }
        match hash_password(password) {
            None => Err(CmsError::StoreUnavailable),
            Some(h) => {
                let ghost prev = self.rows@;
                let rec = UserRecord { name, username, password_hash: h };
                self.rows.push(rec);
                proof {
                    assert(self@ =~= user_views(prev).push(rec@));
                    assert(self@.drop_last() =~= user_views(prev));
                }
                Ok(())
            },
        }
    }

    /// Updates the row keyed `username`. An empty password leaves the
    /// stored hash untouched; any other password is rehashed and replaces
    /// it. Renaming onto a username another row holds is refused with
    /// `DuplicateKey`. Editing a missing username is a silent no-op.
    pub fn edit(
        &mut self,
        username: &String,
        name: String,
        new_username: String,
        password: &String,
    ) -> (r: Result<(), CmsError>)
        requires
            old(self).wf(),
        ensures
            final(self).wf(),
            match r {
                Ok(()) => {
                    &&& final(self)@.len() == old(self)@.len()
                    &&& forall|k: int|
                        0 <= k < old(self)@.len() && (#[trigger] old(self)@[k].username)
                            != username@ ==> final(self)@[k] == old(self)@[k]
                    &&& forall|k: int|
                        0 <= k < old(self)@.len() && (#[trigger] old(self)@[k].username)
                            == username@ ==> {
                            &&& final(self)@[k].name == name@
                            &&& final(self)@[k].username == new_username@
                            &&& (password@.len() == 0 ==> final(self)@[k].password_hash == old(
                                self,
                            )@[k].password_hash)
                            &&& (password@.len() > 0 ==> bcrypt_accepts(
                                password@,
                                final(self)@[k].password_hash,
                            ))
                        }
                },
                Err(e) => {
                    &&& final(self)@ == old(self)@
                    &&& (e == CmsError::DuplicateKey || e == CmsError::StoreUnavailable)
                    &&& (e == CmsError::DuplicateKey ==> new_username@ != username@
                        && spec_user_lookup(old(self)@, new_username@) is Some
                        && spec_user_lookup(old(self)@, username@) is Some)
                    &&& (e == CmsError::StoreUnavailable ==> password@.len() > 0)
                },
            },
            (spec_user_lookup(old(self)@, username@) is None) ==> r is Ok,
    {
        let n = self.rows.len();
        let mut i: usize = 0;
        while i < n
            invariant
                0 <= i <= n,
                n == self@.len(),
                self == old(self),
                forall|k: int| 0 <= k < i ==> (#[trigger] self@[k].username) != username@,
            decreases n - i,
        {
            if self.rows[i].username == *username {
                proof {
                    lemma_user_lookup_finds(self@, username@, i as int);
                }
                // a rename may not take a username another row holds
                if !(new_username == *username) {
                    let m = self.rows.len();
                    let mut j: usize = 0;
                    while j < m
                        invariant
                            0 <= j <= m,
                            m == self@.len(),
                            self == old(self),
                            forall|k: int| 0 <= k < j ==> (#[trigger] self@[k].username)
                                != new_username@,
                        decreases m - j,
                    {
                        if self.rows[j].username == new_username {
                            proof {
                                lemma_user_lookup_finds(self@, new_username@, j as int);
                            }
                            return Err(CmsError::DuplicateKey);
                        }
                        proof {
                            assert(self@[j as int].username == self.rows@[j as int]@.username);
                        }
                        j = j + 1;
                    }
                }
                let hash: String = if password.as_str().is_empty() {
                    self.rows[i].password_hash.clone()
                } else {
                    match hash_password(password) {
                        None => {
                            return Err(CmsError::StoreUnavailable);
                        },
                        Some(h) => h,
                    }
                };
                proof {
                    assert forall|k: int|
                        0 <= k < old(self)@.len() && k != i implies (
                    #[trigger] old(self)@[k].username) != username@ by {
                        if k > i as int {
                            assert(old(self)@[i as int].username != old(self)@[k].username);
                        }
                    }
                }
                let rec = UserRecord { name, username: new_username, password_hash: hash };
                self.rows.set(i, rec);
                proof {
                    assert forall|k: int| 0 <= k < self@.len() implies self@[k] == (if k == i {
                        rec@
                    } else {
                        old(self)@[k]
                    }) by {
                        assert(self@[k] == self.rows@[k]@);
                        if k != i as int {
                            assert(self.rows@[k] == old(self).rows@[k]);
                        }
                    }
                }
                return Ok(());
            }
            proof {
                assert(self@[i as int].username == self.rows@[i as int]@.username);
            }
            i = i + 1;
        }
        proof {
            lemma_user_lookup_none_iff(self@, username@);
        }
        Ok(())
    }

    /// Deletes the row keyed `username`; a missing username is a silent
    /// no-op.
    pub fn delete(&mut self, username: &String)
        requires
            old(self).wf(),
        ensures
            final(self).wf(),
            final(self)@ == spec_remove_user(old(self)@, username@),
    {
        let n = self.rows.len();
        let mut i: usize = 0;
        while i < n
            invariant
                0 <= i <= n,
                n == self@.len(),
                self == old(self),
                forall|k: int| 0 <= k < i ==> (#[trigger] self@[k].username) != username@,
            decreases n - i,
        {
            if self.rows[i].username == *username {
                proof {
                    assert(old(self)@[i as int].username == username@);
                    assert forall|k: int|
                        0 <= k < old(self)@.len() && k != i implies (
                    #[trigger] old(self)@[k].username) != username@ by {
                        if k > i as int {
                            assert(old(self)@[i as int].username != old(self)@[k].username);
                        }
                    }
                    lemma_remove_user_at(old(self)@, username@, i as int);
                }
                self.rows.remove(i);
                proof {
                    let removed = old(self)@.remove(i as int);
                    assert forall|k: int| 0 <= k < removed.len() implies self@[k]
                        == removed[k] by {
                        assert(self@[k] == self.rows@[k]@);
                        if k < i as int {
                            assert(self.rows@[k] == old(self).rows@[k]);
                        } else {
                            assert(self.rows@[k] == old(self).rows@[k + 1]);
                        }
                    }
                    assert(self@ =~= removed);
                }
                return ;
            }
            proof {
                assert(self@[i as int].username == self.rows@[i as int]@.username);
            }
            i = i + 1;
        }
        proof {
            lemma_remove_user_absent(self@, username@);
        }
    }

    /// The display name and username of the row keyed `username`; a missing
    /// username yields a pair of empty strings, as the stored roster's
    /// default row reads.
    pub fn get(&self, username: &String) -> (r: (String, String))
        ensures
            match spec_user_lookup(self@, username@) {
                Some(u) => r.0@ == u.name && r.1@ == u.username,
                None => r.0@.len() == 0 && r.1@.len() == 0,
            },
    {
        let n = self.rows.len();
        let mut i: usize = 0;
        while i < n
            invariant
                0 <= i <= n,
                n == self@.len(),
                forall|k: int| 0 <= k < i ==> (#[trigger] self@[k].username) != username@,
            decreases n - i,
        {
            if self.rows[i].username == *username {
                proof {
                    lemma_user_lookup_finds(self@, username@, i as int);
                }
                return (self.rows[i].name.clone(), self.rows[i].username.clone());
            }
            proof {
                assert(self@[i as int].username == self.rows@[i as int]@.username);
            }
            i = i + 1;
        }
        proof {
            lemma_user_lookup_none_iff(self@, username@);
        }
        (String::new(), String::new())
    }

    /// Every roster row, in stored order: what a host persists.
    pub fn rows(&self) -> (r: Vec<UserRecord>)
        ensures
            user_views(r@) == self@,
    {
        let n = self.rows.len();
        let mut out: Vec<UserRecord> = Vec::new();
        let mut i: usize = 0;
        while i < n
            invariant
                0 <= i <= n,
                n == self@.len(),
                out@.len() == i,
                forall|k: int| 0 <= k < i ==> (#[trigger] out@[k]@) == self@[k],
            decreases n - i,
        {
            let ghost prev = out@;
            let rec = self.rows[i].duplicate();
            out.push(rec);
            proof {
                assert forall|k: int| 0 <= k < i + 1 implies (#[trigger] out@[k]@) == self@[k] by {
                    assert(self@[k] == self.rows@[k]@);
                    if k < i as int {
                        assert(out@[k] == prev[k]);
                    }
                }
            }
            i = i + 1;
        }
        proof {
            assert(user_views(out@) =~= self@);
        }
        out
    }

    /// Every roster row formatted for the listing: `name (username)`.
    pub fn list_formatted(&self) -> (r: Vec<String>)
        ensures
            r@.len() == self@.len(),
            forall|k: int| 0 <= k < r@.len() ==> (#[trigger] r@[k]@) == spec_user_entry(self@[k]),
    {
        let n = self.rows.len();
        let mut out: Vec<String> = Vec::new();
        let mut i: usize = 0;
        while i < n
            invariant
                0 <= i <= n,
                n == self@.len(),
                out@.len() == i,
                forall|k: int| 0 <= k < i ==> (#[trigger] out@[k]@) == spec_user_entry(self@[k]),
            decreases n - i,
        {
            let ghost prev = out@;
            let mut entry = self.rows[i].name.clone();
            entry.append(" (");
            entry.append(self.rows[i].username.as_str());
            entry.append(")");
            proof {
                assert(self@[i as int] == self.rows@[i as int]@);
            }
            out.push(entry);
            proof {
                assert forall|k: int| 0 <= k < i + 1 implies (#[trigger] out@[k]@)
                    == spec_user_entry(self@[k]) by {
                    if k < i as int {
                        assert(out@[k] == prev[k]);
                    }
                }
            }
            i = i + 1;
        }
        out
    }
}

} // verus!
