//! The credential store: one persistent connection to an embedded SQL
//! database holding the user table.
//!
//! The store is modelled as a map from user name to the stored hash and
//! revocation counter; the trusted wrappers around the outside database
//! crate state how each statement reads or rewrites that map, and the
//! store's operations are verified against them.
use vstd::prelude::*;

use crate::models::User;
use crate::server::Error;

verus! {

#[verifier::external_type_specification]
#[verifier::external_body]
pub struct ExConnection(rusqlite::Connection);

/// A handle on the persisted user table.
pub struct Database {
    conn: rusqlite::Connection,
}

/// What the user table behind a connection holds: name to (pass_hash,
/// token_version).
pub uninterp spec fn db_users(c: rusqlite::Connection) -> Map<Seq<char>, (Seq<char>, u32)>;

impl Database {
    /// The store's contents, as a map from user name to the stored hash and
    /// revocation counter.
    pub closed spec fn users(self) -> Map<Seq<char>, (Seq<char>, u32)> {
        db_users(self.conn)
    }
}

/// Relies on `rusqlite::Connection::open`: opens or creates the database at
/// `file` (`:memory:` for a transient one). Nothing is assumed of what it
/// holds.
#[verifier::external_body]
fn open_conn(file: &str) -> Option<rusqlite::Connection> {
    rusqlite::Connection::open(file).ok()
}

/// Relies on `rusqlite::Connection::pragma_update`: turns referential
/// integrity enforcement on for this connection.
#[verifier::external_body]
fn enable_foreign_keys(conn: &rusqlite::Connection) -> bool {
    conn.pragma_update(None, "foreign_keys", "ON").is_ok()
}

/// Relies on `rusqlite::Connection::execute`: creates the user table if the
/// store does not hold one yet, with `name` unique and `token_version`
/// starting at zero.
#[verifier::external_body]
fn ensure_schema(conn: &rusqlite::Connection) -> bool {
    conn.execute(
        "CREATE TABLE IF NOT EXISTS users (\
         name TEXT PRIMARY KEY, \
         pass_hash TEXT NOT NULL, \
         token_version INTEGER NOT NULL DEFAULT 0)",
        [],
    ).is_ok()
}

/// Relies on rusqlite's `prepare`, `query`, `next` and `Row::get` by column
/// name: reads the one row of the user table whose `name` column equals
/// `name`, or nothing when no row matches.
#[verifier::external_body]
fn query_user(db: &Database, name: &str) -> (r: Result<Option<(String, String, u32)>, ()>)
    ensures
        match r {
            Ok(Some((n, h, v))) => db_users(db.conn).contains_key(name@) && n@ == name@
                && db_users(db.conn)[name@] == (h@, v),
            Ok(None) => !db_users(db.conn).contains_key(name@),
            Err(()) => true,
        },
{
    let run = || -> rusqlite::Result<Option<(String, String, u32)>> {
        let mut stmt = db.conn.prepare(
            "SELECT name, pass_hash, token_version FROM users WHERE name = ?1",
        )?;
        let mut rows = stmt.query((name,))?;
        match rows.next()? {
            Some(row) => Ok(Some((row.get("name")?, row.get("pass_hash")?, row.get("token_version")?))),
            None => Ok(None),
        }
    };
    run().map_err(|_| ())
}

/// How a write to the store can fail.
#[derive(Clone, Copy, PartialEq, Eq, Structural, Debug)]
pub enum StoreFail {
    /// The uniqueness constraint on `name` rejected the row.
    Duplicate,
    /// Any other storage failure; the store is unchanged.
    Other,
}

/// Relies on `rusqlite::Connection::execute` with an INSERT: adds the row
/// with `token_version` at its initial value of zero, or reports the
/// uniqueness-constraint violation on `name`, told apart by SQLite's
/// extended error code for a unique-constraint failure.
#[verifier::external_body]
fn insert_user_row(db: &mut Database, name: &str, pass_hash: &str) -> (r: Result<(), StoreFail>)
    ensures
        match r {
            Ok(()) => !db_users(old(db).conn).contains_key(name@) && db_users(final(db).conn)
                == db_users(old(db).conn).insert(name@, (pass_hash@, 0u32)),
            Err(StoreFail::Duplicate) => db_users(old(db).conn).contains_key(name@) && db_users(
                final(db).conn,
            ) == db_users(old(db).conn),
            Err(StoreFail::Other) => db_users(final(db).conn) == db_users(old(db).conn),
        },
{
    match db.conn.execute(
        "INSERT INTO users (name, pass_hash) VALUES (?1, ?2)",
        (name, pass_hash),
    ) {
        Ok(_) => Ok(()),
        Err(rusqlite::Error::SqliteFailure(e, _)) if e.code
            == rusqlite::ffi::ErrorCode::ConstraintViolation && (e.extended_code
            == rusqlite::ffi::SQLITE_CONSTRAINT_UNIQUE || e.extended_code
            == rusqlite::ffi::SQLITE_CONSTRAINT_PRIMARYKEY) => Err(StoreFail::Duplicate),
        Err(_) => Err(StoreFail::Other),
    }
}

/// Relies on `rusqlite::Connection::execute` with an UPDATE: adds one to the
/// matching row's `token_version`, and changes nothing when no row matches.
#[verifier::external_body]
fn increment_row(db: &mut Database, name: &str) -> (r: Result<(), ()>)
    ensures
        match r {
            Ok(()) => if db_users(old(db).conn).contains_key(name@) {
                db_users(old(db).conn)[name@].1 < u32::MAX ==> db_users(final(db).conn)
                    == db_users(old(db).conn).insert(
                    name@,
                    (db_users(old(db).conn)[name@].0, (db_users(old(db).conn)[name@].1 + 1) as u32),
                )
            } else {
                db_users(final(db).conn) == db_users(old(db).conn)
            },
            Err(()) => db_users(final(db).conn) == db_users(old(db).conn),
        },
{
    match db.conn.execute(
        "UPDATE users SET token_version = token_version + 1 WHERE name = ?1",
        (name,),
    ) {
        Ok(_) => Ok(()),
        Err(_) => Err(()),
    }
}

impl Database {
    /// Opens (or creates) the store at `file`, turns referential-integrity
    /// enforcement on and makes sure the user table exists.
    pub fn new(file: &str) -> Result<Database, Error> {
        let conn = match open_conn(file) {
            Some(c) => c,
            None => {
                return Err(Error::Storage);
            },
        };
        if !enable_foreign_keys(&conn) {
            return Err(Error::Storage);
        }
        if !ensure_schema(&conn) {
            return Err(Error::Storage);
        }
        Ok(Database { conn })
    }

    /// Returns the record stored under `name`; `UserNotFound` exactly when
    /// the store holds no such record.
    pub fn get_user_by_name(&self, name: &str) -> (r: Result<User, Error>)
        ensures
            match r {
                Ok(u) => self.users().contains_key(name@) && u.name@ == name@
                    && self.users()[name@] == (u.pass_hash@, u.token_version),
                Err(e) => match e {
                    Error::UserNotFound(n) => !self.users().contains_key(name@) && n@ == name@,
                    Error::Storage => true,
                    _ => false,
                },
            },
    {
        match query_user(self, name) {
            Ok(Some((n, h, v))) => Ok(User { name: n, pass_hash: h, token_version: v }),
            Ok(None) => Err(Error::UserNotFound(name.to_owned())),
            Err(()) => Err(Error::Storage),
        }
    }

    /// Creates a record under `name` with the revocation counter at zero;
    /// `DuplicateName` exactly when the store already holds the name, found
    /// out by the store's own uniqueness constraint rather than a racy
    /// pre-check.
    pub fn insert_user(&mut self, name: &str, pass_hash: &str) -> (r: Result<(), Error>)
        ensures
            match r {
                Ok(()) => !old(self).users().contains_key(name@) && final(self).users() == old(
                    self,
                ).users().insert(name@, (pass_hash@, 0u32)),
                Err(e) => match e {
                    Error::DuplicateName(n) => old(self).users().contains_key(name@) && n@ == name@
                        && final(self).users() == old(self).users(),
                    Error::Storage => final(self).users() == old(self).users(),
                    _ => false,
                },
            },
    {
        match insert_user_row(self, name, pass_hash) {
            Ok(()) => Ok(()),
            Err(StoreFail::Duplicate) => Err(Error::DuplicateName(name.to_owned())),
            Err(StoreFail::Other) => Err(Error::Storage),
        }
    }

    /// Adds exactly one to the revocation counter stored under `name`; on a
    /// name the store does not hold it changes nothing and still reports
    /// success, mirroring the underlying UPDATE matching no row.
    pub fn increment_token(&mut self, name: &str) -> (r: Result<(), Error>)
        ensures
            match r {
                Ok(()) => if old(self).users().contains_key(name@) {
                    old(self).users()[name@].1 < u32::MAX ==> final(self).users() == old(
                        self,
                    ).users().insert(
                        name@,
                        (old(self).users()[name@].0, (old(self).users()[name@].1 + 1) as u32),
                    )
                } else {
                    final(self).users() == old(self).users()
                },
                Err(e) => e == Error::Storage && final(self).users() == old(self).users(),
            },
    {
        match increment_row(self, name) {
            Ok(()) => Ok(()),
            Err(()) => Err(Error::Storage),
        }
    }
}

} // verus!
