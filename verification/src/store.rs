//! The durable token store: a set of opaque bearer tokens kept in a
//! single-table embedded database on disk, so that issued tokens survive
//! a restart.
//!
//! The database value is opaque to the verifier; what a lookup returns
//! depends on the state on disk, so the callers' contracts state what
//! holds of every outcome.

use vstd::prelude::*;

use redb::ReadableDatabase;
use redb::TableHandle;

verus! {

#[verifier::external_type_specification]
#[verifier::external_body]
pub struct ExDatabase(redb::Database);

/// The durable set of bearer tokens. Keys are the token strings; the
/// values are empty. The single table is named `tokens`; a store whose
/// database holds no such table contains nothing.
pub struct TokenStore {
    db: redb::Database,
}

impl TokenStore {
    /// Wrap an opened database. The application opens the file under the
    /// configured data directory at startup.
    pub fn new(db: redb::Database) -> TokenStore {
        TokenStore { db }
    }

    /// Relies on redb: `Database::begin_write`,
    /// `WriteTransaction::open_table`, `Table::insert` and
    /// `WriteTransaction::commit`, one committed write transaction that
    /// adds the token to the `tokens` table. Returns whether the write
    /// committed; the outcome depends on the database state on disk, and
    /// a committed write is durable before this returns.
    #[verifier::external_body]
    pub fn insert(&self, token: &Vec<u8>) -> (r: bool) {
        let key = match std::str::from_utf8(token) {
            Ok(k) => k,
            Err(_) => return false,
        };
        let txn = match self.db.begin_write() {
            Ok(t) => t,
            Err(_) => return false,
        };
        let written = match txn.open_table(redb::TableDefinition::<&str, ()>::new("tokens")) {
            Ok(mut table) => table.insert(key, ()).is_ok(),
            Err(_) => false,
        };
        written && txn.commit().is_ok()
    }

    /// Relies on redb: `Database::begin_read`,
    /// `ReadTransaction::list_tables`, `ReadTransaction::open_table` and
    /// `ReadOnlyTable::get`, one read transaction that looks the token up
    /// in the `tokens` table; a database without that table contains
    /// nothing. The outcome depends on the database state on disk; a
    /// failed transaction is an error, not absence.
    #[verifier::external_body]
    pub fn contains(&self, token: &Vec<u8>) -> (r: Result<bool, ()>) {
        let key = match std::str::from_utf8(token) {
            Ok(k) => k,
            Err(_) => return Ok(false),
        };
        let txn = self.db.begin_read().map_err(|_| ())?;
        let mut present = false;
        for h in txn.list_tables().map_err(|_| ())? {
            present = present || h.name() == "tokens";
        }
        if !present {
            return Ok(false);
        }
        let table = txn.open_table(redb::TableDefinition::<&str, ()>::new("tokens")).map_err(|_| ())?;
        Ok(table.get(key).map_err(|_| ())?.is_some())
    }
}

} // verus!
