//! A helper library for maintaining a roster of co-author identities and an
//! "active" subset of them, stored as multi-valued entries of a key/value
//! configuration backend and rendered as commit-message trailers.

pub mod author;
pub mod cli;
pub mod git_store;
pub mod store;
pub mod text;

use vstd::prelude::*;

use crate::author::Author;
use crate::git_store::GitConfig;
use crate::store::{select_by_alias, Store, StoreError, StoreResult};

verus! {

/// Adds one identity to the roster of the default configuration. Nothing is
/// parsed on this path, so the only failure is the backend's — opening the
/// configuration or appending to it.
pub fn add(alias: String, name: String, email: String) -> (r: StoreResult<()>)
    ensures
        r is Ok || r matches Err(StoreError::Backend(_)),
{
    let author = Author { alias, name, email };
    let mut store = match GitConfig::new() {
        Ok(s) => s,
        Err(e) => {
            return Err(e);
        },
    };
    store.add(&author)
}

/// Clears the active set of the default configuration; a no-op when nothing
/// is active. Nothing is parsed on this path, so the only failure is the
/// backend's.
pub fn reset() -> (r: StoreResult<()>)
    ensures
        r is Ok || r matches Err(StoreError::Backend(_)),
{
    let mut store = match GitConfig::new() {
        Ok(s) => s,
        Err(e) => {
            return Err(e);
        },
    };
    store.clear()
}

/// Filters the roster of the default configuration by the given aliases — in
/// roster order, not input order — and makes the result the active set. The
/// selection itself is [`select_by_alias`], whose contract pins it exactly;
/// this boundary can fail both ways: a malformed stored entry surfaces as a
/// parse error, the configuration engine's failures as backend errors.
pub fn set(aliases: Vec<String>) -> (r: StoreResult<()>)
    ensures
        r matches Err(e) ==> e matches StoreError::Parse(_) || e matches StoreError::Backend(_),
{
    let mut store = match GitConfig::new() {
        Ok(s) => s,
        Err(e) => {
            return Err(e);
        },
    };
    let roster = match store.authors() {
        Ok(v) => v,
        Err(e) => {
            return Err(e);
        },
    };
    let chosen = select_by_alias(&roster, &aliases);
    store.set(chosen.as_slice())
}

} // verus!
