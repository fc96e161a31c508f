//! The configuration-engine-backed store: the roster and active set kept as
//! multi-valued entries of the host version-control system's configuration,
//! through `git2`. Only the raw backend calls are trusted; everything around
//! them — formatting, parsing, the decision logic — is verified.

use vstd::prelude::*;

use crate::author::Author;
use crate::store::{author_views, parse_entries, valid_all, Store, StoreError, StoreResult};

verus! {

#[verifier::external_type_specification]
#[verifier::external_body]
pub struct ExGitConfig(git2::Config);

#[verifier::external_type_specification]
#[verifier::external_body]
pub struct ExGitError(git2::Error);

/// Relies on `git2::Config::open_default`: opens the global, XDG and system
/// configuration files as one prioritized configuration.
pub assume_specification[ git2::Config::open_default ]() -> (r: Result<
    git2::Config,
    git2::Error,
>);

/// Relies on `git2::Config::set_multivar`: sets the multivar entries of `name`
/// whose current value matches `regexp`; with a regexp matching no existing
/// value (such as `^$` against non-empty values) it appends one more value,
/// removing none.
pub assume_specification[ git2::Config::set_multivar ](
    cfg: &mut git2::Config,
    name: &str,
    regexp: &str,
    value: &str,
) -> (r: Result<(), git2::Error>);

/// Relies on `git2::Config::remove_multivar`: removes the multivar entries of
/// `name` whose value matches `regexp` (`.*` removes all of them), and fails
/// with a not-found error when there is nothing to remove.
pub assume_specification[ git2::Config::remove_multivar ](
    cfg: &mut git2::Config,
    name: &str,
    regexp: &str,
) -> (r: Result<(), git2::Error>);

/// Relies on `git2::Error::message`: the human-readable message of a backend
/// error.
pub assume_specification<'a>[ git2::Error::message ](e: &'a git2::Error) -> (r: &'a str);

/// Relies on `git2::Config::open`: opens the single on-disk configuration file
/// at `path`.
#[verifier::external_body]
fn open_config_at(path: &str) -> (r: Result<git2::Config, git2::Error>) {
    git2::Config::open(std::path::Path::new(path))
}

/// Relies on `git2::Config::entries` and `git2::ConfigEntries::next`: collects,
/// in file order, the values of the entries whose key matches the glob.
#[verifier::external_body]
fn config_values(cfg: &git2::Config, glob: &str) -> (r: Result<Vec<String>, git2::Error>) {
    let mut out = Vec::new();
    let mut entries = cfg.entries(Some(glob))?;
    while let Some(entry) = entries.next() {
        let entry = entry?;
        if entry.has_value() {
            out.push(entry.value()?.to_string());
        }
    }
    Ok(out)
}

/// Relies on `git2::Error::code`: tells whether the error is `NotFound`.
#[verifier::external_body]
fn is_not_found(e: &git2::Error) -> (r: bool) {
    e.code() == git2::ErrorCode::NotFound
}

/// Maps a backend failure to the library's error, carrying its message.
fn backend_err(e: &git2::Error) -> (r: StoreError)
    ensures
        r matches StoreError::Backend(_),
{
    StoreError::Backend(e.message().to_owned())
}

/// A store backed by the version-control system's configuration.
pub struct GitConfig {
    config: git2::Config,
}

impl GitConfig {
    /// Opens the default (global) configuration as a store. A failure to open
    /// is a backend error, never a parse error.
    pub fn new() -> (r: StoreResult<GitConfig>)
        ensures
            r matches Err(e) ==> e matches StoreError::Backend(_),
    {
        match git2::Config::open_default() {
            Ok(config) => Ok(GitConfig { config }),
            Err(e) => Err(backend_err(&e)),
        }
    }

    /// Opens the configuration file at `path` as a store; this lets the store
    /// run against a scratch file instead of the host configuration. A failure
    /// to open is a backend error, never a parse error.
    pub fn with_config_path(path: &str) -> (r: StoreResult<GitConfig>)
        ensures
            r matches Err(e) ==> e matches StoreError::Backend(_),
    {
        match open_config_at(path) {
            Ok(config) => Ok(GitConfig { config }),
            Err(e) => Err(backend_err(&e)),
        }
    }

    /// Reads and parses the values under one exactly-anchored key glob.
    fn parsed_values(&self, glob: &str) -> (r: StoreResult<Vec<Author>>)
        ensures
            r matches Ok(v) ==> valid_all(author_views(v@)),
    {
        match config_values(&self.config, glob) {
            Ok(vals) => match parse_entries(&vals) {
                Ok(authors) => Ok(authors),
                Err(e) => Err(StoreError::Parse(e)),
            },
            Err(e) => Err(backend_err(&e)),
        }
    }
}

impl Store for GitConfig {
    fn add(&mut self, author: &Author) -> (r: StoreResult<()>) {
        let line = author.roundtrip_line();
        match self.config.set_multivar("pair.author", "^$", line.as_str()) {
            Ok(_) => Ok(()),
            Err(e) => Err(backend_err(&e)),
        }
    }

    fn active(&self) -> (r: StoreResult<Vec<Author>>) {
        self.parsed_values("^pair\\.active$")
    }

    fn authors(&self) -> (r: StoreResult<Vec<Author>>) {
        self.parsed_values("^pair\\.author$")
    }

    fn clear(&mut self) -> (r: StoreResult<()>) {
        match self.config.remove_multivar("pair.active", ".*") {
            Ok(_) => Ok(()),
            Err(e) => if is_not_found(&e) {
                // Nothing was active; clearing an empty active set succeeds.
                Ok(())
            } else {
                Err(backend_err(&e))
            },
        }
    }

    fn set(&mut self, authors: &[Author]) -> (r: StoreResult<()>) {
        if authors.len() == 0 {
            return Ok(());
        }
        let current = match self.active() {
            Ok(v) => v,
            Err(e) => {
                return Err(e);
            },
        };
        if current.len() > 0 {
            match self.config.remove_multivar("pair.active", ".*") {
                Ok(_) => (),
                Err(e) => {
                    if !is_not_found(&e) {
                        return Err(backend_err(&e));
                    }
                },
            }
        }
        let mut i: usize = 0;
        while i < authors.len()
            invariant
                0 <= i <= authors@.len(),
            decreases authors@.len() - i,
        {
            let line = authors[i].roundtrip_line();
            match self.config.set_multivar("pair.active", "^$", line.as_str()) {
                Ok(_) => (),
                Err(e) => {
                    return Err(backend_err(&e));
                },
            }
            i += 1;
        }
        Ok(())
    }
}

} // verus!
