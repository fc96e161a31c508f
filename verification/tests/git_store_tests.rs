use std::io::Write;

use tempfile::NamedTempFile;

use git_coauthors::author::Author;
use git_coauthors::git_store::GitConfig;
use git_coauthors::store::Store;

fn author(alias: &str, name: &str, email: &str) -> Author {
    Author { alias: alias.to_string(), name: name.to_string(), email: email.to_string() }
}

fn store_at(file: &NamedTempFile) -> GitConfig {
    GitConfig::with_config_path(file.path().to_str().unwrap()).unwrap()
}

/// Reads back every `(key, value)` entry the configuration file holds after
/// the store has rewritten it.
fn read_back(file: &NamedTempFile) -> Vec<(String, String)> {
    let cfg = git2::Config::open(file.path()).unwrap();
    let mut entries = cfg.entries(None).unwrap();
    let mut out = Vec::new();
    while let Some(entry) = entries.next() {
        let entry = entry.unwrap();
        let name = entry.name().unwrap().to_string();
        let value = entry.value().unwrap().to_string();
        out.push((name, value));
    }
    out
}

fn has_key_containing(entries: &[(String, String)], part: &str) -> bool {
    entries.iter().any(|(k, _)| k.contains(part))
}

fn has_entry(entries: &[(String, String)], key: &str, value: &str) -> bool {
    entries.iter().any(|(k, v)| k == key && v == value)
}

#[test]
fn authors() {
    let mut file = NamedTempFile::new().unwrap();
    let store = store_at(&file);

    file.write_all(
        b"[pair]
          author = gd | Good Dog | good_dog@gmail.com
          author = ic | Ice Cream | cool_cream@hotmail.com
        ",
    )
    .unwrap();

    assert_eq!(
        store.authors().unwrap(),
        vec![
            author("gd", "Good Dog", "good_dog@gmail.com"),
            author("ic", "Ice Cream", "cool_cream@hotmail.com"),
        ]
    );
}

#[test]
fn authors_no_overeager_matching() {
    let mut file = NamedTempFile::new().unwrap();
    let store = store_at(&file);

    file.write_all(
        b"
[git-pair]
  author = gd | Good Dog | good_dog@gmail.com
  author = ic | Ice Cream | cool_cream@hotmail.com
[pair]
  author = gd | Good Dog | good_dog@gmail.com
  author = ic | Ice Cream | cool_cream@hotmail.com
        ",
    )
    .unwrap();

    assert_eq!(
        store.authors().unwrap(),
        vec![
            author("gd", "Good Dog", "good_dog@gmail.com"),
            author("ic", "Ice Cream", "cool_cream@hotmail.com"),
        ]
    );
}

#[test]
fn active() {
    let mut file = NamedTempFile::new().unwrap();
    let store = store_at(&file);

    file.write_all(
        b"[pair]
          author = gd | Good Dog | good_dog@gmail.com
          active = gd | Good Dog | good_dog@gmail.com
        ",
    )
    .unwrap();

    assert_eq!(store.active().unwrap(), vec![author("gd", "Good Dog", "good_dog@gmail.com")]);
}

#[test]
fn active_no_overeager_matching() {
    let mut file = NamedTempFile::new().unwrap();
    let store = store_at(&file);

    file.write_all(
        b"
[git-pair]
  active = gd | Good Dog | good_dog@gmail.com
[pair]
  active = gd | Good Dog | good_dog@gmail.com
        ",
    )
    .unwrap();

    assert_eq!(store.active().unwrap(), vec![author("gd", "Good Dog", "good_dog@gmail.com")]);
}

#[test]
fn clear() {
    let mut file = NamedTempFile::new().unwrap();
    file.write_all(
        b"
[pair]
  author = gd | Good Dog | good_dog@gmail.com
  active = gd | Good Dog | good_dog@gmail.com
        ",
    )
    .unwrap();

    let mut store = store_at(&file);

    store.clear().unwrap();

    assert!(!has_key_containing(&read_back(&file), "active"));
}

#[test]
fn clear_no_overeager_matching() {
    let mut file = NamedTempFile::new().unwrap();
    file.write_all(
        b"
[git-pair]
  author = gd | Good Dog | good_dog@gmail.com
  active = gd | Good Dog | good_dog@gmail.com
[pair]
  author = gd | Good Dog | good_dog@gmail.com
  active = gd | Good Dog | good_dog@gmail.com
        ",
    )
    .unwrap();

    let mut store = store_at(&file);

    store.clear().unwrap();

    assert!(has_key_containing(&read_back(&file), "active"));
}

#[test]
fn backend_error_surfaces() {
    let dir = tempfile::tempdir().unwrap();
    let r = match GitConfig::with_config_path(dir.path().to_str().unwrap()) {
        Ok(store) => store.authors(),
        Err(e) => Err(e),
    };
    assert!(matches!(r, Err(git_coauthors::store::StoreError::Backend(_))));
}

#[test]
fn clear_succeeds_on_empty_active_set() {
    let file = NamedTempFile::new().unwrap();
    let mut store = store_at(&file);

    store.clear().unwrap();
    store.clear().unwrap();

    assert_eq!(store.active().unwrap(), vec![]);
}

#[test]
fn add() {
    let file = NamedTempFile::new().unwrap();
    let mut store = store_at(&file);

    store.add(&author("gd", "Good Dog", "good_dog@gmail.com")).unwrap();

    let contents = read_back(&file);
    assert!(has_key_containing(&contents, "pair"));
    assert!(has_entry(&contents, "pair.author", "gd | Good Dog | good_dog@gmail.com"));
}

#[test]
fn set() {
    let mut file = NamedTempFile::new().unwrap();

    file.write_all(
        b"
[git-pair]
  author = gd | Good Dog | good_dog@gmail.com
[pair]
  author = gd | Good Dog | good_dog@gmail.com
        ",
    )
    .unwrap();

    let mut store = store_at(&file);

    store.set(&[author("gd", "Good Dog", "good_dog@gmail.com")]).unwrap();

    assert!(has_entry(&read_back(&file), "pair.active", "gd | Good Dog | good_dog@gmail.com"));
}
