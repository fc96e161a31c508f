use git_coauthors::author::Author;
use git_coauthors::store::{select_by_alias, MemStore, Store, StoreError};

fn author(alias: &str, name: &str, email: &str) -> Author {
    Author { alias: alias.to_string(), name: name.to_string(), email: email.to_string() }
}

#[test]
fn add_then_authors_returns_exactly_that_author() {
    let mut store = MemStore::new();
    let a = author("gd", "Good Dog", "good_dog@gmail.com");
    store.add(&a).unwrap();
    assert_eq!(store.authors().unwrap(), vec![a]);
}

#[test]
fn add_tolerates_duplicates() {
    let mut store = MemStore::new();
    let a = author("gd", "Good Dog", "good_dog@gmail.com");
    store.add(&a).unwrap();
    store.add(&a).unwrap();
    assert_eq!(store.authors().unwrap().len(), 2);
}

#[test]
fn namespace_isolation() {
    let mut store = MemStore::new();
    store.push_entry("some-other-prefix-pair.author", "ic | Ice Cream | cool_cream@hotmail.com");
    store.push_entry("pair.author", "gd | Good Dog | good_dog@gmail.com");
    store.push_entry("pair.author.extra", "nb | No Body | nobody@nowhere.io");
    assert_eq!(store.authors().unwrap(), vec![author("gd", "Good Dog", "good_dog@gmail.com")]);
}

#[test]
fn roster_and_active_are_separate() {
    let mut store = MemStore::new();
    store.push_entry("pair.author", "gd | Good Dog | good_dog@gmail.com");
    store.push_entry("pair.active", "ic | Ice Cream | cool_cream@hotmail.com");
    assert_eq!(store.authors().unwrap(), vec![author("gd", "Good Dog", "good_dog@gmail.com")]);
    assert_eq!(store.active().unwrap(), vec![author("ic", "Ice Cream", "cool_cream@hotmail.com")]);
}

#[test]
fn malformed_entry_fails_the_whole_enumeration() {
    let mut store = MemStore::new();
    store.push_entry("pair.author", "gd | Good Dog | good_dog@gmail.com");
    store.push_entry("pair.author", "garbage");
    assert!(matches!(store.authors(), Err(StoreError::Parse(_))));
}

#[test]
fn clear_is_idempotent_and_safe_on_empty() {
    let mut store = MemStore::new();
    store.clear().unwrap();
    assert_eq!(store.active().unwrap(), vec![]);
    let a = author("gd", "Good Dog", "good_dog@gmail.com");
    store.add(&a).unwrap();
    store.set(&[a.clone()]).unwrap();
    store.clear().unwrap();
    assert_eq!(store.active().unwrap(), vec![]);
    store.clear().unwrap();
    assert_eq!(store.active().unwrap(), vec![]);
    assert_eq!(store.authors().unwrap(), vec![a]);
}

#[test]
fn set_with_empty_input_is_a_noop() {
    let mut store = MemStore::new();
    let a = author("gd", "Good Dog", "good_dog@gmail.com");
    store.add(&a).unwrap();
    store.set(&[a.clone()]).unwrap();
    store.set(&[]).unwrap();
    assert_eq!(store.active().unwrap(), vec![a]);
}

#[test]
fn set_replaces_instead_of_merging() {
    let mut store = MemStore::new();
    let a = author("gd", "Good Dog", "good_dog@gmail.com");
    let b = author("ic", "Ice Cream", "cool_cream@hotmail.com");
    store.add(&a).unwrap();
    store.add(&b).unwrap();
    store.set(&[a.clone()]).unwrap();
    assert_eq!(store.active().unwrap(), vec![a.clone()]);
    store.set(&[b.clone()]).unwrap();
    assert_eq!(store.active().unwrap(), vec![b]);
    assert_eq!(store.authors().unwrap(), vec![a.clone(), author("ic", "Ice Cream", "cool_cream@hotmail.com")]);
}

#[test]
fn set_keeps_the_given_order() {
    let mut store = MemStore::new();
    let a = author("gd", "Good Dog", "good_dog@gmail.com");
    let b = author("ic", "Ice Cream", "cool_cream@hotmail.com");
    store.set(&[b.clone(), a.clone()]).unwrap();
    assert_eq!(store.active().unwrap(), vec![b, a]);
}

#[test]
fn set_fails_on_malformed_active_entries() {
    let mut store = MemStore::new();
    store.push_entry("pair.active", "garbage");
    let b = author("ic", "Ice Cream", "cool_cream@hotmail.com");
    assert!(matches!(store.set(&[b]), Err(StoreError::Parse(_))));
}

#[test]
fn select_by_alias_keeps_roster_order() {
    let roster = vec![
        author("gd", "Good Dog", "good_dog@gmail.com"),
        author("ic", "Ice Cream", "cool_cream@hotmail.com"),
        author("nb", "No Body", "nobody@nowhere.io"),
    ];
    let aliases = vec!["nb".to_string(), "gd".to_string()];
    let chosen = select_by_alias(&roster, &aliases);
    assert_eq!(
        chosen,
        vec![
            author("gd", "Good Dog", "good_dog@gmail.com"),
            author("nb", "No Body", "nobody@nowhere.io"),
        ]
    );
}

#[test]
fn select_by_alias_skips_unknown_aliases() {
    let roster = vec![author("gd", "Good Dog", "good_dog@gmail.com")];
    let aliases = vec!["zz".to_string()];
    assert_eq!(select_by_alias(&roster, &aliases), vec![]);
}
