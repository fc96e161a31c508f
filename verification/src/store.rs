//! The roster / active-set store.
//!
//! The backend is modelled as a sequence of `(key, value)` entries, the order
//! being file order. The roster lives under the multi-valued key
//! `pair.author`, the active set under `pair.active`; every value is one
//! author in round-trip storage form. [`MemStore`] realises the model
//! in memory and is verified against it; a git-config-backed store lives in
//! [`crate::git_store`].

use vstd::prelude::*;

use crate::author::{
    lemma_roundtrip, parse_line, roundtrip_spec, valid_author, Author, AuthorView, ParseError,
};
use crate::text::str_eq;

verus! {

/// The mathematical value of one stored configuration entry.
pub struct EntryView {
    pub key: Seq<char>,
    pub value: Seq<char>,
}

/// One stored configuration entry: a dotted key and one value under it.
#[derive(Debug)]
pub struct ConfigEntry {
    pub key: String,
    pub value: String,
}

impl View for ConfigEntry {
    type V = EntryView;

    open spec fn view(&self) -> EntryView {
        EntryView { key: self.key@, value: self.value@ }
    }
}

impl DeepView for ConfigEntry {
    type V = EntryView;

    open spec fn deep_view(&self) -> EntryView {
        self.view()
    }
}

/// The key the roster is stored under.
pub open spec fn roster_key() -> Seq<char> {
    "pair.author"@
}

/// The key the active set is stored under.
pub open spec fn active_key() -> Seq<char> {
    "pair.active"@
}

/// The roster key as a string slice.
pub fn roster_key_str() -> (r: &'static str)
    ensures
        r@ == roster_key(),
{
    "pair.author"
}

/// The active-set key as a string slice.
pub fn active_key_str() -> (r: &'static str)
    ensures
        r@ == active_key(),
{
    "pair.active"
}

/// The values stored under exactly `key`, in entry order. Entries under any
/// other key — also one of which `key` is a prefix or a suffix — contribute
/// nothing.
pub open spec fn values_under(es: Seq<EntryView>, key: Seq<char>) -> Seq<Seq<char>>
    decreases es.len(),
{
    if es.len() == 0 {
        Seq::empty()
    } else {
        let rest = values_under(es.drop_last(), key);
        if es.last().key == key {
            rest.push(es.last().value)
        } else {
            rest
        }
    }
}

/// The entries that survive removing everything stored under exactly `key`.
pub open spec fn remove_under(es: Seq<EntryView>, key: Seq<char>) -> Seq<EntryView>
    decreases es.len(),
{
    if es.len() == 0 {
        Seq::empty()
    } else {
        let rest = remove_under(es.drop_last(), key);
        if es.last().key == key {
            rest
        } else {
            rest.push(es.last())
        }
    }
}

/// Fail-fast parsing of a sequence of stored values: the whole enumeration
/// fails as soon as any one value does not match the author grammar.
pub open spec fn parse_all(vals: Seq<Seq<char>>) -> Option<Seq<AuthorView>>
    decreases vals.len(),
{
    if vals.len() == 0 {
        Some(Seq::empty())
    } else {
        match (parse_all(vals.drop_last()), parse_line(vals.last())) {
            (Some(front), Some(a)) => Some(front.push(a)),
            _ => None,
        }
    }
}

/// The views of a sequence of authors.
pub open spec fn author_views(authors: Seq<Author>) -> Seq<AuthorView> {
    authors.map_values(|a: Author| a@)
}

/// The entries that storing `authors` under `key` appends, in order.
pub open spec fn author_entries(key: Seq<char>, authors: Seq<AuthorView>) -> Seq<EntryView> {
    authors.map_values(|a: AuthorView| EntryView { key: key, value: roundtrip_spec(a) })
}

/// Every author of the sequence is a valid author value.
pub open spec fn valid_all(authors: Seq<AuthorView>) -> bool {
    forall|i: int| 0 <= i < authors.len() ==> valid_author(authors[i])
}

/// An error of a store operation: a stored value that does not match the
/// author grammar, or a failure of the backend itself (carried as its
/// message).
#[derive(Debug)]
pub enum StoreError {
    Parse(ParseError),
    Backend(String),
}

pub type StoreResult<T> = Result<T, StoreError>;

/// One stored value that fails to parse fails the whole enumeration.
pub proof fn lemma_parse_all_none(vals: Seq<Seq<char>>, i: int)
    requires
        0 <= i < vals.len(),
        parse_line(vals[i]) is None,
    ensures
        parse_all(vals) is None,
    decreases vals.len(),
{
    if i < vals.len() - 1 {
        lemma_parse_all_none(vals.drop_last(), i);
    }
}

/// A successful enumeration returns one author per stored value.
pub proof fn lemma_parse_all_len(vals: Seq<Seq<char>>)
    ensures
        parse_all(vals) matches Some(s) ==> s.len() == vals.len(),
    decreases vals.len(),
{
    if vals.len() > 0 {
        lemma_parse_all_len(vals.drop_last());
    }
}

/// Namespace isolation: every value enumerated under `key` really is stored
/// under exactly `key`.
pub proof fn lemma_namespace_isolation(es: Seq<EntryView>, key: Seq<char>, i: int)
    requires
        0 <= i < values_under(es, key).len(),
    ensures
        exists|j: int|
            0 <= j < es.len() && es[j].key == key && es[j].value == values_under(es, key)[i],
    decreases es.len(),
{
    let vs = values_under(es, key);
    let front = es.drop_last();
    if es.last().key == key && i == vs.len() - 1 {
        assert(es[es.len() - 1].key == key && es[es.len() - 1].value == vs[i]);
    } else {
        lemma_namespace_isolation(front, key, i);
        let j = choose|j: int|
            0 <= j < front.len() && front[j].key == key && front[j].value == values_under(
                front,
                key,
            )[i];
        assert(es[j].key == key && es[j].value == vs[i]);
    }
}

/// Namespace isolation, the other direction: an entry under a different key
/// changes nothing about what is enumerated under `key`.
pub proof fn lemma_values_under_other_key(es: Seq<EntryView>, e: EntryView, key: Seq<char>)
    requires
        e.key != key,
    ensures
        values_under(es.push(e), key) == values_under(es, key),
{
    assert(es.push(e).drop_last() =~= es);
}

/// After a removal nothing is stored under the removed key.
pub proof fn lemma_remove_under_removes(es: Seq<EntryView>, key: Seq<char>)
    ensures
        values_under(remove_under(es, key), key).len() == 0,
    decreases es.len(),
{
    if es.len() > 0 {
        let front = es.drop_last();
        lemma_remove_under_removes(front, key);
        if es.last().key != key {
            let r = remove_under(front, key).push(es.last());
            assert(r.drop_last() =~= remove_under(front, key));
        }
    }
}

/// Removing a key under which nothing is stored changes nothing.
pub proof fn lemma_remove_under_absent(es: Seq<EntryView>, key: Seq<char>)
    requires
        values_under(es, key).len() == 0,
    ensures
        remove_under(es, key) == es,
    decreases es.len(),
{
    if es.len() > 0 {
        let front = es.drop_last();
        lemma_remove_under_absent(front, key);
        assert(remove_under(front, key).push(es.last()) =~= es);
    }
}

/// Removing one key leaves what is stored under any other key unchanged.
pub proof fn lemma_remove_under_preserves_others(
    es: Seq<EntryView>,
    key: Seq<char>,
    other: Seq<char>,
)
    requires
        key != other,
    ensures
        values_under(remove_under(es, key), other) == values_under(es, other),
    decreases es.len(),
{
    if es.len() > 0 {
        let front = es.drop_last();
        lemma_remove_under_preserves_others(front, key, other);
        if es.last().key != key {
            let r = remove_under(front, key).push(es.last());
            assert(r.drop_last() =~= remove_under(front, key));
        }
    }
}

/// The roster and the active set are stored under different keys, so
/// clearing or replacing the active set never touches the roster.
pub proof fn lemma_distinct_keys()
    ensures
        roster_key() != active_key(),
{
    reveal_strlit("pair.author");
    reveal_strlit("pair.active");
    assert(roster_key()[6] == 'u' && active_key()[6] == 'c');
}

/// Clearing is idempotent: one removal leaves nothing under the key, and a
/// second removal is a no-op.
pub proof fn lemma_clear_idempotent(es: Seq<EntryView>, key: Seq<char>)
    ensures
        values_under(remove_under(es, key), key).len() == 0,
        remove_under(remove_under(es, key), key) == remove_under(es, key),
{
    lemma_remove_under_removes(es, key);
    lemma_remove_under_absent(remove_under(es, key), key);
}

/// Appending author entries under `key` appends exactly their round-trip
/// forms to what is enumerated under `key`.
pub proof fn lemma_values_under_author_entries(
    es: Seq<EntryView>,
    key: Seq<char>,
    authors: Seq<AuthorView>,
)
    ensures
        values_under(es + author_entries(key, authors), key) == values_under(es, key)
            + authors.map_values(|a: AuthorView| roundtrip_spec(a)),
    decreases authors.len(),
{
    let rts = authors.map_values(|a: AuthorView| roundtrip_spec(a));
    if authors.len() == 0 {
        assert(es + author_entries(key, authors) =~= es);
        assert(values_under(es, key) + rts =~= values_under(es, key));
    } else {
        let front = authors.drop_last();
        lemma_values_under_author_entries(es, key, front);
        let frts = front.map_values(|a: AuthorView| roundtrip_spec(a));
        let e = EntryView { key: key, value: roundtrip_spec(authors.last()) };
        let whole = es + author_entries(key, authors);
        assert(whole.drop_last() =~= es + author_entries(key, front));
        assert(whole.last() == e);
        assert(values_under(whole, key) =~= values_under(es, key) + rts) by {
            assert(frts.push(roundtrip_spec(authors.last())) =~= rts);
        }
    }
}

/// Parsing the round-trip forms of valid authors yields those authors back.
pub proof fn lemma_parse_all_roundtrip(authors: Seq<AuthorView>)
    requires
        forall|i: int| 0 <= i < authors.len() ==> valid_author(authors[i]),
    ensures
        parse_all(authors.map_values(|a: AuthorView| roundtrip_spec(a))) == Some(authors),
    decreases authors.len(),
{
    let rts = authors.map_values(|a: AuthorView| roundtrip_spec(a));
    if authors.len() == 0 {
        assert(rts =~= Seq::<Seq<char>>::empty());
    } else {
        let front = authors.drop_last();
        lemma_parse_all_roundtrip(front);
        lemma_roundtrip(authors.last());
        let frts = front.map_values(|a: AuthorView| roundtrip_spec(a));
        assert(rts.drop_last() =~= frts);
        assert(front.push(authors.last()) =~= authors);
    }
}

/// After adding one valid author to an empty roster, enumerating the roster
/// yields exactly that author.
pub proof fn lemma_add_then_authors(es: Seq<EntryView>, a: AuthorView)
    requires
        values_under(es, roster_key()).len() == 0,
        valid_author(a),
    ensures
        parse_all(
            values_under(
                es.push(EntryView { key: roster_key(), value: roundtrip_spec(a) }),
                roster_key(),
            ),
        ) == Some(seq![a]),
{
    let e = EntryView { key: roster_key(), value: roundtrip_spec(a) };
    assert(es.push(e).drop_last() =~= es);
    let vs = values_under(es.push(e), roster_key());
    assert(vs =~= seq![roundtrip_spec(a)]);
    lemma_roundtrip(a);
    assert(vs.drop_last() =~= Seq::<Seq<char>>::empty());
    assert(parse_all(Seq::<Seq<char>>::empty()) == Some(Seq::<AuthorView>::empty()));
    assert(vs.last() == roundtrip_spec(a));
    assert(parse_all(vs) == Some(Seq::<AuthorView>::empty().push(a)));
    assert(Seq::<AuthorView>::empty().push(a) =~= seq![a]);
}

/// Setting replaces: after removing the old active entries and appending the
/// given valid authors, enumerating the active set yields exactly those
/// authors — whatever was active before is gone.
pub proof fn lemma_set_replaces(es: Seq<EntryView>, authors: Seq<AuthorView>)
    requires
        forall|i: int| 0 <= i < authors.len() ==> valid_author(authors[i]),
    ensures
        parse_all(
            values_under(
                remove_under(es, active_key()) + author_entries(active_key(), authors),
                active_key(),
            ),
        ) == Some(authors),
{
    lemma_remove_under_removes(es, active_key());
    lemma_values_under_author_entries(remove_under(es, active_key()), active_key(), authors);
    let rts = authors.map_values(|a: AuthorView| roundtrip_spec(a));
    assert(values_under(remove_under(es, active_key()), active_key()) + rts =~= rts);
    lemma_parse_all_roundtrip(authors);
}

/// Parses every stored value, failing fast on the first value that does not
/// match the author grammar.
pub fn parse_entries(values: &Vec<String>) -> (r: Result<Vec<Author>, ParseError>)
    ensures
        match r {
            Ok(authors) => parse_all(values.deep_view()) == Some(author_views(authors@))
                && valid_all(author_views(authors@)),
            Err(_) => parse_all(values.deep_view()) is None,
        },
{
    let mut out: Vec<Author> = Vec::new();
    let mut i: usize = 0;
    while i < values.len()
        invariant
            0 <= i <= values@.len(),
            parse_all(values.deep_view().subrange(0, i as int)) == Some(author_views(out@)),
            forall|j: int| 0 <= j < out@.len() ==> valid_author(author_views(out@)[j]),
        decreases values@.len() - i,
    {
        let ghost prefix = values.deep_view().subrange(0, i as int);
        match Author::parse(values[i].as_str()) {
            Ok(a) => {
                let ghost prev = author_views(out@);
                out.push(a);
                proof {
                    assert(values.deep_view().subrange(0, i + 1).drop_last() =~= prefix);
                    assert(author_views(out@) =~= prev.push(out@[out@.len() - 1]@));
                }
            },
            Err(e) => {
                proof {
                    lemma_parse_all_none(values.deep_view(), i as int);
                }
                return Err(e);
            },
        }
        i += 1;
    }
    proof {
        assert(values.deep_view().subrange(0, i as int) =~= values.deep_view());
    }
    Ok(out)
}

/// Whether `x` occurs in `list`.
pub fn contains_str(list: &Vec<String>, x: &str) -> (r: bool)
    ensures
        r == list.deep_view().contains(x@),
{
    let mut j: usize = 0;
    while j < list.len()
        invariant
            0 <= j <= list@.len(),
            forall|j2: int| 0 <= j2 < j ==> list.deep_view()[j2] != x@,
        decreases list@.len() - j,
    {
        if str_eq(list[j].as_str(), x) {
            assert(list.deep_view()[j as int] == x@);
            return true;
        }
        j += 1;
    }
    false
}

/// The members of `roster` whose alias occurs in `aliases`, in roster order —
/// not in the order of `aliases`.
pub open spec fn select_spec(roster: Seq<AuthorView>, aliases: Seq<Seq<char>>) -> Seq<AuthorView>
    decreases roster.len(),
{
    if roster.len() == 0 {
        Seq::empty()
    } else {
        let rest = select_spec(roster.drop_last(), aliases);
        if aliases.contains(roster.last().alias) {
            rest.push(roster.last())
        } else {
            rest
        }
    }
}

/// Filters the roster down to the authors whose alias is listed, keeping
/// roster order.
pub fn select_by_alias(roster: &Vec<Author>, aliases: &Vec<String>) -> (r: Vec<Author>)
    ensures
        author_views(r@) == select_spec(author_views(roster@), aliases.deep_view()),
{
    let mut out: Vec<Author> = Vec::new();
    let mut i: usize = 0;
    while i < roster.len()
        invariant
            0 <= i <= roster@.len(),
            author_views(out@) == select_spec(
                author_views(roster@.subrange(0, i as int)),
                aliases.deep_view(),
            ),
        decreases roster@.len() - i,
    {
        let ghost prefix = author_views(roster@.subrange(0, i as int));
        let ghost prev = author_views(out@);
        if contains_str(aliases, roster[i].alias.as_str()) {
            out.push(roster[i].clone());
            proof {
                assert(author_views(out@) =~= prev.push(roster@[i as int]@));
            }
        }
        proof {
            let next = author_views(roster@.subrange(0, i + 1));
            assert(next.drop_last() =~= prefix);
            assert(next.last() == roster@[i as int]@);
        }
        i += 1;
    }
    proof {
        assert(roster@.subrange(0, i as int) =~= roster@);
    }
    out
}

/// The store interface: roster and active-set operations over some key/value
/// configuration backend, as a trait so that callers can be exercised against
/// an in-memory store as well as the real configuration engine.
pub trait Store {
    /// Appends one roster entry in round-trip storage form. Duplicates are
    /// allowed and coexist. Nothing is parsed, so the only failure is the
    /// backend's.
    fn add(&mut self, author: &Author) -> (r: StoreResult<()>)
        ensures
            r is Ok || r matches Err(StoreError::Backend(_)),
    ;

    /// Enumerates and parses every entry of the active set, failing fast on
    /// the first malformed entry.
    fn active(&self) -> (r: StoreResult<Vec<Author>>)
        ensures
            r matches Ok(v) ==> valid_all(author_views(v@)),
    ;

    /// Enumerates and parses every entry of the roster, failing fast on the
    /// first malformed entry.
    fn authors(&self) -> (r: StoreResult<Vec<Author>>)
        ensures
            r matches Ok(v) ==> valid_all(author_views(v@)),
    ;

    /// Removes every entry of the active set; succeeds as a no-op when the
    /// active set is already empty. Nothing is parsed, so the only failure is
    /// the backend's.
    fn clear(&mut self) -> (r: StoreResult<()>)
        ensures
            r is Ok || r matches Err(StoreError::Backend(_)),
    ;

    /// Replaces the active set with the given authors, in the given order.
    /// With an empty input this is a no-op — not a clear.
    fn set(&mut self, authors: &[Author]) -> (r: StoreResult<()>)
        ensures
            authors@.len() == 0 ==> r is Ok,
    ;
}

/// An in-memory store: the backend model realised directly. Entry order is
/// file order.
pub struct MemStore {
    entries: Vec<ConfigEntry>,
}

impl View for MemStore {
    type V = Seq<EntryView>;

    closed spec fn view(&self) -> Seq<EntryView> {
        self.entries.deep_view()
    }
}

impl MemStore {
    /// An empty store.
    pub fn new() -> (r: MemStore)
        ensures
            r@ == Seq::<EntryView>::empty(),
    {
        let r = MemStore { entries: Vec::new() };
        proof {
            assert(r@ =~= Seq::<EntryView>::empty());
        }
        r
    }

    /// Appends one raw entry, as writing the backing file directly would.
    pub fn push_entry(&mut self, key: &str, value: &str)
        ensures
            final(self)@ == old(self)@.push(EntryView { key: key@, value: value@ }),
    {
        self.entries.push(ConfigEntry { key: key.to_owned(), value: value.to_owned() });
        proof {
            assert(self@ =~= old(self)@.push(EntryView { key: key@, value: value@ }));
        }
    }

    /// The values stored under exactly `key`, in entry order.
    fn entries_under(&self, key: &str) -> (r: Vec<String>)
        ensures
            r.deep_view() == values_under(self@, key@),
    {
        let mut out: Vec<String> = Vec::new();
        let mut i: usize = 0;
        while i < self.entries.len()
            invariant
                0 <= i <= self.entries@.len(),
                out.deep_view() == values_under(self@.subrange(0, i as int), key@),
            decreases self.entries@.len() - i,
        {
            let ghost prefix = self@.subrange(0, i as int);
            let ghost prev = out.deep_view();
            if str_eq(self.entries[i].key.as_str(), key) {
                out.push(self.entries[i].value.clone());
                proof {
                    assert(out.deep_view() =~= prev.push(self@[i as int].value));
                }
            }
            proof {
                assert(self@.subrange(0, i + 1).drop_last() =~= prefix);
                assert(self@.subrange(0, i + 1).last() == self@[i as int]);
            }
            i += 1;
        }
        proof {
            assert(self@.subrange(0, i as int) =~= self@);
        }
        out
    }

    /// Removes every entry stored under exactly `key`, keeping the order of
    /// the rest.
    fn remove_key(&mut self, key: &str)
        ensures
            final(self)@ == remove_under(old(self)@, key@),
    {
        let mut kept: Vec<ConfigEntry> = Vec::new();
        let mut i: usize = 0;
        while i < self.entries.len()
            invariant
                0 <= i <= self.entries@.len(),
                self@ == old(self)@,
                kept.deep_view() == remove_under(self@.subrange(0, i as int), key@),
            decreases self.entries@.len() - i,
        {
            let ghost prefix = self@.subrange(0, i as int);
            let ghost prev = kept.deep_view();
            if !str_eq(self.entries[i].key.as_str(), key) {
                let e = ConfigEntry {
                    key: self.entries[i].key.clone(),
                    value: self.entries[i].value.clone(),
                };
                kept.push(e);
                proof {
                    assert(kept.deep_view() =~= prev.push(self@[i as int]));
                }
            }
            proof {
                assert(self@.subrange(0, i + 1).drop_last() =~= prefix);
                assert(self@.subrange(0, i + 1).last() == self@[i as int]);
            }
            i += 1;
        }
        proof {
            assert(self@.subrange(0, i as int) =~= self@);
        }
        self.entries = kept;
    }
}

impl Store for MemStore {
    fn add(&mut self, author: &Author) -> (r: StoreResult<()>)
        ensures
            r is Ok,
            final(self)@ == old(self)@.push(
                EntryView { key: roster_key(), value: roundtrip_spec(author@) },
            ),
    {
        let key = roster_key_str();
        let line = author.roundtrip_line();
        self.entries.push(ConfigEntry { key: key.to_owned(), value: line });
        proof {
            assert(self@ =~= old(self)@.push(
                EntryView { key: roster_key(), value: roundtrip_spec(author@) },
            ));
        }
        Ok(())
    }

    fn active(&self) -> (r: StoreResult<Vec<Author>>)
        ensures
            match parse_all(values_under(self@, active_key())) {
                Some(s) => r matches Ok(v) && author_views(v@) == s,
                None => r matches Err(StoreError::Parse(..)),
            },
    {
        let vals = self.entries_under(active_key_str());
        match parse_entries(&vals) {
            Ok(authors) => Ok(authors),
            Err(e) => Err(StoreError::Parse(e)),
        }
    }

    fn authors(&self) -> (r: StoreResult<Vec<Author>>)
        ensures
            match parse_all(values_under(self@, roster_key())) {
                Some(s) => r matches Ok(v) && author_views(v@) == s,
                None => r matches Err(StoreError::Parse(..)),
            },
    {
        let vals = self.entries_under(roster_key_str());
        match parse_entries(&vals) {
            Ok(authors) => Ok(authors),
            Err(e) => Err(StoreError::Parse(e)),
        }
    }

    fn clear(&mut self) -> (r: StoreResult<()>)
        ensures
            r is Ok,
            final(self)@ == remove_under(old(self)@, active_key()),
    {
        self.remove_key(active_key_str());
        Ok(())
    }

    fn set(&mut self, authors: &[Author]) -> (r: StoreResult<()>)
        ensures
            authors@.len() == 0 ==> r is Ok && final(self)@ == old(self)@,
            authors@.len() > 0 ==> match parse_all(values_under(old(self)@, active_key())) {
                Some(_) => r is Ok && final(self)@ == remove_under(old(self)@, active_key())
                    + author_entries(active_key(), author_views(authors@)),
                None => r matches Err(StoreError::Parse(..)) && final(self)@ == old(self)@,
            },
    {
        if authors.len() == 0 {
            return Ok(());
        }
        let current = match self.active() {
            Ok(v) => v,
            Err(e) => {
                return Err(e);
            },
        };
        if current.len() > 0 {
            self.remove_key(active_key_str());
        } else {
            proof {
                lemma_parse_all_len(values_under(self@, active_key()));
                lemma_remove_under_absent(self@, active_key());
            }
        }
        let ghost base = remove_under(old(self)@, active_key());
        let key = active_key_str();
        let mut i: usize = 0;
        while i < authors.len()
            invariant
                0 <= i <= authors@.len(),
                key@ == active_key(),
                self@ == base + author_entries(active_key(), author_views(authors@.subrange(0, i as int))),
            decreases authors@.len() - i,
        {
            let ghost before = self@;
            let ghost prev = author_views(authors@.subrange(0, i as int));
            let line = authors[i].roundtrip_line();
            self.entries.push(ConfigEntry { key: key.to_owned(), value: line });
            proof {
                let e = EntryView { key: active_key(), value: roundtrip_spec(authors@[i as int]@) };
                assert(self@ =~= before.push(e));
                let next = author_views(authors@.subrange(0, i + 1));
                assert(next =~= prev.push(authors@[i as int]@));
                assert(author_entries(active_key(), next) =~= author_entries(active_key(), prev)
                    .push(e));
                assert(self@ =~= base + author_entries(active_key(), next));
            }
            i += 1;
        }
        proof {
            assert(authors@.subrange(0, i as int) =~= authors@);
        }
        Ok(())
    }
}

} // verus!

