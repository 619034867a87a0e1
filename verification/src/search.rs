//! Full-text search over package names and summaries, kept in an FTS5
//! table of an in-memory SQLite database.

use crate::apt::{AptCache, PackageRecord};
use crate::text::{push_char, split_words, seqs, words_of};
use crate::types::texts;
use std::time::{Duration, Instant};
use vstd::hash_set::StringHashSet;
use vstd::multiset::Multiset;
use vstd::prelude::*;
use vstd::string::*;

verus! {

// ============================================================================
// SQLite
// ============================================================================

/// `Connection` of rusqlite: a connection to an SQLite database. Nothing is
/// known of what is inside it but through `indexed_rows`.
#[verifier::external_type_specification]
#[verifier::external_body]
pub struct ExConnection(rusqlite::Connection);

/// `Error` of rusqlite: why a statement failed. Nothing is known of what is
/// inside it.
#[verifier::external_type_specification]
#[verifier::external_body]
pub struct ExSqlError(rusqlite::Error);

/// `Instant` of the standard library: a moment of a clock that never goes
/// back. Nothing is known of what is inside it.
#[verifier::external_type_specification]
#[verifier::external_body]
pub struct ExInstant(Instant);

/// The rows of the table `packages` as a connection sees them, each as
/// `(name, description)`; none where the database has no such table.
pub uninterp spec fn indexed_rows(conn: rusqlite::Connection) -> Multiset<(Seq<char>, Seq<char>)>;

/// The names of the rows that the full-text engine matches with a pattern.
pub uninterp spec fn fts_matches(
    rows: Multiset<(Seq<char>, Seq<char>)>,
    pattern: Seq<char>,
) -> Set<Seq<char>>;

/// The statements without parameters that the index runs.
pub open spec fn known_statement(sql: Seq<char>) -> bool {
    sql == "CREATE VIRTUAL TABLE IF NOT EXISTS packages USING fts5(name, description)"@ || sql
        == "BEGIN TRANSACTION"@ || sql == "DELETE FROM packages"@ || sql == "COMMIT"@
}

/// The rows after a known statement: deleting leaves none, the others
/// leave the rows as they are.
pub open spec fn rows_after(
    rows: Multiset<(Seq<char>, Seq<char>)>,
    sql: Seq<char>,
) -> Multiset<(Seq<char>, Seq<char>)> {
    if sql == "DELETE FROM packages"@ {
        Multiset::empty()
    } else {
        rows
    }
}

/// `Connection::open_in_memory` of rusqlite: a new database in memory,
/// which has no tables yet.
#[verifier::external_body]
fn open_memory() -> (r: Result<rusqlite::Connection, rusqlite::Error>)
    ensures
        r matches Ok(conn) ==> indexed_rows(conn) == Multiset::<(Seq<char>, Seq<char>)>::empty(),
{
    rusqlite::Connection::open_in_memory()
}

/// `Connection::execute` of rusqlite without parameters, for the statements
/// of `known_statement`. Where SQLite reports success, creating the table if
/// it is missing, beginning and committing leave the rows as they are, and
/// deleting leaves none.
#[verifier::external_body]
fn execute_statement(conn: &mut rusqlite::Connection, sql: &str) -> (r: Result<
    usize,
    rusqlite::Error,
>)
    requires
        known_statement(sql@),
    ensures
        r is Ok ==> indexed_rows(*final(conn)) == rows_after(indexed_rows(*old(conn)), sql@),
{
    conn.execute(sql, ())
}

/// `Connection::execute` of rusqlite with two text parameters, for the
/// insert statement. Where SQLite reports success, the table holds one
/// more row with the two texts.
#[verifier::external_body]
fn insert_row(conn: &mut rusqlite::Connection, sql: &str, name: &str, description: &str) -> (r:
    Result<usize, rusqlite::Error>)
    requires
        sql@ == "INSERT INTO packages (name, description) VALUES (?, ?)"@,
    ensures
        r is Ok ==> indexed_rows(*final(conn)) == indexed_rows(*old(conn)).insert(
            (name@, description@),
        ),
{
    conn.execute(sql, [name, description])
}

/// `Connection::prepare`, `Statement::query_map` and `Row::get` of rusqlite,
/// for the match query with the pattern as its parameter. Where SQLite
/// reports success for the statement and for every row, the names returned
/// are those that the full-text engine matches among the rows. A pattern
/// that the engine cannot parse is an error.
#[verifier::external_body]
fn matching_names(conn: &rusqlite::Connection, sql: &str, pattern: &str) -> (r: Result<
    Vec<String>,
    rusqlite::Error,
>)
    requires
        sql@ == "SELECT DISTINCT name FROM packages WHERE packages MATCH ?"@,
    ensures
        r matches Ok(names) ==> texts(names@).to_set() == fts_matches(
            indexed_rows(*conn),
            pattern@,
        ),
{
    let mut stmt = conn.prepare(sql)?;
    let rows = stmt.query_map([pattern], |row| row.get::<_, String>(0))?;
    rows.collect()
}

/// `to_string` of a rusqlite error: its message.
#[verifier::external_body]
fn error_text(e: &rusqlite::Error) -> (message: String) {
    e.to_string()
}

/// `Instant::now` of the standard library.
#[verifier::external_body]
fn now() -> (t: Instant) {
    Instant::now()
}

/// `Instant::elapsed` of the standard library.
#[verifier::external_body]
fn elapsed(since: &Instant) -> (d: Duration) {
    since.elapsed()
}

// ============================================================================
// The query
// ============================================================================

/// A word without its double quotes.
pub open spec fn without_quotes(word: Seq<char>) -> Seq<char> {
    word.filter(|c: char| c != '"')
}

/// The term that matches every word starting with `word`.
pub open spec fn prefix_term(word: Seq<char>) -> Seq<char> {
    without_quotes(word).push('*')
}

/// The prefix terms of words, separated by single spaces.
pub open spec fn terms_of(words: Seq<Seq<char>>) -> Seq<char>
    decreases words.len(),
{
    if words.len() == 0 {
        Seq::empty()
    } else if words.len() == 1 {
        prefix_term(words[0])
    } else {
        terms_of(words.drop_last()) + seq![' '] + prefix_term(words.last())
    }
}

/// The pattern for a query: each of its words as a prefix term, all of
/// which must match.
pub open spec fn fts_pattern(query: Seq<char>) -> Seq<char> {
    terms_of(words_of(query))
}

/// The pattern for a query.
pub fn build_pattern(query: &str) -> (pattern: String)
    ensures
        pattern@ == fts_pattern(query@),
{
    let words = split_words(query);
    let mut pattern = String::new();
    let mut i: usize = 0;
    proof {
        assert(seqs(words@).take(0) =~= Seq::<Seq<char>>::empty());
    }
    while i < words.len()
        invariant
            i <= words@.len(),
            pattern@ == terms_of(seqs(words@).take(i as int)),
        decreases words@.len() - i,
    {
        let ghost before = pattern@;
        if i > 0 {
            push_char(&mut pattern, ' ');
        }
        let ghost start = pattern@;
        let word = &words[i];
        let ghost keep = |c: char| c != '"';
        let mut j: usize = 0;
        proof {
            assert(word@.take(0).filter(keep) =~= Seq::<char>::empty());
            assert(start + Seq::<char>::empty() =~= start);
        }
        while j < word.len()
            invariant
                j <= word@.len(),
                keep == (|c: char| c != '"'),
                pattern@ == start + word@.take(j as int).filter(keep),
            decreases word@.len() - j,
        {
            proof {
                crate::types::lemma_filter_step(word@, keep, j as int);
            }
            if word[j] != '"' {
                push_char(&mut pattern, word[j]);
                proof {
                    assert(start + word@.take(j as int).filter(keep).push(word@[j as int])
                        =~= (start + word@.take(j as int).filter(keep)).push(word@[j as int]));
                }
            }
            j += 1;
        }
        push_char(&mut pattern, '*');
        proof {
            assert(word@.take(j as int) =~= word@);
            let all = seqs(words@);
            assert(all.take(i + 1).drop_last() =~= all.take(i as int));
            assert(all.take(i + 1).last() == word@);
            assert(pattern@ =~= start + prefix_term(word@));
            if i == 0 {
                assert(all.take(1)[0] == word@);
                assert(start =~= Seq::<char>::empty());
                assert(pattern@ =~= prefix_term(word@));
            } else {
                assert(start =~= before + seq![' ']);
            }
        }
        i += 1;
    }
    proof {
        assert(seqs(words@).take(i as int) =~= seqs(words@));
    }
    pattern
}

// ============================================================================
// The index
// ============================================================================

/// Why the index could not be built or searched.
#[derive(Debug)]
pub struct SearchError {
    pub message: String,
}

/// The row that the index holds for a package: its name without
/// architecture, and the summary of its candidate if it has one.
pub open spec fn index_row(r: PackageRecord) -> (Seq<char>, Seq<char>) {
    (
        r.name@,
        match r.candidate {
            Some(c) => match c.summary {
                Some(s) => s@,
                None => Seq::<char>::empty(),
            },
            None => Seq::<char>::empty(),
        },
    )
}

/// The rows that the index holds for a catalog.
pub open spec fn catalog_rows(records: Seq<PackageRecord>) -> Multiset<(Seq<char>, Seq<char>)>
    decreases records.len(),
{
    if records.len() == 0 {
        Multiset::empty()
    } else {
        catalog_rows(records.drop_last()).insert(index_row(records.last()))
    }
}

/// Full-text index of the catalog.
pub struct SearchIndex {
    conn: rusqlite::Connection,
}

impl SearchIndex {
    /// The rows that the index holds, each as `(name, description)`.
    pub closed spec fn rows(&self) -> Multiset<(Seq<char>, Seq<char>)> {
        indexed_rows(self.conn)
    }

    fn failed(e: &rusqlite::Error) -> SearchError {
        SearchError { message: error_text(e) }
    }

    /// An empty index.
    pub fn new() -> (r: Result<Self, SearchError>)
        ensures
            r matches Ok(index) ==> index.rows() == Multiset::<(Seq<char>, Seq<char>)>::empty(),
    {
        let mut conn = match open_memory() {
            Ok(conn) => conn,
            Err(e) => {
                return Err(Self::failed(&e));
            },
        };
        match execute_statement(
            &mut conn,
            "CREATE VIRTUAL TABLE IF NOT EXISTS packages USING fts5(name, description)",
        ) {
            Ok(_) => {
                proof {
                    reveal_strlit(
                        "CREATE VIRTUAL TABLE IF NOT EXISTS packages USING fts5(name, description)",
                    );
                    reveal_strlit("DELETE FROM packages");
                }
                Ok(SearchIndex { conn })
            },
            Err(e) => Err(Self::failed(&e)),
        }
    }

    /// Rebuilds the index from the catalog, in one transaction. Returns the
    /// number of packages indexed and the time it took.
    pub fn build(&mut self, cache: &AptCache) -> (r: Result<(usize, Duration), SearchError>)
        ensures
            r matches Ok(done) ==> done.0 == cache.entries().len() && final(self).rows()
                == catalog_rows(cache.entries()),
    {
        let start = now();
        proof {
            reveal_strlit("BEGIN TRANSACTION");
            reveal_strlit("DELETE FROM packages");
            reveal_strlit("COMMIT");
        }
        if let Err(e) = execute_statement(&mut self.conn, "BEGIN TRANSACTION") {
            return Err(Self::failed(&e));
        }
        if let Err(e) = execute_statement(&mut self.conn, "DELETE FROM packages") {
            return Err(Self::failed(&e));
        }
        let records = cache.packages();
        let mut count: usize = 0;
        proof {
            assert(records@.take(0) =~= Seq::<PackageRecord>::empty());
        }
        while count < records.len()
            invariant
                count <= records@.len(),
                records@ == cache.entries(),
                indexed_rows(self.conn) == catalog_rows(records@.take(count as int)),
            decreases records@.len() - count,
        {
            let r = &records[count];
            let inserted = match &r.candidate {
                Some(c) => match &c.summary {
                    Some(s) => insert_row(
                        &mut self.conn,
                        "INSERT INTO packages (name, description) VALUES (?, ?)",
                        r.name.as_str(),
                        s.as_str(),
                    ),
                    None => insert_row(
                        &mut self.conn,
                        "INSERT INTO packages (name, description) VALUES (?, ?)",
                        r.name.as_str(),
                        "",
                    ),
                },
                None => insert_row(
                    &mut self.conn,
                    "INSERT INTO packages (name, description) VALUES (?, ?)",
                    r.name.as_str(),
                    "",
                ),
            };
            if let Err(e) = inserted {
                return Err(Self::failed(&e));
            }
            proof {
                reveal_strlit("");
                assert(""@ =~= Seq::<char>::empty());
                assert(records@.take(count + 1).drop_last() =~= records@.take(count as int));
                assert(records@.take(count + 1).last() == *r);
            }
            count += 1;
        }
        proof {
            assert(records@.take(count as int) =~= records@);
            reveal_strlit("DELETE FROM packages");
            reveal_strlit("COMMIT");
            assert("COMMIT"@.len() != "DELETE FROM packages"@.len());
        }
        if let Err(e) = execute_statement(&mut self.conn, "COMMIT") {
            return Err(Self::failed(&e));
        }
        Ok((count, elapsed(&start)))
    }

    /// The names of the packages that match a query: those with a word, in
    /// name or description, that starts with each word of the query. An
    /// empty query matches nothing.
    pub fn search(&self, query: &str) -> (r: Result<StringHashSet, SearchError>)
        ensures
            query@.len() == 0 ==> r is Ok,
            r matches Ok(found) ==> found@ == if query@.len() == 0 {
                Set::<Seq<char>>::empty()
            } else {
                fts_matches(self.rows(), fts_pattern(query@))
            },
    {
        if query.unicode_len() == 0 {
            return Ok(StringHashSet::new());
        }
        let pattern = build_pattern(query);
        match matching_names(
            &self.conn,
            "SELECT DISTINCT name FROM packages WHERE packages MATCH ?",
            pattern.as_str(),
        ) {
            Ok(names) => Ok(names_found(&names)),
            Err(e) => Err(Self::failed(&e)),
        }
    }
}

/// The set of the names that the engine returned.
pub fn names_found(names: &Vec<String>) -> (found: StringHashSet)
    ensures
        found@ == texts(names@).to_set(),
{
    let mut found = StringHashSet::new();
    let ghost all = texts(names@);
    let mut i: usize = 0;
    proof {
        assert(all.take(0).to_set() =~= Set::<Seq<char>>::empty());
    }
    while i < names.len()
        invariant
            i <= names@.len(),
            all == texts(names@),
            found@ == all.take(i as int).to_set(),
        decreases names@.len() - i,
    {
        found.insert(names[i].clone());
        proof {
            assert(all.take(i + 1) =~= all.take(i as int).push(all[i as int]));
            all.take(i as int).lemma_push_to_set_commute(all[i as int]);
        }
        i += 1;
    }
    proof {
        assert(all.take(i as int) =~= all);
    }
    found
}

} // verus!
