//! The text index: documents keyed by path, changed through a writer and
//! searched through a reader that only moves at a commit.

use crate::search::engine::{
    commit_staged, committed_docs, create_in_dir, create_in_ram, describe, document_schema,
    fits_term, found_records, has_schema, index_docs, index_exists, is_record_of, lists_path,
    open_in_dir, open_reader, open_writer, path_terms, reader_docs, search_records,
    stage_delete, stage_document, staged_docs, Writer, MAX_PATH_BYTES,
};
use crate::search::file::File;
use crate::search::model::{
    bump, count_under, has_path, lemma_insert, lemma_without_listed_none,
    lemma_without_listed_step, lemma_without_path, listed_under, prefix_removed, without_listed,
    without_path, without_prefix, Doc,
};
use crate::text::{begins_with, chars_of, texts};
use vstd::multiset::Multiset;
use vstd::prelude::*;

verus! {

/// The most records a search returns.
pub const SEARCH_FILE_LIMIT: usize = 10;

/// The memory, in bytes, that the engine's writer may use.
pub const WRITER_MEMORY_BUDGET: usize = 50_000_000;

/// Why the index refused a request.
#[derive(Debug, Clone)]
pub enum IndexError {
    /// The engine failed; the text is the engine's own.
    Engine(String),
    /// The path is longer than the engine can keep as one term.
    PathTooLong,
    /// The directory holds an index of another schema.
    SchemaMismatch,
}

impl IndexError {
    /// The error in words.
    pub open spec fn text(&self) -> Seq<char> {
        match self {
            IndexError::Engine(text) => text@,
            IndexError::PathTooLong => "The path is too long to be indexed."@,
            IndexError::SchemaMismatch => "The index directory holds an index of another schema."@,
        }
    }

    /// The error in words.
    pub fn message(&self) -> (message: String)
        ensures
            message@ == self.text(),
    {
        match self {
            IndexError::Engine(text) => text.clone(),
            IndexError::PathTooLong => "The path is too long to be indexed.".to_owned(),
            IndexError::SchemaMismatch => {
                "The index directory holds an index of another schema.".to_owned()
            },
        }
    }
}

/// A full-text index over documents keyed by their path. Changes are staged
/// and become visible to searches, all at once, at the next commit; nothing
/// is committed when the index is let go of, so commit before.
pub struct TextIndex {
    writer: Writer,
    reader: tantivy::IndexReader,
    pending_operations: u32,
    recent_paths: Vec<String>,
}

/// A failure of the engine, with the engine's own words for it.
fn engine_error(words: String) -> (e: IndexError)
    ensures
        e == IndexError::Engine(words),
{
    IndexError::Engine(words)
}

/// The counter of pending operations after `by` more.
fn bumped(pending: u32, by: usize) -> (next: u32)
    ensures
        next == bump(pending as nat, by as nat),
{
    let room: u32 = u32::MAX - pending;
    if by >= room as usize {
        u32::MAX
    } else {
        pending + by as u32
    }
}

impl TextIndex {
    /// The documents that the next commit makes visible.
    pub closed spec fn staged(&self) -> Multiset<Doc> {
        staged_docs(self.writer)
    }

    /// The documents of the last commit.
    pub closed spec fn committed(&self) -> Multiset<Doc> {
        committed_docs(self.writer)
    }

    /// The documents that searches see.
    pub closed spec fn visible(&self) -> Multiset<Doc> {
        reader_docs(self.reader)
    }

    /// The number of mutations since the last commit, as far as it is counted.
    pub closed spec fn pending(&self) -> nat {
        self.pending_operations as nat
    }

    /// The records that a search for `keyword` finds in the index as it is,
    /// best first, each as its text: the engine's choice among the visible
    /// documents.
    pub closed spec fn hits(&self, keyword: Seq<char>) -> Seq<Seq<char>> {
        found_records(self.reader, keyword, SEARCH_FILE_LIMIT)
    }

    /// The paths under which documents were staged since the last commit.
    pub closed spec fn recent(&self) -> Seq<Seq<char>> {
        texts(self.recent_paths@)
    }

    /// Every search gives what it gave on `before`: the same documents are
    /// visible and every keyword finds the same records.
    pub open spec fn searches_as(&self, before: &TextIndex) -> bool {
        &&& self.visible() == before.visible()
        &&& forall|keyword: Seq<char>| #[trigger] self.hits(keyword) == before.hits(keyword)
    }

    /// Everything staged is committed and visible.
    pub open spec fn up_to_date(&self) -> bool {
        self.committed() == self.staged() && self.visible() == self.staged()
    }

    /// The path of every staged document is known: to the last commit, or as
    /// one of the paths staged since.
    pub open spec fn paths_known(&self) -> bool {
        forall|d: Doc| #[trigger]
            self.staged().contains(d) ==> has_path(self.committed(), d.0) || self.recent().contains(
                d.0,
            )
    }

    /// The index is in order: with nothing pending, nothing is waiting for a
    /// commit, and the path of every staged document is known. A new index
    /// is settled, and stays so as long as the engine does not fail.
    pub open spec fn settled(&self) -> bool {
        &&& self.pending() == 0 ==> self.up_to_date()
        &&& self.paths_known()
    }

    /// The index on `index`, which is `index`'s own where `same_schema` says
    /// that its schema is this library's, and refused where it is another's.
    pub fn open_checked(index: tantivy::Index, same_schema: bool) -> (r: Result<
        TextIndex,
        IndexError,
    >)
        ensures
            !same_schema ==> r == Err::<TextIndex, IndexError>(IndexError::SchemaMismatch),
            same_schema ==> match r {
                Ok(text_index) => {
                    &&& text_index.pending() == 0
                    &&& text_index.staged() == index_docs(index)
                    &&& text_index.up_to_date()
                    &&& text_index.settled()
                },
                Err(e) => e is Engine,
            },
    {
        if !same_schema {
            return Err(IndexError::SchemaMismatch);
        }
        let writer = match open_writer(index, WRITER_MEMORY_BUDGET) {
            Ok(writer) => writer,
            Err(e) => {
                return Err(engine_error(describe(&e)));
            },
        };
        let reader = match open_reader(&writer) {
            Ok(reader) => reader,
            Err(e) => {
                return Err(engine_error(describe(&e)));
            },
        };
        let opened = TextIndex { writer, reader, pending_operations: 0, recent_paths: Vec::new() };
        proof {
            opened.lemma_up_to_date_paths_known();
        }
        Ok(opened)
    }

    /// An empty index in memory.
    pub fn new() -> (r: Result<TextIndex, IndexError>)
        ensures
            match r {
                Ok(text_index) => {
                    &&& text_index.pending() == 0
                    &&& text_index.staged() == Multiset::<Doc>::empty()
                    &&& text_index.up_to_date()
                    &&& text_index.settled()
                },
                Err(e) => e is Engine,
            },
    {
        Self::open_checked(create_in_ram(document_schema()), true)
    }

    /// The index kept in the directory `index_dir`, given whether the
    /// directory was `found` to hold one: the index found there, which must
    /// have this library's schema, or a new and empty one.
    pub fn open_directory(index_dir: &str, found: bool) -> (r: Result<TextIndex, IndexError>)
        ensures
            match r {
                Ok(text_index) => {
                    &&& text_index.pending() == 0
                    &&& text_index.up_to_date()
                    &&& text_index.settled()
                    &&& !found ==> text_index.staged() == Multiset::<Doc>::empty()
                },
                Err(e) => e is Engine || (found && e is SchemaMismatch),
            },
    {
        if found {
            let index = match open_in_dir(index_dir) {
                Ok(index) => index,
                Err(e) => {
                    return Err(engine_error(describe(&e)));
                },
            };
            let same_schema = has_schema(&index, &document_schema());
            Self::open_checked(index, same_schema)
        } else {
            let index = match create_in_dir(index_dir, document_schema()) {
                Ok(index) => index,
                Err(e) => {
                    return Err(engine_error(describe(&e)));
                },
            };
            Self::open_checked(index, true)
        }
    }

    /// The index kept in the directory `index_dir`, which must exist: the one
    /// found there, or a new one where there is none. An index found there
    /// must have this library's schema; whether one is found is the disk's
    /// to say, and what follows from the answer stands in
    /// [`TextIndex::open_directory`].
    pub fn new_with_directory(index_dir: &str) -> (r: Result<TextIndex, IndexError>)
        ensures
            match r {
                Ok(text_index) => {
                    &&& text_index.pending() == 0
                    &&& text_index.up_to_date()
                    &&& text_index.settled()
                },
                Err(e) => e is Engine || e is SchemaMismatch,
            },
    {
        match index_exists(index_dir) {
            Ok(found) => Self::open_directory(index_dir, found),
            Err(e) => Err(engine_error(describe(&e))),
        }
    }

    /// Whether `path` is short enough to be the key of a document.
    pub fn fits(path: &str) -> (fits: bool)
        ensures
            fits == fits_term(path@),
    {
        path.as_bytes().len() <= MAX_PATH_BYTES
    }

    /// Stages `file` as one more document.
    pub fn add_doc(&mut self, file: &File) -> (r: Result<(), IndexError>)
        ensures
            final(self).searches_as(old(self)),
            final(self).committed() == old(self).committed(),
            !fits_term(file.path@) ==> {
                &&& r == Err::<(), IndexError>(IndexError::PathTooLong)
                &&& final(self).staged() == old(self).staged()
                &&& final(self).pending() == old(self).pending()
                &&& old(self).settled() ==> final(self).settled()
            },
            fits_term(file.path@) ==> match r {
                Ok(_) => {
                    &&& final(self).staged() == old(self).staged().insert(file@)
                    &&& final(self).pending() == bump(old(self).pending(), 1)
                    &&& old(self).settled() ==> final(self).settled()
                },
                Err(e) => e is Engine && final(self).pending() == old(self).pending(),
            },
    {
        if !Self::fits(file.path.as_str()) {
            return Err(IndexError::PathTooLong);
        }
        match stage_document(&mut self.writer, file.path.as_str(), file.content.as_str()) {
            Ok(_) => {
                self.recent_paths.push(file.path.clone());
                self.pending_operations = bumped(self.pending_operations, 1);
                proof {
                    lemma_insert(old(self).staged(), file@);
                    let k = old(self).recent().len() as int;
                    assert(self.recent() =~= old(self).recent().push(file.path@));
                    assert(self.recent()[k] == file.path@);
                    assert forall|d: Doc| #[trigger] self.staged().contains(d) && old(
                        self,
                    ).paths_known() implies has_path(self.committed(), d.0) || self.recent().contains(
                        d.0,
                    ) by {
                        if d != file@ {
                            assert(old(self).staged().contains(d));
                            if old(self).recent().contains(d.0) {
                                let j = choose|j: int|
                                    0 <= j < old(self).recent().len() && old(self).recent()[j]
                                        == d.0;
                                assert(self.recent()[j] == d.0);
                            }
                        }
                    }
                }
                Ok(())
            },
            Err(e) => Err(engine_error(describe(&e))),
        }
    }

    /// Stages `file` in place of every document stored under its path.
    pub fn replace_doc(&mut self, file: &File) -> (r: Result<(), IndexError>)
        ensures
            final(self).searches_as(old(self)),
            final(self).committed() == old(self).committed(),
            !fits_term(file.path@) ==> {
                &&& r == Err::<(), IndexError>(IndexError::PathTooLong)
                &&& final(self).staged() == old(self).staged()
                &&& final(self).pending() == old(self).pending()
                &&& old(self).settled() ==> final(self).settled()
            },
            fits_term(file.path@) ==> match r {
                Ok(_) => {
                    &&& final(self).staged() == without_path(
                        old(self).staged(),
                        file.path@,
                    ).insert(file@)
                    &&& final(self).pending() == bump(old(self).pending(), 1)
                    &&& old(self).settled() ==> final(self).settled()
                },
                Err(e) => e is Engine && final(self).pending() == old(self).pending(),
            },
    {
        if !Self::fits(file.path.as_str()) {
            return Err(IndexError::PathTooLong);
        }
        if let Err(e) = stage_delete(&mut self.writer, file.path.as_str()) {
            return Err(engine_error(describe(&e)));
        }
        match stage_document(&mut self.writer, file.path.as_str(), file.content.as_str()) {
            Ok(_) => {
                self.recent_paths.push(file.path.clone());
                self.pending_operations = bumped(self.pending_operations, 1);
                proof {
                    let between = without_path(old(self).staged(), file.path@);
                    lemma_without_path(old(self).staged(), file.path@);
                    lemma_insert(between, file@);
                    let k = old(self).recent().len() as int;
                    assert(self.recent() =~= old(self).recent().push(file.path@));
                    assert(self.recent()[k] == file.path@);
                    assert forall|d: Doc| #[trigger] self.staged().contains(d) && old(
                        self,
                    ).paths_known() implies has_path(self.committed(), d.0) || self.recent().contains(
                        d.0,
                    ) by {
                        if d != file@ {
                            assert(between.contains(d));
                            assert(old(self).staged().contains(d));
                            if old(self).recent().contains(d.0) {
                                let j = choose|j: int|
                                    0 <= j < old(self).recent().len() && old(self).recent()[j]
                                        == d.0;
                                assert(self.recent()[j] == d.0);
                            }
                        }
                    }
                }
                Ok(())
            },
            Err(e) => Err(engine_error(describe(&e))),
        }
    }

    /// Stages the removal of every document stored under `file_path`.
    pub fn delete_doc(&mut self, file_path: &str) -> (r: Result<(), IndexError>)
        ensures
            final(self).searches_as(old(self)),
            final(self).committed() == old(self).committed(),
            match r {
                Ok(_) => {
                    &&& final(self).staged() == without_path(old(self).staged(), file_path@)
                    &&& final(self).pending() == bump(old(self).pending(), 1)
                    &&& old(self).settled() ==> final(self).settled()
                },
                Err(e) => e is Engine && final(self).pending() == old(self).pending(),
            },
    {
        match stage_delete(&mut self.writer, file_path) {
            Ok(_) => {
                self.pending_operations = bumped(self.pending_operations, 1);
                proof {
                    lemma_without_path(old(self).staged(), file_path@);
                    assert forall|d: Doc| #[trigger] self.staged().contains(d) && old(
                        self,
                    ).paths_known() implies has_path(self.committed(), d.0) || self.recent().contains(
                        d.0,
                    ) by {
                        assert(old(self).staged().contains(d));
                    }
                }
                Ok(())
            },
            Err(e) => Err(engine_error(describe(&e))),
        }
    }

    /// Stages the removal of every document whose path is one of `terms` and
    /// begins with `path_prefix`, and returns how many of the terms began
    /// with it. Where none does, the engine is not asked and nothing can
    /// fail.
    pub fn delete_listed(&mut self, terms: &Vec<Option<String>>, path_prefix: &str) -> (r: Result<
        usize,
        IndexError,
    >)
        ensures
            final(self).searches_as(old(self)),
            final(self).committed() == old(self).committed(),
            count_under(terms@, path_prefix@) == 0 ==> r is Ok,
            match r {
                Ok(count) => {
                    &&& final(self).staged() == without_listed(
                        old(self).staged(),
                        terms@,
                        path_prefix@,
                    )
                    &&& count == count_under(terms@, path_prefix@)
                    &&& final(self).pending() == bump(old(self).pending(), count as nat)
                    &&& count == 0 ==> final(self).staged() == old(self).staged()
                    &&& old(self).settled() ==> final(self).settled()
                },
                Err(e) => e is Engine && final(self).pending() == old(self).pending(),
            },
    {
        let prefix = chars_of(path_prefix);
        let mut deleted_count: usize = 0;
        let mut i: usize = 0;
        proof {
            assert(terms@.take(0) =~= Seq::empty());
            lemma_without_listed_none(old(self).staged(), path_prefix@);
        }
        while i < terms.len()
            invariant
                i <= terms.len(),
                prefix@ == path_prefix@,
                deleted_count <= i,
                deleted_count == count_under(terms@.take(i as int), path_prefix@),
                self.staged() == without_listed(
                    old(self).staged(),
                    terms@.take(i as int),
                    path_prefix@,
                ),
                self.reader == old(self).reader,
                self.committed() == old(self).committed(),
                self.pending() == old(self).pending(),
                self.recent() == old(self).recent(),
            decreases terms.len() - i,
        {
            proof {
                lemma_without_listed_step(old(self).staged(), terms@, path_prefix@, i as int);
            }
            match &terms[i] {
                Some(term) => {
                    if begins_with(&chars_of(term.as_str()), &prefix) {
                        if let Err(e) = stage_delete(&mut self.writer, term.as_str()) {
                            proof {
                                lemma_count_under_positive(terms@, path_prefix@, i as int);
                            }
                            return Err(engine_error(describe(&e)));
                        }
                        deleted_count += 1;
                    }
                },
                None => {},
            }
            i += 1;
        }
        assert(terms@.take(terms.len() as int) =~= terms@);
        self.pending_operations = bumped(self.pending_operations, deleted_count);
        proof {
            lemma_nothing_listed(old(self).staged(), terms@, path_prefix@);
            lemma_without_listed_subset(old(self).staged(), terms@, path_prefix@);
            assert forall|d: Doc| #[trigger] self.staged().contains(d) && old(
                self,
            ).paths_known() implies has_path(self.committed(), d.0) || self.recent().contains(
                d.0,
            ) by {
                assert(old(self).staged().contains(d));
            }
        }
        Ok(deleted_count)
    }

    /// Stages the removal of the documents whose path begins with
    /// `path_prefix`: those that the last commit knows and those staged
    /// since. Returns how many known paths began with the prefix.
    pub fn delete_docs_by_path_prefix(&mut self, path_prefix: &str) -> (r: Result<usize, IndexError>)
        ensures
            final(self).searches_as(old(self)),
            final(self).committed() == old(self).committed(),
            match r {
                Ok(count) => {
                    &&& prefix_removed(
                        old(self).staged(),
                        old(self).committed(),
                        path_prefix@,
                        final(self).staged(),
                    )
                    &&& old(self).paths_known() ==> final(self).staged() == without_prefix(
                        old(self).staged(),
                        path_prefix@,
                    )
                    &&& final(self).pending() == bump(old(self).pending(), count as nat)
                    &&& count == 0 ==> final(self).staged() == old(self).staged()
                    &&& old(self).settled() ==> final(self).settled()
                },
                Err(e) => e is Engine && final(self).pending() == old(self).pending(),
            },
    {
        let snapshot = match open_reader(&self.writer) {
            Ok(snapshot) => snapshot,
            Err(e) => {
                return Err(engine_error(describe(&e)));
            },
        };
        let mut known = match path_terms(&snapshot) {
            Ok(terms) => terms,
            Err(e) => {
                return Err(engine_error(describe(&e)));
            },
        };
        let ghost terms = known@;
        let mut i: usize = 0;
        while i < self.recent_paths.len()
            invariant
                i <= self.recent_paths.len(),
                known@.len() == terms.len() + i,
                forall|j: int| 0 <= j < terms.len() ==> known@[j] == terms[j],
                forall|j: int|
                    0 <= j < i ==> ((#[trigger] known@[terms.len() + j]) matches Some(path)
                        && path@ == self.recent()[j]),
            decreases self.recent_paths.len() - i,
        {
            known.push(Some(self.recent_paths[i].clone()));
            i += 1;
        }
        proof {
            assert forall|p: Seq<char>| lists_path(terms, p) implies lists_path(known@, p) by {
                let k = choose|k: int|
                    0 <= k < terms.len() && ((#[trigger] terms[k]) matches Some(term) && term@
                        == p);
                assert(known@[k] == terms[k]);
            }
            assert forall|p: Seq<char>| self.recent().contains(p) implies lists_path(
                known@,
                p,
            ) by {
                let j = choose|j: int| 0 <= j < self.recent().len() && self.recent()[j] == p;
                assert(known@[terms.len() + j] matches Some(path) && path@ == p);
            }
            lemma_listed_removal(
                old(self).staged(),
                old(self).committed(),
                known@,
                path_prefix@,
            );
            if old(self).paths_known() {
                lemma_listed_all(old(self).staged(), known@, path_prefix@);
            }
        }
        self.delete_listed(&known, path_prefix)
    }

    /// Publishes what is staged, where anything is pending, and lets searches
    /// see it.
    pub fn commit(&mut self) -> (r: Result<(), IndexError>)
        ensures
            old(self).pending() == 0 ==> {
                &&& r is Ok
                &&& final(self).staged() == old(self).staged()
                &&& final(self).committed() == old(self).committed()
                &&& final(self).searches_as(old(self))
                &&& final(self).pending() == 0
                &&& old(self).settled() ==> final(self).settled()
            },
            old(self).pending() > 0 ==> match r {
                Ok(_) => {
                    &&& final(self).staged() == old(self).staged()
                    &&& final(self).up_to_date()
                    &&& final(self).pending() == 0
                    &&& final(self).settled()
                },
                Err(e) => {
                    &&& e is Engine
                    &&& final(self).searches_as(old(self))
                    &&& final(self).pending() == old(self).pending() || {
                        &&& final(self).pending() == 0
                        &&& final(self).staged() == old(self).staged()
                        &&& final(self).committed() == old(self).staged()
                    }
                },
            },
    {
        if self.pending_operations > 0 {
            if let Err(e) = commit_staged(&mut self.writer) {
                return Err(engine_error(describe(&e)));
            }
            self.pending_operations = 0;
            match open_reader(&self.writer) {
                Ok(reader) => {
                    self.reader = reader;
                    self.recent_paths = Vec::new();
                    proof {
                        self.lemma_up_to_date_paths_known();
                    }
                },
                Err(e) => {
                    return Err(engine_error(describe(&e)));
                },
            }
        }
        Ok(())
    }

    /// The number of mutations since the last commit.
    pub fn get_pending_operations(&self) -> (pending: u32)
        ensures
            pending == self.pending(),
    {
        self.pending_operations
    }

    /// Up to [`SEARCH_FILE_LIMIT`] records of visible documents that match
    /// `keyword`, best first; each is the JSON text of a document's stored
    /// fields. Which documents match, and in which order, is the engine's to
    /// say; the search may fail, where the keyword is no query or the engine
    /// cannot read its files.
    pub fn search(&self, keyword: &str) -> (r: Result<Vec<String>, IndexError>)
        ensures
            match r {
                Ok(records) => {
                    &&& texts(records@) == self.hits(keyword@)
                    &&& records.len() <= SEARCH_FILE_LIMIT
                    &&& forall|i: int|
                        0 <= i < records.len() ==> is_record_of(
                            self.visible(),
                            (#[trigger] records[i])@,
                        )
                },
                Err(e) => e is Engine,
            },
    {
        match search_records(&self.reader, keyword, SEARCH_FILE_LIMIT) {
            Ok(records) => Ok(records),
            Err(e) => Err(engine_error(describe(&e))),
        }
    }

    /// Where everything staged is committed, every staged path is known.
    pub proof fn lemma_up_to_date_paths_known(&self)
        requires
            self.committed() == self.staged(),
        ensures
            self.paths_known(),
    {
    }
}

/// Where every path of `docs` is listed, dropping the listed paths under a
/// prefix drops every document under the prefix.
pub proof fn lemma_listed_all(docs: Multiset<Doc>, terms: Seq<Option<String>>, prefix: Seq<char>)
    requires
        forall|d: Doc| #[trigger] docs.contains(d) ==> lists_path(terms, d.0),
    ensures
        without_listed(docs, terms, prefix) == without_prefix(docs, prefix),
{
    broadcast use vstd::multiset::group_multiset_axioms;

    let a = without_listed(docs, terms, prefix);
    let b = without_prefix(docs, prefix);
    assert forall|d: Doc| a.count(d) == b.count(d) by {
        if prefix.is_prefix_of(d.0) && docs.contains(d) {
            assert(listed_under(terms, prefix, d.0));
        }
    }
    assert(a =~= b);
}

/// Where no term lies under the prefix, dropping the listed paths under it
/// drops nothing.
pub proof fn lemma_nothing_listed(docs: Multiset<Doc>, terms: Seq<Option<String>>, prefix: Seq<char>)
    ensures
        count_under(terms, prefix) == 0 ==> without_listed(docs, terms, prefix) == docs,
{
    broadcast use vstd::multiset::group_multiset_axioms;

    if count_under(terms, prefix) == 0 {
        assert forall|p: Seq<char>| !listed_under(terms, prefix, p) by {
            if listed_under(terms, prefix, p) {
                let k = choose|k: int|
                    0 <= k < terms.len() && ((#[trigger] terms[k]) matches Some(term) && term@
                        == p);
                lemma_count_under_positive(terms, prefix, k);
            }
        }
        assert(without_listed(docs, terms, prefix) =~= docs);
    }
}

/// Dropping listed paths leaves only documents that were there.
pub proof fn lemma_without_listed_subset(
    docs: Multiset<Doc>,
    terms: Seq<Option<String>>,
    prefix: Seq<char>,
)
    ensures
        forall|d: Doc| #[trigger]
            without_listed(docs, terms, prefix).contains(d) ==> docs.contains(d),
{
    broadcast use vstd::multiset::group_multiset_axioms;

}

/// Dropping the listed paths under a prefix, where the list names every path
/// of `committed`, removes as a delete by prefix should.
pub proof fn lemma_listed_removal(
    before: Multiset<Doc>,
    committed: Multiset<Doc>,
    terms: Seq<Option<String>>,
    prefix: Seq<char>,
)
    requires
        forall|d: Doc| #[trigger] committed.contains(d) ==> lists_path(terms, d.0),
    ensures
        prefix_removed(before, committed, prefix, without_listed(before, terms, prefix)),
        count_under(terms, prefix) == 0 ==> without_listed(before, terms, prefix) == before,
{
    broadcast use vstd::multiset::group_multiset_axioms;

    let after = without_listed(before, terms, prefix);
    assert forall|d: Doc|
        prefix.is_prefix_of(d.0) && has_path(committed, d.0) implies #[trigger] after.count(d)
        == 0 by {
        let c = choose|c: Doc| #[trigger] committed.contains(c) && c.0 == d.0;
        assert(lists_path(terms, c.0));
        assert(listed_under(terms, prefix, d.0));
    }
    if count_under(terms, prefix) == 0 {
        assert forall|p: Seq<char>| !listed_under(terms, prefix, p) by {
            if listed_under(terms, prefix, p) {
                let k = choose|k: int|
                    0 <= k < terms.len() && ((#[trigger] terms[k]) matches Some(term) && term@
                        == p);
                lemma_count_under_positive(terms, prefix, k);
            }
        }
        assert(after =~= before);
    }
}

/// A readable term under the prefix is counted.
pub proof fn lemma_count_under_positive(terms: Seq<Option<String>>, prefix: Seq<char>, k: int)
    requires
        0 <= k < terms.len(),
        terms[k] matches Some(term) && prefix.is_prefix_of(term@),
    ensures
        count_under(terms, prefix) > 0,
    decreases terms.len(),
{
    if k < terms.len() - 1 {
        lemma_count_under_positive(terms.drop_last(), prefix, k);
    }
}

} // verus!
