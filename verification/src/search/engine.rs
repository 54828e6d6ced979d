//! The embedded full-text engine, as far as the index needs it.
//!
//! The functions of this file are believed, not proved: each asks one thing
//! of tantivy and states what tantivy's documentation and source say of it.
//! The documents that an engine handle holds are named as multisets of
//! `(path, content)` pairs; a document counts as held where it can be found
//! again under its path, which is how the index deletes.

use tantivy::Document;
use vstd::multiset::Multiset;
use vstd::prelude::*;

verus! {

/// The longest path, in UTF-8 bytes, that the engine keeps as a single term.
/// tantivy drops longer tokens while indexing (`tokenizer::MAX_TOKEN_LEN`), so
/// a document with a longer path could never be deleted by path.
pub const MAX_PATH_BYTES: usize = 65530;

/// The name of the field that holds a document's path: one untokenised
/// term, stored.
pub const PATH_FIELD: &'static str = "file_path";

/// The name of the field that holds a document's text: tokenised, not
/// stored.
pub const CONTENT_FIELD: &'static str = "content";

/// `tantivy::TantivyError`, carried through untouched.
#[verifier::external_type_specification]
#[verifier::external_body]
pub struct ExTantivyError(tantivy::TantivyError);

/// `tantivy::schema::Schema`, carried through untouched.
#[verifier::external_type_specification]
#[verifier::external_body]
pub struct ExSchema(tantivy::schema::Schema);

/// `tantivy::Index`, carried through untouched.
#[verifier::external_type_specification]
#[verifier::external_body]
pub struct ExIndex(tantivy::Index);

/// `tantivy::IndexReader`, carried through untouched.
#[verifier::external_type_specification]
#[verifier::external_body]
pub struct ExIndexReader(tantivy::IndexReader);

/// Holds a `tantivy::IndexWriter`. The writer is generic over an engine trait,
/// so it is kept behind this struct instead of being declared directly.
/// A `Writer` is only made by [`open_writer`].
#[verifier::external_body]
pub struct Writer {
    inner: tantivy::IndexWriter,
}

/// The documents of the last commit of `index`, before any writer is opened on it.
pub uninterp spec fn index_docs(index: tantivy::Index) -> Multiset<(Seq<char>, Seq<char>)>;

/// The documents that the next successful commit of `writer` publishes.
pub uninterp spec fn staged_docs(writer: Writer) -> Multiset<(Seq<char>, Seq<char>)>;

/// The documents of the last commit of the index that `writer` writes to.
pub uninterp spec fn committed_docs(writer: Writer) -> Multiset<(Seq<char>, Seq<char>)>;

/// The documents that searches through `reader` see.
pub uninterp spec fn reader_docs(reader: tantivy::IndexReader) -> Multiset<(Seq<char>, Seq<char>)>;

/// The JSON text that `tantivy::Document::to_json` gives for the stored fields
/// of a document with the given path (the path is the only stored field).
pub uninterp spec fn record_json(path: Seq<char>) -> Seq<char>;

/// The records that a search through `reader` gives for `keyword` when it
/// may return `limit` of them: what `tantivy::Searcher::search` collects with
/// `TopDocs::with_limit(limit)` for the query that the default parser makes
/// of `keyword`, each hit as its JSON text, best first. A reader that is
/// never reloaded searches one fixed set of segments in the calling thread,
/// so the same keyword and limit give the same records.
pub uninterp spec fn found_records(
    reader: tantivy::IndexReader,
    keyword: Seq<char>,
    limit: usize,
) -> Seq<Seq<char>>;

/// Whether `path` is short enough for the engine to keep it as one term.
pub open spec fn fits_term(path: Seq<char>) -> bool {
    vstd::utf8::encode_utf8(path).len() <= MAX_PATH_BYTES
}

/// Whether `record` is the record of some document of `docs`.
pub open spec fn is_record_of(docs: Multiset<(Seq<char>, Seq<char>)>, record: Seq<char>) -> bool {
    exists|d: (Seq<char>, Seq<char>)| #[trigger] docs.contains(d) && record == record_json(d.0)
}

/// Whether `terms` holds `path` as one of its readable entries.
pub open spec fn lists_path(terms: Seq<Option<String>>, path: Seq<char>) -> bool {
    exists|i: int|
        0 <= i < terms.len() && ((#[trigger] terms[i]) matches Some(term) && term@ == path)
}

/// `tantivy::schema::SchemaBuilder`: builds the schema of two text fields,
/// `file_path` (one untokenised term, stored) and `content` (tokenised, not
/// stored). Nothing is claimed of the result.
#[verifier::external_body]
pub(crate) fn document_schema() -> tantivy::schema::Schema {
    let mut builder = tantivy::schema::Schema::builder();
    builder.add_text_field(PATH_FIELD, tantivy::schema::STRING | tantivy::schema::STORED);
    builder.add_text_field(CONTENT_FIELD, tantivy::schema::TEXT);
    builder.build()
}

/// `tantivy::Index::create_in_ram`: a new index in memory holds no document.
#[verifier::external_body]
pub(crate) fn create_in_ram(schema: tantivy::schema::Schema) -> (index: tantivy::Index)
    ensures
        index_docs(index) == Multiset::<(Seq<char>, Seq<char>)>::empty(),
{
    tantivy::Index::create_in_ram(schema)
}

/// `tantivy::Index::exists` on the directory at `directory`: whether it holds
/// an index already (a `meta.json`). The answer depends on the disk, so
/// nothing is claimed of it.
#[verifier::external_body]
pub(crate) fn index_exists(directory: &str) -> (r: Result<bool, tantivy::TantivyError>) {
    let directory = tantivy::directory::MmapDirectory::open(directory)?;
    Ok(tantivy::Index::exists(&directory)?)
}

/// `tantivy::Index::create_in_dir`: fails where the directory holds an index
/// already, so an index that it returns holds no document.
#[verifier::external_body]
pub(crate) fn create_in_dir(directory: &str, schema: tantivy::schema::Schema) -> (r: Result<
    tantivy::Index,
    tantivy::TantivyError,
>)
    ensures
        r matches Ok(index) ==> index_docs(index) == Multiset::<(Seq<char>, Seq<char>)>::empty(),
{
    tantivy::Index::create_in_dir(directory, schema)
}

/// `tantivy::Index::open_in_dir`: opens the index that the directory holds.
/// What it holds depends on the disk, so nothing is claimed of it.
#[verifier::external_body]
pub(crate) fn open_in_dir(directory: &str) -> (r: Result<tantivy::Index, tantivy::TantivyError>) {
    tantivy::Index::open_in_dir(directory)
}

/// `tantivy::Index::schema`, compared with `schema` by the engine's own `==`.
/// Nothing is claimed of the answer.
#[verifier::external_body]
pub(crate) fn has_schema(index: &tantivy::Index, schema: &tantivy::schema::Schema) -> (same: bool) {
    index.schema() == *schema
}

/// `tantivy::Index::writer`: a writer that has just been opened has staged
/// exactly what the index's last commit holds.
#[verifier::external_body]
pub(crate) fn open_writer(index: tantivy::Index, memory_budget: usize) -> (r: Result<
    Writer,
    tantivy::TantivyError,
>)
    ensures
        r matches Ok(writer) ==> staged_docs(writer) == index_docs(index) && committed_docs(writer)
            == index_docs(index),
{
    Ok(Writer { inner: index.writer(memory_budget)? })
}

/// `tantivy::IndexReaderBuilder::try_into` on the writer's index, with manual
/// reloading: the new reader sees the last commit and, never being reloaded,
/// keeps seeing it.
#[verifier::external_body]
pub(crate) fn open_reader(writer: &Writer) -> (r: Result<tantivy::IndexReader, tantivy::TantivyError>)
    ensures
        r matches Ok(reader) ==> reader_docs(reader) == committed_docs(*writer),
{
    writer.inner.index().reader_builder().reload_policy(tantivy::ReloadPolicy::Manual).try_into()
}

/// `tantivy::IndexWriter::add_document` with a document of the two fields: on
/// success the document is staged for the next commit. The last commit is not
/// touched either way. The path must fit in one term.
#[verifier::external_body]
pub(crate) fn stage_document(writer: &mut Writer, path: &str, content: &str) -> (r: Result<
    (),
    tantivy::TantivyError,
>)
    requires
        fits_term(path@),
    ensures
        committed_docs(*final(writer)) == committed_docs(*old(writer)),
        r is Ok ==> staged_docs(*final(writer)) == staged_docs(*old(writer)).insert(
            (path@, content@),
        ),
{
    let schema = writer.inner.index().schema();
    let mut document = tantivy::TantivyDocument::default();
    document.add_text(schema.get_field(PATH_FIELD)?, path);
    document.add_text(schema.get_field(CONTENT_FIELD)?, content);
    writer.inner.add_document(document)?;
    Ok(())
}

/// `tantivy::IndexWriter::delete_term` with the term of `path` in the
/// `file_path` field: every document staged so far under exactly that path
/// leaves, all others stay. The last commit is not touched. On an error from
/// the schema lookup nothing is claimed of what is staged.
#[verifier::external_body]
pub(crate) fn stage_delete(writer: &mut Writer, path: &str) -> (r: Result<(), tantivy::TantivyError>)
    ensures
        committed_docs(*final(writer)) == committed_docs(*old(writer)),
        r is Ok ==> staged_docs(*final(writer)) == staged_docs(*old(writer)).filter(
            |d: (Seq<char>, Seq<char>)| d.0 != path@,
        ),
{
    let field = writer.inner.index().schema().get_field(PATH_FIELD)?;
    writer.inner.delete_term(tantivy::Term::from_field_text(field, path));
    Ok(())
}

/// `tantivy::IndexWriter::commit`: on success what was staged is published as
/// the index's last commit, and stays staged.
#[verifier::external_body]
pub(crate) fn commit_staged(writer: &mut Writer) -> (r: Result<(), tantivy::TantivyError>)
    ensures
        r is Ok ==> staged_docs(*final(writer)) == staged_docs(*old(writer)) && committed_docs(
            *final(writer),
        ) == staged_docs(*old(writer)),
{
    writer.inner.commit()?;
    Ok(())
}

/// `tantivy::termdict::TermDictionary::stream` over the `file_path` field of
/// every segment that `reader` sees, each key handed out as text (`None` where
/// it is not UTF-8): the path of every document that the reader sees is among
/// them. Terms of documents deleted earlier may be listed too.
#[verifier::external_body]
pub(crate) fn path_terms(reader: &tantivy::IndexReader) -> (r: Result<
    Vec<Option<String>>,
    tantivy::TantivyError,
>)
    ensures
        r matches Ok(terms) ==> forall|d: (Seq<char>, Seq<char>)| #[trigger]
            reader_docs(*reader).contains(d) ==> lists_path(terms@, d.0),
{
    let searcher = reader.searcher();
    let field = searcher.schema().get_field(PATH_FIELD)?;
    let mut terms = Vec::new();
    for segment in searcher.segment_readers() {
        let inverted = segment.inverted_index(field)?;
        let mut stream = inverted.terms().stream()?;
        while stream.advance() {
            terms.push(std::str::from_utf8(stream.key()).ok().map(String::from));
        }
    }
    Ok(terms)
}

/// `tantivy::Searcher::search` with the default query parser over `content`
/// and `tantivy::collector::TopDocs::with_limit(limit)`, each hit handed out
/// through `tantivy::Document::to_json`: the records that the search finds
/// for this keyword and limit, at most `limit` of them, each the record of a
/// document that `reader` sees. The collector panics on a limit of zero and
/// reserves room for twice the limit.
#[verifier::external_body]
pub(crate) fn search_records(reader: &tantivy::IndexReader, keyword: &str, limit: usize) -> (r:
    Result<Vec<String>, tantivy::TantivyError>)
    requires
        0 < limit <= 1000,
    ensures
        r matches Ok(records) ==> records@.map_values(|record: String| record@) == found_records(
            *reader,
            keyword@,
            limit,
        ),
        r matches Ok(records) ==> records.len() <= limit && forall|i: int|
            #![trigger records[i]]
            0 <= i < records.len() ==> exists|d: (Seq<char>, Seq<char>)|
                #![trigger reader_docs(*reader).contains(d)]
                reader_docs(*reader).contains(d) && records[i]@ == record_json(d.0),
{
    let searcher = reader.searcher();
    let field = searcher.schema().get_field(CONTENT_FIELD)?;
    let parser = tantivy::query::QueryParser::for_index(searcher.index(), vec![field]);
    let query = parser.parse_query(keyword)?;
    let hits = searcher.search(&query, &tantivy::collector::TopDocs::with_limit(limit))?;
    let mut records = Vec::new();
    for (_score, address) in hits {
        let document: tantivy::TantivyDocument = searcher.doc(address)?;
        records.push(document.to_json(searcher.schema()));
    }
    Ok(records)
}

/// `tantivy::TantivyError`'s `Display`: the engine's own words for an error.
#[verifier::external_body]
pub(crate) fn describe(error: &tantivy::TantivyError) -> (text: String) {
    error.to_string()
}

} // verus!
