//! The two tools of the server: searching the index and loading a file.

use crate::search::engine::is_record_of;
use crate::search::file::{File, FileLoader, LoadError};
use crate::search::text_index::{IndexError, TextIndex, SEARCH_FILE_LIMIT};
use crate::servers::error::ServerError;
use crate::text::texts;
use vstd::prelude::*;
use vstd::string::StringExecFns;

verus! {

/// What `search_index` is called with.
#[derive(Debug, Clone)]
pub struct SearchParams {
    /// Keyword to search for. Use space to separate multiple keywords.
    pub keyword: String,
}

/// What `load_file` is called with.
#[derive(Debug, Clone)]
pub struct LoadFileParams {
    /// Path to the file to load.
    pub file_path: String,
}

/// The texts with `, ` between them.
pub open spec fn joined(records: Seq<Seq<char>>) -> Seq<char>
    decreases records.len(),
{
    if records.len() == 0 {
        Seq::empty()
    } else if records.len() == 1 {
        records[0]
    } else {
        joined(records.drop_last()) + ", "@ + records.last()
    }
}

/// The records as one text: `[`, the records with `, ` between them, `]`.
pub open spec fn listed(records: Seq<Seq<char>>) -> Seq<char> {
    "["@ + joined(records) + "]"@
}

/// The records as one text: `[`, the records with `, ` between them, `]`.
/// Without any record there is nothing to show, which is an error.
pub fn format_results(records: &Vec<String>) -> (r: Result<String, ServerError>)
    ensures
        match r {
            Ok(shown) => records@.len() > 0 && shown@ == listed(texts(records@)),
            Err(e) => records@.len() == 0 && e.text() == "No results found."@,
        },
{
    if records.is_empty() {
        return Err(ServerError::new("No results found.".to_owned()));
    }
    let mut shown = "[".to_owned();
    shown.append(records[0].as_str());
    let mut i: usize = 1;
    assert(texts(records@.take(1)) =~= seq![records@[0]@]);
    while i < records.len()
        invariant
            1 <= i <= records.len(),
            shown@ == "["@ + joined(texts(records@.take(i as int))),
        decreases records.len() - i,
    {
        shown.append(", ");
        shown.append(records[i].as_str());
        proof {
            let longer = texts(records@.take(i + 1));
            assert(longer.drop_last() =~= texts(records@.take(i as int)));
            assert(longer.last() == records@[i as int]@);
            assert(shown@ =~= "["@ + joined(longer));
        }
        i += 1;
    }
    assert(records@.take(records.len() as int) =~= records@);
    shown.append("]");
    Ok(shown)
}

/// What the tool `search_index` makes of what the index returned: the
/// records as one text, or the index's error in its own words.
pub fn shown_results(found: Result<Vec<String>, IndexError>) -> (r: Result<String, ServerError>)
    ensures
        match found {
            Ok(records) => match r {
                Ok(shown) => records@.len() > 0 && shown@ == listed(texts(records@)),
                Err(e) => records@.len() == 0 && e.text() == "No results found."@,
            },
            Err(error) => r matches Err(e) && e.text() == error.text(),
        },
{
    match found {
        Ok(records) => format_results(&records),
        Err(e) => Err(ServerError::new(e.message())),
    }
}

/// The tool `search_index`: the records that a search of the index for the
/// keyword finds, up to ten of visible documents, as one text. The search is
/// the engine's and may fail; where it finds nothing, that is an error too.
pub fn search_index(index: &TextIndex, params: &SearchParams) -> (r: Result<String, ServerError>)
    ensures
        r matches Ok(shown) ==> {
            &&& shown@ == listed(index.hits(params.keyword@))
            &&& 0 < index.hits(params.keyword@).len() <= SEARCH_FILE_LIMIT
            &&& forall|i: int|
                0 <= i < index.hits(params.keyword@).len() ==> is_record_of(
                    index.visible(),
                    #[trigger] index.hits(params.keyword@)[i],
                )
        },
{
    let found = index.search(params.keyword.as_str());
    proof {
        if found is Ok {
            let records = found->Ok_0@;
            assert forall|i: int| 0 <= i < texts(records).len() implies is_record_of(
                index.visible(),
                #[trigger] texts(records)[i],
            ) by {
                assert(texts(records)[i] == records[i]@);
            }
        }
    }
    shown_results(found)
}

/// Whether `shown` is what the tool `load_file` makes of the loader's
/// `answer`: the file's text, or the loader's error behind
/// `Failed to load file: `.
pub open spec fn shows(answer: Result<File, LoadError>, shown: Result<String, ServerError>) -> bool {
    match answer {
        Ok(file) => shown == Ok::<String, ServerError>(file.content),
        Err(e) => shown matches Err(error) && error.text() == "Failed to load file: "@ + e.text(),
    }
}

/// What the tool `load_file` makes of what the loader returned: the file's
/// text, or the loader's error behind `Failed to load file: `.
pub fn loaded_content(loaded: Result<File, LoadError>) -> (r: Result<String, ServerError>)
    ensures
        shows(loaded, r),
{
    match loaded {
        Ok(file) => Ok(file.content),
        Err(e) => {
            let mut message = "Failed to load file: ".to_owned();
            message.append(e.message().as_str());
            Err(ServerError::new(message))
        },
    }
}

/// The tool `load_file`: what the loader answers when asked for the file at
/// the given path, shown as its text or as its error.
pub fn load_file<L: FileLoader>(loader: &L, params: &LoadFileParams) -> (r: Result<
    String,
    ServerError,
>)
    ensures
        exists|answer: Result<File, LoadError>|
            #![trigger loader.may_load(params.file_path@, answer)]
            loader.may_load(params.file_path@, answer) && shows(answer, r),
{
    loaded_content(loader.load_file(params.file_path.as_str()))
}

} // verus!
