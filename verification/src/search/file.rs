//! The vocabulary shared by the watcher, the loader and the index: documents,
//! the operations a change of the watched tree turns into, and the interfaces
//! of the collaborators.

use crate::text::{decimal, decimal_text};
use vstd::prelude::*;
use vstd::string::StringExecFns;

verus! {

/// A document: a file's path, which is its key in the index, and its text.
#[derive(Debug, Clone)]
pub struct File {
    pub path: String,
    pub content: String,
}

impl View for File {
    type V = (Seq<char>, Seq<char>);

    open spec fn view(&self) -> (Seq<char>, Seq<char>) {
        (self.path@, self.content@)
    }
}

impl File {
    /// The document of the given path and content.
    pub fn new(path: String, content: String) -> (file: Self)
        ensures
            file.path == path,
            file.content == content,
    {
        Self { path, content }
    }
}

/// Why a file could not be loaded.
#[derive(Debug, Clone)]
pub enum LoadError {
    /// Every attempt to read the file failed; `cause` is what the last one said.
    ReadFailed { attempts: u64, cause: String },
}

impl LoadError {
    /// The error in words.
    pub open spec fn text(&self) -> Seq<char> {
        match self {
            LoadError::ReadFailed { attempts, cause } => "Failed to read file after "@
                + decimal_text(*attempts as nat) + " attempts: "@ + cause@,
        }
    }

    /// The error in words.
    pub fn message(&self) -> (message: String)
        ensures
            message@ == self.text(),
    {
        match self {
            LoadError::ReadFailed { attempts, cause } => {
                let mut message = "Failed to read file after ".to_owned();
                message.append(decimal(*attempts).as_str());
                message.append(" attempts: ");
                message.append(cause.as_str());
                message
            },
        }
    }
}

/// Decides which paths are indexed. The answer depends on the path alone.
pub trait FileFilter {
    /// The paths that the filter lets through. Where a filter does not say
    /// which they are, nothing is known of them but that they depend on the
    /// filter and the path alone.
    open spec fn accepts(&self, path: Seq<char>) -> bool {
        vstd::pervasive::arbitrary::<spec_fn(&Self, Seq<char>) -> bool>()(self, path)
    }

    /// Whether `path` is to be indexed.
    fn is_target(&self, path: &str) -> (target: bool)
        ensures
            target == self.accepts(path@),
    ;
}

/// Reads documents from the file system. What comes back depends on the
/// disk, so nothing is promised of it; a directory is walked without any
/// filtering, one entry per regular file.
pub trait FileLoader {
    /// Whether `answer` is something that this loader may give when it is
    /// asked for the file at `path`. Which answers those are is the loader's
    /// to say; where it does not say, nothing is known of them.
    open spec fn may_load(&self, path: Seq<char>, answer: Result<File, LoadError>) -> bool {
        vstd::pervasive::arbitrary::<spec_fn(&Self, Seq<char>, Result<File, LoadError>) -> bool>()(
            self,
            path,
            answer,
        )
    }

    /// Whether `entries` is something that this loader may give when it is
    /// asked for the files under `path`. Which lists those are is the
    /// loader's to say; where it does not say, nothing is known of them.
    open spec fn may_list(&self, path: Seq<char>, entries: Seq<Result<File, LoadError>>) -> bool {
        vstd::pervasive::arbitrary::<
            spec_fn(&Self, Seq<char>, Seq<Result<File, LoadError>>) -> bool,
        >()(self, path, entries)
    }

    /// One entry for each regular file under `path`, at any depth.
    fn load_directory(&self, path: &str) -> (entries: Vec<Result<File, LoadError>>)
        ensures
            self.may_list(path@, entries@),
    ;

    /// The file at `path`.
    fn load_file(&self, path: &str) -> (answer: Result<File, LoadError>)
        ensures
            self.may_load(path@, answer),
    ;
}

/// A change of the watched tree.
#[derive(Debug, Clone)]
pub enum FileOperation {
    FileCreated(String),
    FileModified(String),
    /// The new path is a file.
    FileRenamed { old_path: String, new_path: String },
    /// The new path is a directory.
    DirectoryRenamed { old_path: String, new_path: String },
    FileDeleted(String),
    DirectoryDeleted(String),
}

/// A [`FileOperation`] as the contracts see it: the same variants over the
/// characters of the paths.
pub enum Change {
    FileCreated(Seq<char>),
    FileModified(Seq<char>),
    FileRenamed { old_path: Seq<char>, new_path: Seq<char> },
    DirectoryRenamed { old_path: Seq<char>, new_path: Seq<char> },
    FileDeleted(Seq<char>),
    DirectoryDeleted(Seq<char>),
}

impl View for FileOperation {
    type V = Change;

    open spec fn view(&self) -> Change {
        match self {
            FileOperation::FileCreated(path) => Change::FileCreated(path@),
            FileOperation::FileModified(path) => Change::FileModified(path@),
            FileOperation::FileRenamed { old_path, new_path } => Change::FileRenamed {
                old_path: old_path@,
                new_path: new_path@,
            },
            FileOperation::DirectoryRenamed { old_path, new_path } => Change::DirectoryRenamed {
                old_path: old_path@,
                new_path: new_path@,
            },
            FileOperation::FileDeleted(path) => Change::FileDeleted(path@),
            FileOperation::DirectoryDeleted(path) => Change::DirectoryDeleted(path@),
        }
    }
}

/// The operations as the contracts see them.
pub open spec fn views(operations: Seq<FileOperation>) -> Seq<Change> {
    operations.map_values(|operation: FileOperation| operation@)
}

/// Why an event of the watcher gave no operation.
#[derive(Debug, Clone)]
pub enum WatchError {
    /// A rename event without both of its paths.
    MalformedEvent,
    /// The notification service itself reported an error.
    Backend(String),
}

/// Watches a directory tree and hands every operation it derives to a
/// handler, in the order of the changes.
pub trait FileWatcher {
    /// Begins to watch the tree under `path`.
    fn watch_directory<H>(&mut self, path: &str, handler: H) -> Result<(), WatchError> where
        H: Fn(&FileOperation) -> Result<(), WatchError> + Send + Sync + 'static,
    ;

    /// Ends the watch and waits until the handler is called no more.
    fn stop_watching(&mut self) -> Result<(), WatchError>;
}

} // verus!
