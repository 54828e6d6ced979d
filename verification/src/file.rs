pub mod file_filter;
pub mod file_watcher;
pub mod lazy_file_loader;
pub mod read_file;
