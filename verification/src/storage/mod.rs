//! Entries on disk and in the content service: the layout of the content
//! directories, the reading and writing of entry files, and the requests
//! the service takes, apart from the file system and network calls.
pub mod local;
pub mod remote;
