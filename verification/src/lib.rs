//! The core of a personal bookmarking service: pin records and where they
//! are kept, search and tag counts, the snapshot worker's decisions, link
//! rewriting in fetched documents, and archive export.
//!
//! The library performs no input or output. Callers read and write files,
//! run the browser and move requests between threads; the functions here
//! decide what is to be read, written and run, and what the results mean.
pub mod dom;
pub mod downloader;
pub mod errors;
pub mod forms;
pub mod htmlrenderer;
pub mod listing;
pub mod pins;
pub mod search;
pub mod sequences;
pub mod site;
pub mod text;
pub mod user;
pub mod user_archive;
pub mod worker;
