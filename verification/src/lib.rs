//! Search of EPUB books for a regular expression.
//!
//! An archive is resolved from its container descriptor over its package
//! document to its reading order and its table of contents. Each document
//! of the reading order gives its paragraphs, and each paragraph that holds
//! a match is reported under the chapter that the table of contents gives
//! its document. The library reads no file: whoever uses it hands it the
//! entries of the archive as bytes, in the order in which [`archive`] asks
//! for them.

pub mod archive;
pub mod attribute;
pub mod breadcrumb;
pub mod container;
pub mod error;
pub mod event;
pub mod matcher;
pub mod navigation;
pub mod package;
pub mod paragraph;
pub mod path;
pub mod report;
pub mod run;
pub mod scan;
pub mod search;
pub mod text;
