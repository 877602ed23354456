//! Rule resolution and argument substitution for a file-type dispatcher.
//!
//! A configuration document maps filename patterns to an external viewer
//! command and its argument template; this library loads such a document,
//! picks the first rule that matches a filename, and expands the template's
//! placeholders into a concrete argument vector.
pub mod text;
pub mod upto;
pub mod glob;
pub mod kdl_doc;
pub mod config;
pub mod dispatch;
