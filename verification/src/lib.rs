//! Ferrum: a lightweight static-site generation core.
//!
//! The library owns the data-transformation pipeline of a batch site build:
//! parsing a document's front-matter and body, deriving its output key from
//! its source path, loading a store of named templates, and merging document
//! fields into a template's placeholders to produce the output bytes.
//! All text is handled as UTF-8 byte strings; reading and writing files is
//! left to the caller, which hands the library plain `(path, content)` pairs.

pub mod bytes;
pub mod document;
pub mod error;
pub mod paths;
pub mod render;
pub mod site;
pub mod template;
