//! Reading and navigating EPUB packages.
//!
//! The library parses the package document of an EPUB container into a
//! [`parsers::EpubMetadata`] context (resources, spine, table of contents and
//! metadata), and offers navigation over it through [`doc::EpubDoc`].
pub mod archive;
pub mod doc;
pub mod error;
pub mod parsers;
mod text;
pub mod utils;
pub mod xmlutils;
