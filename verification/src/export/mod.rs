//! Exports of benchmark results: the markup of the table formats, the
//! escaping of untrusted text, and the choice of a format for a file.
pub mod markup;
pub mod asciidoc;
pub mod markdown;
pub mod orgmode;
pub mod html;
pub mod csv;
pub mod metadata;
pub mod target;
pub mod runs;
