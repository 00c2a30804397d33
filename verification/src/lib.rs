//! Resolution of links written in site content.
//!
//! Content refers to other pages with `@/`-prefixed paths and to files with
//! relative paths. This crate classifies such links, resolves the former
//! against the table of published pages, and normalizes the latter lexically.

pub mod classify;
pub mod decode;
pub mod path;
pub mod path_laws;
pub mod resolve;
pub mod table;
pub mod text;

pub use classify::{extract_anchor, link_has_protocol_or_zola};
pub use resolve::{
    combine_anchor, get_permalink_key_from_link, is_link_internal_page, resolve_internal_link,
    resolve_link_key, LinkNotFound, ResolvedInternalLink,
};
pub use path::{base_directory, canonicalize_relative_path, combined_path, normalize_path};
pub use table::PermalinkTable;
