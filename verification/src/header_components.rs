//! Inert value holders used by header components; no encoding logic.

pub mod file_meta;
