//! A directory-based project manifest for remote artifacts ("mods").
//!
//! A project is a named, versioned, ordered list of mod entries. The library
//! owns the on-disk shape of such a project (one main descriptor file plus one
//! descriptor file per mod), reads and writes it through a verified JSON
//! codec, and plans the build that materializes every declared artifact into
//! an installation directory. Directories are modeled as explicit values so
//! that every rule of the format and of the build is stated and proved here;
//! a thin unverified shell performs the actual disk and network traffic.

pub mod builder;
pub mod error;
pub mod format;
pub mod fsmodel;
pub mod json;
pub mod parse;
pub mod text;
pub mod project;
pub mod source;
