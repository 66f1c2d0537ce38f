//! Resolves Arduino platform dependencies declared in a `sketch.yaml` into a
//! reproducible, pinned Nix build description.
//!
//! The pipeline: parse each profile's textual platform reference
//! (`vendor:platform (major.minor.patch)`), look the platform up in its
//! package index, deduplicate repeated references across profiles, and emit a
//! deterministic script that pins every resolved artifact by checksum while
//! rewriting the manifest to point at the pinned copies.

pub mod arguments;
pub mod generate;
pub mod index_json;
pub mod sketch_yaml;
pub mod version;

pub use version::Version;
