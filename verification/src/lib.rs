//! A library for working with `.xcstrings` localization catalogs: a typed
//! model of the catalog document, a version-gated parser, and a resolver
//! that flattens the catalog into per-locale key-to-string tables while
//! collecting per-entry diagnostics instead of failing or printing.

pub mod expand;
pub mod json;
pub mod model;
pub mod parse;
pub mod resolve;

pub use parse::deserialize;

pub use model::Root;
pub use model::StringEntry;
pub use model::StringUnit;
pub use model::StringUnitState;
pub use model::ExtractionState;
pub use model::Localization;
pub use model::Error;
pub use model::Diagnostic;
pub use model::DiagKind;
