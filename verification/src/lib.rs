//! Queries over the analysis data that the compiler saves for a project: where a
//! name is defined and used, what type and documentation it has, and where its
//! documentation and source are on the web.
//!
//! An [`AnalysisHost`] loads the data of the crates of a project, by way of an
//! [`AnalysisLoader`] that knows where it lies, and answers the queries.

pub mod analysis;
pub mod answer_laws;
pub mod basics;
pub mod chains;
pub mod finding_laws;
pub mod host;
pub mod laws;
pub mod loader;
pub mod loading_laws;
pub mod lowering;
pub mod lowering_laws;
pub mod path;
pub mod path_laws;
pub mod per_crate;
pub mod queries;
pub mod query_laws;
pub mod raw;
pub mod reading;
pub mod recording_laws;
pub mod span;
pub mod table;
pub mod text;
pub mod urls;
pub mod web_laws;

pub use analysis::SymbolResult;
pub use basics::{AError, AResult, CrateId, Id};
pub use host::AnalysisHost;
pub use loader::{AnalysisLoader, CargoAnalysisLoader, Target};
pub use path::FilePath;
pub use per_crate::Def;
pub use raw::{name_space_for_def_kind, DefKind};
pub use span::{Range, Span};
