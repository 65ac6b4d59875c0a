//! Layered configuration resolution and multi-sink log routing.
//!
//! The crate resolves an application configuration from an embedded baseline
//! document and an optional runtime override: string scalars in the parsed
//! document are rewritten by environment-variable interpolation, the result is
//! coerced back to a typed scalar where it parses as one, and two decoded
//! instances of the same shape are merged field by field.  A second subsystem
//! compiles a default severity level plus per-target directives into a filter
//! and routes log events between a primary and an optional additional sink.

pub mod coerce;
pub mod context;
pub mod envmap;
pub mod errors;
pub mod expand;
pub mod filter;
pub mod level;
pub mod loader;
pub mod logger;
pub mod params;
pub mod router;
pub mod subst;
pub mod text;
pub mod value;
pub mod yaml;

pub use coerce::{coerce, is_float, parse_u64};
pub use context::{format_usize, render_context_report, split_lines};
pub use envmap::EnvMap;
pub use errors::LoggerError;
pub use expand::expand;
pub use filter::{parse_level, SeverityFilter};
pub use level::Level;
pub use loader::{deserialize_error_report, resolve_document, ConfigError, ResolvedDoc};
pub use logger::Logger;
pub use params::{merge_opt, LoggerFilter, LoggerParams, UpperLoggerParams};
pub use router::{
    build_plan, routed_to_additional, routed_to_primary, split_file_path, FileSink, SinkPlan,
};
pub use subst::substitute;
pub use value::Node;
