//! Typed logging parameters and the layered merge over them.
//!
//! Two merge policies coexist, one per field kind.  An optional field keeps
//! the override's value only where the override has one and falls back to
//! the base otherwise; a mandatory field always takes the override's value,
//! since a successfully decoded override necessarily holds one.

use vstd::prelude::*;

verus! {

/// Picks `over` where it holds a value and `base` otherwise: the merge rule
/// of a single optional field.
pub open spec fn opt_merged<T>(base: Option<T>, over: Option<T>) -> Option<T> {
    if over is Some {
        over
    } else {
        base
    }
}

/// Merges one optional field: the override wins exactly where it is present.
pub fn merge_opt<T>(base: Option<T>, over: Option<T>) -> (r: Option<T>)
    ensures
        r == opt_merged(base, over),
{
    match over {
        Some(v) => Some(v),
        None => base,
    }
}

/// Per-target severity directives: an ordered list of (target-substring,
/// level-name) pairs.
pub struct LoggerFilter(pub Vec<(String, String)>);

impl LoggerFilter {
    /// A filter with no directives.
    pub fn new() -> (r: LoggerFilter)
        ensures
            r.0@ =~= Seq::<(String, String)>::empty(),
    {
        LoggerFilter(Vec::new())
    }

    /// The directives in order.
    pub fn as_slice(&self) -> (r: &[(String, String)])
        ensures
            r@ == self.0@,
    {
        self.0.as_slice()
    }
}

/// Logger parameters.
pub struct LoggerParams {
    /// A path to a log file, including the file name; the file name part is
    /// suffixed with the current date.
    pub log_file_prefix: Option<String>,
    /// A path for the additional sink's log file, in the same form.
    pub add_log_file_prefix: Option<String>,
    /// The default severity level's name.
    pub default_level: String,
    /// Directives narrowing the level for matching targets.
    pub filter: LoggerFilter,
    /// Target substrings routed to the additional sink.
    pub add_filter: Option<Vec<String>>,
    /// Whether span open/close timings are recorded.
    pub span_timings: bool,
}

/// The field-by-field merge of `base` under `over`: optional fields fall
/// back, mandatory fields always take the override's value.
pub open spec fn params_merged(base: LoggerParams, over: LoggerParams) -> LoggerParams {
    LoggerParams {
        log_file_prefix: opt_merged(base.log_file_prefix, over.log_file_prefix),
        add_log_file_prefix: opt_merged(base.add_log_file_prefix, over.add_log_file_prefix),
        default_level: over.default_level,
        filter: over.filter,
        add_filter: opt_merged(base.add_filter, over.add_filter),
        span_timings: over.span_timings,
    }
}

impl LoggerParams {
    /// Merges `self` (the base) under `rhs` (the override): `rhs` wins on
    /// every field it holds, and unconditionally on the mandatory ones.
    pub fn merge(self, rhs: Self) -> (r: Self)
        ensures
            r == params_merged(self, rhs),
    {
        Self {
            log_file_prefix: merge_opt(self.log_file_prefix, rhs.log_file_prefix),
            add_log_file_prefix: merge_opt(self.add_log_file_prefix, rhs.add_log_file_prefix),
            default_level: rhs.default_level,
            filter: rhs.filter,
            add_filter: merge_opt(self.add_filter, rhs.add_filter),
            span_timings: rhs.span_timings,
        }
    }
}

/// The top-level decoded document: the logging parameters under their key.
pub struct UpperLoggerParams {
    pub logger: LoggerParams,
}

impl UpperLoggerParams {
    /// Merges `rhs` (the base) under `self` (the override): the runtime
    /// document calls this on itself with the embedded baseline as `rhs`.
    pub fn merge(self, rhs: Self) -> (r: Self)
        ensures
            r.logger == params_merged(rhs.logger, self.logger),
    {
        Self { logger: rhs.logger.merge(self.logger) }
    }
}

} // verus!
