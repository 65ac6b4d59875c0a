//! The logger's verified core: building the sink plan and the active filter
//! from typed parameters, and swapping the filter on reload.
//!
//! The caller wires the plan to real destinations and keeps their write-back
//! guards; this type decides what exists and what passes.  Re-initialising a
//! process-wide pipeline twice is the caller's error: construction here is
//! pure and may run freely, but only one result may be installed.

use vstd::prelude::*;

use crate::errors::LoggerError;
use crate::filter::{directives_ok, dirs_view, event_passes, filter_matches, level_of_name,
    SeverityFilter};
use crate::level::Level;
use crate::params::{LoggerParams, UpperLoggerParams};
use crate::router::{additional_active, additional_prefix, build_plan, path_splittable,
    plan_matches, primary_prefix, SinkPlan};

verus! {

/// Whether every configured sink path can be split into directory and file
/// name.
pub open spec fn paths_ok(p: LoggerParams) -> bool {
    &&& p.log_file_prefix is Some ==> path_splittable(primary_prefix(p))
    &&& additional_active(p) ==> path_splittable(additional_prefix(p))
}

/// Whether the default level and every directive level parse.
pub open spec fn filter_ok(p: LoggerParams) -> bool {
    level_of_name(p.default_level@) is Some && directives_ok(p.filter.0@)
}

/// The live logging state: the sink plan and the active severity filter.
pub struct Logger {
    pub filter: SeverityFilter,
    pub plan: SinkPlan,
}

impl Logger {
    /// Builds the logging state for `params`: the sink plan first, then the
    /// compiled filter.  Fails with the sink-path error where a configured
    /// path has no file name, else with the filter-syntax error where a
    /// level name is bad; succeeds exactly when neither holds.
    pub fn init(params: &UpperLoggerParams) -> (r: Result<Logger, LoggerError>)
        ensures
            r is Ok <==> paths_ok(params.logger) && filter_ok(params.logger),
            r matches Ok(l) ==> plan_matches(params.logger, l.plan) && filter_matches(
                l.filter,
                params.logger.default_level@,
                params.logger.filter.0@,
            ),
            r matches Err(e) ==> if !paths_ok(params.logger) {
                e == LoggerError::File
            } else {
                e == LoggerError::Filter
            },
    {
        let plan = match build_plan(&params.logger) {
            Ok(p) => p,
            Err(e) => {
                return Err(e);
            },
        };
        let filter = match SeverityFilter::compile(
            params.logger.default_level.as_str(),
            params.logger.filter.as_slice(),
        ) {
            Ok(f) => f,
            Err(e) => {
                return Err(e);
            },
        };
        Ok(Logger { filter, plan })
    }

    /// Replaces the active filter with one compiled from `params`, leaving
    /// the sinks untouched.  A bad level name fails with the filter-syntax
    /// error and changes nothing: no partial filter is ever installed.
    pub fn reload(&mut self, params: &UpperLoggerParams) -> (r: Result<(), LoggerError>)
        ensures
            r is Ok <==> filter_ok(params.logger),
            r is Ok ==> filter_matches(
                final(self).filter,
                params.logger.default_level@,
                params.logger.filter.0@,
            ) && final(self).plan == old(self).plan,
            r matches Err(e) ==> *final(self) == *old(self) && e == LoggerError::Filter,
    {
        match SeverityFilter::compile(
            params.logger.default_level.as_str(),
            params.logger.filter.as_slice(),
        ) {
            Ok(f) => {
                self.filter = f;
                Ok(())
            },
            Err(e) => Err(e),
        }
    }

    /// Classifies an event against the active filter.
    pub fn enabled(&self, target: &str, level: Level) -> (r: bool)
        ensures
            r == event_passes(
                self.filter.default_level,
                dirs_view(self.filter.directives@),
                target@,
                level,
            ),
    {
        self.filter.enabled(target, level)
    }
}

} // verus!
