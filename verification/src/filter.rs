//! The severity filter: a default level plus ordered per-target directives,
//! compiled from their textual form and classifying each (target, level)
//! event as pass or drop.

use vstd::prelude::*;

use crate::errors::LoggerError;
use crate::level::Level;
use crate::text::{contains_seq, contains_sub, str_eq};

verus! {

/// The level a name denotes, or `None` for a name outside the fixed set.
pub open spec fn level_of_name(s: Seq<char>) -> Option<Level> {
    if s == "trace"@ {
        Some(Level::Trace)
    } else if s == "debug"@ {
        Some(Level::Debug)
    } else if s == "info"@ {
        Some(Level::Info)
    } else if s == "warn"@ {
        Some(Level::Warn)
    } else if s == "error"@ {
        Some(Level::Error)
    } else {
        None
    }
}

/// Parses a level name; exactly the five fixed names are accepted.
pub fn parse_level(s: &str) -> (r: Option<Level>)
    ensures
        r == level_of_name(s@),
{
    if str_eq(s, "trace") {
        Some(Level::Trace)
    } else if str_eq(s, "debug") {
        Some(Level::Debug)
    } else if str_eq(s, "info") {
        Some(Level::Info)
    } else if str_eq(s, "warn") {
        Some(Level::Warn)
    } else if str_eq(s, "error") {
        Some(Level::Error)
    } else {
        None
    }
}

/// The shape of a compiled directive list.
pub open spec fn dirs_view(dirs: Seq<(String, Level)>) -> Seq<(Seq<char>, Level)> {
    dirs.map_values(|p: (String, Level)| (p.0@, p.1))
}

/// The level in force for `target`: the default, narrowed by each directive
/// in list order whose substring the target contains; the last matching
/// directive wins.
pub open spec fn effective_level(
    default: Level,
    dirs: Seq<(Seq<char>, Level)>,
    target: Seq<char>,
) -> Level
    decreases dirs.len(),
{
    if dirs.len() == 0 {
        default
    } else if contains_seq(target, dirs.last().0) {
        dirs.last().1
    } else {
        effective_level(default, dirs.drop_last(), target)
    }
}

/// Whether an event at `level` with `target` passes the filter.
pub open spec fn event_passes(
    default: Level,
    dirs: Seq<(Seq<char>, Level)>,
    target: Seq<char>,
    level: Level,
) -> bool {
    level.rank() >= effective_level(default, dirs, target).rank()
}

/// An active severity filter: a default level and compiled directives.
#[derive(Clone)]
pub struct SeverityFilter {
    pub default_level: Level,
    pub directives: Vec<(String, Level)>,
}

/// Whether every directive's level name is in the fixed set.
pub open spec fn directives_ok(dirs: Seq<(String, String)>) -> bool {
    forall|i: int| 0 <= i < dirs.len() ==> level_of_name((#[trigger] dirs[i]).1@) is Some
}

/// Whether `f` is the compilation of `default_level` and `dirs`: the parsed
/// default, and each directive with its target kept and its level parsed.
pub open spec fn filter_matches(
    f: SeverityFilter,
    default_level: Seq<char>,
    dirs: Seq<(String, String)>,
) -> bool {
    &&& Some(f.default_level) == level_of_name(default_level)
    &&& f.directives@.len() == dirs.len()
    &&& forall|i: int|
        0 <= i < dirs.len() ==> (#[trigger] f.directives@[i]).0@ == dirs[i].0@ && Some(
            f.directives@[i].1,
        ) == level_of_name(dirs[i].1@)
}

impl SeverityFilter {
    /// Compiles a default level name and textual directives.  Succeeds if
    /// and only if every level name is one of the fixed set; a single bad
    /// name fails the whole set with a filter-syntax error.
    pub fn compile(default_level: &str, directives: &[(String, String)]) -> (r: Result<
        SeverityFilter,
        LoggerError,
    >)
        ensures
            r is Ok <==> level_of_name(default_level@) is Some && directives_ok(directives@),
            r matches Ok(f) ==> filter_matches(f, default_level@, directives@),
            r matches Err(e) ==> e == LoggerError::Filter,
    {
        let default = match parse_level(default_level) {
            Some(l) => l,
            None => {
                return Err(LoggerError::Filter);
            },
        };
        let mut compiled: Vec<(String, Level)> = Vec::new();
        let n = directives.len();
        let mut i: usize = 0;
        while i < n
            invariant
                i <= n,
                n == directives@.len(),
                compiled@.len() == i,
                forall|j: int|
                    0 <= j < i ==> (#[trigger] compiled@[j]).0@ == directives@[j].0@ && Some(
                        compiled@[j].1,
                    ) == level_of_name(directives@[j].1@),
            decreases n - i,
        {
            let level = match parse_level(directives[i].1.as_str()) {
                Some(l) => l,
                None => {
                    return Err(LoggerError::Filter);
                },
            };
            compiled.push((directives[i].0.clone(), level));
            i += 1;
        }
        proof {
            assert forall|k: int|
                0 <= k < directives@.len() implies level_of_name(
                #[trigger] directives@[k].1@,
            ) is Some by {
                assert(Some(compiled@[k].1) == level_of_name(directives@[k].1@));
            }
        }
        Ok(SeverityFilter { default_level: default, directives: compiled })
    }

    /// Classifies an event: pass exactly when its level is at least the
    /// level in force for its target.
    pub fn enabled(&self, target: &str, level: Level) -> (r: bool)
        ensures
            r == event_passes(self.default_level, dirs_view(self.directives@), target@, level),
    {
        let mut eff = self.default_level;
        let n = self.directives.len();
        let mut i: usize = 0;
        proof {
            assert(dirs_view(self.directives@).take(0) =~= Seq::<(Seq<char>, Level)>::empty());
        }
        while i < n
            invariant
                i <= n,
                n == self.directives@.len(),
                eff == effective_level(
                    self.default_level,
                    dirs_view(self.directives@).take(i as int),
                    target@,
                ),
            decreases n - i,
        {
            let ghost prefix = dirs_view(self.directives@).take(i as int + 1);
            proof {
                assert(prefix.drop_last() =~= dirs_view(self.directives@).take(i as int));
                assert(prefix.last() == (self.directives@[i as int].0@, self.directives@[
                    i as int].1));
            }
            if contains_sub(target, self.directives[i].0.as_str()) {
                eff = self.directives[i].1;
            }
            i += 1;
        }
        proof {
            assert(dirs_view(self.directives@).take(n as int) =~= dirs_view(self.directives@));
        }
        level.at_least(eff)
    }
}

} // verus!
