//! The sink router: which destinations exist for a given set of logging
//! parameters, and which side of the pipeline a log event reaches.
//!
//! With no file prefix configured the only sink is the standard-error
//! stream.  With one, the primary sink is a daily-rotating file; when an
//! additional file prefix and a non-empty list of target substrings are also
//! configured, a second rotating file receives exactly the events whose
//! target contains one of the substrings, the primary sinks receive exactly
//! the others, and a mirrored standard-error sink joins the primary side.

use vstd::prelude::*;

use crate::errors::LoggerError;
use crate::params::LoggerParams;
use crate::text::{contains_seq, contains_sub, strs_view};

verus! {

/// The position of the last `/` in `s`, or `-1`.
pub open spec fn find_last_slash(s: Seq<char>) -> int
    decreases s.len(),
{
    if s.len() == 0 {
        -1
    } else if s.last() == '/' {
        s.len() - 1
    } else {
        find_last_slash(s.drop_last())
    }
}

/// The directory part and file-name part of a path: the text before and
/// after its last `/`; a path with no `/` is all file name.
pub open spec fn split_path(s: Seq<char>) -> (Seq<char>, Seq<char>) {
    let i = find_last_slash(s);
    if i == -1 {
        (Seq::empty(), s)
    } else {
        (s.take(i), s.skip(i + 1))
    }
}

/// Whether a configured path can serve as a file sink: its file-name part
/// is not empty.
pub open spec fn path_splittable(s: Seq<char>) -> bool {
    split_path(s).1.len() > 0
}

proof fn lemma_find_last_slash(s: Seq<char>)
    ensures
        find_last_slash(s) == -1 ==> forall|i: int| 0 <= i < s.len() ==> s[i] != '/',
        find_last_slash(s) != -1 ==> {
            let r = find_last_slash(s);
            &&& 0 <= r < s.len()
            &&& s[r] == '/'
            &&& forall|i: int| r < i < s.len() ==> s[i] != '/'
        },
    decreases s.len(),
{
    if s.len() == 0 {
    } else if s.last() == '/' {
    } else {
        lemma_find_last_slash(s.drop_last());
        let r = find_last_slash(s.drop_last());
        if r == -1 {
            assert forall|i: int| 0 <= i < s.len() implies s[i] != '/' by {
                if i < s.len() - 1 {
                    assert(s.drop_last()[i] != '/');
                }
            }
        } else {
            assert(s.drop_last()[r] == '/');
            assert forall|i: int| r < i < s.len() implies s[i] != '/' by {
                if i < s.len() - 1 {
                    assert(s.drop_last()[i] != '/');
                }
            }
        }
    }
}

/// A daily-rotating file destination: a directory and a file-name prefix.
pub struct FileSink {
    pub dir: String,
    pub name: String,
}

/// Splits a configured path into a file sink; fails with the sink-path
/// error exactly when the file-name part is empty.
#[verifier::loop_isolation(false)]
pub fn split_file_path(s: &str) -> (r: Result<FileSink, LoggerError>)
    ensures
        r is Ok <==> path_splittable(s@),
        r matches Ok(f) ==> f.dir@ == split_path(s@).0 && f.name@ == split_path(s@).1,
        r matches Err(e) ==> e == LoggerError::File,
{
    let n = s.unicode_len();
    let mut i: usize = n;
    proof {
        lemma_find_last_slash(s@);
    }
    while i > 0
        invariant
            i <= n,
            n == s@.len(),
            forall|j: int| i <= j < n ==> s@[j] != '/',
        decreases i,
    {
        if s.get_char(i - 1) == '/' {
            proof {
                let f = find_last_slash(s@);
                assert(f == i - 1) by {
                    if f < i - 1 {
                        assert(s@[i - 1] != '/');
                    }
                    if f > i - 1 {
                        assert(s@[f] != '/');
                    }
                }
            }
            if i == n {
                return Err(LoggerError::File);
            }
            let dir = String::from_str(s.substring_char(0, i - 1));
            let name = String::from_str(s.substring_char(i, n));
            proof {
                assert(dir@ =~= split_path(s@).0);
                assert(name@ =~= split_path(s@).1);
            }
            return Ok(FileSink { dir, name });
        }
        i -= 1;
    }
    proof {
        if find_last_slash(s@) != -1 {
            let f = find_last_slash(s@);
            assert(s@[f] != '/');
        }
    }
    if n == 0 {
        return Err(LoggerError::File);
    }
    let name = String::from_str(s);
    proof {
        assert(name@ =~= split_path(s@).1);
        assert(split_path(s@).0 =~= Seq::<char>::empty());
    }
    Ok(FileSink { dir: String::new(), name })
}

/// Whether `target` contains at least one of `subs`: such an event belongs
/// to the additional sink.
pub open spec fn additional_gets(subs: Seq<Seq<char>>, target: Seq<char>) -> bool {
    exists|i: int| 0 <= i < subs.len() && contains_seq(target, subs[i])
}

/// Whether `target` contains none of `subs`: such an event belongs to the
/// primary sinks.
pub open spec fn primary_gets(subs: Seq<Seq<char>>, target: Seq<char>) -> bool {
    forall|i: int| 0 <= i < subs.len() ==> !contains_seq(target, #[trigger] subs[i])
}

/// Every event goes to exactly one side: the additional sink takes it if
/// and only if the primary sinks do not.
pub proof fn lemma_routing_partition(subs: Seq<Seq<char>>, target: Seq<char>)
    ensures
        additional_gets(subs, target) <==> !primary_gets(subs, target),
{
}

/// Whether an event with `target` is routed to the additional sink.
pub fn routed_to_additional(subs: &Vec<String>, target: &str) -> (r: bool)
    ensures
        r == additional_gets(strs_view(subs@), target@),
{
    let n = subs.len();
    let mut i: usize = 0;
    while i < n
        invariant
            i <= n,
            n == subs@.len(),
            forall|j: int| 0 <= j < i ==> !contains_seq(target@, strs_view(subs@)[j]),
        decreases n - i,
    {
        if contains_sub(target, subs[i].as_str()) {
            proof {
                assert(strs_view(subs@)[i as int] == subs@[i as int]@);
            }
            return true;
        }
        i += 1;
    }
    false
}

/// Whether an event with `target` is routed to the primary sinks.
pub fn routed_to_primary(subs: &Vec<String>, target: &str) -> (r: bool)
    ensures
        r == primary_gets(strs_view(subs@), target@),
{
    let hit = routed_to_additional(subs, target);
    proof {
        lemma_routing_partition(strs_view(subs@), target@);
    }
    !hit
}

/// The wiring a set of logging parameters asks for.
pub struct SinkPlan {
    /// The primary file sink; absent when the primary sink is the
    /// standard-error stream.
    pub primary_file: Option<FileSink>,
    /// Whether a mirrored standard-error sink joins the primary side; set
    /// exactly when both a primary file and the additional sink exist.
    pub mirror_stderr: bool,
    /// The additional file sink, which steals matching events.
    pub additional: Option<FileSink>,
    /// The target substrings routed to the additional sink; empty when
    /// there is none.
    pub route_substrings: Vec<String>,
    /// Whether span open/close timings are recorded.
    pub span_timings: bool,
}

/// The configured path of the primary file sink, where one is configured.
pub open spec fn primary_prefix(p: LoggerParams) -> Seq<char> {
    match p.log_file_prefix {
        Some(s) => s@,
        None => Seq::empty(),
    }
}

/// The configured path of the additional file sink, where one is
/// configured.
pub open spec fn additional_prefix(p: LoggerParams) -> Seq<char> {
    match p.add_log_file_prefix {
        Some(s) => s@,
        None => Seq::empty(),
    }
}

/// The configured routing substrings, where any are configured.
pub open spec fn configured_substrings(p: LoggerParams) -> Seq<String> {
    match p.add_filter {
        Some(v) => v@,
        None => Seq::empty(),
    }
}

/// Whether the parameters ask for the additional sink: a primary file, an
/// additional file and a non-empty substring list are all configured.
pub open spec fn additional_active(p: LoggerParams) -> bool {
    &&& p.log_file_prefix is Some
    &&& p.add_log_file_prefix is Some
    &&& p.add_filter is Some
    &&& configured_substrings(p).len() > 0
}

/// Whether `plan` is the wiring that `p` asks for.
pub open spec fn plan_matches(p: LoggerParams, plan: SinkPlan) -> bool {
    &&& plan.span_timings == p.span_timings
    &&& match p.log_file_prefix {
        None => {
            &&& plan.primary_file is None
            &&& plan.additional is None
            &&& !plan.mirror_stderr
            &&& plan.route_substrings@.len() == 0
        },
        Some(pf) => {
            &&& plan.primary_file matches Some(f) && f.dir@ == split_path(pf@).0 && f.name@
                == split_path(pf@).1
            &&& if additional_active(p) {
                &&& plan.additional matches Some(af) && af.dir@ == split_path(
                    additional_prefix(p),
                ).0 && af.name@ == split_path(additional_prefix(p)).1
                &&& plan.mirror_stderr
                &&& strs_view(plan.route_substrings@) == strs_view(configured_substrings(p))
            } else {
                &&& plan.additional is None
                &&& !plan.mirror_stderr
                &&& plan.route_substrings@.len() == 0
            }
        },
    }
}

fn clone_strings(v: &Vec<String>) -> (r: Vec<String>)
    ensures
        r@.len() == v@.len(),
        forall|i: int| 0 <= i < v@.len() ==> #[trigger] r@[i]@ == v@[i]@,
{
    let mut out: Vec<String> = Vec::new();
    let n = v.len();
    let mut i: usize = 0;
    while i < n
        invariant
            i <= n,
            n == v@.len(),
            out@.len() == i,
            forall|j: int| 0 <= j < i ==> #[trigger] out@[j]@ == v@[j]@,
        decreases n - i,
    {
        out.push(v[i].clone());
        i += 1;
    }
    out
}

/// Builds the sink plan for `p`.  Fails with the sink-path error exactly
/// when a configured path's file-name part is empty: the primary path's
/// always, the additional path's when the additional sink is asked for.
pub fn build_plan(p: &LoggerParams) -> (r: Result<SinkPlan, LoggerError>)
    ensures
        r is Ok <==> (p.log_file_prefix is Some ==> path_splittable(primary_prefix(*p)))
            && (additional_active(*p) ==> path_splittable(additional_prefix(*p))),
        r matches Ok(plan) ==> plan_matches(*p, plan),
        r matches Err(e) ==> e == LoggerError::File,
{
    match &p.log_file_prefix {
        None => Ok(
            SinkPlan {
                primary_file: None,
                mirror_stderr: false,
                additional: None,
                route_substrings: Vec::new(),
                span_timings: p.span_timings,
            },
        ),
        Some(pf) => {
            let primary = match split_file_path(pf.as_str()) {
                Ok(f) => f,
                Err(e) => {
                    return Err(e);
                },
            };
            let mut active = false;
            if p.add_log_file_prefix.is_some() {
                match &p.add_filter {
                    Some(subs) => {
                        if subs.len() > 0 {
                            active = true;
                        }
                    },
                    None => {},
                }
            }
            if active {
                let ap = match &p.add_log_file_prefix {
                    Some(ap) => ap,
                    None => {
                        proof {
                            assert(false);
                        }
                        pf
                    },
                };
                let additional = match split_file_path(ap.as_str()) {
                    Ok(f) => f,
                    Err(e) => {
                        return Err(e);
                    },
                };
                let subs = match &p.add_filter {
                    Some(subs) => clone_strings(subs),
                    None => {
                        proof {
                            assert(false);
                        }
                        Vec::new()
                    },
                };
                proof {
                    assert(strs_view(subs@) =~= strs_view(configured_substrings(*p)));
                }
                Ok(
                    SinkPlan {
                        primary_file: Some(primary),
                        mirror_stderr: true,
                        additional: Some(additional),
                        route_substrings: subs,
                        span_timings: p.span_timings,
                    },
                )
            } else {
                Ok(
                    SinkPlan {
                        primary_file: Some(primary),
                        mirror_stderr: false,
                        additional: None,
                        route_substrings: Vec::new(),
                        span_timings: p.span_timings,
                    },
                )
            }
        },
    }
}

} // verus!
