//! The logging subsystem's core: merge, filter compilation and
//! classification, sink planning, routing and reload.

use unconfig::{
    build_plan, merge_opt, parse_level, routed_to_additional, routed_to_primary,
    split_file_path, Level, Logger, LoggerError, LoggerFilter, LoggerParams, SeverityFilter,
    UpperLoggerParams,
};

fn params(
    prefix: Option<&str>,
    add_prefix: Option<&str>,
    add_filter: Option<Vec<&str>>,
) -> LoggerParams {
    LoggerParams {
        log_file_prefix: prefix.map(|s| s.to_string()),
        add_log_file_prefix: add_prefix.map(|s| s.to_string()),
        default_level: "info".to_string(),
        filter: LoggerFilter::new(),
        add_filter: add_filter.map(|v| v.into_iter().map(|s| s.to_string()).collect()),
        span_timings: false,
    }
}

#[test]
fn merge_opt_override_wins_only_where_present() {
    let merged_a = merge_opt(Some(1), None);
    let merged_b = merge_opt(None, Some(2));
    assert_eq!(merged_a, Some(1));
    assert_eq!(merged_b, Some(2));
    assert_eq!(merge_opt(Some(1), Some(9)), Some(9));
    assert_eq!(merge_opt::<u64>(None, None), None);
}

#[test]
fn params_merge_optional_falls_back_mandatory_takes_override() {
    let base = LoggerParams {
        log_file_prefix: Some("logs/base.log".to_string()),
        add_log_file_prefix: None,
        default_level: "info".to_string(),
        filter: LoggerFilter(vec![("db".to_string(), "warn".to_string())]),
        add_filter: Some(vec!["sql".to_string()]),
        span_timings: true,
    };
    let over = LoggerParams {
        log_file_prefix: None,
        add_log_file_prefix: Some("logs/extra.log".to_string()),
        default_level: "debug".to_string(),
        filter: LoggerFilter::new(),
        add_filter: None,
        span_timings: false,
    };
    let merged = base.merge(over);
    assert_eq!(merged.log_file_prefix, Some("logs/base.log".to_string()));
    assert_eq!(merged.add_log_file_prefix, Some("logs/extra.log".to_string()));
    assert_eq!(merged.default_level, "debug");
    assert_eq!(merged.filter.0.len(), 0);
    assert_eq!(merged.add_filter, Some(vec!["sql".to_string()]));
    assert!(!merged.span_timings);
}

#[test]
fn upper_merge_gives_the_caller_precedence() {
    let runtime = UpperLoggerParams { logger: params(Some("logs/rt.log"), None, None) };
    let baseline = UpperLoggerParams { logger: params(None, None, None) };
    let merged = runtime.merge(baseline);
    assert_eq!(merged.logger.log_file_prefix, Some("logs/rt.log".to_string()));
}

#[test]
fn level_names_parse_and_order() {
    assert_eq!(parse_level("trace"), Some(Level::Trace));
    assert_eq!(parse_level("debug"), Some(Level::Debug));
    assert_eq!(parse_level("info"), Some(Level::Info));
    assert_eq!(parse_level("warn"), Some(Level::Warn));
    assert_eq!(parse_level("error"), Some(Level::Error));
    assert_eq!(parse_level("verbose"), None);
    assert_eq!(parse_level("WARN"), None);
    assert!(Level::Error.at_least(Level::Trace));
    assert!(!Level::Debug.at_least(Level::Info));
}

#[test]
fn directive_narrows_matching_target() {
    let directives = vec![("db".to_string(), "warn".to_string())];
    let filter = SeverityFilter::compile("info", &directives).unwrap();
    assert!(filter.enabled("db::pool", Level::Warn));
    assert!(!filter.enabled("db::pool", Level::Debug));
    assert!(!filter.enabled("http", Level::Debug));
    assert!(filter.enabled("http", Level::Info));
}

#[test]
fn later_directive_wins() {
    let directives = vec![
        ("db".to_string(), "error".to_string()),
        ("db::pool".to_string(), "trace".to_string()),
    ];
    let filter = SeverityFilter::compile("info", &directives).unwrap();
    assert!(filter.enabled("db::pool", Level::Trace));
    assert!(!filter.enabled("db::main", Level::Warn));
}

#[test]
fn bad_level_fails_whole_filter() {
    let directives = vec![
        ("db".to_string(), "warn".to_string()),
        ("net".to_string(), "loud".to_string()),
    ];
    assert!(matches!(SeverityFilter::compile("info", &directives), Err(LoggerError::Filter)));
    let none: Vec<(String, String)> = vec![];
    assert!(matches!(SeverityFilter::compile("verbose", &none), Err(LoggerError::Filter)));
}

#[test]
fn error_messages_name_the_failure() {
    assert_eq!(LoggerError::Filter.message(), "failed to parse filter expression");
    assert_eq!(LoggerError::File.message(), "failed to open log file");
    assert_eq!(LoggerError::Reload.message(), "reload error");
    assert_eq!(LoggerError::Convert.message(), "path convert error");
    assert_eq!(LoggerError::IO.message(), "io error");
}

#[test]
fn routing_diverts_matching_events() {
    let subs = vec!["sql".to_string()];
    assert!(routed_to_additional(&subs, "sql::query"));
    assert!(!routed_to_primary(&subs, "sql::query"));
    assert!(!routed_to_additional(&subs, "http"));
    assert!(routed_to_primary(&subs, "http"));
}

#[test]
fn split_paths() {
    let f = split_file_path("logs/app.log").unwrap();
    assert_eq!(f.dir, "logs");
    assert_eq!(f.name, "app.log");
    let bare = split_file_path("app.log").unwrap();
    assert_eq!(bare.dir, "");
    assert_eq!(bare.name, "app.log");
    let nested = split_file_path("a/b/c.log").unwrap();
    assert_eq!(nested.dir, "a/b");
    assert_eq!(nested.name, "c.log");
    assert!(matches!(split_file_path("logs/"), Err(LoggerError::File)));
    assert!(matches!(split_file_path(""), Err(LoggerError::File)));
}

#[test]
fn plan_without_prefix_is_stderr_only() {
    let plan = build_plan(&params(None, None, None)).unwrap();
    assert!(plan.primary_file.is_none());
    assert!(plan.additional.is_none());
    assert!(!plan.mirror_stderr);
}

#[test]
fn plan_with_prefix_only_has_one_file_sink() {
    let plan = build_plan(&params(Some("logs/app.log"), None, None)).unwrap();
    assert_eq!(plan.primary_file.as_ref().unwrap().name, "app.log");
    assert!(plan.additional.is_none());
    assert!(!plan.mirror_stderr);
}

#[test]
fn plan_with_additional_sink_mirrors_stderr() {
    let plan = build_plan(&params(
        Some("logs/app.log"),
        Some("logs/sql.log"),
        Some(vec!["sql"]),
    ))
    .unwrap();
    assert_eq!(plan.primary_file.as_ref().unwrap().name, "app.log");
    assert_eq!(plan.additional.as_ref().unwrap().name, "sql.log");
    assert!(plan.mirror_stderr);
    assert_eq!(plan.route_substrings, vec!["sql".to_string()]);
}

#[test]
fn empty_substring_list_disables_additional_sink() {
    let plan = build_plan(&params(
        Some("logs/app.log"),
        Some("logs/sql.log"),
        Some(vec![]),
    ))
    .unwrap();
    assert!(plan.additional.is_none());
    assert!(!plan.mirror_stderr);
}

#[test]
fn init_reports_path_error_before_filter_error() {
    let mut p = params(Some("logs/"), None, None);
    p.default_level = "loud".to_string();
    let upper = UpperLoggerParams { logger: p };
    assert!(matches!(Logger::init(&upper), Err(LoggerError::File)));
    let mut q = params(None, None, None);
    q.default_level = "loud".to_string();
    assert!(matches!(
        Logger::init(&UpperLoggerParams { logger: q }),
        Err(LoggerError::Filter)
    ));
}

#[test]
fn reload_swaps_filter_and_keeps_plan() {
    let upper = UpperLoggerParams { logger: params(Some("logs/app.log"), None, None) };
    let mut logger = Logger::init(&upper).unwrap();
    assert!(logger.enabled("any", Level::Info));
    assert!(!logger.enabled("any", Level::Debug));

    let mut newer = params(Some("logs/app.log"), None, None);
    newer.default_level = "debug".to_string();
    logger.reload(&UpperLoggerParams { logger: newer }).unwrap();
    assert!(logger.enabled("any", Level::Debug));
    assert_eq!(logger.plan.primary_file.as_ref().unwrap().name, "app.log");

    let mut bad = params(Some("logs/app.log"), None, None);
    bad.default_level = "loud".to_string();
    let r = logger.reload(&UpperLoggerParams { logger: bad });
    assert!(matches!(r, Err(LoggerError::Filter)));
    assert!(logger.enabled("any", Level::Debug));
}
