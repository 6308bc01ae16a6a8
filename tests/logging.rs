use gkrust_logging::fault::panic_message;
use gkrust_logging::filter::{level_from_token, parse_segment, FilterConfig};
use gkrust_logging::level::{native_priority_of, Level, LevelFilter};
use gkrust_logging::logger::{contains_nul, GeckoLogger, LogRecord, LoggerSlot, SinkAction, SinkKind};
use gkrust_logging::GkRust_Shutdown;

fn record(level: Level, target: &str, message: &str) -> LogRecord {
    LogRecord { level, target: target.to_string(), message: message.to_string() }
}

fn chars(s: &str) -> Vec<char> {
    s.chars().collect()
}

#[test]
fn scenario_networking_debug_default_warn() {
    let f = FilterConfig::parse("networking=debug,warn");
    assert!(f.enabled("networking", Level::Debug));
    assert!(!f.enabled("storage", Level::Debug));
    assert!(f.enabled("storage", Level::Warn));
    assert!(!f.enabled("networking", Level::Trace));
}

#[test]
fn longest_prefix_wins() {
    let f = FilterConfig::parse("a=info,a::b=trace,error");
    assert!(f.enabled("a::b::c", Level::Trace));
    assert!(!f.enabled("a::x", Level::Debug));
    assert!(f.enabled("a::x", Level::Info));
    assert!(!f.enabled("z", Level::Warn));
    assert!(f.enabled("z", Level::Error));
}

#[test]
fn later_directive_for_same_target_wins() {
    let f = FilterConfig::parse("net=trace,net=error");
    assert!(!f.enabled("net", Level::Warn));
    assert!(f.enabled("net", Level::Error));
}

#[test]
fn target_only_directives_leave_others_off() {
    let f = FilterConfig::parse("net=debug");
    assert!(f.enabled("net::http", Level::Debug));
    assert!(!f.enabled("storage", Level::Error));
}

#[test]
fn malformed_segment_is_ignored() {
    let f = FilterConfig::parse("net=debug,x=bogus,a=b=c,warn");
    assert!(f.enabled("net", Level::Debug));
    assert!(f.enabled("x", Level::Warn));
    assert!(!f.enabled("x", Level::Info));
    assert!(!f.enabled("a", Level::Info));
    assert_eq!(f.directives.len(), 2);
}

#[test]
fn empty_filter_string_lets_errors_through() {
    let f = FilterConfig::parse("");
    assert!(f.enabled("any", Level::Error));
    assert!(!f.enabled("any", Level::Warn));
    let g = FilterConfig::parse("a=b=c");
    assert!(g.enabled("any", Level::Error));
    assert!(!g.enabled("a", Level::Warn));
}

#[test]
fn two_slashes_hold_no_directive() {
    let f = FilterConfig::parse("trace/x/y");
    assert!(!f.enabled("any", Level::Warn));
    assert!(f.enabled("any", Level::Error));
    let g = FilterConfig::parse("trace/msg");
    assert!(g.enabled("any", Level::Trace));
}

#[test]
fn default_threshold_without_filter_string() {
    let debug = FilterConfig::build(None, true);
    assert!(debug.enabled("any", Level::Warn));
    assert!(!debug.enabled("any", Level::Info));
    let release = FilterConfig::build(None, false);
    assert!(release.enabled("any", Level::Error));
    assert!(!release.enabled("any", Level::Warn));
    let given = FilterConfig::build(Some("info"), false);
    assert!(given.enabled("any", Level::Info));
}

#[test]
fn level_tokens_ignore_ascii_case() {
    assert_eq!(level_from_token(&chars("WaRn")), Some(LevelFilter::Warn));
    assert_eq!(level_from_token(&chars("TRACE")), Some(LevelFilter::Trace));
    assert_eq!(level_from_token(&chars("off")), Some(LevelFilter::Off));
    assert_eq!(level_from_token(&chars("warning")), None);
}

#[test]
fn segments_are_trimmed_and_bare_targets_trace() {
    let f = FilterConfig::parse(" net= debug , db ");
    assert!(f.enabled("net", Level::Debug));
    assert!(!f.enabled("net", Level::Trace));
    assert!(f.enabled("db", Level::Trace));
    let d = parse_segment(&chars("gfx=")).unwrap();
    assert_eq!(d.name, Some(chars("gfx")));
    assert_eq!(d.level, LevelFilter::Trace);
    assert!(parse_segment(&chars("  ")).is_none());
}

#[test]
fn max_level_is_most_verbose_threshold() {
    assert_eq!(FilterConfig::parse("a=trace,warn").max_level(), LevelFilter::Trace);
    assert_eq!(FilterConfig::parse("info").max_level(), LevelFilter::Info);
    assert_eq!(FilterConfig::parse("off").max_level(), LevelFilter::Off);
}

#[test]
fn native_priorities() {
    assert_eq!(native_priority_of(Level::Error), 6);
    assert_eq!(native_priority_of(Level::Warn), 5);
    assert_eq!(native_priority_of(Level::Info), 4);
    assert_eq!(native_priority_of(Level::Debug), 3);
    assert_eq!(native_priority_of(Level::Trace), 2);
}

#[test]
fn render_error_is_forwarded_once() {
    let l = GeckoLogger::new(Some("trace"), false, SinkKind::Stream, true);
    let acts = l.log(&record(Level::Error, "webrender::renderer", "lost device"));
    assert_eq!(acts.len(), 2);
    assert!(matches!(&acts[0], SinkAction::CriticalNote { text } if text == "lost device"));
    assert!(matches!(&acts[1], SinkAction::Stream { level: Level::Error, target, message }
        if target == "webrender::renderer" && message == "lost device"));
    let warn = l.log(&record(Level::Warn, "webrender::renderer", "slow"));
    assert_eq!(warn.len(), 1);
    assert!(matches!(&warn[0], SinkAction::Stream { .. }));
}

#[test]
fn no_forward_without_capability_or_marker() {
    let off = GeckoLogger::new(Some("trace"), false, SinkKind::Stream, false);
    assert_eq!(off.log(&record(Level::Error, "webrender", "m")).len(), 1);
    let on = GeckoLogger::new(Some("trace"), false, SinkKind::Stream, true);
    assert_eq!(on.log(&record(Level::Error, "gfx", "m")).len(), 1);
    assert!(GeckoLogger::should_log_to_gfx_critical_note(&record(Level::Error, "xwebrenderx", "")));
    assert!(!GeckoLogger::should_log_to_gfx_critical_note(&record(Level::Error, "webrende", "")));
}

#[test]
fn native_sink_maps_priority_and_drops_nul() {
    let l = GeckoLogger::new(None, true, SinkKind::Native, false);
    let acts = l.log(&record(Level::Debug, "dom", "hello"));
    assert_eq!(acts.len(), 1);
    assert!(matches!(&acts[0], SinkAction::Native { priority: 3, tag, text }
        if tag == "dom" && text == "hello"));
    assert!(l.log(&record(Level::Error, "dom", "a\0b")).is_empty());
    assert!(l.log(&record(Level::Error, "d\0m", "ab")).is_empty());
    assert!(contains_nul("x\0"));
    assert!(!contains_nul("x0"));
}

#[test]
fn flush_has_no_effect() {
    let l = GeckoLogger::new(Some("trace"), false, SinkKind::Stream, true);
    let rec = record(Level::Info, "net", "m");
    let before = l.log(&rec).len();
    assert!(l.flush().is_empty());
    assert_eq!(l.log(&rec).len(), before);
}

#[test]
fn second_install_keeps_first_logger() {
    let mut slot = LoggerSlot::new();
    assert!(!slot.is_installed());
    assert!(slot.dispatch(&record(Level::Error, "a", "m")).is_empty());
    assert!(slot.install(GeckoLogger::new(Some("error"), false, SinkKind::Stream, false)).is_ok());
    assert!(slot.install(GeckoLogger::new(Some("trace"), false, SinkKind::Stream, false)).is_err());
    assert!(slot.is_installed());
    assert_eq!(slot.dispatch(&record(Level::Error, "a", "m")).len(), 1);
    assert!(slot.dispatch(&record(Level::Info, "a", "m")).is_empty());
}

#[test]
fn panic_message_decodes_lossily() {
    assert_eq!(panic_message(b"boom"), "boom");
    assert_eq!(panic_message(b"bo\xffom"), "bo\u{FFFD}om");
    GkRust_Shutdown();
}

#[test]
fn slot_enabled_follows_installed_table() {
    let mut slot = LoggerSlot::new();
    assert!(!slot.enabled("net", Level::Error));
    assert!(slot.install(GeckoLogger::new(Some("net=debug"), false, SinkKind::Stream, false)).is_ok());
    assert!(slot.enabled("net::dns", Level::Debug));
    assert!(!slot.enabled("net::dns", Level::Trace));
    assert!(!slot.enabled("db", Level::Error));
}
