use cailoxo::config::{Config, ConfigError, Line, Span, SpanType, Transient};
use cailoxo::toml_model::TomlValue;

fn span(span_type: SpanType, template: &str) -> Span {
    Span {
        span_type,
        template: template.to_string(),
        foreground: None,
        background: None,
        dirty_background: None,
        success_foreground: None,
        error_foreground: None,
        head: None,
        tail: None,
        separator: None,
        invert_head: false,
        invert_tail: false,
        invert_separator: false,
        settings: TomlValue::Table(Vec::new()),
    }
}

fn line(span: Vec<Span>) -> Line {
    Line { newline: false, span }
}

fn config(version: u32, lines: Vec<Line>) -> Config {
    Config { version, final_space: false, transient: None, line: lines }
}

#[test]
fn rejects_edge_conflict() {
    let mut path = span(SpanType::Path, "{{ path }}");
    path.separator = Some("\u{e0b0}".to_string());
    let mut git = span(SpanType::Git, "{{ branch }}");
    git.head = Some("\u{e0b6}".to_string());
    let config = config(1, vec![line(vec![path, git])]);

    let err = config.validate().unwrap_err().message();
    assert!(err.contains("boundary can only define one edge"));
}

#[test]
fn edge_conflict_reports_positions() {
    let mut a = span(SpanType::Os, "{{ icon }}");
    a.separator = Some(">".to_string());
    let b = span(SpanType::Path, "{{ path }}");
    let mut c = span(SpanType::Path, "x");
    c.separator = Some(">".to_string());
    let mut d = span(SpanType::Git, "{{ branch }}");
    d.head = Some("<".to_string());
    let config = config(1, vec![line(vec![span(SpanType::Text, "t")]), line(vec![a, b, c, d])]);
    let err = config.validate().unwrap_err();
    assert_eq!(err, ConfigError::EdgeConflict { line: 2, span: 3, next_span: 4 });
    assert_eq!(
        err.message(),
        "line 2: span 3 has separator and span 4 has head; boundary can only define one edge"
    );
}

#[test]
fn separator_then_tail_is_allowed() {
    let mut a = span(SpanType::Path, "{{ path }}");
    a.separator = Some(">".to_string());
    let mut b = span(SpanType::Git, "{{ branch }}");
    b.tail = Some(">".to_string());
    b.separator = Some(">".to_string());
    let config = config(1, vec![line(vec![a, b])]);
    assert_eq!(config.validate(), Ok(()));
}

#[test]
fn rejects_wrong_version() {
    let config = config(2, vec![line(vec![span(SpanType::Text, "x")])]);
    let err = config.validate().unwrap_err();
    assert_eq!(err, ConfigError::Version(2));
    assert_eq!(err.message(), "unsupported config version 2; expected version 1");
}

#[test]
fn version_is_checked_before_lines() {
    let config = config(0, vec![]);
    assert_eq!(config.validate(), Err(ConfigError::Version(0)));
}

#[test]
fn rejects_config_without_lines() {
    let config = config(1, vec![]);
    let err = config.validate().unwrap_err();
    assert_eq!(err, ConfigError::NoLines);
    assert_eq!(err.message(), "config must define at least one [[line]]");
}

#[test]
fn rejects_empty_line() {
    let config = config(1, vec![line(vec![span(SpanType::Text, "x")]), line(vec![])]);
    let err = config.validate().unwrap_err();
    assert_eq!(err, ConfigError::EmptyLine(2));
    assert_eq!(err.message(), "line 2 must define at least one [[line.span]]");
}

#[test]
fn first_faulty_line_is_reported() {
    let mut a = span(SpanType::Path, "p");
    a.separator = Some(">".to_string());
    let mut b = span(SpanType::Git, "g");
    b.head = Some("<".to_string());
    let config = config(1, vec![line(vec![a, b]), line(vec![])]);
    assert_eq!(
        config.validate(),
        Err(ConfigError::EdgeConflict { line: 1, span: 1, next_span: 2 })
    );
}

#[test]
fn accepts_valid_config() {
    let mut cfg = config(1, vec![line(vec![span(SpanType::Os, "{{ icon }}")]), line(vec![span(SpanType::Text, "> ")])]);
    cfg.transient = Some(Transient {
        enabled: true,
        template: "> ".to_string(),
        success_foreground: None,
        error_foreground: None,
        background: None,
    });
    assert!(cfg.validate().is_ok());
}

#[test]
fn settings_are_read_by_type() {
    let mut s = span(SpanType::Git, "{{ branch }}");
    s.settings = TomlValue::Table(vec![
        ("icon_set".to_string(), TomlValue::Str("minimal".to_string())),
        ("url".to_string(), TomlValue::Bool(true)),
        ("fetch_remote_interval_ms".to_string(), TomlValue::Other),
        (
            "status".to_string(),
            TomlValue::Table(vec![("ahead".to_string(), TomlValue::Str("+{{ count }}".to_string()))]),
        ),
    ]);
    assert_eq!(s.setting_str("icon_set"), Some("minimal"));
    assert_eq!(s.setting_str("url"), None);
    assert_eq!(s.setting_bool("url"), Some(true));
    assert_eq!(s.setting_bool("icon_set"), None);
    assert_eq!(s.setting_bool("missing"), None);
    assert_eq!(s.setting_str("fetch_remote_interval_ms"), None);
    assert_eq!(s.status_template("ahead"), Some("+{{ count }}"));
    assert_eq!(s.status_template("behind"), None);
}
