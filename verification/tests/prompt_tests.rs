use cailoxo::config::{Config, Line, Span, SpanType, Transient};
use cailoxo::error::GenerateError;
use cailoxo::features::{features, has_var, statuses, style_tags, template_texts};
use cailoxo::generator::{Generator, Shell};
use cailoxo::layout::{find_span, layout};
use cailoxo::toml_model::TomlValue;

fn span(span_type: SpanType, template: &str) -> Span {
    Span {
        span_type,
        template: template.to_string(),
        foreground: None,
        background: None,
        dirty_background: None,
        success_foreground: None,
        error_foreground: None,
        head: None,
        tail: None,
        separator: None,
        invert_head: false,
        invert_tail: false,
        invert_separator: false,
        settings: TomlValue::Table(Vec::new()),
    }
}

fn line(span: Vec<Span>) -> Line {
    Line { newline: true, span }
}

fn s(v: &str) -> TomlValue {
    TomlValue::Str(v.to_string())
}

fn b(v: bool) -> TomlValue {
    TomlValue::Bool(v)
}

fn table(entries: Vec<(&str, TomlValue)>) -> TomlValue {
    TomlValue::Table(entries.into_iter().map(|(k, v)| (k.to_string(), v)).collect())
}

/// The default prompt shape described in docs/configuration.md.
fn default_config() -> Config {
    let mut os = span(SpanType::Os, " {{ icon }} ");
    os.separator = Some("\u{e0b0}".to_string());
    let mut path = span(SpanType::Path, " {{ if home }}\u{f015} {{ else }}\u{f07c} {{ end }}{{ path }} ");
    path.separator = Some("\u{e0b0}".to_string());
    path.settings = table(vec![
        ("home_icon", s("~")),
        ("folder_icon", s("\u{2026}")),
        ("mode", s("adaptive")),
        ("min_dirs", TomlValue::Other),
        ("edge_format", s("<b>%s</b>")),
        ("gitdir_format", s("<b><i>%s</i></b>")),
        ("url", b(true)),
        ("osc7", b(true)),
    ]);
    let mut git = span(
        SpanType::Git,
        " {{ upstream_icon }}{{ branch_icon }}{{ branch }}{{ if status }} {{ status }}{{ end }} ",
    );
    git.separator = Some("\u{e0b0}".to_string());
    git.settings = table(vec![
        ("fetch_status", b(true)),
        ("fetch_remote", b(false)),
        ("fetch_upstream_icon", b(false)),
        ("icon_set", s("minimal")),
        ("separator", s(" |")),
        ("url", b(true)),
    ]);
    let prompt = span(SpanType::Text, "\u{276f} ");
    Config {
        version: 1,
        final_space: true,
        transient: Some(Transient {
            enabled: true,
            template: "\u{276f} ".to_string(),
            success_foreground: None,
            error_foreground: None,
            background: None,
        }),
        line: vec![line(vec![os, path, git]), line(vec![prompt])],
    }
}

#[test]
fn detects_only_used_style_tags() {
    let config = default_config();
    let layout = layout(&config).unwrap();
    let features = features(&config, &layout);
    let tags: Vec<_> = features.tags.iter().map(|tag| tag.open).collect();
    assert_eq!(tags, vec!["<b>", "<i>"]);
}

#[test]
fn features_of_default_prompt() {
    let config = default_config();
    let layout = layout(&config).unwrap();
    let f = features(&config, &layout);
    assert!(f.if_status && f.if_home);
    assert!(f.var_icon && f.var_path && f.var_status && f.var_branch);
    assert!(f.var_branch_icon && f.var_upstream_icon);
    assert!(!f.var_home_icon && !f.var_folder_icon && !f.var_upstream && !f.var_upstream_url);
    assert!(f.git_status);
    assert!(!f.git_upstream_icon);
    assert!(f.git_url && f.git_upstream_info);
    assert!(!f.git_fetch);
    assert!(f.path_url && f.osc7 && f.gitdir_format);
}

#[test]
fn features_without_git_span() {
    let mut config = default_config();
    config.line[0].span.truncate(2);
    let layout = layout(&config).unwrap();
    assert!(layout.git.is_none());
    let f = features(&config, &layout);
    assert!(!f.git_status && !f.git_url && !f.git_fetch && !f.git_upstream_info && !f.git_upstream_icon);
    assert!(!f.var_status && !f.if_status);
}

#[test]
fn git_fetch_needs_status_and_setting() {
    let mut config = default_config();
    config.line[0].span[2].settings = table(vec![("fetch_remote", b(true)), ("fetch_upstream_icon", b(true))]);
    let layout = layout(&config).unwrap();
    let f = features(&config, &layout);
    assert!(f.git_fetch && f.git_upstream_icon);
}

#[test]
fn empty_transient_template_falls_back_to_prompt() {
    let mut config = default_config();
    config.transient.as_mut().unwrap().template = String::new();
    let layout = layout(&config).unwrap();
    let texts = template_texts(&config, &layout, "T");
    assert_eq!(texts.len(), 7);
    assert_eq!(texts[3], "T");
    assert_eq!(texts[5], "<b>%s</b>");
    assert_eq!(texts[6], "<b><i>%s</i></b>");
    let f = features(&config, &layout);
    assert_eq!(f.tags.len(), 2);
}

#[test]
fn template_texts_include_status_templates() {
    let mut config = default_config();
    config.line[0].span[2].settings = table(vec![(
        "status",
        table(vec![("behind", s("<u>B</u>")), ("ahead", s("A")), ("stashed", b(true))]),
    )]);
    let layout = layout(&config).unwrap();
    let texts = template_texts(&config, &layout, "tr");
    assert_eq!(texts[4], config.line[0].span[2].template.as_str());
    assert_eq!(texts[5], "A");
    assert_eq!(texts[6], "<u>B</u>");
    assert_eq!(texts.len(), 9);
    let f = features(&config, &layout);
    let tags: Vec<_> = f.tags.iter().map(|tag| tag.open).collect();
    assert_eq!(tags, vec!["<b>", "<u>", "<i>"]);
}

#[test]
fn has_var_accepts_both_spellings() {
    assert!(has_var("x {{ path }} y", "path"));
    assert!(has_var("{{path}}", "path"));
    assert!(!has_var("{{ path}}", "path"));
    assert!(!has_var("{{ home_icon }}", "icon"));
}

#[test]
fn layout_errors() {
    let mut config = default_config();
    config.line.clear();
    assert!(matches!(layout(&config), Err(GenerateError::MissingFirstLine)));

    let mut config = default_config();
    config.line.truncate(1);
    assert!(matches!(layout(&config), Err(GenerateError::MissingPromptSpan)));

    let mut config = default_config();
    config.line[1].span[0].span_type = SpanType::Path;
    assert!(matches!(layout(&config), Err(GenerateError::PromptSpanNotText)));

    let mut config = default_config();
    config.line[0].span.remove(0);
    assert!(matches!(layout(&config), Err(GenerateError::MissingOsSpan)));

    let mut config = default_config();
    config.line[0].span.remove(1);
    assert!(matches!(layout(&config), Err(GenerateError::MissingPathSpan)));
}

#[test]
fn layout_takes_first_span_of_each_type() {
    let mut config = default_config();
    config.line[0].span.push(span(SpanType::Os, "second os"));
    let l = layout(&config).unwrap();
    assert_eq!(l.os.template, " {{ icon }} ");
    assert_eq!(l.prompt_span.template, "\u{276f} ");
    assert!(find_span(&config.line[0].span, SpanType::Text).is_none());
    assert_eq!(find_span(&config.line[0].span, SpanType::Os).unwrap().template, " {{ icon }} ");
}

#[test]
fn constant_tables() {
    assert_eq!(statuses(), vec!["ahead", "behind", "conflicted", "untracked", "modified", "staged", "renamed", "deleted", "stashed"]);
    let tags = style_tags();
    assert_eq!(tags.len(), 8);
    assert_eq!(tags[0].open, "<b>");
    assert_eq!(tags[0].on, "\\e[1m");
    assert_eq!(tags[3].zsh_name, "italic");
    assert_eq!(tags[7].off, "\\e[27m");
}

#[test]
fn default_outputs() {
    assert_eq!(Shell::Zsh.default_output(), "output/prompt.zsh");
    assert_eq!(Shell::Nu.default_output(), "output/prompt.nu");
    assert_eq!(Shell::Pwsh.default_output(), "output/prompt.ps1");
    let config = default_config();
    let _generator = Generator::new(&config);
}
