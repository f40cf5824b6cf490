use cailoxo::config::{Span, SpanType};
use cailoxo::error::GenerateError;
use cailoxo::icons::{
    git_branch_icon, icon, icon_pairs, nu_os_icon_conditions, nu_status_templates, nu_upstream_icons,
    status_separator, status_template, zsh_os_icon_cases, zsh_os_unknown_icon,
    zsh_status_template_cases, zsh_upstream_icon_cases,
};
use cailoxo::toml_model::{parse_toml, TomlValue};

const ICONS: &str = r#"
[git_branch.nerdfont]
git = "B"

[git_status.minimal]
ahead = "^"
behind = "v"
conflicted = "!"
deleted = "x"
modified = "~"
renamed = ">"
staged = "+"
stashed = "*"
untracked = "?"

[git_status.nerdfont]
ahead = "A"

[git_upstream.nerdfont]
bitbucket = 1
github = "G"
gitlab = "L"

[os.nerdfont]
apple = "A"
linux = "L"
ubuntu = "U"
unknown = "?"
"#;

fn git_span(settings: Vec<(&str, TomlValue)>) -> Span {
    Span {
        span_type: SpanType::Git,
        template: "{{ branch }}".to_string(),
        foreground: None,
        background: None,
        dirty_background: None,
        success_foreground: None,
        error_foreground: None,
        head: None,
        tail: None,
        separator: None,
        invert_head: false,
        invert_tail: false,
        invert_separator: false,
        settings: TomlValue::Table(settings.into_iter().map(|(k, v)| (k.to_string(), v)).collect()),
    }
}

fn s(v: &str) -> TomlValue {
    TomlValue::Str(v.to_string())
}

#[test]
fn parses_toml_into_model() {
    let doc = parse_toml("a = \"x\"\nb = true\nc = 3\n[t]\nk = \"v\"\n").unwrap();
    match doc {
        TomlValue::Table(entries) => {
            assert_eq!(entries.len(), 4);
            assert_eq!(entries[0].0, "a");
            assert!(matches!(&entries[0].1, TomlValue::Str(x) if x == "x"));
            assert!(matches!(entries[1].1, TomlValue::Bool(true)));
            assert!(matches!(entries[2].1, TomlValue::Other));
            assert!(matches!(&entries[3].1, TomlValue::Table(t) if t.len() == 1));
        }
        _ => panic!("document is not a table"),
    }
    assert!(parse_toml("a = ").is_none());
}

#[test]
fn os_icon_cases_for_zsh() {
    assert_eq!(
        zsh_os_icon_cases(ICONS).unwrap(),
        "      apple) print -r -- 'A' ;;\n      linux) print -r -- 'L' ;;\n      ubuntu) print -r -- 'U' ;;\n      unknown) print -r -- '?' ;;\n"
    );
    assert_eq!(zsh_os_unknown_icon(ICONS).unwrap(), "'?'");
    assert_eq!(zsh_os_unknown_icon("[os]\n").unwrap(), "''");
}

#[test]
fn os_icon_conditions_for_nu_try_longest_names_first() {
    assert_eq!(
        nu_os_icon_conditions(ICONS).unwrap(),
        "if ($os | str contains \"ubuntu\") { \"U\" } else if ($os | str contains \"apple\") { \"A\" } else if ($os | str contains \"linux\") { \"L\" } else { \"?\" }"
    );
    assert_eq!(nu_os_icon_conditions("[os.nerdfont]\n").unwrap(), " else { \"\" }");
}

#[test]
fn upstream_icons() {
    assert_eq!(
        zsh_upstream_icon_cases(ICONS).unwrap(),
        "      github) upstream_icon='G' ;;\n      gitlab) upstream_icon='L' ;;\n"
    );
    // The first entry is not a string, so the first written entry is still
    // preceded by a separator, as positions count every entry.
    assert_eq!(nu_upstream_icons(ICONS).unwrap(), "{, github: \"G\", gitlab: \"L\"}");
}

#[test]
fn icon_pairs_of_a_table() {
    assert_eq!(
        icon_pairs("git_upstream", "nerdfont", ICONS).unwrap(),
        vec![("github".to_string(), "G".to_string()), ("gitlab".to_string(), "L".to_string())]
    );
    assert!(matches!(icon_pairs("nope", "nerdfont", ICONS), Err(GenerateError::MissingIconTable)));
}

#[test]
fn missing_tables_and_bad_documents() {
    assert!(matches!(zsh_os_icon_cases("[git]\n"), Err(GenerateError::MissingOsIcons)));
    assert!(matches!(nu_os_icon_conditions("[os]\nnerdfont = 1\n"), Err(GenerateError::MissingOsIcons)));
    assert!(matches!(zsh_upstream_icon_cases("x = 1"), Err(GenerateError::MissingUpstreamIcons)));
    assert!(matches!(nu_upstream_icons(""), Err(GenerateError::MissingUpstreamIcons)));
    assert!(matches!(zsh_os_icon_cases("[[["), Err(GenerateError::IconsParse)));
    assert!(matches!(icon_pairs("os", "nerdfont", "= 1"), Err(GenerateError::IconsParse)));
}

#[test]
fn branch_icon_and_separator() {
    let plain = git_span(vec![]);
    assert_eq!(git_branch_icon(&plain, ICONS).unwrap(), "B");
    assert_eq!(git_branch_icon(&plain, "").unwrap(), "");
    assert!(matches!(git_branch_icon(&plain, "[[["), Err(GenerateError::IconsParse)));
    let custom = git_span(vec![("branch_icon", s("b")), ("separator", s(" /"))]);
    assert_eq!(git_branch_icon(&custom, "[[[").unwrap(), "b");
    assert_eq!(status_separator(&plain), " |");
    assert_eq!(status_separator(&custom), " /");
}

#[test]
fn status_templates_use_icon_sets() {
    let plain = git_span(vec![]);
    assert_eq!(status_template(&plain, "ahead", ICONS).unwrap(), "^{{ count }}");
    let nerd = git_span(vec![("icon_set", s("nerdfont"))]);
    assert_eq!(status_template(&nerd, "ahead", ICONS).unwrap(), "A{{ count }}");
    assert_eq!(status_template(&nerd, "behind", ICONS).unwrap(), "v{{ count }}");
    assert_eq!(status_template(&plain, "unknown", ICONS).unwrap(), "{{ count }}");
    let templated = git_span(vec![(
        "status",
        TomlValue::Table(vec![("ahead".to_string(), s("[{{ status_icon }}|{{status_icon}}]{{ count }}"))]),
    )]);
    assert_eq!(status_template(&templated, "ahead", ICONS).unwrap(), "[^|^]{{ count }}");
    assert!(matches!(status_template(&templated, "ahead", "[[["), Err(GenerateError::IconsParse)));
}

#[test]
fn status_template_lists_for_shells() {
    let plain = git_span(vec![]);
    let zsh = zsh_status_template_cases(&plain, ICONS).unwrap();
    assert!(zsh.starts_with("    ahead) template='^{{ count }}' ; count=${ahead} ;;\n    behind) template='v{{ count }}' ; count=${behind} ;;\n"));
    assert!(zsh.ends_with("    stashed) template='*{{ count }}' ; count=${stashed} ;;\n"));
    assert_eq!(zsh.lines().count(), 9);
    let nu = nu_status_templates(&plain, ICONS).unwrap();
    assert!(nu.starts_with("{ahead: \"^{{ count }}\", behind: \"v{{ count }}\", "));
    assert!(nu.ends_with(", stashed: \"*{{ count }}\"}"));
    assert!(matches!(nu_status_templates(&plain, "[[["), Err(GenerateError::IconsParse)));
}

#[test]
fn icon_pairs_have_distinct_names_and_match_icon() {
    let doc = parse_toml(ICONS).unwrap();
    for (group, set) in [("os", "nerdfont"), ("git_status", "minimal"), ("git_upstream", "nerdfont")] {
        let pairs = icon_pairs(group, set, ICONS).unwrap();
        for (i, (k, v)) in pairs.iter().enumerate() {
            assert_eq!(icon(&doc, group, set, k), Some(v.as_str()));
            for (k2, _) in &pairs[i + 1..] {
                assert_ne!(k, k2);
            }
        }
    }
    assert_eq!(icon_pairs("os", "nerdfont", ICONS).unwrap().len(), 4);
    assert_eq!(icon(&doc, "git_upstream", "nerdfont", "bitbucket"), None);
}

#[test]
fn table_model_keeps_strings_booleans_and_tables() {
    let table: toml::Table = "a = \"x\"\nb = true\nc = 3\n[d]\ne = \"y\"\n".parse().unwrap();
    match cailoxo::toml_model::table_model(&table) {
        TomlValue::Table(entries) => {
            let names: Vec<&str> = entries.iter().map(|(k, _)| k.as_str()).collect();
            assert_eq!(names, vec!["a", "b", "c", "d"]);
            assert!(matches!(&entries[0].1, TomlValue::Str(s) if s == "x"));
            assert!(matches!(&entries[1].1, TomlValue::Bool(true)));
            assert!(matches!(&entries[2].1, TomlValue::Other));
            assert!(matches!(&entries[3].1, TomlValue::Table(t) if t.len() == 1));
        }
        _ => panic!("not a table"),
    }
}

#[test]
fn parsed_tables_list_keys_in_ascending_order() {
    match parse_toml("zeta = \"z\"\nalpha = \"a\"\n[mid]\ny = 1\nb = 2\n").unwrap() {
        TomlValue::Table(entries) => {
            let names: Vec<&str> = entries.iter().map(|(k, _)| k.as_str()).collect();
            assert_eq!(names, vec!["alpha", "mid", "zeta"]);
            match &entries[1].1 {
                TomlValue::Table(inner) => {
                    let inner_names: Vec<&str> = inner.iter().map(|(k, _)| k.as_str()).collect();
                    assert_eq!(inner_names, vec!["b", "y"]);
                }
                _ => panic!("not a table"),
            }
        }
        _ => panic!("not a table"),
    }
}

#[test]
fn icon_pairs_come_in_ascending_name_order() {
    let doc = "[os.nerdfont]\nzorin = \"Z\"\narch = \"A\"\nmint = \"M\"\n";
    assert_eq!(
        icon_pairs("os", "nerdfont", doc).unwrap(),
        vec![
            ("arch".to_string(), "A".to_string()),
            ("mint".to_string(), "M".to_string()),
            ("zorin".to_string(), "Z".to_string()),
        ]
    );
    assert_eq!(
        zsh_os_icon_cases(doc).unwrap(),
        "      arch) print -r -- 'A' ;;\n      mint) print -r -- 'M' ;;\n      zorin) print -r -- 'Z' ;;\n"
    );
    assert_eq!(
        nu_os_icon_conditions(doc).unwrap(),
        "if ($os | str contains \"zorin\") { \"Z\" } else if ($os | str contains \"arch\") { \"A\" } else if ($os | str contains \"mint\") { \"M\" } else { \"\" }"
    );
}
