use cailoxo::quote::{nu_string, shell_single_quote, zsh_prompt_ansi, zsh_prompt_single_quote};

#[test]
fn shell_quote_plain_text() {
    assert_eq!(shell_single_quote("abc def"), "'abc def'");
    assert_eq!(shell_single_quote(""), "''");
}

#[test]
fn shell_quote_escapes_single_quotes() {
    assert_eq!(shell_single_quote("it's"), "'it'\\''s'");
    assert_eq!(shell_single_quote("'"), "''\\'''");
}

#[test]
fn zsh_prompt_quote_doubles_percent() {
    assert_eq!(zsh_prompt_single_quote("100%"), "'100%%'");
    assert_eq!(zsh_prompt_single_quote("%n's"), "'%%n'\\''s'");
}

#[test]
fn zsh_prompt_ansi_writes_escape() {
    assert_eq!(zsh_prompt_ansi("\u{1b}[1mX\u{1b}[0m"), "\\e[1mX\\e[0m");
    assert_eq!(zsh_prompt_ansi("plain"), "plain");
}

#[test]
fn nu_string_escapes() {
    assert_eq!(nu_string("a\"b\\c"), "\"a\\\"b\\\\c\"");
    assert_eq!(nu_string("\n\r\t"), "\"\\n\\r\\t\"");
    assert_eq!(nu_string("\u{1b}[0m"), "\"\\u{1b}[0m\"");
    assert_eq!(nu_string("\u{e0b0} ok"), "\"\u{e0b0} ok\"");
}
