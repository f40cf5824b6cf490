//! Quoting text for the shells that the generated prompts run in.
use vstd::prelude::*;

use crate::text::{
    char_replacer, chars_of, expand, lemma_expand_concat, lemma_expand_push, push_char, push_str,
    replace_char,
};

verus! {

/// What a single quote becomes inside a single-quoted shell word: close the
/// quotes, an escaped quote, reopen the quotes.
pub open spec fn quote_escape() -> Seq<char> {
    seq!['\'', '\\', '\'', '\'']
}

/// `s` as a single-quoted POSIX shell word.
pub open spec fn spec_shell_single_quote(s: Seq<char>) -> Seq<char> {
    seq!['\''] + expand(s, char_replacer('\'', quote_escape())) + seq!['\'']
}

/// Quotes `input` for POSIX shells: wraps it in single quotes and writes each
/// single quote inside it as `'\''`.
pub fn shell_single_quote(input: &str) -> (r: String)
    ensures
        r@ == spec_shell_single_quote(input@),
{
    let body = replace_char(input, '\'', "'\\''");
    proof {
        reveal_strlit("'\\''");
        assert("'\\''"@ =~= quote_escape());
    }
    let mut out = String::new();
    push_char(&mut out, '\'');
    push_str(&mut out, body.as_str());
    push_char(&mut out, '\'');
    out
}

/// `s` with every `%` doubled, so that zsh prompt expansion prints it as is.
pub open spec fn zsh_percent_escaped(s: Seq<char>) -> Seq<char> {
    expand(s, char_replacer('%', seq!['%', '%']))
}

/// Quotes `input` for a zsh prompt string: doubles every `%`, then quotes the
/// result for the shell.
pub fn zsh_prompt_single_quote(input: &str) -> (r: String)
    ensures
        r@ == spec_shell_single_quote(zsh_percent_escaped(input@)),
{
    let escaped = replace_char(input, '%', "%%");
    proof {
        reveal_strlit("%%");
        assert("%%"@ =~= seq!['%', '%']);
    }
    shell_single_quote(escaped.as_str())
}

/// Writes each ESC character of `input` as `\e`, the escape zsh's `print -P`
/// and prompt strings understand.
pub fn zsh_prompt_ansi(input: &str) -> (r: String)
    ensures
        r@ == expand(input@, char_replacer('\u{1b}', seq!['\\', 'e'])),
{
    let r = replace_char(input, '\u{1b}', "\\e");
    proof {
        reveal_strlit("\\e");
        assert("\\e"@ =~= seq!['\\', 'e']);
    }
    r
}

/// How a character is written inside a Nushell double-quoted string.
pub open spec fn nu_escape(c: char) -> Seq<char> {
    if c == '\\' {
        seq!['\\', '\\']
    } else if c == '"' {
        seq!['\\', '"']
    } else if c == '\n' {
        seq!['\\', 'n']
    } else if c == '\r' {
        seq!['\\', 'r']
    } else if c == '\t' {
        seq!['\\', 't']
    } else if c == '\u{1b}' {
        seq!['\\', 'u', '{', '1', 'b', '}']
    } else {
        seq![c]
    }
}

/// The expansion that writes characters for a Nushell double-quoted string.
pub open spec fn nu_escaper() -> spec_fn(char) -> Seq<char> {
    |c: char| nu_escape(c)
}

/// `s` as a Nushell double-quoted string literal.
pub open spec fn spec_nu_string(s: Seq<char>) -> Seq<char> {
    seq!['"'] + expand(s, nu_escaper()) + seq!['"']
}

/// Writes `input` as a Nushell double-quoted string literal, escaping
/// backslash, double quote, newline, carriage return, tab and ESC.
pub fn nu_string(input: &str) -> (r: String)
    ensures
        r@ == spec_nu_string(input@),
{
    let cs = chars_of(input);
    let n = cs.len();
    let mut out = String::new();
    push_char(&mut out, '"');
    let mut i: usize = 0;
    while i < n
        invariant
            n == cs@.len(),
            cs@ == input@,
            i <= n,
            out@ == seq!['"'] + expand(cs@.take(i as int), nu_escaper()),
        decreases n - i,
    {
        let ch = cs[i];
        proof {
            assert(cs@.take(i + 1) =~= cs@.take(i as int).push(ch));
            lemma_expand_push(cs@.take(i as int), ch, nu_escaper());
        }
        let ghost before = out@;
        if ch == '\\' {
            push_char(&mut out, '\\');
            push_char(&mut out, '\\');
        } else if ch == '"' {
            push_char(&mut out, '\\');
            push_char(&mut out, '"');
        } else if ch == '\n' {
            push_char(&mut out, '\\');
            push_char(&mut out, 'n');
        } else if ch == '\r' {
            push_char(&mut out, '\\');
            push_char(&mut out, 'r');
        } else if ch == '\t' {
            push_char(&mut out, '\\');
            push_char(&mut out, 't');
        } else if ch == '\u{1b}' {
            push_char(&mut out, '\\');
            push_char(&mut out, 'u');
            push_char(&mut out, '{');
            push_char(&mut out, '1');
            push_char(&mut out, 'b');
            push_char(&mut out, '}');
        } else {
            push_char(&mut out, ch);
        }
        assert(out@ =~= before + nu_escape(ch));
        i = i + 1;
    }
    assert(cs@.take(n as int) =~= cs@);
    push_char(&mut out, '"');
    out
}

} // verus!

verus! {

/// The text a POSIX shell word denotes, reading single-quoted parts,
/// backslash escapes outside quotes, and plain characters; `quoted` says
/// whether reading starts inside single quotes.
pub open spec fn shell_word_value(w: Seq<char>, quoted: bool) -> Seq<char>
    decreases w.len(),
{
    if w.len() == 0 {
        seq![]
    } else if quoted {
        if w[0] == '\'' {
            shell_word_value(w.drop_first(), false)
        } else {
            seq![w[0]] + shell_word_value(w.drop_first(), true)
        }
    } else if w[0] == '\'' {
        shell_word_value(w.drop_first(), true)
    } else if w[0] == '\\' && w.len() >= 2 {
        seq![w[1]] + shell_word_value(w.skip(2), false)
    } else {
        seq![w[0]] + shell_word_value(w.drop_first(), false)
    }
}

proof fn lemma_quoted_body_value(s: Seq<char>, rest: Seq<char>)
    ensures
        shell_word_value(expand(s, char_replacer('\'', quote_escape())) + rest, true) == s
            + shell_word_value(rest, true),
    decreases s.len(),
{
    let f = char_replacer('\'', quote_escape());
    if s.len() == 0 {
        assert(expand(s, f) + rest =~= rest);
        assert(s + shell_word_value(rest, true) =~= shell_word_value(rest, true));
    } else {
        let c = s[0];
        let tail = expand(s.drop_first(), f) + rest;
        lemma_quoted_body_value(s.drop_first(), rest);
        assert(expand(s, f) + rest =~= f(c) + tail);
        if c == '\'' {
            let w = f(c) + tail;
            let w1 = w.drop_first();
            let w3 = seq!['\''] + tail;
            assert(w[0] == '\'');
            assert(w1 =~= seq!['\\', '\'', '\''] + tail);
            assert(w1[0] == '\\' && w1[1] == '\'');
            assert(w1.skip(2) =~= w3);
            assert(w3.drop_first() =~= tail);
            assert(w3[0] == '\'');
            assert(shell_word_value(w3, false) == shell_word_value(tail, true));
            assert(shell_word_value(w1, false) == seq!['\''] + shell_word_value(w3, false));
            assert(shell_word_value(w, true) == shell_word_value(w1, false));
        } else {
            let w = f(c) + tail;
            assert(w.drop_first() =~= tail);
        }
        assert(s =~= seq![c] + s.drop_first());
    }
}

/// Law: the shell reads a word made by `shell_single_quote` back as the
/// quoted text, whatever it holds.
pub proof fn shell_single_quote_round_trip(s: Seq<char>)
    ensures
        shell_word_value(spec_shell_single_quote(s), false) == s,
{
    let f = char_replacer('\'', quote_escape());
    let w = spec_shell_single_quote(s);
    lemma_quoted_body_value(s, seq!['\'']);
    assert(w.drop_first() =~= expand(s, f) + seq!['\'']);
    let e: Seq<char> = seq![];
    assert(seq!['\''].drop_first() =~= e);
    assert(shell_word_value(e, false) =~= e);
    assert(shell_word_value(seq!['\''], true) =~= e);
    assert(s + e =~= s);
}

/// What zsh prompt expansion prints for text in which `%` only occurs as `%%`.
pub open spec fn zsh_percent_value(w: Seq<char>) -> Seq<char>
    decreases w.len(),
{
    if w.len() == 0 {
        seq![]
    } else if w[0] == '%' && w.len() >= 2 && w[1] == '%' {
        seq!['%'] + zsh_percent_value(w.skip(2))
    } else {
        seq![w[0]] + zsh_percent_value(w.drop_first())
    }
}

proof fn lemma_percent_value(s: Seq<char>)
    ensures
        zsh_percent_value(zsh_percent_escaped(s)) == s,
    decreases s.len(),
{
    let f = char_replacer('%', seq!['%', '%']);
    if s.len() == 0 {
        assert(zsh_percent_escaped(s) =~= seq![]);
    } else {
        let c = s[0];
        lemma_percent_value(s.drop_first());
        let w = zsh_percent_escaped(s);
        assert(w =~= f(c) + zsh_percent_escaped(s.drop_first()));
        if c == '%' {
            assert(w.skip(2) =~= zsh_percent_escaped(s.drop_first()));
        } else {
            assert(w.drop_first() =~= zsh_percent_escaped(s.drop_first()));
        }
        assert(s =~= seq![c] + s.drop_first());
    }
}

/// Law: the shell reads the word made by `zsh_prompt_single_quote`, and zsh's
/// prompt expansion then prints exactly the input text.
pub proof fn zsh_prompt_single_quote_round_trip(s: Seq<char>)
    ensures
        zsh_percent_value(shell_word_value(spec_shell_single_quote(zsh_percent_escaped(s)), false))
            == s,
{
    shell_single_quote_round_trip(zsh_percent_escaped(s));
    lemma_percent_value(s);
}

/// The characters between the quotes of a Nushell double-quoted string
/// literal, read up to and including the closing quote; `None` when the
/// closing quote is missing, is followed by more text, or an escape is not one
/// of `\\`, `\"`, `\n`, `\r`, `\t`, `\u{1b}`.
pub open spec fn nu_string_body_value(w: Seq<char>) -> Option<Seq<char>>
    decreases w.len(),
{
    if w.len() == 0 {
        None
    } else if w[0] == '"' {
        if w.len() == 1 {
            Some(seq![])
        } else {
            None
        }
    } else if w[0] == '\\' {
        if w.len() < 2 {
            None
        } else {
            let e = w[1];
            let unescaped: Option<char> = if e == '\\' {
                Some('\\')
            } else if e == '"' {
                Some('"')
            } else if e == 'n' {
                Some('\n')
            } else if e == 'r' {
                Some('\r')
            } else if e == 't' {
                Some('\t')
            } else {
                None
            };
            match unescaped {
                Some(c) => match nu_string_body_value(w.skip(2)) {
                    Some(rest) => Some(seq![c] + rest),
                    None => None,
                },
                None => if w.len() >= 6 && w.subrange(1, 6) == seq!['u', '{', '1', 'b', '}'] {
                    match nu_string_body_value(w.skip(6)) {
                        Some(rest) => Some(seq!['\u{1b}'] + rest),
                        None => None,
                    }
                } else {
                    None
                },
            }
        }
    } else {
        match nu_string_body_value(w.drop_first()) {
            Some(rest) => Some(seq![w[0]] + rest),
            None => None,
        }
    }
}

/// The value of a Nushell double-quoted string literal that spans all of `w`.
pub open spec fn nu_string_value(w: Seq<char>) -> Option<Seq<char>> {
    if w.len() > 0 && w[0] == '"' {
        nu_string_body_value(w.drop_first())
    } else {
        None
    }
}

proof fn lemma_nu_body_value(s: Seq<char>)
    ensures
        nu_string_body_value(expand(s, nu_escaper()) + seq!['"']) == Some(s),
    decreases s.len(),
{
    let close: Seq<char> = seq!['"'];
    if s.len() == 0 {
        assert(expand(s, nu_escaper()) + close =~= close);
        assert(s =~= seq![]);
    } else {
        let c = s[0];
        lemma_nu_body_value(s.drop_first());
        let tail = expand(s.drop_first(), nu_escaper()) + close;
        let w = expand(s, nu_escaper()) + close;
        assert(w =~= nu_escape(c) + tail);
        if c == '\u{1b}' {
            assert(w.subrange(1, 6) =~= seq!['u', '{', '1', 'b', '}']);
            assert(w.skip(6) =~= tail);
        } else if c == '\\' || c == '"' || c == '\n' || c == '\r' || c == '\t' {
            assert(w.skip(2) =~= tail);
        } else {
            assert(w.drop_first() =~= tail);
        }
        assert(s =~= seq![c] + s.drop_first());
    }
}

/// Law: `nu_string` makes one complete Nushell string literal whose value is
/// the input text.
pub proof fn nu_string_round_trip(s: Seq<char>)
    ensures
        nu_string_value(spec_nu_string(s)) == Some(s),
{
    lemma_nu_body_value(s);
    assert(spec_nu_string(s).drop_first() =~= expand(s, nu_escaper()) + seq!['"']);
}

} // verus!
