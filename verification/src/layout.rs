//! Locating the spans that make up the prompt.
use vstd::prelude::*;

use crate::config::{Config, Span, SpanType};
use crate::error::GenerateError;

verus! {

/// The spans the prompt is drawn from: the prompt character span (first span
/// of the second line) and the `os`, `path` and optional `git` spans of the
/// first line.
#[derive(Debug)]
pub struct Layout<'a> {
    pub prompt_span: &'a Span,
    pub os: &'a Span,
    pub path: &'a Span,
    pub git: Option<&'a Span>,
}

/// The position of the first span of type `t` among `spans`, at `from` or later.
pub open spec fn first_span_of(spans: Seq<Span>, t: SpanType, from: int) -> Option<int>
    decreases spans.len() - from,
{
    if from < 0 || from >= spans.len() {
        None
    } else if spans[from].span_type == t {
        Some(from)
    } else {
        first_span_of(spans, t, from + 1)
    }
}

/// The first span of type `t` in `spans`.
pub fn find_span(spans: &Vec<Span>, t: SpanType) -> (r: Option<&Span>)
    ensures
        match first_span_of(spans@, t, 0) {
            Some(i) => r matches Some(s) && *s == spans@[i],
            None => r is None,
        },
{
    let n = spans.len();
    let mut i: usize = 0;
    while i < n
        invariant
            n == spans@.len(),
            i <= n,
            first_span_of(spans@, t, 0) == first_span_of(spans@, t, i as int),
        decreases n - i,
    {
        if spans[i].span_type == t {
            return Some(&spans[i]);
        }
        i = i + 1;
    }
    None
}

/// Where `layout` finds the prompt's spans in `c`: the positions of the `os`,
/// `path` and (if any) `git` spans in the first line, or the error.
pub open spec fn layout_positions(c: Config) -> Result<(int, int, Option<int>), GenerateError> {
    if c.line@.len() == 0 {
        Err(GenerateError::MissingFirstLine)
    } else if c.line@.len() < 2 || c.line@[1].span@.len() == 0 {
        Err(GenerateError::MissingPromptSpan)
    } else if c.line@[1].span@[0].span_type != SpanType::Text {
        Err(GenerateError::PromptSpanNotText)
    } else {
        let first = c.line@[0].span@;
        match (first_span_of(first, SpanType::Os, 0), first_span_of(first, SpanType::Path, 0)) {
            (None, _) => Err(GenerateError::MissingOsSpan),
            (Some(_), None) => Err(GenerateError::MissingPathSpan),
            (Some(o), Some(p)) => Ok((o, p, first_span_of(first, SpanType::Git, 0))),
        }
    }
}

/// Finds the spans of the two-line prompt: the second line must start with a
/// `text` span, the first line must hold an `os` and a `path` span and may
/// hold a `git` span (the first of each type is taken).
pub fn layout(config: &Config) -> (r: Result<Layout<'_>, GenerateError>)
    ensures
        match layout_positions(*config) {
            Ok((o, p, g)) => r matches Ok(l) && {
                &&& *l.prompt_span == config.line@[1].span@[0]
                &&& *l.os == config.line@[0].span@[o]
                &&& *l.path == config.line@[0].span@[p]
                &&& match g {
                    Some(gi) => l.git matches Some(x) && *x == config.line@[0].span@[gi],
                    None => l.git is None,
                }
            },
            Err(e) => r matches Err(e2) && e2 == e,
        },
{
    if config.line.len() == 0 {
        return Err(GenerateError::MissingFirstLine);
    }
    let first_line = &config.line[0].span;
    if config.line.len() < 2 || config.line[1].span.len() == 0 {
        return Err(GenerateError::MissingPromptSpan);
    }
    let prompt_span = &config.line[1].span[0];
    if prompt_span.span_type != SpanType::Text {
        return Err(GenerateError::PromptSpanNotText);
    }
    let os = match find_span(first_line, SpanType::Os) {
        Some(s) => s,
        None => {
            return Err(GenerateError::MissingOsSpan);
        },
    };
    let path = match find_span(first_line, SpanType::Path) {
        Some(s) => s,
        None => {
            return Err(GenerateError::MissingPathSpan);
        },
    };
    let git = find_span(first_line, SpanType::Git);
    Ok(Layout { prompt_span, os, path, git })
}

} // verus!
