//! The prompt configuration and its validation rules.
use vstd::prelude::*;

use crate::text::{decimal, decimal_digits, push_str};
use crate::toml_model::TomlValue;

verus! {

/// A prompt configuration (`cailoxo.toml`).
#[derive(Debug)]
pub struct Config {
    pub version: u32,
    pub final_space: bool,
    pub transient: Option<Transient>,
    pub line: Vec<Line>,
}

/// The transient prompt that replaces a prompt once its command was entered.
#[derive(Debug)]
pub struct Transient {
    pub enabled: bool,
    pub template: String,
    pub success_foreground: Option<String>,
    pub error_foreground: Option<String>,
    pub background: Option<String>,
}

/// One prompt line (`[[line]]`).
#[derive(Debug)]
pub struct Line {
    pub newline: bool,
    pub span: Vec<Span>,
}

/// One inline prompt unit (`[[line.span]]`).
#[derive(Debug)]
pub struct Span {
    pub span_type: SpanType,
    pub template: String,
    pub foreground: Option<String>,
    pub background: Option<String>,
    pub dirty_background: Option<String>,
    pub success_foreground: Option<String>,
    pub error_foreground: Option<String>,
    pub head: Option<String>,
    pub tail: Option<String>,
    pub separator: Option<String>,
    pub invert_head: bool,
    pub invert_tail: bool,
    pub invert_separator: bool,
    /// The span's `[line.span.settings]` table.
    pub settings: TomlValue,
}

/// The kind of a span.
#[derive(Debug, Clone, Copy, PartialEq, Eq, Structural)]
pub enum SpanType {
    Os,
    Path,
    Git,
    Text,
}

/// Why a configuration is rejected.
#[derive(Debug, PartialEq, Eq)]
pub enum ConfigError {
    /// The schema version is not 1.
    Version(u32),
    /// No `[[line]]` is defined.
    NoLines,
    /// The line with this 1-based number has no span.
    EmptyLine(usize),
    /// Span `span` of line `line` has a separator and span `next_span` has a
    /// head (all 1-based): both would draw the same boundary.
    EdgeConflict { line: usize, span: usize, next_span: usize },
}

/// Span `j` has a separator and span `j + 1` has a head.
pub open spec fn edge_conflict_at(spans: Seq<Span>, j: int) -> bool {
    0 <= j && j + 1 < spans.len() && spans[j].separator is Some && spans[j + 1].head is Some
}

/// The first boundary conflict among `spans` at position `j` or later.
pub open spec fn first_edge_conflict(spans: Seq<Span>, j: int) -> Option<int>
    decreases spans.len() - j,
{
    if j < 0 || j + 1 >= spans.len() {
        None
    } else if edge_conflict_at(spans, j) {
        Some(j)
    } else {
        first_edge_conflict(spans, j + 1)
    }
}

/// What is wrong with the line at 0-based position `i`, if anything.
pub open spec fn line_error(line: Line, i: int) -> Option<ConfigError> {
    if line.span@.len() == 0 {
        Some(ConfigError::EmptyLine((i + 1) as usize))
    } else {
        match first_edge_conflict(line.span@, 0) {
            Some(j) => Some(
                ConfigError::EdgeConflict {
                    line: (i + 1) as usize,
                    span: (j + 1) as usize,
                    next_span: (j + 2) as usize,
                },
            ),
            None => None,
        }
    }
}

/// The error of the first faulty line at position `i` or later.
pub open spec fn first_line_error(lines: Seq<Line>, i: int) -> Option<ConfigError>
    decreases lines.len() - i,
{
    if i < 0 || i >= lines.len() {
        None
    } else {
        match line_error(lines[i], i) {
            Some(e) => Some(e),
            None => first_line_error(lines, i + 1),
        }
    }
}

/// The outcome of validating `c`: the version is checked first, then that
/// lines exist, then each line in order.
pub open spec fn validation(c: Config) -> Result<(), ConfigError> {
    if c.version != 1 {
        Err(ConfigError::Version(c.version))
    } else if c.line@.len() == 0 {
        Err(ConfigError::NoLines)
    } else {
        match first_line_error(c.line@, 0) {
            Some(e) => Err(e),
            None => Ok(()),
        }
    }
}

/// A line is well formed: it has a span, and no span with a separator is
/// followed by a span with a head.
pub open spec fn line_well_formed(line: Line) -> bool {
    &&& line.span@.len() > 0
    &&& forall|j: int| !edge_conflict_at(line.span@, j)
}

proof fn lemma_first_edge_conflict(spans: Seq<Span>, j: int)
    requires
        0 <= j,
    ensures
        first_edge_conflict(spans, j) is None <==> forall|k: int| j <= k ==> !edge_conflict_at(spans, k),
        first_edge_conflict(spans, j) matches Some(k) ==> j <= k && edge_conflict_at(spans, k)
            && forall|l: int| j <= l < k ==> !edge_conflict_at(spans, l),
    decreases spans.len() - j,
{
    if j + 1 < spans.len() {
        lemma_first_edge_conflict(spans, j + 1);
        if !edge_conflict_at(spans, j) {
            assert forall|k: int| j <= k && !edge_conflict_at(spans, k) && (forall|l: int| j + 1 <= l ==> !edge_conflict_at(spans, l))
                implies (forall|l: int| j <= l ==> !edge_conflict_at(spans, l)) by {}
        }
    }
}

proof fn lemma_first_line_error(lines: Seq<Line>, i: int)
    requires
        0 <= i,
    ensures
        first_line_error(lines, i) is None <==> forall|k: int| i <= k < lines.len() ==> line_well_formed(#[trigger] lines[k]),
    decreases lines.len() - i,
{
    if i < lines.len() {
        lemma_first_line_error(lines, i + 1);
        lemma_first_edge_conflict(lines[i].span@, 0);
        if line_error(lines[i], i) is None {
            assert(line_well_formed(lines[i]));
        } else {
            assert(!line_well_formed(lines[i]));
        }
    }
}

impl Config {
    /// Checks the configuration: the version must be 1, at least one line must
    /// exist, every line must have a span, and a span with a `separator` may
    /// not be followed by a span with a `head`.
    pub fn validate(&self) -> (r: Result<(), ConfigError>)
        ensures
            r == validation(*self),
            r is Ok <==> (self.version == 1 && self.line@.len() > 0 && forall|i: int|
                0 <= i < self.line@.len() ==> line_well_formed(#[trigger] self.line@[i])),
    {
        proof {
            lemma_first_line_error(self.line@, 0);
        }
        if self.version != 1 {
            return Err(ConfigError::Version(self.version));
        }
        if self.line.len() == 0 {
            return Err(ConfigError::NoLines);
        }
        let n = self.line.len();
        let mut i: usize = 0;
        while i < n
            invariant
                n == self.line@.len(),
                i <= n,
                self.version == 1,
                n > 0,
                first_line_error(self.line@, 0) == first_line_error(self.line@, i as int),
            decreases n - i,
        {
            let spans = &self.line[i].span;
            if spans.len() == 0 {
                return Err(ConfigError::EmptyLine(i + 1));
            }
            let m = spans.len();
            let mut j: usize = 0;
            while j + 1 < m
                invariant
                    m == spans@.len(),
                    n == self.line@.len(),
                    i < n,
                    self.version == 1,
                    first_line_error(self.line@, 0) == first_line_error(self.line@, i as int),
                    spans@ == self.line@[i as int].span@,
                    j + 1 <= m,
                    first_edge_conflict(spans@, 0) == first_edge_conflict(spans@, j as int),
                decreases m - j,
            {
                if spans[j].separator.is_some() && spans[j + 1].head.is_some() {
                    return Err(ConfigError::EdgeConflict { line: i + 1, span: j + 1, next_span: j + 2 });
                }
                j = j + 1;
            }
            i = i + 1;
        }
        Ok(())
    }
}

impl ConfigError {
    /// The message shown for this error.
    pub open spec fn spec_message(self) -> Seq<char> {
        match self {
            ConfigError::Version(v) => "unsupported config version "@ + decimal_digits(v as nat)
                + "; expected version 1"@,
            ConfigError::NoLines => "config must define at least one [[line]]"@,
            ConfigError::EmptyLine(n) => "line "@ + decimal_digits(n as nat)
                + " must define at least one [[line.span]]"@,
            ConfigError::EdgeConflict { line, span, next_span } => "line "@ + decimal_digits(
                line as nat,
            ) + ": span "@ + decimal_digits(span as nat) + " has separator and span "@
                + decimal_digits(next_span as nat)
                + " has head; boundary can only define one edge"@,
        }
    }

    /// The message shown for this error (what its `Display` writes).
    pub fn message(&self) -> (r: String)
        ensures
            r@ == self.spec_message(),
    {
        let mut out = String::new();
        match self {
            ConfigError::Version(v) => {
                push_str(&mut out, "unsupported config version ");
                push_str(&mut out, decimal(*v as u64).as_str());
                push_str(&mut out, "; expected version 1");
            },
            ConfigError::NoLines => {
                push_str(&mut out, "config must define at least one [[line]]");
            },
            ConfigError::EmptyLine(n) => {
                push_str(&mut out, "line ");
                push_str(&mut out, decimal(*n as u64).as_str());
                push_str(&mut out, " must define at least one [[line.span]]");
            },
            ConfigError::EdgeConflict { line, span, next_span } => {
                push_str(&mut out, "line ");
                push_str(&mut out, decimal(*line as u64).as_str());
                push_str(&mut out, ": span ");
                push_str(&mut out, decimal(*span as u64).as_str());
                push_str(&mut out, " has separator and span ");
                push_str(&mut out, decimal(*next_span as u64).as_str());
                push_str(&mut out, " has head; boundary can only define one edge");
            },
        }
        out
    }
}

} // verus!

verus! {

/// The string under `key` of a table value, if there is one.
pub open spec fn lookup_str(v: TomlValue, key: Seq<char>) -> Option<Seq<char>> {
    match v.spec_get(key) {
        Some(x) => x.spec_as_str(),
        None => None,
    }
}

/// The boolean under `key` of a table value, if there is one.
pub open spec fn lookup_bool(v: TomlValue, key: Seq<char>) -> Option<bool> {
    match v.spec_get(key) {
        Some(x) => x.spec_as_bool(),
        None => None,
    }
}

impl Span {
    /// The string setting `key`, if the settings hold a string under it.
    pub open spec fn spec_setting_str(self, key: Seq<char>) -> Option<Seq<char>> {
        lookup_str(self.settings, key)
    }

    /// The boolean setting `key`, if the settings hold a boolean under it.
    pub open spec fn spec_setting_bool(self, key: Seq<char>) -> Option<bool> {
        lookup_bool(self.settings, key)
    }

    /// The template under `key` of the settings' `status` table, if it is a string.
    pub open spec fn spec_status_template(self, key: Seq<char>) -> Option<Seq<char>> {
        match self.settings.spec_get("status"@) {
            Some(status) => lookup_str(status, key),
            None => None,
        }
    }

    /// The string setting `key`.
    pub fn setting_str(&self, key: &str) -> (r: Option<&str>)
        ensures
            r is Some <==> self.spec_setting_str(key@) is Some,
            r matches Some(s) ==> Some(s@) == self.spec_setting_str(key@),
    {
        match self.settings.get(key) {
            Some(v) => v.as_str(),
            None => None,
        }
    }

    /// The boolean setting `key`.
    pub fn setting_bool(&self, key: &str) -> (r: Option<bool>)
        ensures
            r == self.spec_setting_bool(key@),
    {
        match self.settings.get(key) {
            Some(v) => v.as_bool(),
            None => None,
        }
    }

    /// The template for the Git status `key` from the `status` settings table.
    pub fn status_template(&self, key: &str) -> (r: Option<&str>)
        ensures
            r is Some <==> self.spec_status_template(key@) is Some,
            r matches Some(s) ==> Some(s@) == self.spec_status_template(key@),
    {
        match self.settings.get("status") {
            Some(status) => match status.get(key) {
                Some(v) => v.as_str(),
                None => None,
            },
            None => None,
        }
    }
}

} // verus!
