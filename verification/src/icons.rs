//! The built-in icon dictionaries (`defaults/icons.toml`) and the script
//! fragments generated from them.
use vstd::prelude::*;

use crate::config::{lookup_str, Span};
use crate::error::GenerateError;
use crate::features::{spec_statuses, statuses};
use crate::quote::{nu_string, shell_single_quote, spec_nu_string, spec_shell_single_quote};
use crate::text::{has_substring, occurs_at, push_char, push_str, replace_str, replaced};
use crate::toml_model::{
    entries_get, entries_ordered, key_less, keys_ascending, keys_distinct, keys_ordered, lemma_entries_get_distinct, lemma_entries_get_found,
    lemma_get_keeps_order, parse_toml, toml_document, TomlValue,
};

verus! {

/// The string icon `key` of table `set` of group `group` in the icon document
/// with top-level entries `root`.
pub open spec fn doc_icon(root: Seq<(String, TomlValue)>, group: Seq<char>, set: Seq<char>, key: Seq<char>) -> Option<Seq<char>> {
    match entries_get(root, group) {
        Some(g) => match g.spec_get(set) {
            Some(s) => lookup_str(s, key),
            None => None,
        },
        None => None,
    }
}

/// The entries of table `set` of group `group` in the icon document.
pub open spec fn doc_table(root: Seq<(String, TomlValue)>, group: Seq<char>, set: Seq<char>) -> Option<Seq<(String, TomlValue)>> {
    match entries_get(root, group) {
        Some(g) => match g.spec_get(set) {
            Some(s) => s.spec_as_table(),
            None => None,
        },
        None => None,
    }
}

/// The text, or the empty text when there is none.
pub open spec fn or_empty(o: Option<Seq<char>>) -> Seq<char> {
    match o {
        Some(t) => t,
        None => seq![],
    }
}

/// Parses the icon document.
pub fn default_icons(icons_toml: &str) -> (r: Result<TomlValue, GenerateError>)
    ensures
        toml_document(icons_toml@) matches Some(root) ==> entries_ordered(root),
        match toml_document(icons_toml@) {
            Some(root) => r matches Ok(v) && v.table_entries() == root && keys_ordered(v),
            None => r matches Err(GenerateError::IconsParse),
        },
{
    match parse_toml(icons_toml) {
        Some(v) => Ok(v),
        None => Err(GenerateError::IconsParse),
    }
}

/// The icon `key` of table `set` of group `group`, if it is a string.
pub fn icon<'a>(icons: &'a TomlValue, group: &str, set: &str, key: &str) -> (r: Option<&'a str>)
    ensures
        r is Some <==> doc_icon(icons.table_entries(), group@, set@, key@) is Some,
        r matches Some(s) ==> Some(s@) == doc_icon(icons.table_entries(), group@, set@, key@),
{
    match icons.get(group) {
        Some(g) => match g.get(set) {
            Some(s) => match s.get(key) {
                Some(v) => v.as_str(),
                None => None,
            },
            None => None,
        },
        None => None,
    }
}

/// The entries of table `set` of group `group`, if it is a table.
pub fn icon_table<'a>(icons: &'a TomlValue, group: &str, set: &str) -> (r: Option<&'a Vec<(String, TomlValue)>>)
    ensures
        r is Some <==> doc_table(icons.table_entries(), group@, set@) is Some,
        r matches Some(e) ==> Some(e@) == doc_table(icons.table_entries(), group@, set@),
{
    match icons.get(group) {
        Some(g) => match g.get(set) {
            Some(s) => s.as_table(),
            None => None,
        },
        None => None,
    }
}

/// The branch icon of a Git span: its `branch_icon` setting, else the
/// `git_branch.nerdfont.git` icon, else nothing.
pub open spec fn spec_git_branch_icon(git: Span, root: Seq<(String, TomlValue)>) -> Seq<char> {
    match git.spec_setting_str("branch_icon"@) {
        Some(i) => i,
        None => or_empty(doc_icon(root, "git_branch"@, "nerdfont"@, "git"@)),
    }
}

/// The branch icon of a Git span, given the parsed icon document.
pub fn git_branch_icon_with(git: &Span, icons: &TomlValue) -> (r: String)
    ensures
        r@ == spec_git_branch_icon(*git, icons.table_entries()),
{
    match git.setting_str("branch_icon") {
        Some(i) => i.to_owned(),
        None => match icon(icons, "git_branch", "nerdfont", "git") {
            Some(i) => i.to_owned(),
            None => String::new(),
        },
    }
}

/// The branch icon of a Git span. The icon document is only parsed when the
/// span sets no `branch_icon`.
pub fn git_branch_icon(git: &Span, icons_toml: &str) -> (r: Result<String, GenerateError>)
    ensures
        match git.spec_setting_str("branch_icon"@) {
            Some(i) => r matches Ok(s) && s@ == i,
            None => match toml_document(icons_toml@) {
                Some(root) => r matches Ok(s) && s@ == spec_git_branch_icon(*git, root),
                None => r matches Err(GenerateError::IconsParse),
            },
        },
{
    if let Some(i) = git.setting_str("branch_icon") {
        return Ok(i.to_owned());
    }
    let icons = default_icons(icons_toml)?;
    Ok(git_branch_icon_with(git, &icons))
}

/// The separator between Git status entries: the span's `separator` setting,
/// else ` |`.
pub fn status_separator(git: &Span) -> (r: &str)
    ensures
        match git.spec_setting_str("separator"@) {
            Some(s) => r@ == s,
            None => r@ == " |"@,
        },
{
    match git.setting_str("separator") {
        Some(s) => s,
        None => " |",
    }
}

/// The icon of status `name`: from the span's `icon_set` (default `minimal`),
/// else from the `minimal` set, else nothing.
pub open spec fn spec_status_icon(span: Span, name: Seq<char>, root: Seq<(String, TomlValue)>) -> Seq<char> {
    let set = match span.spec_setting_str("icon_set"@) {
        Some(s) => s,
        None => "minimal"@,
    };
    match doc_icon(root, "git_status"@, set, name) {
        Some(i) => i,
        None => or_empty(doc_icon(root, "git_status"@, "minimal"@, name)),
    }
}

/// The template of status `name`: the span's own status template with
/// `{{ status_icon }}` and `{{status_icon}}` replaced by the status icon, else
/// the icon followed by `{{ count }}`.
pub open spec fn spec_status_template_text(span: Span, name: Seq<char>, root: Seq<(String, TomlValue)>) -> Seq<char> {
    let icon = spec_status_icon(span, name, root);
    match span.spec_status_template(name) {
        Some(t) => replaced(replaced(t, "{{ status_icon }}"@, icon), "{{status_icon}}"@, icon),
        None => icon + "{{ count }}"@,
    }
}

/// The template of status `name`, given the parsed icon document.
pub fn status_template_with(span: &Span, name: &str, icons: &TomlValue) -> (r: String)
    ensures
        r@ == spec_status_template_text(*span, name@, icons.table_entries()),
{
    let icon_set = match span.setting_str("icon_set") {
        Some(s) => s,
        None => "minimal",
    };
    let status_icon = match icon(icons, "git_status", icon_set, name) {
        Some(i) => i,
        None => match icon(icons, "git_status", "minimal", name) {
            Some(i) => i,
            None => "",
        },
    };
    proof {
        reveal_strlit("");
        reveal_strlit("{{ status_icon }}");
        reveal_strlit("{{status_icon}}");
        assert(""@ =~= seq![]);
        assert(status_icon@ == spec_status_icon(*span, name@, icons.table_entries()));
    }
    match span.status_template(name) {
        Some(template) => {
            let once = replace_str(template, "{{ status_icon }}", status_icon);
            replace_str(once.as_str(), "{{status_icon}}", status_icon)
        },
        None => {
            let mut out = String::new();
            push_str(&mut out, status_icon);
            push_str(&mut out, "{{ count }}");
            out
        },
    }
}

/// The template of status `name` of a Git span.
pub fn status_template(span: &Span, name: &str, icons_toml: &str) -> (r: Result<String, GenerateError>)
    ensures
        match toml_document(icons_toml@) {
            Some(root) => r matches Ok(s) && s@ == spec_status_template_text(*span, name@, root),
            None => r matches Err(GenerateError::IconsParse),
        },
{
    let icons = default_icons(icons_toml)?;
    Ok(status_template_with(span, name, &icons))
}

} // verus!

verus! {

/// One `case` branch of the zsh status template switch.
pub open spec fn zsh_status_case(name: Seq<char>, template: Seq<char>) -> Seq<char> {
    "    "@ + name + ") template="@ + spec_shell_single_quote(template) + " ; count=${"@ + name
        + "} ;;\n"@
}

/// The zsh `case` branches for the statuses `names`, in order.
pub open spec fn zsh_status_cases(git: Span, root: Seq<(String, TomlValue)>, names: Seq<Seq<char>>) -> Seq<char>
    decreases names.len(),
{
    if names.len() == 0 {
        seq![]
    } else {
        zsh_status_cases(git, root, names.drop_last()) + zsh_status_case(
            names.last(),
            spec_status_template_text(git, names.last(), root),
        )
    }
}

/// The zsh `case` branches that set each status's template and count, given
/// the parsed icon document.
pub fn zsh_status_template_cases_with(git: &Span, icons: &TomlValue) -> (r: String)
    ensures
        r@ == zsh_status_cases(*git, icons.table_entries(), spec_statuses()),
{
    let names = statuses();
    let n = names.len();
    let mut out = String::new();
    let mut i: usize = 0;
    assert(spec_statuses().take(0) =~= seq![]);
    while i < n
        invariant
            n == names@.len(),
            n == spec_statuses().len(),
            forall|k: int| 0 <= k < names@.len() ==> #[trigger] names@[k]@ == spec_statuses()[k],
            i <= n,
            out@ == zsh_status_cases(*git, icons.table_entries(), spec_statuses().take(i as int)),
        decreases n - i,
    {
        let status = names[i];
        assert(spec_statuses().take(i + 1).drop_last() =~= spec_statuses().take(i as int));
        assert(spec_statuses().take(i + 1).last() == status@);
        let template = status_template_with(git, status, icons);
        let ghost before = out@;
        push_str(&mut out, "    ");
        push_str(&mut out, status);
        push_str(&mut out, ") template=");
        push_str(&mut out, shell_single_quote(template.as_str()).as_str());
        push_str(&mut out, " ; count=${");
        push_str(&mut out, status);
        push_str(&mut out, "} ;;\n");
        assert(out@ =~= before + zsh_status_case(status@, template@));
        i = i + 1;
    }
    assert(spec_statuses().take(n as int) =~= spec_statuses());
    out
}

/// The zsh `case` branches that set each status's template and count.
pub fn zsh_status_template_cases(git: &Span, icons_toml: &str) -> (r: Result<String, GenerateError>)
    ensures
        match toml_document(icons_toml@) {
            Some(root) => r matches Ok(s) && s@ == zsh_status_cases(*git, root, spec_statuses()),
            None => r matches Err(GenerateError::IconsParse),
        },
{
    let icons = default_icons(icons_toml)?;
    Ok(zsh_status_template_cases_with(git, &icons))
}

/// The `name: "template"` entries of the Nushell status record for the
/// statuses `names`, separated by `, `.
pub open spec fn nu_status_entries(git: Span, root: Seq<(String, TomlValue)>, names: Seq<Seq<char>>) -> Seq<char>
    decreases names.len(),
{
    if names.len() == 0 {
        seq![]
    } else {
        nu_status_entries(git, root, names.drop_last()) + (if names.len() > 1 {
            seq![',', ' ']
        } else {
            seq![]
        }) + names.last() + seq![':', ' '] + spec_nu_string(
            spec_status_template_text(git, names.last(), root),
        )
    }
}

/// The Nushell record mapping each status to its template, given the parsed
/// icon document.
pub fn nu_status_templates_with(git: &Span, icons: &TomlValue) -> (r: String)
    ensures
        r@ == seq!['{'] + nu_status_entries(*git, icons.table_entries(), spec_statuses()) + seq!['}'],
{
    let names = statuses();
    let n = names.len();
    let mut out = String::new();
    push_char(&mut out, '{');
    let mut i: usize = 0;
    assert(spec_statuses().take(0) =~= seq![]);
    while i < n
        invariant
            n == names@.len(),
            n == spec_statuses().len(),
            forall|k: int| 0 <= k < names@.len() ==> #[trigger] names@[k]@ == spec_statuses()[k],
            i <= n,
            out@ == seq!['{'] + nu_status_entries(*git, icons.table_entries(), spec_statuses().take(i as int)),
        decreases n - i,
    {
        let status = names[i];
        assert(spec_statuses().take(i + 1).drop_last() =~= spec_statuses().take(i as int));
        assert(spec_statuses().take(i + 1).last() == status@);
        let ghost before = out@;
        if i > 0 {
            push_char(&mut out, ',');
            push_char(&mut out, ' ');
        }
        let template = status_template_with(git, status, icons);
        push_str(&mut out, status);
        push_char(&mut out, ':');
        push_char(&mut out, ' ');
        push_str(&mut out, nu_string(template.as_str()).as_str());
        assert(out@ =~= seq!['{'] + nu_status_entries(*git, icons.table_entries(), spec_statuses().take(i + 1)));
        i = i + 1;
    }
    assert(spec_statuses().take(n as int) =~= spec_statuses());
    push_char(&mut out, '}');
    out
}

/// The Nushell record mapping each status to its template.
pub fn nu_status_templates(git: &Span, icons_toml: &str) -> (r: Result<String, GenerateError>)
    ensures
        match toml_document(icons_toml@) {
            Some(root) => r matches Ok(s) && s@ == seq!['{'] + nu_status_entries(*git, root, spec_statuses())
                + seq!['}'],
            None => r matches Err(GenerateError::IconsParse),
        },
{
    let icons = default_icons(icons_toml)?;
    Ok(nu_status_templates_with(git, &icons))
}

} // verus!

verus! {

/// One zsh `case` line per string entry of an icon table:
/// `      name<mid>'icon' ;;`.
pub open spec fn zsh_table_cases(entries: Seq<(String, TomlValue)>, mid: Seq<char>) -> Seq<char>
    decreases entries.len(),
{
    if entries.len() == 0 {
        seq![]
    } else {
        let prev = zsh_table_cases(entries.drop_last(), mid);
        match entries.last().1.spec_as_str() {
            Some(icon) => prev + "      "@ + entries.last().0@ + mid + spec_shell_single_quote(icon)
                + " ;;\n"@,
            None => prev,
        }
    }
}

fn zsh_cases_for(table: &Vec<(String, TomlValue)>, mid: &str) -> (r: String)
    ensures
        r@ == zsh_table_cases(table@, mid@),
{
    let n = table.len();
    let mut out = String::new();
    let mut i: usize = 0;
    assert(table@.take(0) =~= seq![]);
    while i < n
        invariant
            n == table@.len(),
            i <= n,
            out@ == zsh_table_cases(table@.take(i as int), mid@),
        decreases n - i,
    {
        assert(table@.take(i + 1).drop_last() =~= table@.take(i as int));
        assert(table@.take(i + 1).last() == table@[i as int]);
        let (name, value) = &table[i];
        match value.as_str() {
            Some(icon) => {
                let ghost before = out@;
                push_str(&mut out, "      ");
                push_str(&mut out, name.as_str());
                push_str(&mut out, mid);
                push_str(&mut out, shell_single_quote(icon).as_str());
                push_str(&mut out, " ;;\n");
                assert(out@ =~= before + "      "@ + name@ + mid@ + spec_shell_single_quote(icon@) + " ;;\n"@);
            },
            None => {},
        }
        i = i + 1;
    }
    assert(table@.take(n as int) =~= table@);
    out
}

/// The zsh `case` branches that print each operating system's icon, given the
/// parsed icon document.
pub fn zsh_os_icon_cases_with(icons: &TomlValue) -> (r: Result<String, GenerateError>)
    ensures
        match doc_table(icons.table_entries(), "os"@, "nerdfont"@) {
            Some(t) => r matches Ok(s) && s@ == zsh_table_cases(t, ") print -r -- "@),
            None => r matches Err(GenerateError::MissingOsIcons),
        },
{
    match icon_table(icons, "os", "nerdfont") {
        Some(table) => Ok(zsh_cases_for(table, ") print -r -- ")),
        None => Err(GenerateError::MissingOsIcons),
    }
}

/// The zsh `case` branches that print each operating system's icon.
pub fn zsh_os_icon_cases(icons_toml: &str) -> (r: Result<String, GenerateError>)
    ensures
        toml_document(icons_toml@) matches Some(root) ==> entries_ordered(root),
        match toml_document(icons_toml@) {
            Some(root) => match doc_table(root, "os"@, "nerdfont"@) {
                Some(t) => r matches Ok(s) && s@ == zsh_table_cases(t, ") print -r -- "@),
                None => r matches Err(GenerateError::MissingOsIcons),
            },
            None => r matches Err(GenerateError::IconsParse),
        },
{
    let icons = default_icons(icons_toml)?;
    zsh_os_icon_cases_with(&icons)
}

/// The quoted icon for an unknown operating system, given the parsed icon document.
pub fn zsh_os_unknown_icon_with(icons: &TomlValue) -> (r: String)
    ensures
        r@ == spec_shell_single_quote(or_empty(doc_icon(icons.table_entries(), "os"@, "nerdfont"@, "unknown"@))),
{
    let icon = match icon(icons, "os", "nerdfont", "unknown") {
        Some(i) => i,
        None => "",
    };
    proof {
        reveal_strlit("");
        assert(""@ =~= seq![]);
    }
    shell_single_quote(icon)
}

/// The quoted icon for an unknown operating system (`os.nerdfont.unknown`,
/// or nothing).
pub fn zsh_os_unknown_icon(icons_toml: &str) -> (r: Result<String, GenerateError>)
    ensures
        match toml_document(icons_toml@) {
            Some(root) => r matches Ok(s) && s@ == spec_shell_single_quote(
                or_empty(doc_icon(root, "os"@, "nerdfont"@, "unknown"@)),
            ),
            None => r matches Err(GenerateError::IconsParse),
        },
{
    let icons = default_icons(icons_toml)?;
    Ok(zsh_os_unknown_icon_with(&icons))
}

/// The zsh `case` branches that set each Git host's upstream icon, given the
/// parsed icon document.
pub fn zsh_upstream_icon_cases_with(icons: &TomlValue) -> (r: Result<String, GenerateError>)
    ensures
        match doc_table(icons.table_entries(), "git_upstream"@, "nerdfont"@) {
            Some(t) => r matches Ok(s) && s@ == zsh_table_cases(t, ") upstream_icon="@),
            None => r matches Err(GenerateError::MissingUpstreamIcons),
        },
{
    match icon_table(icons, "git_upstream", "nerdfont") {
        Some(table) => Ok(zsh_cases_for(table, ") upstream_icon=")),
        None => Err(GenerateError::MissingUpstreamIcons),
    }
}

/// The zsh `case` branches that set each Git host's upstream icon.
pub fn zsh_upstream_icon_cases(icons_toml: &str) -> (r: Result<String, GenerateError>)
    ensures
        toml_document(icons_toml@) matches Some(root) ==> entries_ordered(root),
        match toml_document(icons_toml@) {
            Some(root) => match doc_table(root, "git_upstream"@, "nerdfont"@) {
                Some(t) => r matches Ok(s) && s@ == zsh_table_cases(t, ") upstream_icon="@),
                None => r matches Err(GenerateError::MissingUpstreamIcons),
            },
            None => r matches Err(GenerateError::IconsParse),
        },
{
    let icons = default_icons(icons_toml)?;
    zsh_upstream_icon_cases_with(&icons)
}

/// The `name: "icon"` entries of a Nushell record for the string entries of
/// an icon table; an entry after the table's first position is preceded by
/// `, ` (positions count every entry of the table).
pub open spec fn nu_record_entries(entries: Seq<(String, TomlValue)>) -> Seq<char>
    decreases entries.len(),
{
    if entries.len() == 0 {
        seq![]
    } else {
        let prev = nu_record_entries(entries.drop_last());
        match entries.last().1.spec_as_str() {
            Some(icon) => prev + (if entries.len() > 1 {
                seq![',', ' ']
            } else {
                seq![]
            }) + entries.last().0@ + seq![':', ' '] + spec_nu_string(icon),
            None => prev,
        }
    }
}

/// The Nushell record mapping each Git host to its upstream icon, given the
/// parsed icon document.
pub fn nu_upstream_icons_with(icons: &TomlValue) -> (r: Result<String, GenerateError>)
    ensures
        match doc_table(icons.table_entries(), "git_upstream"@, "nerdfont"@) {
            Some(t) => r matches Ok(s) && s@ == seq!['{'] + nu_record_entries(t) + seq!['}'],
            None => r matches Err(GenerateError::MissingUpstreamIcons),
        },
{
    let table = match icon_table(icons, "git_upstream", "nerdfont") {
        Some(t) => t,
        None => {
            return Err(GenerateError::MissingUpstreamIcons);
        },
    };
    let n = table.len();
    let mut out = String::new();
    push_char(&mut out, '{');
    let mut i: usize = 0;
    assert(table@.take(0) =~= seq![]);
    while i < n
        invariant
            n == table@.len(),
            i <= n,
            out@ == seq!['{'] + nu_record_entries(table@.take(i as int)),
        decreases n - i,
    {
        assert(table@.take(i + 1).drop_last() =~= table@.take(i as int));
        assert(table@.take(i + 1).last() == table@[i as int]);
        let (name, value) = &table[i];
        match value.as_str() {
            Some(icon) => {
                let ghost before = out@;
                if i > 0 {
                    push_char(&mut out, ',');
                    push_char(&mut out, ' ');
                }
                push_str(&mut out, name.as_str());
                push_char(&mut out, ':');
                push_char(&mut out, ' ');
                push_str(&mut out, nu_string(icon).as_str());
                assert(out@ =~= seq!['{'] + nu_record_entries(table@.take(i + 1)));
            },
            None => {},
        }
        i = i + 1;
    }
    assert(table@.take(n as int) =~= table@);
    push_char(&mut out, '}');
    Ok(out)
}

/// The Nushell record mapping each Git host to its upstream icon.
pub fn nu_upstream_icons(icons_toml: &str) -> (r: Result<String, GenerateError>)
    ensures
        toml_document(icons_toml@) matches Some(root) ==> entries_ordered(root),
        match toml_document(icons_toml@) {
            Some(root) => match doc_table(root, "git_upstream"@, "nerdfont"@) {
                Some(t) => r matches Ok(s) && s@ == seq!['{'] + nu_record_entries(t) + seq!['}'],
                None => r matches Err(GenerateError::MissingUpstreamIcons),
            },
            None => r matches Err(GenerateError::IconsParse),
        },
{
    let icons = default_icons(icons_toml)?;
    nu_upstream_icons_with(&icons)
}

/// The `(name, icon)` pairs of the string entries of an icon table, in order.
pub open spec fn string_pairs(entries: Seq<(String, TomlValue)>) -> Seq<(Seq<char>, Seq<char>)>
    decreases entries.len(),
{
    if entries.len() == 0 {
        seq![]
    } else {
        let prev = string_pairs(entries.drop_last());
        match entries.last().1.spec_as_str() {
            Some(icon) => prev.push((entries.last().0@, icon)),
            None => prev,
        }
    }
}

/// No two pairs share a name.
pub open spec fn pair_names_distinct(p: Seq<(Seq<char>, Seq<char>)>) -> bool {
    forall|i: int, j: int| 0 <= i < j < p.len() ==> p[i].0 != p[j].0
}

/// Some entry of `t` is named `k` and holds the string `x`.
pub open spec fn has_string_entry(t: Seq<(String, TomlValue)>, k: Seq<char>, x: Seq<char>) -> bool {
    exists|i: int| 0 <= i < t.len() && t[i].0@ == k && #[trigger] t[i].1.spec_as_str() == Some(x)
}

/// The pairs are exactly the string entries of the table, and their names are
/// distinct when the table's keys are.
proof fn lemma_string_pairs(t: Seq<(String, TomlValue)>)
    ensures
        forall|k: Seq<char>, x: Seq<char>| #[trigger] string_pairs(t).contains((k, x)) <==> has_string_entry(t, k, x),
        keys_distinct(t) ==> pair_names_distinct(string_pairs(t)),
    decreases t.len(),
{
    if t.len() > 0 {
        let p = t.drop_last();
        let prev = string_pairs(p);
        let sp = string_pairs(t);
        lemma_string_pairs(p);
        assert forall|k: Seq<char>, x: Seq<char>| #[trigger] sp.contains((k, x)) <==> has_string_entry(t, k, x) by {
            if sp.contains((k, x)) {
                let j = choose|j: int| 0 <= j < sp.len() && sp[j] == (k, x);
                if j < prev.len() {
                    assert(sp[j] == prev[j]);
                    assert(prev.contains((k, x)));
                    let i = choose|i: int| 0 <= i < p.len() && p[i].0@ == k && #[trigger] p[i].1.spec_as_str() == Some(x);
                    assert(t[i] == p[i]);
                } else {
                    let i = t.len() - 1;
                    assert(t[i].1.spec_as_str() == Some(x));
                }
            }
            if has_string_entry(t, k, x) {
                let i = choose|i: int| 0 <= i < t.len() && t[i].0@ == k && #[trigger] t[i].1.spec_as_str() == Some(x);
                if i < t.len() - 1 {
                    assert(p[i] == t[i]);
                    assert(p[i].1.spec_as_str() == Some(x));
                    assert(has_string_entry(p, k, x));
                    assert(prev.contains((k, x)));
                    let j = choose|j: int| 0 <= j < prev.len() && prev[j] == (k, x);
                    assert(sp[j] == prev[j]);
                } else {
                    assert(sp[prev.len() as int] == (k, x));
                }
            }
        }
        if keys_distinct(t) {
            assert forall|a: int, b: int| 0 <= a < b < p.len() implies p[a].0@ != p[b].0@ by {
                assert(p[a] == t[a] && p[b] == t[b]);
            }
            assert forall|a: int, b: int| 0 <= a < b < sp.len() implies sp[a].0 != sp[b].0 by {
                if b < prev.len() {
                    assert(sp[a] == prev[a] && sp[b] == prev[b]);
                } else {
                    assert(sp[a] == prev[a]);
                    assert(prev.contains(prev[a]));
                    let k = prev[a].0;
                    let x = prev[a].1;
                    assert(prev.contains((k, x)));
                    let i = choose|i: int| 0 <= i < p.len() && p[i].0@ == k && #[trigger] p[i].1.spec_as_str() == Some(x);
                    assert(t[i] == p[i]);
                    assert(t[i].0@ != t[t.len() - 1].0@);
                }
            }
        }
    }
}

/// In an icon document whose tables have distinct keys, the string entries of table `set` of
/// group `group` are exactly the icons that `doc_icon` finds there.
proof fn lemma_doc_icon_entries(icons: TomlValue, group: Seq<char>, set: Seq<char>)
    requires
        keys_ordered(icons),
    ensures
        doc_table(icons.table_entries(), group, set) matches Some(t) ==> {
            &&& keys_distinct(t)
            &&& forall|k: Seq<char>, x: Seq<char>|
                doc_icon(icons.table_entries(), group, set, k) == Some(x) <==> #[trigger] has_string_entry(t, k, x)
        },
{
    if let Some(t) = doc_table(icons.table_entries(), group, set) {
        let root = icons.table_entries();
        assert(icons is Table);
        let g = entries_get(root, group).unwrap();
        assert(icons.spec_get(group) == Some(g));
        lemma_get_keeps_order(icons, group);
        let sv = g.spec_get(set).unwrap();
        lemma_get_keeps_order(g, set);
        assert(sv.spec_as_table() == Some(t));
        reveal_with_fuel(keys_ordered, 2);
        assert(keys_distinct(t));
        assert forall|k: Seq<char>, x: Seq<char>|
            doc_icon(root, group, set, k) == Some(x) <==> #[trigger] has_string_entry(t, k, x) by {
            lemma_entries_get_found(t, k);
            if doc_icon(root, group, set, k) == Some(x) {
                let y = entries_get(t, k).unwrap();
                let i = choose|i: int| 0 <= i < t.len() && t[i].0@ == k && #[trigger] t[i].1 == y;
                assert(t[i].1.spec_as_str() == Some(x));
            }
            if has_string_entry(t, k, x) {
                let i = choose|i: int| 0 <= i < t.len() && t[i].0@ == k && #[trigger] t[i].1.spec_as_str() == Some(x);
                lemma_entries_get_distinct(t, k, i);
            }
        }
    }
}

/// Law: in an icon document whose tables list their keys in ascending order,
/// so does every table found by group and set.
pub proof fn doc_tables_are_ordered(root: Seq<(String, TomlValue)>, group: Seq<char>, set: Seq<char>)
    requires
        entries_ordered(root),
    ensures
        doc_table(root, group, set) matches Some(t) ==> entries_ordered(t),
{
    lemma_entries_get_found(root, group);
    if let Some(g) = entries_get(root, group) {
        let i = choose|i: int| 0 <= i < root.len() && root[i].0@ == group && #[trigger] root[i].1 == g;
        assert(keys_ordered(root[i].1));
        lemma_get_keeps_order(g, set);
        if let Some(sv) = g.spec_get(set) {
            reveal_with_fuel(keys_ordered, 2);
            assert(keys_ordered(sv));
        }
    }
}

/// No pair's name sorts after a later pair's name.
pub open spec fn pair_names_ascending(p: Seq<(Seq<char>, Seq<char>)>) -> bool {
    forall|i: int, j: int| 0 <= i < j < p.len() ==> key_less(p[i].0, p[j].0)
}

/// The pairs of a table with ascending keys have ascending names.
proof fn lemma_string_pairs_ascending(t: Seq<(String, TomlValue)>)
    requires
        keys_ascending(t),
    ensures
        pair_names_ascending(string_pairs(t)),
    decreases t.len(),
{
    if t.len() > 0 {
        let p = t.drop_last();
        let prev = string_pairs(p);
        let sp = string_pairs(t);
        assert forall|a: int, b: int| 0 <= a < b < p.len() implies key_less(p[a].0@, p[b].0@) by {
            assert(p[a] == t[a] && p[b] == t[b]);
        }
        lemma_string_pairs_ascending(p);
        lemma_string_pairs(p);
        assert forall|a: int, b: int| 0 <= a < b < sp.len() implies key_less(sp[a].0, sp[b].0) by {
            if b < prev.len() {
                assert(sp[a] == prev[a] && sp[b] == prev[b]);
            } else {
                assert(sp[a] == prev[a]);
                let k = prev[a].0;
                let x = prev[a].1;
                assert(prev.contains((k, x)));
                let i = choose|i: int| 0 <= i < p.len() && p[i].0@ == k && #[trigger] p[i].1.spec_as_str() == Some(x);
                assert(t[i] == p[i]);
                assert(key_less(t[i].0@, t[t.len() - 1].0@));
            }
        }
    }
}

/// The texts of a list of string pairs.
pub open spec fn pairs_view(v: Seq<(String, String)>) -> Seq<(Seq<char>, Seq<char>)> {
    v.map_values(|p: (String, String)| (p.0@, p.1@))
}

/// The `(name, icon)` pairs of table `set` of group `group`, given the parsed
/// icon document.
pub fn icon_pairs_with(icons: &TomlValue, group: &str, set: &str) -> (r: Result<Vec<(String, String)>, GenerateError>)
    ensures
        match doc_table(icons.table_entries(), group@, set@) {
            Some(t) => r matches Ok(v) && pairs_view(v@) == string_pairs(t),
            None => r matches Err(GenerateError::MissingIconTable),
        },
        keys_ordered(*icons) ==> (r matches Ok(v) ==> {
            &&& pair_names_distinct(pairs_view(v@))
            &&& pair_names_ascending(pairs_view(v@))
            &&& forall|k: Seq<char>, x: Seq<char>| #[trigger] pairs_view(v@).contains((k, x))
                <==> doc_icon(icons.table_entries(), group@, set@, k) == Some(x)
        }),
{
    let table = match icon_table(icons, group, set) {
        Some(t) => t,
        None => {
            return Err(GenerateError::MissingIconTable);
        },
    };
    let n = table.len();
    let mut pairs: Vec<(String, String)> = Vec::new();
    let mut i: usize = 0;
    assert(table@.take(0) =~= seq![]);
    assert(pairs_view(pairs@) =~= seq![]);
    while i < n
        invariant
            n == table@.len(),
            i <= n,
            pairs_view(pairs@) == string_pairs(table@.take(i as int)),
        decreases n - i,
    {
        assert(table@.take(i + 1).drop_last() =~= table@.take(i as int));
        assert(table@.take(i + 1).last() == table@[i as int]);
        let (name, value) = &table[i];
        match value.as_str() {
            Some(icon) => {
                let ghost before = pairs@;
                pairs.push((name.as_str().to_owned(), icon.to_owned()));
                assert(pairs_view(pairs@) =~= pairs_view(before).push((name@, icon@)));
            },
            None => {},
        }
        i = i + 1;
    }
    assert(table@.take(n as int) =~= table@);
    proof {
        lemma_string_pairs(table@);
        if keys_ordered(*icons) {
            lemma_doc_icon_entries(*icons, group@, set@);
            if let Some(t) = doc_table(icons.table_entries(), group@, set@) {
                reveal_with_fuel(keys_ordered, 2);
                doc_tables_are_ordered(icons.table_entries(), group@, set@);
                lemma_string_pairs_ascending(t);
            }
        }
    }
    Ok(pairs)
}

/// The `(name, icon)` pairs of table `set` of group `group` of the icon document.
pub fn icon_pairs(group: &str, set: &str, icons_toml: &str) -> (r: Result<Vec<(String, String)>, GenerateError>)
    ensures
        toml_document(icons_toml@) matches Some(root) ==> entries_ordered(root),
        match toml_document(icons_toml@) {
            Some(root) => match doc_table(root, group@, set@) {
                Some(t) => r matches Ok(v) && pairs_view(v@) == string_pairs(t),
                None => r matches Err(GenerateError::MissingIconTable),
            },
            None => r matches Err(GenerateError::IconsParse),
        },
        r matches Ok(v) ==> pair_names_distinct(pairs_view(v@)) && pair_names_ascending(pairs_view(v@)),
        toml_document(icons_toml@) matches Some(root) ==> (r matches Ok(v) ==> forall|k: Seq<char>, x: Seq<char>|
            #[trigger] pairs_view(v@).contains((k, x)) <==> doc_icon(root, group@, set@, k) == Some(x)),
{
    let icons = default_icons(icons_toml)?;
    icon_pairs_with(&icons, group, set)
}

} // verus!

verus! {

/// The byte length of an entry's name (what `String::len` gives).
pub open spec fn name_len(e: (String, TomlValue)) -> usize {
    vstd::utf8::encode_utf8(e.0@).len() as usize
}

/// Where a stable sort by descending name length puts `x` into the already
/// sorted `s`: before the first entry (at `from` or later) with a shorter name.
pub open spec fn insert_position(s: Seq<(String, TomlValue)>, x: (String, TomlValue), from: int) -> int
    decreases s.len() - from,
{
    if from < 0 || from >= s.len() {
        s.len() as int
    } else if name_len(s[from]) < name_len(x) {
        from
    } else {
        insert_position(s, x, from + 1)
    }
}

/// `entries` sorted by descending name length; entries with names of equal
/// length keep their order (as `sort_by_key` with `Reverse(name.len())` does).
pub open spec fn sort_by_name_length(entries: Seq<(String, TomlValue)>) -> Seq<(String, TomlValue)>
    decreases entries.len(),
{
    if entries.len() == 0 {
        entries
    } else {
        let p = sort_by_name_length(entries.drop_last());
        p.insert(insert_position(p, entries.last(), 0), entries.last())
    }
}

/// The entries of a list of references.
pub open spec fn refs_view(v: Seq<&(String, TomlValue)>) -> Seq<(String, TomlValue)> {
    v.map_values(|r: &(String, TomlValue)| *r)
}

/// The table's entries sorted by descending name length, stably.
fn sorted_by_name_length(table: &Vec<(String, TomlValue)>) -> (r: Vec<&(String, TomlValue)>)
    ensures
        refs_view(r@) == sort_by_name_length(table@),
{
    let n = table.len();
    let mut sorted: Vec<&(String, TomlValue)> = Vec::new();
    let mut i: usize = 0;
    assert(table@.take(0) =~= seq![]);
    assert(refs_view(sorted@) =~= seq![]);
    while i < n
        invariant
            n == table@.len(),
            i <= n,
            refs_view(sorted@) == sort_by_name_length(table@.take(i as int)),
        decreases n - i,
    {
        let e = &table[i];
        let k = e.0.as_str().len();
        let ghost p = refs_view(sorted@);
        assert(table@.take(i + 1).drop_last() =~= table@.take(i as int));
        assert(table@.take(i + 1).last() == *e);
        let m = sorted.len();
        let mut j: usize = 0;
        assert(insert_position(p, *e, 0) == insert_position(p, *e, j as int));
        while j < m && !(sorted[j].0.as_str().len() < k)
            invariant
                m == sorted@.len(),
                p == refs_view(sorted@),
                k == name_len(*e),
                j <= m,
                insert_position(p, *e, 0) == insert_position(p, *e, j as int),
            decreases m - j,
        {
            assert(p[j as int] == *sorted@[j as int]);
            j = j + 1;
        }
        proof {
            if j < m {
                assert(p[j as int] == *sorted@[j as int]);
            }
        }
        assert(insert_position(p, *e, 0) == j);
        sorted.insert(j, e);
        assert(refs_view(sorted@) =~= p.insert(j as int, *e));
        i = i + 1;
    }
    assert(table@.take(n as int) =~= table@);
    sorted
}

} // verus!

verus! {

/// The `(name, icon)` pairs that become branches of the Nushell OS icon
/// condition: string entries, except the one named `unknown`, in order.
pub open spec fn os_branch_entries(s: Seq<(String, TomlValue)>) -> Seq<(Seq<char>, Seq<char>)>
    decreases s.len(),
{
    if s.len() == 0 {
        seq![]
    } else {
        let prev = os_branch_entries(s.drop_last());
        let e = s.last();
        if e.0@ == "unknown"@ {
            prev
        } else {
            match e.1.spec_as_str() {
                Some(icon) => prev.push((e.0@, icon)),
                None => prev,
            }
        }
    }
}

/// The chain `if ($os | str contains "name") { "icon" } else if ...` over
/// `branches`, in order.
pub open spec fn nu_os_chain(branches: Seq<(Seq<char>, Seq<char>)>) -> Seq<char>
    decreases branches.len(),
{
    if branches.len() == 0 {
        seq![]
    } else {
        nu_os_chain(branches.drop_last()) + (if branches.len() == 1 {
            "if ($os | str contains "@
        } else {
            " else if ($os | str contains "@
        }) + spec_nu_string(branches.last().0) + ") { "@ + spec_nu_string(branches.last().1) + " }"@
    }
}

/// The Nushell expression that picks the icon of the operating system `$os`
/// from the `os.nerdfont` table `table`: names are tried longest first (by
/// bytes, ties in table order), and `unknown` is the fallback.
pub open spec fn nu_os_conditions(table: Seq<(String, TomlValue)>, unknown: Seq<char>) -> Seq<char> {
    nu_os_chain(os_branch_entries(sort_by_name_length(table))) + " else { "@ + spec_nu_string(unknown)
        + " }"@
}

/// The Nushell expression that picks the icon of the operating system `$os`,
/// given the parsed icon document.
pub fn nu_os_icon_conditions_with(icons: &TomlValue) -> (r: Result<String, GenerateError>)
    ensures
        match doc_table(icons.table_entries(), "os"@, "nerdfont"@) {
            Some(t) => r matches Ok(s) && s@ == nu_os_conditions(
                t,
                or_empty(doc_icon(icons.table_entries(), "os"@, "nerdfont"@, "unknown"@)),
            ),
            None => r matches Err(GenerateError::MissingOsIcons),
        },
{
    let table = match icon_table(icons, "os", "nerdfont") {
        Some(t) => t,
        None => {
            return Err(GenerateError::MissingOsIcons);
        },
    };
    let unknown = match icon(icons, "os", "nerdfont", "unknown") {
        Some(i) => i,
        None => "",
    };
    proof {
        reveal_strlit("");
        assert(""@ =~= seq![]);
    }
    let sorted = sorted_by_name_length(table);
    let ghost sv = refs_view(sorted@);
    let n = sorted.len();
    let mut out = String::new();
    let mut first = true;
    let mut i: usize = 0;
    assert(sv.take(0) =~= seq![]);
    while i < n
        invariant
            n == sorted@.len(),
            sv == refs_view(sorted@),
            i <= n,
            out@ == nu_os_chain(os_branch_entries(sv.take(i as int))),
            first == (os_branch_entries(sv.take(i as int)).len() == 0),
        decreases n - i,
    {
        let (name, value) = sorted[i];
        assert(sv.take(i + 1).drop_last() =~= sv.take(i as int));
        assert(sv.take(i + 1).last() == *sorted[i as int]);
        let ghost prev = os_branch_entries(sv.take(i as int));
        if !crate::text::str_eq(name.as_str(), "unknown") {
            match value.as_str() {
                Some(icon) => {
                    let ghost before = out@;
                    if first {
                        push_str(&mut out, "if ($os | str contains ");
                        first = false;
                    } else {
                        push_str(&mut out, " else if ($os | str contains ");
                    }
                    push_str(&mut out, nu_string(name.as_str()).as_str());
                    push_str(&mut out, ") { ");
                    push_str(&mut out, nu_string(icon).as_str());
                    push_str(&mut out, " }");
                    assert(os_branch_entries(sv.take(i + 1)) == prev.push((name@, icon@)));
                    assert(prev.push((name@, icon@)).drop_last() =~= prev);
                    assert(out@ =~= nu_os_chain(os_branch_entries(sv.take(i + 1))));
                },
                None => {},
            }
        }
        i = i + 1;
    }
    assert(sv.take(n as int) =~= sv);
    push_str(&mut out, " else { ");
    push_str(&mut out, nu_string(unknown).as_str());
    push_str(&mut out, " }");
    Ok(out)
}

/// The Nushell expression that picks the icon of the operating system `$os`.
pub fn nu_os_icon_conditions(icons_toml: &str) -> (r: Result<String, GenerateError>)
    ensures
        toml_document(icons_toml@) matches Some(root) ==> entries_ordered(root),
        match toml_document(icons_toml@) {
            Some(root) => match doc_table(root, "os"@, "nerdfont"@) {
                Some(t) => r matches Ok(s) && s@ == nu_os_conditions(
                    t,
                    or_empty(doc_icon(root, "os"@, "nerdfont"@, "unknown"@)),
                ),
                None => r matches Err(GenerateError::MissingOsIcons),
            },
            None => r matches Err(GenerateError::IconsParse),
        },
{
    let icons = default_icons(icons_toml)?;
    nu_os_icon_conditions_with(&icons)
}

} // verus!

verus! {

/// The entries of `s` whose name is `len` bytes long, in order.
pub open spec fn entries_of_len(s: Seq<(String, TomlValue)>, len: usize) -> Seq<(String, TomlValue)>
    decreases s.len(),
{
    if s.len() == 0 {
        seq![]
    } else if name_len(s.last()) == len {
        entries_of_len(s.drop_last(), len).push(s.last())
    } else {
        entries_of_len(s.drop_last(), len)
    }
}

/// Name lengths do not increase along `s`.
pub open spec fn descending_name_lengths(s: Seq<(String, TomlValue)>) -> bool {
    forall|i: int, j: int| 0 <= i < j < s.len() ==> name_len(#[trigger] s[i]) >= name_len(#[trigger] s[j])
}

proof fn lemma_entries_of_len_concat(a: Seq<(String, TomlValue)>, b: Seq<(String, TomlValue)>, len: usize)
    ensures
        entries_of_len(a + b, len) == entries_of_len(a, len) + entries_of_len(b, len),
    decreases b.len(),
{
    if b.len() == 0 {
        assert(a + b =~= a);
        assert(entries_of_len(a, len) + entries_of_len(b, len) =~= entries_of_len(a, len));
    } else {
        assert((a + b).drop_last() =~= a + b.drop_last());
        assert((a + b).last() == b.last());
        lemma_entries_of_len_concat(a, b.drop_last(), len);
        if name_len(b.last()) == len {
            assert(entries_of_len(a + b, len) =~= entries_of_len(a, len) + entries_of_len(b, len));
        } else {
            assert(entries_of_len(a + b, len) =~= entries_of_len(a, len) + entries_of_len(b, len));
        }
    }
}

proof fn lemma_entries_of_len_none(s: Seq<(String, TomlValue)>, len: usize)
    requires
        forall|k: int| 0 <= k < s.len() ==> name_len(#[trigger] s[k]) < len,
    ensures
        entries_of_len(s, len) == Seq::<(String, TomlValue)>::empty(),
    decreases s.len(),
{
    if s.len() > 0 {
        assert(name_len(s[s.len() - 1]) < len);
        lemma_entries_of_len_none(s.drop_last(), len);
    }
}

proof fn lemma_insert_position(s: Seq<(String, TomlValue)>, x: (String, TomlValue), from: int)
    requires
        0 <= from <= s.len(),
    ensures
        from <= insert_position(s, x, from) <= s.len(),
        forall|k: int| from <= k < insert_position(s, x, from) ==> name_len(#[trigger] s[k]) >= name_len(x),
        insert_position(s, x, from) < s.len() ==> name_len(s[insert_position(s, x, from)]) < name_len(x),
    decreases s.len() - from,
{
    if from < s.len() && !(name_len(s[from]) < name_len(x)) {
        lemma_insert_position(s, x, from + 1);
    }
}

proof fn lemma_sort_step(p: Seq<(String, TomlValue)>, x: (String, TomlValue))
    requires
        descending_name_lengths(p),
    ensures
        ({
            let pos = insert_position(p, x, 0);
            &&& 0 <= pos <= p.len()
            &&& forall|k: int| 0 <= k < pos ==> name_len(#[trigger] p[k]) >= name_len(x)
            &&& forall|k: int| pos <= k < p.len() ==> name_len(#[trigger] p[k]) < name_len(x)
            &&& descending_name_lengths(p.insert(pos, x))
        }),
{
    let pos = insert_position(p, x, 0);
    lemma_insert_position(p, x, 0);
    assert forall|k: int| pos <= k < p.len() implies name_len(#[trigger] p[k]) < name_len(x) by {
        if k > pos {
            assert(name_len(p[pos]) >= name_len(p[k]));
        }
    }
    let r = p.insert(pos, x);
    p.insert_ensures(pos, x);
    assert forall|i: int, j: int| 0 <= i < j < r.len() implies name_len(#[trigger] r[i]) >= name_len(#[trigger] r[j]) by {
        if i < pos {
            if j < pos {
                assert(r[j] == p[j]);
            } else if j == pos {
            } else {
                assert(r[j] == p[j - 1]);
            }
        } else if i == pos {
            assert(r[j] == p[j - 1]);
        } else {
            assert(r[i] == p[i - 1]);
            assert(r[j] == p[j - 1]);
        }
    }
}

/// Law: the order in which `nu_os_icon_conditions` tries OS names is a
/// stable sort by descending byte length: it holds the same entries, no name
/// is followed by a longer one, and names of equal length keep their order.
pub proof fn sort_by_name_length_is_stable_descending(entries: Seq<(String, TomlValue)>)
    ensures
        sort_by_name_length(entries).to_multiset() == entries.to_multiset(),
        descending_name_lengths(sort_by_name_length(entries)),
        forall|len: usize| #[trigger] entries_of_len(sort_by_name_length(entries), len) == entries_of_len(entries, len),
    decreases entries.len(),
{
    if entries.len() == 0 {
        assert forall|len: usize| #[trigger] entries_of_len(sort_by_name_length(entries), len) == entries_of_len(entries, len) by {}
    } else {
        let rest = entries.drop_last();
        let x = entries.last();
        let p = sort_by_name_length(rest);
        sort_by_name_length_is_stable_descending(rest);
        lemma_sort_step(p, x);
        let pos = insert_position(p, x, 0);
        assert(entries =~= rest.push(x));
        vstd::seq_lib::to_multiset_insert(p, pos, x);
        vstd::seq_lib::to_multiset_build(rest, x);
        assert forall|len: usize| #[trigger] entries_of_len(sort_by_name_length(entries), len) == entries_of_len(entries, len) by {
            let a = p.subrange(0, pos);
            let b = p.subrange(pos, p.len() as int);
            assert(p =~= a + b);
            assert(p.insert(pos, x) =~= a.push(x) + b);
            assert(a.push(x).drop_last() =~= a);
            lemma_entries_of_len_concat(a.push(x), b, len);
            lemma_entries_of_len_concat(a, b, len);
            if name_len(x) == len {
                lemma_entries_of_len_none(b, len);
                assert(entries_of_len(a, len) + entries_of_len(b, len) =~= entries_of_len(a, len));
                assert(entries_of_len(a.push(x), len) + entries_of_len(b, len) =~= entries_of_len(a, len).push(x));
            }
        }
    }
}

} // verus!

verus! {

/// An entry that becomes a branch of the Nushell OS chain: a string icon under
/// a name other than `unknown`.
pub open spec fn is_os_branch(e: (String, TomlValue)) -> bool {
    e.0@ != "unknown"@ && e.1.spec_as_str() is Some
}

/// The entries of `s` that become branches, in order.
pub open spec fn os_branch_candidates(s: Seq<(String, TomlValue)>) -> Seq<(String, TomlValue)>
    decreases s.len(),
{
    if s.len() == 0 {
        seq![]
    } else if is_os_branch(s.last()) {
        os_branch_candidates(s.drop_last()).push(s.last())
    } else {
        os_branch_candidates(s.drop_last())
    }
}

/// The `(name, icon)` pair of a branch entry.
pub open spec fn branch_pair(e: (String, TomlValue)) -> (Seq<char>, Seq<char>) {
    (e.0@, e.1.spec_as_str().unwrap())
}

/// Every name in `s` is at least `l` bytes long.
pub open spec fn all_names_at_least(s: Seq<(String, TomlValue)>, l: usize) -> bool {
    forall|i: int| 0 <= i < s.len() ==> name_len(#[trigger] s[i]) >= l
}

/// Every name in `s` is shorter than `l` bytes.
pub open spec fn all_names_below(s: Seq<(String, TomlValue)>, l: usize) -> bool {
    forall|i: int| 0 <= i < s.len() ==> name_len(#[trigger] s[i]) < l
}

proof fn lemma_candidates_concat(a: Seq<(String, TomlValue)>, b: Seq<(String, TomlValue)>)
    ensures
        os_branch_candidates(a + b) == os_branch_candidates(a) + os_branch_candidates(b),
    decreases b.len(),
{
    if b.len() == 0 {
        assert(a + b =~= a);
        assert(os_branch_candidates(a) + os_branch_candidates(b) =~= os_branch_candidates(a));
    } else {
        lemma_candidates_concat(a, b.drop_last());
        assert((a + b).drop_last() =~= a + b.drop_last());
        assert((a + b).last() == b.last());
        if is_os_branch(b.last()) {
            assert(os_branch_candidates(a) + os_branch_candidates(b) =~= (os_branch_candidates(a)
                + os_branch_candidates(b.drop_last())).push(b.last()));
        }
    }
}

proof fn lemma_candidates_bounds(s: Seq<(String, TomlValue)>, l: usize)
    ensures
        all_names_at_least(s, l) ==> all_names_at_least(os_branch_candidates(s), l),
        all_names_below(s, l) ==> all_names_below(os_branch_candidates(s), l),
    decreases s.len(),
{
    if s.len() > 0 {
        let r = s.drop_last();
        assert(all_names_at_least(s, l) ==> all_names_at_least(r, l)) by {
            if all_names_at_least(s, l) {
                assert forall|i: int| 0 <= i < r.len() implies name_len(#[trigger] r[i]) >= l by {
                    assert(r[i] == s[i]);
                }
            }
        }
        assert(all_names_below(s, l) ==> all_names_below(r, l)) by {
            if all_names_below(s, l) {
                assert forall|i: int| 0 <= i < r.len() implies name_len(#[trigger] r[i]) < l by {
                    assert(r[i] == s[i]);
                }
            }
        }
        lemma_candidates_bounds(r, l);
        assert(name_len(s[s.len() - 1]) == name_len(s.last()));
    }
}

/// Where a stable length sort puts `x` into a descending `s` is the one place
/// that has only names at least as long as `x` before it and only shorter
/// names after it.
proof fn lemma_insert_position_unique(s: Seq<(String, TomlValue)>, x: (String, TomlValue), q: int)
    requires
        0 <= q <= s.len(),
        forall|k: int| 0 <= k < q ==> name_len(#[trigger] s[k]) >= name_len(x),
        forall|k: int| q <= k < s.len() ==> name_len(#[trigger] s[k]) < name_len(x),
    ensures
        insert_position(s, x, 0) == q,
{
    lemma_insert_position(s, x, 0);
    let p = insert_position(s, x, 0);
    if p < q {
        assert(name_len(s[p]) >= name_len(x));
    } else if p > q {
        assert(name_len(s[q]) >= name_len(x));
    }
}

/// The names of the entries before where `x` goes in a descending `p` are at
/// least as long as `x`'s, those from there on are shorter.
proof fn lemma_split_at_insert_position(p: Seq<(String, TomlValue)>, x: (String, TomlValue))
    requires
        descending_name_lengths(p),
    ensures
        ({
            let k = insert_position(p, x, 0);
            &&& 0 <= k <= p.len()
            &&& p =~= p.subrange(0, k) + p.subrange(k, p.len() as int)
            &&& p.insert(k, x) =~= (p.subrange(0, k) + seq![x]) + p.subrange(k, p.len() as int)
            &&& all_names_at_least(p.subrange(0, k), name_len(x))
            &&& all_names_below(p.subrange(k, p.len() as int), name_len(x))
        }),
{
    lemma_sort_step(p, x);
    let k = insert_position(p, x, 0);
    let a = p.subrange(0, k);
    let b = p.subrange(k, p.len() as int);
    assert forall|i: int| 0 <= i < a.len() implies name_len(#[trigger] a[i]) >= name_len(x) by {
        assert(a[i] == p[i]);
    }
    assert forall|i: int| 0 <= i < b.len() implies name_len(#[trigger] b[i]) < name_len(x) by {
        assert(b[i] == p[k + i]);
    }
    assert(p =~= a + b);
    assert(p.insert(k, x) =~= (a + seq![x]) + b);
}

/// The branch entries of a one-entry sequence.
proof fn lemma_candidates_single(x: (String, TomlValue))
    ensures
        os_branch_candidates(seq![x]) == (if is_os_branch(x) {
            seq![x]
        } else {
            Seq::<(String, TomlValue)>::empty()
        }),
{
    let sx: Seq<(String, TomlValue)> = seq![x];
    let none: Seq<(String, TomlValue)> = seq![];
    assert(sx.drop_last() =~= none);
    assert(sx.last() == x);
    assert(os_branch_candidates(none) == none);
    if is_os_branch(x) {
        assert(none.push(x) =~= sx);
    }
}

/// Inserting `x` into a descending `p` and then choosing the branch entries is
/// choosing them first and inserting `x` (when it is a branch) where the
/// stable length sort puts it.
proof fn lemma_candidates_of_insert(p: Seq<(String, TomlValue)>, x: (String, TomlValue))
    requires
        descending_name_lengths(p),
    ensures
        ({
            let f = os_branch_candidates(p);
            os_branch_candidates(p.insert(insert_position(p, x, 0), x)) == (if is_os_branch(x) {
                f.insert(insert_position(f, x, 0), x)
            } else {
                f
            })
        }),
{
    lemma_split_at_insert_position(p, x);
    let k = insert_position(p, x, 0);
    let a = p.subrange(0, k);
    let b = p.subrange(k, p.len() as int);
    let sx: Seq<(String, TomlValue)> = seq![x];
    lemma_candidates_concat(a + sx, b);
    lemma_candidates_concat(a, sx);
    lemma_candidates_concat(a, b);
    lemma_candidates_single(x);
    let fa = os_branch_candidates(a);
    let fb = os_branch_candidates(b);
    if is_os_branch(x) {
        lemma_candidates_bounds(a, name_len(x));
        lemma_candidates_bounds(b, name_len(x));
        let f = fa + fb;
        assert forall|q: int| 0 <= q < fa.len() as int implies name_len(#[trigger] f[q]) >= name_len(x) by {
            assert(f[q] == fa[q]);
        }
        assert forall|q: int| fa.len() as int <= q < f.len() implies name_len(#[trigger] f[q]) < name_len(x) by {
            assert(f[q] == fb[q - fa.len()]);
        }
        lemma_insert_position_unique(f, x, fa.len() as int);
        assert(f.insert(fa.len() as int, x) =~= (fa + sx) + fb);
    } else {
        assert(fa + Seq::<(String, TomlValue)>::empty() =~= fa);
    }
}

/// Choosing the branch entries commutes with the stable length sort.
proof fn lemma_candidates_sort_commute(s: Seq<(String, TomlValue)>)
    ensures
        os_branch_candidates(sort_by_name_length(s)) == sort_by_name_length(os_branch_candidates(s)),
    decreases s.len(),
{
    if s.len() > 0 {
        let r = s.drop_last();
        let x = s.last();
        lemma_candidates_sort_commute(r);
        sort_by_name_length_is_stable_descending(r);
        lemma_candidates_of_insert(sort_by_name_length(r), x);
        if is_os_branch(x) {
            assert(os_branch_candidates(s).drop_last() =~= os_branch_candidates(r));
            assert(os_branch_candidates(s).last() == x);
        }
    }
}

proof fn lemma_branch_entries_are_candidates(s: Seq<(String, TomlValue)>)
    ensures
        os_branch_entries(s) == os_branch_candidates(s).map_values(|e: (String, TomlValue)| branch_pair(e)),
    decreases s.len(),
{
    reveal_strlit("unknown");
    if s.len() > 0 {
        lemma_branch_entries_are_candidates(s.drop_last());
        let c = os_branch_candidates(s.drop_last());
        if is_os_branch(s.last()) {
            assert(c.push(s.last()).map_values(|e: (String, TomlValue)| branch_pair(e))
                =~= c.map_values(|e: (String, TomlValue)| branch_pair(e)).push(branch_pair(s.last())));
        }
    }
}

/// The byte length of a pair's name (what `String::len` gives).
pub open spec fn pair_name_len(p: (Seq<char>, Seq<char>)) -> usize {
    vstd::utf8::encode_utf8(p.0).len() as usize
}

/// Where a stable sort by descending name length puts the pair `x` into the
/// already sorted `s`: before the first pair (at `from` or later) with a
/// shorter name.
pub open spec fn pair_insert_position(s: Seq<(Seq<char>, Seq<char>)>, x: (Seq<char>, Seq<char>), from: int) -> int
    decreases s.len() - from,
{
    if from < 0 || from >= s.len() {
        s.len() as int
    } else if pair_name_len(s[from]) < pair_name_len(x) {
        from
    } else {
        pair_insert_position(s, x, from + 1)
    }
}

/// `pairs` sorted by descending name length; pairs with names of equal length
/// keep their order.
pub open spec fn sort_pairs_by_name_length(pairs: Seq<(Seq<char>, Seq<char>)>) -> Seq<(Seq<char>, Seq<char>)>
    decreases pairs.len(),
{
    if pairs.len() == 0 {
        pairs
    } else {
        let p = sort_pairs_by_name_length(pairs.drop_last());
        p.insert(pair_insert_position(p, pairs.last(), 0), pairs.last())
    }
}

/// The pairs whose name is not `unknown`, in order.
pub open spec fn without_unknown(pairs: Seq<(Seq<char>, Seq<char>)>) -> Seq<(Seq<char>, Seq<char>)>
    decreases pairs.len(),
{
    if pairs.len() == 0 {
        pairs
    } else if pairs.last().0 == "unknown"@ {
        without_unknown(pairs.drop_last())
    } else {
        without_unknown(pairs.drop_last()).push(pairs.last())
    }
}

/// The string pairs other than `unknown` are the branch entries, as pairs.
proof fn lemma_without_unknown_pairs(t: Seq<(String, TomlValue)>)
    ensures
        without_unknown(string_pairs(t)) == os_branch_candidates(t).map_values(|e: (String, TomlValue)| branch_pair(e)),
    decreases t.len(),
{
    if t.len() > 0 {
        let r = t.drop_last();
        let x = t.last();
        lemma_without_unknown_pairs(r);
        let c = os_branch_candidates(r);
        let sp = string_pairs(r);
        match x.1.spec_as_str() {
            Some(icon) => {
                let q = (x.0@, icon);
                assert(sp.push(q).drop_last() =~= sp);
                assert(sp.push(q).last() == q);
                if x.0@ != "unknown"@ {
                    assert(c.push(x).map_values(|e: (String, TomlValue)| branch_pair(e))
                        =~= c.map_values(|e: (String, TomlValue)| branch_pair(e)).push(branch_pair(x)));
                }
            },
            None => {},
        }
    }
}

/// Where `x` goes among entries is where its pair goes among their pairs.
proof fn lemma_pair_insert_position(s: Seq<(String, TomlValue)>, x: (String, TomlValue), from: int)
    requires
        0 <= from <= s.len(),
    ensures
        pair_insert_position(s.map_values(|e: (String, TomlValue)| branch_pair(e)), branch_pair(x), from)
            == insert_position(s, x, from),
    decreases s.len() - from,
{
    let m = s.map_values(|e: (String, TomlValue)| branch_pair(e));
    if from < s.len() {
        assert(m[from] == branch_pair(s[from]));
        if !(name_len(s[from]) < name_len(x)) {
            lemma_pair_insert_position(s, x, from + 1);
        }
    }
}

/// Sorting the pairs of entries is taking the pairs of the sorted entries.
proof fn lemma_sort_pairs_of_entries(s: Seq<(String, TomlValue)>)
    ensures
        sort_pairs_by_name_length(s.map_values(|e: (String, TomlValue)| branch_pair(e)))
            == sort_by_name_length(s).map_values(|e: (String, TomlValue)| branch_pair(e)),
    decreases s.len(),
{
    if s.len() > 0 {
        let r = s.drop_last();
        let x = s.last();
        let m = s.map_values(|e: (String, TomlValue)| branch_pair(e));
        let mr = r.map_values(|e: (String, TomlValue)| branch_pair(e));
        assert(m.drop_last() =~= mr);
        assert(m.last() == branch_pair(x));
        lemma_sort_pairs_of_entries(r);
        let a = sort_by_name_length(r);
        sort_by_name_length_is_stable_descending(r);
        lemma_sort_step(a, x);
        lemma_pair_insert_position(a, x, 0);
        let k = insert_position(a, x, 0);
        assert(a.insert(k, x).map_values(|e: (String, TomlValue)| branch_pair(e))
            =~= a.map_values(|e: (String, TomlValue)| branch_pair(e)).insert(k, branch_pair(x)));
    }
}

/// Law: the Nushell OS chain tries the `(name, icon)` pairs of the table's
/// string icons, `unknown` left out, stably sorted by descending name length,
/// and falls back to the `unknown` icon.
pub proof fn nu_os_conditions_over_sorted_pairs(table: Seq<(String, TomlValue)>, unknown: Seq<char>)
    ensures
        os_branch_entries(sort_by_name_length(table)) == sort_pairs_by_name_length(without_unknown(string_pairs(table))),
        nu_os_conditions(table, unknown) == nu_os_chain(sort_pairs_by_name_length(without_unknown(string_pairs(table))))
            + " else { "@ + spec_nu_string(unknown) + " }"@,
{
    os_branches_filter_then_sort(table);
    lemma_without_unknown_pairs(table);
    lemma_sort_pairs_of_entries(os_branch_candidates(table));
}

/// Law: the branches of the Nushell OS chain are the string icons other than
/// `unknown`, stably sorted by descending name length; taking those entries
/// before sorting the table gives the same branches, in the same order, as
/// taking them from the sorted table.
pub proof fn os_branches_filter_then_sort(table: Seq<(String, TomlValue)>)
    ensures
        os_branch_entries(sort_by_name_length(table)) == sort_by_name_length(os_branch_candidates(table)).map_values(
            |e: (String, TomlValue)| branch_pair(e),
        ),
{
    lemma_candidates_sort_commute(table);
    lemma_branch_entries_are_candidates(sort_by_name_length(table));
}

} // verus!

verus! {

/// Replacing a pattern that does not occur leaves the text as it is.
proof fn lemma_replaced_absent(s: Seq<char>, p: Seq<char>, r: Seq<char>)
    requires
        p.len() > 0,
        !has_substring(s, p),
    ensures
        replaced(s, p, r) == s,
    decreases s.len(),
{
    if s.len() >= p.len() {
        assert(s.take(p.len() as int) != p) by {
            if s.take(p.len() as int) == p {
                assert(s.subrange(0, p.len() as int) =~= s.take(p.len() as int));
                assert(occurs_at(s, p, 0));
            }
        }
        let t = s.drop_first();
        assert(!has_substring(t, p)) by {
            if has_substring(t, p) {
                let i = choose|i: int| occurs_at(t, p, i);
                assert(s.subrange(i + 1, i + 1 + p.len()) =~= t.subrange(i, i + p.len()));
                assert(occurs_at(s, p, i + 1));
            }
        }
        lemma_replaced_absent(t, p, r);
        assert(seq![s[0]] + t =~= s);
    }
}

/// Law: a status template that the span defines gets, in place of each
/// `{{ status_icon }}` and `{{status_icon}}`, the very icon that the default
/// template of the same status starts with for a span with the same
/// `icon_set`: the custom template changes the text around the icon, never
/// which icon is used.
pub proof fn custom_status_template_uses_the_default_icon(
    custom: Span,
    plain: Span,
    name: Seq<char>,
    root: Seq<(String, TomlValue)>,
)
    requires
        custom.spec_status_template(name) is Some,
        plain.spec_status_template(name) is None,
        custom.spec_setting_str("icon_set"@) == plain.spec_setting_str("icon_set"@),
    ensures
        ({
            let d = spec_status_template_text(plain, name, root);
            let n = d.len() - "{{ count }}"@.len();
            let icon = d.subrange(0, n);
            &&& n >= 0
            &&& d.subrange(n, d.len() as int) == "{{ count }}"@
            &&& spec_status_template_text(custom, name, root) == replaced(
                replaced(custom.spec_status_template(name).unwrap(), "{{ status_icon }}"@, icon),
                "{{status_icon}}"@,
                icon,
            )
        }),
{
    let i = spec_status_icon(plain, name, root);
    let d = spec_status_template_text(plain, name, root);
    assert(d == i + "{{ count }}"@);
    assert(d.subrange(0, i.len() as int) =~= i);
    assert(d.subrange(i.len() as int, d.len() as int) =~= "{{ count }}"@);
}

/// Law: without a template of its own, a status is shown as its icon followed
/// by `{{ count }}`; the icon is the status's icon in the span's `icon_set`
/// (`minimal` when the span sets none), else its icon in the `minimal` set,
/// else nothing.
pub proof fn default_status_template_uses_the_selected_set(
    span: Span,
    name: Seq<char>,
    root: Seq<(String, TomlValue)>,
)
    requires
        span.spec_status_template(name) is None,
    ensures
        match span.spec_setting_str("icon_set"@) {
            Some(set) => match doc_icon(root, "git_status"@, set, name) {
                Some(i) => spec_status_template_text(span, name, root) == i + "{{ count }}"@,
                None => spec_status_template_text(span, name, root) == or_empty(
                    doc_icon(root, "git_status"@, "minimal"@, name),
                ) + "{{ count }}"@,
            },
            None => spec_status_template_text(span, name, root) == or_empty(
                doc_icon(root, "git_status"@, "minimal"@, name),
            ) + "{{ count }}"@,
        },
{
}

/// Law: a status template of the span's own that holds no `status_icon`
/// placeholder is used exactly as written.
pub proof fn custom_status_template_is_kept(span: Span, name: Seq<char>, root: Seq<(String, TomlValue)>)
    requires
        span.spec_status_template(name) matches Some(t) && !has_substring(t, "{{ status_icon }}"@)
            && !has_substring(t, "{{status_icon}}"@),
    ensures
        spec_status_template_text(span, name, root) == span.spec_status_template(name).unwrap(),
{
    reveal_strlit("{{ status_icon }}");
    reveal_strlit("{{status_icon}}");
    let t = span.spec_status_template(name).unwrap();
    let i = spec_status_icon(span, name, root);
    lemma_replaced_absent(t, "{{ status_icon }}"@, i);
    lemma_replaced_absent(t, "{{status_icon}}"@, i);
}

/// Law: the branch icon depends on no setting but `branch_icon`: two spans
/// with the same `branch_icon` setting get the same icon, and without one the
/// icon is `git_branch.nerdfont.git` of the icon document (or nothing).
pub proof fn branch_icon_depends_only_on_its_setting(a: Span, b: Span, root: Seq<(String, TomlValue)>)
    requires
        a.spec_setting_str("branch_icon"@) == b.spec_setting_str("branch_icon"@),
    ensures
        spec_git_branch_icon(a, root) == spec_git_branch_icon(b, root),
        a.spec_setting_str("branch_icon"@) matches Some(i) ==> spec_git_branch_icon(a, root) == i,
        a.spec_setting_str("branch_icon"@) is None ==> spec_git_branch_icon(a, root) == or_empty(
            doc_icon(root, "git_branch"@, "nerdfont"@, "git"@),
        ),
{
}

/// Law: each zsh `case` branch quotes exactly the template that the single
/// status template gives for that status and span (custom templates
/// included); no status gives no branch, and adding a status adds its branch
/// at the end.
pub proof fn zsh_status_branch_quotes_the_status_template(
    git: Span,
    root: Seq<(String, TomlValue)>,
    names: Seq<Seq<char>>,
    name: Seq<char>,
)
    ensures
        zsh_status_cases(git, root, seq![]) == Seq::<char>::empty(),
        zsh_status_cases(git, root, names.push(name)) == zsh_status_cases(git, root, names) + "    "@ + name
            + ") template="@ + spec_shell_single_quote(spec_status_template_text(git, name, root))
            + " ; count=${"@ + name + "} ;;\n"@,
{
    assert(names.push(name).drop_last() =~= names);
    let c = zsh_status_cases(git, root, names);
    let q = spec_shell_single_quote(spec_status_template_text(git, name, root));
    assert(c + zsh_status_case(name, spec_status_template_text(git, name, root)) =~= c + "    "@ + name
        + ") template="@ + q + " ; count=${"@ + name + "} ;;\n"@);
}

/// Law: each entry of the Nushell status record is the Nushell string of
/// exactly the template that the single status template gives for that status
/// and span (custom templates included); no status gives no entry, and adding
/// a status adds its entry at the end, after `, ` when entries came before.
pub proof fn nu_status_entry_is_the_status_template(
    git: Span,
    root: Seq<(String, TomlValue)>,
    names: Seq<Seq<char>>,
    name: Seq<char>,
)
    ensures
        nu_status_entries(git, root, seq![]) == Seq::<char>::empty(),
        nu_status_entries(git, root, names.push(name)) == nu_status_entries(git, root, names) + (if names.len() > 0 {
            seq![',', ' ']
        } else {
            seq![]
        }) + name + seq![':', ' '] + spec_nu_string(spec_status_template_text(git, name, root)),
{
    assert(names.push(name).drop_last() =~= names);
}

} // verus!
