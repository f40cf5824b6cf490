//! What the templates of a configuration use, so that generated scripts only
//! contain the parts they need.
use vstd::prelude::*;

use crate::config::{Config, Span};
use crate::layout::Layout;
use crate::text::{contains, has_substring, push_str};

verus! {

/// The Git status kinds, in the order prompts list them.
pub open spec fn spec_statuses() -> Seq<Seq<char>> {
    seq![
        "ahead"@,
        "behind"@,
        "conflicted"@,
        "untracked"@,
        "modified"@,
        "staged"@,
        "renamed"@,
        "deleted"@,
        "stashed"@,
    ]
}

/// The Git status kinds, in the order prompts list them.
pub fn statuses() -> (r: Vec<&'static str>)
    ensures
        r@.len() == spec_statuses().len(),
        forall|i: int| 0 <= i < r@.len() ==> #[trigger] r@[i]@ == spec_statuses()[i],
{
    let r = vec![
        "ahead",
        "behind",
        "conflicted",
        "untracked",
        "modified",
        "staged",
        "renamed",
        "deleted",
        "stashed",
    ];
    r
}

/// A decoration tag (`<b>...</b>` and the like) and how shells render it.
#[derive(Debug, Clone, Copy)]
pub struct StyleTag {
    pub open: &'static str,
    pub close: &'static str,
    /// The escape that switches the style on.
    pub on: &'static str,
    /// The escape that switches the style off.
    pub off: &'static str,
    /// The style's name in zsh prompts.
    pub zsh_name: &'static str,
}

/// The text of a decoration tag: open, close, on, off, zsh name.
pub open spec fn tag_view(t: StyleTag) -> (Seq<char>, Seq<char>, Seq<char>, Seq<char>, Seq<char>) {
    (t.open@, t.close@, t.on@, t.off@, t.zsh_name@)
}

/// The supported decoration tags, in the order scripts define them.
pub open spec fn spec_style_tags() -> Seq<(Seq<char>, Seq<char>, Seq<char>, Seq<char>, Seq<char>)> {
    seq![
        ("<b>"@, "</b>"@, "\\e[1m"@, "\\e[22m"@, "bold"@),
        ("<u>"@, "</u>"@, "\\e[4m"@, "\\e[24m"@, "underline"@),
        ("<o>"@, "</o>"@, "\\e[53m"@, "\\e[55m"@, "overline"@),
        ("<i>"@, "</i>"@, "\\e[3m"@, "\\e[23m"@, "italic"@),
        ("<s>"@, "</s>"@, "\\e[9m"@, "\\e[29m"@, "strike"@),
        ("<d>"@, "</d>"@, "\\e[2m"@, "\\e[22m"@, "dim"@),
        ("<f>"@, "</f>"@, "\\e[5m"@, "\\e[25m"@, "blink"@),
        ("<r>"@, "</r>"@, "\\e[7m"@, "\\e[27m"@, "reverse"@),
    ]
}

/// The supported decoration tags: bold, underline, overline, italic,
/// strikethrough, dim, blink and reverse.
pub fn style_tags() -> (r: Vec<StyleTag>)
    ensures
        r@.len() == spec_style_tags().len(),
        forall|i: int| 0 <= i < r@.len() ==> tag_view(#[trigger] r@[i]) == spec_style_tags()[i],
{
    vec![
        StyleTag { open: "<b>", close: "</b>", on: "\\e[1m", off: "\\e[22m", zsh_name: "bold" },
        StyleTag { open: "<u>", close: "</u>", on: "\\e[4m", off: "\\e[24m", zsh_name: "underline" },
        StyleTag { open: "<o>", close: "</o>", on: "\\e[53m", off: "\\e[55m", zsh_name: "overline" },
        StyleTag { open: "<i>", close: "</i>", on: "\\e[3m", off: "\\e[23m", zsh_name: "italic" },
        StyleTag { open: "<s>", close: "</s>", on: "\\e[9m", off: "\\e[29m", zsh_name: "strike" },
        StyleTag { open: "<d>", close: "</d>", on: "\\e[2m", off: "\\e[22m", zsh_name: "dim" },
        StyleTag { open: "<f>", close: "</f>", on: "\\e[5m", off: "\\e[25m", zsh_name: "blink" },
        StyleTag { open: "<r>", close: "</r>", on: "\\e[7m", off: "\\e[27m", zsh_name: "reverse" },
    ]
}

} // verus!

verus! {

/// `{{ name }}`: a template variable written with spaces.
pub open spec fn spaced_var(name: Seq<char>) -> Seq<char> {
    seq!['{', '{', ' '] + name + seq![' ', '}', '}']
}

/// `{{name}}`: a template variable written without spaces.
pub open spec fn tight_var(name: Seq<char>) -> Seq<char> {
    seq!['{', '{'] + name + seq!['}', '}']
}

/// `text` uses the template variable `name`, with or without spaces.
pub open spec fn uses_var(text: Seq<char>, name: Seq<char>) -> bool {
    has_substring(text, spaced_var(name)) || has_substring(text, tight_var(name))
}

/// Whether `text` uses the template variable `name` (`{{ name }}` or `{{name}}`).
pub fn has_var(text: &str, name: &str) -> (r: bool)
    ensures
        r == uses_var(text@, name@),
{
    let mut spaced = String::new();
    push_str(&mut spaced, "{{ ");
    push_str(&mut spaced, name);
    push_str(&mut spaced, " }}");
    let mut tight = String::new();
    push_str(&mut tight, "{{");
    push_str(&mut tight, name);
    push_str(&mut tight, "}}");
    proof {
        reveal_strlit("{{ ");
        reveal_strlit(" }}");
        reveal_strlit("{{");
        reveal_strlit("}}");
        assert(spaced@ =~= spaced_var(name@));
        assert(tight@ =~= tight_var(name@));
    }
    contains(text, spaced.as_str()) || contains(text, tight.as_str())
}

/// A present optional text as a one-element list.
pub open spec fn opt_text(o: Option<Seq<char>>) -> Seq<Seq<char>> {
    match o {
        Some(t) => seq![t],
        None => seq![],
    }
}

/// The status templates that `git` defines for the statuses `names`, in order.
pub open spec fn status_template_texts(git: Span, names: Seq<Seq<char>>) -> Seq<Seq<char>>
    decreases names.len(),
{
    if names.len() == 0 {
        seq![]
    } else {
        status_template_texts(git, names.drop_last()) + opt_text(git.spec_status_template(names.last()))
    }
}

/// Every template-like text of a prompt: the os, path, prompt and transient
/// templates; with a Git span its template and status templates; then the
/// path's `edge_format` and `gitdir_format`.
pub open spec fn spec_template_texts(l: Layout<'_>, transient: Seq<char>) -> Seq<Seq<char>> {
    seq![l.os.template@, l.path.template@, l.prompt_span.template@, transient]
        + match l.git {
        Some(g) => seq![g.template@] + status_template_texts(*g, spec_statuses()),
        None => seq![],
    } + opt_text(l.path.spec_setting_str("edge_format"@)) + opt_text(
        l.path.spec_setting_str("gitdir_format"@),
    )
}

/// The texts of a list of string slices.
pub open spec fn texts_view(v: Seq<&str>) -> Seq<Seq<char>> {
    v.map_values(|t: &str| t@)
}

fn push_opt<'a>(texts: &mut Vec<&'a str>, o: Option<&'a str>)
    ensures
        texts_view(final(texts)@) == texts_view(old(texts)@) + opt_text(
            match o {
                Some(t) => Some(t@),
                None => None,
            },
        ),
{
    match o {
        Some(t) => {
            texts.push(t);
            assert(texts_view(texts@) =~= texts_view(old(texts)@) + seq![t@]);
        },
        None => {
            assert(texts_view(texts@) =~= texts_view(old(texts)@) + seq![]);
        },
    }
}

/// Every template-like text of the prompt, in the order `spec_template_texts` gives.
pub fn template_texts<'a>(config: &'a Config, layout: &'a Layout<'a>, transient_template: &'a str) -> (r: Vec<&'a str>)
    ensures
        texts_view(r@) == spec_template_texts(*layout, transient_template@),
{
    let _ = config;
    let mut texts: Vec<&'a str> = Vec::new();
    texts.push(layout.os.template.as_str());
    texts.push(layout.path.template.as_str());
    texts.push(layout.prompt_span.template.as_str());
    texts.push(transient_template);
    let ghost head = seq![layout.os.template@, layout.path.template@, layout.prompt_span.template@, transient_template@];
    assert(texts_view(texts@) =~= head);
    let ghost git_part = match layout.git {
        Some(g) => seq![g.template@] + status_template_texts(*g, spec_statuses()),
        None => seq![],
    };
    match layout.git {
        Some(git) => {
            texts.push(git.template.as_str());
            assert(texts_view(texts@) =~= head + seq![git.template@]);
            let names = statuses();
            let n = names.len();
            let mut i: usize = 0;
            assert(spec_statuses().take(0) =~= seq![]);
            while i < n
                invariant
                    n == names@.len(),
                    n == spec_statuses().len(),
                    forall|k: int| 0 <= k < names@.len() ==> #[trigger] names@[k]@ == spec_statuses()[k],
                    i <= n,
                    texts_view(texts@) == head + seq![git.template@] + status_template_texts(
                        *git,
                        spec_statuses().take(i as int),
                    ),
                decreases n - i,
            {
                assert(spec_statuses().take(i + 1).drop_last() =~= spec_statuses().take(i as int));
                assert(spec_statuses().take(i + 1).last() == names@[i as int]@);
                let ghost before = texts_view(texts@);
                push_opt(&mut texts, git.status_template(names[i]));
                assert(texts_view(texts@) =~= head + seq![git.template@] + status_template_texts(
                    *git,
                    spec_statuses().take(i + 1),
                ));
                i = i + 1;
            }
            assert(spec_statuses().take(n as int) =~= spec_statuses());
            assert(texts_view(texts@) =~= head + git_part);
        },
        None => {
            assert(texts_view(texts@) =~= head + git_part);
        },
    }
    push_opt(&mut texts, layout.path.setting_str("edge_format"));
    push_opt(&mut texts, layout.path.setting_str("gitdir_format"));
    texts
}

} // verus!

verus! {

/// What the prompt's templates and settings use.
#[derive(Debug)]
pub struct Features {
    pub if_status: bool,
    pub if_home: bool,
    pub var_icon: bool,
    pub var_path: bool,
    pub var_home_icon: bool,
    pub var_folder_icon: bool,
    pub var_status: bool,
    pub var_branch_icon: bool,
    pub var_upstream_icon: bool,
    pub var_upstream: bool,
    pub var_upstream_url: bool,
    pub var_branch: bool,
    pub git_status: bool,
    pub git_upstream_icon: bool,
    pub git_upstream_info: bool,
    pub git_url: bool,
    pub git_fetch: bool,
    pub path_url: bool,
    pub osc7: bool,
    pub gitdir_format: bool,
    /// The decoration tags the templates use, in the order of `style_tags`.
    pub tags: Vec<StyleTag>,
}

/// Some text contains `pattern`.
pub open spec fn any_contains(texts: Seq<Seq<char>>, pattern: Seq<char>) -> bool {
    exists|i: int| 0 <= i < texts.len() && has_substring(#[trigger] texts[i], pattern)
}

/// Some text uses the template variable `name`.
pub open spec fn any_uses_var(texts: Seq<Seq<char>>, name: Seq<char>) -> bool {
    exists|i: int| 0 <= i < texts.len() && uses_var(#[trigger] texts[i], name)
}

/// Some text contains the opening or the closing form of a decoration tag.
pub open spec fn tag_used(
    texts: Seq<Seq<char>>,
    tag: (Seq<char>, Seq<char>, Seq<char>, Seq<char>, Seq<char>),
) -> bool {
    any_contains(texts, tag.0) || any_contains(texts, tag.1)
}

/// The decoration tags among `tags` that some text uses, in order.
pub open spec fn used_tags(
    texts: Seq<Seq<char>>,
    tags: Seq<(Seq<char>, Seq<char>, Seq<char>, Seq<char>, Seq<char>)>,
) -> Seq<(Seq<char>, Seq<char>, Seq<char>, Seq<char>, Seq<char>)>
    decreases tags.len(),
{
    if tags.len() == 0 {
        seq![]
    } else {
        let rest = used_tags(texts, tags.drop_last());
        if tag_used(texts, tags.last()) {
            rest.push(tags.last())
        } else {
            rest
        }
    }
}

/// The setting `key` of `s` is the boolean `true`.
pub open spec fn setting_on(s: Span, key: Seq<char>) -> bool {
    s.spec_setting_bool(key) == Some(true)
}

/// The template of the transient prompt: its own template when it is set
/// and not empty, else the prompt span's template.
pub open spec fn spec_transient_template(c: Config, l: Layout<'_>) -> Seq<char> {
    match c.transient {
        Some(t) => if t.template@.len() > 0 {
            t.template@
        } else {
            l.prompt_span.template@
        },
        None => l.prompt_span.template@,
    }
}

fn any_contains_exec(texts: &Vec<&str>, pattern: &str) -> (r: bool)
    ensures
        r == any_contains(texts_view(texts@), pattern@),
{
    let n = texts.len();
    let mut i: usize = 0;
    while i < n
        invariant
            n == texts@.len(),
            i <= n,
            forall|k: int| 0 <= k < i ==> !has_substring(#[trigger] texts_view(texts@)[k], pattern@),
        decreases n - i,
    {
        if contains(texts[i], pattern) {
            assert(has_substring(texts_view(texts@)[i as int], pattern@));
            return true;
        }
        i = i + 1;
    }
    false
}

fn any_has_var(texts: &Vec<&str>, name: &str) -> (r: bool)
    ensures
        r == any_uses_var(texts_view(texts@), name@),
{
    let n = texts.len();
    let mut i: usize = 0;
    while i < n
        invariant
            n == texts@.len(),
            i <= n,
            forall|k: int| 0 <= k < i ==> !uses_var(#[trigger] texts_view(texts@)[k], name@),
        decreases n - i,
    {
        if has_var(texts[i], name) {
            assert(uses_var(texts_view(texts@)[i as int], name@));
            return true;
        }
        i = i + 1;
    }
    false
}

/// The decoration tags that some of `texts` uses, in the order of `style_tags`.
fn tags_used_by(texts: &Vec<&str>) -> (tags: Vec<StyleTag>)
    ensures
        tags@.map_values(|t: StyleTag| tag_view(t)) == used_tags(texts_view(texts@), spec_style_tags()),
{
    let all_tags = style_tags();
    let mut tags: Vec<StyleTag> = Vec::new();
    let n = all_tags.len();
    let mut i: usize = 0;
    let ghost tv = texts_view(texts@);
    assert(spec_style_tags().take(0) =~= seq![]);
    while i < n
        invariant
            n == all_tags@.len(),
            n == spec_style_tags().len(),
            forall|k: int| 0 <= k < all_tags@.len() ==> tag_view(#[trigger] all_tags@[k]) == spec_style_tags()[k],
            tv == texts_view(texts@),
            i <= n,
            tags@.map_values(|t: StyleTag| tag_view(t)) == used_tags(tv, spec_style_tags().take(i as int)),
        decreases n - i,
    {
        let tag = all_tags[i];
        assert(spec_style_tags().take(i + 1).drop_last() =~= spec_style_tags().take(i as int));
        assert(spec_style_tags().take(i + 1).last() == tag_view(tag));
        if any_contains_exec(&texts, tag.open) || any_contains_exec(&texts, tag.close) {
            let ghost before = tags@;
            tags.push(tag);
            assert(tags@.map_values(|t: StyleTag| tag_view(t)) =~= before.map_values(|t: StyleTag| tag_view(t)).push(tag_view(tag)));
        }
        i = i + 1;
    }
    assert(spec_style_tags().take(n as int) =~= spec_style_tags());

    tags
}

/// Works out what the templates and settings of the prompt use.
pub fn features(config: &Config, layout: &Layout<'_>) -> (f: Features)
    ensures
        ({
            let texts = spec_template_texts(*layout, spec_transient_template(*config, *layout));
            &&& f.if_status == any_contains(texts, "{{ if status }}"@)
            &&& f.if_home == any_contains(texts, "{{ if home }}"@)
            &&& f.var_icon == any_uses_var(texts, "icon"@)
            &&& f.var_path == any_uses_var(texts, "path"@)
            &&& f.var_home_icon == any_uses_var(texts, "home_icon"@)
            &&& f.var_folder_icon == any_uses_var(texts, "folder_icon"@)
            &&& f.var_status == any_uses_var(texts, "status"@)
            &&& f.var_branch_icon == any_uses_var(texts, "branch_icon"@)
            &&& f.var_upstream_icon == any_uses_var(texts, "upstream_icon"@)
            &&& f.var_upstream == any_uses_var(texts, "upstream"@)
            &&& f.var_upstream_url == any_uses_var(texts, "upstream_url"@)
            &&& f.var_branch == any_uses_var(texts, "branch"@)
            &&& f.tags@.map_values(|t: StyleTag| tag_view(t)) == used_tags(texts, spec_style_tags())
        }),
        match layout.git {
            Some(g) => {
                &&& f.git_status == (f.var_status || f.if_status)
                &&& f.git_upstream_icon == (setting_on(*g, "fetch_upstream_icon"@) && f.var_upstream_icon)
                &&& f.git_url == (setting_on(*g, "url"@) || setting_on(*g, "hyperlink"@))
                &&& f.git_upstream_info == (f.git_upstream_icon || f.var_upstream || f.var_upstream_url
                    || f.git_url)
                &&& f.git_fetch == (f.git_status && setting_on(*g, "fetch_remote"@))
            },
            None => !f.git_status && !f.git_upstream_icon && !f.git_url && !f.git_upstream_info
                && !f.git_fetch,
        },
        f.path_url == (setting_on(*layout.path, "url"@) || setting_on(*layout.path, "hyperlink"@)),
        f.osc7 == setting_on(*layout.path, "osc7"@),
        f.gitdir_format == (layout.path.spec_setting_str("gitdir_format"@) matches Some(s) && s.len()
            > 0),
        // Git remote work is only asked for when the status is shown.
        f.git_fetch ==> f.git_status,
        f.git_upstream_icon ==> f.var_upstream_icon,
{
    let transient_template: &str = match &config.transient {
        Some(t) => if t.template.as_str().is_empty() {
            layout.prompt_span.template.as_str()
        } else {
            t.template.as_str()
        },
        None => layout.prompt_span.template.as_str(),
    };
    let texts = template_texts(config, layout, transient_template);
    let if_status = any_contains_exec(&texts, "{{ if status }}");
    let if_home = any_contains_exec(&texts, "{{ if home }}");
    let var_icon = any_has_var(&texts, "icon");
    let var_path = any_has_var(&texts, "path");
    let var_home_icon = any_has_var(&texts, "home_icon");
    let var_folder_icon = any_has_var(&texts, "folder_icon");
    let var_status = any_has_var(&texts, "status");
    let var_branch_icon = any_has_var(&texts, "branch_icon");
    let var_upstream_icon = any_has_var(&texts, "upstream_icon");
    let var_upstream = any_has_var(&texts, "upstream");
    let var_upstream_url = any_has_var(&texts, "upstream_url");
    let var_branch = any_has_var(&texts, "branch");

    let mut git_status = false;
    let mut git_upstream_icon = false;
    let mut git_url = false;
    let mut git_upstream_info = false;
    let mut git_fetch = false;
    match layout.git {
        Some(git) => {
            let fetch_upstream_icon = git.setting_bool("fetch_upstream_icon").unwrap_or(false);
            git_status = var_status || if_status;
            git_upstream_icon = fetch_upstream_icon && var_upstream_icon;
            git_url = git.setting_bool("url").unwrap_or(false) || git.setting_bool("hyperlink").unwrap_or(false);
            git_upstream_info = git_upstream_icon || var_upstream || var_upstream_url || git_url;
            git_fetch = git_status && git.setting_bool("fetch_remote").unwrap_or(false);
        },
        None => {},
    }

    let path_url = layout.path.setting_bool("url").unwrap_or(false) || layout.path.setting_bool(
        "hyperlink",
    ).unwrap_or(false);
    let osc7 = layout.path.setting_bool("osc7").unwrap_or(false);
    let gitdir_format = match layout.path.setting_str("gitdir_format") {
        Some(format) => !format.is_empty(),
        None => false,
    };

    let tags = tags_used_by(&texts);

    Features {
        if_status,
        if_home,
        var_icon,
        var_path,
        var_home_icon,
        var_folder_icon,
        var_status,
        var_branch_icon,
        var_upstream_icon,
        var_upstream,
        var_upstream_url,
        var_branch,
        git_status,
        git_upstream_icon,
        git_upstream_info,
        git_url,
        git_fetch,
        path_url,
        osc7,
        gitdir_format,
        tags,
    }
}

} // verus!

verus! {

/// A tag that some text uses is among the used tags.
proof fn lemma_used_tags_contains(
    texts: Seq<Seq<char>>,
    tags: Seq<(Seq<char>, Seq<char>, Seq<char>, Seq<char>, Seq<char>)>,
    k: int,
)
    requires
        0 <= k < tags.len(),
        tag_used(texts, tags[k]),
    ensures
        used_tags(texts, tags).contains(tags[k]),
    decreases tags.len(),
{
    let rest = used_tags(texts, tags.drop_last());
    if k == tags.len() - 1 {
        assert(used_tags(texts, tags)[rest.len() as int] == tags[k]);
    } else {
        assert(tags.drop_last()[k] == tags[k]);
        lemma_used_tags_contains(texts, tags.drop_last(), k);
        let j = choose|j: int| 0 <= j < rest.len() && rest[j] == tags[k];
        assert(used_tags(texts, tags)[j] == tags[k]);
    }
}

/// Law: a configuration's own transient template is scanned whenever it is
/// set and not empty: a decoration tag written (opened or closed) in it is
/// among the tags the prompt uses, wherever else it occurs or not.
pub proof fn transient_template_tags_are_detected(c: Config, l: Layout<'_>, k: int)
    requires
        c.transient is Some,
        c.transient.unwrap().template@.len() > 0,
        0 <= k < spec_style_tags().len(),
        has_substring(c.transient.unwrap().template@, spec_style_tags()[k].0) || has_substring(
            c.transient.unwrap().template@,
            spec_style_tags()[k].1,
        ),
    ensures
        used_tags(spec_template_texts(l, spec_transient_template(c, l)), spec_style_tags()).contains(
            spec_style_tags()[k],
        ),
{
    let texts = spec_template_texts(l, spec_transient_template(c, l));
    let t = c.transient.unwrap().template@;
    assert(texts[3] == t);
    assert(tag_used(texts, spec_style_tags()[k])) by {
        if has_substring(t, spec_style_tags()[k].0) {
            assert(has_substring(texts[3], spec_style_tags()[k].0));
        } else {
            assert(has_substring(texts[3], spec_style_tags()[k].1));
        }
    }
    lemma_used_tags_contains(texts, spec_style_tags(), k);
}

/// Law: the prompt span's template is scanned too, and so is the transient
/// template the prompt falls back to: a tag written in the prompt span's
/// template is always among the tags the prompt uses.
pub proof fn prompt_template_tags_are_detected(c: Config, l: Layout<'_>, k: int)
    requires
        0 <= k < spec_style_tags().len(),
        has_substring(l.prompt_span.template@, spec_style_tags()[k].0) || has_substring(
            l.prompt_span.template@,
            spec_style_tags()[k].1,
        ),
    ensures
        used_tags(spec_template_texts(l, spec_transient_template(c, l)), spec_style_tags()).contains(
            spec_style_tags()[k],
        ),
{
    let texts = spec_template_texts(l, spec_transient_template(c, l));
    let t = l.prompt_span.template@;
    assert(texts[2] == t);
    assert(tag_used(texts, spec_style_tags()[k])) by {
        if has_substring(t, spec_style_tags()[k].0) {
            assert(has_substring(texts[2], spec_style_tags()[k].0));
        } else {
            assert(has_substring(texts[2], spec_style_tags()[k].1));
        }
    }
    lemma_used_tags_contains(texts, spec_style_tags(), k);
}

} // verus!

verus! {

/// `x` is one of the prompt's template-like texts, named by where it comes
/// from: the os, path and prompt span templates; the transient template when
/// it is set and not empty; with a Git span, its template and the status
/// templates it defines; the path's `edge_format` and `gitdir_format`.
pub open spec fn is_prompt_text(c: Config, l: Layout<'_>, x: Seq<char>) -> bool {
    ||| x == l.os.template@
    ||| x == l.path.template@
    ||| x == l.prompt_span.template@
    ||| (c.transient is Some && c.transient.unwrap().template@.len() > 0 && x == c.transient.unwrap().template@)
    ||| (l.git is Some && x == l.git.unwrap().template@)
    ||| (l.git is Some && exists|k: int|
        0 <= k < spec_statuses().len() && #[trigger] l.git.unwrap().spec_status_template(spec_statuses()[k]) == Some(x))
    ||| l.path.spec_setting_str("edge_format"@) == Some(x)
    ||| l.path.spec_setting_str("gitdir_format"@) == Some(x)
}

proof fn lemma_contains_concat(a: Seq<Seq<char>>, b: Seq<Seq<char>>, x: Seq<char>)
    ensures
        (a + b).contains(x) <==> a.contains(x) || b.contains(x),
{
    if (a + b).contains(x) {
        let i = choose|i: int| 0 <= i < (a + b).len() && (a + b)[i] == x;
        if i < a.len() {
            assert(a[i] == x);
        } else {
            assert(b[i - a.len()] == x);
        }
    }
    if a.contains(x) {
        let i = choose|i: int| 0 <= i < a.len() && a[i] == x;
        assert((a + b)[i] == x);
    }
    if b.contains(x) {
        let i = choose|i: int| 0 <= i < b.len() && b[i] == x;
        assert((a + b)[a.len() + i] == x);
    }
}

proof fn lemma_opt_text_contains(o: Option<Seq<char>>, x: Seq<char>)
    ensures
        opt_text(o).contains(x) <==> o == Some(x),
{
    if o == Some(x) {
        assert(opt_text(o)[0] == x);
    }
}

proof fn lemma_status_template_texts_contains(git: Span, names: Seq<Seq<char>>, x: Seq<char>)
    ensures
        status_template_texts(git, names).contains(x) <==> exists|k: int|
            0 <= k < names.len() && #[trigger] git.spec_status_template(names[k]) == Some(x),
    decreases names.len(),
{
    if names.len() > 0 {
        let p = names.drop_last();
        lemma_status_template_texts_contains(git, p, x);
        lemma_contains_concat(status_template_texts(git, p), opt_text(git.spec_status_template(names.last())), x);
        lemma_opt_text_contains(git.spec_status_template(names.last()), x);
        if status_template_texts(git, names).contains(x) {
            if status_template_texts(git, p).contains(x) {
                let k = choose|k: int| 0 <= k < p.len() && #[trigger] git.spec_status_template(p[k]) == Some(x);
                assert(names[k] == p[k]);
            } else {
                assert(git.spec_status_template(names[names.len() - 1]) == Some(x));
            }
        }
        if exists|k: int| 0 <= k < names.len() && #[trigger] git.spec_status_template(names[k]) == Some(x) {
            let k = choose|k: int| 0 <= k < names.len() && #[trigger] git.spec_status_template(names[k]) == Some(x);
            if k < names.len() - 1 {
                assert(p[k] == names[k]);
                assert(git.spec_status_template(p[k]) == Some(x));
            }
        }
    } else {
        assert(status_template_texts(git, names) =~= Seq::<Seq<char>>::empty());
    }
}

/// Law: the texts scanned for a prompt's features are exactly its
/// template-like texts, as `is_prompt_text` names them.
pub proof fn scanned_texts_are_the_prompt_texts(c: Config, l: Layout<'_>, x: Seq<char>)
    ensures
        spec_template_texts(l, spec_transient_template(c, l)).contains(x) <==> is_prompt_text(c, l, x),
{
    let tt = spec_transient_template(c, l);
    let head = seq![l.os.template@, l.path.template@, l.prompt_span.template@, tt];
    let git_part = match l.git {
        Some(g) => seq![g.template@] + status_template_texts(*g, spec_statuses()),
        None => seq![],
    };
    let edge = opt_text(l.path.spec_setting_str("edge_format"@));
    let gitdir = opt_text(l.path.spec_setting_str("gitdir_format"@));
    let texts = spec_template_texts(l, tt);
    assert(texts == ((head + git_part) + edge) + gitdir);
    lemma_contains_concat((head + git_part) + edge, gitdir, x);
    lemma_contains_concat(head + git_part, edge, x);
    lemma_contains_concat(head, git_part, x);
    lemma_opt_text_contains(l.path.spec_setting_str("edge_format"@), x);
    lemma_opt_text_contains(l.path.spec_setting_str("gitdir_format"@), x);
    assert(head.contains(x) <==> (x == head[0] || x == head[1] || x == head[2] || x == head[3])) by {
        if head.contains(x) {
            let i = choose|i: int| 0 <= i < head.len() && head[i] == x;
        }
        if x == head[0] { assert(head.contains(head[0])); }
        if x == head[1] { assert(head.contains(head[1])); }
        if x == head[2] { assert(head.contains(head[2])); }
        if x == head[3] { assert(head.contains(head[3])); }
    }
    match l.git {
        Some(g) => {
            lemma_contains_concat(seq![g.template@], status_template_texts(*g, spec_statuses()), x);
            lemma_opt_text_contains(Some(g.template@), x);
            lemma_status_template_texts_contains(*g, spec_statuses(), x);
        },
        None => {
            assert(!git_part.contains(x));
        },
    }
}

proof fn lemma_any_contains_iff(texts: Seq<Seq<char>>, p: Seq<char>)
    ensures
        any_contains(texts, p) <==> exists|x: Seq<char>| #[trigger] texts.contains(x) && has_substring(x, p),
{
    if any_contains(texts, p) {
        let i = choose|i: int| 0 <= i < texts.len() && has_substring(#[trigger] texts[i], p);
        assert(texts.contains(texts[i]));
    }
    if exists|x: Seq<char>| #[trigger] texts.contains(x) && has_substring(x, p) {
        let x = choose|x: Seq<char>| #[trigger] texts.contains(x) && has_substring(x, p);
        let i = choose|i: int| 0 <= i < texts.len() && texts[i] == x;
        assert(has_substring(texts[i], p));
    }
}

proof fn lemma_any_uses_var_iff(texts: Seq<Seq<char>>, name: Seq<char>)
    ensures
        any_uses_var(texts, name) <==> exists|x: Seq<char>| #[trigger] texts.contains(x) && uses_var(x, name),
{
    if any_uses_var(texts, name) {
        let i = choose|i: int| 0 <= i < texts.len() && uses_var(#[trigger] texts[i], name);
        assert(texts.contains(texts[i]));
    }
    if exists|x: Seq<char>| #[trigger] texts.contains(x) && uses_var(x, name) {
        let x = choose|x: Seq<char>| #[trigger] texts.contains(x) && uses_var(x, name);
        let i = choose|i: int| 0 <= i < texts.len() && texts[i] == x;
        assert(uses_var(texts[i], name));
    }
}

proof fn lemma_used_tags_only_used(
    texts: Seq<Seq<char>>,
    tags: Seq<(Seq<char>, Seq<char>, Seq<char>, Seq<char>, Seq<char>)>,
    t: (Seq<char>, Seq<char>, Seq<char>, Seq<char>, Seq<char>),
)
    ensures
        used_tags(texts, tags).contains(t) ==> tag_used(texts, t),
    decreases tags.len(),
{
    if tags.len() > 0 {
        lemma_used_tags_only_used(texts, tags.drop_last(), t);
        let rest = used_tags(texts, tags.drop_last());
        if used_tags(texts, tags).contains(t) {
            let j = choose|j: int| 0 <= j < used_tags(texts, tags).len() && used_tags(texts, tags)[j] == t;
            if j < rest.len() {
                assert(rest[j] == t);
                assert(rest.contains(t));
            }
        }
    }
}

/// Law: a decoration tag is among the tags the prompt uses exactly when its
/// opening or closing form is written in one of the prompt's template-like
/// texts.
pub proof fn tags_used_are_the_tags_written(c: Config, l: Layout<'_>, k: int)
    requires
        0 <= k < spec_style_tags().len(),
    ensures
        used_tags(spec_template_texts(l, spec_transient_template(c, l)), spec_style_tags()).contains(
            spec_style_tags()[k],
        ) <==> exists|x: Seq<char>|
            #[trigger] is_prompt_text(c, l, x) && (has_substring(x, spec_style_tags()[k].0) || has_substring(
                x,
                spec_style_tags()[k].1,
            )),
{
    let texts = spec_template_texts(l, spec_transient_template(c, l));
    let tag = spec_style_tags()[k];
    lemma_any_contains_iff(texts, tag.0);
    lemma_any_contains_iff(texts, tag.1);
    lemma_used_tags_only_used(texts, spec_style_tags(), tag);
    assert forall|x: Seq<char>| #[trigger] texts.contains(x) <==> is_prompt_text(c, l, x) by {
        scanned_texts_are_the_prompt_texts(c, l, x);
    }
    if tag_used(texts, tag) {
        lemma_used_tags_contains(texts, spec_style_tags(), k);
    }
    if exists|x: Seq<char>| #[trigger] is_prompt_text(c, l, x) && (has_substring(x, tag.0) || has_substring(x, tag.1)) {
        let x = choose|x: Seq<char>| #[trigger] is_prompt_text(c, l, x) && (has_substring(x, tag.0) || has_substring(x, tag.1));
        assert(texts.contains(x));
        lemma_used_tags_contains(texts, spec_style_tags(), k);
    }
}

/// Law: the prompt uses a template variable (or a conditional, or any other
/// pattern) exactly when one of its template-like texts writes it.
pub proof fn variables_used_are_the_variables_written(c: Config, l: Layout<'_>, name: Seq<char>, pattern: Seq<char>)
    ensures
        any_uses_var(spec_template_texts(l, spec_transient_template(c, l)), name) <==> exists|x: Seq<char>|
            #[trigger] is_prompt_text(c, l, x) && uses_var(x, name),
        any_contains(spec_template_texts(l, spec_transient_template(c, l)), pattern) <==> exists|x: Seq<char>|
            #[trigger] is_prompt_text(c, l, x) && has_substring(x, pattern),
{
    let texts = spec_template_texts(l, spec_transient_template(c, l));
    lemma_any_uses_var_iff(texts, name);
    lemma_any_contains_iff(texts, pattern);
    if exists|x: Seq<char>| #[trigger] texts.contains(x) && uses_var(x, name) {
        let x = choose|x: Seq<char>| #[trigger] texts.contains(x) && uses_var(x, name);
        scanned_texts_are_the_prompt_texts(c, l, x);
        assert(is_prompt_text(c, l, x));
    }
    if exists|x: Seq<char>| #[trigger] is_prompt_text(c, l, x) && uses_var(x, name) {
        let x = choose|x: Seq<char>| #[trigger] is_prompt_text(c, l, x) && uses_var(x, name);
        scanned_texts_are_the_prompt_texts(c, l, x);
        assert(texts.contains(x));
    }
    if exists|x: Seq<char>| #[trigger] texts.contains(x) && has_substring(x, pattern) {
        let x = choose|x: Seq<char>| #[trigger] texts.contains(x) && has_substring(x, pattern);
        scanned_texts_are_the_prompt_texts(c, l, x);
        assert(is_prompt_text(c, l, x));
    }
    if exists|x: Seq<char>| #[trigger] is_prompt_text(c, l, x) && has_substring(x, pattern) {
        let x = choose|x: Seq<char>| #[trigger] is_prompt_text(c, l, x) && has_substring(x, pattern);
        scanned_texts_are_the_prompt_texts(c, l, x);
        assert(texts.contains(x));
    }
}

} // verus!
