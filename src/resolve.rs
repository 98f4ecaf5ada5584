use crate::errors::{result_view, Error, ErrorModel, Result};
use crate::page::{page_views, Page, PageModel};
use crate::parsing::{
    find_kind, find_next_template, find_template, scan, splice, InstanceModel, Template,
    TemplateInstance, TemplateModel,
};
use crate::text::{find_pair, lemma_trim_keeps_no_pair, same_text, trim, trim_text, views};
use std::fmt::Write;
use vstd::prelude::*;

verus! {

broadcast use vstd::string::group_string_axioms;

/// Whether `p` is listed by `navitems`.
pub open spec fn shown_in_nav(p: PageModel) -> bool {
    !(p.config matches Some(c) && c.navignore)
}

/// Where the navigation entry of `p` links to.
pub open spec fn nav_target(p: PageModel) -> Seq<char> {
    match p.config {
        Some(c) => match c.path {
            Some(path) => path,
            None => "/"@ + p.name,
        },
        None => "/"@ + p.name,
    }
}

/// The navigation entry of `p`, marked active when `active` holds.
pub open spec fn nav_entry(p: PageModel, active: bool) -> Seq<char> {
    "<a href=\""@ + nav_target(p) + "\""@ + (if active {
        " class=\"active\""@
    } else {
        Seq::empty()
    }) + ">"@ + p.name + "</a>"@
}

/// The navigation entries of `pages` as seen from the page named `current`.
pub open spec fn nav_entries(pages: Seq<PageModel>, current: Seq<char>) -> Seq<Seq<char>> {
    pages.filter(|p: PageModel| shown_in_nav(p)).map_values(
        |p: PageModel| nav_entry(p, p.name == current),
    )
}

/// `parts` joined with newlines.
pub open spec fn join_lines(parts: Seq<Seq<char>>) -> Seq<char>
    decreases parts.len(),
{
    if parts.len() == 0 {
        Seq::empty()
    } else if parts.len() == 1 {
        parts[0]
    } else {
        join_lines(parts.drop_last()) + "\n"@ + parts.last()
    }
}

/// What `navitems` becomes on the page named `current`.
pub open spec fn nav_text(pages: Seq<PageModel>, current: Seq<char>) -> Seq<char> {
    join_lines(nav_entries(pages, current))
}

proof fn lemma_nav_entries_push(pages: Seq<PageModel>, p: PageModel, current: Seq<char>)
    ensures
        nav_entries(pages.push(p), current) == if shown_in_nav(p) {
            nav_entries(pages, current).push(nav_entry(p, p.name == current))
        } else {
            nav_entries(pages, current)
        },
{
    let pred = |q: PageModel| shown_in_nav(q);
    let f = |q: PageModel| nav_entry(q, q.name == current);
    pages.lemma_filter_push(p, pred);
    if shown_in_nav(p) {
        assert(pages.filter(pred).push(p).map_values(f) =~= pages.filter(pred).map_values(f).push(
            f(p),
        ));
    }
}

proof fn lemma_join_lines_push(parts: Seq<Seq<char>>, x: Seq<char>)
    ensures
        join_lines(parts.push(x)) == if parts.len() == 0 {
            x
        } else {
            join_lines(parts) + "\n"@ + x
        },
{
    assert(parts.push(x).drop_last() =~= parts);
}

/// The navigation entry of `p`.
fn nav_entry_text(p: &Page, active: bool) -> (r: String)
    ensures
        r@ == nav_entry(p@, active),
{
    let mut out = "<a href=\"".to_owned();
    match &p.config {
        Some(c) => match &c.path {
            Some(path) => out.append(path),
            None => {
                out.append("/");
                out.append(&p.name);
            },
        },
        None => {
            out.append("/");
            out.append(&p.name);
        },
    }
    out.append("\"");
    if active {
        out.append(" class=\"active\"");
    }
    out.append(">");
    out.append(&p.name);
    out.append("</a>");
    assert(out@ =~= nav_entry(p@, active));
    out
}

/// The navigation list of `pages`, with the entry of `page` marked active.
pub fn nav_items(page: &Page, pages: &Vec<Page>) -> (r: String)
    ensures
        r@ == nav_text(page_views(pages@), page.name@),
{
    let mut out = String::new();
    let ghost cur = page.name@;
    let ghost all = page_views(pages@);
    let mut i: usize = 0;
    let mut count: usize = 0;
    while i < pages.len()
        invariant
            i <= pages.len(),
            count == nav_entries(all.subrange(0, i as int), cur).len(),
            count <= i,
            all == page_views(pages@),
            cur == page.name@,
            out@ == join_lines(nav_entries(all.subrange(0, i as int), cur)),
        decreases pages.len() - i,
    {
        let p = &pages[i];
        proof {
            assert(all.subrange(0, i + 1) =~= all.subrange(0, i as int).push(p@));
            lemma_nav_entries_push(all.subrange(0, i as int), p@, cur);
        }
        let ignored = match &p.config {
            Some(c) => c.navignore,
            None => false,
        };
        if !ignored {
            let active = same_text(&p.name, &page.name);
            let entry = nav_entry_text(p, active);
            proof {
                lemma_join_lines_push(nav_entries(all.subrange(0, i as int), cur), entry@);
            }
            if count > 0 {
                out.append("\n");
            }
            out.append(&entry);
            count = count + 1;
        }
        i = i + 1;
    }
    assert(all.subrange(0, pages.len() as int) =~= all);
    out
}

/// The navigation list holds one entry for each page that does not set `navignore`,
/// in page order; each is marked active exactly when its page bears the current
/// page's name, and no ignored page has an entry.
pub proof fn lemma_nav_lists_shown_pages(current: PageModel, pages: Seq<PageModel>)
    ensures
        ({
            let shown = pages.filter(|p: PageModel| shown_in_nav(p));
            let e = nav_entries(pages, current.name);
            &&& e.len() == shown.len()
            &&& forall|k: int|
                0 <= k < e.len() ==> e[k] == nav_entry(shown[k], shown[k].name == current.name)
            &&& forall|k: int| 0 <= k < shown.len() ==> shown_in_nav(#[trigger] shown[k])
            &&& forall|p: PageModel|
                #[trigger] pages.contains(p) ==> (shown.contains(p) <==> shown_in_nav(p))
        }),
{
    let pred = |p: PageModel| shown_in_nav(p);
    let shown = pages.filter(pred);
    pages.lemma_filter_len(pred);
    assert forall|k: int| 0 <= k < shown.len() implies shown_in_nav(#[trigger] shown[k]) by {
        pages.lemma_filter_pred(pred, k);
    }
    assert forall|p: PageModel| #[trigger] pages.contains(p) implies (shown.contains(p)
        <==> shown_in_nav(p)) by {
        if shown_in_nav(p) {
            pages.lemma_filter_contains_rev(pred, p);
        }
        if shown.contains(p) {
            let k = choose|k: int| 0 <= k < shown.len() && shown[k] == p;
            pages.lemma_filter_pred(pred, k);
        }
    }
}

/// Whether no two pages of `pages` share a name.
pub open spec fn names_distinct(pages: Seq<PageModel>) -> bool {
    forall|i: int, j: int|
        0 <= i < pages.len() && 0 <= j < pages.len() && i != j ==> #[trigger] pages[i].name
            != #[trigger] pages[j].name
}

proof fn lemma_shown_names_distinct(pages: Seq<PageModel>)
    requires
        names_distinct(pages),
    ensures
        names_distinct(pages.filter(|p: PageModel| shown_in_nav(p))),
    decreases pages.len(),
{
    let pred = |p: PageModel| shown_in_nav(p);
    if pages.len() > 0 {
        let init = pages.drop_last();
        let x = pages.last();
        assert(names_distinct(init)) by {
            assert forall|i: int, j: int|
                0 <= i < init.len() && 0 <= j < init.len() && i != j implies #[trigger] init[i].name
                != #[trigger] init[j].name by {
                assert(init[i] == pages[i] && init[j] == pages[j]);
            }
        }
        lemma_shown_names_distinct(init);
        assert(pages =~= init.push(x));
        init.lemma_filter_push(x, pred);
        if shown_in_nav(x) {
            let s0 = init.filter(pred);
            let s1 = s0.push(x);
            assert forall|i: int| 0 <= i < s0.len() implies #[trigger] s0[i].name != x.name by {
                assert(s0.contains(s0[i]));
                lemma_shown_page_is_a_page(init, s0[i]);
                let m = choose|m: int| 0 <= m < init.len() && init[m] == s0[i];
                assert(pages[m] == init[m] && pages[pages.len() - 1] == x);
            }
            assert forall|i: int, j: int|
                0 <= i < s1.len() && 0 <= j < s1.len() && i != j implies #[trigger] s1[i].name
                != #[trigger] s1[j].name by {
                if i < s0.len() && j < s0.len() {
                    assert(s1[i] == s0[i] && s1[j] == s0[j]);
                } else if i < s0.len() {
                    assert(s1[i] == s0[i]);
                } else if j < s0.len() {
                    assert(s1[j] == s0[j]);
                }
            }
        }
    }
}

proof fn lemma_shown_page_is_a_page(pages: Seq<PageModel>, q: PageModel)
    requires
        pages.filter(|p: PageModel| shown_in_nav(p)).contains(q),
    ensures
        pages.contains(q),
    decreases pages.len(),
{
    let pred = |p: PageModel| shown_in_nav(p);
    if pages.len() > 0 {
        let init = pages.drop_last();
        let x = pages.last();
        assert(pages =~= init.push(x));
        init.lemma_filter_push(x, pred);
        if q != x {
            let f = init.filter(pred);
            if shown_in_nav(x) {
                let k = choose|k: int| 0 <= k < f.push(x).len() && f.push(x)[k] == q;
                assert(k < f.len());
                assert(f[k] == q);
            }
            lemma_shown_page_is_a_page(init, q);
            let m = choose|m: int| 0 <= m < init.len() && init[m] == q;
            assert(pages[m] == q);
        } else {
            assert(pages[pages.len() - 1] == q);
        }
    } else {
        reveal(Seq::filter);
    }
}

/// When page names are distinct and the current page is listed, exactly one entry of
/// the navigation list is marked active: the current page's own.
pub proof fn lemma_nav_marks_exactly_current(current: PageModel, pages: Seq<PageModel>)
    requires
        names_distinct(pages),
        pages.contains(current),
        shown_in_nav(current),
    ensures
        ({
            let shown = pages.filter(|p: PageModel| shown_in_nav(p));
            let e = nav_entries(pages, current.name);
            exists|k: int|
                0 <= k < e.len() && #[trigger] shown[k] == current && e[k] == nav_entry(
                    current,
                    true,
                ) && forall|j: int|
                    0 <= j < e.len() && j != k ==> e[j] == nav_entry(#[trigger] shown[j], false)
        }),
{
    let pred = |p: PageModel| shown_in_nav(p);
    let shown = pages.filter(pred);
    let e = nav_entries(pages, current.name);
    lemma_nav_lists_shown_pages(current, pages);
    lemma_shown_names_distinct(pages);
    assert(shown.contains(current));
    let k = choose|k: int| 0 <= k < shown.len() && shown[k] == current;
    assert(e[k] == nav_entry(current, true));
    assert forall|j: int| 0 <= j < e.len() && j != k implies e[j] == nav_entry(
        #[trigger] shown[j],
        false,
    ) by {
        assert(shown[j].name != shown[k].name);
    }
}

/// What resolving one directive asks for.
#[derive(Debug)]
pub enum Step {
    /// No directive is left: the text is fully resolved.
    Done,
    /// The first directive was replaced in place; the new text is to be scanned again.
    Replace(String),
    /// The text is `body` spliced into the template `name` at its `pagecontent` marker.
    Extend { name: String, body: String },
    /// The directive at `at` becomes the template `name`, itself fully resolved.
    Use { name: String, at: TemplateInstance },
    /// The directive at `at` becomes the local time now, in `format`.
    Date { format: Option<String>, at: TemplateInstance },
    /// The directive at `at` becomes what `command` prints when run with `args`.
    Exec { command: String, args: Vec<String>, at: TemplateInstance },
}

/// The mathematical value of a [`Step`].
pub enum StepModel {
    Done,
    Replace(Seq<char>),
    Extend(Seq<char>, Seq<char>),
    Use(Seq<char>, InstanceModel),
    Date(Option<Seq<char>>, InstanceModel),
    Exec(Seq<char>, Seq<Seq<char>>, InstanceModel),
}

impl View for Step {
    type V = StepModel;

    open spec fn view(&self) -> StepModel {
        match self {
            Step::Done => StepModel::Done,
            Step::Replace(c) => StepModel::Replace(c@),
            Step::Extend { name, body } => StepModel::Extend(name@, body@),
            Step::Use { name, at } => StepModel::Use(name@, at@),
            Step::Date { format, at } => StepModel::Date(
                match format {
                    Some(f) => Some(f@),
                    None => None,
                },
                at@,
            ),
            Step::Exec { command, args, at } => StepModel::Exec(command@, views(args@), at@),
        }
    }
}

/// The step that resolves the first directive of `content` on `page`, among `pages`.
pub open spec fn step_of(
    content: Seq<char>,
    page: PageModel,
    pages: Seq<PageModel>,
) -> core::result::Result<StepModel, ErrorModel> {
    match scan(content) {
        Err(e) => Err(e),
        Ok(None) => Ok(StepModel::Done),
        Ok(Some(m)) => match m.template {
            TemplateModel::Extends(n) => Ok(
                StepModel::Extend(n, splice(content, m.start_pos, m.end_pos, Seq::empty())),
            ),
            TemplateModel::Use(n) => Ok(StepModel::Use(n, m)),
            TemplateModel::PageName => Ok(
                StepModel::Replace(splice(content, m.start_pos, m.end_pos, page.name)),
            ),
            TemplateModel::NavItems => Ok(
                StepModel::Replace(
                    splice(content, m.start_pos, m.end_pos, nav_text(pages, page.name)),
                ),
            ),
            TemplateModel::CurrentDate(f) => Ok(StepModel::Date(f, m)),
            TemplateModel::Exec(c, a) => Ok(StepModel::Exec(c, a, m)),
            TemplateModel::PageContent => Err(ErrorModel::ToplevelPageContent),
        },
    }
}

/// Resolves the first directive of `content` on `page`, among `pages`, as far as
/// that can be done without reading a template, the clock or a command's output.
pub fn resolve_step(content: &str, page: &Page, pages: &Vec<Page>) -> (r: Result<Step>)
    ensures
        result_view(r) == step_of(content@, page@, page_views(pages@)),
        r matches Ok(Step::Use { at, .. }) ==> at.start_pos <= at.end_pos < content@.len(),
        r matches Ok(Step::Date { at, .. }) ==> at.start_pos <= at.end_pos < content@.len(),
        r matches Ok(Step::Exec { at, .. }) ==> at.start_pos <= at.end_pos < content@.len(),
{
    let t = match find_next_template(content) {
        Err(e) => return Err(e),
        Ok(None) => return Ok(Step::Done),
        Ok(Some(t)) => t,
    };
    match &t.template {
        Template::Extends { name } => {
            let name = name.clone();
            let body = t.remove_between(content);
            Ok(Step::Extend { name, body })
        },
        Template::Use { name } => {
            let name = name.clone();
            Ok(Step::Use { name, at: t })
        },
        Template::PageName => Ok(Step::Replace(t.insert_between(content, &page.name))),
        Template::NavItems => {
            let nav = nav_items(page, pages);
            Ok(Step::Replace(t.insert_between(content, &nav)))
        },
        Template::CurrentDate { format } => {
            let format = match format {
                Some(f) => Some(f.clone()),
                None => None,
            };
            Ok(Step::Date { format, at: t })
        },
        Template::Exec { command, args } => {
            let command = command.clone();
            let args = clone_all(args);
            Ok(Step::Exec { command, args, at: t })
        },
        Template::PageContent => Err(Error::ToplevelPageContent),
    }
}

fn clone_all(v: &Vec<String>) -> (r: Vec<String>)
    ensures
        views(r@) == views(v@),
{
    let mut out: Vec<String> = Vec::new();
    let mut k: usize = 0;
    while k < v.len()
        invariant
            k <= v.len(),
            views(out@) == views(v@).subrange(0, k as int),
        decreases v.len() - k,
    {
        let ghost before = out@;
        let a = v[k].clone();
        out.push(a);
        assert(views(out@) =~= views(before).push(a@));
        assert(views(v@).subrange(0, k + 1) =~= views(v@).subrange(0, k as int).push(v@[k as int]@));
        k = k + 1;
    }
    assert(views(v@).subrange(0, v.len() as int) =~= views(v@));
    out
}

/// The text that an `extends` leads to: `body` spliced into `template` at its
/// `pagecontent` marker, trimmed.
pub fn splice_page_content(template: &str, body: &str) -> (r: Result<String>)
    ensures
        match find_kind(template@, "pagecontent"@, 0) {
            Err(e) => r matches Err(x) && x@ == e,
            Ok(None) => r matches Err(x) && x@ == ErrorModel::ExtendWithNoPageContent,
            Ok(Some(m)) => r matches Ok(c) && c@ == trim(
                splice(template@, m.start_pos, m.end_pos, body@),
            ),
        },
{
    let marker = match find_template(template, "pagecontent") {
        Err(e) => return Err(e),
        Ok(None) => return Err(Error::ExtendWithNoPageContent),
        Ok(Some(m)) => m,
    };
    let spliced = marker.insert_between(template, body);
    Ok(trim_text(&spliced))
}

/// The text after an `exec` directive at `at` ran: its output `stdout` in place of
/// the directive when it succeeded, else the failure with its exit code and `stderr`.
pub fn exec_outcome(
    content: &str,
    at: &TemplateInstance,
    success: bool,
    code: Option<i32>,
    stdout: &str,
    stderr: &str,
) -> (r: Result<String>)
    requires
        at.start_pos <= at.end_pos < content@.len(),
    ensures
        success ==> (r matches Ok(c) && c@ == splice(
            content@,
            at.start_pos as int,
            at.end_pos as int,
            stdout@,
        )),
        !success ==> (r matches Err(e) && e@ == ErrorModel::ExecCommandFailed(code, stderr@)),
{
    if success {
        Ok(at.insert_between(content, stdout))
    } else {
        Err(Error::ExecCommandFailed(code, stderr.to_owned()))
    }
}

/// Whether `c` is an ASCII digit.
pub open spec fn is_digit(c: char) -> bool {
    '0' <= c && c <= '9'
}

/// Whether every character of `s` is an ASCII digit.
pub open spec fn all_digits(s: Seq<char>) -> bool {
    forall|i: int| 0 <= i < s.len() ==> is_digit(#[trigger] s[i])
}

/// A year as `%Y` writes it: four digits, zero-padded, for the years 0 to 9999;
/// otherwise a sign and at least four digits.
pub open spec fn year_shape(s: Seq<char>) -> bool {
    (s.len() == 4 && all_digits(s)) || (s.len() >= 5 && (s[0] == '+' || s[0] == '-')
        && all_digits(s.drop_first()))
}

/// Text as `%Y-%m-%d %H:%M:%S` writes it: the year as `%Y` does, then
/// `-MM-DD HH:MM:SS` with two digits in each field.
pub open spec fn timestamp_shape(s: Seq<char>) -> bool {
    let n = s.len() as int;
    &&& n >= 19
    &&& year_shape(s.subrange(0, n - 15))
    &&& s[n - 15] == '-' && is_digit(s[n - 14]) && is_digit(s[n - 13])
    &&& s[n - 12] == '-' && is_digit(s[n - 11]) && is_digit(s[n - 10])
    &&& s[n - 9] == ' ' && is_digit(s[n - 8]) && is_digit(s[n - 7])
    &&& s[n - 6] == ':' && is_digit(s[n - 5]) && is_digit(s[n - 4])
    &&& s[n - 3] == ':' && is_digit(s[n - 2]) && is_digit(s[n - 1])
}

/// Whether chrono's strftime parser accepts `pattern`: it rejects an unknown
/// specifier; a local date and time supply every field a pattern can ask for.
pub uninterp spec fn strftime_accepts(pattern: Seq<char>) -> bool;

/// Relies on chrono's `Local::now` and `DateTime::format`: the local time now written
/// with the strftime-style `pattern`; `None` where chrono reports the pattern invalid.
/// chrono fails only on an unknown specifier or a missing date or time field, so
/// the patterns `%Y-%m-%d %H:%M:%S` and `%Y` always succeed. `%Y` writes the year
/// zero-padded to four digits, with a sign outside 0 to 9999; `%m`, `%d`, `%H`, `%M`
/// and `%S` write two zero-padded digits.
#[verifier::external_body]
fn format_local_now(pattern: &str) -> (r: Option<String>)
    ensures
        (r is Some) == strftime_accepts(pattern@),
        r is Some || pattern@ != "%Y-%m-%d %H:%M:%S"@,
        r is None || pattern@ != "%Y-%m-%d %H:%M:%S"@ || timestamp_shape(r->0@),
        r is Some || pattern@ != "%Y"@,
        r is None || pattern@ != "%Y"@ || year_shape(r->0@),
{
    let mut out = String::new();
    match write!(out, "{}", chrono::Local::now().format(pattern)) {
        Ok(()) => Some(out),
        Err(_) => None,
    }
}

/// The pattern that `currentdate` uses: `format`, else `%Y-%m-%d %H:%M:%S`.
pub open spec fn date_pattern(format: Option<Seq<char>>) -> Seq<char> {
    match format {
        Some(f) => f,
        None => "%Y-%m-%d %H:%M:%S"@,
    }
}

/// The local time now in `format`, or in `%Y-%m-%d %H:%M:%S` when none is given.
pub fn current_date(format: Option<&str>) -> (r: Result<String>)
    ensures
        format is None ==> (r matches Ok(s) && timestamp_shape(s@)),
        (format matches Some(f) && f@ == "%Y"@) ==> (r matches Ok(s) && year_shape(s@)),
        (r is Ok) == strftime_accepts(
            date_pattern(
                match format {
                    Some(f) => Some(f@),
                    None => None,
                },
            ),
        ),
        r matches Err(e) ==> e@ == ErrorModel::InvalidDateFormat(
            date_pattern(
                match format {
                    Some(f) => Some(f@),
                    None => None,
                },
            ),
        ),
{
    let pattern = match format {
        Some(f) => f,
        None => "%Y-%m-%d %H:%M:%S",
    };
    match format_local_now(pattern) {
        Some(s) => Ok(s),
        None => Err(Error::InvalidDateFormat(pattern.to_owned())),
    }
}

/// Text without a directive resolves to itself, trimmed: resolution starts from the
/// trimmed text, and its first step already finds nothing left to do.
pub proof fn lemma_plain_text_is_resolved(content: Seq<char>, page: PageModel, pages: Seq<PageModel>)
    requires
        find_pair(content, '{', 0) is None,
    ensures
        step_of(trim(content), page, pages) == Ok::<StepModel, ErrorModel>(StepModel::Done),
{
    lemma_trim_keeps_no_pair(content, '{');
}

} // verus!
