use crate::errors::{result_view, Error, ErrorModel, Result};
use crate::text::{
    chars_of, find_pair, find_pair_exec, lemma_find_pair_bounds, same_text, trim, trim_bounds,
    views,
};
use vstd::prelude::*;

verus! {

broadcast use vstd::string::group_string_axioms;

/// A directive found between `{{` and `}}`.
#[derive(Debug)]
pub enum Template {
    Extends { name: String },
    Use { name: String },
    PageName,
    NavItems,
    CurrentDate { format: Option<String> },
    Exec { command: String, args: Vec<String> },
    PageContent,
}

/// The mathematical value of a [`Template`].
pub enum TemplateModel {
    Extends(Seq<char>),
    Use(Seq<char>),
    PageName,
    NavItems,
    CurrentDate(Option<Seq<char>>),
    Exec(Seq<char>, Seq<Seq<char>>),
    PageContent,
}

impl View for Template {
    type V = TemplateModel;

    open spec fn view(&self) -> TemplateModel {
        match self {
            Template::Extends { name } => TemplateModel::Extends(name@),
            Template::Use { name } => TemplateModel::Use(name@),
            Template::PageName => TemplateModel::PageName,
            Template::NavItems => TemplateModel::NavItems,
            Template::CurrentDate { format } => TemplateModel::CurrentDate(
                match format {
                    Some(f) => Some(f@),
                    None => None,
                },
            ),
            Template::Exec { command, args } => TemplateModel::Exec(command@, views(args@)),
            Template::PageContent => TemplateModel::PageContent,
        }
    }
}

/// The keyword that introduces each kind of directive.
pub open spec fn kind_name(t: TemplateModel) -> Seq<char> {
    match t {
        TemplateModel::Extends(_) => "extends"@,
        TemplateModel::Use(_) => "use"@,
        TemplateModel::PageName => "pagename"@,
        TemplateModel::NavItems => "navitems"@,
        TemplateModel::CurrentDate(_) => "currentdate"@,
        TemplateModel::Exec(_, _) => "exec"@,
        TemplateModel::PageContent => "pagecontent"@,
    }
}

impl Template {
    /// The keyword that introduces this directive.
    pub fn id(&self) -> (r: &'static str)
        ensures
            r@ == kind_name(self@),
    {
        match self {
            Template::Extends { .. } => "extends",
            Template::Use { .. } => "use",
            Template::PageName => "pagename",
            Template::NavItems => "navitems",
            Template::CurrentDate { .. } => "currentdate",
            Template::Exec { .. } => "exec",
            Template::PageContent => "pagecontent",
        }
    }
}

/// The whitespace that separates the words of a directive.
pub open spec fn is_separator(c: char) -> bool {
    c == ' ' || c == '\t' || c == '\r' || c == '\n'
}

pub open spec fn is_quote(c: char) -> bool {
    c == '"' || c == '\''
}

/// The words of `s[i..]`, given the word that started at `start`, the quote that is
/// open (if any) and the words `acc` already split off; `None` when a quote is left
/// open. Words are split at whitespace outside quotes; a quote ends the word before
/// it and starts a word that runs verbatim to the matching quote.
pub open spec fn split_words(
    s: Seq<char>,
    i: int,
    start: int,
    quote: Option<char>,
    acc: Seq<Seq<char>>,
) -> Option<Seq<Seq<char>>>
    decreases s.len() - i,
{
    if i >= s.len() {
        if quote is Some {
            None
        } else if start < s.len() {
            Some(acc.push(s.subrange(start, s.len() as int)))
        } else {
            Some(acc)
        }
    } else {
        match quote {
            Some(q) => if s[i] == q {
                split_words(s, i + 1, i + 1, None, acc.push(s.subrange(start, i)))
            } else {
                split_words(s, i + 1, start, quote, acc)
            },
            None => if is_separator(s[i]) {
                let acc2 = if start != i {
                    acc.push(s.subrange(start, i))
                } else {
                    acc
                };
                split_words(s, i + 1, i + 1, None, acc2)
            } else if is_quote(s[i]) {
                let acc2 = if start != i {
                    acc.push(s.subrange(start, i))
                } else {
                    acc
                };
                split_words(s, i + 1, i + 1, Some(s[i]), acc2)
            } else {
                split_words(s, i + 1, start, None, acc)
            },
        }
    }
}

/// The words of a directive's text.
pub open spec fn words(s: Seq<char>) -> Option<Seq<Seq<char>>> {
    split_words(s, 0, 0, None, Seq::empty())
}

/// The directive that a list of words names.
pub open spec fn directive_of(w: Seq<Seq<char>>) -> core::result::Result<
    TemplateModel,
    ErrorModel,
> {
    if w.len() == 0 {
        Err(ErrorModel::Empty)
    } else if w[0] == "extends"@ {
        if w.len() >= 2 {
            Ok(TemplateModel::Extends(w[1]))
        } else {
            Err(ErrorModel::MissingArgument("name"@))
        }
    } else if w[0] == "use"@ {
        if w.len() >= 2 {
            Ok(TemplateModel::Use(w[1]))
        } else {
            Err(ErrorModel::MissingArgument("name"@))
        }
    } else if w[0] == "pagename"@ {
        Ok(TemplateModel::PageName)
    } else if w[0] == "navitems"@ {
        Ok(TemplateModel::NavItems)
    } else if w[0] == "currentdate"@ {
        Ok(
            TemplateModel::CurrentDate(
                if w.len() >= 2 {
                    Some(w[1])
                } else {
                    None
                },
            ),
        )
    } else if w[0] == "exec"@ {
        if w.len() >= 2 {
            Ok(TemplateModel::Exec(w[1], w.subrange(2, w.len() as int)))
        } else {
            Err(ErrorModel::MissingArgument("command"@))
        }
    } else if w[0] == "pagecontent"@ {
        Ok(TemplateModel::PageContent)
    } else {
        Err(ErrorModel::UnknownTemplate(w[0]))
    }
}

/// The directive that the text between `{{` and `}}` denotes.
pub open spec fn parse_spec(inner: Seq<char>) -> core::result::Result<TemplateModel, ErrorModel> {
    let t = trim(inner);
    if t.len() == 0 {
        Err(ErrorModel::Empty)
    } else {
        match words(t) {
            None => Err(ErrorModel::UnclosedQuote),
            Some(w) => directive_of(w),
        }
    }
}

/// Splits `t` into words.
fn split_into_words(t: &str) -> (r: Option<Vec<String>>)
    ensures
        match r {
            Some(v) => words(t@) == Some(views(v@)),
            None => words(t@) is None,
        },
{
    let v = chars_of(t);
    let n = v.len();
    let mut acc: Vec<String> = Vec::new();
    let mut quote: Option<char> = None;
    let mut start: usize = 0;
    let mut i: usize = 0;
    assert(views(acc@) =~= Seq::<Seq<char>>::empty());
    while i < n
        invariant
            v@ == t@,
            n == v.len(),
            start <= i <= n,
            words(t@) == split_words(t@, i as int, start as int, quote, views(acc@)),
        decreases n - i,
    {
        let c = v[i];
        match quote {
            Some(q) => {
                if c == q {
                    let ghost before = acc@;
                    let w = t.substring_char(start, i).to_owned();
                    acc.push(w);
                    assert(views(acc@) =~= views(before).push(w@));
                    quote = None;
                    start = i + 1;
                }
            },
            None => {
                if c == ' ' || c == '\t' || c == '\r' || c == '\n' {
                    if start != i {
                        let ghost before = acc@;
                        let w = t.substring_char(start, i).to_owned();
                        acc.push(w);
                        assert(views(acc@) =~= views(before).push(w@));
                    }
                    start = i + 1;
                } else if c == '"' || c == '\'' {
                    if start != i {
                        let ghost before = acc@;
                        let w = t.substring_char(start, i).to_owned();
                        acc.push(w);
                        assert(views(acc@) =~= views(before).push(w@));
                    }
                    start = i + 1;
                    quote = Some(c);
                }
            },
        }
        i = i + 1;
    }
    if quote.is_some() {
        return None;
    }
    if start < n {
        let ghost before = acc@;
        let w = t.substring_char(start, n).to_owned();
        acc.push(w);
        assert(views(acc@) =~= views(before).push(w@));
    }
    Some(acc)
}

/// Parses the text between `{{` and `}}` into a directive.
pub fn parse_template(content: &str) -> (r: Result<Template>)
    ensures
        result_view(r) == parse_spec(content@),
{
    let v = chars_of(content);
    let (lo, hi) = trim_bounds(&v);
    let t = content.substring_char(lo, hi);
    if lo == hi {
        return Err(Error::Empty);
    }
    let w = match split_into_words(t) {
        Some(w) => w,
        None => return Err(Error::UnclosedQuote),
    };
    proof {
        assert(t@ == trim(content@));
    }
    if w.len() == 0 {
        return Err(Error::Empty);
    }
    let head = w[0].as_str();
    if same_text(head, "extends") {
        if w.len() >= 2 {
            Ok(Template::Extends { name: w[1].clone() })
        } else {
            Err(Error::MissingArgument("name"))
        }
    } else if same_text(head, "use") {
        if w.len() >= 2 {
            Ok(Template::Use { name: w[1].clone() })
        } else {
            Err(Error::MissingArgument("name"))
        }
    } else if same_text(head, "pagename") {
        Ok(Template::PageName)
    } else if same_text(head, "navitems") {
        Ok(Template::NavItems)
    } else if same_text(head, "currentdate") {
        if w.len() >= 2 {
            Ok(Template::CurrentDate { format: Some(w[1].clone()) })
        } else {
            Ok(Template::CurrentDate { format: None })
        }
    } else if same_text(head, "exec") {
        if w.len() >= 2 {
            let mut args: Vec<String> = Vec::new();
            let mut k: usize = 2;
            while k < w.len()
                invariant
                    2 <= k <= w.len(),
                    views(args@) == views(w@).subrange(2, k as int),
                decreases w.len() - k,
            {
                let ghost before = args@;
                let a = w[k].clone();
                args.push(a);
                assert(views(args@) =~= views(before).push(a@));
                assert(views(w@).subrange(2, k + 1) =~= views(w@).subrange(2, k as int).push(
                    w@[k as int]@,
                ));
                k = k + 1;
            }
            Ok(Template::Exec { command: w[1].clone(), args })
        } else {
            Err(Error::MissingArgument("command"))
        }
    } else if same_text(head, "pagecontent") {
        Ok(Template::PageContent)
    } else {
        Err(Error::UnknownTemplate(w[0].clone()))
    }
}

/// A directive together with where it stands: `start_pos` is the index of the
/// opening `{{`, `end_pos` the index of the last `}` of the closing `}}`. Positions
/// count characters, so a span never splits one; in ASCII text they are byte offsets.
#[derive(Debug)]
pub struct TemplateInstance {
    pub start_pos: usize,
    pub end_pos: usize,
    pub template: Template,
}

/// The mathematical value of a [`TemplateInstance`].
pub struct InstanceModel {
    pub start_pos: int,
    pub end_pos: int,
    pub template: TemplateModel,
}

impl View for TemplateInstance {
    type V = InstanceModel;

    open spec fn view(&self) -> InstanceModel {
        InstanceModel {
            start_pos: self.start_pos as int,
            end_pos: self.end_pos as int,
            template: self.template@,
        }
    }
}

/// The view of the result of a search for a directive.
pub open spec fn found_view(r: Result<Option<TemplateInstance>>) -> core::result::Result<
    Option<InstanceModel>,
    ErrorModel,
> {
    match r {
        Ok(Some(t)) => Ok(Some(t@)),
        Ok(None) => Ok(None),
        Err(e) => Err(e@),
    }
}

/// `s` with `s[start..=end]` replaced by `ins`.
pub open spec fn splice(s: Seq<char>, start: int, end: int, ins: Seq<char>) -> Seq<char> {
    s.subrange(0, start) + ins + s.subrange(end + 1, s.len() as int)
}

/// The span of the first directive of `s`: its start, its end and the text between
/// the braces. It opens at the first `{{` and closes at the first `}}` after it.
pub open spec fn span_of(s: Seq<char>) -> core::result::Result<
    Option<(int, int, Seq<char>)>,
    ErrorModel,
> {
    match find_pair(s, '{', 0) {
        None => Ok(None),
        Some(p) => match find_pair(s, '}', p) {
            None => Err(ErrorModel::UnclosedTemplate),
            Some(q) => Ok(Some((p, q + 1, s.subrange(p + 2, q)))),
        },
    }
}

/// The first directive of `s`, parsed.
pub open spec fn scan(s: Seq<char>) -> core::result::Result<Option<InstanceModel>, ErrorModel> {
    match span_of(s) {
        Err(e) => Err(e),
        Ok(None) => Ok(None),
        Ok(Some((a, b, inner))) => match parse_spec(inner) {
            Err(e) => Err(e),
            Ok(t) => Ok(Some(InstanceModel { start_pos: a, end_pos: b, template: t })),
        },
    }
}

pub proof fn lemma_scan_bounds(s: Seq<char>)
    ensures
        scan(s) matches Ok(Some(m)) ==> 0 <= m.start_pos && m.start_pos + 3 <= m.end_pos < s.len(),
{
    lemma_find_pair_bounds(s, '{', 0);
    if let Some(p) = find_pair(s, '{', 0) {
        lemma_find_pair_bounds(s, '}', p);
    }
}

/// The first directive of kind `id` in `s[offset..]`, skipping the others; its
/// position counts from the start of `s`.
pub open spec fn find_kind(s: Seq<char>, id: Seq<char>, offset: int) -> core::result::Result<
    Option<InstanceModel>,
    ErrorModel,
>
    decreases s.len() - offset,
    via find_kind_decreases
{
    if offset < 0 || offset > s.len() {
        Ok(None)
    } else {
        match scan(s.subrange(offset, s.len() as int)) {
            Err(e) => Err(e),
            Ok(None) => Ok(None),
            Ok(Some(m)) => if kind_name(m.template) == id {
                Ok(
                    Some(
                        InstanceModel {
                            start_pos: m.start_pos + offset,
                            end_pos: m.end_pos + offset,
                            template: m.template,
                        },
                    ),
                )
            } else {
                find_kind(s, id, offset + m.end_pos + 1)
            },
        }
    }
}

#[via_fn]
proof fn find_kind_decreases(s: Seq<char>, id: Seq<char>, offset: int) {
    if !(offset < 0 || offset > s.len()) {
        lemma_scan_bounds(s.subrange(offset, s.len() as int));
    }
}

impl TemplateInstance {
    /// `content` with this directive's span replaced by `insert`.
    pub fn insert_between(&self, content: &str, insert: &str) -> (r: String)
        requires
            self.start_pos <= self.end_pos < content@.len(),
        ensures
            r@ == splice(content@, self.start_pos as int, self.end_pos as int, insert@),
    {
        let n = content.unicode_len();
        let mut out = content.substring_char(0, self.start_pos).to_owned();
        out.append(insert);
        out.append(content.substring_char(self.end_pos + 1, n));
        out
    }

    /// `content` with this directive's span removed.
    pub fn remove_between(&self, content: &str) -> (r: String)
        requires
            self.start_pos <= self.end_pos < content@.len(),
        ensures
            r@ == splice(content@, self.start_pos as int, self.end_pos as int, Seq::empty()),
    {
        let n = content.unicode_len();
        let mut out = content.substring_char(0, self.start_pos).to_owned();
        out.append(content.substring_char(self.end_pos + 1, n));
        assert(out@ =~= splice(content@, self.start_pos as int, self.end_pos as int, Seq::empty()));
        out
    }
}

/// Where a directive stands, as in [`TemplateInstance`], and the raw text between
/// its braces.
#[derive(Debug)]
pub struct DirectiveSpan {
    pub start_pos: usize,
    pub end_pos: usize,
    pub inner: String,
}

/// Finds the first directive of `content` without parsing it.
pub fn find_next_directive(content: &str) -> (r: Result<Option<DirectiveSpan>>)
    ensures
        match r {
            Ok(Some(d)) => span_of(content@) == Ok::<_, ErrorModel>(
                Some((d.start_pos as int, d.end_pos as int, d.inner@)),
            ),
            Ok(None) => span_of(content@) == Ok::<Option<(int, int, Seq<char>)>, ErrorModel>(None),
            Err(e) => span_of(content@) == Err::<Option<(int, int, Seq<char>)>, _>(e@),
        },
        r matches Ok(Some(d)) ==> d.start_pos + 3 <= d.end_pos < content@.len(),
{
    let v = chars_of(content);
    let start_pos = match find_pair_exec(&v, '{', 0) {
        Some(p) => p,
        None => return Ok(None),
    };
    proof {
        lemma_find_pair_bounds(v@, '{', 0);
    }
    let close = match find_pair_exec(&v, '}', start_pos) {
        Some(q) => q,
        None => return Err(Error::UnclosedTemplate),
    };
    proof {
        lemma_find_pair_bounds(v@, '}', start_pos as int);
    }
    assert(start_pos + 2 <= close && close + 1 < v.len());
    let inner = content.substring_char(start_pos + 2, close).to_owned();
    Ok(Some(DirectiveSpan { start_pos, end_pos: close + 1, inner }))
}

/// Finds and parses the first directive of `content`.
pub fn find_next_template(content: &str) -> (r: Result<Option<TemplateInstance>>)
    ensures
        found_view(r) == scan(content@),
        r matches Ok(Some(t)) ==> t.start_pos + 3 <= t.end_pos < content@.len(),
{
    let d = match find_next_directive(content) {
        Err(e) => return Err(e),
        Ok(None) => return Ok(None),
        Ok(Some(d)) => d,
    };
    let template = match parse_template(&d.inner) {
        Ok(t) => t,
        Err(e) => return Err(e),
    };
    Ok(Some(TemplateInstance { start_pos: d.start_pos, end_pos: d.end_pos, template }))
}

/// Finds the first directive of kind `target_id` in `content`, skipping the others.
pub fn find_template(content: &str, target_id: &str) -> (r: Result<Option<TemplateInstance>>)
    ensures
        found_view(r) == find_kind(content@, target_id@, 0),
        r matches Ok(Some(t)) ==> t.start_pos <= t.end_pos < content@.len(),
{
    let n = content.unicode_len();
    let mut offset: usize = 0;
    while offset <= n
        invariant
            n == content@.len(),
            offset <= n,
            find_kind(content@, target_id@, 0) == find_kind(content@, target_id@, offset as int),
        decreases n - offset,
    {
        let rest = content.substring_char(offset, n);
        match find_next_template(rest) {
            Err(e) => return Err(e),
            Ok(None) => return Ok(None),
            Ok(Some(t)) => {
                if same_text(t.template.id(), target_id) {
                    return Ok(
                        Some(
                            TemplateInstance {
                                start_pos: t.start_pos + offset,
                                end_pos: t.end_pos + offset,
                                template: t.template,
                            },
                        ),
                    );
                }
                offset = offset + t.end_pos + 1;
            },
        }
    }
    Ok(None)
}

} // verus!
