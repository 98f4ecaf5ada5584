use crate::errors::{Error, ErrorModel, Result};
use crate::text::{
    chars_of, find_seq, find_seq_exec, first_index, first_index_exec, last_index,
    last_index_exec, lemma_find_seq_bounds, lemma_first_index_at, lemma_first_index_none,
    lemma_last_index_at, lemma_first_index_bounds, lemma_last_index_bounds,
    matches_at, trim, trim_bounds,
};
use vstd::prelude::*;

verus! {

broadcast use vstd::string::group_string_axioms;

/// The front matter of a page.
#[derive(Debug)]
pub struct Config {
    pub title: Option<String>,
    pub path: Option<String>,
    pub output: Option<String>,
    pub navignore: bool,
}

/// The mathematical value of a [`Config`].
pub struct ConfigModel {
    pub title: Option<Seq<char>>,
    pub path: Option<Seq<char>>,
    pub output: Option<Seq<char>>,
    pub navignore: bool,
}

pub open spec fn opt_view(o: Option<String>) -> Option<Seq<char>> {
    match o {
        Some(s) => Some(s@),
        None => None,
    }
}

impl View for Config {
    type V = ConfigModel;

    open spec fn view(&self) -> ConfigModel {
        ConfigModel {
            title: opt_view(self.title),
            path: opt_view(self.path),
            output: opt_view(self.output),
            navignore: self.navignore,
        }
    }
}

/// One page: its display name, its body and its front matter.
#[derive(Debug)]
pub struct Page {
    pub name: String,
    pub content: String,
    pub config: Option<Config>,
}

/// The mathematical value of a [`Page`].
pub struct PageModel {
    pub name: Seq<char>,
    pub content: Seq<char>,
    pub config: Option<ConfigModel>,
}

impl View for Page {
    type V = PageModel;

    open spec fn view(&self) -> PageModel {
        PageModel {
            name: self.name@,
            content: self.content@,
            config: match self.config {
                Some(c) => Some(c@),
                None => None,
            },
        }
    }
}

pub open spec fn page_views(pages: Seq<Page>) -> Seq<PageModel> {
    pages.map_values(|p: Page| p@)
}

/// The display name derived from a file name: what follows the first `_`, if any,
/// without the last extension.
pub open spec fn name_from_file(f: Seq<char>) -> Seq<char> {
    let rest = match first_index(f, '_', 0) {
        Some(i) => f.subrange(i + 1, f.len() as int),
        None => f,
    };
    match last_index(rest, '.', rest.len() as int) {
        Some(j) => rest.subrange(0, j),
        None => rest,
    }
}

/// The name of a page: its `title` if the front matter sets one, else the name
/// derived from its file name.
pub open spec fn page_name(file_name: Seq<char>, config: Option<ConfigModel>) -> Seq<char> {
    match config {
        Some(c) => match c.title {
            Some(t) => t,
            None => name_from_file(file_name),
        },
        None => name_from_file(file_name),
    }
}

/// A page file's text split into its front matter (the text between a leading `+++`
/// and the next `+++`), if any, and its body; the text is trimmed first.
pub open spec fn front_matter(text: Seq<char>) -> core::result::Result<
    (Option<Seq<char>>, Seq<char>),
    ErrorModel,
> {
    let t = trim(text);
    if t.len() >= 3 && t.subrange(0, 3) == "+++"@ {
        let rest = t.subrange(3, t.len() as int);
        match find_seq(rest, "+++"@, 0) {
            None => Err(ErrorModel::UnclosedConfig),
            Some(e) => Ok((Some(rest.subrange(0, e)), rest.subrange(e + 3, rest.len() as int))),
        }
    } else {
        Ok((None, t))
    }
}

/// The display name of a page file called `file_name` that sets no title.
pub fn page_name_from_path(file_name: &str) -> (r: String)
    ensures
        r@ == name_from_file(file_name@),
{
    let v = chars_of(file_name);
    let rest: &str = match first_index_exec(&v, '_', 0) {
        Some(i) => {
            proof {
                lemma_first_index_bounds(v@, '_', 0);
            }
            file_name.substring_char(i + 1, v.len())
        },
        None => file_name,
    };
    let w = chars_of(rest);
    match last_index_exec(&w, '.') {
        Some(j) => {
            proof {
                lemma_last_index_bounds(w@, '.', w@.len() as int);
            }
            rest.substring_char(0, j).to_owned()
        },
        None => rest.to_owned(),
    }
}

/// Splits a page file's text into its front matter and its body.
pub fn split_front_matter(text: &str) -> (r: Result<(Option<String>, String)>)
    ensures
        match r {
            Ok((c, b)) => front_matter(text@) == Ok::<_, ErrorModel>((opt_view(c), b@)),
            Err(e) => front_matter(text@) == Err::<(Option<Seq<char>>, Seq<char>), _>(e@),
        },
{
    let v = chars_of(text);
    let (lo, hi) = trim_bounds(&v);
    let t = text.substring_char(lo, hi);
    let tv = chars_of(t);
    let marker = chars_of("+++");
    proof {
        reveal_strlit("+++");
    }
    if tv.len() >= 3 && matches_at(&tv, &marker, 0) {
        let rest = t.substring_char(3, tv.len());
        let rv = chars_of(rest);
        match find_seq_exec(&rv, &marker, 0) {
            None => Err(Error::UnclosedConfig),
            Some(e) => {
                proof {
                    lemma_find_seq_bounds(rv@, marker@, 0);
                }
                let config = rest.substring_char(0, e).to_owned();
                let body = rest.substring_char(e + 3, rv.len()).to_owned();
                Ok((Some(config), body))
            },
        }
    } else {
        Ok((None, t.to_owned()))
    }
}

impl Page {
    /// The page of file `file_name` with body `content` and front matter `config`.
    pub fn from_parts(file_name: &str, content: String, config: Option<Config>) -> (r: Page)
        ensures
            r@.name == page_name(file_name@, r@.config),
            r@.content == content@,
            r@.config == (match config {
                Some(c) => Some(c@),
                None => None::<ConfigModel>,
            }),
    {
        let title = match &config {
            Some(c) => match &c.title {
                Some(t) => Some(t.clone()),
                None => None,
            },
            None => None,
        };
        let name = match title {
            Some(t) => t,
            None => page_name_from_path(file_name),
        };
        Page { name, content, config }
    }
}

/// A page file named `<prefix>_<stem>.<ext>`, whose prefix holds no `_` and whose
/// stem and extension hold no `.`, is named `<stem>` when it sets no title.
pub proof fn lemma_name_drops_prefix_and_extension(
    prefix: Seq<char>,
    stem: Seq<char>,
    ext: Seq<char>,
)
    requires
        forall|i: int| 0 <= i < prefix.len() ==> prefix[i] != '_',
        forall|i: int| 0 <= i < stem.len() ==> stem[i] != '.',
        forall|i: int| 0 <= i < ext.len() ==> ext[i] != '.',
    ensures
        page_name(prefix + "_"@ + stem + "."@ + ext, None) == stem,
{
    reveal_strlit("_");
    reveal_strlit(".");
    let f = prefix + "_"@ + stem + "."@ + ext;
    let p = prefix.len() as int;
    assert(f[p] == '_');
    assert forall|j: int| 0 <= j < p implies f[j] != '_' by {
        assert(f[j] == prefix[j]);
    }
    lemma_first_index_at(f, '_', 0, p);
    let rest = f.subrange(p + 1, f.len() as int);
    assert(rest =~= stem + "."@ + ext);
    let d = stem.len() as int;
    assert(rest[d] == '.');
    assert forall|j: int| d < j < rest.len() implies rest[j] != '.' by {
        assert(rest[j] == ext[j - d - 1]);
    }
    lemma_last_index_at(rest, '.', rest.len() as int, d);
    assert(rest.subrange(0, d) =~= stem);
}

/// A page file named `<stem>.<ext>`, with no `_` and whose extension holds no `.`,
/// is named `<stem>` when it sets no title.
pub proof fn lemma_name_drops_extension(stem: Seq<char>, ext: Seq<char>)
    requires
        forall|i: int| 0 <= i < stem.len() ==> stem[i] != '_',
        forall|i: int| 0 <= i < ext.len() ==> ext[i] != '_' && ext[i] != '.',
    ensures
        page_name(stem + "."@ + ext, None) == stem,
{
    reveal_strlit(".");
    let f = stem + "."@ + ext;
    let d = stem.len() as int;
    assert forall|j: int| 0 <= j < f.len() implies f[j] != '_' by {
        if j < d {
            assert(f[j] == stem[j]);
        } else if j > d {
            assert(f[j] == ext[j - d - 1]);
        }
    }
    lemma_first_index_none(f, '_', 0);
    assert(f[d] == '.');
    assert forall|j: int| d < j < f.len() implies f[j] != '.' by {
        assert(f[j] == ext[j - d - 1]);
    }
    lemma_last_index_at(f, '.', f.len() as int, d);
    assert(f.subrange(0, d) =~= stem);
}

} // verus!
