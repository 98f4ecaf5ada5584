use crate::page::{Page, PageModel};
use vstd::prelude::*;

verus! {

broadcast use vstd::string::group_string_axioms;

/// `name` joined onto the directory `base` with a `/`; a `name` that starts with
/// `/` stands alone.
pub open spec fn join_path(base: Seq<char>, name: Seq<char>) -> Seq<char> {
    if name.len() > 0 && name[0] == '/' {
        name
    } else if base.len() == 0 {
        name
    } else if base.last() == '/' {
        base + name
    } else {
        base + "/"@ + name
    }
}

/// `name` joined onto the directory `base`.
pub fn join(base: &str, name: &str) -> (r: String)
    ensures
        r@ == join_path(base@, name@),
{
    let n = base.unicode_len();
    if name.unicode_len() > 0 && name.get_char(0) == '/' {
        return name.to_owned();
    }
    if n == 0 {
        return name.to_owned();
    }
    let mut out = base.to_owned();
    if base.get_char(n - 1) != '/' {
        out.append("/");
    }
    out.append(name);
    out
}

/// Where a site's sources are read and its output is written.
pub struct Builder {
    pub public_dir: String,
    pub pages_dir: String,
    pub templates_dir: String,
    pub target_dir: String,
}

/// The file that holds the template called `name`.
pub open spec fn template_file_of(templates_dir: Seq<char>, name: Seq<char>) -> Seq<char> {
    join_path(templates_dir, name + ".html"@)
}

/// Where a page is written: its configured `output`, else `<name>/index.html`,
/// under the target directory.
pub open spec fn output_path_of(target: Seq<char>, page: PageModel) -> Seq<char> {
    match page.config {
        Some(c) => match c.output {
            Some(o) => join_path(target, o),
            None => join_path(join_path(target, page.name), "index.html"@),
        },
        None => join_path(join_path(target, page.name), "index.html"@),
    }
}

impl Builder {
    /// A builder that reads `public`, `pages` and `templates` under `source_dir` and
    /// writes into `target_dir`.
    pub fn new(source_dir: &str, target_dir: &str) -> (r: Builder)
        ensures
            r.public_dir@ == join_path(source_dir@, "public"@),
            r.pages_dir@ == join_path(source_dir@, "pages"@),
            r.templates_dir@ == join_path(source_dir@, "templates"@),
            r.target_dir@ == target_dir@,
    {
        Builder {
            public_dir: join(source_dir, "public"),
            pages_dir: join(source_dir, "pages"),
            templates_dir: join(source_dir, "templates"),
            target_dir: target_dir.to_owned(),
        }
    }

    /// The directory that the static assets are copied into.
    pub fn public_target(&self) -> (r: String)
        ensures
            r@ == join_path(self.target_dir@, "public"@),
    {
        join(&self.target_dir, "public")
    }

    /// The file that holds the template called `name`.
    pub fn template_file(&self, name: &str) -> (r: String)
        ensures
            r@ == template_file_of(self.templates_dir@, name@),
    {
        let mut file = name.to_owned();
        file.append(".html");
        join(&self.templates_dir, &file)
    }

    /// The file that `page` is written to.
    pub fn output_path(&self, page: &Page) -> (r: String)
        ensures
            r@ == output_path_of(self.target_dir@, page@),
    {
        match &page.config {
            Some(c) => match &c.output {
                Some(o) => {
                    return join(&self.target_dir, o);
                },
                None => {},
            },
            None => {},
        }
        let dir = join(&self.target_dir, &page.name);
        join(&dir, "index.html")
    }
}

} // verus!
