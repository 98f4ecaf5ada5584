use crate::builder::{join, join_path};
use crate::text::{chars_of, last_index, last_index_exec, lemma_last_index_bounds};
use vstd::prelude::*;

verus! {

broadcast use vstd::string::group_string_axioms;

/// The script that the dev server appends to every HTML page: it reloads the page
/// when the server announces a rebuild.
pub const RELOAD_SCRIPT: &'static str = "
<script>
const eventSource = new EventSource(\"/_sse\");
eventSource.onmessage = (event) => {
    if (event.data === \"reload\") {
        window.location.reload();
    }
}
</script>
";

/// `s` without its leading `/`s.
pub open spec fn strip_slashes(s: Seq<char>) -> Seq<char>
    decreases s.len(),
{
    if s.len() > 0 && s[0] == '/' {
        strip_slashes(s.drop_first())
    } else {
        s
    }
}

/// The file under `asset_dir` that a request for `uri_path` names.
pub open spec fn asset_path_of(asset_dir: Seq<char>, uri_path: Seq<char>) -> Seq<char> {
    join_path(asset_dir, strip_slashes(uri_path))
}

/// The file under `asset_dir` that a request for `uri_path` names.
pub fn asset_path(asset_dir: &str, uri_path: &str) -> (r: String)
    ensures
        r@ == asset_path_of(asset_dir@, uri_path@),
{
    let v = chars_of(uri_path);
    let mut k: usize = 0;
    assert(uri_path@.subrange(0, v.len() as int) =~= uri_path@);
    while k < v.len() && v[k] == '/'
        invariant
            k <= v.len(),
            v@ == uri_path@,
            strip_slashes(uri_path@) == strip_slashes(uri_path@.subrange(k as int, v.len() as int)),
        decreases v.len() - k,
    {
        let ghost rest = uri_path@.subrange(k as int, v.len() as int);
        assert(rest.drop_first() =~= uri_path@.subrange(k + 1, v.len() as int));
        k = k + 1;
    }
    assert(uri_path@.subrange(k as int, v.len() as int) == strip_slashes(
        uri_path@.subrange(k as int, v.len() as int),
    ));
    join(asset_dir, uri_path.substring_char(k, v.len()))
}

/// The last component of a path.
pub open spec fn file_name_of(p: Seq<char>) -> Seq<char> {
    match last_index(p, '/', p.len() as int) {
        Some(i) => p.subrange(i + 1, p.len() as int),
        None => p,
    }
}

/// The extension of a path: what follows the last `.` of its last component, where
/// that `.` does not begin the component.
pub open spec fn extension_of(p: Seq<char>) -> Option<Seq<char>> {
    let f = file_name_of(p);
    match last_index(f, '.', f.len() as int) {
        Some(j) => if j > 0 {
            Some(f.subrange(j + 1, f.len() as int))
        } else {
            None
        },
        None => None,
    }
}

/// The code of `c` with ASCII upper case letters made lower case.
pub open spec fn ascii_lower(c: char) -> int {
    if 'A' <= c && c <= 'Z' {
        (c as u32) + 32
    } else {
        c as u32 as int
    }
}

/// Whether `a` and `b` are equal up to ASCII case.
pub open spec fn same_ignoring_ascii_case(a: Seq<char>, b: Seq<char>) -> bool {
    a.len() == b.len() && forall|i: int| 0 <= i < a.len() ==> ascii_lower(a[i]) == ascii_lower(b[i])
}

/// Whether the path names an HTML file: its extension is `html` in any ASCII case.
pub open spec fn is_html_path(p: Seq<char>) -> bool {
    extension_of(p) matches Some(e) && same_ignoring_ascii_case(e, "html"@)
}

fn lower_char(c: char) -> (r: u32)
    ensures
        r == ascii_lower(c),
{
    if 'A' <= c && c <= 'Z' {
        (c as u32) + 32
    } else {
        c as u32
    }
}

/// Whether `path` names an HTML file.
pub fn is_html_file(path: &str) -> (r: bool)
    ensures
        r == is_html_path(path@),
{
    let v = chars_of(path);
    let name: &str = match last_index_exec(&v, '/') {
        Some(i) => {
            proof {
                lemma_last_index_bounds(v@, '/', v@.len() as int);
            }
            path.substring_char(i + 1, v.len())
        },
        None => path,
    };
    let f = chars_of(name);
    assert(f@ == file_name_of(path@));
    let j = match last_index_exec(&f, '.') {
        Some(j) => j,
        None => return false,
    };
    proof {
        lemma_last_index_bounds(f@, '.', f@.len() as int);
    }
    if j == 0 {
        return false;
    }
    let ext = chars_of(name.substring_char(j + 1, f.len()));
    assert(extension_of(path@) == Some(ext@));
    let html = chars_of("html");
    proof {
        reveal_strlit("html");
    }
    if ext.len() != html.len() {
        return false;
    }
    let mut k: usize = 0;
    while k < ext.len()
        invariant
            k <= ext.len() == html.len(),
            html@ == "html"@,
            extension_of(path@) == Some(ext@),
            forall|i: int| 0 <= i < k ==> ascii_lower(ext@[i]) == ascii_lower(html@[i]),
        decreases ext.len() - k,
    {
        if lower_char(ext[k]) != lower_char(html[k]) {
            assert(ascii_lower(ext@[k as int]) != ascii_lower(html@[k as int]));
            return false;
        }
        k = k + 1;
    }
    true
}

/// An HTML page as the dev server sends it: with the reload script appended.
pub fn inject_reload_script(content: &str) -> (r: String)
    ensures
        r@ == content@ + RELOAD_SCRIPT@,
{
    let mut out = content.to_owned();
    out.append(RELOAD_SCRIPT);
    out
}

/// The media type that `mime_guess` gives a path.
pub uninterp spec fn mime_of(path: Seq<char>) -> Seq<char>;

/// Relies on mime_guess's `from_path` and `MimeGuess::first_or_octet_stream`: the media
/// type that its table gives the path's extension, `application/octet-stream` when it
/// has none; it depends on the path alone.
#[verifier::external_body]
fn guess_mime(path: &str) -> (r: String)
    ensures
        r@ == mime_of(path@),
{
    mime_guess::from_path(path).first_or_octet_stream().to_string()
}

/// The `Content-Type` that the dev server sends for the file at `path`.
pub fn content_type(path: &str) -> (r: String)
    ensures
        is_html_path(path@) ==> r@ == "text/html; charset=utf-8"@,
        !is_html_path(path@) ==> r@ == mime_of(path@),
{
    if is_html_file(path) {
        "text/html; charset=utf-8".to_owned()
    } else {
        guess_mime(path)
    }
}

} // verus!
