use sitegen::builder::{join, Builder};
use sitegen::errors::Error;
use sitegen::page::{page_name_from_path, split_front_matter, Config, Page};
use sitegen::parsing::{find_next_directive, find_next_template, TemplateInstance, Template};
use sitegen::resolve::{
    current_date, exec_outcome, nav_items, resolve_step, splice_page_content, Step,
};
use sitegen::text::trim_text;

fn page(file: &str, content: &str, config: Option<Config>) -> Page {
    Page::from_parts(file, content.to_string(), config)
}

fn config(title: Option<&str>, path: Option<&str>, output: Option<&str>, navignore: bool) -> Config {
    Config {
        title: title.map(|s| s.to_string()),
        path: path.map(|s| s.to_string()),
        output: output.map(|s| s.to_string()),
        navignore,
    }
}

/// Resolves `content` with templates held in memory; no `exec` or `currentdate`.
fn resolve(content: &str, page: &Page, pages: &Vec<Page>, templates: &[(&str, &str)]) -> Result<String, Error> {
    let lookup = |name: &str| {
        templates
            .iter()
            .find(|(n, _)| *n == name)
            .map(|(_, t)| t.to_string())
            .expect("template")
    };
    let mut content = trim_text(content);
    loop {
        match resolve_step(&content, page, pages)? {
            Step::Done => return Ok(content),
            Step::Replace(c) => content = c,
            Step::Extend { name, body } => {
                content = splice_page_content(&lookup(&name), &body)?;
            }
            Step::Use { name, at } => {
                let inner = resolve(&lookup(&name), page, pages, templates)?;
                content = at.insert_between(&content, &inner);
            }
            Step::Date { .. } | Step::Exec { .. } => panic!("not used here"),
        }
    }
}

#[test]
fn scan_span_of_directive() {
    let d = find_next_directive("a {{ x }} b").unwrap().unwrap();
    assert_eq!(d.start_pos, 2);
    assert_eq!(d.end_pos, 8);
    assert_eq!(&"a {{ x }} b"[d.start_pos..=d.end_pos], "{{ x }}");
    assert_eq!(d.inner, " x ");
    assert_eq!(trim_text(&d.inner), "x");
    assert!(find_next_directive("no directive").unwrap().is_none());
}

#[test]
fn unclosed_and_empty_directives() {
    assert!(matches!(find_next_directive("a {{ b"), Err(Error::UnclosedTemplate)));
    assert!(matches!(find_next_template("a {{ pagename } b"), Err(Error::UnclosedTemplate)));
    assert!(matches!(find_next_template("{{}}"), Err(Error::Empty)));
    assert!(matches!(find_next_template("{{  }}"), Err(Error::Empty)));
}

#[test]
fn splice_and_remove() {
    let t = find_next_template("ab{{ pagename }}cd").unwrap().unwrap();
    assert_eq!(t.insert_between("ab{{ pagename }}cd", "XY"), "abXYcd");
    assert_eq!(t.remove_between("ab{{ pagename }}cd"), "abcd");
}

#[test]
fn extends_without_marker_fails() {
    assert!(matches!(
        splice_page_content("<html>{{ pagename }}</html>", "body"),
        Err(Error::ExtendWithNoPageContent)
    ));
    assert_eq!(
        splice_page_content("  <b>{{ pagecontent }}</b>\n", "body").unwrap(),
        "<b>body</b>"
    );
    let p = page("x.md", "", None);
    assert!(matches!(
        resolve_step("a {{ pagecontent }}", &p, &vec![]),
        Err(Error::ToplevelPageContent)
    ));
}

#[test]
fn plain_text_resolves_to_itself() {
    let p = page("x.md", "", None);
    let pages = vec![];
    assert!(matches!(resolve_step("plain { text }", &p, &pages), Ok(Step::Done)));
    assert_eq!(resolve("  plain { text }\n", &p, &pages, &[]).unwrap(), "plain { text }");
}

#[test]
fn nav_items_skip_ignored_and_mark_current() {
    let pages = vec![
        page("01_home.md", "", None),
        page("02_about.md", "", Some(config(None, Some("/about-us"), None, false))),
        page("03_secret.md", "", Some(config(None, None, None, true))),
    ];
    let nav = nav_items(&pages[1], &pages);
    assert_eq!(
        nav,
        "<a href=\"/home\">home</a>\n<a href=\"/about-us\" class=\"active\">about</a>"
    );
    assert!(!nav.contains("secret"));
    assert_eq!(nav_items(&pages[0], &vec![]), "");
}

#[test]
fn page_names_from_files() {
    assert_eq!(page_name_from_path("02_about.md"), "about");
    assert_eq!(page_name_from_path("index.html"), "index");
    assert_eq!(page_name_from_path("1_my_page.tar.gz"), "my_page.tar");
    assert_eq!(page_name_from_path("plain"), "plain");
    let p = page("02_about.md", "", Some(config(Some("About Us"), None, None, false)));
    assert_eq!(p.name, "About Us");
}

#[test]
fn front_matter_is_split_off() {
    let (c, b) = split_front_matter("\n+++\ntitle = \"Home\"\n+++\n{{ extends base }}\nHello\n").unwrap();
    assert_eq!(c.unwrap(), "\ntitle = \"Home\"\n");
    assert_eq!(b, "\n{{ extends base }}\nHello");
    let (c, b) = split_front_matter("  just text  ").unwrap();
    assert!(c.is_none());
    assert_eq!(b, "just text");
    assert!(matches!(split_front_matter("+++\ntitle = 1\n"), Err(Error::UnclosedConfig)));
}

#[test]
fn current_date_formats() {
    let d = current_date(None).unwrap();
    let c: Vec<char> = d.chars().collect();
    assert_eq!(c.len(), 19);
    for (i, ch) in c.iter().enumerate() {
        match i {
            4 | 7 => assert_eq!(*ch, '-'),
            10 => assert_eq!(*ch, ' '),
            13 | 16 => assert_eq!(*ch, ':'),
            _ => assert!(ch.is_ascii_digit()),
        }
    }
    let y = current_date(Some("%Y")).unwrap();
    assert_eq!(y.len(), 4);
    assert!(y.chars().all(|c| c.is_ascii_digit()));
    assert!(matches!(current_date(Some("%Q")), Err(Error::InvalidDateFormat(f)) if f == "%Q"));
}

#[test]
fn exec_failure_carries_stderr() {
    let content = "a {{ exec false }} b";
    let t: TemplateInstance = find_next_template(content).unwrap().unwrap();
    assert!(matches!(
        exec_outcome(content, &t, false, Some(1), "", "it broke"),
        Err(Error::ExecCommandFailed(Some(1), ref e)) if e == "it broke"
    ));
    assert_eq!(exec_outcome(content, &t, true, Some(0), "out", "").unwrap(), "a out b");
}

#[test]
fn resolve_steps_per_directive() {
    let p = page("01_home.md", "", None);
    let pages = vec![page("01_home.md", "", None)];
    match resolve_step("x {{ use nav }} y", &p, &pages).unwrap() {
        Step::Use { name, at } => {
            assert_eq!(name, "nav");
            assert_eq!((at.start_pos, at.end_pos), (2, 14));
        }
        _ => panic!("expected use"),
    }
    match resolve_step("{{ exec echo 'a b' }}", &p, &pages).unwrap() {
        Step::Exec { command, args, .. } => {
            assert_eq!(command, "echo");
            assert_eq!(args, vec!["a b"]);
        }
        _ => panic!("expected exec"),
    }
    match resolve_step("{{ currentdate '%Y' }}", &p, &pages).unwrap() {
        Step::Date { format, .. } => assert_eq!(format.as_deref(), Some("%Y")),
        _ => panic!("expected date"),
    }
    match resolve_step("a {{ extends base }} b", &p, &pages).unwrap() {
        Step::Extend { name, body } => {
            assert_eq!(name, "base");
            assert_eq!(body, "a  b");
        }
        _ => panic!("expected extend"),
    }
    match resolve_step("<{{ navitems }}>", &p, &pages).unwrap() {
        Step::Replace(c) => assert_eq!(c, "<<a href=\"/home\" class=\"active\">home</a>>"),
        _ => panic!("expected replace"),
    }
    assert_eq!(
        resolve("[{{ use frame }}]", &p, &pages, &[("frame", " ({{ pagename }}) ")]).unwrap(),
        "[(home)]"
    );
}

#[test]
fn builder_paths() {
    let b = Builder::new("src", "dist");
    assert_eq!(b.public_dir, "src/public");
    assert_eq!(b.pages_dir, "src/pages");
    assert_eq!(b.templates_dir, "src/templates");
    assert_eq!(b.target_dir, "dist");
    assert_eq!(b.template_file("base"), "src/templates/base.html");
    assert_eq!(b.public_target(), "dist/public");
    assert_eq!(join("site/", "x"), "site/x");
    assert_eq!(join("", "x"), "x");
    assert_eq!(join("site", "/abs"), "/abs");
    let home = page("home.md", "", None);
    assert_eq!(b.output_path(&home), "dist/home/index.html");
    let feed = page("feed.md", "", Some(config(None, None, Some("feed.xml"), false)));
    assert_eq!(b.output_path(&feed), "dist/feed.xml");
}

#[test]
fn end_to_end_home_page() {
    let text = "+++\ntitle = \"Home\"\n+++\n{{ extends base }}\nHello";
    let (cfg, body) = split_front_matter(text).unwrap();
    assert_eq!(cfg.as_deref(), Some("\ntitle = \"Home\"\n"));
    let home = page("home.md", &body, Some(config(Some("Home"), None, None, false)));
    let pages = vec![page("home.md", &body, Some(config(Some("Home"), None, None, false)))];
    let base = "<html><h1>{{ pagename }}</h1><main>{{ pagecontent }}</main></html>";
    let out = resolve(&home.content, &home, &pages, &[("base", base)]).unwrap();
    assert_eq!(out, "<html><h1>Home</h1><main>\nHello</main></html>");
    let b = Builder::new("site", "out");
    assert_eq!(b.output_path(&home), "out/Home/index.html");
}

#[test]
fn file_names_sort_lexicographically() {
    let names = vec!["b.md", "02_about.md", "a.md", "10_x.md", "01_home.md", "Z.md"]
        .into_iter()
        .map(String::from)
        .collect();
    assert_eq!(
        sitegen::order::sort_file_names(names),
        vec!["01_home.md", "02_about.md", "10_x.md", "Z.md", "a.md", "b.md"]
    );
    assert!(sitegen::order::sort_file_names(vec![]).is_empty());
    assert!(sitegen::order::lex_le_exec("ab", "abc"));
    assert!(!sitegen::order::lex_le_exec("abc", "ab"));
    assert!(sitegen::order::lex_le_exec("same", "same"));
}

#[test]
fn nav_items_mark_exactly_one_entry() {
    let pages = vec![
        page("01_a.md", "", None),
        page("02_b.md", "", None),
        page("03_c.md", "", None),
    ];
    let nav = nav_items(&pages[2], &pages);
    let active: Vec<&str> = nav.lines().filter(|l| l.contains(" class=\"active\"")).collect();
    assert_eq!(active, vec!["<a href=\"/c\" class=\"active\">c</a>"]);
    assert_eq!(nav.lines().count(), 3);
}
